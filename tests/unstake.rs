use balance_agent::staking::StakingData;
use balance_agent::unstake::{plan_unstake, ActionKind, UnstakePlan};

fn position(pool: &str, staked: u128, unstaked: u128) -> StakingData {
    StakingData {
        pool_id: pool.to_string(),
        staked_amount: staked,
        unstaked_amount: unstaked,
        is_unstaked_balance_available: true,
    }
}

fn summary(plan: &UnstakePlan) -> Vec<(ActionKind, String, u128)> {
    match plan {
        UnstakePlan::Across(v) => v.iter().map(|a| (a.kind, a.pool_id.clone(), a.amount)).collect(),
        _ => panic!("expected transactions across pools"),
    }
}

#[test]
fn unknown_pool_is_not_staked() {
    let data = vec![position("a.pool", 5000, 0)];
    let plan = plan_unstake(&data, &Some("b.pool".to_string()), None);
    assert!(matches!(plan, UnstakePlan::NotStakingInPool));
}

#[test]
fn amount_covered_by_unstaked_is_withdrawn() {
    let data = vec![position("a.pool", 5000, 3000)];
    match plan_unstake(&data, &Some("a.pool".to_string()), Some(2000)) {
        UnstakePlan::InPool { action, unstake_next } => {
            assert_eq!(action.kind, ActionKind::Withdraw);
            assert_eq!(action.amount, 2000);
            assert_eq!(unstake_next, None);
        }
        _ => panic!("expected a withdrawal"),
    }
}

#[test]
fn amount_above_both_balances_is_insufficient() {
    let data = vec![position("a.pool", 5000, 100)];
    match plan_unstake(&data, &Some("a.pool".to_string()), Some(6000)) {
        UnstakePlan::Insufficient { staked, unstaked } => {
            assert_eq!(staked, 5000);
            assert_eq!(unstaked, 100);
        }
        _ => panic!("expected an insufficient balance"),
    }
}

#[test]
fn amount_within_staked_is_unstaked() {
    let data = vec![position("a.pool", 5000, 100)];
    match plan_unstake(&data, &Some("a.pool".to_string()), Some(4000)) {
        UnstakePlan::InPool { action, .. } => {
            assert_eq!(action.kind, ActionKind::Unstake);
            assert_eq!(action.amount, 4000);
        }
        _ => panic!("expected an unstake"),
    }
}

#[test]
fn no_amount_withdraws_everything_first() {
    let data = vec![position("a.pool", 5000, 700)];
    match plan_unstake(&data, &Some("a.pool".to_string()), None) {
        UnstakePlan::InPool { action, unstake_next } => {
            assert_eq!(action.kind, ActionKind::WithdrawAll);
            assert_eq!(action.amount, 700);
            assert_eq!(unstake_next, Some(5000));
        }
        _ => panic!("expected a full withdrawal"),
    }
}

#[test]
fn no_amount_and_dust_stake_is_not_staked() {
    let data = vec![position("a.pool", 1000, 0)];
    let plan = plan_unstake(&data, &Some("a.pool".to_string()), None);
    assert!(matches!(plan, UnstakePlan::NotStakingInPool));
}

#[test]
fn no_amount_unstakes_everything() {
    let data = vec![position("a.pool", 1001, 0)];
    match plan_unstake(&data, &Some("a.pool".to_string()), None) {
        UnstakePlan::InPool { action, .. } => {
            assert_eq!(action.kind, ActionKind::UnstakeAll);
            assert_eq!(action.amount, 1001);
        }
        _ => panic!("expected a full unstake"),
    }
}

#[test]
fn across_pools_withdraws_then_unstakes() {
    let data = vec![position("a.pool", 500, 300), position("b.pool", 4000, 200)];
    let plan = plan_unstake(&data, &None, Some(1000));
    assert_eq!(
        summary(&plan),
        vec![
            (ActionKind::Withdraw, "a.pool".to_string(), 300),
            (ActionKind::Withdraw, "b.pool".to_string(), 200),
            (ActionKind::Unstake, "b.pool".to_string(), 500),
        ]
    );
}

#[test]
fn across_pools_without_amount_takes_everything() {
    let data = vec![position("a.pool", 5000, 0), position("b.pool", 10, 20)];
    let plan = plan_unstake(&data, &None, None);
    assert_eq!(
        summary(&plan),
        vec![
            (ActionKind::Withdraw, "a.pool".to_string(), 0),
            (ActionKind::Withdraw, "b.pool".to_string(), 20),
            (ActionKind::Unstake, "a.pool".to_string(), 5000),
        ]
    );
}

#[test]
fn amount_covered_by_withdrawals_stops_early() {
    let data = vec![position("a.pool", 5000, 800), position("b.pool", 5000, 800)];
    let plan = plan_unstake(&data, &None, Some(800));
    assert_eq!(summary(&plan), vec![(ActionKind::Withdraw, "a.pool".to_string(), 800)]);
}

#[test]
fn no_pools_is_not_staking_anywhere() {
    let plan = plan_unstake(&Vec::new(), &None, None);
    assert!(matches!(plan, UnstakePlan::NotStakingAnywhere));
}
