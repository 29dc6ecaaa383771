use balance_agent::staking::{
    display_order, PoolError, merge_pool, merge_pools, needs_availability_query, parse_balance, PoolReplies,
    StakingData,
};

fn replies(pool: &str, staked: Result<&str, &str>, unstaked: Result<&str, &str>, availability: Result<bool, &str>) -> PoolReplies<String> {
    PoolReplies {
        pool_id: pool.to_string(),
        staked: staked.map(|s| s.to_string()).map_err(|e| e.to_string()),
        unstaked: unstaked.map(|s| s.to_string()).map_err(|e| e.to_string()),
        availability: availability.map_err(|e| e.to_string()),
    }
}

fn position(pool: &str, staked: u128, unstaked: u128) -> StakingData {
    StakingData {
        pool_id: pool.to_string(),
        staked_amount: staked,
        unstaked_amount: unstaked,
        is_unstaked_balance_available: false,
    }
}

#[test]
fn one_failed_sub_query_fails_the_aggregate() {
    let pools = vec![
        replies("one.pool", Ok("10"), Ok("0"), Ok(false)),
        replies("two.pool", Err("pool 2 staked failed"), Ok("0"), Ok(false)),
        replies("three.pool", Ok("30"), Ok("0"), Ok(false)),
    ];
    match merge_pools(pools) {
        Err(e) => assert_eq!(e, PoolError::Query("pool 2 staked failed".to_string())),
        Ok(_) => panic!("the aggregate must fail"),
    }
}

#[test]
fn first_failing_pool_error_is_returned() {
    let pools = vec![
        replies("one.pool", Ok("1"), Err("one unstaked"), Ok(false)),
        replies("two.pool", Err("two staked"), Ok("0"), Ok(false)),
    ];
    match merge_pools(pools) {
        Err(e) => assert_eq!(e, PoolError::Query("one unstaked".to_string())),
        Ok(_) => panic!("the aggregate must fail"),
    }
}

#[test]
fn unstaked_of_exactly_threshold_is_dust() {
    assert!(!needs_availability_query(1000));
    let d = merge_pool(replies("p", Ok("5"), Ok("1000"), Err("never asked"))).ok().unwrap();
    assert_eq!(d.unstaked_amount, 0);
    assert!(!d.is_unstaked_balance_available);
    assert_eq!(d.staked_amount, 5);
}

#[test]
fn unstaked_above_threshold_asks_availability() {
    assert!(needs_availability_query(1001));
    let d = merge_pool(replies("p", Ok("5"), Ok("1001"), Ok(true))).ok().unwrap();
    assert_eq!(d.unstaked_amount, 1001);
    assert!(d.is_unstaked_balance_available);
    match merge_pool(replies("p", Ok("5"), Ok("1001"), Err("availability failed"))) {
        Err(e) => assert_eq!(e, PoolError::Query("availability failed".to_string())),
        Ok(_) => panic!("the availability failure must surface"),
    }
}

#[test]
fn all_pools_merge_in_order() {
    let pools = vec![
        replies("a.pool", Ok("100"), Ok("2000"), Ok(false)),
        replies("b.pool", Ok("7"), Ok("3"), Ok(true)),
    ];
    let v = merge_pools(pools).ok().unwrap();
    assert_eq!(v.len(), 2);
    assert_eq!(v[0].pool_id, "a.pool");
    assert_eq!(v[0].unstaked_amount, 2000);
    assert_eq!(v[1].pool_id, "b.pool");
    assert_eq!(v[1].unstaked_amount, 0);
    assert!(!v[1].is_unstaked_balance_available);
}

#[test]
fn empty_pool_list_merges_to_nothing() {
    let v = merge_pools::<String>(Vec::new()).ok().unwrap();
    assert!(v.is_empty());
}

#[test]
fn unreadable_balance_is_not_a_number() {
    assert_eq!(parse_balance(""), None);
    assert_eq!(parse_balance("abc"), None);
    assert_eq!(parse_balance("123"), Some(123));
}

#[test]
fn non_numeric_balance_fails_the_aggregate() {
    let pools = vec![
        replies("one.pool", Ok("10"), Ok("0"), Ok(false)),
        replies("two.pool", Ok("abc"), Ok("0"), Ok(false)),
    ];
    match merge_pools(pools) {
        Err(e) => assert_eq!(e, PoolError::Decode),
        Ok(_) => panic!("the aggregate must fail"),
    }
    match merge_pool(replies("p", Ok("5"), Ok(""), Ok(false))) {
        Err(e) => assert_eq!(e, PoolError::Decode),
        Ok(_) => panic!("an empty unstaked balance must fail"),
    }
}

#[test]
fn display_drops_empty_and_sorts_by_total() {
    let v = display_order(vec![
        position("small", 5, 0),
        position("empty", 0, 0),
        position("big", 100, 50),
        position("tie", 3, 2),
        position("unstaking", 0, 200),
    ]);
    let ids: Vec<&str> = v.iter().map(|d| d.pool_id.as_str()).collect();
    assert_eq!(ids, vec!["unstaking", "big", "small", "tie"]);
}

#[test]
fn display_totals_do_not_overflow() {
    let v = display_order(vec![position("a", u128::MAX, 0), position("b", u128::MAX, 1)]);
    assert_eq!(v[0].pool_id, "b");
    assert_eq!(v[1].pool_id, "a");
}
