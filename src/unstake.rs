//! Planning of the transactions that withdraw and unstake an account's
//! staked balance, in one pool or across all of them. Amounts are in the
//! native token's smallest unit.
use crate::string_view;
use crate::staking::{views, StakingData, StakingView, NOT_STAKING_THRESHOLD};
use vstd::prelude::*;

verus! {

/// The query of the unstake endpoint, with the amount already in the
/// smallest unit.
pub struct UnstakeInput {
    pub account_id: String,
    pub pool_account_id: Option<String>,
    pub amount: Option<u128>,
}

#[derive(Debug, Clone, Copy, PartialEq, Eq, Structural)]
pub enum ActionKind {
    /// Withdraw `amount` of the unstaked balance.
    Withdraw,
    /// Withdraw the whole unstaked balance, which is `amount`.
    WithdrawAll,
    /// Unstake `amount` of the staked balance.
    Unstake,
    /// Unstake the whole staked balance, which is `amount`.
    UnstakeAll,
}

/// One transaction to a staking pool.
pub struct Action {
    pub kind: ActionKind,
    pub pool_id: String,
    pub amount: u128,
}

pub type ActionView = (ActionKind, Seq<char>, u128);

impl Action {
    pub open spec fn view(&self) -> ActionView {
        (self.kind, self.pool_id@, self.amount)
    }
}

pub enum UnstakePlan {
    /// The account holds no position in the pool named.
    NotStakingInPool,
    /// The amount asked for exceeds both balances of the pool named.
    Insufficient { staked: u128, unstaked: u128 },
    /// One transaction to the pool named; after a full withdrawal,
    /// `unstake_next` is the staked balance that is left to unstake, if it
    /// is above the dust threshold.
    InPool { action: Action, unstake_next: Option<u128> },
    /// Transactions across every pool, in order.
    Across(Vec<Action>),
    /// No pool holds a balance to withdraw or unstake.
    NotStakingAnywhere,
}

/// A plan as plain values.
pub enum PlanView {
    NotStakingInPool,
    Insufficient(u128, u128),
    InPool(ActionView, Option<u128>),
    Across(Seq<ActionView>),
    NotStakingAnywhere,
}

impl UnstakePlan {
    pub open spec fn view(&self) -> PlanView {
        match self {
            UnstakePlan::NotStakingInPool => PlanView::NotStakingInPool,
            UnstakePlan::Insufficient { staked, unstaked } => PlanView::Insufficient(*staked, *unstaked),
            UnstakePlan::InPool { action, unstake_next } => PlanView::InPool(action@, *unstake_next),
            UnstakePlan::Across(v) => PlanView::Across(v@.map_values(|a: Action| a@)),
            UnstakePlan::NotStakingAnywhere => PlanView::NotStakingAnywhere,
        }
    }
}

/// The plan for the one pool whose position is `d`.
pub open spec fn pool_plan(d: StakingView, amount: Option<u128>) -> PlanView {
    let (pool, staked, unstaked, _) = d;
    match amount {
        Some(y) => if unstaked >= y {
            PlanView::InPool((ActionKind::Withdraw, pool, y), None)
        } else if staked < y {
            PlanView::Insufficient(staked, unstaked)
        } else {
            PlanView::InPool((ActionKind::Unstake, pool, y), None)
        },
        None => if unstaked != 0 {
            PlanView::InPool(
                (ActionKind::WithdrawAll, pool, unstaked),
                if staked > NOT_STAKING_THRESHOLD { Some(staked) } else { None },
            )
        } else if staked <= NOT_STAKING_THRESHOLD {
            PlanView::NotStakingInPool
        } else {
            PlanView::InPool((ActionKind::UnstakeAll, pool, staked), None)
        },
    }
}

pub open spec fn min_u128(a: u128, b: u128) -> u128 {
    if a <= b { a } else { b }
}

/// The withdrawals across `pools`, in order, and what is left of the amount:
/// each pool gives its unstaked balance, up to what is left; with no amount
/// given, each gives all of it. Pools stop giving once nothing is left.
pub open spec fn withdraw_phase(pools: Seq<StakingView>, left: Option<u128>) -> (Seq<ActionView>, Option<u128>)
    decreases pools.len(),
{
    if pools.len() == 0 || left == Some(0u128) {
        (Seq::empty(), left)
    } else {
        let (pool, _, unstaked, _) = pools[0];
        let (w, next) = match left {
            Some(r) => (min_u128(r, unstaked), Some((r - min_u128(r, unstaked)) as u128)),
            None => (unstaked, None),
        };
        let (rest, last) = withdraw_phase(pools.drop_first(), next);
        (seq![(ActionKind::Withdraw, pool, w)] + rest, last)
    }
}

/// The unstakes across `pools`, in order, after the withdrawals: pools whose
/// staked balance is dust are passed over; each other pool gives its staked
/// balance, up to what is left of the amount.
pub open spec fn unstake_phase(pools: Seq<StakingView>, left: Option<u128>) -> Seq<ActionView>
    decreases pools.len(),
{
    if pools.len() == 0 {
        Seq::empty()
    } else {
        let (pool, staked, _, _) = pools[0];
        if staked <= NOT_STAKING_THRESHOLD {
            unstake_phase(pools.drop_first(), left)
        } else if left == Some(0u128) {
            Seq::empty()
        } else {
            let (x, next) = match left {
                Some(r) => (min_u128(r, staked), Some((r - min_u128(r, staked)) as u128)),
                None => (staked, None),
            };
            seq![(ActionKind::Unstake, pool, x)] + unstake_phase(pools.drop_first(), next)
        }
    }
}

/// The plan across every pool: the withdrawals, then the unstakes.
pub open spec fn across_plan(pools: Seq<StakingView>, amount: Option<u128>) -> PlanView {
    let (withdrawals, left) = withdraw_phase(pools, amount);
    let actions = withdrawals + unstake_phase(pools, left);
    if actions.len() == 0 {
        PlanView::NotStakingAnywhere
    } else {
        PlanView::Across(actions)
    }
}

/// The index of the first position in pool `p`, where there is one.
pub open spec fn first_position(data: Seq<StakingView>, p: Seq<char>) -> int {
    choose|i: int| 0 <= i < data.len() && (#[trigger] data[i]).0 == p
        && forall|j: int| 0 <= j < i ==> (#[trigger] data[j]).0 != p
}

/// The plan that an unstake query gives, for an account whose positions are
/// `data`: in the pool named, the first position of that pool decides;
/// otherwise every pool takes part.
pub open spec fn unstake_plan(data: Seq<StakingView>, pool: Option<Seq<char>>, amount: Option<u128>) -> PlanView {
    match pool {
        Some(p) => if exists|i: int| 0 <= i < data.len() && (#[trigger] data[i]).0 == p {
            pool_plan(data[first_position(data, p)], amount)
        } else {
            PlanView::NotStakingInPool
        },
        None => across_plan(data, amount),
    }
}

fn min(a: u128, b: u128) -> (r: u128)
    ensures
        r == min_u128(a, b),
{
    if a <= b { a } else { b }
}

fn plan_in_pool(d: &StakingData, amount: Option<u128>) -> (r: UnstakePlan)
    ensures
        r@ == pool_plan(d@, amount),
{
    let pool_id = d.pool_id.clone();
    match amount {
        Some(y) => {
            if d.unstaked_amount >= y {
                UnstakePlan::InPool {
                    action: Action { kind: ActionKind::Withdraw, pool_id, amount: y },
                    unstake_next: None,
                }
            } else if d.staked_amount < y {
                UnstakePlan::Insufficient { staked: d.staked_amount, unstaked: d.unstaked_amount }
            } else {
                UnstakePlan::InPool {
                    action: Action { kind: ActionKind::Unstake, pool_id, amount: y },
                    unstake_next: None,
                }
            }
        },
        None => {
            if d.unstaked_amount != 0 {
                let unstake_next = if d.staked_amount > NOT_STAKING_THRESHOLD {
                    Some(d.staked_amount)
                } else {
                    None
                };
                UnstakePlan::InPool {
                    action: Action { kind: ActionKind::WithdrawAll, pool_id, amount: d.unstaked_amount },
                    unstake_next,
                }
            } else if d.staked_amount <= NOT_STAKING_THRESHOLD {
                UnstakePlan::NotStakingInPool
            } else {
                UnstakePlan::InPool {
                    action: Action { kind: ActionKind::UnstakeAll, pool_id, amount: d.staked_amount },
                    unstake_next: None,
                }
            }
        },
    }
}

fn plan_across(data: &Vec<StakingData>, amount: Option<u128>) -> (r: UnstakePlan)
    ensures
        r@ == across_plan(views(data@), amount),
{
    let ghost all = views(data@);
    let n = data.len();
    let mut actions: Vec<Action> = Vec::new();
    let mut left = amount;
    let mut i: usize = 0;
    assert(all.subrange(0, n as int) =~= all);
    proof {
        let (rest, last) = withdraw_phase(all, left);
        assert(actions@.map_values(|a: Action| a@) + rest =~= rest);
    }
    while i < n && left != Some(0u128)
        invariant
            n == data@.len(),
            all == views(data@),
            all.len() == n,
            0 <= i <= n,
            withdraw_phase(all, amount) == ({
                let (rest, last) = withdraw_phase(all.subrange(i as int, n as int), left);
                (actions@.map_values(|a: Action| a@) + rest, last)
            }),
        decreases n - i,
    {
        let ghost tail = all.subrange(i as int, n as int);
        assert(tail.drop_first() =~= all.subrange(i + 1, n as int));
        assert(tail[0] == data@[i as int]@);
        let d = &data[i];
        let w = match left {
            Some(r) => {
                let w = min(r, d.unstaked_amount);
                left = Some(r - w);
                w
            },
            None => d.unstaked_amount,
        };
        let ghost before = actions@;
        actions.push(Action { kind: ActionKind::Withdraw, pool_id: d.pool_id.clone(), amount: w });
        assert(actions@.map_values(|a: Action| a@) =~= before.map_values(|a: Action| a@).push(
            (ActionKind::Withdraw, d.pool_id@, w),
        ));
        i = i + 1;
        proof {
            let (rest, last) = withdraw_phase(all.subrange(i as int, n as int), left);
            assert(before.map_values(|a: Action| a@) + (seq![(ActionKind::Withdraw, d.pool_id@, w)] + rest)
                =~= actions@.map_values(|a: Action| a@) + rest);
        }
    }
    proof {
        let (rest, last) = withdraw_phase(all.subrange(i as int, n as int), left);
        assert(rest =~= Seq::<ActionView>::empty());
        assert(actions@.map_values(|a: Action| a@) + rest =~= actions@.map_values(|a: Action| a@));
    }
    let ghost withdrawals = actions@.map_values(|a: Action| a@);
    let ghost left_after = left;
    let mut j: usize = 0;
    let mut stop = false;
    proof {
        let done = actions@.map_values(|a: Action| a@);
        assert(done.subrange(withdrawals.len() as int, done.len() as int) =~= Seq::<ActionView>::empty());
        assert(done.subrange(withdrawals.len() as int, done.len() as int) + unstake_phase(all, left)
            =~= unstake_phase(all, left));
        assert(done.subrange(0, withdrawals.len() as int) =~= withdrawals);
    }
    while j < n && !stop
        invariant
            n == data@.len(),
            all == views(data@),
            all.len() == n,
            0 <= j <= n,
            withdraw_phase(all, amount) == (withdrawals, left_after),
            !stop ==> unstake_phase(all, left_after) == ({
                let done = actions@.map_values(|a: Action| a@);
                done.subrange(withdrawals.len() as int, done.len() as int)
                    + unstake_phase(all.subrange(j as int, n as int), left)
            }),
            stop ==> unstake_phase(all, left_after) == ({
                let done = actions@.map_values(|a: Action| a@);
                done.subrange(withdrawals.len() as int, done.len() as int)
            }),
            actions@.len() >= withdrawals.len(),
            actions@.map_values(|a: Action| a@).subrange(0, withdrawals.len() as int) == withdrawals,
        decreases 2 * (n - j) + (if stop { 0int } else { 1int }),
    {
        let ghost tail = all.subrange(j as int, n as int);
        assert(tail.drop_first() =~= all.subrange(j + 1, n as int));
        assert(tail[0] == data@[j as int]@);
        let ghost done_before = actions@.map_values(|a: Action| a@);
        let d = &data[j];
        if d.staked_amount <= NOT_STAKING_THRESHOLD {
            j = j + 1;
        } else if left == Some(0u128) {
            stop = true;
            proof {
                assert(unstake_phase(tail, left) =~= Seq::<ActionView>::empty());
                assert(done_before.subrange(withdrawals.len() as int, done_before.len() as int)
                    + Seq::<ActionView>::empty() =~= done_before.subrange(withdrawals.len() as int, done_before.len() as int));
            }
        } else {
            let ghost left_before = left;
            let x = match left {
                Some(r) => {
                    let x = min(r, d.staked_amount);
                    left = Some(r - x);
                    x
                },
                None => d.staked_amount,
            };
            actions.push(Action { kind: ActionKind::Unstake, pool_id: d.pool_id.clone(), amount: x });
            j = j + 1;
            proof {
                let done = actions@.map_values(|a: Action| a@);
                assert(done =~= done_before.push((ActionKind::Unstake, d.pool_id@, x)));
                assert(done.subrange(0, withdrawals.len() as int) =~= done_before.subrange(0, withdrawals.len() as int));
                assert(done.subrange(withdrawals.len() as int, done.len() as int)
                    =~= done_before.subrange(withdrawals.len() as int, done_before.len() as int).push(
                    (ActionKind::Unstake, d.pool_id@, x),
                ));
                assert(done_before.subrange(withdrawals.len() as int, done_before.len() as int) + (seq![
                    (ActionKind::Unstake, d.pool_id@, x),
                ] + unstake_phase(all.subrange(j as int, n as int), left))
                    =~= done.subrange(withdrawals.len() as int, done.len() as int) + unstake_phase(
                    all.subrange(j as int, n as int),
                    left,
                ));
            }
        }
    }
    proof {
        let done = actions@.map_values(|a: Action| a@);
        if !stop {
            assert(unstake_phase(all.subrange(j as int, n as int), left) =~= Seq::<ActionView>::empty());
        }
        assert(done =~= withdrawals + done.subrange(withdrawals.len() as int, done.len() as int));
    }
    if actions.len() == 0 {
        UnstakePlan::NotStakingAnywhere
    } else {
        UnstakePlan::Across(actions)
    }
}

/// Plans the transactions that an unstake query asks for, given the
/// account's positions. With a pool named, a given amount is withdrawn where
/// the unstaked balance covers it and unstaked where the staked balance
/// does; with no amount, the unstaked balance is withdrawn, or else the
/// staked balance unstaked. With no pool named, the amount (or everything)
/// is withdrawn pool by pool, and what is still asked for is then unstaked
/// pool by pool.
pub fn plan_unstake(data: &Vec<StakingData>, pool_account_id: &Option<String>, amount: Option<u128>) -> (r: UnstakePlan)
    ensures
        r@ == unstake_plan(views(data@), string_view(*pool_account_id), amount),
{
    let ghost all = views(data@);
    match pool_account_id {
        Some(p) => {
            let mut i: usize = 0;
            while i < data.len()
                invariant
                    all == views(data@),
                    all.len() == data@.len(),
                    string_view(*pool_account_id) == Some(p@),
                    0 <= i <= data@.len(),
                    forall|j: int| 0 <= j < i ==> (#[trigger] all[j]).0 != p@,
                decreases data@.len() - i,
            {
                if data[i].pool_id == *p {
                    assert(all[i as int].0 == p@);
                    assert(0 <= i < all.len() && (#[trigger] all[i as int]).0 == p@
                        && forall|j: int| 0 <= j < i ==> (#[trigger] all[j]).0 != p@);
                    let ghost k = first_position(all, p@);
                    assert(all[i as int] == data@[i as int]@);
                    assert(k == i) by {
                        if k < i {
                            assert(all[k].0 != p@);
                        } else if k > i {
                            assert(all[i as int].0 != p@);
                        }
                    }
                    let r = plan_in_pool(&data[i], amount);
                    assert(exists|x: int| 0 <= x < all.len() && (#[trigger] all[x]).0 == p@);
                    return r;
                }
                assert(all[i as int].0 != p@);
                i = i + 1;
            }
            UnstakePlan::NotStakingInPool
        },
        None => plan_across(data, amount),
    }
}

} // verus!
