//! Staking positions of an account: the requests that the fan-out issues for
//! each pool, and the all-or-nothing merge of their replies.
use crate::numeric::{numeral_value, numeral_within, parse_decimal_at_most};
use itertools::Itertools;
use vstd::prelude::*;

verus! {

/// Unstaking leaves one unit behind for every earlier stake operation; an
/// unstaked balance up to this amount is dust, not a withdrawable balance.
pub const NOT_STAKING_THRESHOLD: u128 = 1000;

/// The query of the staking endpoint.
pub struct GetStakingInput {
    pub account_id: String,
}

/// The position of an account in one staking pool.
pub struct StakingData {
    pub pool_id: String,
    pub staked_amount: u128,
    pub unstaked_amount: u128,
    pub is_unstaked_balance_available: bool,
}

/// A position as plain values: pool, staked, unstaked, withdrawable now.
pub type StakingView = (Seq<char>, u128, u128, bool);

impl StakingData {
    pub open spec fn view(&self) -> StakingView {
        (self.pool_id@, self.staked_amount, self.unstaked_amount, self.is_unstaked_balance_available)
    }
}

/// The positions of a list, as plain values.
pub open spec fn views(s: Seq<StakingData>) -> Seq<StakingView> {
    s.map_values(|d: StakingData| d@)
}

/// The amount a balance text stands for, where it is a decimal numeral
/// within the range of `u128`.
pub open spec fn balance_value(text: Seq<char>) -> Option<u128> {
    if numeral_within(text, u128::MAX as int) {
        Some(numeral_value(text) as u128)
    } else {
        None
    }
}

/// Reads a balance that a pool reported as text; `None` where the text is
/// not a decimal numeral within range (an empty text among them).
pub fn parse_balance(text: &str) -> (r: Option<u128>)
    ensures
        r == balance_value(text@),
{
    parse_decimal_at_most(text, u128::MAX)
}

/// Whether an unstaked balance is above the dust threshold, so that the pool
/// is asked whether it can be withdrawn now.
pub fn needs_availability_query(unstaked: u128) -> (r: bool)
    ensures
        r == (unstaked > NOT_STAKING_THRESHOLD),
{
    unstaked > NOT_STAKING_THRESHOLD
}

/// The replies of one pool's sub-queries. `availability` is read only where
/// the unstaked balance is above the dust threshold; elsewhere it was not
/// asked for and may hold anything.
pub struct PoolReplies<E> {
    pub pool_id: String,
    pub staked: Result<String, E>,
    pub unstaked: Result<String, E>,
    pub availability: Result<bool, E>,
}

/// Why a pool's position could not be had.
#[derive(Debug, Clone, Copy, PartialEq, Eq)]
pub enum PoolError<E> {
    /// A sub-query failed with this error.
    Query(E),
    /// A balance came back in a form that is not a decimal numeral in range.
    Decode,
}

/// The balance that a sub-query's reply gives, or why there is none.
pub open spec fn reply_balance<E>(reply: Result<String, E>) -> Result<u128, PoolError<E>> {
    match reply {
        Err(e) => Err(PoolError::Query(e)),
        Ok(text) => match balance_value(text@) {
            Some(n) => Ok(n),
            None => Err(PoolError::Decode),
        },
    }
}

/// The position that a pool's replies give, or the first failure among its
/// sub-queries (staked balance, then unstaked balance, then availability).
pub open spec fn pool_position<E>(p: PoolReplies<E>) -> Result<StakingView, PoolError<E>> {
    match reply_balance(p.staked) {
        Err(e) => Err(e),
        Ok(s) => match reply_balance(p.unstaked) {
            Err(e) => Err(e),
            Ok(u) => if u > NOT_STAKING_THRESHOLD {
                match p.availability {
                    Ok(a) => Ok((p.pool_id@, s, u, a)),
                    Err(e) => Err(PoolError::Query(e)),
                }
            } else {
                Ok((p.pool_id@, s, 0u128, false))
            },
        },
    }
}

fn read_reply<E>(reply: Result<String, E>) -> (r: Result<u128, PoolError<E>>)
    ensures
        r == reply_balance(reply),
{
    match reply {
        Ok(text) => match parse_balance(text.as_str()) {
            Some(n) => Ok(n),
            None => Err(PoolError::Decode),
        },
        Err(e) => Err(PoolError::Query(e)),
    }
}

/// Merges one pool's replies into its position.
pub fn merge_pool<E>(p: PoolReplies<E>) -> (r: Result<StakingData, PoolError<E>>)
    ensures
        match (r, pool_position(p)) {
            (Ok(d), Ok(v)) => d@ == v,
            (Err(e), Err(f)) => e == f,
            _ => false,
        },
{
    let staked = match read_reply(p.staked) {
        Ok(n) => n,
        Err(e) => return Err(e),
    };
    let unstaked = match read_reply(p.unstaked) {
        Ok(n) => n,
        Err(e) => return Err(e),
    };
    if needs_availability_query(unstaked) {
        match p.availability {
            Ok(a) => Ok(StakingData {
                pool_id: p.pool_id,
                staked_amount: staked,
                unstaked_amount: unstaked,
                is_unstaked_balance_available: a,
            }),
            Err(e) => Err(PoolError::Query(e)),
        }
    } else {
        Ok(StakingData {
            pool_id: p.pool_id,
            staked_amount: staked,
            unstaked_amount: 0,
            is_unstaked_balance_available: false,
        })
    }
}

/// Every pool's replies give a position.
pub open spec fn all_merge<E>(pools: Seq<PoolReplies<E>>) -> bool {
    forall|i: int| 0 <= i < pools.len() ==> (#[trigger] pool_position(pools[i])).is_ok()
}

/// A single failed sub-query in any pool, or a balance that is not a
/// numeral, fails the whole aggregate: no position of any pool is returned.
pub proof fn lemma_one_failure_fails_all<E>(pools: Seq<PoolReplies<E>>, k: int)
    requires
        0 <= k < pools.len(),
        reply_balance(pools[k].staked).is_err() || reply_balance(pools[k].unstaked).is_err() || (
        pools[k].availability.is_err() && reply_balance(pools[k].unstaked).is_ok()
            && reply_balance(pools[k].unstaked)->Ok_0 > NOT_STAKING_THRESHOLD),
    ensures
        !all_merge(pools),
{
    assert(pool_position(pools[k]).is_err());
}

/// Merges the replies of every pool, in the order of the pool list. The
/// aggregate succeeds only where every sub-query of every pool succeeded;
/// otherwise it fails with the error of the first pool that failed, and no
/// position is returned.
pub fn merge_pools<E>(pools: Vec<PoolReplies<E>>) -> (r: Result<Vec<StakingData>, PoolError<E>>)
    ensures
        match r {
            Ok(v) => {
                &&& all_merge(pools@)
                &&& v@.len() == pools@.len()
                &&& forall|i: int| 0 <= i < pools@.len() ==> Ok::<StakingView, PoolError<E>>(#[trigger] v@[i]@) == pool_position(pools@[i])
            },
            Err(e) => exists|i: int|
                0 <= i < pools@.len() && (forall|j: int| 0 <= j < i ==> (#[trigger] pool_position(pools@[j])).is_ok())
                    && pool_position(pools@[i]) == Err::<StakingView, PoolError<E>>(e),
        },
{
    let ghost all = pools@;
    let mut rest = pools;
    let mut out: Vec<StakingData> = Vec::new();
    while rest.len() > 0
        invariant
            all == pools@,
            out@.len() + rest@.len() == all.len(),
            rest@ == all.subrange(out@.len() as int, all.len() as int),
            forall|i: int| 0 <= i < out@.len() ==> Ok::<StakingView, PoolError<E>>(#[trigger] out@[i]@) == pool_position(all[i]),
        decreases rest@.len(),
    {
        let ghost k = out@.len() as int;
        let p = rest.remove(0);
        assert(p == all[k]);
        assert(rest@ =~= all.subrange(k + 1, all.len() as int));
        match merge_pool(p) {
            Ok(d) => {
                out.push(d);
            },
            Err(e) => {
                assert(forall|j: int| 0 <= j < k ==> Ok::<StakingView, PoolError<E>>(#[trigger] out@[j]@) == pool_position(all[j]));
                assert(forall|j: int| 0 <= j < k ==> (#[trigger] pool_position(all[j])).is_ok()) by {
                    assert forall|j: int| 0 <= j < k implies (#[trigger] pool_position(all[j])).is_ok() by {
                        assert(Ok::<StakingView, PoolError<E>>(out@[j]@) == pool_position(all[j]));
                    }
                }
                assert(pool_position(all[k]) == Err::<StakingView, PoolError<E>>(e));
                assert(0 <= k < all.len() && (forall|j: int| 0 <= j < k ==> (#[trigger] pool_position(all[j])).is_ok())
                    && pool_position(all[k]) == Err::<StakingView, PoolError<E>>(e));
                return Err(e);
            },
        }
    }
    assert forall|i: int| 0 <= i < all.len() implies (#[trigger] pool_position(all[i])).is_ok() by {
        assert(Ok::<StakingView, PoolError<E>>(out@[i]@) == pool_position(all[i]));
    }
    Ok(out)
}

/// The total balance of a position, staked and unstaked.
pub open spec fn total(d: StakingView) -> int {
    d.1 + d.2
}

/// The index at which `x` goes into `sorted`, a list ordered from the largest
/// total down: after every position whose total is at least that of `x`.
pub open spec fn insertion_point(sorted: Seq<StakingView>, x: StakingView) -> int
    decreases sorted.len(),
{
    if sorted.len() == 0 {
        0
    } else if total(sorted.last()) >= total(x) {
        sorted.len() as int
    } else {
        insertion_point(sorted.drop_last(), x)
    }
}

/// `s` ordered from the largest total down; positions of equal total keep
/// their order.
pub open spec fn by_total_desc(s: Seq<StakingView>) -> Seq<StakingView>
    decreases s.len(),
{
    if s.len() == 0 {
        s
    } else {
        let sorted = by_total_desc(s.drop_last());
        sorted.insert(insertion_point(sorted, s.last()), s.last())
    }
}

/// The positions that hold a balance, staked or unstaked.
pub open spec fn holding(s: Seq<StakingView>) -> Seq<StakingView> {
    s.filter(|d: StakingView| d.1 != 0 || d.2 != 0)
}

/// The total balance of a position, without overflow: the carry out of
/// `u128`, and the low 128 bits. Keys compare as the totals do.
pub fn total_key(d: &StakingData) -> (r: (bool, u128))
    ensures
        (if r.0 { u128::MAX as int + 1 } else { 0 }) + r.1 == total(d@),
{
    if d.staked_amount <= u128::MAX - d.unstaked_amount {
        (false, d.staked_amount + d.unstaked_amount)
    } else {
        (true, d.staked_amount - (u128::MAX - d.unstaked_amount) - 1)
    }
}

/// Relies on `Itertools::sorted_by_key`, which sorts with the stable
/// `slice::sort_by_key`; keyed by the reversed total, it orders from the
/// largest total down and keeps the given order among equal totals.
#[verifier::external_body]
fn sort_by_total_desc(data: Vec<StakingData>) -> (r: Vec<StakingData>)
    ensures
        views(r@) == by_total_desc(views(data@)),
{
    data.into_iter().sorted_by_key(|d| std::cmp::Reverse(total_key(d))).collect()
}

/// Orders the positions for display: those that hold no balance are left
/// out, and the rest come from the largest total balance down, positions of
/// equal total in the order given.
pub fn display_order(data: Vec<StakingData>) -> (r: Vec<StakingData>)
    ensures
        views(r@) == by_total_desc(holding(views(data@))),
{
    let ghost all = views(data@);
    let mut rest = data;
    let mut kept: Vec<StakingData> = Vec::new();
    let ghost mut seen: Seq<StakingView> = Seq::empty();
    proof {
        reveal(Seq::filter);
        assert(holding(seen) =~= Seq::<StakingView>::empty());
        assert(views(kept@) =~= Seq::<StakingView>::empty());
    }
    while rest.len() > 0
        invariant
            seen.len() + rest@.len() == all.len(),
            seen == all.subrange(0, seen.len() as int),
            views(rest@) == all.subrange(seen.len() as int, all.len() as int),
            views(kept@) == holding(seen),
        decreases rest@.len(),
    {
        let ghost old_rest = rest@;
        let d = rest.remove(0);
        let ghost v = d@;
        proof {
            assert(views(old_rest)[0] == old_rest[0]@);
            assert(v == all[seen.len() as int]);
            assert(rest@ =~= old_rest.subrange(1, old_rest.len() as int));
            let n = seen.len() as int;
            assert forall|k: int| 0 <= k < rest@.len() implies #[trigger] views(rest@)[k]
                == all.subrange(n + 1, all.len() as int)[k] by {
                assert(rest@[k] == old_rest[k + 1]);
                assert(views(old_rest)[k + 1] == all[n + 1 + k]);
            }
            assert(views(rest@) =~= all.subrange(n + 1, all.len() as int));
            assert(seen.push(v).drop_last() =~= seen);
            reveal(Seq::filter);
        }
        let ghost before = kept@;
        if d.staked_amount != 0 || d.unstaked_amount != 0 {
            kept.push(d);
            proof {
                assert(holding(seen.push(v)) =~= holding(seen).push(v));
                assert(views(kept@) =~= views(before).push(v));
            }
        } else {
            proof {
                assert(holding(seen.push(v)) =~= holding(seen));
            }
        }
        proof {
            seen = seen.push(v);
            assert(seen =~= all.subrange(0, seen.len() as int));
        }
    }
    proof {
        assert(seen =~= all);
    }
    sort_by_total_desc(kept)
}

} // verus!
