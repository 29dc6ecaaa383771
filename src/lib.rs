//! Cached, failover-aware access to a blockchain's RPC nodes and to token
//! indexing services: the decisions of endpoint failover, time-limited
//! caching, the shared reference dataset of tokens, and the fan-out over an
//! account's staking pools, with the requests they send and the numbers
//! they decode.
use vstd::prelude::*;

pub mod failover;
pub mod formatting;
pub mod numeric;
pub mod rpc;
pub mod search;
pub mod staking;
pub mod tokens;
pub mod ttl_cache;
pub mod unstake;

verus! {

/// The text an optional string holds, as characters.
pub open spec fn string_view(s: Option<String>) -> Option<Seq<char>> {
    match s {
        Some(t) => Some(t@),
        None => None,
    }
}

} // verus!
