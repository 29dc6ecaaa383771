//! A get-or-compute cache whose entries expire a fixed time after they were
//! stored, held in a least-recently-used store of bounded size.
//!
//! A lookup that finds no live entry is a miss: the caller computes the
//! value (an upstream request) and stores it. Failures are never stored.
//! Times are whole seconds on a clock the caller reads.
use cached::Cached;
use cached::SizedCache;
use crate::string_view;
use vstd::prelude::*;

verus! {

#[verifier::external_type_specification]
#[verifier::external_body]
#[verifier::reject_recursive_types(K)]
#[verifier::reject_recursive_types(V)]
pub struct ExSizedCache<K, V>(SizedCache<K, V>);

/// The store under a cache: for each key, a value and its expiry time.
pub type LruStore = SizedCache<String, (String, u128)>;

/// What a least-recently-used store holds: for each key, the value and the
/// time at which it expires.
pub uninterp spec fn lru_entries(c: LruStore) -> Map<Seq<char>, (Seq<char>, u128)>;

/// The number of entries a least-recently-used store was made to hold.
pub uninterp spec fn lru_capacity(c: LruStore) -> nat;

/// Relies on `SizedCache::with_size`, which panics on a size of zero and
/// otherwise makes an empty store of that size.
#[verifier::external_body]
fn lru_with_size(size: usize) -> (r: LruStore)
    requires
        size > 0,
    ensures
        lru_entries(r).dom() == Set::<Seq<char>>::empty(),
        lru_capacity(r) == size,
{
    SizedCache::with_size(size)
}

/// Relies on `Cached::cache_get` of `SizedCache`: it returns the value stored
/// under the key, if any, and only moves that entry to the front of its
/// recency order.
#[verifier::external_body]
fn lru_get(c: &mut LruStore, key: &String) -> (r: Option<(String, u128)>)
    ensures
        lru_entries(*final(c)) == lru_entries(*old(c)),
        lru_capacity(*final(c)) == lru_capacity(*old(c)),
        r.is_some() == lru_entries(*old(c)).contains_key(key@),
        r.is_some() ==> (r.unwrap().0@, r.unwrap().1) == lru_entries(*old(c))[key@],
{
    c.cache_get(key).cloned()
}

/// Relies on `Cached::cache_set` of `SizedCache`: it stores the value under
/// the key, replacing an earlier one, and where the store then holds more
/// entries than its size it drops the least recently used one, never the
/// entry just stored.
#[verifier::external_body]
fn lru_set(c: &mut LruStore, key: String, value: (String, u128))
    ensures
        lru_entries(*final(c)).contains_key(key@),
        lru_entries(*final(c))[key@] == (value.0@, value.1),
        lru_entries(*final(c)).submap_of(lru_entries(*old(c)).insert(key@, (value.0@, value.1))),
        lru_entries(*final(c)).dom().finite(),
        lru_entries(*final(c)).len() <= lru_capacity(*old(c)),
        lru_capacity(*final(c)) == lru_capacity(*old(c)),
{
    c.cache_set(key, value);
}

/// When an entry stored at `now` for `ttl` seconds expires.
pub open spec fn expiry(now: u64, ttl: u64) -> u128 {
    (now + ttl) as u128
}

/// The value that `entries` serves for `key` at time `now`: the stored one,
/// while it has not expired.
pub open spec fn live(entries: Map<Seq<char>, (Seq<char>, u128)>, key: Seq<char>, now: u64) -> Option<Seq<char>> {
    if entries.contains_key(key) && (now as u128) < entries[key].1 {
        Some(entries[key].0)
    } else {
        None
    }
}

/// `after` is what a store of `value` under `key` at time `now`, for `ttl`
/// seconds, may leave of `before`: the new entry, and some of the others.
pub open spec fn stored(
    before: Map<Seq<char>, (Seq<char>, u128)>,
    after: Map<Seq<char>, (Seq<char>, u128)>,
    key: Seq<char>,
    value: Seq<char>,
    now: u64,
    ttl: u64,
) -> bool {
    &&& after.contains_key(key)
    &&& after[key] == (value, expiry(now, ttl))
    &&& after.submap_of(before.insert(key, (value, expiry(now, ttl))))
}

/// A cache of response texts keyed by the text of the request.
pub struct TtlCache {
    store: LruStore,
}

impl TtlCache {
    /// The entries held: for each key, the value and its expiry time.
    pub closed spec fn entries(&self) -> Map<Seq<char>, (Seq<char>, u128)> {
        lru_entries(self.store)
    }

    /// The largest number of entries held at once.
    pub closed spec fn capacity(&self) -> nat {
        lru_capacity(self.store)
    }

    /// An empty cache holding at most `capacity` entries.
    pub fn new(capacity: usize) -> (c: TtlCache)
        requires
            capacity > 0,
        ensures
            c.entries().dom() == Set::<Seq<char>>::empty(),
            c.capacity() == capacity,
    {
        TtlCache { store: lru_with_size(capacity) }
    }

    /// The live value stored under `key` at time `now`; `None` is a miss,
    /// on which the caller computes the value.
    pub fn lookup(&mut self, key: &String, now: u64) -> (r: Option<String>)
        ensures
            string_view(r) == live(old(self).entries(), key@, now),
            final(self).entries() == old(self).entries(),
            final(self).capacity() == old(self).capacity(),
    {
        match lru_get(&mut self.store, key) {
            Some(slot) => {
                if (now as u128) < slot.1 {
                    Some(slot.0)
                } else {
                    None
                }
            },
            None => None,
        }
    }

    /// Ends a miss: a value computed at time `now` is stored, live for `ttl`
    /// seconds, and returned; a failure is returned and nothing is stored.
    pub fn complete<E>(&mut self, key: String, outcome: Result<String, E>, now: u64, ttl: u64) -> (r: Result<String, E>)
        ensures
            r == outcome,
            match outcome {
                Ok(v) => stored(old(self).entries(), final(self).entries(), key@, v@, now, ttl),
                Err(_) => final(self).entries() == old(self).entries(),
            },
            final(self).entries().len() <= old(self).capacity() || final(self).entries() == old(self).entries(),
            final(self).capacity() == old(self).capacity(),
    {
        match outcome {
            Ok(v) => {
                self.store(key, v.clone(), now, ttl);
                Ok(v)
            },
            Err(e) => Err(e),
        }
    }

    /// Stores a value computed at time `now`, live for `ttl` seconds.
    pub fn store(&mut self, key: String, value: String, now: u64, ttl: u64)
        ensures
            stored(old(self).entries(), final(self).entries(), key@, value@, now, ttl),
            final(self).entries().dom().finite(),
            final(self).entries().len() <= old(self).capacity(),
            final(self).capacity() == old(self).capacity(),
    {
        let until = now as u128 + ttl as u128;
        lru_set(&mut self.store, key, (value, until));
    }
}

/// A value stored for `ttl` seconds is served, with no new computation, by a
/// lookup of the same key at any time before the `ttl` has elapsed.
pub proof fn lemma_hit_within_ttl(
    before: Map<Seq<char>, (Seq<char>, u128)>,
    after: Map<Seq<char>, (Seq<char>, u128)>,
    key: Seq<char>,
    value: Seq<char>,
    now: u64,
    ttl: u64,
    later: u64,
)
    requires
        stored(before, after, key, value, now, ttl),
        now <= later,
        later < now + ttl,
    ensures
        live(after, key, later) == Some(value),
{
}

/// Once `ttl` seconds have elapsed since a value was stored, a lookup of the
/// same key misses, and the caller computes the value again.
pub proof fn lemma_miss_after_ttl(
    before: Map<Seq<char>, (Seq<char>, u128)>,
    after: Map<Seq<char>, (Seq<char>, u128)>,
    key: Seq<char>,
    value: Seq<char>,
    now: u64,
    ttl: u64,
    later: u64,
)
    requires
        stored(before, after, key, value, now, ttl),
        later >= now + ttl,
    ensures
        live(after, key, later).is_none(),
{
}

} // verus!
