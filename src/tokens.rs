//! The reference dataset of tokens: metadata, prices and the spam list, held
//! as one immutable snapshot that a background refresh replaces whole.
use crate::rpc::FetchError;
use std::sync::Arc;
use vstd::prelude::*;

verus! {

#[derive(Debug)]
pub struct TokenMetadataWithoutIcon {
    pub name: String,
    pub symbol: String,
    pub decimals: u32,
}

impl TokenMetadataWithoutIcon {
    pub open spec fn view(&self) -> (Seq<char>, Seq<char>, u32) {
        (self.name@, self.symbol@, self.decimals)
    }
}

/// How far a token is trusted, from least to most.
#[derive(Debug, Clone, Copy, PartialEq, Eq, PartialOrd, Ord, Structural)]
pub enum TokenScore {
    Spam,
    Unknown,
    NotFake,
    Reputable,
}

impl TokenScore {
    /// The rank of a score in the order `Spam < Unknown < NotFake < Reputable`.
    pub open spec fn rank(self) -> nat {
        match self {
            TokenScore::Spam => 0,
            TokenScore::Unknown => 1,
            TokenScore::NotFake => 2,
            TokenScore::Reputable => 3,
        }
    }

    /// Whether `self` ranks below `other`.
    pub fn is_below(&self, other: &TokenScore) -> (r: bool)
        ensures
            r == (self.rank() < other.rank()),
    {
        let a: u8 = match self {
            TokenScore::Spam => 0,
            TokenScore::Unknown => 1,
            TokenScore::NotFake => 2,
            TokenScore::Reputable => 3,
        };
        let b: u8 = match other {
            TokenScore::Spam => 0,
            TokenScore::Unknown => 1,
            TokenScore::NotFake => 2,
            TokenScore::Reputable => 3,
        };
        a < b
    }
}

impl Default for TokenScore {
    /// A token that nothing is known of.
    fn default() -> (r: TokenScore)
        ensures
            r == TokenScore::Unknown,
    {
        TokenScore::Unknown
    }
}

/// One token of the catalog. Prices are decimal texts, as the pricing
/// service sends them; supplies are in the token's smallest unit.
pub struct Token {
    pub account_id: String,
    pub price_usd_raw: String,
    pub price_usd: String,
    pub price_usd_hardcoded: String,
    pub metadata: TokenMetadataWithoutIcon,
    pub total_supply: u128,
    pub circulating_supply: u128,
    pub circulating_supply_excluding_team: u128,
    pub reputation: TokenScore,
    pub socials: Vec<(String, String)>,
    pub slug: Vec<String>,
}

/// A snapshot of the reference dataset: the token catalog and the identifiers
/// flagged as spam.
pub struct Tokens {
    pub tokens: Vec<Token>,
    pub spam_tokens: Vec<String>,
}

/// `i` is the index of the first token of `tokens` with identifier `id`.
pub open spec fn first_token(tokens: Seq<Token>, id: Seq<char>, i: int) -> bool {
    &&& 0 <= i < tokens.len()
    &&& tokens[i].account_id@ == id
    &&& forall|j: int| 0 <= j < i ==> (#[trigger] tokens[j]).account_id@ != id
}

/// No token of `tokens` has identifier `id`.
pub open spec fn unlisted(tokens: Seq<Token>, id: Seq<char>) -> bool {
    forall|j: int| 0 <= j < tokens.len() ==> (#[trigger] tokens[j]).account_id@ != id
}

impl Tokens {
    /// Whether the catalog lists no token.
    pub open spec fn is_empty_catalog(&self) -> bool {
        self.tokens@.len() == 0
    }

    fn find(&self, token: &str) -> (r: Option<usize>)
        ensures
            match r {
                Some(i) => first_token(self.tokens@, token@, i as int),
                None => unlisted(self.tokens@, token@),
            },
    {
        let wanted = String::from_str(token);
        let mut i: usize = 0;
        while i < self.tokens.len()
            invariant
                0 <= i <= self.tokens@.len(),
                wanted@ == token@,
                forall|j: int| 0 <= j < i ==> (#[trigger] self.tokens@[j]).account_id@ != token@,
            decreases self.tokens@.len() - i,
        {
            if self.tokens[i].account_id == wanted {
                return Some(i);
            }
            i = i + 1;
        }
        None
    }

    /// Whether `token` is flagged as spam.
    pub fn is_spam_token(&self, token: &str) -> (r: bool)
        ensures
            r == exists|i: int| 0 <= i < self.spam_tokens@.len() && (#[trigger] self.spam_tokens@[i])@ == token@,
    {
        let wanted = String::from_str(token);
        let mut i: usize = 0;
        while i < self.spam_tokens.len()
            invariant
                0 <= i <= self.spam_tokens@.len(),
                wanted@ == token@,
                forall|j: int| 0 <= j < i ==> (#[trigger] self.spam_tokens@[j])@ != token@,
            decreases self.spam_tokens@.len() - i,
        {
            if self.spam_tokens[i] == wanted {
                return true;
            }
            i = i + 1;
        }
        false
    }

    /// The metadata of `token`, where the catalog lists it.
    pub fn get_ft_metadata(&self, token: &str) -> (r: Option<TokenMetadataWithoutIcon>)
        ensures
            match r {
                Some(m) => exists|i: int| first_token(self.tokens@, token@, i) && m@ == self.tokens@[i].metadata@,
                None => unlisted(self.tokens@, token@),
            },
    {
        match self.find(token) {
            Some(i) => {
                let m = &self.tokens[i].metadata;
                Some(TokenMetadataWithoutIcon { name: m.name.clone(), symbol: m.symbol.clone(), decimals: m.decimals })
            },
            None => None,
        }
    }

    /// The price in USD of `token` that the service fixes for display, as a
    /// decimal text, where the catalog lists the token.
    pub fn get_ft_price(&self, token: &str) -> (r: Option<String>)
        ensures
            match r {
                Some(p) => exists|i: int| first_token(self.tokens@, token@, i) && p@ == self.tokens@[i].price_usd_hardcoded@,
                None => unlisted(self.tokens@, token@),
            },
    {
        match self.find(token) {
            Some(i) => Some(self.tokens[i].price_usd_hardcoded.clone()),
            None => None,
        }
    }
}

/// Relies on `Arc::clone`, which hands out another pointer to the same value.
#[verifier::external_body]
fn share(a: &Arc<Tokens>) -> (r: Arc<Tokens>)
    ensures
        r == *a,
{
    Arc::clone(a)
}

/// The current snapshot of the reference dataset. Readers hold a pointer to
/// an immutable snapshot; a refresh replaces the pointer whole.
pub struct TokenStore {
    current: Arc<Tokens>,
}

/// No two tokens of the catalog share an identifier.
pub open spec fn unique_ids(tokens: Seq<Token>) -> bool {
    forall|i: int, j: int|
        0 <= i < j < tokens.len() ==> (#[trigger] tokens[i]).account_id@ != (#[trigger] tokens[j]).account_id@
}

/// No identifier is listed twice as spam.
pub open spec fn unique_spam(spam: Seq<String>) -> bool {
    forall|i: int, j: int| 0 <= i < j < spam.len() ==> (#[trigger] spam[i])@ != (#[trigger] spam[j])@
}

impl Tokens {
    /// A snapshot that can be served: the catalog lists at least one token,
    /// and identifiers are unique in the catalog and in the spam list, as
    /// the keys of the documents they are read from.
    pub open spec fn valid(&self) -> bool {
        &&& !self.is_empty_catalog()
        &&& unique_ids(self.tokens@)
        &&& unique_spam(self.spam_tokens@)
    }

    fn has_unique_ids(&self) -> (r: bool)
        ensures
            r == unique_ids(self.tokens@),
    {
        let n = self.tokens.len();
        let mut j: usize = 0;
        while j < n
            invariant
                n == self.tokens@.len(),
                0 <= j <= n,
                unique_ids(self.tokens@.subrange(0, j as int)),
            decreases n - j,
        {
            let mut i: usize = 0;
            while i < j
                invariant
                    n == self.tokens@.len(),
                    0 <= i <= j < n,
                    unique_ids(self.tokens@.subrange(0, j as int)),
                    forall|k: int| 0 <= k < i ==> (#[trigger] self.tokens@[k]).account_id@ != self.tokens@[j as int].account_id@,
                decreases j - i,
            {
                if self.tokens[i].account_id == self.tokens[j].account_id {
                    assert(!unique_ids(self.tokens@)) by {
                        assert(self.tokens@[i as int].account_id@ == self.tokens@[j as int].account_id@);
                    }
                    return false;
                }
                i = i + 1;
            }
            proof {
                let pre = self.tokens@.subrange(0, j as int);
                let next = self.tokens@.subrange(0, j + 1);
                assert forall|a: int, b: int| 0 <= a < b < next.len() implies (#[trigger] next[a]).account_id@
                    != (#[trigger] next[b]).account_id@ by {
                    if b < j {
                        assert(next[a] == pre[a] && next[b] == pre[b]);
                    }
                }
            }
            j = j + 1;
        }
        assert(self.tokens@.subrange(0, n as int) =~= self.tokens@);
        true
    }

    fn has_unique_spam(&self) -> (r: bool)
        ensures
            r == unique_spam(self.spam_tokens@),
    {
        let n = self.spam_tokens.len();
        let mut j: usize = 0;
        while j < n
            invariant
                n == self.spam_tokens@.len(),
                0 <= j <= n,
                unique_spam(self.spam_tokens@.subrange(0, j as int)),
            decreases n - j,
        {
            let mut i: usize = 0;
            while i < j
                invariant
                    n == self.spam_tokens@.len(),
                    0 <= i <= j < n,
                    unique_spam(self.spam_tokens@.subrange(0, j as int)),
                    forall|k: int| 0 <= k < i ==> (#[trigger] self.spam_tokens@[k])@ != self.spam_tokens@[j as int]@,
                decreases j - i,
            {
                if self.spam_tokens[i] == self.spam_tokens[j] {
                    assert(!unique_spam(self.spam_tokens@)) by {
                        assert(self.spam_tokens@[i as int]@ == self.spam_tokens@[j as int]@);
                    }
                    return false;
                }
                i = i + 1;
            }
            proof {
                let pre = self.spam_tokens@.subrange(0, j as int);
                let next = self.spam_tokens@.subrange(0, j + 1);
                assert forall|a: int, b: int| 0 <= a < b < next.len() implies (#[trigger] next[a])@
                    != (#[trigger] next[b])@ by {
                    if b < j {
                        assert(next[a] == pre[a] && next[b] == pre[b]);
                    }
                }
            }
            j = j + 1;
        }
        assert(self.spam_tokens@.subrange(0, n as int) =~= self.spam_tokens@);
        true
    }

    /// Tells whether the snapshot can be served.
    pub fn is_valid(&self) -> (r: bool)
        ensures
            r == self.valid(),
    {
        self.tokens.len() > 0 && self.has_unique_ids() && self.has_unique_spam()
    }
}

impl TokenStore {
    /// The snapshot that readers see now.
    pub closed spec fn snapshot(&self) -> Tokens {
        *self.current
    }

    /// The current snapshot can be served.
    pub open spec fn wf(&self) -> bool {
        self.snapshot().valid()
    }

    /// Starts the store on the snapshot loaded at startup. A failed load, or
    /// a snapshot that cannot be served (an empty catalog, an identifier
    /// listed twice), is fatal: the store does not start.
    pub fn start<E>(loaded: Result<Tokens, E>) -> (r: Result<TokenStore, FetchError>)
        ensures
            match loaded {
                Ok(t) => if !t.valid() {
                    r == Err::<TokenStore, FetchError>(FetchError::ConfigurationFatal)
                } else {
                    r.is_ok() && r.unwrap().wf() && r.unwrap().snapshot() == t
                },
                Err(_) => r == Err::<TokenStore, FetchError>(FetchError::ConfigurationFatal),
            },
    {
        match loaded {
            Ok(t) => {
                if !t.is_valid() {
                    Err(FetchError::ConfigurationFatal)
                } else {
                    Ok(TokenStore { current: Arc::new(t) })
                }
            },
            Err(_) => Err(FetchError::ConfigurationFatal),
        }
    }

    /// The current snapshot.
    pub fn current(&self) -> (r: Arc<Tokens>)
        requires
            self.wf(),
        ensures
            *r == self.snapshot(),
            r.valid(),
    {
        share(&self.current)
    }

    /// Takes the outcome of a background refresh. A new snapshot that can be
    /// served replaces the current one whole; a failed refresh, or a
    /// snapshot that cannot be served, leaves the current one in place. Returns whether
    /// the snapshot was replaced.
    pub fn refresh<E>(&mut self, fetched: Result<Tokens, E>) -> (replaced: bool)
        requires
            old(self).wf(),
        ensures
            final(self).wf(),
            match fetched {
                Ok(t) => if !t.valid() {
                    !replaced && final(self).snapshot() == old(self).snapshot()
                } else {
                    replaced && final(self).snapshot() == t
                },
                Err(_) => !replaced && final(self).snapshot() == old(self).snapshot(),
            },
    {
        match fetched {
            Ok(t) => {
                if !t.is_valid() {
                    false
                } else {
                    self.current = Arc::new(t);
                    true
                }
            },
            Err(_) => false,
        }
    }
}

/// Whatever refresh outcomes follow a successful start, every snapshot that
/// a reader is handed is one whole snapshot that was loaded, the current or
/// the new one, and it can be served: its catalog is never empty.
pub proof fn lemma_refresh_keeps_catalog<E>(before: TokenStore, after: TokenStore, fetched: Result<Tokens, E>)
    requires
        before.wf(),
        match fetched {
            Ok(t) => if !t.valid() {
                after.snapshot() == before.snapshot()
            } else {
                after.snapshot() == t
            },
            Err(_) => after.snapshot() == before.snapshot(),
        },
    ensures
        after.wf(),
        !after.snapshot().is_empty_catalog(),
        after.snapshot() == before.snapshot() || (fetched.is_ok() && after.snapshot() == fetched->Ok_0),
{
}

} // verus!
