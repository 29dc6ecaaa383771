//! Token search: the records that a price query keeps out of what the
//! pricing service found for it, and the splitting of a comma-separated list
//! of queries.
use crate::tokens::Token;
use vstd::prelude::*;

verus! {

/// The query of the token prices endpoint: one search per entry.
pub struct TokenPricesInput {
    pub tokens: Vec<String>,
}

/// The lower-case form of `s`, as `str::to_lowercase` gives it.
pub uninterp spec fn lower_of(s: Seq<char>) -> Seq<char>;

/// Relies on `str::to_lowercase`: the result depends on the characters alone.
#[verifier::external_body]
fn lowercase(s: &str) -> (r: String)
    ensures
        r@ == lower_of(s@),
{
    s.to_lowercase()
}

/// `s` without the `$` signs at its start.
pub open spec fn strip_leading_dollars(s: Seq<char>) -> Seq<char>
    decreases s.len(),
{
    if s.len() > 0 && s[0] == '$' {
        strip_leading_dollars(s.drop_first())
    } else {
        s
    }
}

/// `s` without the `$` signs at its end.
pub open spec fn strip_trailing_dollars(s: Seq<char>) -> Seq<char>
    decreases s.len(),
{
    if s.len() > 0 && s.last() == '$' {
        strip_trailing_dollars(s.drop_last())
    } else {
        s
    }
}

/// `s` without the `$` signs at either end, as a ticker is often written.
pub open spec fn without_dollars(s: Seq<char>) -> Seq<char> {
    strip_trailing_dollars(strip_leading_dollars(s))
}

proof fn lemma_strip_leading(s: Seq<char>, i: int)
    requires
        0 <= i <= s.len(),
        forall|j: int| 0 <= j < i ==> s[j] == '$',
        i == s.len() || s[i] != '$',
    ensures
        strip_leading_dollars(s) == s.subrange(i, s.len() as int),
    decreases i,
{
    if i > 0 {
        let t = s.drop_first();
        assert forall|j: int| 0 <= j < i - 1 implies t[j] == '$' by {
            assert(t[j] == s[j + 1]);
        }
        if i - 1 < t.len() {
            assert(t[i - 1] == s[i]);
        }
        lemma_strip_leading(t, i - 1);
        assert(t.subrange(i - 1, t.len() as int) =~= s.subrange(i, s.len() as int));
    } else {
        assert(s.subrange(0, s.len() as int) =~= s);
    }
}

proof fn lemma_strip_trailing(s: Seq<char>, k: int)
    requires
        0 <= k <= s.len(),
        forall|j: int| k <= j < s.len() ==> s[j] == '$',
        k == 0 || s[k - 1] != '$',
    ensures
        strip_trailing_dollars(s) == s.subrange(0, k),
    decreases s.len() - k,
{
    if k < s.len() {
        let t = s.drop_last();
        assert forall|j: int| k <= j < t.len() implies t[j] == '$' by {
            assert(t[j] == s[j]);
        }
        if k > 0 {
            assert(t[k - 1] == s[k - 1]);
        }
        lemma_strip_trailing(t, k);
        assert(t.subrange(0, k) =~= s.subrange(0, k));
    } else {
        assert(s.subrange(0, k) =~= s);
    }
}

/// `s` without the `$` signs at either end.
pub fn trim_dollars(s: &str) -> (r: String)
    ensures
        r@ == without_dollars(s@),
{
    let n = s.unicode_len();
    let mut i: usize = 0;
    while i < n && s.get_char(i) == '$'
        invariant
            0 <= i <= n,
            n == s@.len(),
            forall|j: int| 0 <= j < i ==> s@[j] == '$',
        decreases n - i,
    {
        i = i + 1;
    }
    proof {
        lemma_strip_leading(s@, i as int);
    }
    let ghost front = s@.subrange(i as int, n as int);
    let mut k: usize = n;
    while k > i && s.get_char(k - 1) == '$'
        invariant
            i <= k <= n,
            n == s@.len(),
            forall|j: int| k <= j < n ==> s@[j] == '$',
        decreases k,
    {
        k = k - 1;
    }
    proof {
        assert forall|j: int| k - i <= j < front.len() implies front[j] == '$' by {
            assert(front[j] == s@[i + j]);
        }
        if k > i {
            assert(front[k - i - 1] == s@[k - 1]);
        }
        lemma_strip_trailing(front, k - i);
        assert(front.subrange(0, k - i) =~= s@.subrange(i as int, k as int));
    }
    String::from_str(s.substring_char(i, k))
}

/// Whether a record whose symbol and name, lower-cased, are `symbol` and
/// `name` is an exact match for a lower-cased query `query`: one of them
/// equals the query once `$` signs are trimmed from both ends.
pub open spec fn matches_folded(query: Seq<char>, symbol: Seq<char>, name: Seq<char>) -> bool {
    without_dollars(symbol) == without_dollars(query) || without_dollars(name) == without_dollars(query)
}

/// Tells an exact match from texts already lower-cased.
pub fn is_exact_match_folded(query: &str, symbol: &str, name: &str) -> (r: bool)
    ensures
        r == matches_folded(query@, symbol@, name@),
{
    let q = trim_dollars(query);
    let s = trim_dollars(symbol);
    let n = trim_dollars(name);
    s == q || n == q
}

/// Whether `token` is an exact match for `query`, ignoring case and `$`
/// signs at either end, by symbol or by name.
pub open spec fn exact_match(query: Seq<char>, token: Token) -> bool {
    matches_folded(lower_of(query), lower_of(token.metadata.symbol@), lower_of(token.metadata.name@))
}

/// Tells whether `token` is an exact match for `query`.
pub fn is_exact_match(query: &str, token: &Token) -> (r: bool)
    ensures
        r == exact_match(query@, *token),
{
    let q = lowercase(query);
    let s = lowercase(token.metadata.symbol.as_str());
    let n = lowercase(token.metadata.name.as_str());
    is_exact_match_folded(q.as_str(), s.as_str(), n.as_str())
}

/// What a search for `query` keeps of what the service found: the exact
/// matches where there are any, in the order found, and otherwise everything
/// found.
pub open spec fn kept(query: Seq<char>, found: Seq<Token>) -> Seq<Token> {
    let exact = found.filter(|t: Token| exact_match(query, t));
    if exact.len() > 0 {
        exact
    } else {
        found
    }
}

/// Keeps the records of a search that a price query shows.
pub fn select_results(query: &str, found: Vec<Token>) -> (r: Vec<Token>)
    ensures
        r@ == kept(query@, found@),
{
    let ghost all = found@;
    let mut rest = found;
    let mut exact: Vec<Token> = Vec::new();
    let mut others: Vec<Token> = Vec::new();
    let ghost mut seen: Seq<Token> = Seq::empty();
    proof {
        reveal(Seq::filter);
        assert(seen.filter(|t: Token| exact_match(query@, t)) =~= Seq::<Token>::empty());
    }
    while rest.len() > 0
        invariant
            seen + rest@ == all,
            exact@ == seen.filter(|t: Token| exact_match(query@, t)),
            exact@.len() == 0 ==> others@ == seen,
        decreases rest@.len(),
    {
        let ghost old_rest = rest@;
        let t = rest.remove(0);
        proof {
            assert(old_rest[0] == t);
            assert(rest@ =~= old_rest.drop_first());
            reveal(Seq::filter);
            assert(seen.push(t).drop_last() =~= seen);
            assert(seen.push(t) + rest@ =~= all);
        }
        if is_exact_match(query, &t) {
            exact.push(t);
            proof {
                seen = seen.push(t);
            }
        } else {
            if exact.len() == 0 {
                others.push(t);
            }
            proof {
                seen = seen.push(t);
            }
        }
    }
    proof {
        assert(seen =~= all);
    }
    if exact.len() > 0 {
        exact
    } else {
        others
    }
}

/// The pieces of `s` between commas, in order.
pub open spec fn comma_pieces(s: Seq<char>) -> Seq<Seq<char>>
    decreases s.len(),
{
    if s.len() == 0 {
        seq![Seq::empty()]
    } else {
        let rest = comma_pieces(s.drop_last());
        if s.last() == ',' {
            rest.push(Seq::empty())
        } else {
            rest.update(rest.len() - 1, rest.last().push(s.last()))
        }
    }
}

proof fn lemma_comma_pieces_nonempty(s: Seq<char>)
    ensures
        comma_pieces(s).len() >= 1,
    decreases s.len(),
{
    if s.len() > 0 {
        lemma_comma_pieces_nonempty(s.drop_last());
    }
}

/// Splits a comma-separated list of queries; an empty text is one empty
/// query, as `str::split` gives it.
pub fn from_comma_separated(s: &str) -> (r: Vec<String>)
    ensures
        r@.map_values(|p: String| p@) == comma_pieces(s@),
{
    let n = s.unicode_len();
    let mut pieces: Vec<String> = Vec::new();
    let mut start: usize = 0;
    let mut i: usize = 0;
    proof {
        assert(s@.subrange(0, 0) =~= Seq::<char>::empty());
        assert(pieces@.map_values(|p: String| p@).push(s@.subrange(0, 0)) =~= seq![Seq::<char>::empty()]);
    }
    while i < n
        invariant
            0 <= start <= i <= n,
            n == s@.len(),
            pieces@.map_values(|p: String| p@).push(s@.subrange(start as int, i as int)) == comma_pieces(
                s@.subrange(0, i as int),
            ),
        decreases n - i,
    {
        proof {
            let pre = s@.subrange(0, i + 1);
            assert(pre.drop_last() =~= s@.subrange(0, i as int));
            assert(pre.last() == s@[i as int]);
            lemma_comma_pieces_nonempty(s@.subrange(0, i as int));
        }
        if s.get_char(i) == ',' {
            let ghost before = pieces@.map_values(|p: String| p@);
            pieces.push(String::from_str(s.substring_char(start, i)));
            proof {
                assert(pieces@.map_values(|p: String| p@) =~= before.push(s@.subrange(start as int, i as int)));
                assert(s@.subrange(i + 1, i + 1) =~= Seq::<char>::empty());
            }
            start = i + 1;
        } else {
            proof {
                let before = pieces@.map_values(|p: String| p@);
                assert(s@.subrange(start as int, i + 1) =~= s@.subrange(start as int, i as int).push(s@[i as int]));
                assert(before.push(s@.subrange(start as int, i + 1)) =~= before.push(
                    s@.subrange(start as int, i as int),
                ).update(before.len() as int, s@.subrange(start as int, i as int).push(s@[i as int])));
            }
        }
        i = i + 1;
    }
    let ghost before = pieces@.map_values(|p: String| p@);
    pieces.push(String::from_str(s.substring_char(start, n)));
    proof {
        assert(s@.subrange(0, n as int) =~= s@);
        assert(pieces@.map_values(|p: String| p@) =~= before.push(s@.subrange(start as int, n as int)));
    }
    pieces
}

} // verus!
