//! Human-readable token amounts.
//!
//! An amount in the token's smallest unit is read to at most twelve decimal
//! places (further places are cut off) and shown with a number of decimals
//! that suits its size, rounded half up, with trailing zeros dropped.
use crate::numeric::{decimal, decimal_string, digit_char, digit_str};
use crate::tokens::{first_token, unlisted, Tokens};
use vstd::prelude::*;

verus! {

pub const NEAR_DECIMALS: u32 = 24;

pub open spec fn pow10(e: nat) -> nat
    decreases e,
{
    if e == 0 {
        1
    } else {
        10 * pow10((e - 1) as nat)
    }
}

proof fn lemma_pow10_positive(e: nat)
    ensures
        pow10(e) >= 1,
    decreases e,
{
    if e > 0 {
        lemma_pow10_positive((e - 1) as nat);
    }
}

proof fn lemma_pow10_add(a: nat, b: nat)
    ensures
        pow10(a + b) == pow10(a) * pow10(b),
    decreases b,
{
    if b > 0 {
        let c = (b - 1) as nat;
        lemma_pow10_add(a, c);
        assert(a + b == (a + c) + 1);
        assert(pow10(a + b) == 10 * pow10(a + c));
        assert(pow10(b) == 10 * pow10(c));
        let x = pow10(a);
        let y = pow10(c);
        assert(x * (10 * y) == 10 * (x * y)) by (nonlinear_arith);
    } else {
        assert(pow10(0) == 1);
        assert(a + b == a);
    }
}

proof fn lemma_pow10_monotone(a: nat, b: nat)
    requires
        a <= b,
    ensures
        pow10(a) <= pow10(b),
{
    lemma_pow10_add(a, (b - a) as nat);
    lemma_pow10_positive((b - a) as nat);
    lemma_pow10_positive(a);
    assert(pow10(a) * pow10((b - a) as nat) >= pow10(a)) by (nonlinear_arith)
        requires
            pow10((b - a) as nat) >= 1,
            pow10(a) >= 1,
    ;
}

proof fn lemma_pow10_38()
    ensures
        pow10(38) <= u128::MAX,
{
    reveal_with_fuel(pow10, 39);
}

/// Ten to the power `e`.
pub fn pow10_u128(e: u32) -> (r: u128)
    requires
        e <= 38,
    ensures
        r == pow10(e as nat),
{
    let mut r: u128 = 1;
    let mut i: u32 = 0;
    while i < e
        invariant
            i <= e <= 38,
            r == pow10(i as nat),
        decreases e - i,
    {
        proof {
            lemma_pow10_monotone((i + 1) as nat, 38);
            lemma_pow10_38();
        }
        r = r * 10;
        i = i + 1;
    }
    r
}

/// `q / d`, rounded half up.
pub open spec fn round_div(q: nat, d: nat) -> nat {
    q / d + if (q % d) * 2 >= d { 1nat } else { 0nat }
}

/// The number of tenths, hundredths, ... that `q / 10^p` holds with `k`
/// decimals, rounded half up.
pub open spec fn scaled(q: nat, p: nat, k: nat) -> nat {
    if p >= k {
        round_div(q, pow10((p - k) as nat))
    } else {
        q * pow10((k - p) as nat)
    }
}

/// The number of zeros, plus one, that follow the decimal point of
/// `q / 10^p`, a number below one, before its first non-zero digit: the
/// least `m` from `from` on with `q >= 10^(p - m)`.
pub open spec fn magnitude(q: nat, p: nat, from: nat) -> nat
    decreases p - from,
{
    if from >= p || q >= pow10((p - from) as nat) {
        from
    } else {
        magnitude(q, p, from + 1)
    }
}

/// How many decimals `q / 10^p` is shown with: none from a million on, two
/// from ten, three from one, and below one two beyond the first non-zero
/// digit.
pub open spec fn shown_decimals(q: nat, p: nat) -> nat {
    if q >= pow10(p + 6) {
        0
    } else if q >= pow10(p + 1) {
        2
    } else if q >= pow10(p) {
        3
    } else {
        magnitude(q, p, 1) + 2
    }
}

/// The last `k` decimal digits of `n`, leading zeros kept.
pub open spec fn padded(n: nat, k: nat) -> Seq<char>
    decreases k,
{
    if k == 0 {
        Seq::empty()
    } else {
        padded(n / 10, (k - 1) as nat).push(digit_char(n % 10))
    }
}

/// A fraction of `k` digits with its trailing zeros dropped: the digits
/// left, and how many there are.
pub open spec fn trimmed(f: nat, k: nat) -> (nat, nat)
    decreases k,
{
    if k == 0 || f % 10 != 0 {
        (f, k)
    } else {
        trimmed(f / 10, (k - 1) as nat)
    }
}

/// `n / 10^k` written out with no trailing zeros after the decimal point,
/// and no point where no decimal is left.
pub open spec fn fixed_point(n: nat, k: nat) -> Seq<char> {
    let (f, j) = trimmed(n % pow10(k), k);
    decimal(n / pow10(k)) + if j > 0 {
        seq!['.'] + padded(f, j)
    } else {
        Seq::empty()
    }
}

/// How an amount in the smallest unit of a token with `decimals` decimals
/// is shown.
pub open spec fn amount_text(amount: nat, decimals: nat) -> Seq<char> {
    if decimals == 0 {
        decimal(amount)
    } else {
        let p = if decimals < 12 { decimals } else { 12 };
        let q = amount / pow10((decimals - p) as nat);
        if q == 0 {
            seq!['0']
        } else {
            let k = shown_decimals(q, p);
            fixed_point(scaled(q, p, k), k)
        }
    }
}

fn padded_string(n: u128, k: u32) -> (r: String)
    ensures
        r@ == padded(n as nat, k as nat),
    decreases k,
{
    if k == 0 {
        String::new()
    } else {
        let mut s = padded_string(n / 10, k - 1);
        s.append(digit_str(n % 10));
        s
    }
}

fn trim_fraction(f: u128, k: u32) -> (r: (u128, u32))
    ensures
        (r.0 as nat, r.1 as nat) == trimmed(f as nat, k as nat),
    decreases k,
{
    if k == 0 || f % 10 != 0 {
        (f, k)
    } else {
        trim_fraction(f / 10, k - 1)
    }
}

fn fixed_point_string(n: u128, k: u32) -> (r: String)
    requires
        k <= 38,
    ensures
        r@ == fixed_point(n as nat, k as nat),
{
    let d = pow10_u128(k);
    proof {
        lemma_pow10_positive(k as nat);
    }
    let mut s = decimal_string(n / d);
    let (f, j) = trim_fraction(n % d, k);
    if j > 0 {
        s.append(".");
        proof {
            reveal_strlit(".");
        }
        s.append(padded_string(f, j).as_str());
    }
    assert(s@ =~= fixed_point(n as nat, k as nat));
    s
}

fn magnitude_exec(q: u128, p: u32) -> (m: u32)
    requires
        1 <= p <= 12,
    ensures
        m as nat == magnitude(q as nat, p as nat, 1),
        1 <= m <= p,
{
    let mut m: u32 = 1;
    while m < p && q < pow10_u128(p - m)
        invariant
            1 <= m <= p <= 12,
            magnitude(q as nat, p as nat, m as nat) == magnitude(q as nat, p as nat, 1),
        decreases p - m,
    {
        m = m + 1;
    }
    m
}

fn shown_decimals_exec(q: u128, p: u32) -> (k: u32)
    requires
        1 <= p <= 12,
        q >= 1,
    ensures
        k as nat == shown_decimals(q as nat, p as nat),
        k <= p + 2 || q >= pow10(p as nat),
        q < pow10((p + 6) as nat) || k == 0,
{
    proof {
        lemma_pow10_monotone((p + 6) as nat, 38);
        lemma_pow10_38();
    }
    if q >= pow10_u128(p + 6) {
        0
    } else if q >= pow10_u128(p + 1) {
        2
    } else if q >= pow10_u128(p) {
        3
    } else {
        magnitude_exec(q, p) + 2
    }
}

fn scaled_exec(q: u128, p: u32, k: u32) -> (n: u128)
    requires
        1 <= p <= 12,
        k <= 14,
        k <= p || (k <= p + 2 && q < pow10(p as nat)) || (k <= 3 && q < pow10((p + 6) as nat)),
    ensures
        n as nat == scaled(q as nat, p as nat, k as nat),
{
    if p >= k {
        let d = pow10_u128(p - k);
        proof {
            lemma_pow10_positive((p - k) as nat);
            lemma_pow10_monotone((p - k) as nat, 12);
            assert(pow10(12) == 1_000_000_000_000) by {
                reveal_with_fuel(pow10, 13);
            }
        }
        let rem = q % d;
        if rem * 2 >= d {
            proof {
                assert(d >= 2);
                assert(q / d < u128::MAX) by (nonlinear_arith)
                    requires
                        d >= 2,
                        q <= u128::MAX,
                ;
            }
            q / d + 1
        } else {
            q / d
        }
    } else {
        let e = pow10_u128(k - p);
        proof {
            lemma_pow10_monotone((k - p) as nat, 3);
            lemma_pow10_monotone(p as nat, 12);
            lemma_pow10_monotone((p + 6) as nat, 18);
            reveal_with_fuel(pow10, 4);
            assert(pow10(18) <= 1_000_000_000_000_000_000) by {
                reveal_with_fuel(pow10, 19);
            }
            assert(q * e <= 1_000_000_000_000_000_000 * 1000) by (nonlinear_arith)
                requires
                    q <= 1_000_000_000_000_000_000,
                    e <= 1000,
            ;
        }
        q * e
    }
}

/// Shows an amount in the smallest unit of a token with `decimals` decimals,
/// followed by the token's symbol: `1.5 NEAR`, `0 USDC`.
pub fn format_token_amount(amount: u128, decimals: u32, symbol: &str) -> (r: String)
    requires
        decimals <= 38,
    ensures
        r@ == amount_text(amount as nat, decimals as nat) + seq![' '] + symbol@,
{
    proof {
        reveal_strlit(" ");
        reveal_strlit("0");
    }
    let mut s = if decimals == 0 {
        decimal_string(amount)
    } else {
        let p: u32 = if decimals < 12 { decimals } else { 12 };
        let cut = pow10_u128(decimals - p);
        proof {
            lemma_pow10_positive((decimals - p) as nat);
        }
        let q = amount / cut;
        if q == 0 {
            String::from_str("0")
        } else {
            let k = shown_decimals_exec(q, p);
            let n = scaled_exec(q, p, k);
            assert(n as nat == scaled(q as nat, p as nat, k as nat));
            fixed_point_string(n, k)
        }
    };
    s.append(" ");
    s.append(symbol);
    s
}

/// How an amount of the native token is shown: amounts below 10^18 units
/// in the smallest unit, larger ones in whole tokens followed by
/// `usd_suffix`, the value in USD that the caller appends.
pub open spec fn near_amount_text(amount: nat, usd_suffix: Seq<char>) -> Seq<char> {
    if amount == 0 {
        "0 NEAR"@
    } else if amount < pow10(18) {
        decimal(amount) + " yoctoNEAR"@
    } else {
        amount_text(amount, NEAR_DECIMALS as nat) + " NEAR"@ + usd_suffix
    }
}

/// Whether an amount of the native token is shown in whole tokens, with a
/// value in USD after it.
pub fn shows_near_value(amount: u128) -> (r: bool)
    ensures
        r == (amount as nat >= pow10(18)),
{
    amount >= pow10_u128(18)
}

/// Shows an amount of the native token; `usd_suffix` is appended where the
/// amount is shown in whole tokens.
pub fn format_near_amount(amount: u128, usd_suffix: &str) -> (r: String)
    ensures
        r@ == near_amount_text(amount as nat, usd_suffix@),
{
    proof {
        reveal_strlit("0 NEAR");
        reveal_strlit(" NEAR");
        reveal_strlit(" ");
        reveal_strlit("NEAR");
    }
    if amount == 0 {
        String::from_str("0 NEAR")
    } else if amount < pow10_u128(18) {
        let mut s = decimal_string(amount);
        s.append(" yoctoNEAR");
        s
    } else {
        let mut s = format_token_amount(amount, NEAR_DECIMALS, "NEAR");
        assert(s@ =~= amount_text(amount as nat, NEAR_DECIMALS as nat) + " NEAR"@);
        s.append(usd_suffix);
        s
    }
}

/// Shows an amount of `token` by the catalog's metadata, followed by
/// `usd_suffix`, the value in USD that the caller appends; a token the
/// catalog does not list is shown in its smallest unit.
pub fn format_tokens(snapshot: &Tokens, amount: u128, token: &str, usd_suffix: &str) -> (r: String)
    ensures
        unlisted(snapshot.tokens@, token@) ==> r@ == decimal(amount as nat) + " <unknown token>"@,
        forall|i: int| #[trigger] first_token(snapshot.tokens@, token@, i)
            && snapshot.tokens@[i].metadata.decimals <= 38 ==> r@ == amount_text(
                amount as nat,
                snapshot.tokens@[i].metadata.decimals as nat,
            ) + " "@ + snapshot.tokens@[i].metadata.symbol@ + usd_suffix@,
        forall|i: int| #[trigger] first_token(snapshot.tokens@, token@, i)
            && snapshot.tokens@[i].metadata.decimals > 38 ==> r@ == decimal(amount as nat) + " "@
                + snapshot.tokens@[i].metadata.symbol@ + usd_suffix@,
{
    proof {
        reveal_strlit(" ");
    }
    match snapshot.get_ft_metadata(token) {
        Some(m) => {
            let mut s = if m.decimals <= 38 {
                format_token_amount(amount, m.decimals, m.symbol.as_str())
            } else {
                let mut t = decimal_string(amount);
                t.append(" ");
                t.append(m.symbol.as_str());
                t
            };
            s.append(usd_suffix);
            s
        },
        None => {
            let mut s = decimal_string(amount);
            s.append(" <unknown token>");
            s
        },
    }
}

/// The fungible tokens of an account that its total balance lists: those
/// held in a positive amount, listed by the catalog and not flagged as spam,
/// in the order given.
pub open spec fn listed(snapshot: Tokens, owned: Seq<(String, u128)>) -> Seq<(String, u128)> {
    owned.filter(
        |o: (String, u128)|
            o.1 > 0 && !unlisted(snapshot.tokens@, o.0@) && !(exists|i: int|
                0 <= i < snapshot.spam_tokens@.len() && (#[trigger] snapshot.spam_tokens@[i])@ == o.0@),
    )
}

/// Keeps the owned tokens that a total balance lists.
pub fn listed_tokens(snapshot: &Tokens, owned: Vec<(String, u128)>) -> (r: Vec<(String, u128)>)
    ensures
        r@ == listed(*snapshot, owned@),
{
    let ghost all = owned@;
    let mut rest = owned;
    let mut kept: Vec<(String, u128)> = Vec::new();
    let ghost mut seen: Seq<(String, u128)> = Seq::empty();
    proof {
        reveal(Seq::filter);
        assert(listed(*snapshot, seen) =~= Seq::<(String, u128)>::empty());
    }
    while rest.len() > 0
        invariant
            seen + rest@ == all,
            kept@ == listed(*snapshot, seen),
        decreases rest@.len(),
    {
        let ghost old_rest = rest@;
        let o = rest.remove(0);
        proof {
            assert(old_rest[0] == o);
            assert(rest@ =~= old_rest.drop_first());
            reveal(Seq::filter);
            assert(seen.push(o).drop_last() =~= seen);
            assert(seen.push(o) + rest@ =~= all);
        }
        let keep = o.1 > 0 && !snapshot.is_spam_token(o.0.as_str()) && snapshot.get_ft_metadata(o.0.as_str()).is_some();
        if keep {
            kept.push(o);
        }
        proof {
            seen = seen.push(o);
        }
    }
    proof {
        assert(seen =~= all);
    }
    kept
}

} // verus!
