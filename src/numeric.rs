//! Decimal numerals: parsing and rendering of unsigned integers, and the
//! permissive decoder for numeric fields that arrive either as a JSON
//! integer, as a decimal string, or as `null`.
use vstd::prelude::*;

verus! {

pub open spec fn is_digit(c: char) -> bool {
    '0' <= c && c <= '9'
}

pub open spec fn digit_value(c: char) -> int {
    c as int - '0' as int
}

pub open spec fn all_digits(s: Seq<char>) -> bool {
    forall|i: int| 0 <= i < s.len() ==> is_digit(#[trigger] s[i])
}

/// The value of a string of decimal digits, most significant first.
pub open spec fn digits_value(s: Seq<char>) -> nat
    decreases s.len(),
{
    if s.len() == 0 {
        0
    } else {
        (digits_value(s.drop_last()) * 10 + digit_value(s.last())) as nat
    }
}

/// The digits of a numeral: what follows an optional leading `+`.
pub open spec fn numeral_digits(s: Seq<char>) -> Seq<char> {
    if s.len() > 0 && s[0] == '+' {
        s.drop_first()
    } else {
        s
    }
}

/// A decimal numeral: an optional `+` and then at least one digit.
pub open spec fn is_numeral(s: Seq<char>) -> bool {
    numeral_digits(s).len() > 0 && all_digits(numeral_digits(s))
}

pub open spec fn numeral_value(s: Seq<char>) -> nat {
    digits_value(numeral_digits(s))
}

/// `s` is a numeral whose value is at most `max`.
pub open spec fn numeral_within(s: Seq<char>, max: int) -> bool {
    is_numeral(s) && numeral_value(s) <= max
}

pub open spec fn digit_char(d: nat) -> char {
    (d + '0' as nat) as char
}

/// The shortest decimal representation of `n`.
pub open spec fn decimal(n: nat) -> Seq<char>
    decreases n,
{
    if n < 10 {
        seq![digit_char(n)]
    } else {
        decimal(n / 10).push(digit_char(n % 10))
    }
}

proof fn lemma_prefix_value_bounded(s: Seq<char>, k: int)
    requires
        0 <= k <= s.len(),
        all_digits(s),
    ensures
        digits_value(s.subrange(0, k)) <= digits_value(s),
    decreases s.len(),
{
    if k < s.len() {
        lemma_prefix_value_bounded(s.drop_last(), k);
        assert(s.drop_last().subrange(0, k) =~= s.subrange(0, k));
        assert(is_digit(s[s.len() - 1]));
    } else {
        assert(s.subrange(0, k) =~= s);
    }
}

/// Parses a decimal numeral (an optional `+`, then digits) no larger than
/// `max`; the grammar of `from_str_radix` in base ten for unsigned types.
pub fn parse_decimal_at_most(s: &str, max: u128) -> (r: Option<u128>)
    ensures
        r == (if numeral_within(s@, max as int) {
            Some(numeral_value(s@) as u128)
        } else {
            None::<u128>
        }),
{
    let n = s.unicode_len();
    if n == 0 {
        return None;
    }
    let start: usize = if s.get_char(0) == '+' { 1 } else { 0 };
    let ghost digits = numeral_digits(s@);
    assert(digits =~= s@.subrange(start as int, n as int));
    if start == n {
        return None;
    }
    let mut acc: u128 = 0;
    let mut i: usize = start;
    while i < n
        invariant
            start <= i <= n,
            n == s@.len(),
            digits == numeral_digits(s@),
            digits =~= s@.subrange(start as int, n as int),
            all_digits(digits.subrange(0, i - start)),
            acc as nat == digits_value(digits.subrange(0, i - start)),
            acc <= max,
        decreases n - i,
    {
        let c = s.get_char(i);
        assert(c == digits[i - start]);
        if !('0' <= c && c <= '9') {
            assert(!is_digit(digits[i - start]));
            assert(!all_digits(digits));
            assert(!numeral_within(s@, max as int));
            return None;
        }
        let d = (c as u32 - '0' as u32) as u128;
        let ghost next = digits.subrange(0, i + 1 - start);
        assert(next.drop_last() =~= digits.subrange(0, i - start));
        assert(next.last() == c);
        assert(digit_value(c) == d);
        if d > max || acc > (max - d) / 10 {
            proof {
                assert(digits_value(next) == acc * 10 + d);
                assert(acc * 10 + d > max) by (nonlinear_arith)
                    requires
                        d > max || acc > (max - d) / 10,
                        acc >= 0,
                ;
                if all_digits(digits) {
                    lemma_prefix_value_bounded(digits, i + 1 - start);
                }
            }
            return None;
        }
        proof {
            assert(acc * 10 + d <= max) by (nonlinear_arith)
                requires
                    acc <= (max - d) / 10,
                    d <= max,
            ;
        }
        acc = acc * 10 + d;
        i = i + 1;
        assert(digits.subrange(0, i - start) =~= next);
    }
    assert(digits.subrange(0, n - start) =~= digits);
    Some(acc)
}

pub(crate) fn digit_str(d: u128) -> (r: &'static str)
    requires
        d < 10,
    ensures
        r@ == seq![digit_char(d as nat)],
{
    proof {
        reveal_strlit("0");
        reveal_strlit("1");
        reveal_strlit("2");
        reveal_strlit("3");
        reveal_strlit("4");
        reveal_strlit("5");
        reveal_strlit("6");
        reveal_strlit("7");
        reveal_strlit("8");
        reveal_strlit("9");
    }
    if d == 0 {
        "0"
    } else if d == 1 {
        "1"
    } else if d == 2 {
        "2"
    } else if d == 3 {
        "3"
    } else if d == 4 {
        "4"
    } else if d == 5 {
        "5"
    } else if d == 6 {
        "6"
    } else if d == 7 {
        "7"
    } else if d == 8 {
        "8"
    } else {
        "9"
    }
}

/// Renders `n` in decimal, without leading zeros.
pub fn decimal_string(n: u128) -> (r: String)
    ensures
        r@ == decimal(n as nat),
    decreases n,
{
    if n < 10 {
        String::from_str(digit_str(n))
    } else {
        let mut s = decimal_string(n / 10);
        s.append(digit_str(n % 10));
        s
    }
}

/// A `null` was given where the type takes no `null`.
#[derive(Debug, Clone, Copy, PartialEq, Eq, Structural)]
pub struct ParseUnitError;

/// A string that is not a decimal numeral in the type's range.
#[derive(Debug, Clone, Copy, PartialEq, Eq, Structural)]
pub struct ParseDecimalError;

/// Integers that travel as decimal strings, so that values wider than the
/// 53 bits of a double survive the trip.
pub trait DecType: Sized {
    /// The number held, or `None` for an absent value.
    spec fn dec_view(&self) -> Option<nat>;

    /// Whether `null` is a value of the type (an absent number).
    spec fn accepts_null() -> bool;

    /// The largest number the type holds.
    spec fn dec_max() -> nat;

    /// Formats number as a decimal string; passes `None` as is.
    fn serialize(&self) -> (r: Option<String>)
        ensures
            r.is_some() == self.dec_view().is_some(),
            r.is_some() ==> r.unwrap()@ == decimal(self.dec_view().unwrap()),
    ;

    /// Constructs Self from a `null` value.
    fn try_from_unit() -> (r: Result<Self, ParseUnitError>)
        ensures
            r.is_ok() == Self::accepts_null(),
            r.is_ok() ==> r.unwrap().dec_view().is_none(),
    ;

    /// Tries to parse a decimal string.
    fn try_from_str(value: &str) -> (r: Result<Self, ParseDecimalError>)
        ensures
            r.is_ok() == numeral_within(value@, Self::dec_max() as int),
            r.is_ok() ==> r.unwrap().dec_view() == Some(numeral_value(value@)),
    ;

    /// Constructs Self from a 64-bit unsigned integer.
    fn from_u64(value: u64) -> (r: Self)
        ensures
            r.dec_view() == Some(value as nat),
    ;
}

impl DecType for u64 {
    open spec fn dec_view(&self) -> Option<nat> {
        Some(*self as nat)
    }

    open spec fn accepts_null() -> bool {
        false
    }

    open spec fn dec_max() -> nat {
        u64::MAX as nat
    }

    fn serialize(&self) -> (r: Option<String>) {
        Some(decimal_string(*self as u128))
    }

    fn try_from_unit() -> (r: Result<Self, ParseUnitError>) {
        Err(ParseUnitError)
    }

    fn try_from_str(value: &str) -> (r: Result<Self, ParseDecimalError>) {
        match parse_decimal_at_most(value, u64::MAX as u128) {
            Some(n) => Ok(n as u64),
            None => Err(ParseDecimalError),
        }
    }

    fn from_u64(value: u64) -> (r: Self) {
        value
    }
}

impl DecType for u128 {
    open spec fn dec_view(&self) -> Option<nat> {
        Some(*self as nat)
    }

    open spec fn accepts_null() -> bool {
        false
    }

    open spec fn dec_max() -> nat {
        u128::MAX as nat
    }

    fn serialize(&self) -> (r: Option<String>) {
        Some(decimal_string(*self))
    }

    fn try_from_unit() -> (r: Result<Self, ParseUnitError>) {
        Err(ParseUnitError)
    }

    fn try_from_str(value: &str) -> (r: Result<Self, ParseDecimalError>) {
        match parse_decimal_at_most(value, u128::MAX) {
            Some(n) => Ok(n),
            None => Err(ParseDecimalError),
        }
    }

    fn from_u64(value: u64) -> (r: Self) {
        value as u128
    }
}

impl<T: DecType> DecType for Option<T> {
    open spec fn dec_view(&self) -> Option<nat> {
        match self {
            Some(t) => t.dec_view(),
            None => None,
        }
    }

    open spec fn accepts_null() -> bool {
        true
    }

    open spec fn dec_max() -> nat {
        T::dec_max()
    }

    fn serialize(&self) -> (r: Option<String>) {
        match self {
            Some(t) => t.serialize(),
            None => None,
        }
    }

    fn try_from_unit() -> (r: Result<Self, ParseUnitError>) {
        Ok(None)
    }

    fn try_from_str(value: &str) -> (r: Result<Self, ParseDecimalError>) {
        match T::try_from_str(value) {
            Ok(t) => Ok(Some(t)),
            Err(e) => Err(e),
        }
    }

    fn from_u64(value: u64) -> (r: Self) {
        Some(T::from_u64(value))
    }
}

/// How a numeric field arrived in a JSON document.
pub enum NumberToken {
    Null,
    Unsigned(u64),
    Text(String),
    /// Any other JSON value: a negative or fractional number, a boolean,
    /// an array or an object.
    Other,
}

#[derive(Debug, Clone, Copy, PartialEq, Eq, Structural)]
pub enum DecodeError {
    /// `null` for a field that must be present.
    UnexpectedNull,
    /// A string that is not a decimal numeral in range.
    InvalidDecimal,
    /// Neither an unsigned integer, a string nor `null`.
    UnexpectedType,
}

/// What decoding `tok` gives: `Err` of the error, or `Ok` of the number held
/// (`None` for an absent one).
pub open spec fn decoded<T: DecType>(tok: NumberToken) -> Result<Option<nat>, DecodeError> {
    match tok {
        NumberToken::Null => if T::accepts_null() {
            Ok(None)
        } else {
            Err(DecodeError::UnexpectedNull)
        },
        NumberToken::Unsigned(v) => Ok(Some(v as nat)),
        NumberToken::Text(s) => if numeral_within(s@, T::dec_max() as int) {
            Ok(Some(numeral_value(s@)))
        } else {
            Err(DecodeError::InvalidDecimal)
        },
        NumberToken::Other => Err(DecodeError::UnexpectedType),
    }
}

/// Decodes a numeric field permissively: an unsigned JSON integer, a decimal
/// string, or `null` where the type holds an absent value.
pub fn decode_number<T: DecType>(tok: &NumberToken) -> (r: Result<T, DecodeError>)
    ensures
        match (r, decoded::<T>(*tok)) {
            (Ok(v), Ok(n)) => v.dec_view() == n,
            (Err(e), Err(f)) => e == f,
            _ => false,
        },
{
    match tok {
        NumberToken::Null => match T::try_from_unit() {
            Ok(v) => Ok(v),
            Err(_) => Err(DecodeError::UnexpectedNull),
        },
        NumberToken::Unsigned(v) => Ok(T::from_u64(*v)),
        NumberToken::Text(s) => match T::try_from_str(s.as_str()) {
            Ok(v) => Ok(v),
            Err(_) => Err(DecodeError::InvalidDecimal),
        },
        NumberToken::Other => Err(DecodeError::UnexpectedType),
    }
}

} // verus!
