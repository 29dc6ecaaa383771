use balance_agent::numeric::{
    decimal_string, decode_number, parse_decimal_at_most, DecType, DecodeError, NumberToken,
    ParseUnitError,
};

#[test]
fn wide_decimal_string_decodes() {
    let r = decode_number::<u128>(&NumberToken::Text("12345678901234567890".to_string()));
    assert_eq!(r, Ok(12345678901234567890u128));
}

#[test]
fn null_decodes_to_absent_for_optional() {
    let r = decode_number::<Option<u128>>(&NumberToken::Null);
    assert_eq!(r, Ok(None));
}

#[test]
fn non_numeric_string_fails() {
    let r = decode_number::<u128>(&NumberToken::Text("twelve".to_string()));
    assert_eq!(r, Err(DecodeError::InvalidDecimal));
    let r = decode_number::<Option<u64>>(&NumberToken::Text("1.5".to_string()));
    assert_eq!(r, Err(DecodeError::InvalidDecimal));
}

#[test]
fn null_fails_for_required() {
    assert_eq!(decode_number::<u64>(&NumberToken::Null), Err(DecodeError::UnexpectedNull));
    assert_eq!(u128::try_from_unit(), Err(ParseUnitError));
}

#[test]
fn native_integer_decodes() {
    assert_eq!(decode_number::<u128>(&NumberToken::Unsigned(42)), Ok(42));
    assert_eq!(decode_number::<Option<u64>>(&NumberToken::Unsigned(7)), Ok(Some(7)));
}

#[test]
fn other_json_types_fail() {
    assert_eq!(decode_number::<u128>(&NumberToken::Other), Err(DecodeError::UnexpectedType));
}

#[test]
fn u64_string_out_of_range_fails() {
    let r = decode_number::<u64>(&NumberToken::Text("18446744073709551616".to_string()));
    assert_eq!(r, Err(DecodeError::InvalidDecimal));
    let r = decode_number::<u64>(&NumberToken::Text("18446744073709551615".to_string()));
    assert_eq!(r, Ok(u64::MAX));
}

#[test]
fn parse_accepts_plus_and_rejects_empty() {
    assert_eq!(parse_decimal_at_most("+15", u128::MAX), Some(15));
    assert_eq!(parse_decimal_at_most("", u128::MAX), None);
    assert_eq!(parse_decimal_at_most("+", u128::MAX), None);
    assert_eq!(parse_decimal_at_most("-1", u128::MAX), None);
    assert_eq!(parse_decimal_at_most("007", u128::MAX), Some(7));
    assert_eq!(parse_decimal_at_most("340282366920938463463374607431768211455", u128::MAX), Some(u128::MAX));
    assert_eq!(parse_decimal_at_most("340282366920938463463374607431768211456", u128::MAX), None);
    assert_eq!(parse_decimal_at_most("11", 10), None);
}

#[test]
fn serialize_writes_decimal_text() {
    assert_eq!(DecType::serialize(&12345678901234567890u128), Some("12345678901234567890".to_string()));
    assert_eq!(DecType::serialize(&0u64), Some("0".to_string()));
    assert_eq!(DecType::serialize(&None::<u128>), None);
    assert_eq!(DecType::serialize(&Some(5u64)), Some("5".to_string()));
    assert_eq!(decimal_string(u128::MAX), u128::MAX.to_string());
}

#[test]
fn try_from_str_round_trips() {
    let v = <Option<u128> as DecType>::try_from_str("987654321").unwrap();
    assert_eq!(v, Some(987654321));
    assert!(<u64 as DecType>::try_from_str("x").is_err());
    assert_eq!(<u128 as DecType>::from_u64(9), 9u128);
}
