use balance_agent::formatting::{
    format_near_amount, format_token_amount, format_tokens, listed_tokens, pow10_u128,
    shows_near_value, NEAR_DECIMALS,
};
use balance_agent::tokens::{Token, TokenMetadataWithoutIcon, TokenScore, Tokens};

#[test]
fn zero_amount() {
    assert_eq!(format_token_amount(0, 24, "NEAR"), "0 NEAR");
}

#[test]
fn no_decimals_shows_raw_amount() {
    assert_eq!(format_token_amount(123, 0, "PTS"), "123 PTS");
}

#[test]
fn whole_and_half() {
    assert_eq!(format_token_amount(1_500_000_000_000_000_000_000_000, NEAR_DECIMALS, "NEAR"), "1.5 NEAR");
    assert_eq!(format_token_amount(2_000_000_000_000_000_000_000_000, NEAR_DECIMALS, "NEAR"), "2 NEAR");
}

#[test]
fn three_decimals_from_one() {
    assert_eq!(format_token_amount(1_234_567_000_000_000_000_000_000, NEAR_DECIMALS, "NEAR"), "1.235 NEAR");
}

#[test]
fn two_decimals_from_ten() {
    assert_eq!(format_token_amount(12_345_600, 6, "USDC"), "12.35 USDC");
}

#[test]
fn no_decimals_from_a_million() {
    assert_eq!(format_token_amount(2_000_000_400_000, 6, "USDC"), "2000000 USDC");
}

#[test]
fn small_amount_keeps_two_significant_digits() {
    assert_eq!(format_token_amount(1_234_500_000_000_000_000_000, NEAR_DECIMALS, "NEAR"), "0.00123 NEAR");
}

#[test]
fn dust_below_twelve_places_is_zero() {
    assert_eq!(format_token_amount(1, NEAR_DECIMALS, "NEAR"), "0 NEAR");
}

#[test]
fn powers_of_ten() {
    assert_eq!(pow10_u128(0), 1);
    assert_eq!(pow10_u128(24), 10u128.pow(24));
    assert_eq!(pow10_u128(38), 10u128.pow(38));
}

#[test]
fn near_amounts() {
    assert_eq!(format_near_amount(0, " ($1.00)"), "0 NEAR");
    assert_eq!(format_near_amount(999, " ($1.00)"), "999 yoctoNEAR");
    assert!(!shows_near_value(999_999_999_999_999_999));
    assert!(shows_near_value(1_000_000_000_000_000_000));
    assert_eq!(format_near_amount(3_000_000_000_000_000_000_000_000, " ($9.00)"), "3 NEAR ($9.00)");
}

#[test]
fn token_amounts_by_catalog() {
    let usdc = Token {
        account_id: "usdc.near".to_string(),
        price_usd_raw: "1".to_string(),
        price_usd: "1".to_string(),
        price_usd_hardcoded: "1".to_string(),
        metadata: TokenMetadataWithoutIcon { name: "USD Coin".to_string(), symbol: "USDC".to_string(), decimals: 6 },
        total_supply: 0,
        circulating_supply: 0,
        circulating_supply_excluding_team: 0,
        reputation: TokenScore::Reputable,
        socials: Vec::new(),
        slug: Vec::new(),
    };
    let snapshot = Tokens { tokens: vec![usdc], spam_tokens: vec!["scam.near".to_string()] };
    assert_eq!(format_tokens(&snapshot, 2_500_000, "usdc.near", " ($2.50)"), "2.5 USDC ($2.50)");
    assert_eq!(format_tokens(&snapshot, 77, "other.near", ""), "77 <unknown token>");
    let kept = listed_tokens(
        &snapshot,
        vec![
            ("usdc.near".to_string(), 5),
            ("scam.near".to_string(), 5),
            ("other.near".to_string(), 5),
            ("usdc.near".to_string(), 0),
        ],
    );
    assert_eq!(kept, vec![("usdc.near".to_string(), 5)]);
}
