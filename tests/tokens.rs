use balance_agent::rpc::FetchError;
use balance_agent::tokens::{Token, TokenMetadataWithoutIcon, TokenScore, TokenStore, Tokens};

fn token(id: &str, symbol: &str, price: &str) -> Token {
    Token {
        account_id: id.to_string(),
        price_usd_raw: price.to_string(),
        price_usd: price.to_string(),
        price_usd_hardcoded: price.to_string(),
        metadata: TokenMetadataWithoutIcon { name: format!("{symbol} token"), symbol: symbol.to_string(), decimals: 18 },
        total_supply: 1000,
        circulating_supply: 900,
        circulating_supply_excluding_team: 800,
        reputation: TokenScore::Unknown,
        socials: Vec::new(),
        slug: Vec::new(),
    }
}

fn snapshot(ids: &[&str], spam: &[&str]) -> Tokens {
    Tokens {
        tokens: ids.iter().map(|id| token(id, &id.to_uppercase(), "1.25")).collect(),
        spam_tokens: spam.iter().map(|s| s.to_string()).collect(),
    }
}

#[test]
fn startup_with_empty_catalog_is_fatal() {
    let r = TokenStore::start::<String>(Ok(snapshot(&[], &[])));
    assert!(matches!(r, Err(FetchError::ConfigurationFatal)));
}

#[test]
fn startup_failure_is_fatal() {
    let r = TokenStore::start::<String>(Err("unreachable".to_string()));
    assert!(matches!(r, Err(FetchError::ConfigurationFatal)));
}

#[test]
fn refresh_replaces_or_keeps_whole_snapshot() {
    let mut store = TokenStore::start::<String>(Ok(snapshot(&["a.near"], &[]))).ok().unwrap();
    let before = store.current();
    assert!(!store.refresh::<String>(Err("timeout".to_string())));
    assert!(!store.refresh::<String>(Ok(snapshot(&[], &["x"]))));
    let same = store.current();
    assert_eq!(same.tokens.len(), 1);
    assert_eq!(same.tokens[0].account_id, "a.near");
    assert!(store.refresh::<String>(Ok(snapshot(&["b.near", "c.near"], &["spam.near"]))));
    let after = store.current();
    assert_eq!(after.tokens.len(), 2);
    assert!(after.is_spam_token("spam.near"));
    assert_eq!(before.tokens.len(), 1);
    assert_eq!(before.tokens[0].account_id, "a.near");
    assert!(!before.is_spam_token("spam.near"));
}

#[test]
fn lookups_in_snapshot() {
    let t = snapshot(&["usdc.near", "wrap.near"], &["scam.near"]);
    assert!(t.is_spam_token("scam.near"));
    assert!(!t.is_spam_token("wrap.near"));
    let m = t.get_ft_metadata("wrap.near").unwrap();
    assert_eq!(m.symbol, "WRAP.NEAR");
    assert_eq!(m.decimals, 18);
    assert!(t.get_ft_metadata("other.near").is_none());
    assert_eq!(t.get_ft_price("usdc.near"), Some("1.25".to_string()));
    assert_eq!(t.get_ft_price("other.near"), None);
}

#[test]
fn score_order() {
    assert!(TokenScore::Spam.is_below(&TokenScore::Unknown));
    assert!(TokenScore::NotFake.is_below(&TokenScore::Reputable));
    assert!(!TokenScore::Reputable.is_below(&TokenScore::Unknown));
    assert_eq!(TokenScore::default(), TokenScore::Unknown);
}

#[test]
fn duplicate_identifiers_are_refused() {
    let r = TokenStore::start::<String>(Ok(snapshot(&["a.near", "a.near"], &[])));
    assert!(matches!(r, Err(FetchError::ConfigurationFatal)));
    let r = TokenStore::start::<String>(Ok(snapshot(&["a.near"], &["s.near", "s.near"])));
    assert!(matches!(r, Err(FetchError::ConfigurationFatal)));
    let mut store = TokenStore::start::<String>(Ok(snapshot(&["a.near"], &[]))).ok().unwrap();
    assert!(!store.refresh::<String>(Ok(snapshot(&["b.near", "c.near", "b.near"], &[]))));
    assert_eq!(store.current().tokens[0].account_id, "a.near");
    assert!(snapshot(&["a.near", "b.near"], &["x.near"]).is_valid());
}
