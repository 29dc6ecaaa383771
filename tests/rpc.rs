use balance_agent::rpc::{
    account_args, call_function_request, decode_view_result, fts_owned_uri, staking_pools_uri,
    token_search_uri, view_account_request, FetchError,
};

#[test]
fn account_args_quote_the_id() {
    assert_eq!(account_args("alice.near"), r#"{"account_id":"alice.near"}"#);
    assert_eq!(account_args("a\"b"), r#"{"account_id":"a\"b"}"#);
}

#[test]
fn view_account_request_text() {
    assert_eq!(
        view_account_request("bob.near"),
        r#"{"jsonrpc":"2.0","id":"dontcare","method":"query","params":{"request_type":"view_account","finality":"final","account_id":"bob.near"}}"#
    );
}

#[test]
fn call_function_request_encodes_args_in_base64() {
    let r = call_function_request("pool.near", "get_account_staked_balance", "{}");
    assert_eq!(
        r,
        r#"{"jsonrpc":"2.0","id":"dontcare","method":"query","params":{"request_type":"call_function","finality":"final","account_id":"pool.near","method_name":"get_account_staked_balance","args_base64":"e30="}}"#
    );
}

#[test]
fn view_result_decodes_json_text() {
    let v = decode_view_result(b"\"12345\"".to_vec()).unwrap();
    assert_eq!(v, serde_json::Value::String("12345".to_string()));
    let v = decode_view_result(b"true".to_vec()).unwrap();
    assert_eq!(v, serde_json::Value::Bool(true));
}

#[test]
fn view_result_rejects_invalid_utf8() {
    assert!(matches!(decode_view_result(vec![0xff, 0xfe]), Err(FetchError::UpstreamDecodeError)));
}

#[test]
fn view_result_rejects_invalid_json() {
    assert!(matches!(decode_view_result(b"not json".to_vec()), Err(FetchError::UpstreamDecodeError)));
}

#[test]
fn indexing_uris() {
    assert_eq!(staking_pools_uri("alice.near"), "https://api.fastnear.com/v1/account/alice.near/staking");
    assert_eq!(fts_owned_uri("alice.near"), "https://api.fastnear.com/v1/account/alice.near/ft");
    assert_eq!(token_search_uri("usdc"), "https://prices.intear.tech/token-search?q=usdc");
}

#[test]
fn control_characters_are_escaped() {
    assert_eq!(account_args("a\nb\u{1}\\"), r#"{"account_id":"a\nb\u0001\\"}"#);
}
