//! The requests that the RPC client and the HTTP fetch client send, and the
//! decoding of what a contract view call returns.
//!
//! Request texts double as cache keys: two requests are the same logical
//! request exactly when their texts are equal.
use base64::Engine;
use crate::numeric::digit_char;
use vstd::prelude::*;
use vstd::utf8::{decode_utf8, encode_utf8, valid_utf8};

verus! {

#[verifier::external_type_specification]
#[verifier::external_body]
pub struct ExJsonValue(serde_json::Value);

#[verifier::external_type_specification]
#[verifier::external_body]
pub struct ExJsonError(serde_json::Error);

/// How a call to an upstream service failed.
#[derive(Debug, Clone, Copy, PartialEq, Eq, Structural)]
pub enum FetchError {
    /// Every endpoint tried failed to answer.
    UpstreamUnreachable,
    /// The answer is not the UTF-8, JSON or numeral that was expected.
    UpstreamDecodeError,
    /// The upstream holds no data for the query.
    NotFound,
    /// The reference dataset could not be loaded at startup.
    ConfigurationFatal,
}

/// The envelope of a JSON-RPC answer.
pub struct RpcResponse<T> {
    pub id: Option<String>,
    pub jsonrpc: String,
    pub result: T,
}

/// The state of an account, as a node reports it; balances in the native
/// token's smallest unit.
pub struct AccountInfo {
    pub amount: u128,
    pub locked: u128,
    pub code_hash: String,
    pub storage_usage: u64,
    pub storage_paid_at: u64,
    pub block_height: u64,
    pub block_hash: String,
}

/// A lower-case hexadecimal digit.
pub open spec fn hex_digit(d: nat) -> char {
    if d < 10 {
        digit_char(d)
    } else {
        ((d - 10) + 'a' as nat) as char
    }
}

/// How one character is written inside a JSON string literal: quote and
/// backslash escaped, the five control characters that have a short escape
/// written so, other control characters as `\u00XX`, and every other
/// character as itself.
pub open spec fn escaped_char(c: char) -> Seq<char> {
    let n = c as u32;
    if c == '"' {
        seq!['\\', '"']
    } else if c == '\\' {
        seq!['\\', '\\']
    } else if n == 8 {
        seq!['\\', 'b']
    } else if n == 9 {
        seq!['\\', 't']
    } else if n == 10 {
        seq!['\\', 'n']
    } else if n == 12 {
        seq!['\\', 'f']
    } else if n == 13 {
        seq!['\\', 'r']
    } else if n < 32 {
        seq!['\\', 'u', '0', '0', hex_digit((n / 16) as nat), hex_digit((n % 16) as nat)]
    } else {
        seq![c]
    }
}

/// The characters of `s`, each written as inside a JSON string literal.
pub open spec fn escaped(s: Seq<char>) -> Seq<char>
    decreases s.len(),
{
    if s.len() == 0 {
        Seq::empty()
    } else {
        escaped(s.drop_last()) + escaped_char(s.last())
    }
}

/// The JSON string literal that stands for `s`, as serde_json writes it.
pub open spec fn json_quoted(s: Seq<char>) -> Seq<char> {
    seq!['"'] + escaped(s) + seq!['"']
}

/// The standard, padded base64 encoding of `bytes`.
pub uninterp spec fn base64_of(bytes: Seq<u8>) -> Seq<char>;

/// Whether `serde_json::from_str` accepts `s` as one JSON value: a
/// well-formed document, nested at most 128 levels deep, whose numbers it can
/// represent.
pub uninterp spec fn json_accepts(s: Seq<char>) -> bool;

/// Relies on `serde_json::to_string` on a `str`: it writes the string between
/// quotes, escaped by the table `ESCAPE` of its serializer, and cannot fail,
/// since it writes to a `Vec`.
#[verifier::external_body]
fn json_string(s: &str) -> (r: String)
    ensures
        r@ == json_quoted(s@),
{
    match serde_json::to_string(s) {
        Ok(t) => t,
        Err(_) => String::new(),
    }
}

/// Relies on `Engine::encode` of `base64::prelude::BASE64_STANDARD`.
#[verifier::external_body]
fn base64_standard(bytes: &Vec<u8>) -> (r: String)
    ensures
        r@ == base64_of(bytes@),
{
    base64::prelude::BASE64_STANDARD.encode(bytes)
}

/// Relies on `serde_json::from_str`, which fails exactly on a text that is
/// not one JSON document.
#[verifier::external_body]
fn parse_json(text: &str) -> (r: Result<serde_json::Value, serde_json::Error>)
    ensures
        r.is_ok() == json_accepts(text@),
{
    serde_json::from_str(text)
}

/// Relies on `String::from_utf8`, which fails exactly on bytes that are not
/// UTF-8 and otherwise holds the characters they encode.
#[verifier::external_body]
fn utf8_text(bytes: Vec<u8>) -> (r: Option<String>)
    ensures
        r.is_some() == valid_utf8(bytes@),
        r.is_some() ==> encode_utf8(r.unwrap()@) == bytes@,
{
    String::from_utf8(bytes).ok()
}

/// Decodes the bytes that a contract view call returned: UTF-8 text that
/// holds one JSON document.
pub fn decode_view_result(bytes: Vec<u8>) -> (r: Result<serde_json::Value, FetchError>)
    ensures
        r.is_ok() == (valid_utf8(bytes@) && json_accepts(decode_utf8(bytes@))),
        r.is_err() ==> r == Err::<serde_json::Value, FetchError>(FetchError::UpstreamDecodeError),
{
    match utf8_text(bytes) {
        Some(text) => {
            proof {
                vstd::utf8::encode_utf8_decode_utf8(text@);
            }
            match parse_json(text.as_str()) {
                Ok(v) => Ok(v),
                Err(_) => Err(FetchError::UpstreamDecodeError),
            }
        },
        None => Err(FetchError::UpstreamDecodeError),
    }
}

/// The JSON arguments `{"account_id":...}` of a pool's view methods.
pub fn account_args(account_id: &str) -> (r: String)
    ensures
        r@ == "{\"account_id\":"@ + json_quoted(account_id@) + "}"@,
{
    let mut r = String::from_str("{\"account_id\":");
    r.append(json_string(account_id).as_str());
    r.append("}");
    r
}

/// The JSON-RPC request for an account's state.
pub fn view_account_request(account_id: &str) -> (r: String)
    ensures
        r@ == "{\"jsonrpc\":\"2.0\",\"id\":\"dontcare\",\"method\":\"query\",\"params\":{\"request_type\":\"view_account\",\"finality\":\"final\",\"account_id\":"@
            + json_quoted(account_id@) + "}}"@,
{
    let mut r = String::from_str(
        "{\"jsonrpc\":\"2.0\",\"id\":\"dontcare\",\"method\":\"query\",\"params\":{\"request_type\":\"view_account\",\"finality\":\"final\",\"account_id\":",
    );
    r.append(json_string(account_id).as_str());
    r.append("}}");
    r
}

/// The JSON-RPC request for a call of a contract's view method, with the
/// arguments text sent as base64 of its UTF-8 bytes.
pub fn call_function_request(contract_id: &str, method_name: &str, args: &str) -> (r: String)
    ensures
        r@ == "{\"jsonrpc\":\"2.0\",\"id\":\"dontcare\",\"method\":\"query\",\"params\":{\"request_type\":\"call_function\",\"finality\":\"final\",\"account_id\":"@
            + json_quoted(contract_id@) + ",\"method_name\":"@ + json_quoted(method_name@)
            + ",\"args_base64\":\""@ + base64_of(encode_utf8(args@)) + "\"}}"@,
{
    let mut r = String::from_str(
        "{\"jsonrpc\":\"2.0\",\"id\":\"dontcare\",\"method\":\"query\",\"params\":{\"request_type\":\"call_function\",\"finality\":\"final\",\"account_id\":",
    );
    r.append(json_string(contract_id).as_str());
    r.append(",\"method_name\":");
    r.append(json_string(method_name).as_str());
    r.append(",\"args_base64\":\"");
    let bytes = args.as_bytes_vec();
    r.append(base64_standard(&bytes).as_str());
    r.append("\"}}");
    r
}

/// The indexing service's list of the pools an account delegates to.
pub fn staking_pools_uri(account_id: &str) -> (r: String)
    ensures
        r@ == "https://api.fastnear.com/v1/account/"@ + account_id@ + "/staking"@,
{
    let mut r = String::from_str("https://api.fastnear.com/v1/account/");
    r.append(account_id);
    r.append("/staking");
    r
}

/// The indexing service's list of the fungible tokens an account holds.
pub fn fts_owned_uri(account_id: &str) -> (r: String)
    ensures
        r@ == "https://api.fastnear.com/v1/account/"@ + account_id@ + "/ft"@,
{
    let mut r = String::from_str("https://api.fastnear.com/v1/account/");
    r.append(account_id);
    r.append("/ft");
    r
}

/// The pricing service's search for tokens matching `query`.
pub fn token_search_uri(query: &str) -> (r: String)
    ensures
        r@ == "https://prices.intear.tech/token-search?q="@ + query@,
{
    let mut r = String::from_str("https://prices.intear.tech/token-search?q=");
    r.append(query);
    r
}

} // verus!
