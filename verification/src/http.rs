//! HTTP rules: which header names and values are accepted, and the reply a
//! script sees.

use vstd::prelude::*;
use vstd::utf8::*;
use reqwest::header::{HeaderName, HeaderValue, InvalidHeaderName, InvalidHeaderValue};
use reqwest::StatusCode;

verus! {

#[verifier::external_type_specification]
#[verifier::external_body]
pub struct ExHeaderName(HeaderName);

#[verifier::external_type_specification]
#[verifier::external_body]
pub struct ExHeaderValue(HeaderValue);

#[verifier::external_type_specification]
#[verifier::external_body]
pub struct ExInvalidHeaderName(InvalidHeaderName);

#[verifier::external_type_specification]
#[verifier::external_body]
pub struct ExStatusCode(StatusCode);

/// The number of a response's status code.
pub uninterp spec fn status_number(code: StatusCode) -> u16;

/// `StatusCode::as_u16`. Claims what its source shows: the number is the
/// code's own (`status_number`), and every status code is made from a number
/// from 100 to 999 (`from_u16` and `from_bytes` check it, and the named
/// constants are all in that range).
#[verifier::external_body]
fn status_code_number(code: &StatusCode) -> (res: u16)
    ensures
        res == status_number(*code),
        100 <= res <= 999,
{
    code.as_u16()
}

#[verifier::external_type_specification]
#[verifier::external_body]
pub struct ExInvalidHeaderValue(InvalidHeaderValue);

/// The header name that `HeaderName::from_bytes` makes of these bytes where
/// it accepts them.
pub uninterp spec fn header_name_of(bytes: Seq<u8>) -> HeaderName;

/// The header value that `HeaderValue::from_str` makes of a text with these
/// bytes.
pub uninterp spec fn header_value_of(bytes: Seq<u8>) -> HeaderValue;

/// A byte that a header name may hold (an HTTP token character): a letter,
/// a digit, or one of ``!#$%&'*+-.^_`|~``.
pub open spec fn header_name_byte(b: u8) -> bool {
    ||| 48 <= b <= 57
    ||| 65 <= b <= 90
    ||| 97 <= b <= 122
    ||| b == 33 || b == 35 || b == 36 || b == 37 || b == 38 || b == 39
    ||| b == 42 || b == 43 || b == 45 || b == 46
    ||| b == 94 || b == 95 || b == 96 || b == 124 || b == 126
}

/// `HeaderName::from_bytes` accepts these bytes as a header name: 1 to
/// 65535 bytes, each a token character.
pub open spec fn header_name_accepted(bytes: Seq<u8>) -> bool {
    &&& 1 <= bytes.len() <= 65535
    &&& forall|i: int| 0 <= i < bytes.len() ==> header_name_byte(#[trigger] bytes[i])
}

/// A byte that a header value may hold: visible ASCII, space, tab, or any
/// byte from 128 up.
pub open spec fn header_value_byte(b: u8) -> bool {
    (b >= 32 && b != 127) || b == 9
}

/// Every byte may stand in a header value.
pub open spec fn header_value_accepted(bytes: Seq<u8>) -> bool {
    forall|i: int| 0 <= i < bytes.len() ==> header_value_byte(#[trigger] bytes[i])
}

/// `HeaderName::from_bytes` on the UTF-8 bytes of `name`. Claims what its
/// source shows (`parse_hdr` with the `HEADER_CHARS` table): it succeeds
/// exactly on 1 to 65535 bytes that each map to a non-zero table entry, the
/// token characters; and the name made depends on those bytes alone
/// (`header_name_of`).
#[verifier::external_body]
fn parse_header_name(name: &str) -> (res: Result<HeaderName, InvalidHeaderName>)
    ensures
        res is Ok <==> header_name_accepted(encode_utf8(name@)),
        res is Ok ==> res.unwrap() == header_name_of(encode_utf8(name@)),
{
    HeaderName::from_bytes(name.as_bytes())
}

/// `HeaderValue::from_str`. Claims what its source shows: it succeeds exactly
/// when every byte of the value is a visible ASCII byte, a space, a tab or a
/// byte from 128 up; and the value made depends on those bytes alone
/// (`header_value_of`).
#[verifier::external_body]
fn parse_header_value(value: &str) -> (res: Result<HeaderValue, InvalidHeaderValue>)
    ensures
        res is Ok <==> header_value_accepted(encode_utf8(value@)),
        res is Ok ==> res.unwrap() == header_value_of(encode_utf8(value@)),
{
    HeaderValue::from_str(value)
}

/// The message of `InvalidHeaderName` (its `Display`, a fixed text).
#[verifier::external_body]
fn name_error_message(e: &InvalidHeaderName) -> (res: String)
    ensures
        res@ == "invalid HTTP header name"@,
{
    e.to_string()
}

/// The message of `InvalidHeaderValue` (its `Display`, a fixed text).
#[verifier::external_body]
fn value_error_message(e: &InvalidHeaderValue) -> (res: String)
    ensures
        res@ == "failed to parse header value"@,
{
    e.to_string()
}

/// Why a header was refused, with the message the script sees.
#[derive(Debug)]
pub enum HeaderError {
    InvalidName(String),
    InvalidValue(String),
}

/// The converted header of an accepted (name, value) pair.
pub open spec fn converted_header(pair: (String, String)) -> (HeaderName, HeaderValue) {
    (header_name_of(encode_utf8(pair.0@)), header_value_of(encode_utf8(pair.1@)))
}

/// The header (name, value) pair is accepted.
pub open spec fn header_ok(pair: (String, String)) -> bool {
    header_name_accepted(encode_utf8(pair.0@)) && header_value_accepted(encode_utf8(pair.1@))
}

/// Checks the header pairs in order and converts them: fails on the first
/// refused pair, with a name error when its name is refused and a value
/// error otherwise; on success gives one converted header per pair, in order.
pub fn convert_headers(pairs: &Vec<(String, String)>) -> (res: Result<Vec<(HeaderName, HeaderValue)>, HeaderError>)
    ensures
        res is Ok <==> forall|i: int| 0 <= i < pairs@.len() ==> header_ok(#[trigger] pairs@[i]),
        res matches Ok(v) ==> v@.len() == pairs@.len(),
        res matches Ok(v) ==> forall|i: int| 0 <= i < pairs@.len() ==> #[trigger] v@[i] == converted_header(pairs@[i]),
        res matches Err(e) ==> exists|k: int| {
            &&& 0 <= k < pairs@.len()
            &&& !header_ok(#[trigger] pairs@[k])
            &&& forall|j: int| 0 <= j < k ==> header_ok(#[trigger] pairs@[j])
            &&& (!header_name_accepted(encode_utf8(pairs@[k].0@)) ==> (e matches HeaderError::InvalidName(m)
                && m@ == "invalid HTTP header name"@))
            &&& (header_name_accepted(encode_utf8(pairs@[k].0@)) ==> (e matches HeaderError::InvalidValue(m)
                && m@ == "failed to parse header value"@))
        },
{
    let mut out: Vec<(HeaderName, HeaderValue)> = Vec::new();
    let mut i: usize = 0;
    while i < pairs.len()
        invariant
            i <= pairs.len(),
            out@.len() == i,
            forall|j: int| 0 <= j < i ==> header_ok(#[trigger] pairs@[j]),
            forall|j: int| 0 <= j < i ==> #[trigger] out@[j] == converted_header(pairs@[j]),
        decreases pairs.len() - i,
    {
        let name = match parse_header_name(pairs[i].0.as_str()) {
            Ok(n) => n,
            Err(e) => {
                let m = name_error_message(&e);
                assert(!header_ok(pairs@[i as int]));
                return Err(HeaderError::InvalidName(m));
            },
        };
        let value = match parse_header_value(pairs[i].1.as_str()) {
            Ok(v) => v,
            Err(e) => {
                let m = value_error_message(&e);
                assert(!header_ok(pairs@[i as int]));
                return Err(HeaderError::InvalidValue(m));
            },
        };
        out.push((name, value));
        i += 1;
    }
    Ok(out)
}

/// What a script gets back from a request: the status code and the body.
pub struct HttpReply {
    pub status: u16,
    pub content: String,
}

/// The reply to a request that failed before any response arrived: status
/// 0 and an empty body.
pub fn failed_reply() -> (res: HttpReply)
    ensures
        res.status == 0,
        res.content@.len() == 0,
{
    HttpReply { status: 0, content: String::new() }
}

/// The reply to a response with status `code` whose body read as `body`; a
/// body that could not be read counts as empty. Its status is never 0.
pub fn received_reply(code: &StatusCode, body: Option<String>) -> (res: HttpReply)
    ensures
        res.status == status_number(*code),
        100 <= res.status <= 999,
        body matches Some(b) ==> res.content@ == b@,
        body is None ==> res.content@.len() == 0,
{
    let status = status_code_number(code);
    let content = match body {
        Some(b) => b,
        None => String::new(),
    };
    HttpReply { status, content }
}

/// The reply a script gets: for a response, its status and body; for a
/// request refused before it was sent (a header refused by
/// `convert_headers`) or sent without a response, status 0 and an empty
/// body. The status is 0 exactly when no response came.
pub fn reply_for(outcome: Result<Option<(StatusCode, Option<String>)>, HeaderError>) -> (res: HttpReply)
    ensures
        (res.status == 0) <==> !(outcome matches Ok(Some(_))),
        !(outcome matches Ok(Some(_))) ==> res.content@.len() == 0,
        outcome matches Ok(Some((code, body))) ==> res.status == status_number(code) && (body matches Some(b)
            ==> res.content@ == b@) && (body is None ==> res.content@.len() == 0),
{
    match outcome {
        Ok(Some((code, body))) => received_reply(&code, body),
        _ => failed_reply(),
    }
}

} // verus!
