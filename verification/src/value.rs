//! The values that a redirect writes: JSON as `serde_json` reads it, and the representation
//! that the remote protocol has for it.

use lighthouse_client::protocol::Value;
use lighthouse_client::protocol::ValueError;
use vstd::prelude::*;

verus! {

/// `serde_json::Value`, a JSON value. It is carried along and never looked into.
#[verifier::external_type_specification]
#[verifier::external_body]
pub struct ExJsonValue(serde_json::Value);

/// `serde_json::Error`, which says where a text is no JSON.
#[verifier::external_type_specification]
#[verifier::external_body]
pub struct ExJsonError(serde_json::Error);

/// `lighthouse_client::protocol::Value`, a value as the remote protocol represents it. It is
/// carried along and never looked into.
#[verifier::external_type_specification]
#[verifier::external_body]
pub struct ExValue(Value);

/// `lighthouse_client::protocol::ValueError`, which says why a value has no representation
/// in the remote protocol.
#[verifier::external_type_specification]
#[verifier::external_body]
pub struct ExValueError(ValueError);

/// What `serde_json::from_str` makes of a text: the JSON value that the text spells, or the
/// error that says where it spells none.
pub uninterp spec fn json_parsed(text: Seq<char>) -> Result<serde_json::Value, serde_json::Error>;

/// The message that a JSON error displays.
pub uninterp spec fn json_error_text(error: serde_json::Error) -> Seq<char>;

/// What `to_value` makes of a JSON value: the same data as a value of the remote protocol, or
/// the error that says why it has none.
pub uninterp spec fn protocol_value(json: serde_json::Value) -> Result<Value, ValueError>;

/// The message that a conversion error displays.
pub uninterp spec fn value_error_text(error: ValueError) -> Seq<char>;

/// `serde_json::from_str` reads a text as one JSON value. What it returns depends on the text
/// alone.
#[verifier::external_body]
pub(crate) fn parse_json(text: &str) -> (r: Result<serde_json::Value, serde_json::Error>)
    ensures
        r == json_parsed(text@),
{
    serde_json::from_str(text)
}

/// `ToString::to_string` on a `serde_json::Error` gives the message that the error displays.
#[verifier::external_body]
pub(crate) fn json_error_message(error: &serde_json::Error) -> (r: String)
    ensures
        r@ == json_error_text(*error),
{
    error.to_string()
}

/// `lighthouse_client::protocol::to_value` serializes a value into the protocol's own
/// representation. What it returns depends on the value alone.
#[verifier::external_body]
pub(crate) fn to_protocol_value(json: serde_json::Value) -> (r: Result<Value, ValueError>)
    ensures
        r == protocol_value(json),
{
    lighthouse_client::protocol::to_value(json)
}

/// `ToString::to_string` on a `ValueError` gives the message that the error displays.
#[verifier::external_body]
pub(crate) fn value_error_message(error: &ValueError) -> (r: String)
    ensures
        r@ == value_error_text(*error),
{
    error.to_string()
}

} // verus!
