//! JSON values, held in `serde_json::Value`.

use serde_json::Value;
use vstd::prelude::*;

verus! {

/// `serde_json::Value`, an opaque JSON value.
#[verifier::external_type_specification]
#[verifier::external_body]
pub struct ExValue(Value);

/// What a text is as JSON: a value, by its kind, or no JSON at all.
pub enum Parsed {
    Null(Value),
    Bool(Value),
    Number(Value),
    Text(Value),
    Array(Value),
    Object(Value),
    Invalid,
}

/// What a text is as JSON, as `serde_json::from_str` reads it.
pub uninterp spec fn json_parse(text: Seq<char>) -> Parsed;

/// The JSON string of a text, `serde_json::Value::String`.
pub uninterp spec fn json_string(text: Seq<char>) -> Value;

/// Calls `serde_json::from_str` and tells the kinds of values, and errors,
/// apart. The result is named `json_parse` and depends on the text alone.
#[verifier::external_body]
fn parse_json(text: &str) -> (parsed: Parsed)
    ensures
        parsed == json_parse(text@),
{
    match serde_json::from_str::<Value>(text) {
        Ok(value @ Value::Null) => Parsed::Null(value),
        Ok(value @ Value::Bool(_)) => Parsed::Bool(value),
        Ok(value @ Value::Number(_)) => Parsed::Number(value),
        Ok(value @ Value::String(_)) => Parsed::Text(value),
        Ok(value @ Value::Array(_)) => Parsed::Array(value),
        Ok(value @ Value::Object(_)) => Parsed::Object(value),
        Err(_) => Parsed::Invalid,
    }
}

/// Makes a `serde_json::Value::String`, which is named `json_string` and depends
/// on the text alone.
#[verifier::external_body]
pub(crate) fn string_value(text: String) -> (value: Value)
    ensures
        value == json_string(text@),
{
    Value::String(text)
}

/// What a queued message is handed out as, given what it is as JSON: an object
/// as itself, anything else as a string of its text.
pub open spec fn queued_value_of(body: Seq<char>, parsed: Parsed) -> Value {
    match parsed {
        Parsed::Object(value) => value,
        _ => json_string(body),
    }
}

/// What a queued message is handed out as, given what it is as JSON.
pub fn queued_value(body: String, parsed: Parsed) -> (value: Value)
    ensures
        value == queued_value_of(body@, parsed),
{
    match parsed {
        Parsed::Object(value) => value,
        _ => string_value(body),
    }
}

/// What a queued message is handed out as.
pub fn queued_json_value(body: String) -> (value: Value)
    ensures
        value == queued_value_of(body@, json_parse(body@)),
{
    let parsed: Parsed = parse_json(body.as_str());
    queued_value(body, parsed)
}

} // verus!
