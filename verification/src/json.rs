//! The JSON reader that the manifest code rests on. Nothing in this file is
//! proved: each item states what `serde_json` does, as its source shows it.

use vstd::prelude::*;

verus! {

/// `serde_json::Value`, a parsed JSON document or a part of one.
#[verifier::external_type_specification]
#[verifier::external_body]
pub struct ExJsonValue(serde_json::Value);

/// `serde_json::Error`, what went wrong while parsing.
#[verifier::external_type_specification]
#[verifier::external_body]
pub struct ExJsonError(serde_json::Error);

/// What `serde_json::from_str` makes of a text: the document it holds, or
/// the error.
pub uninterp spec fn json_parsed(text: Seq<char>) -> Result<serde_json::Value, serde_json::Error>;

/// The text that an error displays as.
pub uninterp spec fn json_error_text(error: serde_json::Error) -> Seq<char>;

/// The member of an object under a key: `None` where the value is no object
/// or has no such member.
pub uninterp spec fn json_member(value: serde_json::Value, key: Seq<char>) -> Option<
    serde_json::Value,
>;

/// The text of a value that is a string, `None` for any other value.
pub uninterp spec fn json_text(value: serde_json::Value) -> Option<Seq<char>>;

/// The number of a value that is held as an integer from 0 to `u64::MAX`,
/// `None` for any other value.
pub uninterp spec fn json_number(value: serde_json::Value) -> Option<u64>;

/// The elements of a value that is an array, `None` for any other value.
pub uninterp spec fn json_items(value: serde_json::Value) -> Option<Seq<serde_json::Value>>;

/// `serde_json::from_str` at type `Value`: parses a whole text as one JSON
/// document. The same text always gives the same outcome.
#[verifier::external_body]
pub(crate) fn parse_json(text: &str) -> (parsed: Result<serde_json::Value, serde_json::Error>)
    ensures
        parsed == json_parsed(text@),
{
    serde_json::from_str::<serde_json::Value>(text)
}

/// `to_string` on a `serde_json::Error`: the message the error displays as.
#[verifier::external_body]
pub(crate) fn error_text(error: &serde_json::Error) -> (text: String)
    ensures
        text@ == json_error_text(*error),
{
    error.to_string()
}

/// `Value::get` with a string key: the member of an object under that key.
#[verifier::external_body]
pub(crate) fn member<'a>(value: &'a serde_json::Value, key: &str) -> (found: Option<
    &'a serde_json::Value,
>)
    ensures
        found.is_some() == json_member(*value, key@).is_some(),
        found matches Some(m) ==> json_member(*value, key@) == Some(*m),
{
    value.get(key)
}

/// `Value::as_str`: the text of a string value.
#[verifier::external_body]
pub(crate) fn as_text<'a>(value: &'a serde_json::Value) -> (text: Option<&'a str>)
    ensures
        text.is_some() == json_text(*value).is_some(),
        text matches Some(t) ==> json_text(*value) == Some(t@),
{
    value.as_str()
}

/// `Value::as_u64`: the number of a value that is an integer in `u64` range.
#[verifier::external_body]
pub(crate) fn as_number(value: &serde_json::Value) -> (number: Option<u64>)
    ensures
        number == json_number(*value),
{
    value.as_u64()
}

/// `Value::as_array`: the elements of an array value.
#[verifier::external_body]
pub(crate) fn as_items<'a>(value: &'a serde_json::Value) -> (items: Option<
    &'a Vec<serde_json::Value>,
>)
    ensures
        items.is_some() == json_items(*value).is_some(),
        items matches Some(v) ==> json_items(*value) == Some(v@),
{
    value.as_array()
}

} // verus!
