//! JSON values: the calls into `serde_json`.

use serde_json::Value;
use vstd::prelude::*;
use crate::strmap::{inserted, StrMap};

verus! {

/// A JSON value of `serde_json`.
#[verifier::external_type_specification]
#[verifier::external_body]
pub struct ExValue(serde_json::Value);

/// What `serde_json` reports where it cannot read or write a value.
#[verifier::external_type_specification]
#[verifier::external_body]
pub struct ExJsonError(serde_json::Error);

/// The members of a JSON object, and nothing for any other value.
pub uninterp spec fn json_members(v: serde_json::Value) -> Option<Map<Seq<char>, serde_json::Value>>;

/// The JSON object with the given members.
pub uninterp spec fn json_object(members: Map<Seq<char>, serde_json::Value>) -> serde_json::Value;

/// The text of a JSON string, and nothing for any other value.
pub uninterp spec fn json_string(v: serde_json::Value) -> Option<Seq<char>>;

/// The JSON string with the given text.
pub uninterp spec fn json_text(text: Seq<char>) -> serde_json::Value;

/// The JSON value that a text denotes, and nothing where it is no JSON.
pub uninterp spec fn json_parsed(data: Seq<u8>) -> Option<serde_json::Value>;

/// The compact text of a JSON value, and nothing where there is none.
pub uninterp spec fn json_printed(v: serde_json::Value) -> Option<Seq<char>>;

/// Takes an object apart: the entries of `Value::Object`. They make up the
/// members of the value, which is the object with these members; any other
/// value comes back as it is.
#[verifier::external_body]
fn into_entries(v: Value) -> (r: Result<Vec<(String, Value)>, Value>)
    ensures
        match r {
            Ok(entries) => json_members(v) == Some(inserted(entries@)) && v == json_object(
                inserted(entries@),
            ),
            Err(same) => json_members(v) is None && same == v,
        },
{
    match v {
        Value::Object(members) => Ok(members.into_iter().collect()),
        other => Err(other),
    }
}

/// Builds a `Value::Object`. Its members are the entries, of which the last
/// one with a key counts, and they make the value what it is; an object is no
/// string.
#[verifier::external_body]
fn from_entries(entries: Vec<(String, Value)>) -> (v: Value)
    ensures
        v == json_object(inserted(entries@)),
        json_members(v) == Some(inserted(entries@)),
        json_string(v) is None,
{
    Value::Object(entries.into_iter().collect())
}

/// Builds a `Value::String`, which has the given text and no members.
#[verifier::external_body]
pub(crate) fn text_value(text: String) -> (v: Value)
    ensures
        v == json_text(text@),
        json_string(v) == Some(text@),
        json_members(v) is None,
{
    Value::String(text)
}

/// `Value::as_str`: the text of a string, `None` for any other value.
#[verifier::external_body]
pub(crate) fn value_text(v: &Value) -> (r: Option<&str>)
    ensures
        match r {
            Some(text) => json_string(*v) == Some(text@),
            None => json_string(*v) is None,
        },
{
    v.as_str()
}

/// `Value::clone` makes an equal value.
pub assume_specification [ <serde_json::Value as Clone>::clone ](
    v: &serde_json::Value,
) -> (r: serde_json::Value)
    ensures
        r == *v,
;

/// `serde_json::from_slice` into a value. Whether it succeeds, and with what
/// value, is `json_parsed` of the bytes.
#[verifier::external_body]
fn value_from_slice(data: &[u8]) -> (r: Result<Value, serde_json::Error>)
    ensures
        match r {
            Ok(v) => json_parsed(data@) == Some(v),
            Err(_) => json_parsed(data@) is None,
        },
{
    serde_json::from_slice(data)
}

/// `serde_json::to_string` of a value. Whether it succeeds, and with what
/// text, is `json_printed` of the value.
#[verifier::external_body]
fn value_to_string(v: &Value) -> (r: Result<String, serde_json::Error>)
    ensures
        match r {
            Ok(text) => json_printed(*v) == Some(text@),
            Err(_) => json_printed(*v) is None,
        },
{
    serde_json::to_string(v)
}

/// The JSON value that `data` denotes.
pub fn parse_json(data: &[u8]) -> (r: Option<Value>)
    ensures
        r == json_parsed(data@),
{
    match value_from_slice(data) {
        Ok(v) => Some(v),
        Err(_) => None,
    }
}

/// The compact text of a JSON value.
pub fn print_json(v: &Value) -> (r: Option<String>)
    ensures
        match r {
            Some(text) => json_printed(*v) == Some(text@),
            None => json_printed(*v) is None,
        },
{
    match value_to_string(v) {
        Ok(text) => Some(text),
        Err(_) => None,
    }
}

/// The members of an object; any other value comes back as it is.
pub fn into_members(v: Value) -> (r: Result<StrMap<Value>, Value>)
    ensures
        match r {
            Ok(members) => json_members(v) == Some(members@) && v == json_object(members@),
            Err(same) => json_members(v) is None && same == v,
        },
{
    match into_entries(v) {
        Err(same) => Err(same),
        Ok(entries) => Ok(StrMap::from_entries(entries)),
    }
}

/// The object with the given members.
pub fn object(members: StrMap<Value>) -> (v: Value)
    ensures
        v == json_object(members@),
        json_members(v) == Some(members@),
        json_string(v) is None,
{
    from_entries(members.into_entries())
}

} // verus!
