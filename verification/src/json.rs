//! JSON documents, read through `serde_json`.
//!
//! A parsed document is a value of `serde_json` that the verifier cannot
//! look into. What `serde_json` finds in a document is given a name here,
//! and each function below makes one call into `serde_json` and says that
//! its result is the named one. None of this is proved: it is what the
//! rest of the crate takes on trust about `serde_json`.

use vstd::prelude::*;

verus! {

/// `serde_json::Value`, a parsed JSON value. Nothing of what is inside it
/// is known here but through the functions below.
#[verifier::external_type_specification]
#[verifier::external_body]
pub struct ExJsonValue(serde_json::Value);

/// `serde_json::Error`, the reason why a text is no JSON document. It is
/// never looked into.
#[verifier::external_type_specification]
#[verifier::external_body]
pub struct ExJsonError(serde_json::Error);

/// The document that a text is, if it is JSON.
pub uninterp spec fn document_of(text: Seq<char>) -> Option<serde_json::Value>;

/// The member of an object under a key. Nothing, if the value is no object
/// or has no such member.
pub uninterp spec fn member_of(value: serde_json::Value, key: Seq<char>) -> Option<
    serde_json::Value,
>;

/// The elements of an array, in order. Nothing, if the value is no array.
pub uninterp spec fn items_of(value: serde_json::Value) -> Option<Seq<serde_json::Value>>;

/// The characters of a string. Nothing, if the value is no string.
pub uninterp spec fn text_of(value: serde_json::Value) -> Option<Seq<char>>;

/// The number that an integer from zero up to the largest `u64` is.
/// Nothing, if the value is anything else.
pub uninterp spec fn unsigned_of(value: serde_json::Value) -> Option<u64>;

/// The value written out as compact JSON text.
pub uninterp spec fn rendering_of(value: serde_json::Value) -> Seq<char>;

/// Calls `serde_json::from_str`, which parses a text as one JSON document
/// and fails on anything else. The outcome depends on the text alone.
#[verifier::external_body]
pub(crate) fn parse(text: &str) -> (parsed: Result<serde_json::Value, serde_json::Error>)
    ensures
        match parsed {
            Ok(value) => document_of(text@) == Some(value),
            Err(_) => document_of(text@) is None,
        },
{
    serde_json::from_str(text)
}

/// Calls `Value::get` with a string key, which returns the member of an
/// object under that key, and nothing for a value that is no object or has
/// no such member.
#[verifier::external_body]
pub(crate) fn member<'a>(value: &'a serde_json::Value, key: &str) -> (found: Option<
    &'a serde_json::Value,
>)
    ensures
        match found {
            Some(m) => member_of(*value, key@) == Some(*m),
            None => member_of(*value, key@) is None,
        },
{
    value.get(key)
}

/// Calls `Value::as_array`, which returns the vector of an array, and
/// nothing for any other value.
#[verifier::external_body]
pub(crate) fn items<'a>(value: &'a serde_json::Value) -> (found: Option<
    &'a Vec<serde_json::Value>,
>)
    ensures
        match found {
            Some(elements) => items_of(*value) == Some(elements@),
            None => items_of(*value) is None,
        },
{
    value.as_array()
}

/// Calls `Value::as_str`, which returns the text of a string, and nothing
/// for any other value.
#[verifier::external_body]
pub(crate) fn text<'a>(value: &'a serde_json::Value) -> (found: Option<&'a str>)
    ensures
        match found {
            Some(t) => text_of(*value) == Some(t@),
            None => text_of(*value) is None,
        },
{
    value.as_str()
}

/// Calls `Value::as_u64`, which returns an integer that fits `u64`, and
/// nothing for any other value.
#[verifier::external_body]
pub(crate) fn unsigned(value: &serde_json::Value) -> (found: Option<u64>)
    ensures
        found == unsigned_of(*value),
{
    value.as_u64()
}

/// Calls `to_string` on a `Value`, whose `Display` writes the value as
/// compact JSON text.
#[verifier::external_body]
pub(crate) fn rendering(value: &serde_json::Value) -> (written: String)
    ensures
        written@ == rendering_of(*value),
{
    value.to_string()
}

} // verus!
