//! The document payload: an opaque JSON value carried through the library,
//! with trusted views of what the preference coercions read from it and of
//! the serialized text a document is written as.
use vstd::prelude::*;
use crate::bytes::views;

verus! {

#[verifier::external_type_specification]
#[verifier::external_body]
pub struct ExValue(serde_json::Value);

/// The text a JSON value holds when it is a string, as UTF-8 bytes.
pub uninterp spec fn json_as_string(v: serde_json::Value) -> Option<Seq<u8>>;

/// The strings a JSON value holds when it is an array of strings.
pub uninterp spec fn json_as_string_list(v: serde_json::Value) -> Option<Seq<Seq<u8>>>;

/// The pretty-printed JSON text of a value.
pub uninterp spec fn json_pretty_text(v: serde_json::Value) -> Seq<u8>;

/// Whether a byte sequence parses as a JSON document.
pub uninterp spec fn json_parses(b: Seq<u8>) -> bool;

/// Relies on serde_json's `Value::as_str`: `Some` of the held text exactly
/// when the value is a JSON string.
#[verifier::external_body]
pub fn value_as_string(v: &serde_json::Value) -> (r: Option<Vec<u8>>)
    ensures
        r matches Some(b) ==> json_as_string(*v) == Some(b@),
        r is None ==> json_as_string(*v) is None,
{
    v.as_str().map(|s| s.as_bytes().to_vec())
}

/// Relies on serde_json's `from_value` at `Vec<String>`: `Ok` of the held
/// strings exactly when the value is an array of strings.
#[verifier::external_body]
pub fn value_as_string_list(v: &serde_json::Value) -> (r: Option<Vec<Vec<u8>>>)
    ensures
        r matches Some(l) ==> json_as_string_list(*v) == Some(views(l@)),
        r is None ==> json_as_string_list(*v) is None,
{
    match serde_json::from_value::<Vec<String>>(v.clone()) {
        Ok(xs) => Some(xs.into_iter().map(|s| s.into_bytes()).collect()),
        Err(_) => None,
    }
}

/// Relies on serde_json's derived `Clone` for `Value`: the clone is the
/// same value.
pub assume_specification[ <serde_json::Value as Clone>::clone ](v: &serde_json::Value) -> (r:
    serde_json::Value)
    ensures
        r == *v,
;

/// Relies on serde_json's `from_slice` at `Value`: a deterministic parse
/// of the bytes alone; the error is rendered as its message.
#[verifier::external_body]
pub fn parse_json(bytes: &Vec<u8>) -> (r: Result<serde_json::Value, String>)
    ensures
        r is Ok <==> json_parses(bytes@),
{
    serde_json::from_slice::<serde_json::Value>(bytes.as_slice()).map_err(|e| e.to_string())
}

/// Relies on serde_json's `to_string_pretty`: it fails only for a failing
/// `Serialize` impl or a map with non-string keys, and a `Value` has
/// neither, so it returns the pretty text, a function of the value alone.
#[verifier::external_body]
pub fn to_pretty_json(v: &serde_json::Value) -> (r: Result<Vec<u8>, String>)
    ensures
        r is Ok,
        r matches Ok(b) ==> b@ == json_pretty_text(*v),
{
    match serde_json::to_string_pretty(v) {
        Ok(s) => Ok(s.into_bytes()),
        Err(e) => Err(e.to_string()),
    }
}

} // verus!
