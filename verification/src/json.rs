//! Trusted declarations for the serde_json types and accessors that the
//! library navigates. A JSON value is opaque here: every decision made on
//! what an accessor returned is taken in verified code that receives the
//! returned plain value as an argument.

use vstd::prelude::*;

verus! {

#[verifier::external_type_specification]
#[verifier::external_body]
pub struct ExValue(serde_json::Value);

#[verifier::external_type_specification]
#[verifier::external_body]
#[verifier::reject_recursive_types(K)]
#[verifier::reject_recursive_types(V)]
pub struct ExJsonMap<K, V>(serde_json::Map<K, V>);

/// Whether a text parses as a JSON object. Parsing is a fixed function of
/// the text alone; what the object holds stays unnamed.
pub uninterp spec fn parses_as_json_object(s: Seq<char>) -> bool;

/// Relies on serde_json::from_str and Value::as_object: parses the text and
/// hands back the top-level object, or nothing where the text is not valid
/// JSON or not a JSON object.
#[verifier::external_body]
pub(crate) fn parse_json_object(s: &str) -> (r: Option<
    serde_json::Map<String, serde_json::Value>,
>)
    ensures
        r is Some == parses_as_json_object(s@),
{
    match serde_json::from_str::<serde_json::Value>(s) {
        Ok(serde_json::Value::Object(m)) => Some(m),
        _ => None,
    }
}

/// Relies on serde_json::Value::get: the member of an object under a key,
/// where the value is an object holding that key.
#[verifier::external_body]
pub(crate) fn json_get<'a>(v: &'a serde_json::Value, key: &str) -> (r: Option<&'a serde_json::Value>) {
    v.get(key)
}

/// Relies on serde_json::Map::get: the member of the object under a key.
#[verifier::external_body]
pub(crate) fn json_obj_get<'a>(
    m: &'a serde_json::Map<String, serde_json::Value>,
    key: &str,
) -> (r: Option<&'a serde_json::Value>) {
    m.get(key)
}

/// Relies on serde_json::Value::pointer: the value a JSON pointer path
/// reaches, or nothing where a step of the path is absent.
#[verifier::external_body]
pub(crate) fn json_pointer<'a>(v: &'a serde_json::Value, path: &str) -> (r: Option<
    &'a serde_json::Value,
>) {
    v.pointer(path)
}

/// Relies on serde_json::Value::as_u64: the value as an unsigned integer,
/// where it is an integer number in range.
#[verifier::external_body]
pub(crate) fn json_as_u64(v: &serde_json::Value) -> (r: Option<u64>) {
    v.as_u64()
}

/// Relies on serde_json::Value::as_str: the value as text, where it is a
/// JSON string.
#[verifier::external_body]
pub(crate) fn json_as_str<'a>(v: &'a serde_json::Value) -> (r: Option<&'a str>) {
    v.as_str()
}

/// Relies on serde_json::Value::as_object: the value as an object, where
/// it is one.
#[verifier::external_body]
pub(crate) fn json_as_object<'a>(v: &'a serde_json::Value) -> (r: Option<
    &'a serde_json::Map<String, serde_json::Value>,
>) {
    v.as_object()
}

/// Relies on serde_json::Value::as_array: the value as a vector of
/// elements, where it is a JSON array.
#[verifier::external_body]
pub(crate) fn json_as_array<'a>(v: &'a serde_json::Value) -> (r: Option<&'a Vec<serde_json::Value>>) {
    v.as_array()
}

} // verus!
