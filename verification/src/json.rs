//! A JSON document as a value the verified code can read.
//!
//! Parsing is delegated to an outside parser; its result is carried over,
//! variant by variant, into [`JsonValue`], the library's own tree, on which
//! all schema extraction is then verified.

use vstd::prelude::*;

use crate::text::str_eq;

verus! {

/// A JSON document. Numbers keep only their textual form: no provider
/// schema here reads a numeric field.
#[derive(Debug)]
pub enum JsonValue {
    Null,
    Bool(bool),
    Number(String),
    Text(String),
    Array(Vec<JsonValue>),
    Object(Vec<(String, JsonValue)>),
}

#[verifier::external_type_specification]
#[verifier::external_body]
pub struct ExValue(serde_json::Value);

/// The document that a text parses to, or `None` when it is not valid JSON.
pub uninterp spec fn json_doc(s: Seq<char>) -> Option<JsonValue>;

/// The library's tree for an outside parsed value.
pub uninterp spec fn value_model(v: serde_json::Value) -> JsonValue;

/// Relies on `serde_json::from_str::<serde_json::Value>`: parsing is a
/// function of the text alone, and it returns `Ok` exactly on valid JSON
/// documents.
#[verifier::external_body]
fn parse_value(s: &str) -> (r: Result<serde_json::Value, String>)
    ensures
        (r is Ok) == (json_doc(s@) is Some),
        r matches Ok(v) ==> json_doc(s@) == Some(value_model(v)),
{
    match serde_json::from_str::<serde_json::Value>(s) {
        Ok(v) => Ok(v),
        Err(e) => Err(e.to_string()),
    }
}

/// Relies on the variants of `serde_json::Value`: each arm moves the
/// corresponding payload into the library's own tree, so the result is a
/// function of the value alone (object entries come out in the map's
/// deterministic key order).
#[verifier::external_body]
fn value_tree(v: &serde_json::Value) -> (r: JsonValue)
    ensures
        r == value_model(*v),
{
    match v {
        serde_json::Value::Null => JsonValue::Null,
        serde_json::Value::Bool(b) => JsonValue::Bool(*b),
        serde_json::Value::Number(n) => JsonValue::Number(n.to_string()),
        serde_json::Value::String(s) => JsonValue::Text(s.clone()),
        serde_json::Value::Array(a) => JsonValue::Array(a.iter().map(value_tree).collect()),
        serde_json::Value::Object(m) => JsonValue::Object(
            m.iter().map(|(k, x)| (k.clone(), value_tree(x))).collect(),
        ),
    }
}

/// Parses a text into the library's JSON tree: `Ok` exactly on valid JSON,
/// `Err` with the parser's diagnostic otherwise.
pub fn parse_json(s: &str) -> (r: Result<JsonValue, String>)
    ensures
        (r is Ok) == (json_doc(s@) is Some),
        r matches Ok(v) ==> json_doc(s@) == Some(v),
{
    match parse_value(s) {
        Ok(v) => Ok(value_tree(&v)),
        Err(e) => Err(e),
    }
}

/// The value under `key` in an object's entries: the first entry whose key
/// matches (entries from the parser carry distinct keys).
pub open spec fn obj_lookup(fields: Seq<(String, JsonValue)>, key: Seq<char>) -> Option<JsonValue>
    decreases fields.len(),
{
    if fields.len() == 0 {
        None
    } else if fields[0].0@ == key {
        Some(fields[0].1)
    } else {
        obj_lookup(fields.drop_first(), key)
    }
}

/// Looks `key` up among an object's entries.
pub fn get_field<'a>(fields: &'a Vec<(String, JsonValue)>, key: &str) -> (r: Option<
    &'a JsonValue,
>)
    ensures
        match r {
            Option::None => obj_lookup(fields@, key@) is None,
            Option::Some(v) => obj_lookup(fields@, key@) == Some(*v),
        },
{
    let n = fields.len();
    let mut i: usize = 0;
    proof {
        assert(fields@.skip(0) =~= fields@);
    }
    while i < n
        invariant
            n == fields@.len(),
            i <= n,
            obj_lookup(fields@, key@) == obj_lookup(fields@.skip(i as int), key@),
        decreases n - i,
    {
        proof {
            assert(fields@.skip(i as int)[0] == fields@[i as int]);
            assert(fields@.skip(i as int).drop_first() =~= fields@.skip(i as int + 1));
        }
        if str_eq(fields[i].0.as_str(), key) {
            return Some(&fields[i].1);
        }
        i += 1;
    }
    proof {
        assert(fields@.skip(n as int).len() == 0);
    }
    None
}

} // verus!
