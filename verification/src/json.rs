//! A model of JSON values, and trusted access to serde_json.
//!
//! The toolchain emits one JSON object per line. serde_json parses the
//! line; the library reads the parsed value only through the small trusted
//! interface below, whose contracts speak of `JsonModel`, a mathematical
//! JSON tree.

use vstd::prelude::*;

verus! {

/// A mathematical JSON value. Numbers carry their `u64` value when they
/// have one (a non-negative integer that fits), since that is all the
/// diagnostics need; objects are association sequences.
pub enum JsonModel {
    Null,
    Bool(bool),
    Num(Option<u64>),
    Str(Seq<char>),
    Arr(Seq<JsonModel>),
    Obj(Seq<(Seq<char>, JsonModel)>),
}

/// First binding of `key` in an association sequence.
pub open spec fn assoc_get(fields: Seq<(Seq<char>, JsonModel)>, key: Seq<char>) -> Option<
    JsonModel,
>
    decreases fields.len(),
{
    if fields.len() == 0 {
        None
    } else if fields[0].0 == key {
        Some(fields[0].1)
    } else {
        assoc_get(fields.drop_first(), key)
    }
}

/// Member lookup: what `Value::get` returns on the model.
pub open spec fn model_get(m: JsonModel, key: Seq<char>) -> Option<JsonModel> {
    match m {
        JsonModel::Obj(fields) => assoc_get(fields, key),
        _ => None,
    }
}

#[verifier::external_type_specification]
#[verifier::external_body]
pub struct ExValue(serde_json::Value);

/// The JSON tree a parsed `serde_json::Value` holds.
pub uninterp spec fn json_model(v: serde_json::Value) -> JsonModel;

/// The JSON tree a text parses to, if it is valid JSON.
pub uninterp spec fn json_of_text(s: Seq<char>) -> Option<JsonModel>;

/// Relies on `serde_json::from_str::<Value>`: the text parses to a value
/// exactly when it is valid JSON, and parsing is a function of the text.
#[verifier::external_body]
pub fn parse_json(s: &str) -> (r: Option<serde_json::Value>)
    ensures
        match r {
            Some(v) => json_of_text(s@) == Some(json_model(v)),
            None => json_of_text(s@) is None,
        },
{
    serde_json::from_str(s).ok()
}

/// Relies on `serde_json::Value::get`: a string index looks the key up in
/// a map and returns `None` on any other kind of value.
#[verifier::external_body]
pub fn json_get<'a>(v: &'a serde_json::Value, key: &str) -> (r: Option<&'a serde_json::Value>)
    ensures
        match r {
            Some(u) => model_get(json_model(*v), key@) == Some(json_model(*u)),
            None => model_get(json_model(*v), key@) is None,
        },
{
    v.get(key)
}

/// Relies on `serde_json::Value::as_str`: returns the string of a string
/// value and `None` otherwise.
#[verifier::external_body]
pub fn json_as_str<'a>(v: &'a serde_json::Value) -> (r: Option<&'a str>)
    ensures
        match r {
            Some(s) => json_model(*v) == JsonModel::Str(s@),
            None => !(json_model(*v) is Str),
        },
{
    v.as_str()
}

/// Relies on `serde_json::Value::as_u64`: returns the value of a number
/// representable as `u64` and `None` otherwise.
#[verifier::external_body]
pub fn json_as_u64(v: &serde_json::Value) -> (r: Option<u64>)
    ensures
        r == match json_model(*v) {
            JsonModel::Num(o) => o,
            _ => None::<u64>,
        },
{
    v.as_u64()
}

/// Relies on `serde_json::Value::as_array`: returns the vector of an
/// array value and `None` otherwise.
#[verifier::external_body]
pub fn json_as_array<'a>(v: &'a serde_json::Value) -> (r: Option<&'a Vec<serde_json::Value>>)
    ensures
        match r {
            Some(a) => json_model(*v) == JsonModel::Arr(
                a@.map_values(|x: serde_json::Value| json_model(x)),
            ),
            None => !(json_model(*v) is Arr),
        },
{
    v.as_array()
}

} // verus!
