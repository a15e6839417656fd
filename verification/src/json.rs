//! The JSON values of `serde_json`, as this library sees them.
//!
//! A `serde_json::Value` is opaque to the verifier. This module gives it a
//! mathematical model, `Json`, and one wrapper for each operation of `serde_json`
//! that the library performs. The wrappers' contracts are taken on trust: they
//! restate, over the model, what the source of `serde_json` does.

use serde_json::Value;
use vstd::prelude::*;

verus! {

#[verifier::external_type_specification]
#[verifier::external_body]
pub struct ExValue(serde_json::Value);

/// Model of a JSON number: an integer, or a floating-point number that is known
/// only by its bit pattern.
pub ghost enum Number {
    Int(int),
    Float(u64),
}

/// Model of a JSON value.
pub ghost enum Json {
    Null,
    Bool(bool),
    Number(Number),
    String(Seq<char>),
    Array(Seq<Json>),
    Object(Map<Seq<char>, Json>),
}

/// The model of a `serde_json::Value`: the same tree, with each object as a map
/// from its keys to the models of its members, each string as its characters and
/// each integer as its mathematical value.
pub uninterp spec fn json_of(v: Value) -> Json;

/// What `serde_json` reads out of a text, where the text is JSON.
pub uninterp spec fn json_parsed(text: Seq<u8>) -> Option<Json>;

/// The compact text that `serde_json` writes for a value.
pub uninterp spec fn json_text(j: Json) -> Seq<u8>;

/// The members of an object; nothing else has members.
pub open spec fn members(j: Json) -> Map<Seq<char>, Json> {
    match j {
        Json::Object(m) => m,
        _ => Map::empty(),
    }
}

/// The member of `j` under `key`, where `j` is an object that has one.
pub open spec fn member(j: Json, key: Seq<char>) -> Option<Json> {
    if members(j).dom().contains(key) {
        Some(members(j)[key])
    } else {
        None
    }
}

/// A value that takes members: an object, or null, which stands for the empty
/// object when a member is written into it.
pub open spec fn takes_members(j: Json) -> bool {
    j is Object || j is Null
}

/// `j` with `x` as its member under `key`.
pub open spec fn with_member(j: Json, key: Seq<char>, x: Json) -> Json {
    Json::Object(members(j).insert(key, x))
}

/// `j` without a member under `key`.
pub open spec fn without_member(j: Json, key: Seq<char>) -> Json {
    match j {
        Json::Object(m) => Json::Object(m.remove(key)),
        _ => j,
    }
}

/// The integer that `j` holds, where it is a number that fits `i64`.
pub open spec fn int_i64(j: Json) -> Option<i64> {
    match j {
        Json::Number(Number::Int(i)) => if i64::MIN <= i <= i64::MAX {
            Some(i as i64)
        } else {
            None
        },
        _ => None,
    }
}

/// The integer that `j` holds, where it is a number that fits `u64`.
pub open spec fn int_u64(j: Json) -> Option<u64> {
    match j {
        Json::Number(Number::Int(i)) => if 0 <= i <= u64::MAX {
            Some(i as u64)
        } else {
            None
        },
        _ => None,
    }
}

/// Calls `serde_json::from_slice`. Trusted: the value read is a function of the
/// text alone, named `json_parsed`; there is none where the call fails.
#[verifier::external_body]
pub(crate) fn parse(text: &[u8]) -> (r: Option<Value>)
    ensures
        match r {
            Some(v) => json_parsed(text@) == Some(json_of(v)),
            None => json_parsed(text@) is None,
        },
{
    serde_json::from_slice::<Value>(text).ok()
}

/// Calls `to_string` of `serde_json::Value`. Trusted: the text written is a
/// function of the value's model alone, named `json_text`.
#[verifier::external_body]
pub(crate) fn to_text(v: &Value) -> (r: Vec<u8>)
    ensures
        r@ == json_text(json_of(*v)),
{
    v.to_string().into_bytes()
}

/// Calls `Value::get` with a string key. Trusted: it returns the member under
/// that key where the value is an object that has one, and nothing otherwise.
#[verifier::external_body]
pub(crate) fn get<'a>(v: &'a Value, key: &str) -> (r: Option<&'a Value>)
    ensures
        match r {
            Some(x) => member(json_of(*v), key@) == Some(json_of(*x)),
            None => member(json_of(*v), key@) is None,
        },
{
    v.get(key)
}

/// Calls `Value::is_object`. Trusted: it tells whether the value is an object.
#[verifier::external_body]
pub(crate) fn is_object(v: &Value) -> (r: bool)
    ensures
        r == (json_of(*v) is Object),
{
    v.is_object()
}

/// Calls `Value::is_null`. Trusted: it tells whether the value is null.
#[verifier::external_body]
pub(crate) fn is_null(v: &Value) -> (r: bool)
    ensures
        r == (json_of(*v) is Null),
{
    v.is_null()
}

/// Calls `Value::as_i64`. Trusted: it returns the integer of a number that is an
/// integer within `i64`, and nothing for any other value.
#[verifier::external_body]
pub(crate) fn as_i64(v: &Value) -> (r: Option<i64>)
    ensures
        r == int_i64(json_of(*v)),
{
    v.as_i64()
}

/// Calls `Value::as_u64`. Trusted: it returns the integer of a number that is an
/// integer within `u64`, and nothing for any other value.
#[verifier::external_body]
pub(crate) fn as_u64(v: &Value) -> (r: Option<u64>)
    ensures
        r == int_u64(json_of(*v)),
{
    v.as_u64()
}

/// Calls `Value::as_f64` and keeps only whether it gave a number. Trusted: it
/// gives one for every JSON number, integer or not, and for nothing else.
#[verifier::external_body]
pub(crate) fn is_number(v: &Value) -> (r: bool)
    ensures
        r == (json_of(*v) is Number),
{
    v.as_f64().is_some()
}

/// Calls `Value::as_str`. Trusted: it returns the characters of a string, and
/// nothing for any other value.
#[verifier::external_body]
pub(crate) fn as_str<'a>(v: &'a Value) -> (r: Option<&'a str>)
    ensures
        match r {
            Some(s) => json_of(*v) == Json::String(s@),
            None => !(json_of(*v) is String),
        },
{
    v.as_str()
}

/// `clone` of `serde_json::Value`. Trusted: the copy has the same model.
pub assume_specification[ <Value as Clone>::clone ](v: &Value) -> (r: Value)
    ensures
        json_of(r) == json_of(*v),
;

/// Calls `Value::from` on an `i64`. Trusted: the result is that integer.
#[verifier::external_body]
pub(crate) fn from_i64(i: i64) -> (r: Value)
    ensures
        json_of(r) == Json::Number(Number::Int(i as int)),
{
    Value::from(i)
}

/// Calls `Value::from` on a `u64`. Trusted: the result is that integer.
#[verifier::external_body]
pub(crate) fn from_u64(u: u64) -> (r: Value)
    ensures
        json_of(r) == Json::Number(Number::Int(u as int)),
{
    Value::from(u)
}

/// Gives `Value::Null`.
#[verifier::external_body]
pub(crate) fn null() -> (r: Value)
    ensures
        json_of(r) == Json::Null,
{
    Value::Null
}

/// Assigns through the string index of `serde_json::Value`. Trusted: an object
/// gets `x` under `key`, in place of what it held there, and keeps its other
/// members; null becomes the object with that one member. On any other value the
/// index panics, so those are left out.
#[verifier::external_body]
pub(crate) fn set_member(v: &mut Value, key: &str, x: Value)
    requires
        takes_members(json_of(*old(v))),
    ensures
        json_of(*final(v)) == with_member(json_of(*old(v)), key@, json_of(x)),
{
    v[key] = x;
}

/// Calls `Map::remove` on the map that `Value::as_object_mut` gives. Trusted: an
/// object loses its member under `key`, if it had one, and keeps the others;
/// any other value stays as it is.
#[verifier::external_body]
pub(crate) fn remove_member(v: &mut Value, key: &str)
    ensures
        json_of(*final(v)) == without_member(json_of(*old(v)), key@),
{
    v.as_object_mut().map(|m| m.remove(key));
}

/// Calls `Map::keys` on the map that `Value::as_object` gives. Trusted: each key
/// of an object comes once, in the order in which the map is walked; a value
/// that is no object gives none.
#[verifier::external_body]
pub(crate) fn member_names(v: &Value) -> (r: Vec<String>)
    ensures
        forall|k: Seq<char>|
            members(json_of(*v)).dom().contains(k) <==> exists|i: int|
                0 <= i < r@.len() && (#[trigger] r@[i])@ == k,
        forall|i: int, j: int| 0 <= i < j < r@.len() ==> r@[i]@ != r@[j]@,
{
    v.as_object().map(|m| m.keys().cloned().collect()).unwrap_or_default()
}

} // verus!
