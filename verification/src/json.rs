//! JSON values as `serde_json` reads and writes them.
//!
//! A value of `serde_json` is opaque to the verifier. What it holds is given
//! a name, [`json_value`], and the accessors of the crate are stated over it.

use vstd::prelude::*;

verus! {

/// `serde_json::Value`, declared so that it can stand in signatures and
/// fields. Nothing is known of a value but what the items below say.
#[verifier::external_type_specification]
#[verifier::external_body]
pub struct ExValue(serde_json::Value);

/// A JSON number: what it is as an unsigned 64-bit integer, if it is a whole
/// number that is not negative and fits, and how it is written.
pub struct JsonNumber {
    pub unsigned: Option<u64>,
    pub text: Seq<char>,
}

/// A JSON value as a mathematical value. The members of an object are told
/// apart by their keys.
pub enum Json {
    Null,
    Bool(bool),
    Number(JsonNumber),
    String(Seq<char>),
    Array(Seq<Json>),
    Object(Map<Seq<char>, Json>),
}

/// What a value of `serde_json` holds.
pub uninterp spec fn json_value(value: serde_json::Value) -> Json;

/// The value that `serde_json` reads from a text; `None` where the text is
/// not one JSON value.
pub uninterp spec fn json_parse(text: Seq<char>) -> Option<Json>;

/// What `serde_json` says is wrong with a text that is not one JSON value.
pub uninterp spec fn json_parse_error(text: Seq<char>) -> Seq<char>;

/// The number that `serde_json` makes of an unsigned 64-bit integer.
pub uninterp spec fn json_number(n: u64) -> JsonNumber;

/// The text that `serde_json` writes for a value, in its compact form, the
/// members of an object in the order of their keys.
pub uninterp spec fn json_text(value: Json) -> Seq<char>;

/// The member of an object with the given key; `None` where the value is no
/// object or has no such member.
pub open spec fn member(value: Json, key: Seq<char>) -> Option<Json> {
    match value {
        Json::Object(members) => if members.contains_key(key) {
            Some(members[key])
        } else {
            None
        },
        _ => None,
    }
}

/// The values that the items of a vector hold.
pub open spec fn json_values(items: Seq<serde_json::Value>) -> Seq<Json> {
    items.map_values(|v: serde_json::Value| json_value(v))
}

/// `serde_json::from_str` for a `Value`: the value that the text writes, or,
/// if the text is not one JSON value, what `serde_json` says is wrong with
/// it.
#[verifier::external_body]
pub(crate) fn parse(text: &str) -> (r: Result<serde_json::Value, String>)
    ensures
        match r {
            Ok(value) => json_parse(text@) == Some(json_value(value)),
            Err(message) => json_parse(text@) is None && message@ == json_parse_error(text@),
        },
{
    serde_json::from_str::<serde_json::Value>(text).map_err(|e| e.to_string())
}

/// `serde_json::Value::get` with a string key: the member of an object with
/// that key; `None` for a value that is no object or has no such member.
#[verifier::external_body]
pub(crate) fn get<'a>(value: &'a serde_json::Value, key: &str) -> (r: Option<&'a serde_json::Value>)
    ensures
        match r {
            Some(found) => member(json_value(*value), key@) == Some(json_value(*found)),
            None => member(json_value(*value), key@) is None,
        },
{
    value.get(key)
}

/// `serde_json::Map::new` as a `Value`: the object without members.
#[verifier::external_body]
pub(crate) fn empty_object() -> (r: serde_json::Value)
    ensures
        json_value(r) == Json::Object(Map::empty()),
{
    serde_json::Value::Object(serde_json::Map::new())
}

/// `serde_json::Value::Null`: the value that is nothing.
#[verifier::external_body]
pub(crate) fn null() -> (r: serde_json::Value)
    ensures
        json_value(r) == Json::Null,
{
    serde_json::Value::Null
}

/// `From<u64>` of `serde_json::Value`: the number that an unsigned integer
/// is.
#[verifier::external_body]
pub(crate) fn number(n: u64) -> (r: serde_json::Value)
    ensures
        json_value(r) == Json::Number(json_number(n)),
{
    serde_json::Value::from(n)
}

/// `Clone` of `serde_json::Value`: a value that holds the same.
#[verifier::external_body]
pub(crate) fn duplicate(value: &serde_json::Value) -> (r: serde_json::Value)
    ensures
        json_value(r) == json_value(*value),
{
    value.clone()
}

/// `IndexMut` of `serde_json::Value` with a string key, and the assignment
/// to the place it gives: the object has the member with that key and that
/// value from then on, and its other members as before. Only an object is
/// admitted; on a value that is neither an object nor nothing the outside
/// function does not return.
#[verifier::external_body]
pub(crate) fn set_member(object: &mut serde_json::Value, key: &str, value: serde_json::Value)
    requires
        json_value(*old(object)) is Object,
    ensures
        json_value(*final(object)) == Json::Object(
            json_value(*old(object))->Object_0.insert(key@, json_value(value)),
        ),
{
    object[key] = value;
}

/// `Display` of `serde_json::Value`: the value written as compact JSON text.
#[verifier::external_body]
pub(crate) fn to_text(value: &serde_json::Value) -> (r: String)
    ensures
        r@ == json_text(json_value(*value)),
{
    value.to_string()
}

/// `serde_json::Value::as_bool`: the flag that a value is; `None` for a value
/// that is no flag.
pub assume_specification[ serde_json::Value::as_bool ](value: &serde_json::Value) -> (r: Option<
    bool,
>)
    ensures
        r == match json_value(*value) {
            Json::Bool(b) => Some(b),
            _ => None::<bool>,
        },
;

/// `serde_json::Value::as_u64`: the number that a value is, if it is a whole
/// number that is not negative and fits in 64 bits; `None` for any other
/// value.
pub assume_specification[ serde_json::Value::as_u64 ](value: &serde_json::Value) -> (r: Option<u64>)
    ensures
        r == match json_value(*value) {
            Json::Number(n) => n.unsigned,
            _ => None::<u64>,
        },
;

/// `serde_json::Value::as_str`: the text that a value is; `None` for a value
/// that is no text.
pub assume_specification<'a>[ serde_json::Value::as_str ](value: &'a serde_json::Value) -> (r:
    Option<&'a str>)
    ensures
        match r {
            Some(text) => json_value(*value) == Json::String(text@),
            None => !(json_value(*value) is String),
        },
;

/// `serde_json::Value::as_array`: the items of a value that is an array, in
/// their order; `None` for a value that is no array.
pub assume_specification<'a>[ serde_json::Value::as_array ](value: &'a serde_json::Value) -> (r:
    Option<&'a Vec<serde_json::Value>>)
    ensures
        match r {
            Some(items) => json_value(*value) == Json::Array(json_values(items@)),
            None => !(json_value(*value) is Array),
        },
;

} // verus!
