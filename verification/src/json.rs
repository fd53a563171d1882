//! JSON values, which `serde_json` holds, reads and writes.
//!
//! A value is opaque to the proofs; [`content`] names what it holds. Each
//! function here makes one call into `serde_json` and is believed, not proved.

use crate::text;
use serde_json::Value;
use vstd::prelude::*;

verus! {

#[verifier::external_type_specification]
#[verifier::external_body]
pub struct ExValue(serde_json::Value);

/// What a JSON value holds. A number is held as it is written, and an object
/// has no order.
pub enum Json {
    Null,
    Bool(bool),
    Number(Seq<char>),
    Text(Seq<char>),
    List(Seq<Json>),
    Object(Map<Seq<char>, Json>),
}

/// What a value holds.
pub uninterp spec fn content(value: serde_json::Value) -> Json;

/// What each of several values holds.
pub open spec fn contents(values: Seq<Value>) -> Seq<Json> {
    values.map_values(|value: Value| content(value))
}

/// The number that an unsigned integer is written as.
pub open spec fn number(n: nat) -> Json {
    Json::Number(text::decimal(n))
}

/// What an object maps a key to; nothing else maps anything.
pub open spec fn member(json: Json, key: Seq<char>) -> Option<Json> {
    match json {
        Json::Object(members) => if members.dom().contains(key) {
            Some(members[key])
        } else {
            None
        },
        _ => None,
    }
}

/// What a string says; nothing else says anything.
pub open spec fn said(json: Json) -> Option<Seq<char>> {
    match json {
        Json::Text(s) => Some(s),
        _ => None,
    }
}

/// What a boolean is; nothing else is one.
pub open spec fn truth(json: Json) -> Option<bool> {
    match json {
        Json::Bool(b) => Some(b),
        _ => None,
    }
}

// ---------------------------------------------------------------------------
// Building
// ---------------------------------------------------------------------------

/// `Value::Null`.
#[verifier::external_body]
pub(crate) fn null() -> (r: Value)
    ensures
        content(r) == Json::Null,
{
    Value::Null
}

/// `Value::from(bool)` gives that boolean.
#[verifier::external_body]
pub(crate) fn of_bool(b: bool) -> (r: Value)
    ensures
        content(r) == Json::Bool(b),
{
    Value::from(b)
}

/// `Value::from(u64)` gives that number, which is written in decimal.
#[verifier::external_body]
pub(crate) fn of_u64(n: u64) -> (r: Value)
    ensures
        content(r) == number(n as nat),
{
    Value::from(n)
}

/// `Value::from(i64)` gives that number, which is written in decimal.
#[verifier::external_body]
pub(crate) fn of_i64(i: i64) -> (r: Value)
    ensures
        content(r) == Json::Number(text::signed_decimal(i as int)),
{
    Value::from(i)
}

/// `Value::from(&str)` gives that string.
#[verifier::external_body]
pub(crate) fn of_str(s: &str) -> (r: Value)
    ensures
        content(r) == Json::Text(s@),
{
    Value::from(s)
}

/// `Value::Array` holds the values in their order.
#[verifier::external_body]
pub(crate) fn of_list(values: Vec<Value>) -> (r: Value)
    ensures
        content(r) == Json::List(contents(values@)),
{
    Value::Array(values)
}

/// `Map::new` is an object without members.
#[verifier::external_body]
pub(crate) fn object() -> (r: Value)
    ensures
        content(r) == Json::Object(Map::empty()),
{
    Value::Object(serde_json::Map::new())
}

/// Assigning to an index of an object gives it that member, in place of one
/// with that key. On another value than an object it may panic, so it is asked
/// of objects alone.
#[verifier::external_body]
pub(crate) fn put(object: &mut Value, key: &str, value: Value)
    requires
        content(*old(object)) is Object,
    ensures
        content(*final(object)) == Json::Object(
            (content(*old(object))->Object_0).insert(key@, content(value)),
        ),
{
    object[key] = value;
}

/// `Value::clone` holds the same.
#[verifier::external_body]
pub(crate) fn copy(value: &Value) -> (r: Value)
    ensures
        content(r) == content(*value),
{
    value.clone()
}

/// A string, or null where there is none.
pub open spec fn text_or_null(s: Option<Seq<char>>) -> Json {
    match s {
        Some(s) => Json::Text(s),
        None => Json::Null,
    }
}

/// A string, or null where there is none.
pub fn of_opt_str(s: Option<&str>) -> (r: Value)
    ensures
        content(r) == text_or_null(text::opt_str(s)),
{
    match s {
        Some(s) => of_str(s),
        None => null(),
    }
}

// ---------------------------------------------------------------------------
// Taking apart
// ---------------------------------------------------------------------------

/// `Value::get` with a string finds a member of an object; of any other value
/// it finds nothing.
#[verifier::external_body]
pub(crate) fn get<'a>(value: &'a Value, key: &str) -> (r: Option<&'a Value>)
    ensures
        match r {
            Some(found) => member(content(*value), key@) == Some(content(*found)),
            None => member(content(*value), key@) is None,
        },
{
    value.get(key)
}

/// `Value::as_str` is what a string says, and nothing of another value.
#[verifier::external_body]
pub(crate) fn as_str(value: &Value) -> (r: Option<&str>)
    ensures
        text::opt_str(r) == said(content(*value)),
{
    value.as_str()
}

/// `Value::as_bool` is what a boolean is, and nothing of another value.
#[verifier::external_body]
pub(crate) fn as_bool(value: &Value) -> (r: Option<bool>)
    ensures
        r == truth(content(*value)),
{
    value.as_bool()
}

// ---------------------------------------------------------------------------
// Text
// ---------------------------------------------------------------------------

/// What `serde_json::from_str` reads in text, or what it says is wrong.
pub uninterp spec fn read(s: Seq<char>) -> Result<Json, Seq<char>>;

/// `serde_json::from_str` reads one JSON value. Which text is such a value is
/// the crate's grammar, named by [`read`] and not stated here.
#[verifier::external_body]
pub(crate) fn parse(s: &str) -> (r: Result<Value, String>)
    ensures
        match r {
            Ok(value) => read(s@) == Ok::<Json, Seq<char>>(content(value)),
            Err(error) => read(s@) == Err::<Json, Seq<char>>(error@),
        },
{
    match serde_json::from_str::<Value>(s) {
        Ok(value) => Ok(value),
        Err(error) => Err(error.to_string()),
    }
}

/// What `Value::to_string` writes for a value.
pub uninterp spec fn written(json: Json) -> Seq<char>;

/// Whether text stands on one line.
pub open spec fn on_one_line(s: Seq<char>) -> bool {
    !s.contains('\n') && !s.contains('\r')
}

/// `Value::to_string` writes a value without line breaks, since it escapes
/// those in strings and puts none between, and it writes the members of an
/// object in the order of their keys, so that the text depends on what the
/// value holds alone. The text itself is named by [`written`] and not stated
/// here.
#[verifier::external_body]
pub(crate) fn render(value: &Value) -> (r: String)
    ensures
        r@ == written(content(*value)),
        on_one_line(r@),
{
    value.to_string()
}

} // verus!
