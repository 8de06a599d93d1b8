//! The boundary to `serde_json`, which reads and writes JSON text. Nothing in this file
//! is proved: each item states what is taken on trust from that crate, as it is built
//! here (objects are kept in the order of their keys, numbers are `u64`, `i64` or a
//! finite floating-point number).

use serde_json::Value;
use vstd::prelude::*;
use crate::json::{members, number_view, Json, Num};

verus! {

/// `serde_json::Value`, a JSON value as that crate holds it.
#[verifier::external_type_specification]
#[verifier::external_body]
pub struct ExValue(serde_json::Value);

/// `serde_json::Number`, a JSON number as that crate holds it.
#[verifier::external_type_specification]
#[verifier::external_body]
pub struct ExNumber(serde_json::Number);

/// What a `serde_json::Value` holds.
pub uninterp spec fn json_view(v: serde_json::Value) -> Json;

/// The integer that a `serde_json::Number` holds; `None` for a floating-point number.
pub uninterp spec fn integer_of(n: serde_json::Number) -> Option<int>;

/// What `serde_json::from_str` reads from a text: the document, or `None` where it
/// reports an error.
pub uninterp spec fn parsed_json(text: Seq<char>) -> Option<Json>;

/// The text that `serde_json::to_string` writes for a value.
pub uninterp spec fn printed_json(value: Json) -> Seq<char>;

/// The top level of a `serde_json::Value`: its variant, with what the variant holds.
pub enum Shallow<'a> {
    Null,
    Bool(bool),
    Number(&'a serde_json::Number),
    String(&'a String),
    Array(&'a Vec<serde_json::Value>),
    Object(Vec<(&'a String, &'a serde_json::Value)>),
}

/// What a `serde_json::Value` is made from: a variant, with what the variant is to hold.
pub enum Built {
    Null,
    Bool(bool),
    PosInt(u64),
    NegInt(i64),
    Float(serde_json::Number),
    String(String),
    Array(Vec<serde_json::Value>),
    Object(Vec<(String, serde_json::Value)>),
}

/// What the values of a list hold.
pub open spec fn values_view(items: Seq<serde_json::Value>) -> Seq<Json> {
    Seq::new(items.len(), |i: int| json_view(items[i]))
}

/// The members that a list of borrowed keys and values stands for.
pub open spec fn borrowed_view(entries: Seq<(&String, &serde_json::Value)>) -> Seq<(Seq<char>, Json)> {
    Seq::new(entries.len(), |i: int| (entries[i].0@, json_view(*entries[i].1)))
}

/// The members that a list of keys and values stands for.
pub open spec fn owned_view(entries: Seq<(String, serde_json::Value)>) -> Seq<(Seq<char>, Json)> {
    Seq::new(entries.len(), |i: int| (entries[i].0@, json_view(entries[i].1)))
}

/// No two members have the same key.
pub open spec fn keys_differ(entries: Seq<(Seq<char>, Json)>) -> bool {
    forall|i: int, j: int|
        0 <= i < j < entries.len() ==> (#[trigger] entries[i]).0 != (#[trigger] entries[j]).0
}

impl<'a> View for Shallow<'a> {
    type V = Json;

    open spec fn view(&self) -> Json {
        match self {
            Shallow::Null => Json::Null,
            Shallow::Bool(b) => Json::Bool(*b),
            Shallow::Number(n) => Json::Number(number_view(**n)),
            Shallow::String(s) => Json::String(s@),
            Shallow::Array(items) => Json::Array(values_view(items@)),
            Shallow::Object(entries) => Json::Object(members(borrowed_view(entries@))),
        }
    }
}

impl View for Built {
    type V = Json;

    open spec fn view(&self) -> Json {
        match self {
            Built::Null => Json::Null,
            Built::Bool(b) => Json::Bool(*b),
            Built::PosInt(u) => Json::Number(Num::Int(*u as int)),
            Built::NegInt(i) => Json::Number(Num::Int(*i as int)),
            Built::Float(n) => Json::Number(number_view(*n)),
            Built::String(s) => Json::String(s@),
            Built::Array(items) => Json::Array(values_view(items@)),
            Built::Object(entries) => Json::Object(members(owned_view(entries@))),
        }
    }
}

/// `Clone` of `serde_json::Number`, which is derived: the copy equals the number.
pub assume_specification[ <serde_json::Number as Clone>::clone ](n: &serde_json::Number) -> (r:
    serde_json::Number)
    ensures
        r == *n,
;

/// `serde_json::from_str` at the type `Value`. The result depends on the text alone: it
/// is the document that `parsed_json` names, and `None` exactly where the call fails.
#[verifier::external_body]
pub(crate) fn value_from_text(text: &str) -> (r: Option<serde_json::Value>)
    ensures
        match r {
            Some(v) => parsed_json(text@) == Some(json_view(v)),
            None => parsed_json(text@) is None,
        },
{
    serde_json::from_str::<Value>(text).ok()
}

/// `serde_json::to_string` of a `Value`. The text depends on what the value holds alone:
/// the members of an object are written in the order of their keys. The call does not
/// fail on a `Value`, whose keys are strings and whose numbers are finite.
#[verifier::external_body]
pub(crate) fn value_to_text(v: &serde_json::Value) -> (r: String)
    ensures
        r@ == printed_json(json_view(*v)),
{
    serde_json::to_string(v).unwrap_or_default()
}

/// Takes the top level of a `Value` apart, variant for variant. The members of an object
/// are those that `Map::iter` gives: each key of the map once.
#[verifier::external_body]
pub(crate) fn peel(v: &serde_json::Value) -> (r: Shallow<'_>)
    ensures
        r@ == json_view(*v),
        r matches Shallow::Object(entries) ==> keys_differ(borrowed_view(entries@)),
{
    match v {
        Value::Null => Shallow::Null,
        Value::Bool(b) => Shallow::Bool(*b),
        Value::Number(n) => Shallow::Number(n),
        Value::String(s) => Shallow::String(s),
        Value::Array(items) => Shallow::Array(items),
        Value::Object(map) => Shallow::Object(map.iter().collect()),
    }
}

/// Makes a `Value`, variant for variant: an integer through `Value::from`, an object
/// through `Map::insert` of its members in their order, so that a later member replaces
/// an earlier one of the same key.
#[verifier::external_body]
pub(crate) fn wrap(parts: Built) -> (r: serde_json::Value)
    ensures
        json_view(r) == parts@,
{
    match parts {
        Built::Null => Value::Null,
        Built::Bool(b) => Value::Bool(b),
        Built::PosInt(u) => Value::from(u),
        Built::NegInt(i) => Value::from(i),
        Built::Float(n) => Value::Number(n),
        Built::String(s) => Value::String(s),
        Built::Array(items) => Value::Array(items),
        Built::Object(entries) => Value::Object(entries.into_iter().fold(serde_json::Map::new(), |mut map, (k, x)| {
            map.insert(k, x);
            map
        })),
    }
}

/// `Number::as_u64`: the number as a `u64`, if it is an integer in that range. An
/// integer that a `Number` holds lies between `i64::MIN` and `u64::MAX`.
#[verifier::external_body]
pub(crate) fn number_as_u64(n: &serde_json::Number) -> (r: Option<u64>)
    ensures
        match integer_of(*n) {
            Some(i) => i64::MIN <= i <= u64::MAX && r == (if 0 <= i {
                Some(i as u64)
            } else {
                None
            }),
            None => r is None,
        },
{
    n.as_u64()
}

/// `Number::as_i64`: the number as an `i64`, if it is an integer in that range.
#[verifier::external_body]
pub(crate) fn number_as_i64(n: &serde_json::Number) -> (r: Option<i64>)
    ensures
        match integer_of(*n) {
            Some(i) => r == (if i64::MIN <= i <= i64::MAX {
                Some(i as i64)
            } else {
                None
            }),
            None => r is None,
        },
{
    n.as_i64()
}

} // verus!
