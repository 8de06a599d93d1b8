//! JSON values as plain data: the open-ended parts of a trace (the arguments of an
//! event, the metadata of a trace) and the document that a trace is read from.

use vstd::prelude::*;
use crate::bridge::{
    borrowed_view, integer_of, json_view, keys_differ, number_as_i64, number_as_u64, owned_view,
    parsed_json, peel, printed_json, value_from_text, value_to_text, values_view, wrap, Built,
    Shallow,
};

verus! {

/// A JSON number that is not an integer, kept as `serde_json` holds it. Only reading a
/// text makes one.
#[derive(Debug, PartialEq)]
pub struct JsonFloat {
    number: serde_json::Number,
}

impl JsonFloat {
    /// The number that is kept is no integer.
    #[verifier::type_invariant]
    closed spec fn is_no_integer(&self) -> bool {
        integer_of(self.number) is None
    }
}

/// The number `n` as a `JsonFloat`.
pub closed spec fn float_of(n: serde_json::Number) -> JsonFloat {
    JsonFloat { number: n }
}

/// What a `serde_json::Number` stands for: the integer that it holds, or itself.
pub open spec fn number_view(n: serde_json::Number) -> Num {
    match integer_of(n) {
        Some(i) => Num::Int(i),
        None => Num::Float(float_of(n)),
    }
}

/// A JSON number.
#[derive(Debug, PartialEq)]
pub enum JsonNumber {
    /// An integer that is not negative.
    PosInt(u64),
    /// An integer, as a rule a negative one.
    NegInt(i64),
    /// A number with a fraction or an exponent.
    Float(JsonFloat),
}

/// A JSON value. An object is a list of members; where a key comes twice, the later
/// member counts.
#[derive(Debug, PartialEq)]
pub enum JsonValue {
    Null,
    Bool(bool),
    Number(JsonNumber),
    String(String),
    Array(Vec<JsonValue>),
    Object(Vec<(String, JsonValue)>),
}

/// What a JSON number stands for.
pub enum Num {
    Int(int),
    Float(JsonFloat),
}

/// What a JSON value stands for: an object is a map from keys to values.
#[verifier::ext_equal]
pub enum Json {
    Null,
    Bool(bool),
    Number(Num),
    String(Seq<char>),
    Array(Seq<Json>),
    Object(Map<Seq<char>, Json>),
}

/// The map that a list of members stands for: a later member replaces an earlier one
/// of the same key.
pub open spec fn members(entries: Seq<(Seq<char>, Json)>) -> Map<Seq<char>, Json>
    decreases entries.len(),
{
    if entries.len() == 0 {
        Map::empty()
    } else {
        members(entries.drop_last()).insert(entries.last().0, entries.last().1)
    }
}

impl View for JsonNumber {
    type V = Num;

    open spec fn view(&self) -> Num {
        match self {
            JsonNumber::PosInt(u) => Num::Int(*u as int),
            JsonNumber::NegInt(i) => Num::Int(*i as int),
            JsonNumber::Float(f) => Num::Float(*f),
        }
    }
}

/// What a value stands for.
pub open spec fn json_of(v: JsonValue) -> Json
    decreases v,
{
    match v {
        JsonValue::Null => Json::Null,
        JsonValue::Bool(b) => Json::Bool(b),
        JsonValue::Number(n) => Json::Number(n@),
        JsonValue::String(s) => Json::String(s@),
        JsonValue::Array(items) => Json::Array(items_view(items@)),
        JsonValue::Object(entries) => Json::Object(members(entries_view(entries@))),
    }
}

/// The items of an array, each by what it stands for.
pub open spec fn items_view(items: Seq<JsonValue>) -> Seq<Json>
    decreases items,
{
    Seq::new(
        items.len(),
        |i: int|
            if 0 <= i < items.len() {
                json_of(items[i])
            } else {
                Json::Null
            },
    )
}

/// The members of an object, each key by its text and each value by what it stands for.
pub open spec fn entries_view(entries: Seq<(String, JsonValue)>) -> Seq<(Seq<char>, Json)>
    decreases entries,
{
    Seq::new(
        entries.len(),
        |i: int|
            if 0 <= i < entries.len() {
                (entries[i].0@, json_of(entries[i].1))
            } else {
                (Seq::empty(), Json::Null)
            },
    )
}

impl View for JsonValue {
    type V = Json;

    open spec fn view(&self) -> Json {
        json_of(*self)
    }
}

impl Json {
    /// The value of the member `key` of an object; `None` where there is no such
    /// member or the value is no object.
    pub open spec fn member(self, key: Seq<char>) -> Option<Json> {
        match self {
            Json::Object(m) => if m.contains_key(key) {
                Some(m[key])
            } else {
                None
            },
            _ => None,
        }
    }

    /// The text of a string; the empty text for any other value.
    pub open spec fn text(self) -> Seq<char> {
        match self {
            Json::String(s) => s,
            _ => Seq::empty(),
        }
    }

    /// The text of the member `key`, empty where the member is missing or no string.
    pub open spec fn text_at(self, key: Seq<char>) -> Seq<char> {
        match self.member(key) {
            Some(m) => m.text(),
            None => Seq::empty(),
        }
    }

    /// The integer that the value is, if it is one.
    pub open spec fn integer(self) -> Option<int> {
        match self {
            Json::Number(Num::Int(i)) => Some(i),
            _ => None,
        }
    }
}

/// The value of the last member of `entries` with the key `key`.
pub open spec fn lookup(entries: Seq<(Seq<char>, Json)>, key: Seq<char>) -> Option<Json>
    decreases entries.len(),
{
    if entries.len() == 0 {
        None
    } else if entries.last().0 == key {
        Some(entries.last().1)
    } else {
        lookup(entries.drop_last(), key)
    }
}

/// The map of a list of members holds for each key the value of the last member that
/// has it.
pub proof fn lemma_members_lookup(entries: Seq<(Seq<char>, Json)>, key: Seq<char>)
    ensures
        Json::Object(members(entries)).member(key) == lookup(entries, key),
    decreases entries.len(),
{
    if entries.len() > 0 {
        lemma_members_lookup(entries.drop_last(), key);
    }
}

impl Clone for JsonFloat {
    fn clone(&self) -> (r: Self)
        ensures
            r == *self,
    {
        proof {
            use_type_invariant(self);
        }
        JsonFloat { number: self.number.clone() }
    }
}

impl Clone for JsonNumber {
    fn clone(&self) -> (r: Self)
        ensures
            r@ == self@,
    {
        match self {
            JsonNumber::PosInt(u) => JsonNumber::PosInt(*u),
            JsonNumber::NegInt(i) => JsonNumber::NegInt(*i),
            JsonNumber::Float(f) => JsonNumber::Float(f.clone()),
        }
    }
}

impl Clone for JsonValue {
    fn clone(&self) -> (r: Self)
        ensures
            r@ == self@,
        decreases self,
    {
        match self {
            JsonValue::Null => JsonValue::Null,
            JsonValue::Bool(b) => JsonValue::Bool(*b),
            JsonValue::Number(n) => JsonValue::Number(n.clone()),
            JsonValue::String(s) => JsonValue::String(s.clone()),
            JsonValue::Array(items) => {
                let mut out: Vec<JsonValue> = Vec::new();
                let mut i: usize = 0;
                while i < items.len()
                    invariant
                        i <= items.len(),
                        out.len() == i,
                        *self == JsonValue::Array(*items),
                        forall|k: int| 0 <= k < i ==> (#[trigger] out@[k])@ == items@[k]@,
                    decreases items.len() - i,
                {
                    proof {
                        vstd::std_specs::vec::axiom_vec_index_decreases(*items, i as int);
                        assert(self->Array_0 == *items);
                        assert(decreases_to!(*self => self->Array_0));
                    }
                    let item = items[i].clone();
                    out.push(item);
                    i = i + 1;
                }
                assert(items_view(out@) =~= items_view(items@));
                JsonValue::Array(out)
            },
            JsonValue::Object(entries) => {
                let mut out: Vec<(String, JsonValue)> = Vec::new();
                let mut i: usize = 0;
                while i < entries.len()
                    invariant
                        i <= entries.len(),
                        out.len() == i,
                        *self == JsonValue::Object(*entries),
                        forall|k: int|
                            0 <= k < i ==> (#[trigger] out@[k]).0@ == entries@[k].0@ && out@[k].1@
                                == entries@[k].1@,
                    decreases entries.len() - i,
                {
                    proof {
                        vstd::std_specs::vec::axiom_vec_index_decreases(*entries, i as int);
                        assert(self->Object_0 == *entries);
                        assert(decreases_to!(*self => self->Object_0));
                    }
                    let key = entries[i].0.clone();
                    let value = entries[i].1.clone();
                    out.push((key, value));
                    i = i + 1;
                }
                assert(entries_view(out@) =~= entries_view(entries@));
                JsonValue::Object(out)
            },
        }
    }
}

impl JsonValue {
    /// The value of the member `key`, if this is an object that has one.
    pub fn get(&self, key: &str) -> (r: Option<&JsonValue>)
        ensures
            match r {
                Some(m) => self@.member(key@) == Some(m@),
                None => self@.member(key@) is None,
            },
    {
        match self {
            JsonValue::Object(entries) => {
                let wanted = String::from_str(key);
                let mut i: usize = entries.len();
                let ghost all = entries_view(entries@);
                proof {
                    lemma_members_lookup(all, key@);
                    assert(all.take(i as int) =~= all);
                }
                while i > 0
                    invariant
                        i <= entries.len(),
                        wanted@ == key@,
                        all == entries_view(entries@),
                        self@.member(key@) == lookup(all, key@),
                        lookup(all, key@) == lookup(all.take(i as int), key@),
                    decreases i,
                {
                    i = i - 1;
                    proof {
                        let upto = all.take(i + 1);
                        assert(upto.last() == all[i as int]);
                        assert(upto.drop_last() =~= all.take(i as int));
                    }
                    if entries[i].0 == wanted {
                        return Some(&entries[i].1);
                    }
                }
                None
            },
            _ => None,
        }
    }

    /// The text, if this is a string.
    pub fn as_str(&self) -> (r: Option<&str>)
        ensures
            match r {
                Some(s) => self@ == Json::String(s@),
                None => !(self@ is String),
            },
    {
        match self {
            JsonValue::String(s) => Some(s.as_str()),
            _ => None,
        }
    }

    /// The items, if this is an array.
    pub fn as_array(&self) -> (r: Option<&Vec<JsonValue>>)
        ensures
            match r {
                Some(items) => self@ == Json::Array(items_view(items@)),
                None => !(self@ is Array),
            },
    {
        match self {
            JsonValue::Array(items) => Some(items),
            _ => None,
        }
    }

    /// The number as an `i64`, if this is an integer in that range.
    pub fn as_i64(&self) -> (r: Option<i64>)
        ensures
            match r {
                Some(i) => self@.integer() == Some(i as int),
                None => match self@.integer() {
                    Some(i) => !(i64::MIN <= i <= i64::MAX),
                    None => true,
                },
            },
    {
        match self {
            JsonValue::Number(JsonNumber::PosInt(u)) => {
                if *u <= i64::MAX as u64 {
                    Some(*u as i64)
                } else {
                    None
                }
            },
            JsonValue::Number(JsonNumber::NegInt(i)) => Some(*i),
            _ => None,
        }
    }

    /// The number as a `u64`, if this is an integer in that range.
    pub fn as_u64(&self) -> (r: Option<u64>)
        ensures
            match r {
                Some(u) => self@.integer() == Some(u as int),
                None => match self@.integer() {
                    Some(i) => !(0 <= i <= u64::MAX),
                    None => true,
                },
            },
    {
        match self {
            JsonValue::Number(JsonNumber::PosInt(u)) => Some(*u),
            JsonValue::Number(JsonNumber::NegInt(i)) => {
                if *i >= 0 {
                    Some(*i as u64)
                } else {
                    None
                }
            },
            _ => None,
        }
    }

    /// The text of the member `key`: empty where the member is missing or no string.
    pub fn text_at(&self, key: &str) -> (r: String)
        ensures
            r@ == self@.text_at(key@),
    {
        match self.get(key) {
            Some(m) => value_to_string(m),
            None => String::new(),
        }
    }
}

/// The text of a string value; the empty text for any other value.
pub fn value_to_string(value: &JsonValue) -> (r: String)
    ensures
        r@ == value@.text(),
{
    match value.as_str() {
        Some(s) => String::from_str(s),
        None => String::new(),
    }
}

/// The members of a list without two equal keys are all in its map, and the map is
/// finite.
pub proof fn lemma_members_distinct(entries: Seq<(Seq<char>, Json)>)
    ensures
        members(entries).dom().finite(),
        keys_differ(entries) ==> forall|i: int|
            0 <= i < entries.len() ==> members(entries).contains_key((#[trigger] entries[i]).0)
                && members(entries)[entries[i].0] == entries[i].1,
    decreases entries.len(),
{
    if entries.len() > 0 {
        let front = entries.drop_last();
        lemma_members_distinct(front);
        if keys_differ(entries) {
            assert forall|i: int, j: int| 0 <= i < j < front.len() implies (#[trigger] front[i]).0 != (
            #[trigger] front[j]).0 by {
                assert(front[i] == entries[i] && front[j] == entries[j]);
            }
            assert forall|i: int| 0 <= i < entries.len() implies members(entries).contains_key(
                (#[trigger] entries[i]).0,
            ) && members(entries)[entries[i].0] == entries[i].1 by {
                if i < entries.len() - 1 {
                    assert(front[i] == entries[i]);
                    assert(entries[i].0 != entries[entries.len() - 1].0);
                }
            }
        }
    }
}

/// The number that a `serde_json::Number` holds.
fn lift_number(n: &serde_json::Number) -> (r: JsonNumber)
    ensures
        r@ == number_view(*n),
{
    match number_as_u64(n) {
        Some(u) => JsonNumber::PosInt(u),
        None => match number_as_i64(n) {
            Some(i) => JsonNumber::NegInt(i),
            None => JsonNumber::Float(JsonFloat { number: n.clone() }),
        },
    }
}

/// The value that a `serde_json::Value` holds.
fn lift(v: &serde_json::Value) -> (r: JsonValue)
    ensures
        r@ == json_view(*v),
    decreases json_view(*v),
{
    match peel(v) {
        Shallow::Null => JsonValue::Null,
        Shallow::Bool(b) => JsonValue::Bool(b),
        Shallow::Number(n) => JsonValue::Number(lift_number(n)),
        Shallow::String(s) => JsonValue::String(s.clone()),
        Shallow::Array(items) => {
            let ghost whole = json_view(*v);
            let mut out: Vec<JsonValue> = Vec::new();
            let mut i: usize = 0;
            while i < items.len()
                invariant
                    i <= items.len(),
                    out.len() == i,
                    whole == json_view(*v),
                    whole == Json::Array(values_view(items@)),
                    forall|k: int| 0 <= k < i ==> (#[trigger] out@[k])@ == json_view(items@[k]),
                decreases items.len() - i,
            {
                proof {
                    let inner = values_view(items@);
                    assert(whole->Array_0 == inner);
                    assert(decreases_to!(whole => whole->Array_0));
                    assert(inner[i as int] == json_view(items@[i as int]));
                    assert(decreases_to!(inner => inner[i as int]));
                }
                let item = lift(&items[i]);
                out.push(item);
                i = i + 1;
            }
            assert(items_view(out@) =~= values_view(items@));
            JsonValue::Array(out)
        },
        Shallow::Object(entries) => {
            let ghost whole = json_view(*v);
            let ghost pairs = borrowed_view(entries@);
            let mut out: Vec<(String, JsonValue)> = Vec::new();
            let mut i: usize = 0;
            proof {
                lemma_members_distinct(pairs);
            }
            while i < entries.len()
                invariant
                    i <= entries.len(),
                    out.len() == i,
                    whole == json_view(*v),
                    pairs == borrowed_view(entries@),
                    whole == Json::Object(members(pairs)),
                    members(pairs).dom().finite(),
                    forall|k: int|
                        0 <= k < pairs.len() ==> members(pairs).contains_key((#[trigger] pairs[k]).0)
                            && members(pairs)[pairs[k].0] == pairs[k].1,
                    forall|k: int| 0 <= k < i ==> (#[trigger] out@[k]).0@ == pairs[k].0 && out@[k].1@
                        == pairs[k].1,
                decreases entries.len() - i,
            {
                proof {
                    let map = members(pairs);
                    let key = pairs[i as int].0;
                    assert(whole->Object_0 == map);
                    assert(decreases_to!(whole => whole->Object_0));
                    assert(map[key] == json_view(*entries@[i as int].1));
                    assert(decreases_to!(map => map[key]));
                }
                let key = entries[i].0.clone();
                let value = lift(entries[i].1);
                out.push((key, value));
                i = i + 1;
            }
            assert(entries_view(out@) =~= pairs);
            JsonValue::Object(out)
        },
    }
}

/// The parts of the `serde_json::Value` that holds a number.
fn lower_number(n: &JsonNumber) -> (r: Built)
    ensures
        r@ == Json::Number(n@),
{
    match n {
        JsonNumber::PosInt(u) => Built::PosInt(*u),
        JsonNumber::NegInt(i) => Built::NegInt(*i),
        JsonNumber::Float(f) => {
            proof {
                use_type_invariant(f);
            }
            Built::Float(f.number.clone())
        },
    }
}

/// A `serde_json::Value` that holds the value `v`.
fn lower(v: &JsonValue) -> (r: serde_json::Value)
    ensures
        json_view(r) == v@,
    decreases v,
{
    match v {
        JsonValue::Null => wrap(Built::Null),
        JsonValue::Bool(b) => wrap(Built::Bool(*b)),
        JsonValue::Number(n) => wrap(lower_number(n)),
        JsonValue::String(s) => wrap(Built::String(s.clone())),
        JsonValue::Array(items) => {
            let mut out: Vec<serde_json::Value> = Vec::new();
            let mut i: usize = 0;
            while i < items.len()
                invariant
                    i <= items.len(),
                    out.len() == i,
                    *v == JsonValue::Array(*items),
                    forall|k: int| 0 <= k < i ==> json_view(#[trigger] out@[k]) == items@[k]@,
                decreases items.len() - i,
            {
                proof {
                    vstd::std_specs::vec::axiom_vec_index_decreases(*items, i as int);
                    assert(v->Array_0 == *items);
                    assert(decreases_to!(*v => v->Array_0));
                }
                let item = lower(&items[i]);
                out.push(item);
                i = i + 1;
            }
            assert(values_view(out@) =~= items_view(items@));
            wrap(Built::Array(out))
        },
        JsonValue::Object(entries) => {
            let mut out: Vec<(String, serde_json::Value)> = Vec::new();
            let mut i: usize = 0;
            while i < entries.len()
                invariant
                    i <= entries.len(),
                    out.len() == i,
                    *v == JsonValue::Object(*entries),
                    forall|k: int|
                        0 <= k < i ==> (#[trigger] out@[k]).0@ == entries@[k].0@ && json_view(
                            out@[k].1,
                        ) == entries@[k].1@,
                decreases entries.len() - i,
            {
                proof {
                    vstd::std_specs::vec::axiom_vec_index_decreases(*entries, i as int);
                    assert(v->Object_0 == *entries);
                    assert(decreases_to!(*v => v->Object_0));
                }
                let key = entries[i].0.clone();
                let value = lower(&entries[i].1);
                out.push((key, value));
                i = i + 1;
            }
            assert(owned_view(out@) =~= entries_view(entries@));
            wrap(Built::Object(out))
        },
    }
}

/// Reads a JSON text. `None` where the text is no JSON document.
pub fn parse_json(text: &str) -> (r: Option<JsonValue>)
    ensures
        match r {
            Some(v) => parsed_json(text@) == Some(v@),
            None => parsed_json(text@) is None,
        },
{
    match value_from_text(text) {
        Some(v) => Some(lift(&v)),
        None => None,
    }
}

/// Writes a value as a JSON text.
pub fn print_json(value: &JsonValue) -> (r: String)
    ensures
        r@ == printed_json(value@),
{
    let outside = lower(value);
    value_to_text(&outside)
}

} // verus!
