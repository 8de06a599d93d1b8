//! One entry of a trace, and how it is read from and written to a JSON object.

use vstd::prelude::*;
use crate::json::{entries_view, members, Json, JsonNumber, JsonValue, Num};

verus! {

/// Why a document is not a trace.
#[derive(Debug, Clone, Copy, PartialEq, Eq, Structural)]
pub enum ParseError {
    /// The text is no JSON document, the document is no object, or an event in it is
    /// no object or has a field of the wrong kind.
    Malformed,
    /// The document has no array of events under `traceEvents`.
    MissingTraceEvents,
}

/// A field that a trace gives as a text or as a number.
#[derive(Debug, PartialEq)]
pub enum TextOrNumber {
    Text(String),
    Number(JsonNumber),
}

/// What a `TextOrNumber` holds.
#[verifier::ext_equal]
pub enum TextOrNumberView {
    Text(Seq<char>),
    Number(Num),
}

impl View for TextOrNumber {
    type V = TextOrNumberView;

    open spec fn view(&self) -> TextOrNumberView {
        match self {
            TextOrNumber::Text(t) => TextOrNumberView::Text(t@),
            TextOrNumber::Number(n) => TextOrNumberView::Number(n@),
        }
    }
}

impl TextOrNumberView {
    /// The JSON value that the field is written as: a string or a number.
    pub open spec fn json(self) -> Json {
        match self {
            TextOrNumberView::Text(t) => Json::String(t),
            TextOrNumberView::Number(n) => Json::Number(n),
        }
    }
}

/// One entry of a trace. A timestamp of 0 stands for none.
#[derive(Debug, PartialEq)]
pub struct TraceEvents {
    pub pid: i64,
    pub tid: i64,
    pub ts: u64,
    pub ph: String,
    pub cat: String,
    pub name: String,
    pub args: JsonValue,
    pub dur: i64,
    pub tdur: i64,
    pub tts: i64,
    pub s: TextOrNumber,
    pub id: JsonValue,
    pub scope: TextOrNumber,
}

/// What an event holds.
#[verifier::ext_equal]
pub struct EventView {
    pub pid: i64,
    pub tid: i64,
    pub ts: u64,
    pub ph: Seq<char>,
    pub cat: Seq<char>,
    pub name: Seq<char>,
    pub args: Json,
    pub dur: i64,
    pub tdur: i64,
    pub tts: i64,
    pub s: TextOrNumberView,
    pub id: Json,
    pub scope: TextOrNumberView,
}

impl View for TraceEvents {
    type V = EventView;

    open spec fn view(&self) -> EventView {
        EventView {
            pid: self.pid,
            tid: self.tid,
            ts: self.ts,
            ph: self.ph@,
            cat: self.cat@,
            name: self.name@,
            args: self.args@,
            dur: self.dur,
            tdur: self.tdur,
            tts: self.tts,
            s: self.s@,
            id: self.id@,
            scope: self.scope@,
        }
    }
}

/// The integer field `key` of an object: 0 where the member is missing, `None` where it
/// is no integer between `lo` and `hi`.
pub open spec fn int_field(doc: Json, key: Seq<char>, lo: int, hi: int) -> Option<int> {
    match doc.member(key) {
        None => Some(0),
        Some(v) => match v.integer() {
            Some(i) => if lo <= i <= hi {
                Some(i)
            } else {
                None
            },
            None => None,
        },
    }
}

/// The text field `key` of an object: empty where the member is missing, `None` where
/// it is no string.
pub open spec fn text_field(doc: Json, key: Seq<char>) -> Option<Seq<char>> {
    match doc.member(key) {
        None => Some(Seq::empty()),
        Some(Json::String(s)) => Some(s),
        Some(_) => None,
    }
}

/// The field `key` of an object that may be a text or a number: the empty text where the
/// member is missing, `None` where it is neither a string nor a number.
pub open spec fn scalar_field(doc: Json, key: Seq<char>) -> Option<TextOrNumberView> {
    match doc.member(key) {
        None => Some(TextOrNumberView::Text(Seq::empty())),
        Some(Json::String(s)) => Some(TextOrNumberView::Text(s)),
        Some(Json::Number(n)) => Some(TextOrNumberView::Number(n)),
        Some(_) => None,
    }
}

/// The open-ended field `key` of an object: null where the member is missing.
pub open spec fn blob_field(doc: Json, key: Seq<char>) -> Json {
    match doc.member(key) {
        None => Json::Null,
        Some(v) => v,
    }
}

/// Whether `doc` is an object whose event fields, as far as it has them, are of the
/// right kind: integers in their range, strings, and under `s` and `scope` a string or a
/// number.
pub open spec fn is_event(doc: Json) -> bool {
    &&& doc is Object
    &&& int_field(doc, "pid"@, i64::MIN as int, i64::MAX as int) is Some
    &&& int_field(doc, "tid"@, i64::MIN as int, i64::MAX as int) is Some
    &&& int_field(doc, "ts"@, 0, u64::MAX as int) is Some
    &&& text_field(doc, "ph"@) is Some
    &&& text_field(doc, "cat"@) is Some
    &&& text_field(doc, "name"@) is Some
    &&& int_field(doc, "dur"@, i64::MIN as int, i64::MAX as int) is Some
    &&& int_field(doc, "tdur"@, i64::MIN as int, i64::MAX as int) is Some
    &&& int_field(doc, "tts"@, i64::MIN as int, i64::MAX as int) is Some
    &&& scalar_field(doc, "s"@) is Some
    &&& scalar_field(doc, "scope"@) is Some
}

/// The event that an object stands for: each field from the member of its name, a
/// missing one as 0, the empty text or null. Members of other names are passed over.
pub open spec fn event_fields(doc: Json) -> EventView {
    EventView {
        pid: int_field(doc, "pid"@, i64::MIN as int, i64::MAX as int).unwrap() as i64,
        tid: int_field(doc, "tid"@, i64::MIN as int, i64::MAX as int).unwrap() as i64,
        ts: int_field(doc, "ts"@, 0, u64::MAX as int).unwrap() as u64,
        ph: text_field(doc, "ph"@).unwrap(),
        cat: text_field(doc, "cat"@).unwrap(),
        name: text_field(doc, "name"@).unwrap(),
        args: blob_field(doc, "args"@),
        dur: int_field(doc, "dur"@, i64::MIN as int, i64::MAX as int).unwrap() as i64,
        tdur: int_field(doc, "tdur"@, i64::MIN as int, i64::MAX as int).unwrap() as i64,
        tts: int_field(doc, "tts"@, i64::MIN as int, i64::MAX as int).unwrap() as i64,
        s: scalar_field(doc, "s"@).unwrap(),
        id: blob_field(doc, "id"@),
        scope: scalar_field(doc, "scope"@).unwrap(),
    }
}

/// The event that `doc` stands for, if it stands for one.
pub open spec fn event_of(doc: Json) -> Option<EventView> {
    if is_event(doc) {
        Some(event_fields(doc))
    } else {
        None
    }
}

/// The members of the object that an event is written as: every field under its name.
pub open spec fn event_members(e: EventView) -> Map<Seq<char>, Json> {
    Map::<Seq<char>, Json>::empty().insert("pid"@, Json::Number(Num::Int(e.pid as int))).insert(
        "tid"@,
        Json::Number(Num::Int(e.tid as int)),
    ).insert("ts"@, Json::Number(Num::Int(e.ts as int))).insert("ph"@, Json::String(e.ph)).insert(
        "cat"@,
        Json::String(e.cat),
    ).insert("name"@, Json::String(e.name)).insert("args"@, e.args).insert(
        "dur"@,
        Json::Number(Num::Int(e.dur as int)),
    ).insert("tdur"@, Json::Number(Num::Int(e.tdur as int))).insert(
        "tts"@,
        Json::Number(Num::Int(e.tts as int)),
    ).insert("s"@, e.s.json()).insert("id"@, e.id).insert("scope"@, e.scope.json())
}

/// The object that an event is written as.
pub open spec fn event_json(e: EventView) -> Json {
    Json::Object(event_members(e))
}

/// The length, the first and the last character of a key: enough to tell the names of
/// the fields apart.
pub open spec fn key_mark(key: Seq<char>) -> (nat, char, char) {
    (key.len(), key[0], key.last())
}

/// The marks of the names of the fields, which differ from one another.
pub proof fn lemma_key_marks()
    ensures
        key_mark("pid"@) == (3nat, 'p', 'd'),
        key_mark("tid"@) == (3nat, 't', 'd'),
        key_mark("ts"@) == (2nat, 't', 's'),
        key_mark("ph"@) == (2nat, 'p', 'h'),
        key_mark("cat"@) == (3nat, 'c', 't'),
        key_mark("name"@) == (4nat, 'n', 'e'),
        key_mark("args"@) == (4nat, 'a', 's'),
        key_mark("dur"@) == (3nat, 'd', 'r'),
        key_mark("tdur"@) == (4nat, 't', 'r'),
        key_mark("tts"@) == (3nat, 't', 's'),
        key_mark("s"@) == (1nat, 's', 's'),
        key_mark("id"@) == (2nat, 'i', 'd'),
        key_mark("scope"@) == (5nat, 's', 'e'),
{
    reveal_strlit("pid");
    reveal_strlit("tid");
    reveal_strlit("ts");
    reveal_strlit("ph");
    reveal_strlit("cat");
    reveal_strlit("name");
    reveal_strlit("args");
    reveal_strlit("dur");
    reveal_strlit("tdur");
    reveal_strlit("tts");
    reveal_strlit("s");
    reveal_strlit("id");
    reveal_strlit("scope");
}

/// Reading what was written gives the event back.
pub proof fn lemma_event_round_trip(e: EventView)
    ensures
        event_of(event_json(e)) == Some(e),
{
    lemma_key_marks();
    let doc = event_json(e);
    assert(doc.member("pid"@) == Some(Json::Number(Num::Int(e.pid as int))));
    assert(doc.member("tid"@) == Some(Json::Number(Num::Int(e.tid as int))));
    assert(doc.member("ts"@) == Some(Json::Number(Num::Int(e.ts as int))));
    assert(doc.member("ph"@) == Some(Json::String(e.ph)));
    assert(doc.member("cat"@) == Some(Json::String(e.cat)));
    assert(doc.member("name"@) == Some(Json::String(e.name)));
    assert(doc.member("args"@) == Some(e.args));
    assert(doc.member("dur"@) == Some(Json::Number(Num::Int(e.dur as int))));
    assert(doc.member("tdur"@) == Some(Json::Number(Num::Int(e.tdur as int))));
    assert(doc.member("tts"@) == Some(Json::Number(Num::Int(e.tts as int))));
    assert(doc.member("s"@) == Some(e.s.json()));
    assert(doc.member("id"@) == Some(e.id));
    assert(doc.member("scope"@) == Some(e.scope.json()));
    assert(scalar_field(doc, "s"@) == Some(e.s));
    assert(scalar_field(doc, "scope"@) == Some(e.scope));
    assert(is_event(doc));
    assert(event_fields(doc) =~= e);
}

/// Appends the member `key` with the value `value` to the members of an object.
pub(crate) fn push_member(entries: &mut Vec<(String, JsonValue)>, key: &str, value: JsonValue)
    ensures
        members(entries_view(final(entries)@)) == members(entries_view(old(entries)@)).insert(
            key@,
            value@,
        ),
{
    entries.push((String::from_str(key), value));
    proof {
        let now = entries_view(entries@);
        assert(now.drop_last() =~= entries_view(old(entries)@));
        assert(now.last() == (key@, value@));
    }
}

/// An integer as a JSON value.
fn json_i64(n: i64) -> (r: JsonValue)
    ensures
        r@ == Json::Number(Num::Int(n as int)),
{
    JsonValue::Number(JsonNumber::NegInt(n))
}

/// An integer as a JSON value.
fn json_u64(n: u64) -> (r: JsonValue)
    ensures
        r@ == Json::Number(Num::Int(n as int)),
{
    JsonValue::Number(JsonNumber::PosInt(n))
}

/// A text as a JSON value.
fn json_text(s: &String) -> (r: JsonValue)
    ensures
        r@ == Json::String(s@),
{
    JsonValue::String(s.clone())
}

/// The integer field `key` of `doc` in the range of `i64`.
fn read_i64(doc: &JsonValue, key: &str) -> (r: Option<i64>)
    ensures
        match r {
            Some(i) => int_field(doc@, key@, i64::MIN as int, i64::MAX as int) == Some(i as int),
            None => int_field(doc@, key@, i64::MIN as int, i64::MAX as int) is None,
        },
{
    match doc.get(key) {
        None => Some(0),
        Some(v) => v.as_i64(),
    }
}

/// The integer field `key` of `doc` in the range of `u64`.
fn read_u64(doc: &JsonValue, key: &str) -> (r: Option<u64>)
    ensures
        match r {
            Some(u) => int_field(doc@, key@, 0, u64::MAX as int) == Some(u as int),
            None => int_field(doc@, key@, 0, u64::MAX as int) is None,
        },
{
    match doc.get(key) {
        None => Some(0),
        Some(v) => v.as_u64(),
    }
}

/// The text field `key` of `doc`.
fn read_text(doc: &JsonValue, key: &str) -> (r: Option<String>)
    ensures
        match r {
            Some(s) => text_field(doc@, key@) == Some(s@),
            None => text_field(doc@, key@) is None,
        },
{
    match doc.get(key) {
        None => Some(String::new()),
        Some(v) => match v.as_str() {
            Some(s) => Some(String::from_str(s)),
            None => None,
        },
    }
}

/// The field `key` of `doc` that may be a text or a number.
fn read_scalar(doc: &JsonValue, key: &str) -> (r: Option<TextOrNumber>)
    ensures
        match r {
            Some(v) => scalar_field(doc@, key@) == Some(v@),
            None => scalar_field(doc@, key@) is None,
        },
{
    match doc.get(key) {
        None => Some(TextOrNumber::Text(String::new())),
        Some(JsonValue::String(s)) => Some(TextOrNumber::Text(s.clone())),
        Some(JsonValue::Number(n)) => Some(TextOrNumber::Number(n.clone())),
        Some(_) => None,
    }
}

/// The open-ended field `key` of `doc`.
fn read_blob(doc: &JsonValue, key: &str) -> (r: JsonValue)
    ensures
        r@ == blob_field(doc@, key@),
{
    match doc.get(key) {
        None => JsonValue::Null,
        Some(v) => v.clone(),
    }
}

impl Clone for TextOrNumber {
    fn clone(&self) -> (r: Self)
        ensures
            r@ == self@,
    {
        match self {
            TextOrNumber::Text(t) => TextOrNumber::Text(t.clone()),
            TextOrNumber::Number(n) => TextOrNumber::Number(n.clone()),
        }
    }
}

impl Default for TextOrNumber {
    /// The empty text.
    fn default() -> (r: Self)
        ensures
            r@ == TextOrNumberView::Text(Seq::empty()),
    {
        TextOrNumber::Text(String::new())
    }
}

impl TextOrNumber {
    /// The JSON value that the field is written as.
    pub fn to_json(&self) -> (r: JsonValue)
        ensures
            r@ == self@.json(),
    {
        match self {
            TextOrNumber::Text(t) => JsonValue::String(t.clone()),
            TextOrNumber::Number(n) => JsonValue::Number(n.clone()),
        }
    }
}

impl Clone for TraceEvents {
    fn clone(&self) -> (r: Self)
        ensures
            r@ == self@,
    {
        TraceEvents {
            pid: self.pid,
            tid: self.tid,
            ts: self.ts,
            ph: self.ph.clone(),
            cat: self.cat.clone(),
            name: self.name.clone(),
            args: self.args.clone(),
            dur: self.dur,
            tdur: self.tdur,
            tts: self.tts,
            s: self.s.clone(),
            id: self.id.clone(),
            scope: self.scope.clone(),
        }
    }
}

impl Default for TraceEvents {
    /// The event with every field at 0, empty or null.
    fn default() -> (r: Self)
        ensures
            r@ == (EventView {
                pid: 0,
                tid: 0,
                ts: 0,
                ph: Seq::empty(),
                cat: Seq::empty(),
                name: Seq::empty(),
                args: Json::Null,
                dur: 0,
                tdur: 0,
                tts: 0,
                s: TextOrNumberView::Text(Seq::empty()),
                id: Json::Null,
                scope: TextOrNumberView::Text(Seq::empty()),
            }),
    {
        TraceEvents {
            pid: 0,
            tid: 0,
            ts: 0,
            ph: String::new(),
            cat: String::new(),
            name: String::new(),
            args: JsonValue::Null,
            dur: 0,
            tdur: 0,
            tts: 0,
            s: TextOrNumber::Text(String::new()),
            id: JsonValue::Null,
            scope: TextOrNumber::Text(String::new()),
        }
    }
}

impl TraceEvents {
    /// Reads an event from a JSON object. A field whose member is missing is 0, empty
    /// or null; `s` and `scope` may be a string or a number; a member of another kind than
    /// its field takes, or a value that is no object, is refused.
    pub fn from_json(doc: &JsonValue) -> (r: Result<TraceEvents, ParseError>)
        ensures
            match r {
                Ok(e) => event_of(doc@) == Some(e@),
                Err(err) => event_of(doc@) is None && err == ParseError::Malformed,
            },
    {
        match doc {
            JsonValue::Object(_) => {},
            _ => {
                return Err(ParseError::Malformed);
            },
        }
        let pid = match read_i64(doc, "pid") {
            Some(v) => v,
            None => {
                return Err(ParseError::Malformed);
            },
        };
        let tid = match read_i64(doc, "tid") {
            Some(v) => v,
            None => {
                return Err(ParseError::Malformed);
            },
        };
        let ts = match read_u64(doc, "ts") {
            Some(v) => v,
            None => {
                return Err(ParseError::Malformed);
            },
        };
        let ph = match read_text(doc, "ph") {
            Some(v) => v,
            None => {
                return Err(ParseError::Malformed);
            },
        };
        let cat = match read_text(doc, "cat") {
            Some(v) => v,
            None => {
                return Err(ParseError::Malformed);
            },
        };
        let name = match read_text(doc, "name") {
            Some(v) => v,
            None => {
                return Err(ParseError::Malformed);
            },
        };
        let dur = match read_i64(doc, "dur") {
            Some(v) => v,
            None => {
                return Err(ParseError::Malformed);
            },
        };
        let tdur = match read_i64(doc, "tdur") {
            Some(v) => v,
            None => {
                return Err(ParseError::Malformed);
            },
        };
        let tts = match read_i64(doc, "tts") {
            Some(v) => v,
            None => {
                return Err(ParseError::Malformed);
            },
        };
        let s = match read_scalar(doc, "s") {
            Some(v) => v,
            None => {
                return Err(ParseError::Malformed);
            },
        };
        let scope = match read_scalar(doc, "scope") {
            Some(v) => v,
            None => {
                return Err(ParseError::Malformed);
            },
        };
        let args = read_blob(doc, "args");
        let id = read_blob(doc, "id");
        let event = TraceEvents { pid, tid, ts, ph, cat, name, args, dur, tdur, tts, s, id, scope };
        assert(event@ =~= event_fields(doc@));
        Ok(event)
    }

    /// Writes the event as a JSON object with every field under its name.
    pub fn to_json(&self) -> (r: JsonValue)
        ensures
            r@ == event_json(self@),
    {
        let mut entries: Vec<(String, JsonValue)> = Vec::new();
        assert(members(entries_view(entries@)) =~= Map::<Seq<char>, Json>::empty());
        push_member(&mut entries, "pid", json_i64(self.pid));
        push_member(&mut entries, "tid", json_i64(self.tid));
        push_member(&mut entries, "ts", json_u64(self.ts));
        push_member(&mut entries, "ph", json_text(&self.ph));
        push_member(&mut entries, "cat", json_text(&self.cat));
        push_member(&mut entries, "name", json_text(&self.name));
        push_member(&mut entries, "args", self.args.clone());
        push_member(&mut entries, "dur", json_i64(self.dur));
        push_member(&mut entries, "tdur", json_i64(self.tdur));
        push_member(&mut entries, "tts", json_i64(self.tts));
        push_member(&mut entries, "s", self.s.to_json());
        push_member(&mut entries, "id", self.id.clone());
        push_member(&mut entries, "scope", self.scope.to_json());
        JsonValue::Object(entries)
    }
}

} // verus!
