//! Reading a trace from a JSON document and writing it back: an object with the events
//! under `traceEvents` and the metadata under `metadata`.

use vstd::prelude::*;
use crate::bridge::{parsed_json, printed_json};
use crate::event::{
    blob_field, event_fields, event_json, is_event, lemma_event_round_trip, push_member, EventView,
    ParseError, TraceEvents,
};
use crate::json::{entries_view, items_view, members, parse_json, print_json, Json, JsonValue};
use crate::trace::{Trace, TraceView};

verus! {

/// The events that the items of an array stand for; `None` where one of them is no
/// event.
pub open spec fn events_of(items: Seq<Json>) -> Option<Seq<EventView>> {
    if forall|i: int| 0 <= i < items.len() ==> is_event(#[trigger] items[i]) {
        Some(Seq::new(items.len(), |i: int| event_fields(items[i])))
    } else {
        None
    }
}

/// The trace that a document stands for. The document has to be an object with an array
/// under `traceEvents`, each item of which is an event; what it has under `metadata` is
/// taken as it is, and null where it has nothing there.
pub open spec fn trace_of(doc: Json) -> Result<TraceView, ParseError> {
    if !(doc is Object) {
        Err(ParseError::Malformed)
    } else {
        match doc.member("traceEvents"@) {
            Some(Json::Array(items)) => match events_of(items) {
                Some(events) => Ok(TraceView { events, metadata: blob_field(doc, "metadata"@) }),
                None => Err(ParseError::Malformed),
            },
            _ => Err(ParseError::MissingTraceEvents),
        }
    }
}

/// The events of a trace as the items of an array.
pub open spec fn events_json(events: Seq<EventView>) -> Seq<Json> {
    Seq::new(events.len(), |i: int| event_json(events[i]))
}

/// The document that a trace is written as.
pub open spec fn trace_json(t: TraceView) -> Json {
    Json::Object(
        Map::<Seq<char>, Json>::empty().insert("traceEvents"@, Json::Array(events_json(t.events))).insert(
            "metadata"@,
            t.metadata,
        ),
    )
}

/// The trace that a text stands for: the text is read as JSON, the document as a trace.
pub open spec fn parsed_trace(text: Seq<char>) -> Result<TraceView, ParseError> {
    match parsed_json(text) {
        Some(doc) => trace_of(doc),
        None => Err(ParseError::Malformed),
    }
}

/// The text that a trace is written as.
pub open spec fn serialized_trace(t: TraceView) -> Seq<char> {
    printed_json(trace_json(t))
}

/// The document that a trace is written as stands for that trace: every field of every
/// event and the metadata come back as they were.
pub proof fn lemma_document_round_trip(t: TraceView)
    ensures
        trace_of(trace_json(t)) == Ok::<TraceView, ParseError>(t),
{
    reveal_strlit("traceEvents");
    reveal_strlit("metadata");
    let doc = trace_json(t);
    let items = events_json(t.events);
    assert("traceEvents"@.len() == 11 && "metadata"@.len() == 8);
    assert(doc.member("traceEvents"@) == Some(Json::Array(items)));
    assert(doc.member("metadata"@) == Some(t.metadata));
    assert forall|i: int| 0 <= i < items.len() implies is_event(#[trigger] items[i]) by {
        lemma_event_round_trip(t.events[i]);
    }
    let events = Seq::new(items.len(), |i: int| event_fields(items[i]));
    assert(events =~= t.events) by {
        assert forall|i: int| 0 <= i < items.len() implies events[i] == t.events[i] by {
            lemma_event_round_trip(t.events[i]);
        }
    }
}

/// Writing a trace and reading the text again gives the trace back, wherever reading the
/// text gives back the document that was written.
pub proof fn lemma_text_round_trip(t: TraceView)
    ensures
        parsed_json(printed_json(trace_json(t))) == Some(trace_json(t)) ==> parsed_trace(
            serialized_trace(t),
        ) == Ok::<TraceView, ParseError>(t),
{
    lemma_document_round_trip(t);
}

/// A trace that was read from a text, written and read again is the same trace, wherever
/// reading the written text gives back the document that was written.
pub proof fn lemma_parse_serialize_parse(text: Seq<char>)
    ensures
        parsed_trace(text) matches Ok(t) ==> (parsed_json(printed_json(trace_json(t))) == Some(
            trace_json(t),
        ) ==> parsed_trace(serialized_trace(t)) == parsed_trace(text)),
{
    if let Ok(t) = parsed_trace(text) {
        lemma_text_round_trip(t);
    }
}

impl Trace {
    /// Reads a trace from a JSON document.
    pub fn from_json(doc: &JsonValue) -> (r: Result<Trace, ParseError>)
        ensures
            match r {
                Ok(t) => trace_of(doc@) == Ok::<TraceView, ParseError>(t@),
                Err(e) => trace_of(doc@) == Err::<TraceView, ParseError>(e),
            },
    {
        match doc {
            JsonValue::Object(_) => {},
            _ => {
                return Err(ParseError::Malformed);
            },
        }
        let items = match doc.get("traceEvents") {
            Some(member) => match member.as_array() {
                Some(items) => items,
                None => {
                    return Err(ParseError::MissingTraceEvents);
                },
            },
            None => {
                return Err(ParseError::MissingTraceEvents);
            },
        };
        let ghost docs = items_view(items@);
        let mut events: Vec<TraceEvents> = Vec::new();
        let mut i: usize = 0;
        while i < items.len()
            invariant
                i <= items.len(),
                docs == items_view(items@),
                doc@ is Object,
                doc@.member("traceEvents"@) == Some(Json::Array(docs)),
                events.len() == i,
                forall|k: int| 0 <= k < i ==> is_event(#[trigger] docs[k]),
                forall|k: int| 0 <= k < i ==> (#[trigger] events@[k])@ == event_fields(docs[k]),
            decreases items.len() - i,
        {
            assert(docs[i as int] == items@[i as int]@);
            match TraceEvents::from_json(&items[i]) {
                Ok(event) => {
                    events.push(event);
                },
                Err(_) => {
                    assert(!is_event(docs[i as int]));
                    return Err(ParseError::Malformed);
                },
            }
            i = i + 1;
        }
        let metadata = match doc.get("metadata") {
            Some(m) => m.clone(),
            None => JsonValue::Null,
        };
        let trace = Trace { trace_events: events, metadata };
        assert(trace@.events =~= events_of(docs).unwrap());
        Ok(trace)
    }

    /// Writes the trace as a JSON document.
    pub fn to_json(&self) -> (r: JsonValue)
        ensures
            r@ == trace_json(self@),
    {
        let mut items: Vec<JsonValue> = Vec::new();
        let mut i: usize = 0;
        while i < self.trace_events.len()
            invariant
                i <= self.trace_events.len(),
                items.len() == i,
                forall|k: int|
                    0 <= k < i ==> (#[trigger] items@[k])@ == event_json(self.trace_events@[k]@),
            decreases self.trace_events.len() - i,
        {
            items.push(self.trace_events[i].to_json());
            i = i + 1;
        }
        assert(items_view(items@) =~= events_json(self@.events));
        let mut entries: Vec<(String, JsonValue)> = Vec::new();
        assert(members(entries_view(entries@)) =~= Map::<Seq<char>, Json>::empty());
        push_member(&mut entries, "traceEvents", JsonValue::Array(items));
        push_member(&mut entries, "metadata", self.metadata.clone());
        JsonValue::Object(entries)
    }

    /// Reads a trace from a JSON text. The events keep the order of the text; a field
    /// that an event does not have is 0, empty or null.
    pub fn parse(text: &str) -> (r: Result<Trace, ParseError>)
        ensures
            match r {
                Ok(t) => parsed_trace(text@) == Ok::<TraceView, ParseError>(t@),
                Err(e) => parsed_trace(text@) == Err::<TraceView, ParseError>(e),
            },
    {
        match parse_json(text) {
            Some(doc) => Trace::from_json(&doc),
            None => Err(ParseError::Malformed),
        }
    }

    /// Writes the trace as a JSON text.
    pub fn serialize(&self) -> (r: String)
        ensures
            r@ == serialized_trace(self@),
    {
        let doc = self.to_json();
        print_json(&doc)
    }
}

} // verus!
