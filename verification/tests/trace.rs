use trace_tool::selection::filter;
use trace_tool::{
    HistogramError, JsonNumber, JsonValue, ParseError, TextOrNumber, Timing, Trace, TraceEvents,
};

fn text(s: &str) -> JsonValue {
    JsonValue::String(s.to_string())
}

fn object(members: Vec<(&str, JsonValue)>) -> JsonValue {
    JsonValue::Object(members.into_iter().map(|(k, v)| (k.to_string(), v)).collect())
}

fn event(pid: i64, ts: u64, name: &str) -> TraceEvents {
    TraceEvents { pid, ts, name: name.to_string(), cat: "toplevel".to_string(), ..TraceEvents::default() }
}

fn metadata_event(pid: i64, name: &str, args: JsonValue) -> TraceEvents {
    TraceEvents { pid, name: name.to_string(), cat: "__metadata".to_string(), args, ..TraceEvents::default() }
}

fn process_name(pid: i64, name: &str) -> TraceEvents {
    metadata_event(pid, "process_name", object(vec![("name", text(name))]))
}

fn trace(events: Vec<TraceEvents>) -> Trace {
    Trace { trace_events: events, metadata: JsonValue::Null }
}

fn ids(list: &[&str]) -> Vec<String> {
    list.iter().map(|s| s.to_string()).collect()
}

const SAMPLE: &str = r#"{
  "traceEvents": [
    {"pid": 10, "tid": 1, "ts": 0, "ph": "M", "cat": "__metadata", "name": "process_name", "args": {"name": "Renderer"}},
    {"pid": 20, "tid": 2, "ts": 0, "ph": "M", "cat": "__metadata", "name": "process_name", "args": {"name": "Browser"}},
    {"pid": 10, "tid": 3, "ts": 0, "ph": "M", "cat": "__metadata", "name": "thread_name", "args": {"name": "CrRendererMain"}},
    {"pid": 10, "tid": 1, "ts": 0, "ph": "M", "cat": "__metadata", "name": "process_labels", "args": {"labels": "Example Domain"}},
    {"pid": 20, "tid": 2, "ts": 1000, "ph": "X", "cat": "toplevel", "name": "MessageLoop::RunTask", "dur": 15, "tdur": 12, "tts": 900, "args": {"src_file": "a.cc", "depth": 2}},
    {"pid": 10, "tid": 3, "ts": 1500, "ph": "b", "cat": "blink", "name": "Frame", "id": "0x1f", "scope": "frame", "s": "t"},
    {"pid": 10, "tid": 4, "ts": 3000, "ph": "e", "cat": "blink", "name": "Frame", "id": 31},
    {"pid": 10, "tid": 4, "ts": 0, "ph": "M", "cat": "__metadata", "name": "thread_name", "args": {"name": "Compositor"}},
    {"pid": 10, "tid": 1, "ts": 0, "ph": "M", "cat": "__metadata", "name": "process_labels", "args": {"labels": "Second Label"}},
    {"pid": 30, "tid": 9, "ts": 2000, "ph": "X", "cat": "gpu", "name": "Swap"}
  ],
  "metadata": {"product-version": "Chrome/80.0", "trace-capture-datetime": "2020-01-02 03:04:05", "cpu-cores": 8, "ratio": 0.5}
}"#;

#[test]
fn parse_reads_events_in_the_order_of_the_text() {
    let t = Trace::parse(SAMPLE).unwrap();
    assert_eq!(t.trace_events.len(), 10);
    let pids: Vec<i64> = t.trace_events.iter().map(|e| e.pid).collect();
    assert_eq!(pids, vec![10, 20, 10, 10, 20, 10, 10, 10, 10, 30]);
    let e = &t.trace_events[4];
    assert_eq!(e.pid, 20);
    assert_eq!(e.tid, 2);
    assert_eq!(e.ts, 1000);
    assert_eq!(e.ph, "X");
    assert_eq!(e.cat, "toplevel");
    assert_eq!(e.name, "MessageLoop::RunTask");
    assert_eq!(e.dur, 15);
    assert_eq!(e.tdur, 12);
    assert_eq!(e.tts, 900);
    assert_eq!(
        e.args,
        object(vec![("depth", JsonValue::Number(JsonNumber::PosInt(2))), ("src_file", text("a.cc"))])
    );
}

#[test]
fn parse_gives_missing_fields_their_defaults() {
    let t = Trace::parse(r#"{"traceEvents": [{}, {"pid": 5}], "metadata": {}}"#).unwrap();
    assert_eq!(t.trace_events[0], TraceEvents::default());
    assert_eq!(t.trace_events[1], TraceEvents { pid: 5, ..TraceEvents::default() });
    let d = TraceEvents::default();
    assert_eq!((d.pid, d.tid, d.ts, d.dur, d.tdur, d.tts), (0, 0, 0, 0, 0, 0));
    assert_eq!((d.ph.as_str(), d.cat.as_str(), d.name.as_str()), ("", "", ""));
    assert_eq!(d.s, TextOrNumber::Text(String::new()));
    assert_eq!(d.scope, TextOrNumber::Text(String::new()));
    assert_eq!(d.args, JsonValue::Null);
    assert_eq!(d.id, JsonValue::Null);
}

#[test]
fn parse_takes_an_id_as_text_or_as_number() {
    let t = Trace::parse(SAMPLE).unwrap();
    assert_eq!(t.trace_events[5].id, text("0x1f"));
    assert_eq!(t.trace_events[5].scope, TextOrNumber::Text("frame".to_string()));
    assert_eq!(t.trace_events[5].s, TextOrNumber::Text("t".to_string()));
    assert_eq!(t.trace_events[6].id, JsonValue::Number(JsonNumber::PosInt(31)));
    assert_eq!(t.trace_events[9].id, JsonValue::Null);
}

#[test]
fn parse_takes_s_and_scope_as_text_or_as_number() {
    let t = Trace::parse(r#"{"traceEvents":[{"pid":1,"s":1,"scope":2}],"metadata":{}}"#).unwrap();
    assert_eq!(t.trace_events.len(), 1);
    assert_eq!(t.trace_events[0].pid, 1);
    assert_eq!(t.trace_events[0].s, TextOrNumber::Number(JsonNumber::PosInt(1)));
    assert_eq!(t.trace_events[0].scope, TextOrNumber::Number(JsonNumber::PosInt(2)));
    let again = Trace::parse(&t.serialize()).unwrap();
    assert_eq!(again, t);
    assert!(t.serialize().contains(r#""s":1,"scope":2"#));

    let mixed = Trace::parse(r#"{"traceEvents":[{"s":"g","scope":-7},{"s":2.5,"scope":""}]}"#).unwrap();
    assert_eq!(mixed.trace_events[0].s, TextOrNumber::Text("g".to_string()));
    assert_eq!(mixed.trace_events[0].scope, TextOrNumber::Number(JsonNumber::NegInt(-7)));
    assert!(matches!(mixed.trace_events[1].s, TextOrNumber::Number(JsonNumber::Float(_))));
    assert_eq!(mixed.trace_events[1].scope, TextOrNumber::Text(String::new()));
    assert_eq!(Trace::parse(&mixed.serialize()).unwrap(), mixed);
}

#[test]
fn parse_refuses_s_and_scope_of_other_kinds() {
    let cases = [
        r#"{"traceEvents": [{"s": true}]}"#,
        r#"{"traceEvents": [{"s": null}]}"#,
        r#"{"traceEvents": [{"s": ["t"]}]}"#,
        r#"{"traceEvents": [{"scope": {}}]}"#,
        r#"{"traceEvents": [{"scope": [1]}]}"#,
        r#"{"traceEvents": [{"scope": null}]}"#,
    ];
    for case in cases {
        assert_eq!(Trace::parse(case).unwrap_err(), ParseError::Malformed, "{}", case);
    }
}

#[test]
fn parse_passes_over_members_it_does_not_know() {
    let t = Trace::parse(r#"{"other": 1, "traceEvents": [{"pid": 1, "bind_id": "0x5", "flow_in": true}]}"#).unwrap();
    assert_eq!(t.trace_events, vec![TraceEvents { pid: 1, ..TraceEvents::default() }]);
    assert_eq!(t.metadata, JsonValue::Null);
}

#[test]
fn parse_refuses_what_is_no_json() {
    assert_eq!(Trace::parse("").unwrap_err(), ParseError::Malformed);
    assert_eq!(Trace::parse("{\"traceEvents\": [").unwrap_err(), ParseError::Malformed);
    assert_eq!(Trace::parse("traceEvents").unwrap_err(), ParseError::Malformed);
}

#[test]
fn parse_refuses_a_document_that_is_no_object() {
    assert_eq!(Trace::parse("[]").unwrap_err(), ParseError::Malformed);
    assert_eq!(Trace::parse("null").unwrap_err(), ParseError::Malformed);
    assert_eq!(Trace::parse("\"traceEvents\"").unwrap_err(), ParseError::Malformed);
}

#[test]
fn parse_refuses_a_document_without_events() {
    assert_eq!(Trace::parse("{}").unwrap_err(), ParseError::MissingTraceEvents);
    assert_eq!(Trace::parse(r#"{"metadata": {}}"#).unwrap_err(), ParseError::MissingTraceEvents);
    assert_eq!(Trace::parse(r#"{"traceEvents": {}}"#).unwrap_err(), ParseError::MissingTraceEvents);
    assert_eq!(Trace::parse(r#"{"traceEvents": null}"#).unwrap_err(), ParseError::MissingTraceEvents);
    assert_eq!(Trace::parse(r#"{"trace_events": []}"#).unwrap_err(), ParseError::MissingTraceEvents);
}

#[test]
fn parse_refuses_fields_of_the_wrong_kind() {
    let cases = [
        r#"{"traceEvents": [1]}"#,
        r#"{"traceEvents": [[]]}"#,
        r#"{"traceEvents": [{"pid": "1"}]}"#,
        r#"{"traceEvents": [{"pid": 1.5}]}"#,
        r#"{"traceEvents": [{"pid": null}]}"#,
        r#"{"traceEvents": [{"pid": 9223372036854775808}]}"#,
        r#"{"traceEvents": [{"ts": -1}]}"#,
        r#"{"traceEvents": [{"name": 5}]}"#,
        r#"{"traceEvents": [{"cat": ["a"]}]}"#,
        r#"{"traceEvents": [{}, {"scope": false}]}"#,
    ];
    for case in cases {
        assert_eq!(Trace::parse(case).unwrap_err(), ParseError::Malformed, "{}", case);
    }
}

#[test]
fn parse_takes_integers_at_the_ends_of_their_range() {
    let t = Trace::parse(
        r#"{"traceEvents": [{"pid": -9223372036854775808, "tid": 9223372036854775807, "ts": 18446744073709551615}]}"#,
    )
    .unwrap();
    assert_eq!(t.trace_events[0].pid, i64::MIN);
    assert_eq!(t.trace_events[0].tid, i64::MAX);
    assert_eq!(t.trace_events[0].ts, u64::MAX);
}

#[test]
fn serialize_writes_every_field() {
    let t = Trace { trace_events: vec![TraceEvents::default()], metadata: JsonValue::Null };
    assert_eq!(
        t.serialize(),
        r#"{"metadata":null,"traceEvents":[{"args":null,"cat":"","dur":0,"id":null,"name":"","ph":"","pid":0,"s":"","scope":"","tdur":0,"tid":0,"ts":0,"tts":0}]}"#
    );
}

#[test]
fn serialize_writes_the_values_of_the_fields() {
    let e = TraceEvents {
        pid: -4,
        tid: 5,
        ts: 6,
        ph: "X".to_string(),
        cat: "c".to_string(),
        name: "n".to_string(),
        args: object(vec![("k", text("v"))]),
        dur: 7,
        tdur: 8,
        tts: 9,
        s: TextOrNumber::Text("g".to_string()),
        id: text("0x1"),
        scope: TextOrNumber::Number(JsonNumber::PosInt(12)),
    };
    let t = Trace { trace_events: vec![e], metadata: object(vec![("version", JsonValue::Number(JsonNumber::PosInt(3)))]) };
    assert_eq!(
        t.serialize(),
        r#"{"metadata":{"version":3},"traceEvents":[{"args":{"k":"v"},"cat":"c","dur":7,"id":"0x1","name":"n","ph":"X","pid":-4,"s":"g","scope":12,"tdur":8,"tid":5,"ts":6,"tts":9}]}"#
    );
}

#[test]
fn parse_of_serialize_of_parse_is_parse() {
    let first = Trace::parse(SAMPLE).unwrap();
    let written = first.serialize();
    let second = Trace::parse(&written).unwrap();
    assert_eq!(second, first);
    assert_eq!(second.metadata, first.metadata);
    assert_eq!(second.trace_events, first.trace_events);
    assert_eq!(second.serialize(), written);
}

#[test]
fn metadata_is_passed_through() {
    let source = r#"{"metadata":{"a":[1,2.5,{"b":null}],"highres-ticks":true,"z":"ü"},"traceEvents":[]}"#;
    let t = Trace::parse(source).unwrap();
    assert_eq!(t.trace_events.len(), 0);
    let again = Trace::parse(&t.serialize()).unwrap();
    assert_eq!(again.metadata, t.metadata);
    assert!(t.serialize().starts_with(r#"{"metadata":{"a":[1,2.5,{"b":null}],"highres-ticks":true,"z":"ü"},"#));
}

#[test]
fn document_round_trip() {
    let first = Trace::parse(SAMPLE).unwrap();
    let doc = first.to_json();
    assert_eq!(Trace::from_json(&doc).unwrap(), first);
    assert_eq!(Trace::from_json(&JsonValue::Null).unwrap_err(), ParseError::Malformed);
    assert_eq!(Trace::from_json(&object(vec![])).unwrap_err(), ParseError::MissingTraceEvents);
    let e = TraceEvents { pid: i64::MIN, ts: u64::MAX, dur: -1, ..TraceEvents::default() };
    assert_eq!(TraceEvents::from_json(&e.to_json()).unwrap(), e);
    assert_eq!(TraceEvents::from_json(&text("event")).unwrap_err(), ParseError::Malformed);
}

#[test]
fn info_names_capture_time_and_version() {
    let t = Trace::parse(SAMPLE).unwrap();
    assert_eq!(t.info(), "captured=2020-01-02 03:04:05, version=Chrome/80.0");
    assert_eq!(trace(vec![]).info(), "captured=, version=");
    let odd = Trace {
        trace_events: vec![],
        metadata: object(vec![("product-version", JsonValue::Number(JsonNumber::PosInt(80)))]),
    };
    assert_eq!(odd.info(), "captured=, version=");
}

#[test]
fn metadata_events_are_those_of_the_category() {
    let t = Trace::parse(SAMPLE).unwrap();
    let meta = t.metadata_events();
    assert_eq!(meta.len(), 6);
    assert!(meta.iter().all(|e| e.cat == "__metadata"));
    let names: Vec<&str> = meta.iter().map(|e| e.name.as_str()).collect();
    assert_eq!(
        names,
        vec!["process_name", "process_name", "thread_name", "process_labels", "thread_name", "process_labels"]
    );
    assert!(std::ptr::eq(meta[0], &t.trace_events[0]));
    assert!(std::ptr::eq(meta[4], &t.trace_events[7]));
    assert_eq!(trace(vec![event(1, 5, "a")]).metadata_events().len(), 0);
}

#[test]
fn processes_lists_renderers_last() {
    let t = trace(vec![process_name(1, "Renderer"), process_name(2, "Browser")]);
    let listed = t.processes();
    assert_eq!(listed.len(), 2);
    assert_eq!((listed[0].id, listed[0].name.as_str()), (2, "Browser"));
    assert_eq!((listed[1].id, listed[1].name.as_str()), (1, "Renderer"));
    assert!(!listed[0].is_renderer());
    assert!(listed[1].is_renderer());
}

#[test]
fn processes_keep_their_order_within_each_group() {
    let t = trace(vec![
        process_name(5, "Renderer"),
        process_name(4, "GPU Process"),
        process_name(3, "Renderer"),
        process_name(2, "Browser"),
        process_name(1, "Renderer"),
        process_name(0, "Utility"),
    ]);
    let listed: Vec<(i64, String)> = t.processes().into_iter().map(|p| (p.id, p.name)).collect();
    let expected: Vec<(i64, String)> = vec![
        (4, "GPU Process".to_string()),
        (2, "Browser".to_string()),
        (0, "Utility".to_string()),
        (5, "Renderer".to_string()),
        (3, "Renderer".to_string()),
        (1, "Renderer".to_string()),
    ];
    assert_eq!(listed, expected);
}

#[test]
fn processes_carry_label_and_threads() {
    let t = Trace::parse(SAMPLE).unwrap();
    let listed = t.processes();
    assert_eq!(listed.len(), 2);
    assert_eq!(listed[0].id, 20);
    assert_eq!(listed[0].name, "Browser");
    assert_eq!(listed[0].label, "");
    assert!(listed[0].threads.is_empty());
    assert_eq!(listed[1].id, 10);
    assert_eq!(listed[1].name, "Renderer");
    assert_eq!(listed[1].label, "Example Domain");
    assert_eq!(listed[1].threads, vec!["CrRendererMain".to_string(), "Compositor".to_string()]);
    assert_eq!(listed[1].to_string(), "    10 - Renderer   ( 2 thread): Example Domain");
}

#[test]
fn processes_need_a_process_name_event() {
    let t = trace(vec![
        metadata_event(1, "thread_name", object(vec![("name", text("main"))])),
        metadata_event(1, "process_labels", object(vec![("labels", text("tab"))])),
        event(1, 10, "process_name"),
        TraceEvents { cat: "other".to_string(), ..process_name(2, "Browser") },
    ]);
    assert!(t.processes().is_empty());
}

#[test]
fn processes_list_each_process_once() {
    let t = trace(vec![
        process_name(1, "Browser"),
        process_name(2, "Renderer"),
        process_name(1, "Renderer"),
        process_name(2, "Again"),
        process_name(3, "GPU"),
    ]);
    let listed: Vec<(i64, String)> = t.processes().into_iter().map(|p| (p.id, p.name)).collect();
    assert_eq!(
        listed,
        vec![(1, "Browser".to_string()), (3, "GPU".to_string()), (2, "Renderer".to_string())]
    );
}

#[test]
fn processes_read_names_that_are_no_text_as_empty() {
    let t = trace(vec![
        metadata_event(1, "process_name", object(vec![("name", JsonValue::Number(JsonNumber::PosInt(5)))])),
        metadata_event(2, "process_name", JsonValue::Null),
        metadata_event(2, "thread_name", object(vec![("other", text("x"))])),
        metadata_event(2, "process_labels", text("labels")),
    ]);
    let listed = t.processes();
    assert_eq!(listed.len(), 2);
    assert_eq!((listed[0].id, listed[0].name.as_str(), listed[0].label.as_str()), (1, "", ""));
    assert_eq!((listed[1].id, listed[1].name.as_str(), listed[1].label.as_str()), (2, "", ""));
    assert_eq!(listed[1].threads, vec![String::new()]);
}

#[test]
fn timings_of_a_trace_without_timestamps() {
    let zero = Timing { duration: 0, min_timestamp: 0, max_timestamp: 0 };
    assert_eq!(trace(vec![]).timings(), zero);
    assert_eq!(trace(vec![event(1, 0, "a"), event(2, 0, "b")]).timings(), zero);
    assert_eq!(trace(vec![]).timestamp_range(), (0, 0));
}

#[test]
fn timings_of_a_trace_with_one_timestamp() {
    let t = trace(vec![event(1, 0, "a"), event(1, 777, "b"), event(2, 0, "c")]);
    assert_eq!(t.timings(), Timing { duration: 0, min_timestamp: 777, max_timestamp: 777 });
    let twice = trace(vec![event(1, 777, "a"), event(1, 777, "b")]);
    assert_eq!(twice.timings(), Timing { duration: 0, min_timestamp: 777, max_timestamp: 777 });
}

#[test]
fn timings_leave_zero_timestamps_out() {
    let t = Trace::parse(SAMPLE).unwrap();
    assert_eq!(t.timestamp_range(), (1000, 3000));
    assert_eq!(t.timings(), Timing { duration: 2000, min_timestamp: 1000, max_timestamp: 3000 });
    let wide = trace(vec![event(1, u64::MAX, "a"), event(1, 0, "b"), event(1, 1, "c")]);
    assert_eq!(wide.timings(), Timing { duration: u64::MAX - 1, min_timestamp: 1, max_timestamp: u64::MAX });
}

#[test]
fn timing_buckets_count_every_timestamp_that_is_set() {
    let t = Trace::parse(SAMPLE).unwrap();
    let h = t.timing_buckets().unwrap();
    assert_eq!(h.min(), 1000);
    assert_eq!(h.max(), 3000);
    assert_eq!(h.buckets().len(), 101);
    assert_eq!(h.sample_count(), 4);
    assert_eq!(h.buckets()[0], 1);
    assert_eq!(h.buckets()[25], 1);
    assert_eq!(h.buckets()[50], 1);
    assert_eq!(h.buckets()[100], 1);
    assert_eq!(h.buckets().iter().sum::<u64>(), 4);
}

#[test]
fn timing_buckets_need_a_span() {
    assert_eq!(trace(vec![]).timing_buckets().unwrap_err(), HistogramError::InvalidRange);
    assert_eq!(trace(vec![event(1, 0, "a")]).timing_buckets().unwrap_err(), HistogramError::InvalidRange);
    assert_eq!(
        trace(vec![event(1, 5, "a"), event(1, 0, "b"), event(2, 5, "c")]).timing_buckets().unwrap_err(),
        HistogramError::InvalidRange
    );
    let narrow = trace(vec![event(1, 5, "a"), event(1, 7, "b")]).timing_buckets().unwrap();
    assert_eq!(narrow.sample_count(), 2);
    assert_eq!(narrow.buckets()[0], 1);
    assert_eq!(narrow.buckets()[100], 1);
}

#[test]
fn filter_keeps_the_events_of_the_ids() {
    let t = Trace::parse(SAMPLE).unwrap();
    let kept = t.filter(ids(&["20", "30"]));
    let pids: Vec<i64> = kept.trace_events.iter().map(|e| e.pid).collect();
    assert_eq!(pids, vec![20, 20, 30]);
    assert_eq!(kept.trace_events[1], t.trace_events[4]);
    assert_eq!(kept.metadata, t.metadata);
    assert_eq!(t.trace_events.len(), 10);
}

#[test]
fn filter_compares_ids_as_texts() {
    let t = trace(vec![event(7, 1, "a"), event(-7, 2, "b"), event(70, 3, "c"), event(0, 4, "d")]);
    let pids = |list: &[&str]| -> Vec<i64> { t.filter(ids(list)).trace_events.iter().map(|e| e.pid).collect() };
    assert_eq!(pids(&["7"]), vec![7]);
    assert_eq!(pids(&["-7"]), vec![-7]);
    assert_eq!(pids(&["07", "+7", " 7", "7 ", "7.0", ""]), Vec::<i64>::new());
    assert_eq!(pids(&["0", "70", "70"]), vec![70, 0]);
    assert_eq!(pids(&[]), Vec::<i64>::new());
}

#[test]
fn filter_with_every_id_keeps_the_trace() {
    let t = Trace::parse(SAMPLE).unwrap();
    let all = t.filter(ids(&["30", "10", "20", "99"]));
    assert_eq!(all, t);
}

#[test]
fn trace_filter_is_a_plain_subset() {
    let t = trace(vec![
        process_name(1, "Browser"),
        process_name(2, "Renderer"),
        event(1, 10, "a"),
        event(2, 20, "b"),
    ]);
    let kept = t.filter(ids(&["2"]));
    let pids: Vec<i64> = kept.trace_events.iter().map(|e| e.pid).collect();
    assert_eq!(pids, vec![2, 2]);
}

#[test]
fn filter_request_keeps_processes_that_are_no_renderers() {
    let t = trace(vec![
        process_name(1, "Browser"),
        process_name(2, "Renderer"),
        process_name(3, "Renderer"),
        event(1, 10, "a"),
        event(2, 20, "b"),
        event(3, 30, "c"),
        event(4, 40, "d"),
    ]);
    let kept = filter(&t, ids(&["2"]));
    let pids: Vec<i64> = kept.trace_events.iter().map(|e| e.pid).collect();
    assert_eq!(pids, vec![1, 2, 1, 2]);
    assert_eq!(kept.metadata, t.metadata);
    let none = filter(&t, ids(&[]));
    let pids: Vec<i64> = none.trace_events.iter().map(|e| e.pid).collect();
    assert_eq!(pids, vec![1, 1]);
}

#[test]
fn events_are_copied_whole() {
    let t = Trace::parse(SAMPLE).unwrap();
    for e in &t.trace_events {
        assert_eq!(&e.clone(), e);
    }
    let kept = t.filter(ids(&["10"]));
    assert_eq!(kept.trace_events.len(), 7);
    assert_eq!(kept.trace_events[3], t.trace_events[5]);
    assert_eq!(kept.trace_events[3].id, text("0x1f"));
}
