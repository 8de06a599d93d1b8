use trace_tool::json::{parse_json, print_json, value_to_string};
use trace_tool::{JsonNumber, JsonValue};

fn text(s: &str) -> JsonValue {
    JsonValue::String(s.to_string())
}

fn object(members: Vec<(&str, JsonValue)>) -> JsonValue {
    JsonValue::Object(members.into_iter().map(|(k, v)| (k.to_string(), v)).collect())
}

#[test]
fn parse_json_reads_every_kind_of_value() {
    let doc = parse_json(r#" {"b": 1, "a": [true, null, "x", -5, false, {}], "c": {"d": "e"}} "#).unwrap();
    let expected = object(vec![
        (
            "a",
            JsonValue::Array(vec![
                JsonValue::Bool(true),
                JsonValue::Null,
                text("x"),
                JsonValue::Number(JsonNumber::NegInt(-5)),
                JsonValue::Bool(false),
                object(vec![]),
            ]),
        ),
        ("b", JsonValue::Number(JsonNumber::PosInt(1))),
        ("c", object(vec![("d", text("e"))])),
    ]);
    assert_eq!(doc, expected);
}

#[test]
fn parse_json_refuses_what_is_no_json() {
    assert!(parse_json("").is_none());
    assert!(parse_json("{").is_none());
    assert!(parse_json("{\"a\": }").is_none());
    assert!(parse_json("[1, 2,]").is_none());
    assert!(parse_json("nul").is_none());
    assert!(parse_json("{} {}").is_none());
}

#[test]
fn parse_json_tells_integers_from_other_numbers() {
    assert_eq!(parse_json("0").unwrap(), JsonValue::Number(JsonNumber::PosInt(0)));
    assert_eq!(
        parse_json("18446744073709551615").unwrap(),
        JsonValue::Number(JsonNumber::PosInt(u64::MAX))
    );
    assert_eq!(
        parse_json("-9223372036854775808").unwrap(),
        JsonValue::Number(JsonNumber::NegInt(i64::MIN))
    );
    assert!(matches!(parse_json("1.5").unwrap(), JsonValue::Number(JsonNumber::Float(_))));
    assert!(matches!(parse_json("1e3").unwrap(), JsonValue::Number(JsonNumber::Float(_))));
    assert!(matches!(
        parse_json("18446744073709551616").unwrap(),
        JsonValue::Number(JsonNumber::Float(_))
    ));
}

#[test]
fn print_json_writes_members_by_key() {
    let doc = object(vec![
        ("b", JsonValue::Number(JsonNumber::PosInt(1))),
        (
            "a",
            JsonValue::Array(vec![
                JsonValue::Bool(true),
                JsonValue::Null,
                text("x\n\"y\""),
                JsonValue::Number(JsonNumber::NegInt(-5)),
            ]),
        ),
    ]);
    assert_eq!(print_json(&doc), r#"{"a":[true,null,"x\n\"y\"",-5],"b":1}"#);
}

#[test]
fn print_json_writes_integers_of_either_form() {
    assert_eq!(print_json(&JsonValue::Number(JsonNumber::NegInt(5))), "5");
    assert_eq!(print_json(&JsonValue::Number(JsonNumber::PosInt(5))), "5");
    assert_eq!(print_json(&JsonValue::Number(JsonNumber::NegInt(i64::MIN))), "-9223372036854775808");
    assert_eq!(print_json(&JsonValue::Number(JsonNumber::PosInt(u64::MAX))), "18446744073709551615");
    assert_eq!(print_json(&JsonValue::Null), "null");
    assert_eq!(print_json(&text("")), "\"\"");
}

#[test]
fn print_json_keeps_the_later_of_two_members_with_one_key() {
    let doc = object(vec![("k", text("first")), ("j", JsonValue::Null), ("k", text("second"))]);
    assert_eq!(print_json(&doc), r#"{"j":null,"k":"second"}"#);
    assert_eq!(doc.get("k"), Some(&text("second")));
}

#[test]
fn numbers_with_a_fraction_are_carried_through() {
    let source = r#"{"big":1e+300,"half":0.5,"neg":-2.25,"whole":3.0}"#;
    let doc = parse_json(source).unwrap();
    assert_eq!(print_json(&doc), source);
    let copy = doc.clone();
    assert_eq!(copy, doc);
    assert_eq!(print_json(&copy), source);
    assert_eq!(doc.get("half").unwrap().as_i64(), None);
    assert_eq!(doc.get("whole").unwrap().as_u64(), None);
}

#[test]
fn printed_text_reads_back_as_the_same_value() {
    let doc = object(vec![
        ("z", JsonValue::Array(vec![object(vec![("deep", JsonValue::Array(vec![]))])])),
        ("a", text("ü \u{1F600} \\ /")),
        ("n", JsonValue::Number(JsonNumber::NegInt(-17))),
    ]);
    let written = print_json(&doc);
    let read = parse_json(&written).unwrap();
    assert_eq!(print_json(&read), written);
    assert_eq!(read.get("a"), doc.get("a"));
    assert_eq!(read.get("n"), doc.get("n"));
    assert_eq!(read.get("z"), doc.get("z"));
}

#[test]
fn get_finds_members_of_objects_only() {
    let doc = object(vec![("a", text("x")), ("", JsonValue::Bool(true))]);
    assert_eq!(doc.get("a"), Some(&text("x")));
    assert_eq!(doc.get(""), Some(&JsonValue::Bool(true)));
    assert_eq!(doc.get("b"), None);
    assert_eq!(doc.get("A"), None);
    assert_eq!(JsonValue::Array(vec![text("a")]).get("a"), None);
    assert_eq!(text("a").get("a"), None);
    assert_eq!(JsonValue::Null.get("a"), None);
}

#[test]
fn value_to_string_is_empty_for_what_is_no_string() {
    assert_eq!(value_to_string(&text("Renderer")), "Renderer");
    assert_eq!(value_to_string(&text("")), "");
    assert_eq!(value_to_string(&JsonValue::Null), "");
    assert_eq!(value_to_string(&JsonValue::Bool(true)), "");
    assert_eq!(value_to_string(&JsonValue::Number(JsonNumber::PosInt(7))), "");
    assert_eq!(value_to_string(&JsonValue::Array(vec![text("a")])), "");
    assert_eq!(value_to_string(&object(vec![("a", text("b"))])), "");
}

#[test]
fn text_at_reads_a_member_as_text() {
    let doc = object(vec![("name", text("Browser")), ("labels", JsonValue::Number(JsonNumber::PosInt(1)))]);
    assert_eq!(doc.text_at("name"), "Browser");
    assert_eq!(doc.text_at("labels"), "");
    assert_eq!(doc.text_at("missing"), "");
    assert_eq!(JsonValue::Null.text_at("name"), "");
}

#[test]
fn integers_are_read_in_their_range() {
    let big = JsonValue::Number(JsonNumber::PosInt(u64::MAX));
    let edge = JsonValue::Number(JsonNumber::PosInt(i64::MAX as u64));
    let neg = JsonValue::Number(JsonNumber::NegInt(-3));
    let pos = JsonValue::Number(JsonNumber::NegInt(3));
    assert_eq!(big.as_i64(), None);
    assert_eq!(big.as_u64(), Some(u64::MAX));
    assert_eq!(edge.as_i64(), Some(i64::MAX));
    assert_eq!(neg.as_i64(), Some(-3));
    assert_eq!(neg.as_u64(), None);
    assert_eq!(pos.as_i64(), Some(3));
    assert_eq!(pos.as_u64(), Some(3));
    assert_eq!(text("3").as_i64(), None);
    assert_eq!(JsonValue::Null.as_u64(), None);
}

#[test]
fn clone_copies_the_whole_value() {
    let doc = object(vec![
        ("a", JsonValue::Array(vec![text("x"), object(vec![("b", JsonValue::Bool(false))])])),
        ("n", JsonValue::Number(JsonNumber::NegInt(-1))),
    ]);
    assert_eq!(doc.clone(), doc);
}
