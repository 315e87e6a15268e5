//! Serialization and parsing of JSON text, and the round trip between
//! them, cross-checked against an independent JSON implementation.

use ov_cli::codec::{to_json_string, to_json_string_pretty};
use ov_cli::json::JsonValue;
use ov_cli::parse::parse_json;

fn s(x: &str) -> JsonValue {
    JsonValue::Str(x.to_string())
}

fn n(x: &str) -> JsonValue {
    JsonValue::Number(x.to_string())
}

fn obj(fields: Vec<(&str, JsonValue)>) -> JsonValue {
    JsonValue::Object(fields.into_iter().map(|(k, v)| (k.to_string(), v)).collect())
}

fn arr(items: Vec<JsonValue>) -> JsonValue {
    JsonValue::Array(items)
}

fn sample() -> JsonValue {
    obj(vec![
        ("id", n("42")),
        ("rate", n("-1.5e3")),
        ("name", s("line\nbreak \"quoted\" back\\slash")),
        ("ok", JsonValue::Bool(true)),
        ("gone", JsonValue::Null),
        ("tags", arr(vec![s("a"), s("b"), arr(vec![]), obj(vec![])])),
        ("nested", obj(vec![("k", s("v")), ("control", s("\u{1}\u{1f}"))])),
    ])
}

#[test]
fn compact_serialization_matches_reference() {
    let text = to_json_string(&sample());
    let expected = "{\"id\":42,\"rate\":-1.5e3,\"name\":\"line\\nbreak \\\"quoted\\\" back\\\\slash\",\"ok\":true,\"gone\":null,\"tags\":[\"a\",\"b\",[],{}],\"nested\":{\"k\":\"v\",\"control\":\"\\u0001\\u001f\"}}";
    assert_eq!(text, expected);
    // an independent implementation accepts it and sees the same value
    let reparsed: serde_json::Value = serde_json::from_str(&text).unwrap();
    let reference: serde_json::Value = serde_json::from_str(expected).unwrap();
    assert_eq!(reparsed, reference);
}

#[test]
fn pretty_serialization_matches_reference_style() {
    let v = obj(vec![("a", n("1")), ("b", arr(vec![n("2"), n("3")]))]);
    let text = to_json_string_pretty(&v);
    assert_eq!(text, "{\n  \"a\": 1,\n  \"b\": [\n    2,\n    3\n  ]\n}");
    // the same value serialized by an independent implementation
    let reference: serde_json::Value = serde_json::from_str("{\"a\":1,\"b\":[2,3]}").unwrap();
    assert_eq!(text, serde_json::to_string_pretty(&reference).unwrap());
}

#[test]
fn round_trip_compact() {
    let v = sample();
    let text = to_json_string(&v);
    let back = parse_json(&text).unwrap();
    assert_eq!(to_json_string(&back), text);
}

#[test]
fn round_trip_pretty() {
    let v = sample();
    let text = to_json_string_pretty(&v);
    let back = parse_json(&text).unwrap();
    assert_eq!(to_json_string(&back), to_json_string(&v));
}

#[test]
fn parse_accepts_standard_json() {
    let back = parse_json(" { \"a\" : [ 1 , 2.5 , -3e-1, \"x\" ] , \"b\" : null } ").unwrap();
    assert_eq!(
        to_json_string(&back),
        "{\"a\":[1,2.5,-3e-1,\"x\"],\"b\":null}"
    );
}

#[test]
fn parse_decodes_escapes() {
    let back = parse_json("\"\\u0041\\n\\t\\\\\\\"\\u00e9\"").unwrap();
    assert_eq!(
        match back {
            JsonValue::Str(s) => s,
            _ => panic!("expected a string"),
        },
        "A\n\t\\\"\u{e9}"
    );
}

#[test]
fn parse_rejects_malformed_text() {
    assert!(parse_json("").is_none());
    assert!(parse_json("{").is_none());
    assert!(parse_json("01").is_none());
    assert!(parse_json("1 2").is_none());
    assert!(parse_json("[1,]").is_none());
    assert!(parse_json("{\"a\":}").is_none());
    assert!(parse_json("\"\\ud800\"").is_none());
    assert!(parse_json("nul").is_none());
    assert!(parse_json("truely").is_none());
}

#[test]
fn parse_agrees_with_reference_on_numbers() {
    for t in ["0", "-0", "3.25", "1e9", "-2.5E-3", "10"] {
        let mine = parse_json(t).unwrap();
        assert_eq!(to_json_string(&mine), t);
        assert!(serde_json::from_str::<serde_json::Value>(t).is_ok());
    }
    for t in ["01", "1.", ".5", "+1", "1e", "--1"] {
        assert!(parse_json(t).is_none());
        assert!(serde_json::from_str::<serde_json::Value>(t).is_err());
    }
}
