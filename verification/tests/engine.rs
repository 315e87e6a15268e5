//! The rendering engine on concrete values: dispatch rules, grid layout,
//! truncation, padding and the status summaries.

use ov_cli::json::JsonValue;
use ov_cli::output::render;
use ov_cli::table::{format_array_to_table, is_numeric_value, pad_cell, truncate_string};

fn s(x: &str) -> JsonValue {
    JsonValue::Str(x.to_string())
}

fn n(x: &str) -> JsonValue {
    JsonValue::Number(x.to_string())
}

fn obj(fields: Vec<(&str, JsonValue)>) -> JsonValue {
    JsonValue::Object(fields.into_iter().map(|(k, v)| (k.to_string(), v)).collect())
}

fn arr(items: Vec<JsonValue>) -> JsonValue {
    JsonValue::Array(items)
}

#[test]
fn test_object_formatting_with_alignment() {
    // An object with keys of different lengths renders without panicking.
    let o = obj(vec![
        ("id", s("123")),
        ("name", s("Test Resource")),
        ("uri", s("viking://resources/test")),
        ("type", s("document")),
    ]);
    render(&o, true);
}

#[test]
fn test_object_with_long_uri() {
    // A long URI is handled without panicking.
    let o = obj(vec![
        ("id", s("456")),
        (
            "uri",
            s("viking://resources/very/long/path/that/exceeds/normal/width/limits/and/should/not/be/truncated/because/it/is/a/uri"),
        ),
    ]);
    render(&o, true);
}

#[test]
fn test_empty_object() {
    let o = obj(vec![]);
    render(&o, true);
}

#[test]
fn scalar_string_renders_verbatim() {
    assert_eq!(render(&s("hello"), false), "hello");
    assert_eq!(render(&s("hello"), true), "hello");
}

#[test]
fn empty_array_renders_marker() {
    assert_eq!(render(&arr(vec![]), false), "(empty)");
}

#[test]
fn two_records_make_two_column_table() {
    // id is numeric and right-justified; name is text and left-justified.
    let v = arr(vec![
        obj(vec![("id", n("1")), ("name", s("a"))]),
        obj(vec![("id", n("2")), ("name", s("bb"))]),
    ]);
    assert_eq!(render(&v, false), "id  name\n 1  a   \n 2  bb  \n");
}

#[test]
fn layout_has_one_line_per_row_plus_header() {
    let v = arr(vec![
        obj(vec![("k", n("1")), ("v", s("x"))]),
        obj(vec![("k", n("2")), ("v", s("y"))]),
        obj(vec![("k", n("3")), ("v", s("z"))]),
    ]);
    let out = render(&v, false);
    assert_eq!(out.chars().filter(|c| *c == '\n').count(), 4);
}

#[test]
fn component_status_two_line_summary() {
    let o = obj(vec![
        ("name", s("db")),
        ("is_healthy", JsonValue::Bool(true)),
        ("status", s("ok")),
    ]);
    assert_eq!(render(&o, false), "[db] (healthy)\nok");
    assert_eq!(render(&o, true), "[db] (healthy)\nok");
}

#[test]
fn unhealthy_component_status() {
    let o = obj(vec![
        ("name", s("vlm")),
        ("is_healthy", JsonValue::Bool(false)),
        ("status", s("down")),
    ]);
    assert_eq!(render(&o, true), "[vlm] (unhealthy)\ndown");
}

#[test]
fn empty_errors_list_is_not_scannable() {
    // {"errors":[]} falls through to the plain key/value listing.
    let o = obj(vec![("errors", arr(vec![]))]);
    assert_eq!(render(&o, false), "errors  []\n");
}

#[test]
fn compact_drops_all_empty_column() {
    let v = arr(vec![
        obj(vec![("a", n("1")), ("b", JsonValue::Null)]),
        obj(vec![("a", n("2")), ("b", JsonValue::Null)]),
    ]);
    assert_eq!(render(&v, true), "a\n1\n2\n");
    // without compact, the column stays
    assert_eq!(render(&v, false), "a  b   \n1  null\n2  null\n");
}

#[test]
fn compact_drops_empty_string_and_empty_array_columns() {
    let v = arr(vec![
        obj(vec![("a", n("1")), ("b", s("")), ("c", arr(vec![]))]),
        obj(vec![("a", n("2")), ("b", s("")), ("c", arr(vec![]))]),
    ]);
    assert_eq!(render(&v, true), "a\n1\n2\n");
}

#[test]
fn long_uri_cell_is_never_truncated() {
    let long_uri: String = std::iter::repeat('a').take(300).collect();
    let v = arr(vec![
        obj(vec![("uri", s(&long_uri)), ("id", n("1"))]),
        obj(vec![("uri", s("short")), ("id", n("2"))]),
    ]);
    let out = render(&v, false);
    assert!(out.contains(&long_uri));
    assert!(!out.contains("..."));
}

#[test]
fn long_text_cell_is_truncated_with_ellipsis() {
    let long_text: String = std::iter::repeat('x').take(300).collect();
    let v = arr(vec![obj(vec![("note", s(&long_text))])]);
    let out = render(&v, false);
    assert!(out.contains("..."));
    assert!(!out.contains(&long_text));
}

#[test]
fn single_primitive_list_gets_singular_column() {
    // the trailing-"es" rule applies first, so "names" loses two letters
    let o = obj(vec![("names", arr(vec![s("a"), s("bb")]))]);
    assert_eq!(render(&o, false), "nam\na  \nbb \n");
    let o2 = obj(vec![("tags", arr(vec![s("x"), s("yy")]))]);
    assert_eq!(render(&o2, false), "tag\nx  \nyy \n");
}

#[test]
fn plural_es_key_is_stripped() {
    let o = obj(vec![("boxes", arr(vec![s("p"), s("q")]))]);
    assert_eq!(render(&o, false), "box\np  \nq  \n");
}

#[test]
fn single_object_list_renders_directly() {
    let o = obj(vec![("items", arr(vec![obj(vec![("id", n("7"))])]))]);
    assert_eq!(render(&o, false), "id\n 7\n");
}

#[test]
fn two_object_lists_merge_with_type_column() {
    let o = obj(vec![
        ("boxes", arr(vec![obj(vec![("id", n("1"))])])),
        ("items", arr(vec![obj(vec![("id", n("2"))])])),
    ]);
    let out = render(&o, false);
    assert_eq!(out, "id  type\n 1  box \n 2  item\n");
}

#[test]
fn plain_object_renders_key_value_listing() {
    let o = obj(vec![("id", s("123")), ("name", s("x"))]);
    assert_eq!(render(&o, false), "id    123\nname  x\n");
}

#[test]
fn system_status_renders_components_and_errors() {
    let comp = obj(vec![
        ("name", s("db")),
        ("is_healthy", JsonValue::Bool(true)),
        ("status", s("ok")),
    ]);
    let o = obj(vec![
        ("components", obj(vec![("db", comp)])),
        ("is_healthy", JsonValue::Bool(false)),
        ("errors", arr(vec![s("one"), s("two")])),
    ]);
    assert_eq!(
        render(&o, false),
        "[db] (healthy)\nok\n\n[system] (unhealthy)\nErrors: one, two"
    );
}

#[test]
fn fallback_emits_raw_json() {
    assert_eq!(render(&n("5"), true), "5");
    assert_eq!(render(&JsonValue::Bool(true), true), "true");
    assert_eq!(render(&obj(vec![]), true), "{}");
    assert_eq!(render(&obj(vec![]), false), "{}");
    // a mixed list renders one line per element
    let v = arr(vec![n("1"), s("a")]);
    assert_eq!(render(&v, false), "1\na\n");
}

#[test]
fn pretty_fallback_is_indented() {
    // A list of keyless objects yields no table and falls back to raw JSON.
    let v = arr(vec![obj(vec![])]);
    assert_eq!(render(&v, false), "[\n  {}\n]");
    assert_eq!(render(&v, true), "[{}]");
}

#[test]
fn pad_cell_left_and_right() {
    assert_eq!(pad_cell("ab", 5, false), "ab   ");
    assert_eq!(pad_cell("ab", 5, true), "   ab");
    assert_eq!(pad_cell("abcdef", 3, false), "abcdef");
}

#[test]
fn pad_cell_counts_display_width() {
    // One ideograph occupies two columns, so one space completes width 3.
    assert_eq!(pad_cell("\u{65e5}", 3, false), "\u{65e5} ");
}

#[test]
fn truncate_string_cuts_by_display_width() {
    let long_text: String = std::iter::repeat('x').take(300).collect();
    let (cut, skip) = truncate_string(&long_text, false, 256);
    assert!(!skip);
    assert!(cut.ends_with("..."));
    assert_eq!(cut.chars().count(), 253 + 3);
    // wide characters: each occupies two columns, so fewer fit
    let wide: String = std::iter::repeat('\u{65e5}').take(200).collect();
    let (cut_wide, _) = truncate_string(&wide, false, 256);
    assert_eq!(cut_wide.chars().count(), 126 + 3);
}

#[test]
fn truncate_string_spares_uri() {
    let long_uri: String = std::iter::repeat('u').take(300).collect();
    let (kept, skip) = truncate_string(&long_uri, true, 256);
    assert!(skip);
    assert_eq!(kept, long_uri);
    let (kept2, skip2) = truncate_string("short", true, 256);
    assert!(!skip2);
    assert_eq!(kept2, "short");
}

#[test]
fn numeric_values_and_numeric_strings() {
    assert!(is_numeric_value(&n("42")));
    assert!(is_numeric_value(&s("12.5")));
    assert!(is_numeric_value(&s("-1e5")));
    assert!(is_numeric_value(&s("inf")));
    assert!(is_numeric_value(&s("NaN")));
    assert!(!is_numeric_value(&s("abc")));
    assert!(!is_numeric_value(&s("")));
    assert!(!is_numeric_value(&JsonValue::Bool(true)));
    assert!(!is_numeric_value(&JsonValue::Null));
}

#[test]
fn numeric_string_column_is_right_justified() {
    let v = arr(vec![
        obj(vec![("score", s("1.5"))]),
        obj(vec![("score", s("12.25"))]),
    ]);
    assert_eq!(render(&v, false), "score\n  1.5\n12.25\n");
}

#[test]
fn format_array_to_table_rejects_empty_and_keyless() {
    let empty: Vec<JsonValue> = vec![];
    assert!(format_array_to_table(&empty, false).is_none());
    let keyless = vec![obj(vec![]), obj(vec![])];
    assert!(format_array_to_table(&keyless, false).is_none());
}
