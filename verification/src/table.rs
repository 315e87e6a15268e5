//! The column layout engine: cell formatting, truncation, padding, and the
//! aligned grid built from a list of JSON objects.

use vstd::prelude::*;

use crate::codec::ser;
use crate::json::{Json, JsonValue};
use crate::numeric::{is_float_literal, is_numeric_chars};
use crate::text::{chars_to_string, str_to_chars};
use crate::width::text_width;

verus! {

/// The hard cap on a column's display width: wider cells are truncated.
pub const MAX_COL_WIDTH: usize = 256;

/// How a value appears in a table cell: a string verbatim, a number or
/// boolean or null as its JSON text, and anything structured as its raw
/// single-line JSON.
pub open spec fn spec_format_value(j: Json) -> Seq<char> {
    match j {
        Json::Str(s) => s,
        Json::Number(s) => s,
        Json::Bool(b) => if b {
            seq!['t', 'r', 'u', 'e']
        } else {
            seq!['f', 'a', 'l', 's', 'e']
        },
        Json::Null => seq!['n', 'u', 'l', 'l'],
        _ => ser(j, false, 0),
    }
}

/// The text of a cell holding `v`.
pub fn format_value(v: &JsonValue) -> (r: String)
    ensures
        r@ == spec_format_value(v@),
{
    match v {
        JsonValue::Str(s) => clone_string(s),
        JsonValue::Number(s) => clone_string(s),
        JsonValue::Bool(b) => {
            let mut out: Vec<char> = Vec::new();
            if *b {
                out.push('t');
                out.push('r');
                out.push('u');
                out.push('e');
            } else {
                out.push('f');
                out.push('a');
                out.push('l');
                out.push('s');
                out.push('e');
            }
            proof {
                assert(out@ =~= spec_format_value(v@));
            }
            chars_to_string(&out)
        },
        JsonValue::Null => {
            let mut out: Vec<char> = Vec::new();
            out.push('n');
            out.push('u');
            out.push('l');
            out.push('l');
            proof {
                assert(out@ =~= spec_format_value(v@));
            }
            chars_to_string(&out)
        },
        _ => crate::codec::to_json_string(v),
    }
}

fn clone_string(s: &String) -> (r: String)
    ensures
        r@ == s@,
{
    s.clone()
}

/// Whether a value counts as numeric for column alignment: a number, or a
/// string that parses as a floating-point number.
pub open spec fn spec_is_numeric(j: Json) -> bool {
    match j {
        Json::Number(_) => true,
        Json::Str(s) => is_float_literal(s),
        _ => false,
    }
}

/// Whether `v` counts as numeric for column alignment.
pub fn is_numeric_value(v: &JsonValue) -> (r: bool)
    ensures
        r == spec_is_numeric(v@),
{
    match v {
        JsonValue::Number(_) => true,
        JsonValue::Str(s) => {
            let cs = str_to_chars(s.as_str());
            is_numeric_chars(&cs)
        },
        _ => false,
    }
}

/// A run of `n` spaces.
pub open spec fn space_run(n: nat) -> Seq<char> {
    Seq::new(n, |i: int| ' ')
}

/// A cell padded with spaces to `width` columns: on the left if the column
/// is numeric (right-justified), on the right otherwise. Content at least
/// as wide as the column stands unchanged.
pub open spec fn spec_pad(s: Seq<char>, width: nat, align_right: bool) -> Seq<char> {
    let w = text_width(s);
    if w >= width {
        s
    } else if align_right {
        space_run((width - w) as nat) + s
    } else {
        s + space_run((width - w) as nat)
    }
}

/// Pads `content` with spaces to `width` display columns: on the left if
/// `align_right`, on the right otherwise.
pub fn pad_cell(content: &str, width: usize, align_right: bool) -> (r: String)
    ensures
        r@ == spec_pad(content@, width as nat, align_right),
{
    let cs = str_to_chars(content);
    let w = crate::width::display_width(&cs);
    if w >= width {
        let mut out: Vec<char> = Vec::new();
        crate::text::append_chars(&mut out, &cs);
        proof {
            assert(out@ =~= content@);
        }
        chars_to_string(&out)
    } else {
        let pad = crate::text::spaces(width - w);
        let mut out: Vec<char> = Vec::new();
        if align_right {
            crate::text::append_chars(&mut out, &pad);
            crate::text::append_chars(&mut out, &cs);
        } else {
            crate::text::append_chars(&mut out, &cs);
            crate::text::append_chars(&mut out, &pad);
        }
        chars_to_string(&out)
    }
}

/// The longest prefix of `s` from position `i` whose added widths stay
/// within the truncation budget, starting from an already used width of
/// `cur`.
pub open spec fn trunc_prefix(s: Seq<char>, i: int, cur: nat) -> Seq<char>
    decreases s.len() - i,
{
    if 0 <= i < s.len() && cur + crate::width::char_display_width(s[i]) <= MAX_COL_WIDTH - 3 {
        seq![s[i]] + trunc_prefix(s, i + 1, cur + crate::width::char_display_width(s[i]))
    } else {
        Seq::empty()
    }
}

/// What truncation makes of a cell. A `uri` cell is never cut: it is handed
/// back whole, with a flag saying that it overflows its column and must not
/// be padded. Any other cell wider than the hard cap is cut character by
/// character to fit the cap minus three columns and ends in `...`.
pub open spec fn spec_truncate(s: Seq<char>, is_uri: bool, max_width: nat) -> (Seq<char>, bool) {
    if is_uri {
        (s, text_width(s) > max_width)
    } else if text_width(s) > MAX_COL_WIDTH as nat {
        (trunc_prefix(s, 0, 0) + seq!['.', '.', '.'], false)
    } else {
        (s, false)
    }
}

/// Truncates `s` for a cell of width `max_width`; the flag says the cell is
/// an overflowing `uri` cell and is to be emitted unpadded.
pub fn truncate_string(s: &str, is_uri: bool, max_width: usize) -> (r: (String, bool))
    ensures
        (r.0@, r.1) == spec_truncate(s@, is_uri, max_width as nat),
{
    let cs = str_to_chars(s);
    let w = crate::width::display_width(&cs);
    if is_uri {
        let mut out: Vec<char> = Vec::new();
        crate::text::append_chars(&mut out, &cs);
        proof {
            assert(out@ =~= s@);
        }
        (chars_to_string(&out), w > max_width)
    } else if w > MAX_COL_WIDTH {
        let mut out: Vec<char> = Vec::new();
        let mut cur: usize = 0;
        let mut i: usize = 0;
        let mut stopped = false;
        while i < cs.len() && !stopped
            invariant
                0 <= i <= cs.len(),
                cs@ == s@,
                cur <= MAX_COL_WIDTH - 3,
                trunc_prefix(s@, 0, 0) == out@ + (if stopped {
                    Seq::<char>::empty()
                } else {
                    trunc_prefix(s@, i as int, cur as nat)
                }),
            decreases cs.len() - i + (if stopped { 0int } else { 1int }),
        {
            let cw = crate::width::char_width(cs[i]);
            if cur + cw > MAX_COL_WIDTH - 3 {
                stopped = true;
            } else {
                out.push(cs[i]);
                cur = cur + cw;
                i = i + 1;
                proof {
                    assert(out@ + trunc_prefix(s@, i as int, cur as nat) =~= out@.drop_last() + (
                    seq![s@[i - 1]] + trunc_prefix(s@, i as int, cur as nat)));
                }
            }
        }
        out.push('.');
        out.push('.');
        out.push('.');
        proof {
            assert(trunc_prefix(s@, s@.len() as int, cur as nat) =~= Seq::<char>::empty());
            assert(out@ =~= trunc_prefix(s@, 0, 0) + seq!['.', '.', '.']);
        }
        (chars_to_string(&out), false)
    } else {
        let mut out: Vec<char> = Vec::new();
        crate::text::append_chars(&mut out, &cs);
        proof {
            assert(out@ =~= s@);
        }
        (chars_to_string(&out), false)
    }
}

/// The fields of a row: an object's fields, nothing for any other shape.
pub open spec fn row_fields(j: Json) -> Seq<(Seq<char>, Json)> {
    if j is Object {
        j->Object_0
    } else {
        Seq::empty()
    }
}

/// The value under `key` among `fields`: the first match.
pub open spec fn obj_get(fields: Seq<(Seq<char>, Json)>, key: Seq<char>) -> Option<Json>
    decreases fields.len(),
{
    if fields.len() == 0 {
        None
    } else if fields.first().0 == key {
        Some(fields.first().1)
    } else {
        obj_get(fields.drop_first(), key)
    }
}

/// The value under `key` in `j`, when `j` is an object that has it.
pub open spec fn j_get(j: Json, key: Seq<char>) -> Option<Json> {
    obj_get(row_fields(j), key)
}

pub open spec fn all_objects(rows: Seq<Json>) -> bool {
    forall|i: int| 0 <= i < rows.len() ==> rows[i] is Object
}

/// `acc` extended with the keys of `fields` that it lacks, in field order.
pub open spec fn add_keys(acc: Seq<Seq<char>>, fields: Seq<(Seq<char>, Json)>) -> Seq<Seq<char>>
    decreases fields.len(),
{
    if fields.len() == 0 {
        acc
    } else {
        add_keys(
            if acc.contains(fields.first().0) {
                acc
            } else {
                acc.push(fields.first().0)
            },
            fields.drop_first(),
        )
    }
}

pub open spec fn keys_union_from(acc: Seq<Seq<char>>, rows: Seq<Json>) -> Seq<Seq<char>>
    decreases rows.len(),
{
    if rows.len() == 0 {
        acc
    } else {
        keys_union_from(add_keys(acc, row_fields(rows.first())), rows.drop_first())
    }
}

/// The keys of all rows, each once, in the order of first occurrence.
pub open spec fn keys_union(rows: Seq<Json>) -> Seq<Seq<char>> {
    keys_union_from(Seq::empty(), rows)
}

/// Whether a value keeps its column in compact mode: anything but null,
/// the empty string, and the empty array does.
pub open spec fn informative(j: Json) -> bool {
    &&& !(j is Null)
    &&& j != Json::Str(Seq::<char>::empty())
    &&& !(j matches Json::Array(a) && a.len() == 0)
}

/// Whether some row holds an informative value under `key`.
pub open spec fn col_informative(rows: Seq<Json>, key: Seq<char>) -> bool {
    exists|i: int|
        0 <= i < rows.len() && ((#[trigger] j_get(rows[i], key)) matches Some(v) && informative(v))
}

/// The keys whose column some row fills, in order: the compact-mode filter.
pub open spec fn kept_keys(keys: Seq<Seq<char>>, rows: Seq<Json>) -> Seq<Seq<char>>
    decreases keys.len(),
{
    if keys.len() == 0 {
        Seq::empty()
    } else {
        let pre = kept_keys(keys.drop_last(), rows);
        if col_informative(rows, keys.last()) {
            pre.push(keys.last())
        } else {
            pre
        }
    }
}

/// The widest cell of the column under `key`, each cell's width capped at
/// the truncation limit.
pub open spec fn col_width_vals(rows: Seq<Json>, key: Seq<char>) -> nat
    decreases rows.len(),
{
    if rows.len() == 0 {
        0
    } else {
        let pre = col_width_vals(rows.drop_last(), key);
        match j_get(rows.last(), key) {
            Some(v) => {
                let w = text_width(spec_format_value(v));
                let w2 = if w > MAX_COL_WIDTH as nat {
                    MAX_COL_WIDTH as nat
                } else {
                    w
                };
                if w2 > pre {
                    w2
                } else {
                    pre
                }
            },
            None => pre,
        }
    }
}

/// A column's layout width: its header's width or its widest capped cell,
/// whichever is more. The column is thus never narrower than its header.
pub open spec fn col_width(rows: Seq<Json>, key: Seq<char>) -> nat {
    let hw = text_width(key);
    let vw = col_width_vals(rows, key);
    if hw > vw {
        hw
    } else {
        vw
    }
}

/// Whether every value present in the column under `key` is numeric; such
/// a column is right-justified.
pub open spec fn col_numeric(rows: Seq<Json>, key: Seq<char>) -> bool {
    forall|i: int|
        0 <= i < rows.len() ==> ((#[trigger] j_get(rows[i], key)) matches Some(v) ==>
        spec_is_numeric(v))
}

/// The name of the column that is exempt from truncation and padding.
pub open spec fn uri_chars() -> Seq<char> {
    seq!['u', 'r', 'i']
}

/// The two-space gap between columns.
pub open spec fn two_sp() -> Seq<char> {
    seq![' ', ' ']
}

/// Cells joined by the two-space column gap.
pub open spec fn join_cells(cells: Seq<Seq<char>>) -> Seq<char>
    decreases cells.len(),
{
    if cells.len() == 0 {
        Seq::empty()
    } else if cells.len() == 1 {
        cells[0]
    } else {
        join_cells(cells.drop_last()) + two_sp() + cells.last()
    }
}

/// The text of one cell of a grid: the row's value under `key` (empty when
/// absent) formatted, truncated, and padded to the column — except that an
/// overflowing `uri` cell stands whole and unpadded.
pub open spec fn spec_cell(row: Json, key: Seq<char>, width: nat, numeric: bool) -> Seq<char> {
    let raw = match j_get(row, key) {
        Some(v) => spec_format_value(v),
        None => Seq::empty(),
    };
    let t = spec_truncate(raw, key == uri_chars(), width);
    if t.1 {
        t.0
    } else {
        spec_pad(t.0, width, numeric)
    }
}

pub open spec fn header_cells(keys: Seq<Seq<char>>, rows: Seq<Json>) -> Seq<Seq<char>> {
    Seq::new(keys.len(), |i: int| spec_pad(keys[i], col_width(rows, keys[i]), false))
}

pub open spec fn row_cells(row: Json, keys: Seq<Seq<char>>, rows: Seq<Json>) -> Seq<Seq<char>> {
    Seq::new(
        keys.len(),
        |i: int| spec_cell(row, keys[i], col_width(rows, keys[i]), col_numeric(rows, keys[i])),
    )
}

/// The data lines of a grid over `rows_sub`, with column layout taken from
/// `rows`: one line per row, ending in a line break.
pub open spec fn body_text(rows_sub: Seq<Json>, keys: Seq<Seq<char>>, rows: Seq<Json>) -> Seq<char>
    decreases rows_sub.len(),
{
    if rows_sub.len() == 0 {
        Seq::empty()
    } else {
        body_text(rows_sub.drop_last(), keys, rows) + join_cells(
            row_cells(rows_sub.last(), keys, rows),
        ) + seq!['\n']
    }
}

/// The whole grid: a header line, then one line per row.
pub open spec fn table_text(rows: Seq<Json>, keys: Seq<Seq<char>>) -> Seq<char> {
    join_cells(header_cells(keys, rows)) + seq!['\n'] + body_text(rows, keys, rows)
}

/// The lines written for a list that is not made of objects only: each
/// element formatted and truncated, one per line.
pub open spec fn prim_lines(rows: Seq<Json>) -> Seq<char>
    decreases rows.len(),
{
    if rows.len() == 0 {
        Seq::empty()
    } else {
        prim_lines(rows.drop_last()) + spec_truncate(
            spec_format_value(rows.last()),
            false,
            MAX_COL_WIDTH as nat,
        ).0 + seq!['\n']
    }
}

/// What the grid layout makes of a list: nothing for an empty list or one
/// whose objects have no keys (none left, in compact mode); plain lines for
/// a list not made of objects only; otherwise the aligned grid.
pub open spec fn spec_array_table(rows: Seq<Json>, compact: bool) -> Option<Seq<char>> {
    if rows.len() == 0 {
        None
    } else if !all_objects(rows) {
        Some(prim_lines(rows))
    } else {
        let keys0 = keys_union(rows);
        if keys0.len() == 0 {
            None
        } else {
            let keys = if compact {
                kept_keys(keys0, rows)
            } else {
                keys0
            };
            if keys.len() == 0 {
                None
            } else {
                Some(table_text(rows, keys))
            }
        }
    }
}

/// The views of a sequence of strings.
pub open spec fn strs_view(v: Seq<String>) -> Seq<Seq<char>> {
    Seq::new(v.len(), |i: int| v[i]@)
}

/// The value under `key` in an object's fields, if present.
pub(crate) fn get_field<'a>(fields: &'a Vec<(String, JsonValue)>, key: &str) -> (r: Option<&'a JsonValue>)
    ensures
        match r {
            Some(v) => obj_get(crate::json::view_fields(fields@), key@) == Some(v.view()),
            None => obj_get(crate::json::view_fields(fields@), key@) is None,
        },
{
    let ghost vf = crate::json::view_fields(fields@);
    proof {
        crate::json::lemma_view_fields(fields@);
        assert(vf.skip(0) =~= vf);
    }
    let mut i: usize = 0;
    while i < fields.len()
        invariant
            0 <= i <= fields.len(),
            vf == crate::json::view_fields(fields@),
            vf.len() == fields@.len(),
            forall|k: int| 0 <= k < fields@.len() ==> vf[k] == (fields@[k].0@, fields@[k].1.view()),
            obj_get(vf, key@) == obj_get(vf.skip(i as int), key@),
        decreases fields.len() - i,
    {
        proof {
            assert(vf.skip(i as int).first() == vf[i as int]);
            assert(vf.skip(i as int).drop_first() =~= vf.skip(i as int + 1));
        }
        if crate::text::str_eq(fields[i].0.as_str(), key) {
            return Some(&fields[i].1);
        }
        i += 1;
    }
    proof {
        assert(vf.skip(fields@.len() as int) =~= Seq::<(Seq<char>, Json)>::empty());
    }
    None
}

/// Whether one of `keys` holds the characters of `key`.
fn key_in(keys: &Vec<String>, key: &str) -> (r: bool)
    ensures
        r == strs_view(keys@).contains(key@),
{
    let mut i: usize = 0;
    while i < keys.len()
        invariant
            0 <= i <= keys.len(),
            forall|k: int| 0 <= k < i ==> keys@[k]@ != key@,
        decreases keys.len() - i,
    {
        if crate::text::str_eq(keys[i].as_str(), key) {
            proof {
                assert(strs_view(keys@)[i as int] == key@);
            }
            return true;
        }
        i += 1;
    }
    proof {
        assert forall|k: int| 0 <= k < strs_view(keys@).len() implies strs_view(keys@)[k]
            != key@ by {
            assert(strs_view(keys@)[k] == keys@[k]@);
        }
    }
    false
}

/// Whether `v` keeps its column in compact mode.
fn is_informative(v: &JsonValue) -> (r: bool)
    ensures
        r == informative(v@),
{
    match v {
        JsonValue::Null => false,
        JsonValue::Str(s) => {
            let r = !s.as_str().is_empty();
            proof {
                if s@.len() == 0 {
                    assert(s@ =~= Seq::<char>::empty());
                }
            }
            r
        },
        JsonValue::Array(a) => {
            proof {
                crate::json::lemma_view_elems(a@);
            }
            a.len() > 0
        },
        _ => true,
    }
}

/// The keys of all rows, each once, in first-occurrence order.
fn collect_keys(items: &Vec<JsonValue>) -> (keys: Vec<String>)
    requires
        all_objects(crate::json::view_elems(items@)),
    ensures
        strs_view(keys@) == keys_union(crate::json::view_elems(items@)),
{
    let ghost rows = crate::json::view_elems(items@);
    proof {
        crate::json::lemma_view_elems(items@);
    }
    let mut keys: Vec<String> = Vec::new();
    proof {
        assert(rows.skip(0) =~= rows);
        assert(strs_view(keys@) =~= Seq::<Seq<char>>::empty());
    }
    let mut i: usize = 0;
    while i < items.len()
        invariant
            0 <= i <= items.len(),
            rows == crate::json::view_elems(items@),
            rows.len() == items@.len(),
            forall|k: int| 0 <= k < items@.len() ==> rows[k] == items@[k].view(),
            all_objects(rows),
            keys_union(rows) == keys_union_from(strs_view(keys@), rows.skip(i as int)),
        decreases items.len() - i,
    {
        proof {
            assert(rows.skip(i as int).first() == rows[i as int]);
            assert(rows.skip(i as int).drop_first() =~= rows.skip(i as int + 1));
        }
        match &items[i] {
            JsonValue::Object(fields) => {
                let ghost vf = crate::json::view_fields(fields@);
                proof {
                    crate::json::lemma_view_fields(fields@);
                    assert(row_fields(rows[i as int]) == vf);
                }
                let ghost keys0 = strs_view(keys@);
                proof {
                    assert(vf.skip(0) =~= vf);
                }
                let mut j: usize = 0;
                while j < fields.len()
                    invariant
                        0 <= j <= fields.len(),
                        vf == crate::json::view_fields(fields@),
                        vf.len() == fields@.len(),
                        forall|k: int| 0 <= k < fields@.len() ==> vf[k] == (
                            fields@[k].0@,
                            fields@[k].1.view(),
                        ),
                        add_keys(keys0, vf) == add_keys(strs_view(keys@), vf.skip(j as int)),
                    decreases fields.len() - j,
                {
                    proof {
                        assert(vf.skip(j as int).first() == vf[j as int]);
                        assert(vf.skip(j as int).drop_first() =~= vf.skip(j as int + 1));
                    }
                    if !key_in(&keys, fields[j].0.as_str()) {
                        let ghost before = keys@;
                        keys.push(fields[j].0.clone());
                        proof {
                            assert(strs_view(keys@) =~= strs_view(before).push(fields@[j as int].0@));
                        }
                    }
                    j += 1;
                }
                proof {
                    assert(vf.skip(fields@.len() as int) =~= Seq::<(Seq<char>, Json)>::empty());
                }
            },
            _ => {
                proof {
                    assert(false);
                }
            },
        }
        i += 1;
    }
    proof {
        assert(rows.skip(items@.len() as int) =~= Seq::<Json>::empty());
    }
    keys
}

/// Whether some row holds an informative value under `key`.
fn column_informative(items: &Vec<JsonValue>, key: &str) -> (r: bool)
    requires
        all_objects(crate::json::view_elems(items@)),
    ensures
        r == col_informative(crate::json::view_elems(items@), key@),
{
    let ghost rows = crate::json::view_elems(items@);
    proof {
        crate::json::lemma_view_elems(items@);
    }
    let mut i: usize = 0;
    while i < items.len()
        invariant
            0 <= i <= items.len(),
            rows == crate::json::view_elems(items@),
            rows.len() == items@.len(),
            forall|k: int| 0 <= k < items@.len() ==> rows[k] == items@[k].view(),
            all_objects(rows),
            forall|k: int|
                0 <= k < i ==> !((#[trigger] j_get(rows[k], key@)) matches Some(v)
                    && informative(v)),
        decreases items.len() - i,
    {
        match &items[i] {
            JsonValue::Object(fields) => {
                proof {
                    assert(row_fields(rows[i as int]) == crate::json::view_fields(fields@));
                }
                match get_field(fields, key) {
                    Some(v) => {
                        if is_informative(v) {
                            proof {
                                assert(j_get(rows[i as int], key@) == Some(v.view()));
                                assert(col_informative(rows, key@));
                            }
                            return true;
                        }
                    },
                    None => {},
                }
            },
            _ => {
                proof {
                    assert(false);
                }
            },
        }
        i += 1;
    }
    false
}

/// The width and numeric-alignment flag of the column under `key`.
fn column_stats(items: &Vec<JsonValue>, key: &str) -> (r: (usize, bool))
    requires
        all_objects(crate::json::view_elems(items@)),
    ensures
        r.0 as nat == col_width(crate::json::view_elems(items@), key@),
        r.1 == col_numeric(crate::json::view_elems(items@), key@),
{
    let ghost rows = crate::json::view_elems(items@);
    proof {
        crate::json::lemma_view_elems(items@);
    }
    let kcs = str_to_chars(key);
    let mut w = crate::width::display_width(&kcs);
    let ghost hw = w as nat;
    let mut num = true;
    let mut i: usize = 0;
    while i < items.len()
        invariant
            0 <= i <= items.len(),
            rows == crate::json::view_elems(items@),
            rows.len() == items@.len(),
            forall|k: int| 0 <= k < items@.len() ==> rows[k] == items@[k].view(),
            all_objects(rows),
            hw == text_width(key@),
            w as nat == if hw > col_width_vals(rows.take(i as int), key@) {
                hw
            } else {
                col_width_vals(rows.take(i as int), key@)
            },
            num == forall|k: int|
                0 <= k < i ==> ((#[trigger] j_get(rows[k], key@)) matches Some(v) ==>
                spec_is_numeric(v)),
        decreases items.len() - i,
    {
        match &items[i] {
            JsonValue::Object(fields) => {
                proof {
                    assert(row_fields(rows[i as int]) == crate::json::view_fields(fields@));
                }
                match get_field(fields, key) {
                    Some(v) => {
                        let f = format_value(v);
                        let fcs = str_to_chars(f.as_str());
                        let fw = crate::width::display_width(&fcs);
                        let fw2 = if fw > MAX_COL_WIDTH {
                            MAX_COL_WIDTH
                        } else {
                            fw
                        };
                        if fw2 > w {
                            w = fw2;
                        }
                        if num && !is_numeric_value(v) {
                            num = false;
                        }
                    },
                    None => {},
                }
            },
            _ => {
                proof {
                    assert(false);
                }
            },
        }
        i += 1;
        proof {
            assert(rows.take(i as int).drop_last() =~= rows.take(i - 1));
            assert(rows.take(i as int).last() == rows[i - 1]);
        }
    }
    proof {
        assert(rows.take(items@.len() as int) =~= rows);
    }
    (w, num)
}

/// The lines written for a list not made of objects only.
fn primitive_lines(items: &Vec<JsonValue>) -> (out: Vec<char>)
    ensures
        out@ == prim_lines(crate::json::view_elems(items@)),
{
    let ghost rows = crate::json::view_elems(items@);
    proof {
        crate::json::lemma_view_elems(items@);
    }
    let mut out: Vec<char> = Vec::new();
    let mut i: usize = 0;
    while i < items.len()
        invariant
            0 <= i <= items.len(),
            rows == crate::json::view_elems(items@),
            rows.len() == items@.len(),
            forall|k: int| 0 <= k < items@.len() ==> rows[k] == items@[k].view(),
            out@ == prim_lines(rows.take(i as int)),
        decreases items.len() - i,
    {
        let f = format_value(&items[i]);
        let t = truncate_string(f.as_str(), false, MAX_COL_WIDTH);
        crate::text::append_str(&mut out, t.0.as_str());
        out.push('\n');
        i += 1;
        proof {
            assert(rows.take(i as int).drop_last() =~= rows.take(i - 1));
            assert(rows.take(i as int).last() == rows[i - 1]);
            assert(out@ =~= prim_lines(rows.take(i as int)));
        }
    }
    proof {
        assert(rows.take(items@.len() as int) =~= rows);
    }
    out
}

/// The grid text for rows under the given keys, whose widths and numeric
/// flags must be the columns' own.
#[verifier::rlimit(80)]
fn render_grid(
    items: &Vec<JsonValue>,
    keys: &Vec<String>,
    widths: &Vec<usize>,
    nums: &Vec<bool>,
) -> (out: Vec<char>)
    requires
        all_objects(crate::json::view_elems(items@)),
        keys@.len() == widths@.len(),
        keys@.len() == nums@.len(),
        keys@.len() > 0,
        forall|k: int|
            0 <= k < keys@.len() ==> widths@[k] as nat == col_width(
                crate::json::view_elems(items@),
                #[trigger] keys@[k]@,
            ),
        forall|k: int|
            0 <= k < keys@.len() ==> nums@[k] == col_numeric(
                crate::json::view_elems(items@),
                #[trigger] keys@[k]@,
            ),
    ensures
        out@ == table_text(crate::json::view_elems(items@), strs_view(keys@)),
{
    let ghost rows = crate::json::view_elems(items@);
    let ghost kv = strs_view(keys@);
    proof {
        crate::json::lemma_view_elems(items@);
    }
    let mut out: Vec<char> = Vec::new();
    let ghost hc = header_cells(kv, rows);
    let mut j: usize = 0;
    while j < keys.len()
        invariant
            0 <= j <= keys.len(),
            rows == crate::json::view_elems(items@),
            kv == strs_view(keys@),
            hc == header_cells(kv, rows),
            kv.len() == keys@.len(),
            hc.len() == keys@.len(),
            keys@.len() == widths@.len(),
            forall|k: int|
                0 <= k < keys@.len() ==> widths@[k] as nat == col_width(rows, #[trigger] keys@[k]@),
            out@ == join_cells(hc.take(j as int)),
        decreases keys.len() - j,
    {
        if j > 0 {
            out.push(' ');
            out.push(' ');
        }
        let cell = pad_cell(keys[j].as_str(), widths[j], false);
        crate::text::append_str(&mut out, cell.as_str());
        j += 1;
        proof {
            assert(hc.take(j as int).drop_last() =~= hc.take(j - 1));
            assert(hc.take(j as int).last() == hc[j - 1]);
            assert(hc[j - 1] == spec_pad(kv[j - 1], col_width(rows, kv[j - 1]), false));
            assert(out@ =~= join_cells(hc.take(j as int)));
        }
    }
    proof {
        assert(hc.take(hc.len() as int) =~= hc);
    }
    out.push('\n');
    let ghost header_part = join_cells(hc) + seq!['\n'];
    proof {
        assert(out@ =~= header_part);
        assert(body_text(rows.take(0), kv, rows) =~= Seq::<char>::empty());
    }
    let mut i: usize = 0;
    while i < items.len()
        invariant
            0 <= i <= items.len(),
            rows == crate::json::view_elems(items@),
            kv == strs_view(keys@),
            rows.len() == items@.len(),
            forall|k: int| 0 <= k < items@.len() ==> rows[k] == items@[k].view(),
            all_objects(rows),
            kv.len() == keys@.len(),
            keys@.len() == widths@.len(),
            keys@.len() == nums@.len(),
            keys@.len() > 0,
            forall|k: int|
                0 <= k < keys@.len() ==> widths@[k] as nat == col_width(rows, #[trigger] keys@[k]@),
            forall|k: int|
                0 <= k < keys@.len() ==> nums@[k] == col_numeric(rows, #[trigger] keys@[k]@),
            header_part == join_cells(header_cells(kv, rows)) + seq!['\n'],
            out@ == header_part + body_text(rows.take(i as int), kv, rows),
        decreases items.len() - i,
    {
        let ghost rc = row_cells(rows[i as int], kv, rows);
        match &items[i] {
            JsonValue::Object(fields) => {
                proof {
                    assert(row_fields(rows[i as int]) == crate::json::view_fields(fields@));
                }
                let mut j: usize = 0;
                while j < keys.len()
                    invariant
                        0 <= j <= keys.len(),
                        rows == crate::json::view_elems(items@),
                        kv == strs_view(keys@),
                        rc == row_cells(rows[i as int], kv, rows),
                        0 <= i < items@.len(),
                        rows[i as int] == items@[i as int].view(),
                        items@[i as int] matches JsonValue::Object(f) && f == *fields,
                        row_fields(rows[i as int]) == crate::json::view_fields(fields@),
                        kv.len() == keys@.len(),
                        rc.len() == keys@.len(),
                        keys@.len() == widths@.len(),
                        keys@.len() == nums@.len(),
                        forall|k: int|
                            0 <= k < keys@.len() ==> widths@[k] as nat == col_width(
                                rows,
                                #[trigger] keys@[k]@,
                            ),
                        forall|k: int|
                            0 <= k < keys@.len() ==> nums@[k] == col_numeric(
                                rows,
                                #[trigger] keys@[k]@,
                            ),
                        out@ == header_part + body_text(rows.take(i as int), kv, rows) + join_cells(
                            rc.take(j as int),
                        ),
                    decreases keys.len() - j,
                {
                    if j > 0 {
                        out.push(' ');
                        out.push(' ');
                    }
                    let raw = match get_field(fields, keys[j].as_str()) {
                        Some(v) => format_value(v),
                        None => String::new(),
                    };
                    let is_uri = crate::text::str_eq(keys[j].as_str(), "uri");
                    proof {
                        reveal_strlit("uri");
                        assert("uri"@ =~= uri_chars());
                    }
                    let t = truncate_string(raw.as_str(), is_uri, widths[j]);
                    if t.1 {
                        crate::text::append_str(&mut out, t.0.as_str());
                    } else {
                        let cell = pad_cell(t.0.as_str(), widths[j], nums[j]);
                        crate::text::append_str(&mut out, cell.as_str());
                    }
                    j += 1;
                    proof {
                        assert(rc.take(j as int).drop_last() =~= rc.take(j - 1));
                        assert(rc.take(j as int).last() == rc[j - 1]);
                        assert(rc[j - 1] == spec_cell(
                            rows[i as int],
                            kv[j - 1],
                            col_width(rows, kv[j - 1]),
                            col_numeric(rows, kv[j - 1]),
                        ));
                        assert(out@ =~= header_part + body_text(rows.take(i as int), kv, rows)
                            + join_cells(rc.take(j as int)));
                    }
                }
                proof {
                    assert(rc.take(rc.len() as int) =~= rc);
                }
            },
            _ => {
                proof {
                    assert(false);
                }
            },
        }
        out.push('\n');
        i += 1;
        proof {
            assert(rows.take(i as int).drop_last() =~= rows.take(i - 1));
            assert(rows.take(i as int).last() == rows[i - 1]);
            assert(out@ =~= header_part + body_text(rows.take(i as int), kv, rows));
        }
    }
    proof {
        assert(rows.take(rows.len() as int) =~= rows);
    }
    out
}

/// The grid layout of a list of values: `None` for an empty list or one
/// whose objects yield no columns, plain lines for a list not made of
/// objects only, and otherwise the aligned, headered grid.
pub fn format_array_to_table(items: &Vec<JsonValue>, compact: bool) -> (r: Option<String>)
    ensures
        r matches Some(t) ==> spec_array_table(crate::json::view_elems(items@), compact) == Some(
            t@,
        ),
        r is None ==> spec_array_table(crate::json::view_elems(items@), compact) is None,
{
    let ghost rows = crate::json::view_elems(items@);
    proof {
        crate::json::lemma_view_elems(items@);
    }
    if items.len() == 0 {
        return None;
    }
    // are all elements objects?
    let mut all_obj = true;
    let mut i: usize = 0;
    while i < items.len()
        invariant
            0 <= i <= items.len(),
            rows == crate::json::view_elems(items@),
            rows.len() == items@.len(),
            forall|k: int| 0 <= k < items@.len() ==> rows[k] == items@[k].view(),
            all_obj == (forall|k: int| 0 <= k < i ==> rows[k] is Object),
        decreases items.len() - i,
    {
        match &items[i] {
            JsonValue::Object(_) => {
                proof {
                    assert(rows[i as int] is Object);
                }
            },
            _ => {
                proof {
                    assert(!(rows[i as int] is Object));
                }
                all_obj = false;
            },
        }
        i += 1;
    }
    if !all_obj {
        let out = primitive_lines(items);
        return Some(chars_to_string(&out));
    }
    let keys = collect_keys(items);
    if keys.len() == 0 {
        return None;
    }
    let keys = if compact {
        let mut filtered: Vec<String> = Vec::new();
        let ghost kv = strs_view(keys@);
        proof {
            assert(strs_view(filtered@) =~= kept_keys(kv.take(0), rows));
        }
        let mut j: usize = 0;
        while j < keys.len()
            invariant
                0 <= j <= keys.len(),
                rows == crate::json::view_elems(items@),
                all_objects(rows),
                kv == strs_view(keys@),
                kv.len() == keys@.len(),
                strs_view(filtered@) == kept_keys(kv.take(j as int), rows),
            decreases keys.len() - j,
        {
            if column_informative(items, keys[j].as_str()) {
                let ghost before = filtered@;
                filtered.push(keys[j].clone());
                proof {
                    assert(strs_view(filtered@) =~= strs_view(before).push(keys@[j as int]@));
                }
            }
            j += 1;
            proof {
                assert(kv.take(j as int).drop_last() =~= kv.take(j - 1));
                assert(kv.take(j as int).last() == kv[j - 1]);
            }
        }
        proof {
            assert(kv.take(kv.len() as int) =~= kv);
        }
        filtered
    } else {
        keys
    };
    if keys.len() == 0 {
        return None;
    }
    let mut widths: Vec<usize> = Vec::new();
    let mut nums: Vec<bool> = Vec::new();
    let mut j: usize = 0;
    while j < keys.len()
        invariant
            0 <= j <= keys.len(),
            rows == crate::json::view_elems(items@),
            all_objects(rows),
            widths@.len() == j,
            nums@.len() == j,
            forall|k: int|
                0 <= k < j ==> widths@[k] as nat == col_width(rows, #[trigger] keys@[k]@),
            forall|k: int| 0 <= k < j ==> nums@[k] == col_numeric(rows, #[trigger] keys@[k]@),
        decreases keys.len() - j,
    {
        let st = column_stats(items, keys[j].as_str());
        widths.push(st.0);
        nums.push(st.1);
        j += 1;
    }
    let out = render_grid(items, &keys, &widths, &nums);
    Some(chars_to_string(&out))
}

} // verus!
