//! Properties of the layout engine that hold for every input: the line
//! structure of a grid, the `uri` column's exemption from truncation, and
//! the compact-mode column drop.

use vstd::prelude::*;

use crate::json::Json;
use crate::table::{
    all_objects, col_informative, col_width, col_width_vals, header_cells, j_get, join_cells,
    kept_keys, keys_union, row_cells, spec_array_table, spec_cell, spec_format_value, spec_pad,
    spec_truncate, table_text, trunc_prefix, uri_chars, MAX_COL_WIDTH,
};
use crate::width::text_width;

verus! {

/// How often `c` occurs in `s`.
pub open spec fn count_char(s: Seq<char>, c: char) -> nat
    decreases s.len(),
{
    if s.len() == 0 {
        0
    } else {
        count_char(s.drop_last(), c) + (if s.last() == c {
            1nat
        } else {
            0nat
        })
    }
}

pub open spec fn has_nl(s: Seq<char>) -> bool {
    exists|i: int| 0 <= i < s.len() && s[i] == '\n'
}

pub proof fn lemma_count_concat(a: Seq<char>, b: Seq<char>, c: char)
    ensures
        count_char(a + b, c) == count_char(a, c) + count_char(b, c),
    decreases b.len(),
{
    if b.len() == 0 {
        assert(a + b =~= a);
    } else {
        lemma_count_concat(a, b.drop_last(), c);
        assert((a + b).drop_last() =~= a + b.drop_last());
    }
}

pub proof fn lemma_no_nl_count(s: Seq<char>)
    requires
        !has_nl(s),
    ensures
        count_char(s, '\n') == 0,
    decreases s.len(),
{
    if s.len() > 0 {
        assert(!has_nl(s.drop_last())) by {
            if has_nl(s.drop_last()) {
                let i = choose|i: int| 0 <= i < s.drop_last().len() && s.drop_last()[i] == '\n';
                assert(s[i] == '\n');
            }
        }
        lemma_no_nl_count(s.drop_last());
    }
}

/// The raw text of the cell under `key` in `row`: the formatted value, or
/// nothing when the row lacks the key.
pub open spec fn cell_raw(row: Json, key: Seq<char>) -> Seq<char> {
    match j_get(row, key) {
        Some(v) => spec_format_value(v),
        None => Seq::empty(),
    }
}

/// A truncated prefix holds only characters of the original text.
proof fn lemma_trunc_prefix_no_nl(s: Seq<char>, i: int, cur: nat)
    requires
        !has_nl(s),
    ensures
        !has_nl(trunc_prefix(s, i, cur)),
    decreases s.len() - i,
{
    if 0 <= i < s.len() && cur + crate::width::char_display_width(s[i]) <= MAX_COL_WIDTH - 3 {
        lemma_trunc_prefix_no_nl(s, i + 1, (cur + crate::width::char_display_width(s[i])) as nat);
        let t = trunc_prefix(s, i, cur);
        assert(!has_nl(t)) by {
            if has_nl(t) {
                let k = choose|k: int| 0 <= k < t.len() && t[k] == '\n';
                if k == 0 {
                    assert(s[i] == '\n');
                } else {
                    assert(trunc_prefix(
                        s,
                        i + 1,
                        (cur + crate::width::char_display_width(s[i])) as nat,
                    )[k - 1] == '\n');
                }
            }
        }
    }
}

/// Neither truncation nor padding introduces a line break.
proof fn lemma_cell_no_nl(row: Json, key: Seq<char>, width: nat, numeric: bool)
    requires
        !has_nl(key),
        !has_nl(cell_raw(row, key)),
    ensures
        !has_nl(spec_cell(row, key, width, numeric)),
{
    let raw = cell_raw(row, key);
    let t = spec_truncate(raw, key == uri_chars(), width);
    assert(!has_nl(t.0)) by {
        if !(key == uri_chars()) && text_width(raw) > MAX_COL_WIDTH as nat {
            lemma_trunc_prefix_no_nl(raw, 0, 0);
            let u = trunc_prefix(raw, 0, 0) + seq!['.', '.', '.'];
            if has_nl(u) {
                let k = choose|k: int| 0 <= k < u.len() && u[k] == '\n';
                if k < trunc_prefix(raw, 0, 0).len() {
                    assert(trunc_prefix(raw, 0, 0)[k] == '\n');
                }
            }
        }
    }
    if !t.1 {
        let p = spec_pad(t.0, width, numeric);
        assert(!has_nl(p)) by {
            if has_nl(p) {
                let k = choose|k: int| 0 <= k < p.len() && p[k] == '\n';
                assert(p[k] == '\n');
            }
        }
    }
}

/// A join of cells free of line breaks is free of line breaks.
proof fn lemma_join_no_nl(cells: Seq<Seq<char>>)
    requires
        forall|k: int| 0 <= k < cells.len() ==> !has_nl(#[trigger] cells[k]),
    ensures
        !has_nl(join_cells(cells)),
    decreases cells.len(),
{
    if cells.len() > 1 {
        lemma_join_no_nl(cells.drop_last());
        let j = join_cells(cells);
        if has_nl(j) {
            let k = choose|k: int| 0 <= k < j.len() && j[k] == '\n';
            let pre = join_cells(cells.drop_last());
            if k < pre.len() {
                assert(pre[k] == '\n');
            } else if k >= pre.len() + 2 {
                assert(cells.last()[k - pre.len() - 2] == '\n');
            } else {
                assert(j[k] == ' ');
            }
        }
    }
}

/// The keys a grid lays out: the first-seen union of the rows' keys, after
/// the compact-mode drop when `compact` is set.
pub open spec fn used_keys(rows: Seq<Json>, compact: bool) -> Seq<Seq<char>> {
    if compact {
        kept_keys(keys_union(rows), rows)
    } else {
        keys_union(rows)
    }
}

/// Every line-break hypothesis the line-count law needs: no used key and no
/// cell text holds a line break.
pub open spec fn grid_single_line_cells(rows: Seq<Json>, compact: bool) -> bool {
    let keys = used_keys(rows, compact);
    &&& forall|k: int| 0 <= k < keys.len() ==> !has_nl(#[trigger] keys[k])
    &&& forall|i: int, k: int|
        0 <= i < rows.len() && 0 <= k < keys.len() ==> !has_nl(
            cell_raw(#[trigger] rows[i], #[trigger] keys[k]),
        )
}

proof fn lemma_count_single(c: char)
    ensures
        count_char(seq![c], c) == 1,
{
    assert(seq![c].drop_last() =~= Seq::<char>::empty());
    assert(count_char(Seq::<char>::empty(), c) == 0);
    assert(seq![c].last() == c);
}

/// The data lines of a grid hold one line break per row.
proof fn lemma_body_count(rows_sub: Seq<Json>, keys: Seq<Seq<char>>, rows: Seq<Json>)
    requires
        forall|k: int| 0 <= k < keys.len() ==> !has_nl(#[trigger] keys[k]),
        forall|i: int, k: int|
            0 <= i < rows_sub.len() && 0 <= k < keys.len() ==> !has_nl(
                cell_raw(#[trigger] rows_sub[i], #[trigger] keys[k]),
            ),
    ensures
        count_char(crate::table::body_text(rows_sub, keys, rows), '\n') == rows_sub.len(),
    decreases rows_sub.len(),
{
    if rows_sub.len() > 0 {
        lemma_body_count(rows_sub.drop_last(), keys, rows);
        let row = rows_sub.last();
        let rc = row_cells(row, keys, rows);
        assert forall|k: int| 0 <= k < rc.len() implies !has_nl(#[trigger] rc[k]) by {
            lemma_cell_no_nl(row, keys[k], col_width(rows, keys[k]), crate::table::col_numeric(
                rows,
                keys[k],
            ));
        }
        lemma_join_no_nl(rc);
        lemma_no_nl_count(join_cells(rc));
        let pre = crate::table::body_text(rows_sub.drop_last(), keys, rows);
        lemma_count_concat(pre, join_cells(rc), '\n');
        lemma_count_concat(pre + join_cells(rc), seq!['\n'], '\n');
        lemma_count_single('\n');
    }
}

/// The line structure of a grid: for a non-empty list of objects that the
/// layout accepts, whose keys and cell texts hold no line break of their
/// own, the output holds exactly one line per row and one for the header,
/// and every line is the join of exactly one cell per column.
pub proof fn lemma_grid_lines(rows: Seq<Json>, compact: bool)
    requires
        rows.len() > 0,
        all_objects(rows),
        spec_array_table(rows, compact) is Some,
        grid_single_line_cells(rows, compact),
    ensures
        spec_array_table(rows, compact) == Some(table_text(rows, used_keys(rows, compact))),
        count_char(table_text(rows, used_keys(rows, compact)), '\n') == rows.len() + 1,
        header_cells(used_keys(rows, compact), rows).len() == used_keys(rows, compact).len(),
        forall|i: int|
            0 <= i < rows.len() ==> row_cells(#[trigger] rows[i], used_keys(rows, compact), rows).len()
                == used_keys(rows, compact).len(),
{
    let keys = used_keys(rows, compact);
    let hc = header_cells(keys, rows);
    assert forall|k: int| 0 <= k < hc.len() implies !has_nl(#[trigger] hc[k]) by {
        let key = keys[k];
        let p = spec_pad(key, col_width(rows, key), false);
        if has_nl(p) {
            let x = choose|x: int| 0 <= x < p.len() && p[x] == '\n';
            assert(p[x] == '\n');
        }
    }
    lemma_join_no_nl(hc);
    lemma_no_nl_count(join_cells(hc));
    lemma_body_count(rows, keys, rows);
    lemma_count_concat(join_cells(hc), seq!['\n'], '\n');
    lemma_count_concat(
        join_cells(hc) + seq!['\n'],
        crate::table::body_text(rows, keys, rows),
        '\n',
    );
    lemma_count_single('\n');
    assert((join_cells(hc) + seq!['\n']) + crate::table::body_text(rows, keys, rows)
        =~= table_text(rows, keys));
}

/// The `uri` exception: a `uri` cell whose text is wider than its column
/// stands in the output whole — not truncated, not padded — whatever the
/// compact flag or the column's alignment.
pub proof fn lemma_uri_cell_never_cut(row: Json, width: nat, numeric: bool)
    requires
        text_width(cell_raw(row, uri_chars())) > width,
    ensures
        spec_cell(row, uri_chars(), width, numeric) == cell_raw(row, uri_chars()),
{
}

/// A `uri` cell that does fit is padded like any other, but never cut: in
/// both cases the cell holds the full text.
pub proof fn lemma_uri_cell_whole(row: Json, width: nat, numeric: bool)
    ensures
        spec_cell(row, uri_chars(), width, numeric) == (if text_width(
            cell_raw(row, uri_chars()),
        ) > width {
            cell_raw(row, uri_chars())
        } else {
            spec_pad(cell_raw(row, uri_chars()), width, numeric)
        }),
{
}

/// Compact-mode keys are drawn from the given keys and are informative.
proof fn lemma_kept_keys_informative(keys: Seq<Seq<char>>, rows: Seq<Json>, key: Seq<char>)
    requires
        !col_informative(rows, key),
    ensures
        !kept_keys(keys, rows).contains(key),
    decreases keys.len(),
{
    if keys.len() > 0 {
        lemma_kept_keys_informative(keys.drop_last(), rows, key);
        let kk = kept_keys(keys, rows);
        if kk.contains(key) {
            let i = choose|i: int| 0 <= i < kk.len() && kk[i] == key;
            let pre = kept_keys(keys.drop_last(), rows);
            if i < pre.len() {
                assert(pre.contains(key));
            }
        }
    }
}

/// The compact column drop: when every row's value under `key` is null,
/// the empty string, or an empty list — or the key is absent — compact
/// mode lays out no column for `key`, so the header is built without it.
pub proof fn lemma_compact_drops_empty_column(rows: Seq<Json>, key: Seq<char>)
    requires
        forall|i: int|
            0 <= i < rows.len() ==> ((#[trigger] j_get(rows[i], key)) matches Some(v)
                ==> !crate::table::informative(v)),
    ensures
        !used_keys(rows, true).contains(key),
{
    assert(!col_informative(rows, key));
    lemma_kept_keys_informative(keys_union(rows), rows, key);
}

/// A column is never narrower than its header.
pub proof fn lemma_column_width_holds_header(rows: Seq<Json>, key: Seq<char>)
    ensures
        col_width(rows, key) >= text_width(key),
{
}

} // verus!
