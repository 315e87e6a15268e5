//! The shape classifier and heuristic dispatcher: picks a rendering
//! strategy for a JSON value of unknown shape, in a fixed priority order,
//! and falls back to raw JSON when nothing else applies.

use vstd::prelude::*;

use crate::codec::ser;
use crate::json::{Json, JsonValue};
use crate::table::{
    all_objects, j_get, join_cells, row_fields, spec_array_table, spec_format_value, spec_pad,
    spec_truncate, two_sp, uri_chars, MAX_COL_WIDTH,
};
use crate::context::OutputFormat;
use crate::width::text_width;

verus! {

/// The singular form of a plural key: a trailing `es` or `s` stripped.
pub open spec fn singular(key: Seq<char>) -> Seq<char> {
    if key.len() >= 2 && key[key.len() - 2] == 'e' && key[key.len() - 1] == 's' {
        key.take(key.len() - 2)
    } else if key.len() >= 1 && key[key.len() - 1] == 's' {
        key.take(key.len() - 1)
    } else {
        key
    }
}

pub open spec fn name_chars() -> Seq<char> {
    seq!['n', 'a', 'm', 'e']
}

pub open spec fn is_healthy_chars() -> Seq<char> {
    seq!['i', 's', '_', 'h', 'e', 'a', 'l', 't', 'h', 'y']
}

pub open spec fn status_chars() -> Seq<char> {
    seq!['s', 't', 'a', 't', 'u', 's']
}

pub open spec fn components_chars() -> Seq<char> {
    seq!['c', 'o', 'm', 'p', 'o', 'n', 'e', 'n', 't', 's']
}

pub open spec fn errors_chars() -> Seq<char> {
    seq!['e', 'r', 'r', 'o', 'r', 's']
}

pub open spec fn type_chars() -> Seq<char> {
    seq!['t', 'y', 'p', 'e']
}

/// The word for a health flag.
pub open spec fn health_word(healthy: bool) -> Seq<char> {
    if healthy {
        seq!['h', 'e', 'a', 'l', 't', 'h', 'y']
    } else {
        seq!['u', 'n', 'h', 'e', 'a', 'l', 't', 'h', 'y']
    }
}

/// The string held by an optional value, or nothing.
pub open spec fn as_str_or_empty(o: Option<Json>) -> Seq<char> {
    match o {
        Some(Json::Str(s)) => s,
        _ => Seq::empty(),
    }
}

/// The boolean held by an optional value, or false.
pub open spec fn as_bool_or_false(o: Option<Json>) -> bool {
    match o {
        Some(Json::Bool(b)) => b,
        _ => false,
    }
}

/// Whether an object is a component status: it has the three keys `name`,
/// `is_healthy` and `status`.
pub open spec fn is_component_status(fields: Seq<(Seq<char>, Json)>) -> bool {
    &&& crate::table::obj_get(fields, name_chars()) is Some
    &&& crate::table::obj_get(fields, is_healthy_chars()) is Some
    &&& crate::table::obj_get(fields, status_chars()) is Some
}

/// Whether an object is an aggregate system status: it has the keys
/// `components` and `is_healthy`.
pub open spec fn is_system_status(fields: Seq<(Seq<char>, Json)>) -> bool {
    &&& crate::table::obj_get(fields, components_chars()) is Some
    &&& crate::table::obj_get(fields, is_healthy_chars()) is Some
}

/// The two-line summary of a component status:
/// `[<name>] (<healthy|unhealthy>)` and the status text.
pub open spec fn component_line(fields: Seq<(Seq<char>, Json)>) -> Seq<char> {
    seq!['['] + as_str_or_empty(crate::table::obj_get(fields, name_chars())) + seq![']', ' ', '(']
        + health_word(as_bool_or_false(crate::table::obj_get(fields, is_healthy_chars()))) + seq![
        ')',
        '\n',
    ] + as_str_or_empty(crate::table::obj_get(fields, status_chars()))
}

/// Parts joined by a separator.
pub open spec fn join_with(parts: Seq<Seq<char>>, sep: Seq<char>) -> Seq<char>
    decreases parts.len(),
{
    if parts.len() == 0 {
        Seq::empty()
    } else if parts.len() == 1 {
        parts[0]
    } else {
        join_with(parts.drop_last(), sep) + sep + parts.last()
    }
}

/// The string elements of a list, in order; other elements are passed over.
pub open spec fn str_elems(items: Seq<Json>) -> Seq<Seq<char>>
    decreases items.len(),
{
    if items.len() == 0 {
        Seq::empty()
    } else {
        let pre = str_elems(items.drop_last());
        match items.last() {
            Json::Str(s) => pre.push(s),
            _ => pre,
        }
    }
}

/// Whether a value is a non-empty list of objects.
pub open spec fn is_scannable_obj(j: Json) -> bool {
    j matches Json::Array(a) && a.len() > 0 && all_objects(a)
}

pub open spec fn is_primitive(j: Json) -> bool {
    j is Str || j is Number || j is Bool
}

/// Whether a value is a non-empty list of primitives.
pub open spec fn is_scannable_prim(j: Json) -> bool {
    j matches Json::Array(a) && a.len() > 0 && (forall|i: int|
        0 <= i < a.len() ==> is_primitive(#[trigger] a[i]))
}

/// The indices of an object's fields that hold a non-empty list of objects.
pub open spec fn dict_idxs(fields: Seq<(Seq<char>, Json)>) -> Seq<int>
    decreases fields.len(),
{
    if fields.len() == 0 {
        Seq::empty()
    } else {
        let pre = dict_idxs(fields.drop_last());
        if is_scannable_obj(fields.last().1) {
            pre.push(fields.len() - 1)
        } else {
            pre
        }
    }
}

/// The indices of an object's fields that hold a non-empty list of
/// primitives.
pub open spec fn prim_idxs(fields: Seq<(Seq<char>, Json)>) -> Seq<int>
    decreases fields.len(),
{
    if fields.len() == 0 {
        Seq::empty()
    } else {
        let pre = prim_idxs(fields.drop_last());
        if is_scannable_prim(fields.last().1) {
            pre.push(fields.len() - 1)
        } else {
            pre
        }
    }
}

/// `fields` with the value under `key` replaced in place, or the pair
/// appended when the key is absent.
pub open spec fn upsert(fields: Seq<(Seq<char>, Json)>, key: Seq<char>, val: Json) -> Seq<
    (Seq<char>, Json),
>
    decreases fields.len(),
{
    if fields.len() == 0 {
        seq![(key, val)]
    } else if fields.first().0 == key {
        seq![(key, val)] + fields.drop_first()
    } else {
        seq![fields.first()] + upsert(fields.drop_first(), key, val)
    }
}

/// One synthesized row per list element, under the singular form of the
/// list's key.
pub open spec fn prim_rows(key: Seq<char>, items: Seq<Json>) -> Seq<Json> {
    Seq::new(items.len(), |i: int| Json::Object(seq![(singular(key), items[i])]))
}

/// The rows of one source list, each with a `type` column holding the
/// singular form of the list's key.
pub open spec fn typed_rows(key: Seq<char>, items: Seq<Json>) -> Seq<Json> {
    Seq::new(
        items.len(),
        |i: int| Json::Object(upsert(row_fields(items[i]), type_chars(), Json::Str(singular(key)))),
    )
}

/// All list-of-object fields merged into one row set, in field order.
pub open spec fn merged_rows(fields: Seq<(Seq<char>, Json)>, dl: Seq<int>) -> Seq<Json>
    decreases dl.len(),
{
    if dl.len() == 0 {
        Seq::empty()
    } else {
        merged_rows(fields, dl.drop_last()) + typed_rows(
            fields[dl.last()].0,
            fields[dl.last()].1->Array_0,
        )
    }
}

/// The widest key of an object, capped at the truncation limit.
pub open spec fn key_width(fields: Seq<(Seq<char>, Json)>) -> nat
    decreases fields.len(),
{
    if fields.len() == 0 {
        0
    } else {
        let pre = key_width(fields.drop_last());
        let w = text_width(fields.last().0);
        let w2 = if w > MAX_COL_WIDTH as nat {
            MAX_COL_WIDTH as nat
        } else {
            w
        };
        if w2 > pre {
            w2
        } else {
            pre
        }
    }
}

/// The vertical key/value listing of a plain object: each key padded to the
/// widest key, a two-space gap, then the formatted value.
pub open spec fn kv_lines(fields: Seq<(Seq<char>, Json)>, w: nat) -> Seq<char>
    decreases fields.len(),
{
    if fields.len() == 0 {
        Seq::empty()
    } else {
        kv_lines(fields.drop_last(), w) + spec_pad(fields.last().0, w, false) + two_sp()
            + spec_truncate(
            spec_format_value(fields.last().1),
            fields.last().0 == uri_chars(),
            MAX_COL_WIDTH as nat,
        ).0 + seq!['\n']
    }
}

/// The raw-JSON fallback: single-line when compact, pretty otherwise.
pub open spec fn spec_fallback(j: Json, compact: bool) -> Seq<char> {
    if compact {
        ser(j, false, 0)
    } else {
        ser(j, true, 0)
    }
}

/// What a nested value renders to when used as a sub-table: a grid for a
/// non-empty list of objects, the component-status summary, or one of the
/// single-list and merged-list strategies; nothing otherwise.
pub open spec fn spec_value_to_table(j: Json, compact: bool) -> Option<Seq<char>> {
    match j {
        Json::Array(items) => if items.len() > 0 && all_objects(items) {
            spec_array_table(items, compact)
        } else {
            None
        },
        Json::Object(fields) => if is_component_status(fields) {
            Some(component_line(fields))
        } else {
            let dl = dict_idxs(fields);
            let pl = prim_idxs(fields);
            if dl.len() == 0 && pl.len() == 1 {
                spec_array_table(prim_rows(fields[pl[0]].0, fields[pl[0]].1->Array_0), compact)
            } else if dl.len() == 1 && pl.len() == 0 {
                spec_array_table(fields[dl[0]].1->Array_0, compact)
            } else if dl.len() > 0 {
                let merged = merged_rows(fields, dl);
                if merged.len() > 0 {
                    spec_array_table(merged, compact)
                } else {
                    None
                }
            } else {
                None
            }
        },
        _ => None,
    }
}

/// The sub-tables of an aggregate status's components, each followed by a
/// blank line.
pub open spec fn comp_lines(comps: Seq<(Seq<char>, Json)>, compact: bool) -> Seq<Seq<char>>
    decreases comps.len(),
{
    if comps.len() == 0 {
        Seq::empty()
    } else {
        let pre = comp_lines(comps.drop_last(), compact);
        match spec_value_to_table(comps.last().1, compact) {
            Some(t) => pre.push(t).push(Seq::empty()),
            None => pre,
        }
    }
}

/// The overall `[system] (<healthy|unhealthy>)` line.
pub open spec fn system_line(healthy: bool) -> Seq<char> {
    seq!['[', 's', 'y', 's', 't', 'e', 'm', ']', ' ', '('] + health_word(healthy) + seq![')']
}

/// The `Errors: <comma-joined>` line.
pub open spec fn errors_line(ss: Seq<Seq<char>>) -> Seq<char> {
    seq!['E', 'r', 'r', 'o', 'r', 's', ':', ' '] + join_with(ss, seq![',', ' '])
}

/// The text of an aggregate system status: each component rendered and
/// blank-line separated, the overall health line, and an errors line when a
/// non-empty `errors` list of strings is present.
pub open spec fn system_text(fields: Seq<(Seq<char>, Json)>, compact: bool) -> Seq<char> {
    let base = match crate::table::obj_get(fields, components_chars()) {
        Some(Json::Object(comps)) => comp_lines(comps, compact),
        _ => Seq::empty(),
    };
    let with_sys = base.push(
        system_line(as_bool_or_false(crate::table::obj_get(fields, is_healthy_chars()))),
    );
    let lines = match crate::table::obj_get(fields, errors_chars()) {
        Some(Json::Array(errs)) => {
            let ss = str_elems(errs);
            if ss.len() > 0 {
                with_sys.push(errors_line(ss))
            } else {
                with_sys
            }
        },
        _ => with_sys,
    };
    join_with(lines, seq!['\n'])
}

/// The marker written for an empty list.
pub open spec fn empty_marker() -> Seq<char> {
    seq!['(', 'e', 'm', 'p', 't', 'y', ')']
}

/// What the engine renders for a value, by the first rule that applies:
/// a string verbatim; a non-empty list as a grid and an empty list as the
/// `(empty)` marker; a component or aggregate status as its summary; an
/// object's single or merged lists as a grid; a plain object as a key/value
/// listing; anything else as raw JSON.
pub open spec fn spec_render(j: Json, compact: bool) -> Seq<char> {
    match j {
        Json::Str(s) => s,
        Json::Array(items) => if items.len() > 0 {
            match spec_array_table(items, compact) {
                Some(t) => t,
                None => spec_fallback(j, compact),
            }
        } else {
            empty_marker()
        },
        Json::Object(fields) => if fields.len() > 0 {
            spec_object_render(j, fields, compact)
        } else {
            spec_fallback(j, compact)
        },
        _ => spec_fallback(j, compact),
    }
}

/// The object rules of the dispatcher, in priority order: the two status
/// shapes, the single-list and merged-list grids, the plain key/value
/// listing, and last the raw-JSON fallback.
pub open spec fn spec_object_render(j: Json, fields: Seq<(Seq<char>, Json)>, compact: bool) -> Seq<
    char,
> {
    if is_component_status(fields) {
        component_line(fields)
    } else if is_system_status(fields) {
        system_text(fields, compact)
    } else {
        let dl = dict_idxs(fields);
        let pl = prim_idxs(fields);
        if dl.len() == 0 && pl.len() == 1 && spec_array_table(
            prim_rows(fields[pl[0]].0, fields[pl[0]].1->Array_0),
            compact,
        ) is Some {
            spec_array_table(prim_rows(fields[pl[0]].0, fields[pl[0]].1->Array_0), compact)->0
        } else if dl.len() == 1 && pl.len() == 0 && spec_array_table(
            fields[dl[0]].1->Array_0,
            compact,
        ) is Some {
            spec_array_table(fields[dl[0]].1->Array_0, compact)->0
        } else if dl.len() > 0 && merged_rows(fields, dl).len() > 0 && spec_array_table(
            merged_rows(fields, dl),
            compact,
        ) is Some {
            spec_array_table(merged_rows(fields, dl), compact)->0
        } else if dl.len() == 0 && pl.len() == 0 {
            kv_lines(fields, key_width(fields))
        } else {
            spec_fallback(j, compact)
        }
    }
}

/// A deep copy of a JSON value.
pub fn clone_value(v: &JsonValue) -> (r: JsonValue)
    ensures
        r.view() == v.view(),
    decreases *v,
{
    match v {
        JsonValue::Null => JsonValue::Null,
        JsonValue::Bool(b) => JsonValue::Bool(*b),
        JsonValue::Number(s) => JsonValue::Number(s.clone()),
        JsonValue::Str(s) => JsonValue::Str(s.clone()),
        JsonValue::Array(items) => {
            let mut out: Vec<JsonValue> = Vec::new();
            let mut i: usize = 0;
            while i < items.len()
                invariant
                    0 <= i <= items.len(),
                    *v == JsonValue::Array(*items),
                    out@.len() == i,
                    forall|k: int| 0 <= k < i ==> out@[k].view() == items@[k].view(),
                decreases items.len() - i,
            {
                proof {
                    assert(decreases_to!(*v => v->Array_0));
                    assert(decreases_to!(v->Array_0 => v->Array_0@));
                    assert(decreases_to!(v->Array_0@ => v->Array_0@[i as int]));
                    assert(decreases_to!(*v => items@[i as int]));
                }
                out.push(clone_value(&items[i]));
                i += 1;
            }
            proof {
                crate::json::lemma_view_elems(out@);
                crate::json::lemma_view_elems(items@);
                assert(crate::json::view_elems(out@) =~= crate::json::view_elems(items@));
            }
            JsonValue::Array(out)
        },
        JsonValue::Object(fields) => {
            let mut out: Vec<(String, JsonValue)> = Vec::new();
            let mut i: usize = 0;
            while i < fields.len()
                invariant
                    0 <= i <= fields.len(),
                    *v == JsonValue::Object(*fields),
                    out@.len() == i,
                    forall|k: int|
                        0 <= k < i ==> out@[k].0@ == fields@[k].0@ && out@[k].1.view()
                            == fields@[k].1.view(),
                decreases fields.len() - i,
            {
                proof {
                    assert(decreases_to!(*v => v->Object_0));
                    assert(decreases_to!(v->Object_0 => v->Object_0@));
                    assert(decreases_to!(v->Object_0@ => v->Object_0@[i as int]));
                    assert(decreases_to!(fields@[i as int] => fields@[i as int].1));
                    assert(decreases_to!(*v => fields@[i as int].1));
                }
                out.push((fields[i].0.clone(), clone_value(&fields[i].1)));
                i += 1;
            }
            proof {
                crate::json::lemma_view_fields(out@);
                crate::json::lemma_view_fields(fields@);
                assert(crate::json::view_fields(out@) =~= crate::json::view_fields(fields@));
            }
            JsonValue::Object(out)
        },
    }
}

/// The singular form of a plural key.
fn singular_string(key: &str) -> (r: String)
    ensures
        r@ == singular(key@),
{
    let cs = crate::text::str_to_chars(key);
    let n = cs.len();
    let keep: usize = if n >= 2 && cs[n - 2] == 'e' && cs[n - 1] == 's' {
        n - 2
    } else if n >= 1 && cs[n - 1] == 's' {
        n - 1
    } else {
        n
    };
    let mut out: Vec<char> = Vec::new();
    let mut i: usize = 0;
    while i < keep
        invariant
            0 <= i <= keep <= cs@.len(),
            cs@ == key@,
            out@ == key@.take(i as int),
        decreases keep - i,
    {
        out.push(cs[i]);
        i += 1;
        proof {
            assert(out@ =~= key@.take(i as int));
        }
    }
    proof {
        if keep == cs@.len() {
            assert(key@.take(keep as int) =~= key@);
        }
    }
    crate::text::chars_to_string(&out)
}

/// `fields` copied, with the value under `key` replaced in place or the
/// pair appended when the key is absent.
fn with_field(fields: &Vec<(String, JsonValue)>, key: &str, val: &JsonValue) -> (r: Vec<
    (String, JsonValue),
>)
    ensures
        crate::json::view_fields(r@) == upsert(
            crate::json::view_fields(fields@),
            key@,
            val.view(),
        ),
{
    let ghost vf = crate::json::view_fields(fields@);
    proof {
        crate::json::lemma_view_fields(fields@);
        assert(vf.skip(0) =~= vf);
    }
    let mut out: Vec<(String, JsonValue)> = Vec::new();
    let mut found = false;
    let mut i: usize = 0;
    while i < fields.len()
        invariant
            0 <= i <= fields.len(),
            vf == crate::json::view_fields(fields@),
            vf.len() == fields@.len(),
            forall|k: int| 0 <= k < fields@.len() ==> vf[k] == (fields@[k].0@, fields@[k].1.view()),
            upsert(vf, key@, val.view()) == crate::json::view_fields(out@) + (if found {
                vf.skip(i as int)
            } else {
                upsert(vf.skip(i as int), key@, val.view())
            }),
        decreases fields.len() - i,
    {
        let ghost before = out@;
        proof {
            assert(vf.skip(i as int).first() == vf[i as int]);
            assert(vf.skip(i as int).drop_first() =~= vf.skip(i as int + 1));
        }
        if !found && crate::text::str_eq(fields[i].0.as_str(), key) {
            out.push((key.to_owned(), clone_value(val)));
            found = true;
            proof {
                crate::json::lemma_view_fields(out@);
                crate::json::lemma_view_fields(before);
                assert(crate::json::view_fields(out@) =~= crate::json::view_fields(before).push(
                    (key@, val.view()),
                ));
                assert(crate::json::view_fields(before) + (seq![(key@, val.view())] + vf.skip(
                    i as int + 1,
                )) =~= crate::json::view_fields(out@) + vf.skip(i as int + 1));
            }
        } else {
            out.push((fields[i].0.clone(), clone_value(&fields[i].1)));
            proof {
                crate::json::lemma_view_fields(out@);
                crate::json::lemma_view_fields(before);
                assert(crate::json::view_fields(out@) =~= crate::json::view_fields(before).push(
                    vf[i as int],
                ));
                if found {
                    assert(crate::json::view_fields(before) + vf.skip(i as int)
                        =~= crate::json::view_fields(out@) + vf.skip(i as int + 1));
                } else {
                    assert(crate::json::view_fields(before) + (seq![vf[i as int]] + upsert(
                        vf.skip(i as int + 1),
                        key@,
                        val.view(),
                    )) =~= crate::json::view_fields(out@) + upsert(
                        vf.skip(i as int + 1),
                        key@,
                        val.view(),
                    ));
                }
            }
        }
        i += 1;
    }
    proof {
        assert(vf.skip(vf.len() as int) =~= Seq::<(Seq<char>, Json)>::empty());
    }
    if !found {
        let ghost before = out@;
        out.push((key.to_owned(), clone_value(val)));
        proof {
            crate::json::lemma_view_fields(out@);
            crate::json::lemma_view_fields(before);
            assert(crate::json::view_fields(out@) =~= crate::json::view_fields(before).push(
                (key@, val.view()),
            ));
            assert(crate::json::view_fields(before) + seq![(key@, val.view())]
                =~= crate::json::view_fields(out@));
        }
    } else {
        proof {
            assert(crate::json::view_fields(out@) + Seq::<(Seq<char>, Json)>::empty()
                =~= crate::json::view_fields(out@));
        }
    }
    out
}

/// Every index that `dict_idxs` yields points into `fields`, at a
/// non-empty list of objects.
pub proof fn lemma_dict_idxs(fields: Seq<(Seq<char>, Json)>)
    ensures
        forall|k: int|
            0 <= k < dict_idxs(fields).len() ==> 0 <= #[trigger] dict_idxs(fields)[k]
                < fields.len() && is_scannable_obj(fields[dict_idxs(fields)[k]].1),
    decreases fields.len(),
{
    if fields.len() > 0 {
        lemma_dict_idxs(fields.drop_last());
        let pre = dict_idxs(fields.drop_last());
        assert forall|k: int|
            0 <= k < dict_idxs(fields).len() implies 0 <= #[trigger] dict_idxs(fields)[k]
            < fields.len() && is_scannable_obj(fields[dict_idxs(fields)[k]].1) by {
            if k < pre.len() {
                assert(dict_idxs(fields)[k] == pre[k]);
                assert(fields.drop_last()[pre[k]] == fields[pre[k]]);
            } else {
                assert(dict_idxs(fields)[k] == fields.len() - 1);
            }
        }
    }
}

/// Whether a value is, at the machine level, a non-empty array of objects.
fn check_scannable_obj(v: &JsonValue) -> (r: bool)
    ensures
        r == is_scannable_obj(v@),
{
    match v {
        JsonValue::Array(arr) => {
            let ghost ve = crate::json::view_elems(arr@);
            proof {
                crate::json::lemma_view_elems(arr@);
            }
            if arr.len() == 0 {
                return false;
            }
            let mut j: usize = 0;
            while j < arr.len()
                invariant
                    0 <= j <= arr.len(),
                    v@ == Json::Array(ve),
                    ve.len() > 0,
                    ve == crate::json::view_elems(arr@),
                    ve.len() == arr@.len(),
                    forall|k: int| 0 <= k < arr@.len() ==> ve[k] == arr@[k].view(),
                    forall|k: int| 0 <= k < j ==> ve[k] is Object,
                decreases arr.len() - j,
            {
                match &arr[j] {
                    JsonValue::Object(_) => {
                        proof {
                            assert(ve[j as int] is Object);
                        }
                    },
                    _ => {
                        proof {
                            assert(!(ve[j as int] is Object));
                            assert(!all_objects(ve));
                        }
                        return false;
                    },
                }
                j += 1;
            }
            true
        },
        _ => false,
    }
}

/// Whether a value is, at the machine level, a non-empty array of
/// primitives (strings, numbers, booleans).
fn check_scannable_prim(v: &JsonValue) -> (r: bool)
    ensures
        r == is_scannable_prim(v@),
{
    match v {
        JsonValue::Array(arr) => {
            let ghost ve = crate::json::view_elems(arr@);
            proof {
                crate::json::lemma_view_elems(arr@);
            }
            if arr.len() == 0 {
                return false;
            }
            let mut j: usize = 0;
            while j < arr.len()
                invariant
                    0 <= j <= arr.len(),
                    v@ == Json::Array(ve),
                    ve.len() > 0,
                    ve == crate::json::view_elems(arr@),
                    ve.len() == arr@.len(),
                    forall|k: int| 0 <= k < arr@.len() ==> ve[k] == arr@[k].view(),
                    forall|k: int| 0 <= k < j ==> is_primitive(#[trigger] ve[k]),
                decreases arr.len() - j,
            {
                match &arr[j] {
                    JsonValue::Str(_) => {
                        proof {
                            assert(is_primitive(ve[j as int]));
                        }
                    },
                    JsonValue::Number(_) => {
                        proof {
                            assert(is_primitive(ve[j as int]));
                        }
                    },
                    JsonValue::Bool(_) => {
                        proof {
                            assert(is_primitive(ve[j as int]));
                        }
                    },
                    _ => {
                        proof {
                            assert(!is_primitive(ve[j as int]));
                            assert(!is_scannable_prim(v@)) by {
                                if is_scannable_prim(v@) {
                                    assert(v@->Array_0 == ve);
                                    assert(is_primitive(ve[j as int]));
                                }
                            }
                        }
                        return false;
                    },
                }
                j += 1;
            }
            true
        },
        _ => false,
    }
}

/// The field indices that hold a non-empty list of objects, and those that
/// hold a non-empty list of primitives.
fn scan_lists(fields: &Vec<(String, JsonValue)>) -> (r: (Vec<usize>, Vec<usize>))
    ensures
        r.0@.len() == dict_idxs(crate::json::view_fields(fields@)).len(),
        forall|k: int|
            0 <= k < r.0@.len() ==> r.0@[k] as int == dict_idxs(crate::json::view_fields(fields@))[k],
        r.1@.len() == prim_idxs(crate::json::view_fields(fields@)).len(),
        forall|k: int|
            0 <= k < r.1@.len() ==> r.1@[k] as int == prim_idxs(crate::json::view_fields(fields@))[k],
{
    let ghost vf = crate::json::view_fields(fields@);
    proof {
        crate::json::lemma_view_fields(fields@);
    }
    let mut dl: Vec<usize> = Vec::new();
    let mut pl: Vec<usize> = Vec::new();
    let mut i: usize = 0;
    while i < fields.len()
        invariant
            0 <= i <= fields.len(),
            vf == crate::json::view_fields(fields@),
            vf.len() == fields@.len(),
            forall|k: int| 0 <= k < fields@.len() ==> vf[k] == (fields@[k].0@, fields@[k].1.view()),
            dl@.len() == dict_idxs(vf.take(i as int)).len(),
            forall|k: int|
                0 <= k < dl@.len() ==> dl@[k] as int == dict_idxs(vf.take(i as int))[k],
            pl@.len() == prim_idxs(vf.take(i as int)).len(),
            forall|k: int|
                0 <= k < pl@.len() ==> pl@[k] as int == prim_idxs(vf.take(i as int))[k],
        decreases fields.len() - i,
    {
        if check_scannable_obj(&fields[i].1) {
            proof {
                assert(!is_scannable_prim(vf[i as int].1)) by {
                    if is_scannable_prim(vf[i as int].1) {
                        let a = vf[i as int].1->Array_0;
                        assert(a[0] is Object);
                        assert(is_primitive(a[0]));
                    }
                }
            }
            dl.push(i);
        } else if check_scannable_prim(&fields[i].1) {
            pl.push(i);
        }
        i += 1;
        proof {
            assert(vf.take(i as int).drop_last() =~= vf.take(i - 1));
            assert(vf.take(i as int).last() == vf[i - 1]);
        }
    }
    proof {
        assert(vf.take(vf.len() as int) =~= vf);
    }
    (dl, pl)
}

/// One row per element of a primitive list, under the singular form of the
/// list's key.
fn build_prim_rows(key: &str, items: &Vec<JsonValue>) -> (rows: Vec<JsonValue>)
    ensures
        crate::json::view_elems(rows@) == prim_rows(key@, crate::json::view_elems(items@)),
{
    let ghost ve = crate::json::view_elems(items@);
    proof {
        crate::json::lemma_view_elems(items@);
    }
    let sing = singular_string(key);
    let mut rows: Vec<JsonValue> = Vec::new();
    let mut i: usize = 0;
    while i < items.len()
        invariant
            0 <= i <= items.len(),
            ve == crate::json::view_elems(items@),
            ve.len() == items@.len(),
            forall|k: int| 0 <= k < items@.len() ==> ve[k] == items@[k].view(),
            sing@ == singular(key@),
            rows@.len() == i,
            forall|k: int| 0 <= k < i ==> rows@[k].view() == prim_rows(key@, ve)[k],
        decreases items.len() - i,
    {
        let mut f: Vec<(String, JsonValue)> = Vec::new();
        f.push((sing.clone(), clone_value(&items[i])));
        proof {
            crate::json::lemma_view_fields(f@);
            assert(crate::json::view_fields(f@) =~= seq![(singular(key@), ve[i as int])]);
        }
        rows.push(JsonValue::Object(f));
        i += 1;
    }
    proof {
        crate::json::lemma_view_elems(rows@);
        assert(crate::json::view_elems(rows@) =~= prim_rows(key@, ve));
    }
    rows
}

/// All list-of-object fields merged into one row set, a `type` column
/// injected into each row.
fn build_merged(fields: &Vec<(String, JsonValue)>, dl: &Vec<usize>) -> (rows: Vec<JsonValue>)
    requires
        dl@.len() == dict_idxs(crate::json::view_fields(fields@)).len(),
        forall|k: int|
            0 <= k < dl@.len() ==> dl@[k] as int == dict_idxs(crate::json::view_fields(fields@))[k],
    ensures
        crate::json::view_elems(rows@) == merged_rows(
            crate::json::view_fields(fields@),
            dict_idxs(crate::json::view_fields(fields@)),
        ),
{
    let ghost vf = crate::json::view_fields(fields@);
    let ghost didx = dict_idxs(vf);
    proof {
        crate::json::lemma_view_fields(fields@);
        lemma_dict_idxs(vf);
        assert(merged_rows(vf, didx.take(0)) =~= Seq::<Json>::empty());
    }
    let mut rows: Vec<JsonValue> = Vec::new();
    let mut t: usize = 0;
    while t < dl.len()
        invariant
            0 <= t <= dl@.len(),
            vf == crate::json::view_fields(fields@),
            didx == dict_idxs(vf),
            vf.len() == fields@.len(),
            forall|k: int| 0 <= k < fields@.len() ==> vf[k] == (fields@[k].0@, fields@[k].1.view()),
            dl@.len() == didx.len(),
            forall|k: int| 0 <= k < dl@.len() ==> dl@[k] as int == didx[k],
            forall|k: int|
                0 <= k < didx.len() ==> 0 <= #[trigger] didx[k] < vf.len() && is_scannable_obj(
                    vf[didx[k]].1,
                ),
            crate::json::view_elems(rows@) == merged_rows(vf, didx.take(t as int)),
        decreases dl@.len() - t,
    {
        let idx = dl[t];
        proof {
            assert(idx as int == didx[t as int]);
            assert(0 <= didx[t as int] < vf.len());
            assert(is_scannable_obj(vf[idx as int].1));
        }
        let sing = singular_string(fields[idx].0.as_str());
        match &fields[idx].1 {
            JsonValue::Array(arr) => {
                let ghost ve = crate::json::view_elems(arr@);
                let ghost trows = typed_rows(fields@[idx as int].0@, ve);
                proof {
                    crate::json::lemma_view_elems(arr@);
                    assert(vf[idx as int].1 == Json::Array(ve));
                    assert(vf[idx as int].1->Array_0 == ve);
                    assert(trows.take(0) =~= Seq::<Json>::empty());
                }
                let mut j: usize = 0;
                while j < arr.len()
                    invariant
                        0 <= j <= arr.len(),
                        0 <= t < didx.len(),
                        vf == crate::json::view_fields(fields@),
                        vf.len() == fields@.len(),
                        0 <= idx < fields@.len(),
                        idx as int == didx[t as int],
                        vf[idx as int] == (fields@[idx as int].0@, fields@[idx as int].1.view()),
                        vf[idx as int].1 == Json::Array(ve),
                        is_scannable_obj(vf[idx as int].1),
                        ve == crate::json::view_elems(arr@),
                        trows == typed_rows(fields@[idx as int].0@, ve),
                        ve.len() == arr@.len(),
                        trows.len() == ve.len(),
                        forall|k: int| 0 <= k < arr@.len() ==> ve[k] == arr@[k].view(),
                        sing@ == singular(fields@[idx as int].0@),
                        crate::json::view_elems(rows@) == merged_rows(vf, didx.take(t as int))
                            + trows.take(j as int),
                    decreases arr.len() - j,
                {
                    proof {
                        assert(vf[idx as int].1 matches Json::Array(a) && all_objects(a));
                        assert(ve[j as int] is Object);
                    }
                    match &arr[j] {
                        JsonValue::Object(item_fields) => {
                            proof {
                                reveal_strlit("type");
                                assert("type"@ =~= type_chars());
                                assert(row_fields(ve[j as int]) == crate::json::view_fields(
                                    item_fields@,
                                ));
                            }
                            let tv = JsonValue::Str(sing.clone());
                            let nf = with_field(item_fields, "type", &tv);
                            let ghost before = rows@;
                            rows.push(JsonValue::Object(nf));
                            j += 1;
                            proof {
                                crate::json::lemma_view_elems(rows@);
                                crate::json::lemma_view_elems(before);
                                let lhs = crate::json::view_elems(rows@);
                                let rhs = merged_rows(vf, didx.take(t as int)) + trows.take(
                                    j as int,
                                );
                                let pre = merged_rows(vf, didx.take(t as int)) + trows.take(j - 1);
                                assert(trows[j - 1] == Json::Object(
                                    upsert(
                                        row_fields(ve[j - 1]),
                                        type_chars(),
                                        Json::Str(singular(fields@[idx as int].0@)),
                                    ),
                                ));
                                assert(lhs.len() == rhs.len());
                                assert(lhs[lhs.len() - 1] == Json::Object(
                                    crate::json::view_fields(nf@),
                                ));
                                assert(crate::json::view_fields(nf@) == upsert(
                                    row_fields(ve[j - 1]),
                                    type_chars(),
                                    Json::Str(singular(fields@[idx as int].0@)),
                                ));
                                assert(lhs[lhs.len() - 1] == rhs[rhs.len() - 1]);
                                assert forall|k: int| 0 <= k < lhs.len() - 1 implies lhs[k]
                                    == rhs[k] by {
                                    assert(lhs[k] == before[k].view());
                                    assert(crate::json::view_elems(before)[k] == pre[k]);
                                }
                                assert(crate::json::view_elems(rows@) =~= merged_rows(
                                    vf,
                                    didx.take(t as int),
                                ) + trows.take(j as int));
                            }
                        },
                        _ => {
                            proof {
                                assert(ve[j as int] is Object);
                                assert(false);
                            }
                            j += 1;
                        },
                    }
                }
                proof {
                    assert(trows.take(trows.len() as int) =~= trows);
                }
            },
            _ => {
                proof {
                    assert(vf[idx as int].1 is Array);
                    assert(false);
                }
            },
        }
        t += 1;
        proof {
            assert(didx.take(t as int).drop_last() =~= didx.take(t - 1));
            assert(didx.take(t as int).last() == didx[t - 1]);
        }
    }
    proof {
        assert(didx.take(didx.len() as int) =~= didx);
    }
    rows
}

/// The vertical key/value listing of a plain object.
fn kv_listing(fields: &Vec<(String, JsonValue)>) -> (r: String)
    ensures
        r@ == kv_lines(
            crate::json::view_fields(fields@),
            key_width(crate::json::view_fields(fields@)),
        ),
{
    let ghost vf = crate::json::view_fields(fields@);
    proof {
        crate::json::lemma_view_fields(fields@);
    }
    let mut w: usize = 0;
    let mut i: usize = 0;
    while i < fields.len()
        invariant
            0 <= i <= fields.len(),
            vf == crate::json::view_fields(fields@),
            vf.len() == fields@.len(),
            forall|k: int| 0 <= k < fields@.len() ==> vf[k] == (fields@[k].0@, fields@[k].1.view()),
            w as nat == key_width(vf.take(i as int)),
        decreases fields.len() - i,
    {
        let kcs = crate::text::str_to_chars(fields[i].0.as_str());
        let kw = crate::width::display_width(&kcs);
        let kw2 = if kw > crate::table::MAX_COL_WIDTH {
            crate::table::MAX_COL_WIDTH
        } else {
            kw
        };
        if kw2 > w {
            w = kw2;
        }
        i += 1;
        proof {
            assert(vf.take(i as int).drop_last() =~= vf.take(i - 1));
            assert(vf.take(i as int).last() == vf[i - 1]);
        }
    }
    proof {
        assert(vf.take(vf.len() as int) =~= vf);
    }
    let mut out: Vec<char> = Vec::new();
    let mut i: usize = 0;
    while i < fields.len()
        invariant
            0 <= i <= fields.len(),
            vf == crate::json::view_fields(fields@),
            vf.len() == fields@.len(),
            forall|k: int| 0 <= k < fields@.len() ==> vf[k] == (fields@[k].0@, fields@[k].1.view()),
            w as nat == key_width(vf),
            out@ == kv_lines(vf.take(i as int), w as nat),
        decreases fields.len() - i,
    {
        let padded = crate::table::pad_cell(fields[i].0.as_str(), w, false);
        crate::text::append_str(&mut out, padded.as_str());
        out.push(' ');
        out.push(' ');
        let is_uri = crate::text::str_eq(fields[i].0.as_str(), "uri");
        proof {
            reveal_strlit("uri");
            assert("uri"@ =~= uri_chars());
        }
        let fv = crate::table::format_value(&fields[i].1);
        let tr = crate::table::truncate_string(fv.as_str(), is_uri, crate::table::MAX_COL_WIDTH);
        crate::text::append_str(&mut out, tr.0.as_str());
        out.push('\n');
        i += 1;
        proof {
            assert(vf.take(i as int).drop_last() =~= vf.take(i - 1));
            assert(vf.take(i as int).last() == vf[i - 1]);
            assert(out@ =~= kv_lines(vf.take(i as int), w as nat));
        }
    }
    proof {
        assert(vf.take(vf.len() as int) =~= vf);
    }
    crate::text::chars_to_string(&out)
}

/// The string under `key`, or the empty string when the key is absent or
/// holds something else.
fn field_str_or_empty(fields: &Vec<(String, JsonValue)>, key: &str) -> (r: String)
    ensures
        r@ == as_str_or_empty(crate::table::obj_get(crate::json::view_fields(fields@), key@)),
{
    match crate::table::get_field(fields, key) {
        Some(v) => match v {
            JsonValue::Str(s) => s.clone(),
            _ => String::new(),
        },
        None => String::new(),
    }
}

/// The boolean under `key`, or false when the key is absent or holds
/// something else.
fn field_bool_or_false(fields: &Vec<(String, JsonValue)>, key: &str) -> (r: bool)
    ensures
        r == as_bool_or_false(crate::table::obj_get(crate::json::view_fields(fields@), key@)),
{
    match crate::table::get_field(fields, key) {
        Some(v) => match v {
            JsonValue::Bool(b) => *b,
            _ => false,
        },
        None => false,
    }
}

/// Whether the object has a field under `key`.
fn has_field(fields: &Vec<(String, JsonValue)>, key: &str) -> (r: bool)
    ensures
        r == (crate::table::obj_get(crate::json::view_fields(fields@), key@) is Some),
{
    match crate::table::get_field(fields, key) {
        Some(_) => true,
        None => false,
    }
}

/// Appends the word for a health flag.
fn push_health_word(out: &mut Vec<char>, healthy: bool)
    ensures
        final(out)@ == old(out)@ + health_word(healthy),
{
    if healthy {
        out.push('h');
        out.push('e');
        out.push('a');
        out.push('l');
        out.push('t');
        out.push('h');
        out.push('y');
    } else {
        out.push('u');
        out.push('n');
        out.push('h');
        out.push('e');
        out.push('a');
        out.push('l');
        out.push('t');
        out.push('h');
        out.push('y');
    }
    proof {
        assert(out@ =~= old(out)@ + health_word(healthy));
    }
}

/// The two-line component status summary.
fn build_component_line(fields: &Vec<(String, JsonValue)>) -> (r: String)
    ensures
        r@ == component_line(crate::json::view_fields(fields@)),
{
    let ghost vf = crate::json::view_fields(fields@);
    proof {
        reveal_strlit("name");
        reveal_strlit("is_healthy");
        reveal_strlit("status");
        assert("name"@ =~= name_chars());
        assert("is_healthy"@ =~= is_healthy_chars());
        assert("status"@ =~= status_chars());
    }
    let name = field_str_or_empty(fields, "name");
    let healthy = field_bool_or_false(fields, "is_healthy");
    let status = field_str_or_empty(fields, "status");
    let mut out: Vec<char> = Vec::new();
    out.push('[');
    crate::text::append_str(&mut out, name.as_str());
    out.push(']');
    out.push(' ');
    out.push('(');
    push_health_word(&mut out, healthy);
    out.push(')');
    out.push('\n');
    crate::text::append_str(&mut out, status.as_str());
    proof {
        assert(out@ =~= component_line(vf));
    }
    crate::text::chars_to_string(&out)
}

/// What a nested value renders to when used as a sub-table.
pub fn value_to_table(v: &JsonValue, compact: bool) -> (r: Option<String>)
    ensures
        r matches Some(t) ==> spec_value_to_table(v@, compact) == Some(t@),
        r is None ==> spec_value_to_table(v@, compact) is None,
{
    match v {
        JsonValue::Array(items) => {
            if items.len() > 0 && check_all_objects(items) {
                crate::table::format_array_to_table(items, compact)
            } else {
                proof {
                    crate::json::lemma_view_elems(items@);
                }
                None
            }
        },
        JsonValue::Object(fields) => {
            let ghost vf = crate::json::view_fields(fields@);
            proof {
                reveal_strlit("name");
                reveal_strlit("is_healthy");
                reveal_strlit("status");
                assert("name"@ =~= name_chars());
                assert("is_healthy"@ =~= is_healthy_chars());
                assert("status"@ =~= status_chars());
            }
            if has_field(fields, "name") && has_field(fields, "is_healthy") && has_field(
                fields,
                "status",
            ) {
                return Some(build_component_line(fields));
            }
            let (dl, pl) = scan_lists(fields);
            if dl.len() == 0 && pl.len() == 1 {
                let idx = pl[0];
                proof {
                    crate::json::lemma_view_fields(fields@);
                    lemma_prim_idxs(vf);
                    assert(idx as int == prim_idxs(vf)[0]);
                    assert(0 <= prim_idxs(vf)[0] < vf.len());
                    assert(is_scannable_prim(vf[idx as int].1));
                    assert(vf[idx as int] == (fields@[idx as int].0@, fields@[idx as int].1.view()));
                }
                match &fields[idx].1 {
                    JsonValue::Array(arr) => {
                        proof {
                            crate::json::lemma_view_fields(fields@);
                            crate::json::lemma_view_elems(arr@);
                            assert(vf[idx as int].1->Array_0 == crate::json::view_elems(arr@));
                            assert(vf[idx as int].0 == fields@[idx as int].0@);
                        }
                        let rows = build_prim_rows(fields[idx].0.as_str(), arr);
                        crate::table::format_array_to_table(&rows, compact)
                    },
                    _ => {
                        proof {
                            assert(is_scannable_prim(vf[idx as int].1));
                            assert(false);
                        }
                        None
                    },
                }
            } else if dl.len() == 1 && pl.len() == 0 {
                let idx = dl[0];
                proof {
                    crate::json::lemma_view_fields(fields@);
                    lemma_dict_idxs(vf);
                    assert(idx as int == dict_idxs(vf)[0]);
                    assert(0 <= dict_idxs(vf)[0] < vf.len());
                    assert(is_scannable_obj(vf[idx as int].1));
                    assert(vf[idx as int] == (fields@[idx as int].0@, fields@[idx as int].1.view()));
                }
                match &fields[idx].1 {
                    JsonValue::Array(arr) => {
                        proof {
                            crate::json::lemma_view_fields(fields@);
                            crate::json::lemma_view_elems(arr@);
                            assert(vf[idx as int].1->Array_0 == crate::json::view_elems(arr@));
                        }
                        crate::table::format_array_to_table(arr, compact)
                    },
                    _ => {
                        proof {
                            assert(is_scannable_obj(vf[idx as int].1));
                            assert(false);
                        }
                        None
                    },
                }
            } else if dl.len() > 0 {
                let merged = build_merged(fields, &dl);
                if merged.len() > 0 {
                    proof {
                        crate::json::lemma_view_elems(merged@);
                    }
                    crate::table::format_array_to_table(&merged, compact)
                } else {
                    proof {
                        crate::json::lemma_view_elems(merged@);
                        assert(crate::json::view_elems(merged@) =~= Seq::<Json>::empty());
                    }
                    None
                }
            } else {
                None
            }
        },
        _ => None,
    }
}

/// Every index that `prim_idxs` yields points into `fields`, at a
/// non-empty list of primitives.
pub proof fn lemma_prim_idxs(fields: Seq<(Seq<char>, Json)>)
    ensures
        forall|k: int|
            0 <= k < prim_idxs(fields).len() ==> 0 <= #[trigger] prim_idxs(fields)[k]
                < fields.len() && is_scannable_prim(fields[prim_idxs(fields)[k]].1),
    decreases fields.len(),
{
    if fields.len() > 0 {
        lemma_prim_idxs(fields.drop_last());
        let pre = prim_idxs(fields.drop_last());
        assert forall|k: int|
            0 <= k < prim_idxs(fields).len() implies 0 <= #[trigger] prim_idxs(fields)[k]
            < fields.len() && is_scannable_prim(fields[prim_idxs(fields)[k]].1) by {
            if k < pre.len() {
                assert(prim_idxs(fields)[k] == pre[k]);
                assert(fields.drop_last()[pre[k]] == fields[pre[k]]);
            } else {
                assert(prim_idxs(fields)[k] == fields.len() - 1);
            }
        }
    }
}

/// Whether every element of the list is an object.
fn check_all_objects(items: &Vec<JsonValue>) -> (r: bool)
    ensures
        r == all_objects(crate::json::view_elems(items@)),
{
    let ghost ve = crate::json::view_elems(items@);
    proof {
        crate::json::lemma_view_elems(items@);
    }
    let mut i: usize = 0;
    while i < items.len()
        invariant
            0 <= i <= items.len(),
            ve == crate::json::view_elems(items@),
            ve.len() == items@.len(),
            forall|k: int| 0 <= k < items@.len() ==> ve[k] == items@[k].view(),
            forall|k: int| 0 <= k < i ==> ve[k] is Object,
        decreases items.len() - i,
    {
        match &items[i] {
            JsonValue::Object(_) => {
                proof {
                    assert(ve[i as int] is Object);
                }
            },
            _ => {
                proof {
                    assert(!(ve[i as int] is Object));
                    assert(!all_objects(ve));
                }
                return false;
            },
        }
        i += 1;
    }
    true
}

/// The text of an aggregate system status.
#[verifier::rlimit(60)]
fn build_system_text(fields: &Vec<(String, JsonValue)>, compact: bool) -> (r: String)
    ensures
        r@ == system_text(crate::json::view_fields(fields@), compact),
{
    let ghost vf = crate::json::view_fields(fields@);
    proof {
        reveal_strlit("components");
        reveal_strlit("is_healthy");
        reveal_strlit("errors");
        assert("components"@ =~= components_chars());
        assert("is_healthy"@ =~= is_healthy_chars());
        assert("errors"@ =~= errors_chars());
    }
    let mut lines: Vec<String> = Vec::new();
    match crate::table::get_field(fields, "components") {
        Some(cv) => {
            match cv {
                JsonValue::Object(comps) => {
                    let ghost cf = crate::json::view_fields(comps@);
                    proof {
                        crate::json::lemma_view_fields(comps@);
                        assert(crate::table::strs_view(lines@) =~= comp_lines(
                            cf.take(0),
                            compact,
                        ));
                    }
                    let mut k: usize = 0;
                    while k < comps.len()
                        invariant
                            0 <= k <= comps.len(),
                            cf == crate::json::view_fields(comps@),
                            cf.len() == comps@.len(),
                            forall|x: int|
                                0 <= x < comps@.len() ==> cf[x] == (
                                    comps@[x].0@,
                                    comps@[x].1.view(),
                                ),
                            crate::table::strs_view(lines@) == comp_lines(
                                cf.take(k as int),
                                compact,
                            ),
                        decreases comps.len() - k,
                    {
                        let ghost before = lines@;
                        match value_to_table(&comps[k].1, compact) {
                            Some(t) => {
                                lines.push(t);
                                lines.push(String::new());
                                proof {
                                    assert(crate::table::strs_view(lines@)
                                        =~= crate::table::strs_view(before).push(
                                        lines@[lines@.len() - 2]@,
                                    ).push(Seq::<char>::empty()));
                                }
                            },
                            None => {},
                        }
                        k += 1;
                        proof {
                            assert(cf.take(k as int).drop_last() =~= cf.take(k - 1));
                            assert(cf.take(k as int).last() == cf[k - 1]);
                        }
                    }
                    proof {
                        assert(cf.take(cf.len() as int) =~= cf);
                    }
                },
                _ => {
                    proof {
                        assert(crate::table::strs_view(lines@) =~= Seq::<Seq<char>>::empty());
                    }
                },
            }
        },
        None => {
            proof {
                assert(crate::table::strs_view(lines@) =~= Seq::<Seq<char>>::empty());
            }
        },
    }
    let ghost base = crate::table::strs_view(lines@);
    let healthy = field_bool_or_false(fields, "is_healthy");
    let mut sys: Vec<char> = Vec::new();
    sys.push('[');
    sys.push('s');
    sys.push('y');
    sys.push('s');
    sys.push('t');
    sys.push('e');
    sys.push('m');
    sys.push(']');
    sys.push(' ');
    sys.push('(');
    push_health_word(&mut sys, healthy);
    sys.push(')');
    proof {
        assert(sys@ =~= system_line(healthy));
    }
    let ghost before_sys = lines@;
    lines.push(crate::text::chars_to_string(&sys));
    proof {
        assert(crate::table::strs_view(lines@) =~= crate::table::strs_view(before_sys).push(
            system_line(healthy),
        ));
    }
    match crate::table::get_field(fields, "errors") {
        Some(ev) => {
            match ev {
                JsonValue::Array(errs) => {
                    let ghost ee = crate::json::view_elems(errs@);
                    proof {
                        crate::json::lemma_view_elems(errs@);
                    }
                    let mut strs: Vec<String> = Vec::new();
                    proof {
                        assert(crate::table::strs_view(strs@) =~= str_elems(ee.take(0)));
                    }
                    let mut k: usize = 0;
                    while k < errs.len()
                        invariant
                            0 <= k <= errs.len(),
                            ee == crate::json::view_elems(errs@),
                            ee.len() == errs@.len(),
                            forall|x: int| 0 <= x < errs@.len() ==> ee[x] == errs@[x].view(),
                            crate::table::strs_view(strs@) == str_elems(ee.take(k as int)),
                        decreases errs.len() - k,
                    {
                        let ghost before = strs@;
                        match &errs[k] {
                            JsonValue::Str(s) => {
                                strs.push(s.clone());
                                proof {
                                    assert(crate::table::strs_view(strs@)
                                        =~= crate::table::strs_view(before).push(s@));
                                }
                            },
                            _ => {
                                proof {
                                    assert(!(ee[k as int] is Str));
                                }
                            },
                        }
                        k += 1;
                        proof {
                            assert(ee.take(k as int).drop_last() =~= ee.take(k - 1));
                            assert(ee.take(k as int).last() == ee[k - 1]);
                        }
                    }
                    proof {
                        assert(ee.take(ee.len() as int) =~= ee);
                    }
                    if strs.len() > 0 {
                        let ghost ss = crate::table::strs_view(strs@);
                        let mut el: Vec<char> = Vec::new();
                        el.push('E');
                        el.push('r');
                        el.push('r');
                        el.push('o');
                        el.push('r');
                        el.push('s');
                        el.push(':');
                        el.push(' ');
                        let ghost prefix = el@;
                        let mut k: usize = 0;
                        while k < strs.len()
                            invariant
                                0 <= k <= strs.len(),
                                ss == crate::table::strs_view(strs@),
                                ss.len() == strs@.len(),
                                forall|x: int| 0 <= x < strs@.len() ==> ss[x] == strs@[x]@,
                                prefix == seq!['E', 'r', 'r', 'o', 'r', 's', ':', ' '],
                                el@ == prefix + join_with(ss.take(k as int), seq![',', ' ']),
                            decreases strs.len() - k,
                        {
                            if k > 0 {
                                el.push(',');
                                el.push(' ');
                            }
                            crate::text::append_str(&mut el, strs[k].as_str());
                            k += 1;
                            proof {
                                assert(ss.take(k as int).drop_last() =~= ss.take(k - 1));
                                assert(ss.take(k as int).last() == ss[k - 1]);
                                assert(el@ =~= prefix + join_with(
                                    ss.take(k as int),
                                    seq![',', ' '],
                                ));
                            }
                        }
                        proof {
                            assert(ss.take(ss.len() as int) =~= ss);
                        }
                        let ghost before = lines@;
                        lines.push(crate::text::chars_to_string(&el));
                        proof {
                            assert(crate::table::strs_view(lines@) =~= crate::table::strs_view(
                                before,
                            ).push(errors_line(ss)));
                        }
                    }
                },
                _ => {},
            }
        },
        None => {},
    }
    // join the lines with line breaks
    let ghost lv = crate::table::strs_view(lines@);
    let mut out: Vec<char> = Vec::new();
    proof {
        assert(out@ =~= join_with(lv.take(0), seq!['\n']));
    }
    let mut k: usize = 0;
    while k < lines.len()
        invariant
            0 <= k <= lines.len(),
            lv == crate::table::strs_view(lines@),
            lv.len() == lines@.len(),
            forall|x: int| 0 <= x < lines@.len() ==> lv[x] == lines@[x]@,
            out@ == join_with(lv.take(k as int), seq!['\n']),
        decreases lines.len() - k,
    {
        if k > 0 {
            out.push('\n');
        }
        crate::text::append_str(&mut out, lines[k].as_str());
        k += 1;
        proof {
            assert(lv.take(k as int).drop_last() =~= lv.take(k - 1));
            assert(lv.take(k as int).last() == lv[k - 1]);
            assert(out@ =~= join_with(lv.take(k as int), seq!['\n']));
        }
    }
    proof {
        assert(lv.take(lv.len() as int) =~= lv);
    }
    crate::text::chars_to_string(&out)
}

/// The raw-JSON fallback text.
fn fallback_string(v: &JsonValue, compact: bool) -> (r: String)
    ensures
        r@ == spec_fallback(v@, compact),
{
    if compact {
        crate::codec::to_json_string(v)
    } else {
        crate::codec::to_json_string_pretty(v)
    }
}

/// The object rules of the dispatcher, in priority order.
fn object_render(v: &JsonValue, fields: &Vec<(String, JsonValue)>, compact: bool) -> (r: String)
    requires
        v@ == Json::Object(crate::json::view_fields(fields@)),
    ensures
        r@ == spec_object_render(v@, crate::json::view_fields(fields@), compact),
{
    let ghost vf = crate::json::view_fields(fields@);
    proof {
        reveal_strlit("name");
        reveal_strlit("is_healthy");
        reveal_strlit("status");
        reveal_strlit("components");
        assert("name"@ =~= name_chars());
        assert("is_healthy"@ =~= is_healthy_chars());
        assert("status"@ =~= status_chars());
        assert("components"@ =~= components_chars());
    }
    if has_field(fields, "name") && has_field(fields, "is_healthy") && has_field(
        fields,
        "status",
    ) {
        return build_component_line(fields);
    }
    if has_field(fields, "components") && has_field(fields, "is_healthy") {
        return build_system_text(fields, compact);
    }
    let (dl, pl) = scan_lists(fields);
    if dl.len() == 0 && pl.len() == 1 {
        let idx = pl[0];
        proof {
            crate::json::lemma_view_fields(fields@);
            lemma_prim_idxs(vf);
            assert(idx as int == prim_idxs(vf)[0]);
            assert(0 <= prim_idxs(vf)[0] < vf.len());
            assert(is_scannable_prim(vf[idx as int].1));
            assert(vf[idx as int] == (fields@[idx as int].0@, fields@[idx as int].1.view()));
        }
        match &fields[idx].1 {
            JsonValue::Array(arr) => {
                proof {
                    crate::json::lemma_view_elems(arr@);
                    assert(vf[idx as int].1->Array_0 == crate::json::view_elems(arr@));
                }
                let rows = build_prim_rows(fields[idx].0.as_str(), arr);
                match crate::table::format_array_to_table(&rows, compact) {
                    Some(t) => {
                        return t;
                    },
                    None => {},
                }
            },
            _ => {
                proof {
                    assert(false);
                }
            },
        }
    }
    if dl.len() == 1 && pl.len() == 0 {
        let idx = dl[0];
        proof {
            crate::json::lemma_view_fields(fields@);
            lemma_dict_idxs(vf);
            assert(idx as int == dict_idxs(vf)[0]);
            assert(0 <= dict_idxs(vf)[0] < vf.len());
            assert(is_scannable_obj(vf[idx as int].1));
            assert(vf[idx as int] == (fields@[idx as int].0@, fields@[idx as int].1.view()));
        }
        match &fields[idx].1 {
            JsonValue::Array(arr) => {
                proof {
                    crate::json::lemma_view_elems(arr@);
                    assert(vf[idx as int].1->Array_0 == crate::json::view_elems(arr@));
                }
                match crate::table::format_array_to_table(arr, compact) {
                    Some(t) => {
                        return t;
                    },
                    None => {},
                }
            },
            _ => {
                proof {
                    assert(false);
                }
            },
        }
    }
    if dl.len() > 0 {
        let merged = build_merged(fields, &dl);
        proof {
            crate::json::lemma_view_elems(merged@);
        }
        if merged.len() > 0 {
            match crate::table::format_array_to_table(&merged, compact) {
                Some(t) => {
                    return t;
                },
                None => {},
            }
        } else {
            proof {
                assert(crate::json::view_elems(merged@) =~= Seq::<Json>::empty());
            }
        }
    }
    if dl.len() == 0 && pl.len() == 0 {
        return kv_listing(fields);
    }
    fallback_string(v, compact)
}

/// The text a successful result is reported with: in JSON mode, the
/// compact `{"ok":true,"result":…}` envelope or the pretty-printed value;
/// in table mode, the rendering engine's text.
pub open spec fn spec_render_success(j: Json, format: OutputFormat, compact: bool) -> Seq<char> {
    if format is Json {
        if compact {
            ser(Json::Object(seq![("ok"@, Json::Bool(true)), ("result"@, j)]), false, 0)
        } else {
            ser(j, true, 0)
        }
    } else {
        spec_render(j, compact)
    }
}

/// The text a successful result is reported with.
pub fn render_success(value: &JsonValue, format: OutputFormat, compact: bool) -> (r: String)
    ensures
        r@ == spec_render_success(value.view(), format, compact),
{
    match format {
        OutputFormat::Json => {
            if compact {
                let mut fields: Vec<(String, JsonValue)> = Vec::new();
                fields.push(("ok".to_owned(), JsonValue::Bool(true)));
                fields.push(("result".to_owned(), clone_value(value)));
                let envelope = JsonValue::Object(fields);
                proof {
                    crate::json::lemma_view_fields(fields@);
                    assert(envelope.view() matches Json::Object(f) && f =~= seq![
                        ("ok"@, Json::Bool(true)),
                        ("result"@, value.view()),
                    ]);
                }
                crate::codec::to_json_string(&envelope)
            } else {
                crate::codec::to_json_string_pretty(value)
            }
        },
        OutputFormat::Table => render(value, compact),
    }
}

/// The text an error is reported with: in compact JSON mode, the
/// `{"error":{"code":…,"message":…},"ok":false}` envelope; otherwise the
/// line `ERROR[<code>]: <message>`.
pub open spec fn spec_render_error(
    code: Seq<char>,
    message: Seq<char>,
    format: OutputFormat,
    compact: bool,
) -> Seq<char> {
    if format is Json && compact {
        ser(
            Json::Object(
                seq![
                    (
                        "error"@,
                        Json::Object(
                            seq![("code"@, Json::Str(code)), ("message"@, Json::Str(message))],
                        ),
                    ),
                    ("ok"@, Json::Bool(false)),
                ],
            ),
            false,
            0,
        )
    } else {
        "ERROR["@ + code + "]: "@ + message
    }
}

/// The text an error is reported with.
pub fn render_error(code: &str, message: &str, format: OutputFormat, compact: bool) -> (r: String)
    ensures
        r@ == spec_render_error(code@, message@, format, compact),
{
    let json_mode = match format {
        OutputFormat::Json => true,
        OutputFormat::Table => false,
    };
    if json_mode && compact {
        let mut inner: Vec<(String, JsonValue)> = Vec::new();
        inner.push(("code".to_owned(), JsonValue::Str(code.to_owned())));
        inner.push(("message".to_owned(), JsonValue::Str(message.to_owned())));
        proof {
            crate::json::lemma_view_fields(inner@);
            assert(crate::json::view_fields(inner@) =~= seq![
                ("code"@, Json::Str(code@)),
                ("message"@, Json::Str(message@)),
            ]);
        }
        let mut fields: Vec<(String, JsonValue)> = Vec::new();
        fields.push(("error".to_owned(), JsonValue::Object(inner)));
        fields.push(("ok".to_owned(), JsonValue::Bool(false)));
        let envelope = JsonValue::Object(fields);
        proof {
            crate::json::lemma_view_fields(fields@);
            assert(envelope.view() matches Json::Object(f) && f =~= seq![
                (
                    "error"@,
                    Json::Object(
                        seq![("code"@, Json::Str(code@)), ("message"@, Json::Str(message@))],
                    ),
                ),
                ("ok"@, Json::Bool(false)),
            ]);
        }
        crate::codec::to_json_string(&envelope)
    } else {
        let mut out: Vec<char> = Vec::new();
        crate::text::append_str(&mut out, "ERROR[");
        crate::text::append_str(&mut out, code);
        crate::text::append_str(&mut out, "]: ");
        crate::text::append_str(&mut out, message);
        chars_to_string_out(out)
    }
}

fn chars_to_string_out(v: Vec<char>) -> (s: String)
    ensures
        s@ == v@,
{
    crate::text::chars_to_string(&v)
}

/// What the engine renders for a value, by the first rule that applies: a
/// string verbatim; a non-empty list as a grid and an empty list as the
/// `(empty)` marker; a component or aggregate status as its summary; an
/// object's single or merged lists as a grid; a plain object as a key/value
/// listing; anything else as raw JSON, pretty-printed unless `compact`.
pub fn render(value: &JsonValue, compact: bool) -> (r: String)
    ensures
        r@ == spec_render(value@, compact),
{
    match value {
        JsonValue::Str(s) => s.clone(),
        JsonValue::Array(items) => {
            proof {
                crate::json::lemma_view_elems(items@);
            }
            if items.len() > 0 {
                match crate::table::format_array_to_table(items, compact) {
                    Some(t) => t,
                    None => fallback_string(value, compact),
                }
            } else {
                let mut out: Vec<char> = Vec::new();
                out.push('(');
                out.push('e');
                out.push('m');
                out.push('p');
                out.push('t');
                out.push('y');
                out.push(')');
                proof {
                    assert(out@ =~= empty_marker());
                }
                crate::text::chars_to_string(&out)
            }
        },
        JsonValue::Object(fields) => {
            proof {
                crate::json::lemma_view_fields(fields@);
            }
            if fields.len() > 0 {
                object_render(value, fields, compact)
            } else {
                fallback_string(value, compact)
            }
        },
        _ => fallback_string(value, compact),
    }
}

} // verus!
