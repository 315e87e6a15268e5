//! JSON text: serialization of [`JsonValue`] in compact and pretty form.
//!
//! The compact form writes no whitespace at all; the pretty form indents by
//! two spaces per nesting level and puts every array element and object
//! field on a line of its own, with `": "` after object keys.

use vstd::prelude::*;

use crate::json::{Json, JsonValue};
use crate::text::chars_to_string;

verus! {

/// The hexadecimal digit for `n`, in lower case.
pub open spec fn hex_digit(n: nat) -> char {
    if n == 0 { '0' }
    else if n == 1 { '1' }
    else if n == 2 { '2' }
    else if n == 3 { '3' }
    else if n == 4 { '4' }
    else if n == 5 { '5' }
    else if n == 6 { '6' }
    else if n == 7 { '7' }
    else if n == 8 { '8' }
    else if n == 9 { '9' }
    else if n == 10 { 'a' }
    else if n == 11 { 'b' }
    else if n == 12 { 'c' }
    else if n == 13 { 'd' }
    else if n == 14 { 'e' }
    else { 'f' }
}

fn hex_char(n: u32) -> (c: char)
    requires
        n < 16,
    ensures
        c == hex_digit(n as nat),
{
    match n {
        0 => '0',
        1 => '1',
        2 => '2',
        3 => '3',
        4 => '4',
        5 => '5',
        6 => '6',
        7 => '7',
        8 => '8',
        9 => '9',
        10 => 'a',
        11 => 'b',
        12 => 'c',
        13 => 'd',
        14 => 'e',
        _ => 'f',
    }
}

/// How a character appears inside a JSON string literal: quote and
/// backslash get a backslash escape, control characters get their short
/// escape or a `\u00xx` escape, and every other character stands as is.
pub open spec fn esc_char(c: char) -> Seq<char> {
    if c == '"' {
        seq!['\\', '"']
    } else if c == '\\' {
        seq!['\\', '\\']
    } else if c == '\u{8}' {
        seq!['\\', 'b']
    } else if c == '\t' {
        seq!['\\', 't']
    } else if c == '\n' {
        seq!['\\', 'n']
    } else if c == '\u{c}' {
        seq!['\\', 'f']
    } else if c == '\r' {
        seq!['\\', 'r']
    } else if (c as u32) < 0x20 {
        seq!['\\', 'u', '0', '0', hex_digit((c as u32 / 16) as nat), hex_digit(
            (c as u32 % 16) as nat,
        )]
    } else {
        seq![c]
    }
}

/// The body of a JSON string literal for `s`: each character escaped.
pub open spec fn esc_string(s: Seq<char>) -> Seq<char>
    decreases s.len(),
{
    if s.len() == 0 {
        Seq::empty()
    } else {
        esc_string(s.drop_last()) + esc_char(s.last())
    }
}

/// The JSON string literal for `s`, quotes included.
pub open spec fn quoted(s: Seq<char>) -> Seq<char> {
    seq!['"'] + esc_string(s) + seq!['"']
}

/// The indentation of a pretty-printed line at nesting depth `ind`.
pub open spec fn indent_chars(ind: nat) -> Seq<char> {
    Seq::new(2 * ind, |i: int| ' ')
}

/// What stands before an array element or object field: in pretty form a
/// line break and the element's indentation, in compact form just the comma
/// between consecutive elements.
pub open spec fn elem_sep(pretty: bool, ind: nat, first: bool) -> Seq<char> {
    if pretty {
        (if first {
            seq!['\n']
        } else {
            seq![',', '\n']
        }) + indent_chars(ind)
    } else {
        if first {
            Seq::empty()
        } else {
            seq![',']
        }
    }
}

/// What stands before a closing bracket of a non-empty array or object.
pub open spec fn close_sep(pretty: bool, ind: nat) -> Seq<char> {
    if pretty {
        seq!['\n'] + indent_chars(ind)
    } else {
        Seq::empty()
    }
}

/// The colon after an object key.
pub open spec fn colon_sep(pretty: bool) -> Seq<char> {
    if pretty {
        seq![':', ' ']
    } else {
        seq![':']
    }
}

/// The serialized text of a JSON value at nesting depth `ind`.
pub open spec fn ser(j: Json, pretty: bool, ind: nat) -> Seq<char>
    decreases j, 1int,
{
    match j {
        Json::Null => seq!['n', 'u', 'l', 'l'],
        Json::Bool(b) => if b {
            seq!['t', 'r', 'u', 'e']
        } else {
            seq!['f', 'a', 'l', 's', 'e']
        },
        Json::Number(s) => s,
        Json::Str(s) => quoted(s),
        Json::Array(items) => if items.len() == 0 {
            seq!['[', ']']
        } else {
            seq!['['] + ser_elems(items, pretty, (ind + 1) as nat, true) + close_sep(pretty, ind)
                + seq![']']
        },
        Json::Object(fields) => if fields.len() == 0 {
            seq!['{', '}']
        } else {
            seq!['{'] + ser_fields(fields, pretty, (ind + 1) as nat, true) + close_sep(pretty, ind)
                + seq!['}']
        },
    }
}

/// The serialized elements of an array, separators included; `first` says
/// whether the first of `items` is the first element of its array.
pub open spec fn ser_elems(items: Seq<Json>, pretty: bool, ind: nat, first: bool) -> Seq<char>
    decreases items, 0int,
{
    if items.len() == 0 {
        Seq::empty()
    } else {
        ser_elems(items.drop_last(), pretty, ind, first) + elem_sep(
            pretty,
            ind,
            first && items.len() == 1,
        ) + ser(items.last(), pretty, ind)
    }
}

/// The serialized fields of an object, separators included; `first` says
/// whether the first of `fields` is the first field of its object.
pub open spec fn ser_fields(
    fields: Seq<(Seq<char>, Json)>,
    pretty: bool,
    ind: nat,
    first: bool,
) -> Seq<char>
    decreases fields, 0int,
{
    if fields.len() == 0 {
        Seq::empty()
    } else {
        ser_fields(fields.drop_last(), pretty, ind, first) + elem_sep(
            pretty,
            ind,
            first && fields.len() == 1,
        ) + quoted(fields.last().0) + colon_sep(pretty) + ser(fields.last().1, pretty, ind)
    }
}

/// Appends the escaped form of the characters of `s` to `out`.
fn escape_into(s: &str, out: &mut Vec<char>)
    ensures
        final(out)@ == old(out)@ + esc_string(s@),
{
    let cs = crate::text::str_to_chars(s);
    let mut i: usize = 0;
    while i < cs.len()
        invariant
            0 <= i <= cs.len(),
            cs@ == s@,
            out@ == old(out)@ + esc_string(s@.take(i as int)),
        decreases cs.len() - i,
    {
        let c = cs[i];
        if c == '"' {
            out.push('\\');
            out.push('"');
        } else if c == '\\' {
            out.push('\\');
            out.push('\\');
        } else if c == '\u{8}' {
            out.push('\\');
            out.push('b');
        } else if c == '\t' {
            out.push('\\');
            out.push('t');
        } else if c == '\n' {
            out.push('\\');
            out.push('n');
        } else if c == '\u{c}' {
            out.push('\\');
            out.push('f');
        } else if c == '\r' {
            out.push('\\');
            out.push('r');
        } else if (c as u32) < 0x20 {
            out.push('\\');
            out.push('u');
            out.push('0');
            out.push('0');
            out.push(hex_char((c as u32) / 16));
            out.push(hex_char((c as u32) % 16));
        } else {
            out.push(c);
        }
        i += 1;
        proof {
            assert(s@.take(i as int).drop_last() =~= s@.take(i - 1));
            assert(s@.take(i as int).last() == s@[i - 1]);
            assert(out@ =~= old(out)@ + esc_string(s@.take(i as int)));
        }
    }
    proof {
        assert(s@.take(s@.len() as int) =~= s@);
    }
}

/// A copy of a character buffer.
fn clone_chars(v: &Vec<char>) -> (r: Vec<char>)
    ensures
        r@ == v@,
{
    let mut r: Vec<char> = Vec::new();
    crate::text::append_chars(&mut r, v);
    proof {
        assert(r@ =~= v@);
    }
    r
}

/// Appends the serialized text of `v` at depth `depth` to `out`; `ind_buf`
/// holds that depth's indentation.
#[verifier::rlimit(50)]
fn ser_into(
    v: &JsonValue,
    pretty: bool,
    depth: Ghost<nat>,
    ind_buf: &Vec<char>,
    out: &mut Vec<char>,
)
    requires
        ind_buf@ == indent_chars(depth@),
    ensures
        final(out)@ == old(out)@ + ser(v@, pretty, depth@),
    decreases *v,
{
    match v {
        JsonValue::Null => {
            out.push('n');
            out.push('u');
            out.push('l');
            out.push('l');
            proof {
                assert(out@ =~= old(out)@ + ser(v@, pretty, depth@));
            }
        },
        JsonValue::Bool(b) => {
            if *b {
                out.push('t');
                out.push('r');
                out.push('u');
                out.push('e');
            } else {
                out.push('f');
                out.push('a');
                out.push('l');
                out.push('s');
                out.push('e');
            }
            proof {
                assert(out@ =~= old(out)@ + ser(v@, pretty, depth@));
            }
        },
        JsonValue::Number(s) => {
            crate::text::append_str(out, s.as_str());
        },
        JsonValue::Str(s) => {
            out.push('"');
            escape_into(s.as_str(), out);
            out.push('"');
            proof {
                assert(out@ =~= old(out)@ + quoted(s@));
            }
        },
        JsonValue::Array(items) => {
            if items.len() == 0 {
                out.push('[');
                out.push(']');
                proof {
                    assert(crate::json::view_elems(items@) =~= Seq::<Json>::empty());
                    assert(out@ =~= old(out)@ + ser(v@, pretty, depth@));
                }
            } else {
                let mut child_buf = clone_chars(ind_buf);
                child_buf.push(' ');
                child_buf.push(' ');
                proof {
                    assert(child_buf@ =~= indent_chars(depth@ + 1));
                }
                out.push('[');
                let ghost elems = crate::json::view_elems(items@);
                proof {
                    crate::json::lemma_view_elems(items@);
                }
                let mut i: usize = 0;
                while i < items.len()
                    invariant
                        0 <= i <= items.len(),
                        *v == JsonValue::Array(*items),
                        elems == crate::json::view_elems(items@),
                        elems.len() == items@.len(),
                        forall|k: int| 0 <= k < items@.len() ==> elems[k] == items@[k].view(),
                        child_buf@ == indent_chars(depth@ + 1),
                        ind_buf@ == indent_chars(depth@),
                        out@ == old(out)@ + seq!['['] + ser_elems(
                            elems.take(i as int),
                            pretty,
                            depth@ + 1,
                            true,
                        ),
                    decreases items.len() - i,
                {
                    if pretty {
                        if i == 0 {
                            out.push('\n');
                        } else {
                            out.push(',');
                            out.push('\n');
                        }
                        crate::text::append_chars(out, &child_buf);
                    } else {
                        if i > 0 {
                            out.push(',');
                        }
                    }
                    proof {
                        assert(decreases_to!(*v => v->Array_0));
                        assert(decreases_to!(v->Array_0 => v->Array_0@));
                        assert(decreases_to!(v->Array_0@ => v->Array_0@[i as int]));
                        assert(decreases_to!(*v => items@[i as int]));
                    }
                    ser_into(&items[i], pretty, Ghost(depth@ + 1), &child_buf, out);
                    i += 1;
                    proof {
                        assert(elems.take(i as int).drop_last() =~= elems.take(i - 1));
                        assert(elems.take(i as int).last() == elems[i - 1]);
                        assert(out@ =~= old(out)@ + seq!['['] + ser_elems(
                            elems.take(i as int),
                            pretty,
                            depth@ + 1,
                            true,
                        ));
                    }
                }
                proof {
                    assert(elems.take(elems.len() as int) =~= elems);
                }
                if pretty {
                    out.push('\n');
                    crate::text::append_chars(out, ind_buf);
                }
                out.push(']');
                proof {
                    assert(out@ =~= old(out)@ + ser(v@, pretty, depth@));
                }
            }
        },
        JsonValue::Object(fields) => {
            if fields.len() == 0 {
                out.push('{');
                out.push('}');
                proof {
                    assert(crate::json::view_fields(fields@) =~= Seq::<(Seq<char>, Json)>::empty());
                    assert(out@ =~= old(out)@ + ser(v@, pretty, depth@));
                }
            } else {
                let mut child_buf = clone_chars(ind_buf);
                child_buf.push(' ');
                child_buf.push(' ');
                proof {
                    assert(child_buf@ =~= indent_chars(depth@ + 1));
                }
                out.push('{');
                let ghost flds = crate::json::view_fields(fields@);
                proof {
                    crate::json::lemma_view_fields(fields@);
                }
                let mut i: usize = 0;
                while i < fields.len()
                    invariant
                        0 <= i <= fields.len(),
                        *v == JsonValue::Object(*fields),
                        flds == crate::json::view_fields(fields@),
                        flds.len() == fields@.len(),
                        forall|k: int| 0 <= k < fields@.len() ==> flds[k] == (
                            fields@[k].0@,
                            fields@[k].1.view(),
                        ),
                        child_buf@ == indent_chars(depth@ + 1),
                        ind_buf@ == indent_chars(depth@),
                        out@ == old(out)@ + seq!['{'] + ser_fields(
                            flds.take(i as int),
                            pretty,
                            depth@ + 1,
                            true,
                        ),
                    decreases fields.len() - i,
                {
                    if pretty {
                        if i == 0 {
                            out.push('\n');
                        } else {
                            out.push(',');
                            out.push('\n');
                        }
                        crate::text::append_chars(out, &child_buf);
                    } else {
                        if i > 0 {
                            out.push(',');
                        }
                    }
                    out.push('"');
                    escape_into(fields[i].0.as_str(), out);
                    out.push('"');
                    out.push(':');
                    if pretty {
                        out.push(' ');
                    }
                    proof {
                        assert(decreases_to!(*v => v->Object_0));
                        assert(decreases_to!(v->Object_0 => v->Object_0@));
                        assert(decreases_to!(v->Object_0@ => v->Object_0@[i as int]));
                        assert(decreases_to!(fields@[i as int] => fields@[i as int].1));
                        assert(decreases_to!(*v => fields@[i as int].1));
                    }
                    ser_into(&fields[i].1, pretty, Ghost(depth@ + 1), &child_buf, out);
                    i += 1;
                    proof {
                        assert(flds.take(i as int).drop_last() =~= flds.take(i - 1));
                        assert(flds.take(i as int).last() == flds[i - 1]);
                        assert(out@ =~= old(out)@ + seq!['{'] + ser_fields(
                            flds.take(i as int),
                            pretty,
                            depth@ + 1,
                            true,
                        ));
                    }
                }
                proof {
                    assert(flds.take(flds.len() as int) =~= flds);
                }
                if pretty {
                    out.push('\n');
                    crate::text::append_chars(out, ind_buf);
                }
                out.push('}');
                proof {
                    assert(out@ =~= old(out)@ + ser(v@, pretty, depth@));
                }
            }
        },
    }
}

/// The single-line serialized text of `v`: no whitespace outside strings.
pub fn to_json_string(v: &JsonValue) -> (r: String)
    ensures
        r@ == ser(v@, false, 0),
{
    let mut out: Vec<char> = Vec::new();
    let ind_buf: Vec<char> = Vec::new();
    proof {
        assert(ind_buf@ =~= indent_chars(0));
    }
    ser_into(v, false, Ghost(0nat), &ind_buf, &mut out);
    chars_to_string(&out)
}

/// The pretty-printed serialized text of `v`: two-space indentation, one
/// array element or object field per line.
pub fn to_json_string_pretty(v: &JsonValue) -> (r: String)
    ensures
        r@ == ser(v@, true, 0),
{
    let mut out: Vec<char> = Vec::new();
    let ind_buf: Vec<char> = Vec::new();
    proof {
        assert(ind_buf@ =~= indent_chars(0));
    }
    ser_into(v, true, Ghost(0nat), &ind_buf, &mut out);
    chars_to_string(&out)
}

} // verus!
