//! The round trip between serialization and parsing: the text the
//! serializer writes for a value, compact or pretty, parses back to that
//! same value.

use vstd::prelude::*;

use crate::codec::{
    close_sep, colon_sep, elem_sep, esc_char, esc_string, hex_digit, indent_chars, quoted, ser,
    ser_elems, ser_fields,
};
use crate::json::Json;
use crate::numeric::{digit_run, is_digit};
use crate::parse::{
    hex_val, is_json_number, is_num_char, is_ws, num_end, parse_elems, parse_fields,
    parse_string_body, parse_value, spec_parse_json, valid_scalar, wf_elems, wf_fields, wf_json,
    wsp,
};

verus! {

/// Splitting a suffix: when the text from `i` on is `a` then `b`, the text
/// from `i + |a|` on is `b`, and `a` lies at `i` character by character.
proof fn lemma_tail_split(s: Seq<char>, i: int, a: Seq<char>, b: Seq<char>)
    requires
        0 <= i <= s.len(),
        s.subrange(i, s.len() as int) == a + b,
    ensures
        i + a.len() <= s.len(),
        s.subrange(i + a.len(), s.len() as int) == b,
        forall|k: int| 0 <= k < a.len() ==> s[i + k] == a[k],
        forall|k: int| i <= k < i + a.len() ==> #[trigger] s[k] == a[k - i],
{
    assert(s.subrange(i, s.len() as int).len() == a.len() + b.len());
    assert forall|k: int| 0 <= k < a.len() implies s[i + k] == a[k] by {
        assert(s.subrange(i, s.len() as int)[k] == s[i + k]);
        assert((a + b)[k] == a[k]);
    }
    assert forall|k: int| i <= k < i + a.len() implies #[trigger] s[k] == a[k - i] by {
        assert(s.subrange(i, s.len() as int)[k - i] == s[k]);
        assert((a + b)[k - i] == a[k - i]);
    }
    assert(s.subrange(i + a.len(), s.len() as int) =~= b) by {
        assert forall|k: int| 0 <= k < b.len() implies s.subrange(
            i + a.len(),
            s.len() as int,
        )[k] == b[k] by {
            assert(s.subrange(i, s.len() as int)[a.len() + k] == s[i + a.len() + k]);
            assert((a + b)[a.len() + k] == b[k]);
        }
    }
}

/// Whitespace skipping over a known run: it stops right after it.
proof fn lemma_wsp_run(s: Seq<char>, i: int, n: int)
    requires
        0 <= i,
        0 <= n,
        i + n <= s.len(),
        forall|k: int| i <= k < i + n ==> is_ws(#[trigger] s[k]),
        i + n == s.len() || !is_ws(s[i + n]),
    ensures
        wsp(s, i) == i + n,
    decreases n,
{
    if n > 0 {
        lemma_wsp_run(s, i + 1, n - 1);
    }
}

/// Number scanning over a known run: it stops right after it.
proof fn lemma_num_end_run(s: Seq<char>, i: int, n: int)
    requires
        0 <= i,
        0 <= n,
        i + n <= s.len(),
        forall|k: int| i <= k < i + n ==> is_num_char(#[trigger] s[k]),
        i + n == s.len() || !is_num_char(s[i + n]),
    ensures
        num_end(s, i) == i + n,
    decreases n,
{
    if n > 0 {
        lemma_num_end_run(s, i + 1, n - 1);
    }
}

/// Every character of a well-formed number text is a number character.
proof fn lemma_number_chars(t: Seq<char>)
    requires
        is_json_number(t),
    ensures
        forall|k: int| 0 <= k < t.len() ==> is_num_char(#[trigger] t[k]),
{
    let b: int = if t.len() > 0 && t[0] == '-' {
        1
    } else {
        0
    };
    let int_end: int = if t[b] == '0' {
        b + 1
    } else {
        digit_run(t, b)
    };
    crate::numeric::lemma_digit_run(t, b);
    let frac_end: int = if int_end < t.len() && t[int_end] == '.' {
        digit_run(t, int_end + 1)
    } else {
        int_end
    };
    if int_end < t.len() && t[int_end] == '.' {
        crate::numeric::lemma_digit_run(t, int_end + 1);
    }
    assert forall|k: int| 0 <= k < t.len() implies is_num_char(#[trigger] t[k]) by {
        if k < b {
            assert(t[0] == '-');
        } else if k < int_end {
        } else if k < frac_end {
        } else if k == frac_end && k < t.len() {
        } else {
            let x = frac_end + 1;
            let y: int = if x < t.len() && (t[x] == '+' || t[x] == '-') {
                x + 1
            } else {
                x
            };
            crate::numeric::lemma_digit_run(t, y);
        }
    }
}

/// The serialized text of a well-formed value is non-empty, starts with no
/// whitespace, and starts with none of the structural closers.
proof fn lemma_ser_head(j: Json, p: bool, ind: nat)
    requires
        wf_json(j),
    ensures
        ser(j, p, ind).len() > 0,
        !is_ws(ser(j, p, ind)[0]),
        ser(j, p, ind)[0] != ']',
        ser(j, p, ind)[0] != '}',
        ser(j, p, ind)[0] != ',',
        ser(j, p, ind)[0] != ':',
{
    match j {
        Json::Number(t) => {
            let b: int = if t.len() > 0 && t[0] == '-' {
                1
            } else {
                0
            };
            if b == 0 {
                assert(t[0] == '0' || is_digit(t[0]));
            }
        },
        _ => {},
    }
}

/// The first of well-formed elements is well formed, and so are the rest.
proof fn lemma_wf_elems_parts(items: Seq<Json>)
    requires
        items.len() > 0,
        wf_elems(items),
    ensures
        wf_json(items.first()),
        wf_elems(items.drop_first()),
    decreases items.len(),
{
    if items.len() == 1 {
        assert(items.drop_last() =~= Seq::<Json>::empty());
        assert(items.first() == items.last());
        assert(items.drop_first() =~= Seq::<Json>::empty());
    } else {
        lemma_wf_elems_parts(items.drop_last());
        assert(items.drop_last().first() == items.first());
        assert(items.drop_first().drop_last() =~= items.drop_last().drop_first());
        assert(items.drop_first().last() == items.last());
        assert(wf_elems(items.drop_first()));
    }
}

/// The first of well-formed fields has a well-formed value, and so do the
/// rest.
proof fn lemma_wf_fields_parts(fields: Seq<(Seq<char>, Json)>)
    requires
        fields.len() > 0,
        wf_fields(fields),
    ensures
        wf_json(fields.first().1),
        wf_fields(fields.drop_first()),
    decreases fields.len(),
{
    if fields.len() == 1 {
        assert(fields.drop_last() =~= Seq::<(Seq<char>, Json)>::empty());
        assert(fields.first() == fields.last());
        assert(fields.drop_first() =~= Seq::<(Seq<char>, Json)>::empty());
    } else {
        lemma_wf_fields_parts(fields.drop_last());
        assert(fields.drop_last().first() == fields.first());
        assert(fields.drop_first().drop_last() =~= fields.drop_last().drop_first());
        assert(fields.drop_first().last() == fields.last());
        assert(wf_fields(fields.drop_first()));
    }
}

/// Serialized elements, read from the left: the first element's separator,
/// the first element, then the rest.
proof fn lemma_ser_elems_left(items: Seq<Json>, p: bool, ind: nat, first: bool)
    requires
        items.len() > 0,
    ensures
        ser_elems(items, p, ind, first) == elem_sep(p, ind, first) + ser(items.first(), p, ind)
            + ser_elems(items.drop_first(), p, ind, false),
    decreases items.len(),
{
    if items.len() == 1 {
        assert(items.drop_last() =~= Seq::<Json>::empty());
        assert(items.drop_first() =~= Seq::<Json>::empty());
        assert(items.first() == items.last());
        assert(ser_elems(items.drop_last(), p, ind, first) == Seq::<char>::empty());
        assert(ser_elems(items.drop_first(), p, ind, false) == Seq::<char>::empty());
        assert(ser_elems(items, p, ind, first) == Seq::<char>::empty() + elem_sep(p, ind, first)
            + ser(items.last(), p, ind));
        assert(Seq::<char>::empty() + elem_sep(p, ind, first) + ser(items.last(), p, ind)
            =~= elem_sep(p, ind, first) + ser(items.first(), p, ind) + Seq::<char>::empty());
    } else {
        lemma_ser_elems_left(items.drop_last(), p, ind, first);
        assert(items.drop_last().first() == items.first());
        assert(items.drop_first().drop_last() =~= items.drop_last().drop_first());
        assert(items.drop_first().last() == items.last());
        let a = elem_sep(p, ind, first);
        let f0 = ser(items.first(), p, ind);
        let x = ser_elems(items.drop_last().drop_first(), p, ind, false);
        let b = elem_sep(p, ind, false);
        let l = ser(items.last(), p, ind);
        assert(ser_elems(items, p, ind, first) == ser_elems(items.drop_last(), p, ind, first) + b
            + l);
        assert(ser_elems(items.drop_last(), p, ind, first) == a + f0 + x);
        assert(ser_elems(items.drop_first(), p, ind, false) == x + b + l);
        assert(((a + f0 + x) + b + l) =~= a + f0 + (x + b + l));
    }
}

/// Serialized fields, read from the left.
proof fn lemma_ser_fields_left(fields: Seq<(Seq<char>, Json)>, p: bool, ind: nat, first: bool)
    requires
        fields.len() > 0,
    ensures
        ser_fields(fields, p, ind, first) == elem_sep(p, ind, first) + quoted(fields.first().0)
            + colon_sep(p) + ser(fields.first().1, p, ind) + ser_fields(
            fields.drop_first(),
            p,
            ind,
            false,
        ),
    decreases fields.len(),
{
    if fields.len() == 1 {
        assert(fields.drop_last() =~= Seq::<(Seq<char>, Json)>::empty());
        assert(fields.drop_first() =~= Seq::<(Seq<char>, Json)>::empty());
        assert(fields.first() == fields.last());
        assert(ser_fields(fields.drop_last(), p, ind, first) == Seq::<char>::empty());
        assert(ser_fields(fields.drop_first(), p, ind, false) == Seq::<char>::empty());
        assert(ser_fields(fields, p, ind, first) == Seq::<char>::empty() + elem_sep(p, ind, first)
            + quoted(fields.last().0) + colon_sep(p) + ser(fields.last().1, p, ind));
        assert(Seq::<char>::empty() + elem_sep(p, ind, first) + quoted(fields.last().0)
            + colon_sep(p) + ser(fields.last().1, p, ind) =~= elem_sep(p, ind, first) + quoted(
            fields.first().0,
        ) + colon_sep(p) + ser(fields.first().1, p, ind) + Seq::<char>::empty());
    } else {
        lemma_ser_fields_left(fields.drop_last(), p, ind, first);
        assert(fields.drop_last().first() == fields.first());
        assert(fields.drop_first().drop_last() =~= fields.drop_last().drop_first());
        assert(fields.drop_first().last() == fields.last());
        let a = elem_sep(p, ind, first);
        let q0 = quoted(fields.first().0);
        let c = colon_sep(p);
        let f0 = ser(fields.first().1, p, ind);
        let x = ser_fields(fields.drop_last().drop_first(), p, ind, false);
        let b = elem_sep(p, ind, false);
        let ql = quoted(fields.last().0);
        let fl = ser(fields.last().1, p, ind);
        assert(ser_fields(fields, p, ind, first) == ser_fields(fields.drop_last(), p, ind, first)
            + b + ql + c + fl);
        assert(ser_fields(fields.drop_last(), p, ind, first) == a + q0 + c + f0 + x);
        assert(ser_fields(fields.drop_first(), p, ind, false) == x + b + ql + c + fl);
        assert(((a + q0 + c + f0 + x) + b + ql + c + fl) =~= a + q0 + c + f0 + (x + b + ql + c
            + fl));
    }
}

/// The escaped text of a string, read from the left.
proof fn lemma_esc_left(t: Seq<char>)
    requires
        t.len() > 0,
    ensures
        esc_string(t) == esc_char(t.first()) + esc_string(t.drop_first()),
    decreases t.len(),
{
    if t.len() == 1 {
        assert(t.drop_last() =~= Seq::<char>::empty());
        assert(t.drop_first() =~= Seq::<char>::empty());
        assert(t.first() == t.last());
        assert(esc_string(t.drop_last()) == Seq::<char>::empty());
        assert(esc_string(t.drop_first()) == Seq::<char>::empty());
        assert(esc_string(t) == Seq::<char>::empty() + esc_char(t.last()));
        assert(Seq::<char>::empty() + esc_char(t.last()) =~= esc_char(t.first())
            + Seq::<char>::empty());
    } else {
        lemma_esc_left(t.drop_last());
        assert(t.drop_last().first() == t.first());
        assert(t.drop_first().drop_last() =~= t.drop_last().drop_first());
        assert(t.drop_first().last() == t.last());
        let a = esc_char(t.first());
        let x = esc_string(t.drop_last().drop_first());
        let l = esc_char(t.last());
        assert(esc_string(t) == esc_string(t.drop_last()) + l);
        assert(esc_string(t.drop_last()) == a + x);
        assert(esc_string(t.drop_first()) == x + l);
        assert(((a + x) + l) =~= a + (x + l));
    }
}

/// Two characters with one code are one character.
proof fn lemma_char_injective(a: char, b: char)
    requires
        a as u32 == b as u32,
    ensures
        a == b,
{
}

/// Reading a hexadecimal digit back gives its value.
proof fn lemma_hex_digit_val(n: nat)
    requires
        n < 16,
    ensures
        hex_val(hex_digit(n)) == n as int,
{
}

/// Parsing an escaped string body: the text the serializer writes for `t`,
/// followed by the closing quote, reads back as `t` exactly.
proof fn lemma_parse_esc(t: Seq<char>, s: Seq<char>, i: int, rest: Seq<char>)
    requires
        0 <= i <= s.len(),
        s.subrange(i, s.len() as int) == esc_string(t) + seq!['"'] + rest,
    ensures
        parse_string_body(s, i) == Some((t, i + esc_string(t).len() + 1)),
    decreases t.len(),
{
    if t.len() == 0 {
        assert(esc_string(t) == Seq::<char>::empty());
        assert(s.subrange(i, s.len() as int).len() == 1 + rest.len());
        assert(i < s.len());
        assert(s.subrange(i, s.len() as int)[0] == s[i]);
        assert((esc_string(t) + seq!['"'] + rest)[0] == '"');
        assert(s[i] == '"');
        assert(parse_string_body(s, i) == Some((Seq::<char>::empty(), i + 1)));
        assert(Seq::<char>::empty() =~= t);
    } else {
        lemma_esc_left(t);
        let c = t.first();
        let e = esc_char(c);
        let tail = esc_string(t.drop_first()) + seq!['"'] + rest;
        assert(esc_string(t) + seq!['"'] + rest =~= e + tail);
        lemma_tail_split(s, i, e, tail);
        lemma_parse_esc(t.drop_first(), s, i + e.len(), rest);
        assert(seq![c] + t.drop_first() =~= t);
        let after = i + esc_string(t).len() + 1;
        assert(i + e.len() + esc_string(t.drop_first()).len() + 1 == after);
        if c == '"' || c == '\\' {
            assert(s[i] == '\\');
            assert(s[i + 1] == c);
            assert(parse_string_body(s, i) == Some((t, after)));
        } else if c == '\u{8}' || c == '\t' || c == '\n' || c == '\u{c}' || c == '\r' {
            assert(s[i] == '\\');
            assert(parse_string_body(s, i) == Some((t, after)));
        } else if (c as u32) < 0x20 {
            let cu = c as u32;
            assert(s[i] == '\\');
            assert(s[i + 1] == 'u');
            assert(s[i + 2] == '0');
            assert(s[i + 3] == '0');
            assert(s[i + 4] == hex_digit((cu / 16) as nat));
            assert(s[i + 5] == hex_digit((cu % 16) as nat));
            lemma_hex_digit_val((cu / 16) as nat);
            lemma_hex_digit_val((cu % 16) as nat);
            assert(hex_val(s[i + 2]) == 0);
            assert(hex_val(s[i + 3]) == 0);
            let code = hex_val(s[i + 2]) * 0x1000 + hex_val(s[i + 3]) * 0x100 + hex_val(s[i + 4])
                * 0x10 + hex_val(s[i + 5]);
            assert(code == cu) by {
                assert(cu / 16 < 16);
                assert(cu == (cu / 16) * 16 + cu % 16);
            }
            assert(valid_scalar(code));
            assert(((code as u32) as char) as u32 == code as u32);
            assert(c as u32 == code as u32);
            lemma_char_injective((code as u32) as char, c);
            assert((code as u32) as char == c);
            assert(parse_string_body(s, i) == Some((t, after)));
        } else {
            assert(e =~= seq![c]);
            assert(s[i] == c);
            assert(c != '"' && c != '\\' && !((c as u32) < 0x20));
            assert(parse_string_body(s, i) == Some((t, after)));
        }
    }
}

/// The separators between serialized elements: a first element's separator
/// is whitespace only; a later element's separator is a comma and then
/// whitespace; the closer's lead-in is whitespace only; a colon separator
/// is a colon and then whitespace.
proof fn lemma_seps(p: bool, ind: nat)
    ensures
        forall|k: int|
            0 <= k < elem_sep(p, ind, true).len() ==> is_ws(#[trigger] elem_sep(p, ind, true)[k]),
        elem_sep(p, ind, false).len() >= 1,
        elem_sep(p, ind, false)[0] == ',',
        forall|k: int|
            1 <= k < elem_sep(p, ind, false).len() ==> is_ws(#[trigger] elem_sep(p, ind, false)[k]),
        forall|k: int|
            0 <= k < close_sep(p, ind).len() ==> is_ws(#[trigger] close_sep(p, ind)[k]),
        colon_sep(p).len() >= 1,
        colon_sep(p)[0] == ':',
        forall|k: int| 1 <= k < colon_sep(p).len() ==> is_ws(#[trigger] colon_sep(p)[k]),
{
    assert forall|k: int|
        0 <= k < elem_sep(p, ind, true).len() implies is_ws(
        #[trigger] elem_sep(p, ind, true)[k],
    ) by {
        if p && k >= 1 {
            assert(elem_sep(p, ind, true)[k] == indent_chars(ind)[k - 1]);
        }
    }
    assert forall|k: int|
        1 <= k < elem_sep(p, ind, false).len() implies is_ws(
        #[trigger] elem_sep(p, ind, false)[k],
    ) by {
        if p && k >= 2 {
            assert(elem_sep(p, ind, false)[k] == indent_chars(ind)[k - 2]);
        }
    }
    assert forall|k: int|
        0 <= k < close_sep(p, ind).len() implies is_ws(#[trigger] close_sep(p, ind)[k]) by {
        if k >= 1 {
            assert(close_sep(p, ind)[k] == indent_chars(ind)[k - 1]);
        }
    }
}

/// Parsing a serialized value: at a position where the text continues with
/// the serialized form of a well-formed value, and then with anything that
/// cannot extend a number token, parsing yields that value, ending right
/// after its text.
#[verifier::rlimit(100)]
pub proof fn lemma_parse_ser_value(j: Json, p: bool, ind: nat, s: Seq<char>, i: int, rest: Seq<char>)
    requires
        wf_json(j),
        0 <= i <= s.len(),
        s.subrange(i, s.len() as int) == ser(j, p, ind) + rest,
        rest.len() > 0 ==> !is_num_char(rest[0]),
    ensures
        parse_value(s, i) == Some((j, i + ser(j, p, ind).len())),
    decreases j, 1int,
{
    lemma_tail_split(s, i, ser(j, p, ind), rest);
    lemma_ser_head(j, p, ind);
    match j {
        Json::Null => {
            assert(parse_value(s, i) == Some((Json::Null, i + 4)));
        },
        Json::Bool(b) => {
            if b {
                assert(parse_value(s, i) == Some((Json::Bool(true), i + 4)));
            } else {
                assert(parse_value(s, i) == Some((Json::Bool(false), i + 5)));
            }
        },
        Json::Number(t) => {
            lemma_number_chars(t);
            assert forall|k: int| i <= k < i + t.len() implies is_num_char(#[trigger] s[k]) by {
                assert(s[k] == t[k - i]);
            }
            lemma_num_end_run(s, i, t.len() as int);
            assert(s.subrange(i, i + t.len()) =~= t);
            assert(parse_value(s, i) == Some((Json::Number(t), i + t.len())));
        },
        Json::Str(t) => {
            assert(ser(j, p, ind) + rest =~= seq!['"'] + (esc_string(t) + seq!['"'] + rest));
            lemma_tail_split(s, i, seq!['"'], esc_string(t) + seq!['"'] + rest);
            lemma_parse_esc(t, s, i + 1, rest);
            assert(parse_value(s, i) == Some((Json::Str(t), i + 1 + esc_string(t).len() + 1)));
        },
        Json::Array(items) => {
            if items.len() == 0 {
                assert(items =~= Seq::<Json>::empty());
                assert(s[i] == '[');
                assert(s[i + 1] == ']');
                lemma_wsp_run(s, i + 1, 0);
                assert(parse_value(s, i) == Some((Json::Array(Seq::empty()), i + 2)));
            } else {
                lemma_parse_ser_array(items, p, ind, s, i, rest);
            }
        },
        Json::Object(fields) => {
            if fields.len() == 0 {
                assert(fields =~= Seq::<(Seq<char>, Json)>::empty());
                assert(s[i] == '{');
                assert(s[i + 1] == '}');
                lemma_wsp_run(s, i + 1, 0);
                assert(parse_value(s, i) == Some((Json::Object(Seq::empty()), i + 2)));
            } else {
                lemma_parse_ser_object(fields, p, ind, s, i, rest);
            }
        },
    }
}

/// Parsing a serialized non-empty array.
#[verifier::rlimit(100)]
proof fn lemma_parse_ser_array(
    items: Seq<Json>,
    p: bool,
    ind: nat,
    s: Seq<char>,
    i: int,
    rest: Seq<char>,
)
    requires
        items.len() > 0,
        wf_elems(items),
        0 <= i <= s.len(),
        s.subrange(i, s.len() as int) == ser(Json::Array(items), p, ind) + rest,
    ensures
        parse_value(s, i) == Some((Json::Array(items), i + ser(Json::Array(items), p, ind).len())),
    decreases items, 1int,
{
    let j = Json::Array(items);
    lemma_tail_split(s, i, ser(j, p, ind), rest);
    let eind = (ind + 1) as nat;
    let close = close_sep(p, ind);
    lemma_ser_elems_left(items, p, eind, true);
    let sep0 = elem_sep(p, eind, true);
    let f0 = ser(items.first(), p, eind);
    let re = ser_elems(items.drop_first(), p, eind, false);
    let tail1 = sep0 + (f0 + re + close + seq![']'] + rest);
    assert(s.subrange(i, s.len() as int)[0] == s[i]);
    assert((ser(j, p, ind) + rest)[0] == ser(j, p, ind)[0]);
    assert(ser(j, p, ind)[0] == '[');
    assert(s[i] == '[');
    assert(ser(j, p, ind) + rest =~= seq!['['] + tail1);
    lemma_tail_split(s, i, seq!['['], tail1);
    assert(tail1 =~= sep0 + (f0 + re + close + seq![']'] + rest));
    lemma_tail_split(s, i + 1, sep0, f0 + re + close + seq![']'] + rest);
    lemma_wf_elems_parts(items);
    lemma_ser_head(items.first(), p, eind);
    lemma_seps(p, eind);
    let jj = i + 1 + sep0.len();
    assert(f0 + re + close + seq![']'] + rest =~= f0 + (re + close + seq![']'] + rest));
    lemma_tail_split(s, jj, f0, re + close + seq![']'] + rest);
    assert(s[jj + 0] == f0[0]);
    assert(s[jj] == f0[0]);
    assert forall|k: int| i + 1 <= k < jj implies is_ws(#[trigger] s[k]) by {
        assert(s[(i + 1) + (k - (i + 1))] == sep0[k - (i + 1)]);
    }
    lemma_wsp_run(s, i + 1, sep0.len() as int);
    assert(wsp(s, i + 1) == jj);
    lemma_parse_ser_elems(items, p, eind, ind, s, jj, rest);
    assert(s[i] == '[');
    assert(parse_value(s, i) == Some(
        (Json::Array(items), jj + f0.len() + re.len() + close.len() + 1),
    ));
    assert(jj + f0.len() + re.len() + close.len() + 1 == i + ser(j, p, ind).len());
}

/// Parsing a serialized non-empty object.
#[verifier::rlimit(100)]
proof fn lemma_parse_ser_object(
    fields: Seq<(Seq<char>, Json)>,
    p: bool,
    ind: nat,
    s: Seq<char>,
    i: int,
    rest: Seq<char>,
)
    requires
        fields.len() > 0,
        wf_fields(fields),
        0 <= i <= s.len(),
        s.subrange(i, s.len() as int) == ser(Json::Object(fields), p, ind) + rest,
    ensures
        parse_value(s, i) == Some(
            (Json::Object(fields), i + ser(Json::Object(fields), p, ind).len()),
        ),
    decreases fields, 1int,
{
    let j = Json::Object(fields);
    lemma_tail_split(s, i, ser(j, p, ind), rest);
    let eind = (ind + 1) as nat;
    let close = close_sep(p, ind);
    lemma_ser_fields_left(fields, p, eind, true);
    let sep0 = elem_sep(p, eind, true);
    let q0 = quoted(fields.first().0);
    let c0 = colon_sep(p);
    let f0 = ser(fields.first().1, p, eind);
    let rf = ser_fields(fields.drop_first(), p, eind, false);
    let tail1 = sep0 + (q0 + c0 + f0 + rf + close + seq!['}'] + rest);
    assert(s.subrange(i, s.len() as int)[0] == s[i]);
    assert((ser(j, p, ind) + rest)[0] == ser(j, p, ind)[0]);
    assert(ser(j, p, ind)[0] == '{');
    assert(s[i] == '{');
    assert(ser(j, p, ind) + rest =~= seq!['{'] + tail1);
    lemma_tail_split(s, i, seq!['{'], tail1);
    assert(tail1 =~= sep0 + (q0 + c0 + f0 + rf + close + seq!['}'] + rest));
    lemma_tail_split(s, i + 1, sep0, q0 + c0 + f0 + rf + close + seq!['}'] + rest);
    lemma_seps(p, eind);
    let jj = i + 1 + sep0.len();
    assert(q0 + c0 + f0 + rf + close + seq!['}'] + rest =~= q0 + (c0 + f0 + rf + close + seq!['}']
        + rest));
    lemma_tail_split(s, jj, q0, c0 + f0 + rf + close + seq!['}'] + rest);
    assert(s[jj + 0] == q0[0]);
    assert(s[jj] == q0[0]);
    assert(q0[0] == '"');
    assert forall|k: int| i + 1 <= k < jj implies is_ws(#[trigger] s[k]) by {
        assert(s[(i + 1) + (k - (i + 1))] == sep0[k - (i + 1)]);
    }
    lemma_wsp_run(s, i + 1, sep0.len() as int);
    assert(wsp(s, i + 1) == jj);
    lemma_parse_ser_fields(fields, p, eind, ind, s, jj, rest);
    assert(s[i] == '{');
    assert(parse_value(s, i) == Some(
        (Json::Object(fields), jj + q0.len() + c0.len() + f0.len() + rf.len() + close.len() + 1),
    ));
    assert(jj + q0.len() + c0.len() + f0.len() + rf.len() + close.len() + 1 == i + ser(
        j,
        p,
        ind,
    ).len());
}

/// Parsing serialized array elements: at the first element's position, the
/// elements read back exactly, ending right after the closing bracket.
#[verifier::rlimit(100)]
proof fn lemma_parse_ser_elems(
    items: Seq<Json>,
    p: bool,
    eind: nat,
    cind: nat,
    s: Seq<char>,
    i: int,
    rest: Seq<char>,
)
    requires
        items.len() > 0,
        wf_elems(items),
        0 <= i <= s.len(),
        s.subrange(i, s.len() as int) == ser(items.first(), p, eind) + ser_elems(
            items.drop_first(),
            p,
            eind,
            false,
        ) + close_sep(p, cind) + seq![']'] + rest,
    ensures
        parse_elems(s, i) == Some(
            (
                items,
                i + ser(items.first(), p, eind).len() + ser_elems(
                    items.drop_first(),
                    p,
                    eind,
                    false,
                ).len() + close_sep(p, cind).len() + 1,
            ),
        ),
    decreases items, 0int,
{
    let f0 = ser(items.first(), p, eind);
    let re = ser_elems(items.drop_first(), p, eind, false);
    let close = close_sep(p, cind);
    lemma_wf_elems_parts(items);
    lemma_seps(p, eind);
    lemma_seps(p, cind);
    let rest1 = re + close + seq![']'] + rest;
    assert(f0 + re + close + seq![']'] + rest =~= f0 + rest1);
    if items.len() > 1 {
        lemma_ser_elems_left(items.drop_first(), p, eind, false);
        assert(rest1[0] == elem_sep(p, eind, false)[0]);
        assert(rest1[0] == ',');
    } else {
        assert(re =~= Seq::<char>::empty());
        if p {
            assert(rest1[0] == close[0]);
            assert(rest1[0] == '\n');
        } else {
            assert(close =~= Seq::<char>::empty());
            assert(rest1[0] == ']');
        }
    }
    lemma_parse_ser_value(items.first(), p, eind, s, i, rest1);
    let jpos = i + f0.len();
    lemma_tail_split(s, i, f0, rest1);
    if items.len() == 1 {
        assert(re =~= Seq::<char>::empty());
        assert(rest1 =~= close + (seq![']'] + rest));
        lemma_tail_split(s, jpos, close, seq![']'] + rest);
        let k = jpos + close.len();
        assert(s.subrange(k, s.len() as int)[0] == s[k]);
        assert((seq![']'] + rest)[0] == ']');
        assert(s[k] == ']');
        assert forall|x: int| jpos <= x < k implies is_ws(#[trigger] s[x]) by {
            assert(s[jpos + (x - jpos)] == close[x - jpos]);
        }
        lemma_wsp_run(s, jpos, close.len() as int);
        assert(wsp(s, jpos) == k);
        assert(parse_elems(s, i) == Some((seq![items.first()], k + 1)));
        assert(seq![items.first()] =~= items);
    } else {
        lemma_ser_elems_left(items.drop_first(), p, eind, false);
        let sep1 = elem_sep(p, eind, false);
        let f1 = ser(items.drop_first().first(), p, eind);
        let re2 = ser_elems(items.drop_first().drop_first(), p, eind, false);
        assert(rest1 =~= sep1 + (f1 + re2 + close + seq![']'] + rest));
        lemma_tail_split(s, jpos, sep1, f1 + re2 + close + seq![']'] + rest);
        let m = jpos + sep1.len();
        assert(f1 + re2 + close + seq![']'] + rest =~= f1 + (re2 + close + seq![']'] + rest));
        lemma_tail_split(s, m, f1, re2 + close + seq![']'] + rest);
        lemma_wf_elems_parts(items.drop_first());
        lemma_ser_head(items.drop_first().first(), p, eind);
        assert(s[m + 0] == f1[0]);
        assert(s[m] == f1[0]);
        assert(s[jpos + 0] == sep1[0]);
        assert(s[jpos] == sep1[0]);
        assert(s[jpos] == ',');
        lemma_wsp_run(s, jpos, 0);
        assert(wsp(s, jpos) == jpos);
        assert forall|k: int| jpos + 1 <= k < m implies is_ws(#[trigger] s[k]) by {
            assert(s[k] == sep1[k - jpos]);
        }
        lemma_wsp_run(s, jpos + 1, sep1.len() - 1);
        assert(wsp(s, jpos + 1) == m);
        lemma_parse_ser_elems(items.drop_first(), p, eind, cind, s, m, rest);
        let end = m + f1.len() + re2.len() + close.len() + 1;
        assert(parse_elems(s, i) == Some((seq![items.first()] + items.drop_first(), end)));
        assert(seq![items.first()] + items.drop_first() =~= items);
        assert(re.len() == sep1.len() + f1.len() + re2.len());
        assert(end == i + f0.len() + re.len() + close.len() + 1);
    }
}

/// Parsing one serialized field up to the end of its value: the key
/// string, the colon, and the value read back exactly.
#[verifier::rlimit(100)]
proof fn lemma_parse_field_prefix(
    key: Seq<char>,
    v0: Json,
    p: bool,
    eind: nat,
    s: Seq<char>,
    i: int,
    after: Seq<char>,
)
    requires
        wf_json(v0),
        0 <= i <= s.len(),
        s.subrange(i, s.len() as int) == quoted(key) + colon_sep(p) + ser(v0, p, eind) + after,
        after.len() > 0,
        !is_num_char(after[0]),
    ensures
        i < s.len(),
        s[i] == '"',
        parse_string_body(s, i + 1) == Some((key, i + quoted(key).len())),
        wsp(s, i + quoted(key).len()) == i + quoted(key).len(),
        i + quoted(key).len() < s.len(),
        s[i + quoted(key).len()] == ':',
        wsp(s, i + quoted(key).len() + 1) == i + quoted(key).len() + colon_sep(p).len(),
        i < i + quoted(key).len() + colon_sep(p).len() < s.len(),
        parse_value(s, i + quoted(key).len() + colon_sep(p).len()) == Some(
            (v0, i + quoted(key).len() + colon_sep(p).len() + ser(v0, p, eind).len()),
        ),
        s.subrange(
            i + quoted(key).len() + colon_sep(p).len() + ser(v0, p, eind).len(),
            s.len() as int,
        ) == after,
    decreases v0, 2int,
{
    let q0 = quoted(key);
    let c0 = colon_sep(p);
    let f0 = ser(v0, p, eind);
    lemma_seps(p, eind);
    lemma_ser_head(v0, p, eind);
    assert(q0 + c0 + f0 + after =~= seq!['"'] + (esc_string(key) + seq!['"'] + (c0 + f0 + after)));
    lemma_tail_split(s, i, seq!['"'], esc_string(key) + seq!['"'] + (c0 + f0 + after));
    assert(s[i] == '"');
    lemma_parse_esc(key, s, i + 1, c0 + f0 + after);
    let jk = i + q0.len();
    assert(i + 1 + esc_string(key).len() + 1 == jk);
    assert(s.subrange(i, s.len() as int) =~= q0 + (c0 + (f0 + after)));
    lemma_tail_split(s, i, q0, c0 + (f0 + after));
    lemma_tail_split(s, jk, c0, f0 + after);
    let m = jk + c0.len();
    lemma_tail_split(s, m, f0, after);
    assert(s[jk] == ':');
    assert(s[m] == f0[0]);
    lemma_wsp_run(s, jk, 0);
    assert forall|k: int| jk + 1 <= k < m implies is_ws(#[trigger] s[k]) by {
        assert(s[k] == c0[k - jk]);
    }
    lemma_wsp_run(s, jk + 1, c0.len() - 1);
    lemma_parse_ser_value(v0, p, eind, s, m, after);
}

/// Parsing serialized object fields: at the first key's position, the
/// fields read back exactly, ending right after the closing brace.
#[verifier::rlimit(100)]
proof fn lemma_parse_ser_fields(
    fields: Seq<(Seq<char>, Json)>,
    p: bool,
    eind: nat,
    cind: nat,
    s: Seq<char>,
    i: int,
    rest: Seq<char>,
)
    requires
        fields.len() > 0,
        wf_fields(fields),
        0 <= i <= s.len(),
        s.subrange(i, s.len() as int) == quoted(fields.first().0) + colon_sep(p) + ser(
            fields.first().1,
            p,
            eind,
        ) + ser_fields(fields.drop_first(), p, eind, false) + close_sep(p, cind) + seq!['}'] + rest,
    ensures
        parse_fields(s, i) == Some(
            (
                fields,
                i + quoted(fields.first().0).len() + colon_sep(p).len() + ser(
                    fields.first().1,
                    p,
                    eind,
                ).len() + ser_fields(fields.drop_first(), p, eind, false).len() + close_sep(
                    p,
                    cind,
                ).len() + 1,
            ),
        ),
    decreases fields, 0int,
{
    let key = fields.first().0;
    let v0 = fields.first().1;
    let q0 = quoted(key);
    let c0 = colon_sep(p);
    let f0 = ser(v0, p, eind);
    let rf = ser_fields(fields.drop_first(), p, eind, false);
    let close = close_sep(p, cind);
    lemma_wf_fields_parts(fields);
    lemma_seps(p, eind);
    lemma_seps(p, cind);
    let rest1 = rf + close + seq!['}'] + rest;
    if fields.len() > 1 {
        lemma_ser_fields_left(fields.drop_first(), p, eind, false);
        assert(rest1[0] == elem_sep(p, eind, false)[0]);
        assert(rest1[0] == ',');
    } else {
        assert(rf =~= Seq::<char>::empty());
        if p {
            assert(rest1[0] == close[0]);
            assert(rest1[0] == '\n');
        } else {
            assert(close =~= Seq::<char>::empty());
            assert(rest1[0] == '}');
        }
    }
    assert(q0 + c0 + f0 + rf + close + seq!['}'] + rest =~= q0 + c0 + f0 + rest1);
    lemma_parse_field_prefix(key, v0, p, eind, s, i, rest1);
    let m = i + q0.len() + c0.len();
    let jv = m + f0.len();
    if fields.len() == 1 {
        assert(rf =~= Seq::<char>::empty());
        assert(rest1 =~= close + (seq!['}'] + rest));
        lemma_tail_split(s, jv, close, seq!['}'] + rest);
        let k2 = jv + close.len();
        assert(s.subrange(k2, s.len() as int)[0] == s[k2]);
        assert((seq!['}'] + rest)[0] == '}');
        assert(s[k2] == '}');
        assert forall|x: int| jv <= x < k2 implies is_ws(#[trigger] s[x]) by {
            assert(s[jv + (x - jv)] == close[x - jv]);
        }
        lemma_wsp_run(s, jv, close.len() as int);
        assert(wsp(s, jv) == k2);
        assert(parse_fields(s, i) == Some((seq![(key, v0)], k2 + 1)));
        assert(seq![(key, v0)] =~= fields);
    } else {
        lemma_ser_fields_left(fields.drop_first(), p, eind, false);
        let sep1 = elem_sep(p, eind, false);
        let q1 = quoted(fields.drop_first().first().0);
        let f1 = ser(fields.drop_first().first().1, p, eind);
        let rf2 = ser_fields(fields.drop_first().drop_first(), p, eind, false);
        assert(rest1 =~= sep1 + (q1 + c0 + f1 + rf2 + close + seq!['}'] + rest));
        lemma_tail_split(s, jv, sep1, q1 + c0 + f1 + rf2 + close + seq!['}'] + rest);
        let m2 = jv + sep1.len();
        assert(q1 + c0 + f1 + rf2 + close + seq!['}'] + rest =~= q1 + (c0 + f1 + rf2 + close
            + seq!['}'] + rest));
        lemma_tail_split(s, m2, q1, c0 + f1 + rf2 + close + seq!['}'] + rest);
        assert(s[m2] == q1[0]);
        assert(q1[0] == '"');
        assert(s[jv] == sep1[0]);
        assert(s[jv] == ',');
        lemma_wsp_run(s, jv, 0);
        assert(wsp(s, jv) == jv);
        assert forall|k: int| jv + 1 <= k < m2 implies is_ws(#[trigger] s[k]) by {
            assert(s[k] == sep1[k - jv]);
        }
        lemma_wsp_run(s, jv + 1, sep1.len() - 1);
        assert(wsp(s, jv + 1) == m2);
        lemma_parse_ser_fields(fields.drop_first(), p, eind, cind, s, m2, rest);
        let end = m2 + q1.len() + c0.len() + f1.len() + rf2.len() + close.len() + 1;
        assert(parse_fields(s, i) == Some((seq![(key, v0)] + fields.drop_first(), end)));
        assert(seq![(key, v0)] + fields.drop_first() =~= fields);
        assert(rf.len() == sep1.len() + q1.len() + c0.len() + f1.len() + rf2.len());
        assert(end == i + q0.len() + c0.len() + f0.len() + rf.len() + close.len() + 1);
    }
}

/// The round trip: the text the serializer writes for a well-formed value,
/// in compact or pretty form, parses back to exactly that value.
pub proof fn lemma_json_round_trip(j: Json, pretty: bool)
    requires
        wf_json(j),
    ensures
        spec_parse_json(ser(j, pretty, 0)) == Some(j),
{
    let s = ser(j, pretty, 0);
    lemma_ser_head(j, pretty, 0);
    lemma_wsp_run(s, 0, 0);
    assert(s.subrange(0, s.len() as int) =~= s + Seq::<char>::empty());
    lemma_parse_ser_value(j, pretty, 0, s, 0, Seq::empty());
    lemma_wsp_run(s, s.len() as int, 0);
}

/// The renderer's raw-JSON fallback reproduces its input: the text it
/// emits for a well-formed value, compact or pretty, parses back to that
/// value.
pub proof fn lemma_fallback_round_trip(j: Json, compact: bool)
    requires
        wf_json(j),
    ensures
        spec_parse_json(crate::output::spec_fallback(j, compact)) == Some(j),
{
    if compact {
        lemma_json_round_trip(j, false);
    } else {
        lemma_json_round_trip(j, true);
    }
}

} // verus!
