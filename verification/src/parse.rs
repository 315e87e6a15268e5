//! JSON text: parsing back into [`JsonValue`].
//!
//! The grammar is standard JSON: the keywords, numbers without leading
//! zeros, strings with backslash and `\uXXXX` escapes, arrays and objects,
//! with space, tab, carriage return and line feed as whitespace between
//! tokens. Lone surrogate escapes are rejected.

use vstd::prelude::*;

use crate::json::{Json, JsonValue};
use crate::numeric::{digit_run, is_digit};

verus! {

pub open spec fn is_ws(c: char) -> bool {
    c == ' ' || c == '\t' || c == '\n' || c == '\r'
}

/// The first position at or after `i` that holds no whitespace.
pub open spec fn wsp(s: Seq<char>, i: int) -> int
    decreases s.len() - i,
{
    if 0 <= i < s.len() && is_ws(s[i]) {
        wsp(s, i + 1)
    } else {
        i
    }
}

pub proof fn lemma_wsp(s: Seq<char>, i: int)
    requires
        0 <= i <= s.len(),
    ensures
        i <= wsp(s, i) <= s.len(),
        forall|j: int| i <= j < wsp(s, i) ==> is_ws(s[j]),
        wsp(s, i) < s.len() ==> !is_ws(s[wsp(s, i)]),
    decreases s.len() - i,
{
    if i < s.len() && is_ws(s[i]) {
        lemma_wsp(s, i + 1);
    }
}

/// The characters a number token is made of.
pub open spec fn is_num_char(c: char) -> bool {
    is_digit(c) || c == '-' || c == '+' || c == '.' || c == 'e' || c == 'E'
}

/// The first position at or after `i` past the number characters.
pub open spec fn num_end(s: Seq<char>, i: int) -> int
    decreases s.len() - i,
{
    if 0 <= i < s.len() && is_num_char(s[i]) {
        num_end(s, i + 1)
    } else {
        i
    }
}

pub proof fn lemma_num_end(s: Seq<char>, i: int)
    requires
        0 <= i <= s.len(),
    ensures
        i <= num_end(s, i) <= s.len(),
        forall|j: int| i <= j < num_end(s, i) ==> is_num_char(s[j]),
        num_end(s, i) < s.len() ==> !is_num_char(s[num_end(s, i)]),
    decreases s.len() - i,
{
    if i < s.len() && is_num_char(s[i]) {
        lemma_num_end(s, i + 1);
    }
}

/// Whether `t` is a well-formed JSON number: an optional minus, an integer
/// part without a leading zero, an optional fraction with at least one
/// digit, and an optional exponent with at least one digit.
pub open spec fn is_json_number(t: Seq<char>) -> bool {
    let b: int = if t.len() > 0 && t[0] == '-' {
        1
    } else {
        0
    };
    if t.len() <= b {
        false
    } else {
        let int_end: int = if t[b] == '0' {
            b + 1
        } else if is_digit(t[b]) {
            digit_run(t, b)
        } else {
            -1
        };
        if int_end < 0 {
            false
        } else {
            let frac_end: int = if int_end < t.len() && t[int_end] == '.' {
                let d = digit_run(t, int_end + 1);
                if d == int_end + 1 {
                    -1
                } else {
                    d
                }
            } else {
                int_end
            };
            if frac_end < 0 {
                false
            } else if frac_end == t.len() {
                true
            } else if t[frac_end] == 'e' || t[frac_end] == 'E' {
                let x = frac_end + 1;
                let y: int = if x < t.len() && (t[x] == '+' || t[x] == '-') {
                    x + 1
                } else {
                    x
                };
                y < t.len() && digit_run(t, y) == t.len()
            } else {
                false
            }
        }
    }
}

/// A JSON value all of whose number texts are well formed: what the
/// serializer's output must satisfy to parse back.
pub open spec fn wf_json(j: Json) -> bool
    decreases j, 1int,
{
    match j {
        Json::Number(s) => is_json_number(s),
        Json::Array(items) => wf_elems(items),
        Json::Object(fields) => wf_fields(fields),
        _ => true,
    }
}

pub open spec fn wf_elems(items: Seq<Json>) -> bool
    decreases items, 0int,
{
    if items.len() == 0 {
        true
    } else {
        wf_elems(items.drop_last()) && wf_json(items.last())
    }
}

pub open spec fn wf_fields(fields: Seq<(Seq<char>, Json)>) -> bool
    decreases fields, 0int,
{
    if fields.len() == 0 {
        true
    } else {
        wf_fields(fields.drop_last()) && wf_json(fields.last().1)
    }
}

/// The value of a hexadecimal digit, or `-1`.
pub open spec fn hex_val(c: char) -> int {
    if is_digit(c) {
        c as u32 - 0x30
    } else if 0x61 <= (c as u32) <= 0x66 {
        c as u32 - 0x61 + 10
    } else if 0x41 <= (c as u32) <= 0x46 {
        c as u32 - 0x41 + 10
    } else {
        -1
    }
}

/// Whether a code is a Unicode scalar value.
pub open spec fn valid_scalar(n: int) -> bool {
    (0 <= n < 0xD800) || (0xE000 <= n <= 0x10FFFF)
}

/// The body of a string literal from position `i` (just past the opening
/// quote): the decoded characters and the position just past the closing
/// quote.
pub open spec fn parse_string_body(s: Seq<char>, i: int) -> Option<(Seq<char>, int)>
    decreases s.len() - i,
{
    if !(0 <= i < s.len()) {
        None
    } else if s[i] == '"' {
        Some((Seq::empty(), i + 1))
    } else if s[i] == '\\' {
        if i + 1 >= s.len() {
            None
        } else {
            let e = s[i + 1];
            if e == 'u' {
                if i + 6 <= s.len() && hex_val(s[i + 2]) >= 0 && hex_val(s[i + 3]) >= 0 && hex_val(
                    s[i + 4],
                ) >= 0 && hex_val(s[i + 5]) >= 0 {
                    let code = hex_val(s[i + 2]) * 0x1000 + hex_val(s[i + 3]) * 0x100 + hex_val(
                        s[i + 4],
                    ) * 0x10 + hex_val(s[i + 5]);
                    if valid_scalar(code) {
                        match parse_string_body(s, i + 6) {
                            Some((t, j)) => Some((seq![(code as u32) as char] + t, j)),
                            None => None,
                        }
                    } else {
                        None
                    }
                } else {
                    None
                }
            } else {
                let c: char = if e == '"' {
                    '"'
                } else if e == '\\' {
                    '\\'
                } else if e == '/' {
                    '/'
                } else if e == 'b' {
                    '\u{8}'
                } else if e == 'f' {
                    '\u{c}'
                } else if e == 'n' {
                    '\n'
                } else if e == 'r' {
                    '\r'
                } else if e == 't' {
                    '\t'
                } else {
                    ' '
                };
                if e == '"' || e == '\\' || e == '/' || e == 'b' || e == 'f' || e == 'n' || e == 'r'
                    || e == 't' {
                    match parse_string_body(s, i + 2) {
                        Some((t, j)) => Some((seq![c] + t, j)),
                        None => None,
                    }
                } else {
                    None
                }
            }
        }
    } else if (s[i] as u32) < 0x20 {
        None
    } else {
        match parse_string_body(s, i + 1) {
            Some((t, j)) => Some((seq![s[i]] + t, j)),
            None => None,
        }
    }
}

/// The JSON value starting at position `i`, which must hold no whitespace,
/// and the position just past it.
pub open spec fn parse_value(s: Seq<char>, i: int) -> Option<(Json, int)>
    decreases s.len() - i, 0int,
{
    if !(0 <= i < s.len()) {
        None
    } else {
        let c = s[i];
        if c == 'n' {
            if i + 4 <= s.len() && s[i + 1] == 'u' && s[i + 2] == 'l' && s[i + 3] == 'l' {
                Some((Json::Null, i + 4))
            } else {
                None
            }
        } else if c == 't' {
            if i + 4 <= s.len() && s[i + 1] == 'r' && s[i + 2] == 'u' && s[i + 3] == 'e' {
                Some((Json::Bool(true), i + 4))
            } else {
                None
            }
        } else if c == 'f' {
            if i + 5 <= s.len() && s[i + 1] == 'a' && s[i + 2] == 'l' && s[i + 3] == 's' && s[i + 4]
                == 'e' {
                Some((Json::Bool(false), i + 5))
            } else {
                None
            }
        } else if c == '"' {
            match parse_string_body(s, i + 1) {
                Some((t, j)) => Some((Json::Str(t), j)),
                None => None,
            }
        } else if c == '[' {
            let j = wsp(s, i + 1);
            if i + 1 <= j && j < s.len() && s[j] == ']' {
                Some((Json::Array(Seq::empty()), j + 1))
            } else if i < j <= s.len() {
                match parse_elems(s, j) {
                    Some((items, k)) => Some((Json::Array(items), k)),
                    None => None,
                }
            } else {
                None
            }
        } else if c == '{' {
            let j = wsp(s, i + 1);
            if i + 1 <= j && j < s.len() && s[j] == '}' {
                Some((Json::Object(Seq::empty()), j + 1))
            } else if i < j <= s.len() {
                match parse_fields(s, j) {
                    Some((fields, k)) => Some((Json::Object(fields), k)),
                    None => None,
                }
            } else {
                None
            }
        } else if c == '-' || is_digit(c) {
            let e = num_end(s, i);
            if is_json_number(s.subrange(i, e)) {
                Some((Json::Number(s.subrange(i, e)), e))
            } else {
                None
            }
        } else {
            None
        }
    }
}

/// The elements of an array from the first element's position on, and the
/// position just past the closing bracket.
pub open spec fn parse_elems(s: Seq<char>, i: int) -> Option<(Seq<Json>, int)>
    decreases s.len() - i, 1int,
{
    if !(0 <= i < s.len()) {
        None
    } else {
        match parse_value(s, i) {
            Some((v, j)) => {
                let k = wsp(s, j);
                if 0 <= k < s.len() && s[k] == ',' {
                    let m = wsp(s, k + 1);
                    if i < m <= s.len() {
                        match parse_elems(s, m) {
                            Some((rest, e)) => Some((seq![v] + rest, e)),
                            None => None,
                        }
                    } else {
                        None
                    }
                } else if 0 <= k < s.len() && s[k] == ']' {
                    Some((seq![v], k + 1))
                } else {
                    None
                }
            },
            None => None,
        }
    }
}

/// The fields of an object from the first key's position on, and the
/// position just past the closing brace.
pub open spec fn parse_fields(s: Seq<char>, i: int) -> Option<(Seq<(Seq<char>, Json)>, int)>
    decreases s.len() - i, 1int,
{
    if !(0 <= i < s.len() && s[i] == '"') {
        None
    } else {
        match parse_string_body(s, i + 1) {
            Some((key, j)) => {
                let k = wsp(s, j);
                if 0 <= k < s.len() && s[k] == ':' {
                    let m = wsp(s, k + 1);
                    if i < m && m < s.len() {
                        match parse_value(s, m) {
                            Some((v, j2)) => {
                                let k2 = wsp(s, j2);
                                if 0 <= k2 < s.len() && s[k2] == ',' {
                                    let m2 = wsp(s, k2 + 1);
                                    if i < m2 <= s.len() {
                                        match parse_fields(s, m2) {
                                            Some((rest, e)) => Some((seq![(key, v)] + rest, e)),
                                            None => None,
                                        }
                                    } else {
                                        None
                                    }
                                } else if 0 <= k2 < s.len() && s[k2] == '}' {
                                    Some((seq![(key, v)], k2 + 1))
                                } else {
                                    None
                                }
                            },
                            None => None,
                        }
                    } else {
                        None
                    }
                } else {
                    None
                }
            },
            None => None,
        }
    }
}

/// Whenever a string body parses, it consumes at least one character.
pub proof fn lemma_parse_string_bounds(s: Seq<char>, i: int)
    ensures
        parse_string_body(s, i) matches Some((t, j)) ==> i < j <= s.len(),
    decreases s.len() - i,
{
    if 0 <= i < s.len() {
        lemma_parse_string_bounds(s, i + 1);
        if i + 2 <= s.len() {
            lemma_parse_string_bounds(s, i + 2);
        }
        if i + 6 <= s.len() {
            lemma_parse_string_bounds(s, i + 6);
        }
    }
}

/// Whenever a value parses, it consumes at least one character.
pub proof fn lemma_parse_value_bounds(s: Seq<char>, i: int)
    ensures
        parse_value(s, i) matches Some((v, j)) ==> i < j <= s.len(),
    decreases s.len() - i, 0int,
{
    if 0 <= i < s.len() {
        let c = s[i];
        if c == '"' {
            lemma_parse_string_bounds(s, i + 1);
        } else if c == '[' {
            let j = wsp(s, i + 1);
            lemma_wsp(s, i + 1);
            if !(j < s.len() && s[j] == ']') && i < j <= s.len() {
                lemma_parse_elems_bounds(s, j);
            }
        } else if c == '{' {
            let j = wsp(s, i + 1);
            lemma_wsp(s, i + 1);
            if !(j < s.len() && s[j] == '}') && i < j <= s.len() {
                lemma_parse_fields_bounds(s, j);
            }
        } else if c == '-' || is_digit(c) {
            lemma_num_end(s, i);
            let e = num_end(s, i);
            if is_json_number(s.subrange(i, e)) {
                assert(s.subrange(i, e).len() > 0);
            }
        }
    }
}

/// Whenever array elements parse, they consume at least one character.
pub proof fn lemma_parse_elems_bounds(s: Seq<char>, i: int)
    ensures
        parse_elems(s, i) matches Some((items, j)) ==> i < j <= s.len(),
    decreases s.len() - i, 1int,
{
    if 0 <= i < s.len() {
        lemma_parse_value_bounds(s, i);
        match parse_value(s, i) {
            Some((v, j)) => {
                lemma_wsp(s, j);
                let k = wsp(s, j);
                if 0 <= k < s.len() && s[k] == ',' {
                    let m = wsp(s, k + 1);
                    if i < m <= s.len() {
                        lemma_parse_elems_bounds(s, m);
                    }
                }
            },
            None => {},
        }
    }
}

/// Whenever object fields parse, they consume at least one character.
pub proof fn lemma_parse_fields_bounds(s: Seq<char>, i: int)
    ensures
        parse_fields(s, i) matches Some((fields, j)) ==> i < j <= s.len(),
    decreases s.len() - i, 1int,
{
    if 0 <= i < s.len() && s[i] == '"' {
        lemma_parse_string_bounds(s, i + 1);
        match parse_string_body(s, i + 1) {
            Some((key, j)) => {
                lemma_wsp(s, j);
                let k = wsp(s, j);
                if 0 <= k < s.len() && s[k] == ':' {
                    let m = wsp(s, k + 1);
                    lemma_wsp(s, k + 1);
                    if i < m && m < s.len() {
                        lemma_parse_value_bounds(s, m);
                        match parse_value(s, m) {
                            Some((v, j2)) => {
                                lemma_wsp(s, j2);
                                let k2 = wsp(s, j2);
                                if 0 <= k2 < s.len() && s[k2] == ',' {
                                    let m2 = wsp(s, k2 + 1);
                                    if i < m2 <= s.len() {
                                        lemma_parse_fields_bounds(s, m2);
                                    }
                                }
                            },
                            None => {},
                        }
                    }
                }
            },
            None => {},
        }
    }
}

/// The value a whole text parses to: leading and trailing whitespace
/// allowed, nothing else around the one value.
pub open spec fn spec_parse_json(s: Seq<char>) -> Option<Json> {
    let i = wsp(s, 0);
    if 0 <= i && i <= s.len() {
        match parse_value(s, i) {
            Some((v, j)) => if 0 <= j <= s.len() && wsp(s, j) == s.len() {
                Some(v)
            } else {
                None
            },
            None => None,
        }
    } else {
        None
    }
}

fn wsp_from(v: &Vec<char>, i: usize) -> (r: usize)
    requires
        i <= v@.len(),
    ensures
        r == wsp(v@, i as int),
        i <= r <= v@.len(),
    decreases v@.len() - i,
{
    if i < v.len() {
        let c = v[i];
        if c == ' ' || c == '\t' || c == '\n' || c == '\r' {
            return wsp_from(v, i + 1);
        }
    }
    i
}

fn num_end_from(v: &Vec<char>, i: usize) -> (r: usize)
    requires
        i <= v@.len(),
    ensures
        r == num_end(v@, i as int),
        i <= r <= v@.len(),
    decreases v@.len() - i,
{
    if i < v.len() {
        let c = v[i];
        if ((c as u32) >= 0x30 && (c as u32) <= 0x39) || c == '-' || c == '+' || c == '.' || c
            == 'e' || c == 'E' {
            return num_end_from(v, i + 1);
        }
    }
    i
}

/// Whether the characters of `t` form a well-formed JSON number.
pub(crate) fn is_json_number_chars(t: &Vec<char>) -> (r: bool)
    ensures
        r == is_json_number(t@),
{
    let b: usize = if t.len() > 0 && t[0] == '-' {
        1
    } else {
        0
    };
    if t.len() <= b {
        return false;
    }
    let int_end: usize;
    if t[b] == '0' {
        int_end = b + 1;
    } else if (t[b] as u32) >= 0x30 && (t[b] as u32) <= 0x39 {
        int_end = crate::numeric::digit_run_from(t, b);
    } else {
        return false;
    }
    let frac_end: usize;
    if int_end < t.len() && t[int_end] == '.' {
        let d = crate::numeric::digit_run_from(t, int_end + 1);
        if d == int_end + 1 {
            return false;
        }
        frac_end = d;
    } else {
        frac_end = int_end;
    }
    if frac_end == t.len() {
        return true;
    }
    if t[frac_end] == 'e' || t[frac_end] == 'E' {
        let x = frac_end + 1;
        let y: usize = if x < t.len() && (t[x] == '+' || t[x] == '-') {
            x + 1
        } else {
            x
        };
        y < t.len() && crate::numeric::digit_run_from(t, y) == t.len()
    } else {
        false
    }
}

/// Relies on `char::from_u32`: the character with the given code, or
/// nothing when the code is a surrogate or out of range.
#[verifier::external_body]
fn char_from_code(n: u32) -> (r: Option<char>)
    ensures
        valid_scalar(n as int) ==> r == Some(n as char),
        !valid_scalar(n as int) ==> r is None,
{
    char::from_u32(n)
}

fn hex_val_exec(c: char) -> (r: Option<u32>)
    ensures
        match r {
            Some(x) => hex_val(c) == x as int && x < 16,
            None => hex_val(c) < 0,
        },
{
    let n = c as u32;
    if 0x30 <= n && n <= 0x39 {
        Some(n - 0x30)
    } else if 0x61 <= n && n <= 0x66 {
        Some(n - 0x61 + 10)
    } else if 0x41 <= n && n <= 0x46 {
        Some(n - 0x41 + 10)
    } else {
        None
    }
}

/// The body of a string literal from `start` (just past the opening
/// quote): the decoded characters and the position past the closing quote.
fn parse_string_body_exec(v: &Vec<char>, start: usize) -> (r: Option<(Vec<char>, usize)>)
    requires
        start <= v@.len(),
    ensures
        match r {
            Some(p) => parse_string_body(v@, start as int) == Some((p.0@, p.1 as int)) && p.1
                <= v@.len(),
            None => parse_string_body(v@, start as int) is None,
        },
{
    proof {
        lemma_parse_string_bounds(v@, start as int);
    }
    let mut out: Vec<char> = Vec::new();
    let mut i = start;
    loop
        invariant
            start <= i <= v@.len(),
            (parse_string_body(v@, start as int) is Some) == (parse_string_body(
                v@,
                i as int,
            ) is Some),
            parse_string_body(v@, i as int) matches Some((t, j)) ==> parse_string_body(
                v@,
                start as int,
            ) == Some((out@ + t, j)),
        decreases v@.len() - i,
    {
        if i >= v.len() {
            return None;
        }
        let c = v[i];
        if c == '"' {
            proof {
                assert(out@ + Seq::<char>::empty() =~= out@);
            }
            return Some((out, i + 1));
        }
        if c == '\\' {
            if i + 1 >= v.len() {
                return None;
            }
            let e = v[i + 1];
            if e == 'u' {
                if v.len() - i < 6 {
                    return None;
                }
                let h1 = hex_val_exec(v[i + 2]);
                let h2 = hex_val_exec(v[i + 3]);
                let h3 = hex_val_exec(v[i + 4]);
                let h4 = hex_val_exec(v[i + 5]);
                match (h1, h2, h3, h4) {
                    (Some(a), Some(b), Some(cc), Some(d)) => {
                        let code = a * 0x1000 + b * 0x100 + cc * 0x10 + d;
                        match char_from_code(code) {
                            Some(ch) => {
                                let ghost before = out@;
                                out.push(ch);
                                i = i + 6;
                                proof {
                                    assert(forall|t: Seq<char>|
                                        before + (seq![ch] + t) =~= (before.push(ch)) + t);
                                }
                            },
                            None => {
                                return None;
                            },
                        }
                    },
                    _ => {
                        return None;
                    },
                }
            } else if e == '"' || e == '\\' || e == '/' || e == 'b' || e == 'f' || e == 'n' || e
                == 'r' || e == 't' {
                let ch: char = if e == '"' {
                    '"'
                } else if e == '\\' {
                    '\\'
                } else if e == '/' {
                    '/'
                } else if e == 'b' {
                    '\u{8}'
                } else if e == 'f' {
                    '\u{c}'
                } else if e == 'n' {
                    '\n'
                } else if e == 'r' {
                    '\r'
                } else {
                    '\t'
                };
                let ghost before = out@;
                out.push(ch);
                i = i + 2;
                proof {
                    assert(forall|t: Seq<char>| before + (seq![ch] + t) =~= (before.push(ch)) + t);
                }
            } else {
                return None;
            }
        } else if (c as u32) < 0x20 {
            return None;
        } else {
            let ghost before = out@;
            out.push(c);
            i = i + 1;
            proof {
                assert(forall|t: Seq<char>| before + (seq![c] + t) =~= (before.push(c)) + t);
            }
        }
    }
}

/// The JSON value starting at `i`, and the position just past it.
fn parse_value_exec(v: &Vec<char>, i: usize) -> (r: Option<(JsonValue, usize)>)
    requires
        i <= v@.len(),
    ensures
        match r {
            Some(p) => parse_value(v@, i as int) == Some((p.0.view(), p.1 as int)) && i < p.1
                <= v@.len(),
            None => parse_value(v@, i as int) is None,
        },
    decreases v@.len() - i, 0int,
{
    proof {
        lemma_parse_value_bounds(v@, i as int);
    }
    if i >= v.len() {
        return None;
    }
    let c = v[i];
    if c == 'n' {
        if v.len() - i >= 4 && v[i + 1] == 'u' && v[i + 2] == 'l' && v[i + 3] == 'l' {
            Some((JsonValue::Null, i + 4))
        } else {
            None
        }
    } else if c == 't' {
        if v.len() - i >= 4 && v[i + 1] == 'r' && v[i + 2] == 'u' && v[i + 3] == 'e' {
            Some((JsonValue::Bool(true), i + 4))
        } else {
            None
        }
    } else if c == 'f' {
        if v.len() - i >= 5 && v[i + 1] == 'a' && v[i + 2] == 'l' && v[i + 3] == 's' && v[i + 4]
            == 'e' {
            Some((JsonValue::Bool(false), i + 5))
        } else {
            None
        }
    } else if c == '"' {
        match parse_string_body_exec(v, i + 1) {
            Some(p) => {
                let s = crate::text::chars_to_string(&p.0);
                Some((JsonValue::Str(s), p.1))
            },
            None => None,
        }
    } else if c == '[' {
        let j = wsp_from(v, i + 1);
        proof {
            lemma_wsp(v@, i as int + 1);
        }
        if j < v.len() && v[j] == ']' {
            let items: Vec<JsonValue> = Vec::new();
            proof {
                assert(crate::json::view_elems(items@) =~= Seq::<Json>::empty());
            }
            Some((JsonValue::Array(items), j + 1))
        } else {
            match parse_elems_exec(v, j) {
                Some(p) => Some((JsonValue::Array(p.0), p.1)),
                None => None,
            }
        }
    } else if c == '{' {
        let j = wsp_from(v, i + 1);
        proof {
            lemma_wsp(v@, i as int + 1);
        }
        if j < v.len() && v[j] == '}' {
            let fields: Vec<(String, JsonValue)> = Vec::new();
            proof {
                assert(crate::json::view_fields(fields@) =~= Seq::<(Seq<char>, Json)>::empty());
            }
            Some((JsonValue::Object(fields), j + 1))
        } else {
            match parse_fields_exec(v, j) {
                Some(p) => Some((JsonValue::Object(p.0), p.1)),
                None => None,
            }
        }
    } else if c == '-' || ((c as u32) >= 0x30 && (c as u32) <= 0x39) {
        let e = num_end_from(v, i);
        let mut t: Vec<char> = Vec::new();
        let mut k = i;
        while k < e
            invariant
                i <= k <= e <= v@.len(),
                t@ == v@.subrange(i as int, k as int),
            decreases e - k,
        {
            t.push(v[k]);
            k += 1;
            proof {
                assert(t@ =~= v@.subrange(i as int, k as int));
            }
        }
        proof {
            assert(t@ =~= v@.subrange(i as int, e as int));
        }
        if is_json_number_chars(&t) {
            let s = crate::text::chars_to_string(&t);
            Some((JsonValue::Number(s), e))
        } else {
            None
        }
    } else {
        None
    }
}

/// The elements of an array from the first element's position on, and the
/// position just past the closing bracket.
fn parse_elems_exec(v: &Vec<char>, i: usize) -> (r: Option<(Vec<JsonValue>, usize)>)
    requires
        i <= v@.len(),
    ensures
        match r {
            Some(p) => parse_elems(v@, i as int) == Some(
                (crate::json::view_elems(p.0@), p.1 as int),
            ) && i < p.1 <= v@.len(),
            None => parse_elems(v@, i as int) is None,
        },
    decreases v@.len() - i, 1int,
{
    proof {
        lemma_parse_elems_bounds(v@, i as int);
    }
    if i >= v.len() {
        return None;
    }
    match parse_value_exec(v, i) {
        Some(pv) => {
            let (jv, j) = pv;
            let k = wsp_from(v, j);
            proof {
                lemma_wsp(v@, j as int);
            }
            if k < v.len() && v[k] == ',' {
                let m = wsp_from(v, k + 1);
                proof {
                    lemma_wsp(v@, k as int + 1);
                }
                match parse_elems_exec(v, m) {
                    Some(pr) => {
                        let (mut rest, e) = pr;
                        let ghost rest0 = rest@;
                        let mut out: Vec<JsonValue> = Vec::new();
                        out.push(jv);
                        let ghost head = out@;
                        out.append(&mut rest);
                        proof {
                            crate::json::lemma_view_elems(out@);
                            crate::json::lemma_view_elems(rest0);
                            assert(crate::json::view_elems(out@) =~= seq![head[0].view()]
                                + crate::json::view_elems(rest0));
                        }
                        Some((out, e))
                    },
                    None => None,
                }
            } else if k < v.len() && v[k] == ']' {
                let mut out: Vec<JsonValue> = Vec::new();
                out.push(jv);
                proof {
                    crate::json::lemma_view_elems(out@);
                    assert(crate::json::view_elems(out@) =~= seq![jv.view()]);
                }
                Some((out, k + 1))
            } else {
                None
            }
        },
        None => None,
    }
}

/// The fields of an object from the first key's position on, and the
/// position just past the closing brace.
fn parse_fields_exec(v: &Vec<char>, i: usize) -> (r: Option<(Vec<(String, JsonValue)>, usize)>)
    requires
        i <= v@.len(),
    ensures
        match r {
            Some(p) => parse_fields(v@, i as int) == Some(
                (crate::json::view_fields(p.0@), p.1 as int),
            ) && i < p.1 <= v@.len(),
            None => parse_fields(v@, i as int) is None,
        },
    decreases v@.len() - i, 1int,
{
    proof {
        lemma_parse_fields_bounds(v@, i as int);
    }
    if i >= v.len() || v[i] != '"' {
        return None;
    }
    match parse_string_body_exec(v, i + 1) {
        Some(pk) => {
            let (key_cs, j) = pk;
            proof {
                lemma_parse_string_bounds(v@, i as int + 1);
            }
            let key = crate::text::chars_to_string(&key_cs);
            let k = wsp_from(v, j);
            proof {
                lemma_wsp(v@, j as int);
            }
            if !(k < v.len() && v[k] == ':') {
                return None;
            }
            let m = wsp_from(v, k + 1);
            proof {
                lemma_wsp(v@, k as int + 1);
            }
            if m >= v.len() {
                return None;
            }
            match parse_value_exec(v, m) {
                Some(pv) => {
                    let (jv, j2) = pv;
                    let k2 = wsp_from(v, j2);
                    proof {
                        lemma_wsp(v@, j2 as int);
                    }
                    if k2 < v.len() && v[k2] == ',' {
                        let m2 = wsp_from(v, k2 + 1);
                        proof {
                            lemma_wsp(v@, k2 as int + 1);
                        }
                        match parse_fields_exec(v, m2) {
                            Some(pr) => {
                                let (mut rest, e) = pr;
                                let ghost rest0 = rest@;
                                let mut out: Vec<(String, JsonValue)> = Vec::new();
                                out.push((key, jv));
                                let ghost head = out@;
                                out.append(&mut rest);
                                proof {
                                    crate::json::lemma_view_fields(out@);
                                    crate::json::lemma_view_fields(rest0);
                                    assert(crate::json::view_fields(out@) =~= seq![
                                        (head[0].0@, head[0].1.view()),
                                    ] + crate::json::view_fields(rest0));
                                }
                                Some((out, e))
                            },
                            None => None,
                        }
                    } else if k2 < v.len() && v[k2] == '}' {
                        let mut out: Vec<(String, JsonValue)> = Vec::new();
                        out.push((key, jv));
                        proof {
                            crate::json::lemma_view_fields(out@);
                            assert(crate::json::view_fields(out@) =~= seq![(key_cs@, jv.view())]);
                        }
                        Some((out, k2 + 1))
                    } else {
                        None
                    }
                },
                None => None,
            }
        },
        None => None,
    }
}

/// The JSON value a text holds, or nothing when the text is not one JSON
/// value surrounded by nothing but whitespace.
pub fn parse_json(s: &str) -> (r: Option<JsonValue>)
    ensures
        match r {
            Some(jv) => spec_parse_json(s@) == Some(jv.view()),
            None => spec_parse_json(s@) is None,
        },
{
    let cs = crate::text::str_to_chars(s);
    let i = wsp_from(&cs, 0);
    proof {
        lemma_wsp(s@, 0);
    }
    match parse_value_exec(&cs, i) {
        Some(p) => {
            let (jv, j) = p;
            let k = wsp_from(&cs, j);
            if k == cs.len() {
                Some(jv)
            } else {
                None
            }
        },
        None => None,
    }
}

} // verus!
