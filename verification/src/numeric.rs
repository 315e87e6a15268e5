//! Recognizing numeric text: whether a string parses as a floating-point
//! number.
//!
//! The grammar is the one `f64`'s `FromStr` documents: an optional sign,
//! then either one of the case-insensitive keywords `inf`, `infinity`,
//! `nan`, or a mantissa (digits with an optional point) with an optional
//! exponent.

use vstd::prelude::*;

verus! {

pub open spec fn is_digit(c: char) -> bool {
    0x30 <= (c as u32) <= 0x39
}

/// The first position at or after `i` that does not hold a digit.
pub open spec fn digit_run(s: Seq<char>, i: int) -> int
    decreases s.len() - i,
{
    if 0 <= i < s.len() && is_digit(s[i]) {
        digit_run(s, i + 1)
    } else {
        i
    }
}

pub proof fn lemma_digit_run(s: Seq<char>, i: int)
    requires
        0 <= i <= s.len(),
    ensures
        i <= digit_run(s, i) <= s.len(),
        forall|j: int| i <= j < digit_run(s, i) ==> is_digit(s[j]),
        digit_run(s, i) < s.len() ==> !is_digit(s[digit_run(s, i)]),
    decreases s.len() - i,
{
    if i < s.len() && is_digit(s[i]) {
        lemma_digit_run(s, i + 1);
    }
}

/// Whether `c` is `l` in either case, for a lower-case ASCII letter `l`.
pub open spec fn eq_ci(c: char, l: char) -> bool {
    c == l || (c as u32) + 32 == (l as u32)
}

/// The case-insensitive keywords that `f64` parsing accepts.
pub open spec fn is_float_keyword(t: Seq<char>) -> bool {
    ||| (t.len() == 3 && eq_ci(t[0], 'i') && eq_ci(t[1], 'n') && eq_ci(t[2], 'f'))
    ||| (t.len() == 8 && eq_ci(t[0], 'i') && eq_ci(t[1], 'n') && eq_ci(t[2], 'f') && eq_ci(
        t[3],
        'i',
    ) && eq_ci(t[4], 'n') && eq_ci(t[5], 'i') && eq_ci(t[6], 't') && eq_ci(t[7], 'y'))
    ||| (t.len() == 3 && eq_ci(t[0], 'n') && eq_ci(t[1], 'a') && eq_ci(t[2], 'n'))
}

/// Where the mantissa of `t` ends, or `-1` if `t` does not start with a
/// well-formed mantissa: digits with an optional point, or a point followed
/// by at least one digit.
pub open spec fn mantissa_end(t: Seq<char>) -> int {
    let d1 = digit_run(t, 0);
    if d1 == 0 {
        if t.len() >= 1 && t[0] == '.' {
            let d2 = digit_run(t, 1);
            if d2 == 1 {
                -1
            } else {
                d2
            }
        } else {
            -1
        }
    } else {
        if d1 < t.len() && t[d1] == '.' {
            digit_run(t, d1 + 1)
        } else {
            d1
        }
    }
}

/// Whether `t` from position `i` on is a well-formed exponent part:
/// `e` or `E`, an optional sign, and at least one digit, to the end.
pub open spec fn is_exponent(t: Seq<char>, i: int) -> bool {
    &&& 0 <= i < t.len()
    &&& (t[i] == 'e' || t[i] == 'E')
    &&& {
        let j = if i + 1 < t.len() && (t[i + 1] == '+' || t[i + 1] == '-') {
            i + 2
        } else {
            i + 1
        };
        j < t.len() && digit_run(t, j) == t.len()
    }
}

/// Whether `t` is a number body: a mantissa followed by an optional
/// exponent.
pub open spec fn is_float_body(t: Seq<char>) -> bool {
    let m = mantissa_end(t);
    if m < 0 {
        false
    } else if m == t.len() {
        true
    } else {
        is_exponent(t, m)
    }
}

/// Whether `s` parses as a floating-point number: an optional sign, then a
/// keyword or a number body.
pub open spec fn is_float_literal(s: Seq<char>) -> bool {
    if s.len() == 0 {
        false
    } else {
        let t = if s[0] == '+' || s[0] == '-' {
            s.subrange(1, s.len() as int)
        } else {
            s
        };
        is_float_keyword(t) || is_float_body(t)
    }
}

pub(crate) fn digit_run_from(v: &Vec<char>, i: usize) -> (r: usize)
    requires
        i <= v@.len(),
    ensures
        r == digit_run(v@, i as int),
        i <= r <= v@.len(),
    decreases v@.len() - i,
{
    if i < v.len() {
        let c = v[i];
        if (c as u32) >= 0x30 && (c as u32) <= 0x39 {
            return digit_run_from(v, i + 1);
        }
    }
    i
}

fn char_eq_ci(c: char, l: char) -> (r: bool)
    ensures
        r == eq_ci(c, l),
{
    c == l || (c as u32) + 32 == (l as u32)
}

fn is_keyword_at(v: &Vec<char>, start: usize) -> (r: bool)
    requires
        start <= v@.len(),
    ensures
        r == is_float_keyword(v@.subrange(start as int, v@.len() as int)),
{
    let ghost t = v@.subrange(start as int, v@.len() as int);
    let n = v.len() - start;
    if n == 3 {
        let r = (char_eq_ci(v[start], 'i') && char_eq_ci(v[start + 1], 'n') && char_eq_ci(
            v[start + 2],
            'f',
        )) || (char_eq_ci(v[start], 'n') && char_eq_ci(v[start + 1], 'a') && char_eq_ci(
            v[start + 2],
            'n',
        ));
        proof {
            assert(t.len() == 3);
            assert(t[0] == v@[start as int]);
            assert(t[1] == v@[start as int + 1]);
            assert(t[2] == v@[start as int + 2]);
        }
        r
    } else if n == 8 {
        let r = char_eq_ci(v[start], 'i') && char_eq_ci(v[start + 1], 'n') && char_eq_ci(
            v[start + 2],
            'f',
        ) && char_eq_ci(v[start + 3], 'i') && char_eq_ci(v[start + 4], 'n') && char_eq_ci(
            v[start + 5],
            'i',
        ) && char_eq_ci(v[start + 6], 't') && char_eq_ci(v[start + 7], 'y');
        proof {
            assert(t.len() == 8);
            assert forall|k: int| 0 <= k < 8 implies t[k] == v@[start + k] by {}
        }
        r
    } else {
        false
    }
}

/// Whether the characters of `v`, from `start` on, form a number body with
/// an optional exponent.
fn is_body_at(v: &Vec<char>, start: usize) -> (r: bool)
    requires
        start <= v@.len(),
    ensures
        r == is_float_body(v@.subrange(start as int, v@.len() as int)),
{
    let ghost t = v@.subrange(start as int, v@.len() as int);
    proof {
        lemma_digit_run_shift(v@, start as int, start as int);
        assert forall|k: int| 0 <= k < t.len() implies t[k] == v@[start + k] by {}
    }
    let d1 = digit_run_from(v, start);
    proof {
        lemma_digit_run_shift(v@, start as int, start as int);
    }
    let m: usize;
    if d1 == start {
        if start < v.len() && v[start] == '.' {
            proof {
                lemma_digit_run_shift(v@, start as int, start as int + 1);
            }
            let d2 = digit_run_from(v, start + 1);
            if d2 == start + 1 {
                proof {
                    assert(mantissa_end(t) == -1);
                }
                return false;
            }
            m = d2;
        } else {
            proof {
                assert(mantissa_end(t) == -1);
            }
            return false;
        }
    } else {
        if d1 < v.len() && v[d1] == '.' {
            proof {
                lemma_digit_run_shift(v@, start as int, d1 as int + 1);
            }
            m = digit_run_from(v, d1 + 1);
        } else {
            m = d1;
        }
    }
    proof {
        assert(mantissa_end(t) == m - start);
    }
    if m == v.len() {
        return true;
    }
    // exponent part
    let c = v[m];
    if c != 'e' && c != 'E' {
        return false;
    }
    let j = if m + 1 < v.len() && (v[m + 1] == '+' || v[m + 1] == '-') {
        m + 2
    } else {
        m + 1
    };
    if j >= v.len() {
        return false;
    }
    proof {
        lemma_digit_run_shift(v@, start as int, j as int);
    }
    let e = digit_run_from(v, j);
    e == v.len()
}

/// A digit run within a suffix equals the digit run of the whole text,
/// shifted.
proof fn lemma_digit_run_shift(s: Seq<char>, start: int, i: int)
    requires
        0 <= start <= i <= s.len(),
    ensures
        digit_run(s.subrange(start, s.len() as int), i - start) == digit_run(s, i) - start,
    decreases s.len() - i,
{
    let t = s.subrange(start, s.len() as int);
    if i < s.len() && is_digit(s[i]) {
        lemma_digit_run_shift(s, start, i + 1);
    }
}

/// Whether the text `v` parses as a floating-point number.
pub fn is_numeric_chars(v: &Vec<char>) -> (r: bool)
    ensures
        r == is_float_literal(v@),
{
    if v.len() == 0 {
        return false;
    }
    let c = v[0];
    let start: usize = if c == '+' || c == '-' {
        1
    } else {
        0
    };
    proof {
        if start == 0 {
            assert(v@.subrange(0, v@.len() as int) =~= v@);
        }
    }
    let kw = is_keyword_at(v, start);
    if kw {
        true
    } else {
        is_body_at(v, start)
    }
}

} // verus!
