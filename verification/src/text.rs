//! Character-level text utilities.
//!
//! The engine does all of its text work on `Vec<char>` buffers, whose view
//! is a `Seq<char>`, and converts to `String` only at the public boundary.

use vstd::prelude::*;

verus! {

/// Relies on `String::push`: it appends exactly one character.
#[verifier::external_body]
fn push_char(s: &mut String, c: char)
    ensures
        final(s)@ == old(s)@.push(c),
{
    s.push(c);
}

/// The characters of a string slice, in order.
pub fn str_to_chars(s: &str) -> (v: Vec<char>)
    ensures
        v@ == s@,
{
    let mut v: Vec<char> = Vec::new();
    for c in it: s.chars()
        invariant
            it.seq() == s@,
            v@ == it.seq().take(it.index() as int),
    {
        v.push(c);
    }
    proof {
        assert(v@ =~= s@);
    }
    v
}

/// The string made of the given characters, in order.
pub fn chars_to_string(v: &Vec<char>) -> (s: String)
    ensures
        s@ == v@,
{
    let mut s = String::new();
    let mut i: usize = 0;
    while i < v.len()
        invariant
            0 <= i <= v.len(),
            s@ == v@.take(i as int),
        decreases v.len() - i,
    {
        push_char(&mut s, v[i]);
        i += 1;
        proof {
            assert(s@ =~= v@.take(i as int));
        }
    }
    proof {
        assert(v@.take(v.len() as int) =~= v@);
    }
    s
}

/// Appends a copy of `piece` to `out`.
pub fn append_chars(out: &mut Vec<char>, piece: &Vec<char>)
    ensures
        final(out)@ == old(out)@ + piece@,
{
    let mut i: usize = 0;
    while i < piece.len()
        invariant
            0 <= i <= piece.len(),
            out@ == old(out)@ + piece@.take(i as int),
        decreases piece.len() - i,
    {
        out.push(piece[i]);
        i += 1;
        proof {
            assert(out@ =~= old(out)@ + piece@.take(i as int));
        }
    }
    proof {
        assert(old(out)@ + piece@.take(piece@.len() as int) =~= old(out)@ + piece@);
    }
}

/// Appends the characters of `s` to `out`.
pub fn append_str(out: &mut Vec<char>, s: &str)
    ensures
        final(out)@ == old(out)@ + s@,
{
    let piece = str_to_chars(s);
    append_chars(out, &piece);
}

/// Whether two string slices hold the same characters.
pub fn str_eq(a: &str, b: &str) -> (r: bool)
    ensures
        r == (a@ == b@),
{
    let va = str_to_chars(a);
    let vb = str_to_chars(b);
    chars_eq(&va, &vb)
}

/// Whether two character buffers hold the same characters.
pub fn chars_eq(a: &Vec<char>, b: &Vec<char>) -> (r: bool)
    ensures
        r == (a@ == b@),
{
    if a.len() != b.len() {
        proof {
            assert(a@.len() != b@.len());
        }
        return false;
    }
    let mut i: usize = 0;
    while i < a.len()
        invariant
            0 <= i <= a.len(),
            a@.len() == b@.len(),
            forall|j: int| 0 <= j < i ==> a@[j] == b@[j],
        decreases a.len() - i,
    {
        if a[i] != b[i] {
            return false;
        }
        i += 1;
    }
    proof {
        assert(a@ =~= b@);
    }
    true
}

/// The decimal digits of `n`, most significant first.
pub open spec fn dec_rep(n: nat) -> Seq<char>
    decreases n,
{
    if n < 10 {
        seq![crate::codec::hex_digit(n)]
    } else {
        dec_rep(n / 10).push(crate::codec::hex_digit(n % 10))
    }
}

/// The decimal text of a signed number: a minus sign for a negative one,
/// then its magnitude's digits.
pub open spec fn dec_rep_signed(n: int) -> Seq<char> {
    if n >= 0 {
        dec_rep(n as nat)
    } else {
        seq!['-'] + dec_rep((-n) as nat)
    }
}

fn dec_digit(d: u64) -> (c: char)
    requires
        d < 10,
    ensures
        c == crate::codec::hex_digit(d as nat),
{
    match d {
        0 => '0',
        1 => '1',
        2 => '2',
        3 => '3',
        4 => '4',
        5 => '5',
        6 => '6',
        7 => '7',
        8 => '8',
        _ => '9',
    }
}

fn u64_dec_chars(n: u64) -> (v: Vec<char>)
    ensures
        v@ == dec_rep(n as nat),
    decreases n,
{
    if n < 10 {
        let mut v: Vec<char> = Vec::new();
        v.push(dec_digit(n));
        proof {
            assert(v@ =~= dec_rep(n as nat));
        }
        v
    } else {
        let mut v = u64_dec_chars(n / 10);
        v.push(dec_digit(n % 10));
        v
    }
}

/// The decimal text of an unsigned number.
pub fn u64_to_string(n: u64) -> (r: String)
    ensures
        r@ == dec_rep(n as nat),
{
    let v = u64_dec_chars(n);
    chars_to_string(&v)
}

/// The decimal text of a signed number.
pub fn i64_to_string(n: i64) -> (r: String)
    ensures
        r@ == dec_rep_signed(n as int),
{
    if n >= 0 {
        u64_to_string(n as u64)
    } else {
        let mag: u64 = if n == i64::MIN {
            0x8000000000000000u64
        } else {
            (-n) as u64
        };
        let mut v: Vec<char> = Vec::new();
        v.push('-');
        let d = u64_dec_chars(mag);
        append_chars(&mut v, &d);
        proof {
            assert(v@ =~= dec_rep_signed(n as int));
        }
        chars_to_string(&v)
    }
}

/// The decimal text of a machine integer.
pub fn i32_to_string(n: i32) -> (r: String)
    ensures
        r@ == dec_rep_signed(n as int),
{
    i64_to_string(n as i64)
}

/// The text of a boolean: `true` or `false`.
pub fn bool_to_string(b: bool) -> (r: String)
    ensures
        r@ == (if b {
            seq!['t', 'r', 'u', 'e']
        } else {
            seq!['f', 'a', 'l', 's', 'e']
        }),
{
    let mut v: Vec<char> = Vec::new();
    if b {
        v.push('t');
        v.push('r');
        v.push('u');
        v.push('e');
    } else {
        v.push('f');
        v.push('a');
        v.push('l');
        v.push('s');
        v.push('e');
    }
    proof {
        assert(v@ =~= if b {
            seq!['t', 'r', 'u', 'e']
        } else {
            seq!['f', 'a', 'l', 's', 'e']
        });
    }
    chars_to_string(&v)
}

/// A run of `n` spaces.
pub fn spaces(n: usize) -> (v: Vec<char>)
    ensures
        v@ == Seq::new(n as nat, |i: int| ' '),
{
    let mut v: Vec<char> = Vec::new();
    let mut i: usize = 0;
    while i < n
        invariant
            0 <= i <= n,
            v@ == Seq::new(i as nat, |j: int| ' '),
        decreases n - i,
    {
        v.push(' ');
        i += 1;
        proof {
            assert(v@ =~= Seq::new(i as nat, |j: int| ' '));
        }
    }
    v
}

} // verus!
