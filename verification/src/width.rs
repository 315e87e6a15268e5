//! Unicode-aware display-width measurement.
//!
//! The width of a single character comes from the `unicode_width` crate's
//! East-Asian-width tables; the width of a text is the sum of its
//! characters' widths, saturating at `usize::MAX` so that it can always be
//! held in a machine word.

use vstd::prelude::*;

verus! {

/// The number of terminal columns a character occupies.
pub uninterp spec fn char_display_width(c: char) -> nat;

/// Relies on `unicode_width::UnicodeWidthChar::width`: the displayed width
/// in columns of a character, by the crate's East-Asian-width tables. It
/// depends on the character alone, is at most three columns, and is exactly
/// one column for printable ASCII. A control character, for which the crate
/// returns no width, counts as zero columns here.
#[verifier::external_body]
pub fn char_width(c: char) -> (w: usize)
    ensures
        w as nat == char_display_width(c),
        w <= 3,
        0x20 <= (c as u32) < 0x7f ==> w == 1,
{
    unicode_width::UnicodeWidthChar::width(c).unwrap_or(0)
}

/// The display width of a text: the sum of its characters' widths,
/// saturating at `usize::MAX`.
pub open spec fn text_width(s: Seq<char>) -> nat
    decreases s.len(),
{
    if s.len() == 0 {
        0
    } else {
        let w = text_width(s.drop_last()) + char_display_width(s.last());
        if w > usize::MAX as nat {
            usize::MAX as nat
        } else {
            w as nat
        }
    }
}

/// The display width of a character buffer.
pub fn display_width(v: &Vec<char>) -> (w: usize)
    ensures
        w as nat == text_width(v@),
{
    let mut w: usize = 0;
    let mut i: usize = 0;
    while i < v.len()
        invariant
            0 <= i <= v.len(),
            w as nat == text_width(v@.take(i as int)),
        decreases v.len() - i,
    {
        let cw = char_width(v[i]);
        w = if w > usize::MAX - cw {
            usize::MAX
        } else {
            w + cw
        };
        i += 1;
        proof {
            assert(v@.take(i as int).drop_last() =~= v@.take(i - 1));
            assert(v@.take(i as int).last() == v@[i - 1]);
        }
    }
    proof {
        assert(v@.take(v@.len() as int) =~= v@);
    }
    w
}

} // verus!
