//! Character classes the segmenter and line breaker read.
//!
//! The engine works at the code-point level with a small classification:
//! hard break, breakable space, combining mark (joins the preceding base
//! into one grapheme cluster), and break-anywhere ideographic script.

use vstd::prelude::*;

verus! {

/// A hard line break.
pub open spec fn is_newline(c: char) -> bool {
    c == '\n'
}

/// Breakable whitespace: a line may wrap after it, and a run of it at a
/// line end is excluded from the line's ink width.
pub open spec fn is_space(c: char) -> bool {
    c == ' ' || c == '\t'
}

/// A combining mark: joins the preceding base character into a single
/// grapheme cluster. The ranges are the combining diacritical mark
/// blocks and their extensions.
pub open spec fn is_combining_mark(c: char) -> bool {
    let u = c as u32;
    (0x0300 <= u && u <= 0x036F) || (0x1AB0 <= u && u <= 0x1AFF) || (0x1DC0 <= u && u <= 0x1DFF)
        || (0x20D0 <= u && u <= 0x20FF) || (0xFE20 <= u && u <= 0xFE2F)
}

/// A code point of a break-anywhere script: a line may wrap between any
/// two such clusters with no intervening space. The ranges cover CJK
/// radicals, punctuation, kana, the unified ideographs with extension A,
/// and the compatibility ideographs.
pub open spec fn is_ideographic(c: char) -> bool {
    let u = c as u32;
    (0x2E80 <= u && u <= 0x303F) || (0x3040 <= u && u <= 0x30FF) || (0x3400 <= u && u <= 0x4DBF)
        || (0x4E00 <= u && u <= 0x9FFF) || (0xF900 <= u && u <= 0xFAFF)
}

/// Equality of two names (code-point sequences).
pub fn chars_eq(a: &Vec<char>, b: &Vec<char>) -> (r: bool)
    ensures
        r == (a@ == b@),
{
    if a.len() != b.len() {
        assert(a@ != b@) by {
            assert(a@.len() != b@.len());
        }
        return false;
    }
    let n = a.len();
    let mut i: usize = 0;
    while i < n
        invariant
            0 <= i <= n,
            n == a@.len() && n == b@.len(),
            forall|j: int| 0 <= j < i ==> a@[j] == b@[j],
        decreases n - i,
    {
        if a[i] != b[i] {
            return false;
        }
        i = i + 1;
    }
    proof {
        assert(a@ =~= b@);
    }
    true
}

/// Runtime test for [`is_newline`].
pub fn newline(c: char) -> (r: bool)
    ensures
        r == is_newline(c),
{
    c == '\n'
}

/// Runtime test for [`is_space`].
pub fn space(c: char) -> (r: bool)
    ensures
        r == is_space(c),
{
    c == ' ' || c == '\t'
}

/// Runtime test for [`is_combining_mark`].
pub fn combining_mark(c: char) -> (r: bool)
    ensures
        r == is_combining_mark(c),
{
    let u = c as u32;
    (0x0300 <= u && u <= 0x036F) || (0x1AB0 <= u && u <= 0x1AFF) || (0x1DC0 <= u && u <= 0x1DFF)
        || (0x20D0 <= u && u <= 0x20FF) || (0xFE20 <= u && u <= 0xFE2F)
}

/// Runtime test for [`is_ideographic`].
pub fn ideographic(c: char) -> (r: bool)
    ensures
        r == is_ideographic(c),
{
    let u = c as u32;
    (0x2E80 <= u && u <= 0x303F) || (0x3040 <= u && u <= 0x30FF) || (0x3400 <= u && u <= 0x4DBF)
        || (0x4E00 <= u && u <= 0x9FFF) || (0xF900 <= u && u <= 0xFAFF)
}

} // verus!
