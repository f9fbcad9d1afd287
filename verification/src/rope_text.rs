//! Trusted interface to the rope that stores document text.
//!
//! The buffer keeps its content in a `ropey::Rope` so that edits and
//! position lookups cost O(log n).  The rope is opaque to the verifier;
//! `rope_text` names the sequence of characters it holds, and each
//! wrapper below states, over that sequence and the line model of
//! `crate::lines`, what the corresponding `ropey` call returns.  Ropey
//! recognizes exactly the line terminators of `crate::lines`: LF, VT, FF,
//! CR, NEL, LS and PS, with CRLF counted as a single terminator.

use vstd::prelude::*;

use crate::lines::{line_count, line_of, line_start};

verus! {

#[verifier::external_type_specification]
#[verifier::external_body]
pub struct ExRope(ropey::Rope);

/// The characters held by a rope, in order.
pub uninterp spec fn rope_text(r: ropey::Rope) -> Seq<char>;

/// Relies on `Rope::from_str`: builds a rope holding exactly the
/// characters of `s`.
#[verifier::external_body]
pub fn rope_from_str(s: &str) -> (r: ropey::Rope)
    ensures
        rope_text(r) == s@,
{
    ropey::Rope::from_str(s)
}

/// Relies on `Rope::len_chars`: the total number of characters.
#[verifier::external_body]
pub fn rope_len_chars(r: &ropey::Rope) -> (n: usize)
    ensures
        n == rope_text(*r).len(),
{
    r.len_chars()
}

/// Relies on `Rope::len_lines`: one more than the number of line
/// terminators, counting CRLF as one.
#[verifier::external_body]
pub fn rope_len_lines(r: &ropey::Rope) -> (n: usize)
    ensures
        n == line_count(rope_text(*r)),
{
    r.len_lines()
}

/// Relies on `Rope::char_to_line`: the index of the line a character
/// position lies on, i.e. the number of line terminators before it.
#[verifier::external_body]
pub fn rope_char_to_line(r: &ropey::Rope, char_idx: usize) -> (l: usize)
    requires
        char_idx <= rope_text(*r).len(),
    ensures
        l == line_of(rope_text(*r), char_idx as int),
{
    r.char_to_line(char_idx)
}

/// Relies on `Rope::line_to_char`: the character position at which a line
/// starts; one-past-the-end for the line index equal to the line count.
#[verifier::external_body]
pub fn rope_line_to_char(r: &ropey::Rope, line_idx: usize) -> (o: usize)
    requires
        line_idx <= line_count(rope_text(*r)),
    ensures
        o == line_start(rope_text(*r), line_idx as int),
{
    r.line_to_char(line_idx)
}

/// Relies on `Rope::line` and `RopeSlice::len_chars`: the number of
/// characters of a line, its terminator included, which is the distance
/// to the start of the next line.
#[verifier::external_body]
pub fn rope_line_len(r: &ropey::Rope, line_idx: usize) -> (n: usize)
    requires
        line_idx < line_count(rope_text(*r)),
    ensures
        n == line_start(rope_text(*r), line_idx + 1) - line_start(rope_text(*r), line_idx as int),
{
    r.line(line_idx).len_chars()
}

/// Relies on `Rope::line` and `RopeSlice`'s `Display`: the characters of
/// a line, its terminator included.
#[verifier::external_body]
pub fn rope_line_to_string(r: &ropey::Rope, line_idx: usize) -> (s: String)
    requires
        line_idx < line_count(rope_text(*r)),
    ensures
        s@ == rope_text(*r).subrange(
            line_start(rope_text(*r), line_idx as int),
            line_start(rope_text(*r), line_idx + 1),
        ),
{
    r.line(line_idx).to_string()
}

/// Relies on `Rope`'s `Display`: the whole text as one string.
#[verifier::external_body]
pub fn rope_to_string(r: &ropey::Rope) -> (s: String)
    ensures
        s@ == rope_text(*r),
{
    r.to_string()
}

/// Relies on `Rope::remove`: deletes the characters in `[start, end)`.
#[verifier::external_body]
pub fn rope_remove(r: &mut ropey::Rope, start: usize, end: usize)
    requires
        start <= end <= rope_text(*old(r)).len(),
    ensures
        rope_text(*final (r)) == rope_text(*old(r)).subrange(0, start as int) + rope_text(
            *old(r),
        ).subrange(end as int, rope_text(*old(r)).len() as int),
{
    r.remove(start..end)
}

/// Relies on `Rope::insert`: inserts the characters of `text` at the
/// given character position.
#[verifier::external_body]
pub fn rope_insert(r: &mut ropey::Rope, char_idx: usize, text: &str)
    requires
        char_idx <= rope_text(*old(r)).len(),
    ensures
        rope_text(*final (r)) == rope_text(*old(r)).subrange(0, char_idx as int) + text@
            + rope_text(*old(r)).subrange(char_idx as int, rope_text(*old(r)).len() as int),
{
    r.insert(char_idx, text)
}

} // verus!
