//! The line model of a document: where lines begin and end in a sequence
//! of characters.
//!
//! A character ends a line if it is one of the Unicode line terminators
//! LF, VT, FF, CR, NEL (U+0085), LS (U+2028) or PS (U+2029), except that a
//! CR immediately followed by LF defers to the LF, so the pair counts as a
//! single terminator.  Line `l` starts immediately after the `l`-th
//! terminator; a text that ends in a terminator therefore has a final
//! empty line, and a text with `n` terminators has `n + 1` lines.

use vstd::prelude::*;

verus! {

/// Characters that can terminate a line.
pub open spec fn is_break_char(c: char) -> bool {
    c == '\n' || c == '\u{0B}' || c == '\u{0C}' || c == '\r' || c == '\u{85}' || c == '\u{2028}'
        || c == '\u{2029}'
}

pub fn break_char(c: char) -> (r: bool)
    ensures
        r == is_break_char(c),
{
    c == '\n' || c == '\u{0B}' || c == '\u{0C}' || c == '\r' || c == '\u{85}' || c == '\u{2028}'
        || c == '\u{2029}'
}

/// The character at index `i` terminates a line.  A CR directly followed
/// by LF does not terminate one itself: the following LF does.
pub open spec fn is_line_end(s: Seq<char>, i: int) -> bool {
    &&& 0 <= i < s.len()
    &&& is_break_char(s[i])
    &&& !(s[i] == '\r' && i + 1 < s.len() && s[i + 1] == '\n')
}

/// Number of line terminators among the first `o` characters.
pub open spec fn breaks_before(s: Seq<char>, o: int) -> int
    decreases o,
{
    if o <= 0 {
        0
    } else {
        breaks_before(s, o - 1) + if is_line_end(s, o - 1) {
            1 as int
        } else {
            0 as int
        }
    }
}

/// Zero-based index of the line that the character position `o` lies on;
/// equals the number of terminators before `o`.
pub open spec fn line_of(s: Seq<char>, o: int) -> int {
    breaks_before(s, o)
}

/// Number of lines of the text: terminators plus one.
pub open spec fn line_count(s: Seq<char>) -> int {
    breaks_before(s, s.len() as int) + 1
}

/// Position immediately after the first line terminator at or after `o`,
/// or the end of the text if there is none.
pub open spec fn next_line_start(s: Seq<char>, o: int) -> int
    decreases s.len() - o,
{
    if o < 0 {
        next_line_start(s, 0)
    } else if o >= s.len() {
        s.len() as int
    } else if is_line_end(s, o) {
        o + 1
    } else {
        next_line_start(s, o + 1)
    }
}

/// Character position of the start of line `l`; the end of the text for
/// any `l` at or past the line count.
pub open spec fn line_start(s: Seq<char>, l: int) -> int
    decreases l,
{
    if l <= 0 {
        0
    } else {
        next_line_start(s, line_start(s, l - 1))
    }
}

/// Length in characters of line `l`, its terminator included.
pub open spec fn line_len(s: Seq<char>, l: int) -> int {
    line_start(s, l + 1) - line_start(s, l)
}

/// The characters of line `l`, terminator included.
pub open spec fn line_seq(s: Seq<char>, l: int) -> Seq<char> {
    s.subrange(line_start(s, l), line_start(s, l + 1))
}

/// `l` with one trailing line terminator removed: a final CRLF pair, or
/// a final single terminator character; `l` unchanged when it ends in
/// neither.
pub open spec fn strip_terminator(l: Seq<char>) -> Seq<char> {
    if l.len() >= 2 && l[l.len() - 2] == '\r' && l[l.len() - 1] == '\n' {
        l.subrange(0, l.len() - 2)
    } else if l.len() >= 1 && is_break_char(l[l.len() - 1]) {
        l.subrange(0, l.len() - 1)
    } else {
        l
    }
}

pub proof fn lemma_breaks_before_mono(s: Seq<char>, a: int, b: int)
    requires
        a <= b,
    ensures
        breaks_before(s, a) <= breaks_before(s, b),
        breaks_before(s, b) - breaks_before(s, a) <= b - a,
    decreases b - a,
{
    if a < b {
        lemma_breaks_before_mono(s, a, b - 1);
    }
}

/// Between two positions with equally many terminators before them no
/// character terminates a line.
pub proof fn lemma_no_end_between(s: Seq<char>, a: int, b: int, j: int)
    requires
        a <= j < b,
        breaks_before(s, a) == breaks_before(s, b),
    ensures
        !is_line_end(s, j),
{
    lemma_breaks_before_mono(s, a, j);
    lemma_breaks_before_mono(s, j + 1, b);
}

pub proof fn lemma_next_line_start(s: Seq<char>, o: int)
    requires
        0 <= o <= s.len(),
    ensures
        o <= next_line_start(s, o) <= s.len(),
        o < s.len() ==> next_line_start(s, o) > o,
        forall|j: int| o <= j < next_line_start(s, o) - 1 ==> !is_line_end(s, j),
        next_line_start(s, o) > o ==> (is_line_end(s, next_line_start(s, o) - 1)
            || next_line_start(s, o) == s.len()),
    decreases s.len() - o,
{
    if o < s.len() && !is_line_end(s, o) {
        lemma_next_line_start(s, o + 1);
        assert(next_line_start(s, o) == next_line_start(s, o + 1));
    }
}

/// Counting characterization of `next_line_start`: the terminator count is
/// unchanged up to the position before it, and increases by one exactly
/// when a terminator was found.
pub proof fn lemma_next_line_start_breaks(s: Seq<char>, o: int)
    requires
        0 <= o <= s.len(),
    ensures
        breaks_before(s, next_line_start(s, o)) == breaks_before(s, o) + if next_line_start(s, o)
            > o && is_line_end(s, next_line_start(s, o) - 1) {
            1 as int
        } else {
            0 as int
        },
    decreases s.len() - o,
{
    lemma_next_line_start(s, o);
    if o < s.len() && !is_line_end(s, o) {
        lemma_next_line_start_breaks(s, o + 1);
    }
}

/// The start of line `l` lies in the text, starts are monotone in `l`,
/// exactly `min(l, terminators)` terminators precede the start of line
/// `l`, and a line start is either 0 or preceded by a terminator.
pub proof fn lemma_line_start(s: Seq<char>, l: int)
    requires
        l >= 0,
    ensures
        0 <= line_start(s, l) <= s.len(),
        line_start(s, l) <= line_start(s, l + 1),
        breaks_before(s, line_start(s, l)) == if l <= breaks_before(s, s.len() as int) {
            l
        } else {
            breaks_before(s, s.len() as int)
        },
        l >= line_count(s) ==> line_start(s, l) == s.len(),
        line_start(s, l) > 0 ==> is_line_end(s, line_start(s, l) - 1) || l >= line_count(s),
    decreases l,
{
    let total = breaks_before(s, s.len() as int);
    lemma_breaks_before_mono(s, 0, s.len() as int);
    if l == 0 {
        lemma_next_line_start(s, 0);
        assert(line_start(s, 0) == 0);
        assert(line_start(s, 1) == next_line_start(s, 0));
    } else {
        lemma_line_start(s, l - 1);
        let p = line_start(s, l - 1);
        lemma_next_line_start(s, p);
        lemma_next_line_start_breaks(s, p);
        let q = line_start(s, l);
        assert(q == next_line_start(s, p));
        lemma_next_line_start(s, q);
        lemma_breaks_before_mono(s, q, s.len() as int);
        assert(line_start(s, l + 1) == next_line_start(s, q));
        if breaks_before(s, p) < total {
            // a terminator remains at or after p, so the scan finds one
            assert(p < s.len());
            assert(q > p);
            if !is_line_end(s, q - 1) {
                // then q reached the end without finding one, and the
                // count up to q equals the count up to p: contradiction
                assert(q == s.len());
                assert(breaks_before(s, q) == breaks_before(s, p));
                assert(false);
            }
            assert(breaks_before(s, q) == breaks_before(s, p) + 1);
        } else {
            // all terminators lie before p, so the scan runs to the end
            assert(breaks_before(s, p) == total);
            if q > p && is_line_end(s, q - 1) {
                assert(breaks_before(s, q) == breaks_before(s, p) + 1);
                assert(false);
            }
            assert(breaks_before(s, q) == breaks_before(s, p));
            if q < s.len() {
                assert(p < s.len());
                assert(q > p);
                assert(false);
            }
            assert(q == s.len());
        }
    }
}

/// The line a position lies on begins at or before it: the start of line
/// `line_of(s, o)` is the largest line start not exceeding `o`.
pub proof fn lemma_line_start_le(s: Seq<char>, o: int)
    requires
        0 <= o <= s.len(),
    ensures
        line_start(s, line_of(s, o)) <= o,
{
    let l = line_of(s, o);
    lemma_breaks_before_mono(s, 0, o);
    lemma_breaks_before_mono(s, o, s.len() as int);
    lemma_line_start(s, l);
    let p = line_start(s, l);
    if p > o {
        // p > o >= 0, so p is preceded by a terminator, and
        // breaks_before(p) == l == breaks_before(o); the terminator at
        // p - 1 >= o would make breaks_before(p) > breaks_before(o).
        assert(is_line_end(s, p - 1));
        lemma_breaks_before_mono(s, o, p - 1);
        assert(breaks_before(s, p) == breaks_before(s, p - 1) + 1);
        assert(false);
    }
}

/// A position lies before the start of the next line.
pub proof fn lemma_line_start_next_gt(s: Seq<char>, o: int)
    requires
        0 <= o <= s.len(),
    ensures
        o <= line_start(s, line_of(s, o) + 1),
    decreases s.len() - o,
{
    let l = line_of(s, o);
    lemma_breaks_before_mono(s, 0, o);
    lemma_line_start(s, l + 1);
    let q = line_start(s, l + 1);
    if q < o {
        lemma_breaks_before_mono(s, o, s.len() as int);
        // breaks_before(q) == min(l + 1, total); q < o <= len so l + 1 <= total
        // hence breaks_before(q) == l + 1 > l == breaks_before(o), yet q < o.
        lemma_breaks_before_mono(s, q, o);
        if l + 1 > breaks_before(s, s.len() as int) {
            assert(q == s.len());
            assert(false);
        }
        assert(false);
    }
}

/// Positions on a line index below the line count exist, i.e. the line of
/// any valid position is a valid line index.
pub proof fn lemma_line_of_valid(s: Seq<char>, o: int)
    requires
        0 <= o <= s.len(),
    ensures
        0 <= line_of(s, o) < line_count(s),
        line_start(s, line_of(s, o)) <= o <= line_start(s, line_of(s, o) + 1),
{
    lemma_breaks_before_mono(s, 0, o);
    lemma_breaks_before_mono(s, o, s.len() as int);
    lemma_line_start_le(s, o);
    lemma_line_start_next_gt(s, o);
}

} // verus!
