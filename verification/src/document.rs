//! The document model: a text buffer with position/offset conversion,
//! incremental edits, line access and word lookup.

use vstd::prelude::*;
use vstd::string::{StrSliceExecFns, StringExecFns};

use crate::lines::{line_count, line_of, line_seq, line_start, strip_terminator};
use crate::rope_text::{
    rope_char_to_line, rope_from_str, rope_insert, rope_len_chars, rope_len_lines, rope_line_len,
    rope_line_to_char, rope_line_to_string, rope_remove, rope_text, rope_to_string,
};
use crate::strutil::{is_word_char, word_char, word_run_end, word_run_end_exec};
use crate::{pos_le, Position, TextRange};

verus! {

/// An open document: its content, held as a rope for O(log n) edits, and
/// the version counter supplied by the editing client.
pub struct Document {
    pub content: ropey::Rope,
    pub version: i32,
}

/// Character offset denoted by a position: `None` when the line index is
/// past the last line; a character column past the line's end is clamped
/// to the line's end (the terminator included in its length).
pub open spec fn position_to_offset_spec(s: Seq<char>, p: Position) -> Option<int> {
    if p.line >= line_count(s) {
        None
    } else {
        let ls = line_start(s, p.line as int);
        let ll = line_start(s, p.line + 1) - ls;
        if p.character > ll {
            Some(ls + ll)
        } else {
            Some(ls + p.character)
        }
    }
}

/// Position of a character offset: the line holding it and the distance
/// from that line's start.
pub open spec fn offset_to_position_spec(s: Seq<char>, o: int) -> Position {
    Position {
        line: line_of(s, o) as u32,
        character: (o - line_start(s, line_of(s, o))) as u32,
    }
}

/// Index one past the start of the maximal run of word characters ending
/// at `o`: scanning backward from `o` over word characters.
pub open spec fn word_run_start(s: Seq<char>, o: int) -> int
    decreases o,
{
    if o <= 0 {
        0
    } else if is_word_char(s[o - 1]) {
        word_run_start(s, o - 1)
    } else {
        o
    }
}

/// The word surrounding a position: the maximal run of word characters
/// containing the denoted offset, or `None` when the position does not
/// resolve or no word character is adjacent.
pub open spec fn word_at_spec(s: Seq<char>, p: Position) -> Option<Seq<char>> {
    match position_to_offset_spec(s, p) {
        Some(o) => {
            let a = word_run_start(s, o);
            let b = word_run_end(s, o);
            if a < b {
                Some(s.subrange(a, b))
            } else {
                None
            }
        },
        None => None,
    }
}

/// Content after replacing the span denoted by `r` with `t`; unchanged
/// when either end of the range does not resolve to an offset, or the
/// resolved offsets are reversed (best-effort policy).
pub open spec fn apply_change_spec(s: Seq<char>, r: TextRange, t: Seq<char>) -> Seq<char> {
    match (position_to_offset_spec(s, r.start), position_to_offset_spec(s, r.end)) {
        (Some(a), Some(b)) => {
            if a <= b {
                s.subrange(0, a) + t + s.subrange(b, s.len() as int)
            } else {
                s
            }
        },
        _ => s,
    }
}

/// Content after a sequence of incremental edits, applied in order.
pub open spec fn apply_changes_spec(s: Seq<char>, edits: Seq<(TextRange, Seq<char>)>) -> Seq<char>
    decreases edits.len(),
{
    if edits.len() == 0 {
        s
    } else {
        apply_changes_spec(apply_change_spec(s, edits[0].0, edits[0].1), edits.drop_first())
    }
}

/// Content after a full-text replacement.
pub open spec fn set_content_spec(t: Seq<char>) -> Seq<char> {
    t
}

/// The value of an edit list: each replacement text as its characters.
pub open spec fn edits_view(edits: Seq<(TextRange, String)>) -> Seq<(TextRange, Seq<char>)> {
    edits.map_values(|e: (TextRange, String)| (e.0, e.1@))
}

/// Folding one more edit from the right: the fold of `edits.push(e)` is
/// one application of `apply_change_spec` after the fold of `edits`.
pub proof fn lemma_apply_changes_push(
    s: Seq<char>,
    edits: Seq<(TextRange, Seq<char>)>,
    e: (TextRange, Seq<char>),
)
    ensures
        apply_changes_spec(s, edits.push(e)) == apply_change_spec(
            apply_changes_spec(s, edits),
            e.0,
            e.1,
        ),
    decreases edits.len(),
{
    let p = edits.push(e);
    if edits.len() == 0 {
        assert(p[0] == e);
        assert(p.drop_first() =~= Seq::<(TextRange, Seq<char>)>::empty());
        assert(apply_changes_spec(s, p) == apply_changes_spec(
            apply_change_spec(s, e.0, e.1),
            p.drop_first(),
        ));
        assert(apply_changes_spec(s, edits) == s);
    } else {
        let s2 = apply_change_spec(s, edits[0].0, edits[0].1);
        assert(p[0] == edits[0]);
        assert(p.drop_first() =~= edits.drop_first().push(e));
        lemma_apply_changes_push(s2, edits.drop_first(), e);
        assert(apply_changes_spec(s, p) == apply_changes_spec(s2, p.drop_first()));
        assert(apply_changes_spec(s, edits) == apply_changes_spec(s2, edits.drop_first()));
    }
}

impl Document {
    /// The characters the buffer holds.
    pub open spec fn text(self) -> Seq<char> {
        rope_text(self.content)
    }

    /// Create a new document from its full text.
    pub fn new(text: String, version: i32) -> (d: Document)
        ensures
            d.text() == text@,
            d.version == version,
    {
        Document { content: rope_from_str(text.as_str()), version }
    }

    /// Replace the entire content (non-incremental synchronization).
    pub fn set_content(&mut self, text: String)
        ensures
            final (self).text() == set_content_spec(text@),
            final (self).version == old(self).version,
    {
        self.content = rope_from_str(text.as_str());
    }

    /// Apply one incremental change: replace the span denoted by `range`
    /// with `new_text`.  A range that does not resolve leaves the buffer
    /// unchanged.
    pub fn apply_change(&mut self, range: TextRange, new_text: &str)
        ensures
            final (self).text() == apply_change_spec(old(self).text(), range, new_text@),
            final (self).version == old(self).version,
    {
        let ghost s0 = self.text();
        let start_idx = self.position_to_offset(range.start);
        let end_idx = self.position_to_offset(range.end);
        if let (Some(start), Some(end)) = (start_idx, end_idx) {
            if start <= end {
                rope_remove(&mut self.content, start, end);
                rope_insert(&mut self.content, start, new_text);
                proof {
                    assert(self.text() =~= s0.subrange(0, start as int) + new_text@ + s0.subrange(
                        end as int,
                        s0.len() as int,
                    ));
                }
            }
        }
    }

    /// Apply a sequence of incremental changes in order: the content ends
    /// as the fold of the replacements, so a full-text replacement with
    /// that composed result leaves the same content.
    pub fn apply_changes(&mut self, edits: &Vec<(TextRange, String)>)
        ensures
            final (self).text() == apply_changes_spec(old(self).text(), edits_view(edits@)),
            final (self).version == old(self).version,
    {
        let ghost s0 = self.text();
        let mut k: usize = 0;
        proof {
            assert(apply_changes_spec(s0, edits_view(edits@.take(0))) == s0) by {
                assert(edits_view(edits@.take(0)) =~= Seq::<(TextRange, Seq<char>)>::empty());
            }
        }
        while k < edits.len()
            invariant
                0 <= k <= edits@.len(),
                self.version == old(self).version,
                self.text() == apply_changes_spec(s0, edits_view(edits@.take(k as int))),
            decreases edits@.len() - k,
        {
            let ghost pfx = edits_view(edits@.take(k as int));
            self.apply_change(edits[k].0, edits[k].1.as_str());
            proof {
                let e = (edits@[k as int].0, edits@[k as int].1@);
                lemma_apply_changes_push(s0, pfx, e);
                assert(edits_view(edits@.take(k + 1)) =~= pfx.push(e));
            }
            k += 1;
        }
        assert(edits_view(edits@.take(edits@.len() as int)) =~= edits_view(edits@));
    }

    /// Convert a position to a character offset.  `None` only when the
    /// line number is past the last line; a column past the line's end is
    /// clamped to the line's end.
    pub fn position_to_offset(&self, position: Position) -> (r: Option<usize>)
        ensures
            match r {
                Some(o) => position_to_offset_spec(self.text(), position) == Some(o as int)
                    && o <= self.text().len(),
                None => position_to_offset_spec(self.text(), position) is None,
            },
    {
        let line = position.line as usize;
        let nl = rope_len_lines(&self.content);
        if line >= nl {
            return None;
        }
        proof {
            crate::lines::lemma_line_start(self.text(), line as int);
            crate::lines::lemma_line_start(self.text(), line + 1);
        }
        let _total = rope_len_chars(&self.content);
        let ls = rope_line_to_char(&self.content, line);
        let ll = rope_line_len(&self.content, line);
        let col = position.character as usize;
        if col > ll {
            Some(ls + ll)
        } else {
            Some(ls + col)
        }
    }

    /// Convert a character offset to a position.  Defined for every
    /// offset up to the document length.
    pub fn offset_to_position(&self, offset: usize) -> (r: Position)
        requires
            offset <= self.text().len(),
            self.text().len() <= u32::MAX,
        ensures
            r == offset_to_position_spec(self.text(), offset as int),
    {
        proof {
            crate::lines::lemma_line_of_valid(self.text(), offset as int);
            crate::lines::lemma_breaks_before_mono(self.text(), 0, offset as int);
        }
        let line = rope_char_to_line(&self.content, offset);
        let line_start_idx = rope_line_to_char(&self.content, line);
        Position { line: line as u32, character: (offset - line_start_idx) as u32 }
    }

    /// The content of a line, its terminator excluded; `None` past the
    /// last line.
    pub fn get_line(&self, line: u32) -> (r: Option<String>)
        ensures
            match r {
                Some(t) => line < line_count(self.text()) && t@ == strip_terminator(
                    line_seq(self.text(), line as int),
                ),
                None => line >= line_count(self.text()),
            },
    {
        let line = line as usize;
        let nl = rope_len_lines(&self.content);
        if line >= nl {
            return None;
        }
        let raw = rope_line_to_string(&self.content, line);
        let s = raw.as_str();
        let len = s.unicode_len();
        let end = if len >= 2 && s.get_char(len - 2) == '\r' && s.get_char(len - 1) == '\n' {
            len - 2
        } else if len >= 1 && crate::lines::break_char(s.get_char(len - 1)) {
            len - 1
        } else {
            len
        };
        let t = String::from_str(s.substring_char(0, end));
        proof {
            assert(t@ =~= strip_terminator(line_seq(self.text(), line as int)));
        }
        Some(t)
    }

    /// The text of the addressed line up to the cursor column; the whole
    /// line, terminator included, when the column lies past its end.
    pub fn get_text_before_cursor(&self, position: Position) -> (r: Option<String>)
        ensures
            match r {
                Some(t) => position.line < line_count(self.text()) && t@ == text_before_spec(
                    self.text(),
                    position,
                ),
                None => position.line >= line_count(self.text()),
            },
    {
        let line = position.line as usize;
        let nl = rope_len_lines(&self.content);
        if line >= nl {
            return None;
        }
        let line_text = rope_line_to_string(&self.content, line);
        let len = line_text.as_str().unicode_len();
        let col = position.character as usize;
        if col > len {
            Some(line_text)
        } else {
            let r = line_text.as_str().substring_char(0, col);
            Some(String::from_str(r))
        }
    }

    /// The word (maximal token) surrounding a position, scanning outward
    /// in both directions; `None` between two non-word characters.
    pub fn get_word_at_position(&self, position: Position) -> (r: Option<String>)
        ensures
            match r {
                Some(w) => word_at_spec(self.text(), position) == Some(w@),
                None => word_at_spec(self.text(), position) is None,
            },
    {
        let offset = match self.position_to_offset(position) {
            Some(o) => o,
            None => {
                return None;
            },
        };
        let text = rope_to_string(&self.content);
        let s = text.as_str();
        let len = s.unicode_len();
        let mut start: usize = offset;
        while start > 0 && word_char(s.get_char(start - 1))
            invariant
                start <= offset <= len,
                len == s@.len(),
                s@ == self.text(),
                word_run_start(s@, start as int) == word_run_start(s@, offset as int),
            decreases start,
        {
            start -= 1;
        }
        let end = word_run_end_exec(s, len, offset);
        if start < end {
            let w = s.substring_char(start, end);
            Some(String::from_str(w))
        } else {
            None
        }
    }

    /// The full document text as one string.
    pub fn get_text(&self) -> (r: String)
        ensures
            r@ == self.text(),
    {
        rope_to_string(&self.content)
    }

    /// The number of lines (terminators plus one).
    pub fn line_count(&self) -> (r: usize)
        ensures
            r == line_count(self.text()),
    {
        rope_len_lines(&self.content)
    }
}

/// The line text before the cursor used by the classifier: the addressed
/// line's characters up to the cursor column, the whole line (terminator
/// included) when the column lies past its end.
pub open spec fn text_before_spec(s: Seq<char>, p: Position) -> Seq<char> {
    let line = line_seq(s, p.line as int);
    if p.character > line.len() {
        line
    } else {
        line.subrange(0, p.character as int)
    }
}

/// The run scanned backward from a position starts within the text.
pub proof fn lemma_word_run_start_bounds(s: Seq<char>, o: int)
    requires
        0 <= o <= s.len(),
    ensures
        0 <= word_run_start(s, o) <= o,
    decreases o,
{
    if o > 0 && is_word_char(s[o - 1]) {
        lemma_word_run_start_bounds(s, o - 1);
    }
}

/// A position that resolves at all resolves to an offset inside the text.
pub proof fn lemma_resolved_offset_bounds(s: Seq<char>, p: Position, o: int)
    requires
        position_to_offset_spec(s, p) == Some(o),
    ensures
        0 <= o <= s.len(),
{
    crate::lines::lemma_line_start(s, p.line as int);
    crate::lines::lemma_line_start(s, p.line + 1);
}

/// A word surrounding a position is never empty.
pub proof fn lemma_word_at_nonempty(s: Seq<char>, p: Position, w: Seq<char>)
    requires
        word_at_spec(s, p) == Some(w),
    ensures
        w.len() > 0,
{
    match position_to_offset_spec(s, p) {
        Some(o) => {
            lemma_resolved_offset_bounds(s, p, o);
            lemma_word_run_start_bounds(s, o);
            crate::strutil::lemma_word_run_end_bounds(s, o);
            let a = word_run_start(s, o);
            let b = word_run_end(s, o);
            assert(a < b && w == s.subrange(a, b));
        },
        None => {
            assert(false);
        },
    }
}

/// Positions ordered in document order resolve to ordered offsets, so a
/// well-formed range always denotes a forward span.
pub proof fn lemma_ordered_range_offsets(s: Seq<char>, r: TextRange, a: int, b: int)
    requires
        pos_le(r.start, r.end),
        position_to_offset_spec(s, r.start) == Some(a),
        position_to_offset_spec(s, r.end) == Some(b),
    ensures
        a <= b,
{
    crate::lines::lemma_line_start(s, r.start.line as int);
    crate::lines::lemma_line_start(s, r.start.line + 1);
    crate::lines::lemma_line_start(s, r.end.line as int);
    if r.start.line < r.end.line {
        lemma_line_start_mono(s, r.start.line + 1, r.end.line as int);
    }
}

/// Line starts are monotone in the line index.
pub proof fn lemma_line_start_mono(s: Seq<char>, l1: int, l2: int)
    requires
        0 <= l1 <= l2,
    ensures
        line_start(s, l1) <= line_start(s, l2),
    decreases l2 - l1,
{
    if l1 < l2 {
        crate::lines::lemma_line_start(s, l2 - 1);
        lemma_line_start_mono(s, l1, l2 - 1);
    }
}

/// Round trip: converting a valid offset to a position and back yields
/// the same offset.
pub proof fn lemma_offset_position_round_trip(s: Seq<char>, o: int)
    requires
        0 <= o <= s.len(),
        s.len() <= u32::MAX,
    ensures
        position_to_offset_spec(s, offset_to_position_spec(s, o)) == Some(o),
{
    crate::lines::lemma_line_of_valid(s, o);
    crate::lines::lemma_breaks_before_mono(s, 0, o);
    let l = line_of(s, o);
    crate::lines::lemma_line_start(s, l);
    crate::lines::lemma_line_start(s, l + 1);
    let p = offset_to_position_spec(s, o);
    assert(p.line == l);
    assert(p.character == o - line_start(s, l));
}

/// Applying incremental edits one at a time ends in the same content as
/// one full-text replacement with the composed result: a document that
/// applied the edits (`apply_changes` ensures its content is the fold)
/// and a document fully replaced with that composed result (ensured by
/// `set_content`) hold the same text.
pub proof fn lemma_incremental_edits_match_full(
    edited: Document,
    replaced: Document,
    s: Seq<char>,
    edits: Seq<(TextRange, Seq<char>)>,
)
    requires
        edited.text() == apply_changes_spec(s, edits),
        replaced.text() == set_content_spec(apply_changes_spec(s, edits)),
    ensures
        edited.text() == replaced.text(),
{
}

} // verus!
