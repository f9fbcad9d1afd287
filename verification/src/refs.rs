//! The reference index: ad-hoc whole-document scans that find where a
//! token is defined, every place it occurs, and the edit set that renames
//! it.

use vstd::prelude::*;
use vstd::string::{StrSliceExecFns, StringExecFns};

use crate::document::{offset_to_position_spec, word_at_spec, Document};
use crate::strutil::{
    ident_start, is_ident_start, is_word_char, lemma_skip_spaces_bounds, match_at, skip_spaces,
    skip_spaces_exec, sub_at, word_char, word_run_end, word_run_end_exec,
};
use crate::{Position, TextRange};

verus! {

/// A replacement: the new text to put in place of a span.
pub struct TextEdit {
    pub range: TextRange,
    pub new_text: String,
}

/// The token `w` occurs at offset `i` as a whole token: the neighbouring
/// characters, where present, are not word characters.
pub open spec fn occ_at(s: Seq<char>, w: Seq<char>, i: int) -> bool {
    &&& sub_at(s, w, i)
    &&& (i == 0 || !is_word_char(s[i - 1]))
    &&& (i + w.len() == s.len() || !is_word_char(s[i + w.len()]))
}

/// Offsets of all whole-token occurrences of `w` at or after `i`, in
/// ascending order.
pub open spec fn occs_from(s: Seq<char>, w: Seq<char>, i: int) -> Seq<int>
    decreases s.len() - i,
{
    if i < 0 {
        occs_from(s, w, 0)
    } else if i >= s.len() || i + w.len() > s.len() {
        Seq::empty()
    } else if occ_at(s, w, i) {
        seq![i] + occs_from(s, w, i + 1)
    } else {
        occs_from(s, w, i + 1)
    }
}

/// Offsets of all whole-token occurrences of `w`, in document order.
pub open spec fn occurrences(s: Seq<char>, w: Seq<char>) -> Seq<int> {
    occs_from(s, w, 0)
}

/// Every recorded occurrence offset lies at or after `i` and fits in the
/// text together with the token.
pub proof fn lemma_occs_bounds(s: Seq<char>, w: Seq<char>, i: int, k: int)
    requires
        0 <= i,
        0 <= k < occs_from(s, w, i).len(),
    ensures
        i <= occs_from(s, w, i)[k],
        occs_from(s, w, i)[k] + w.len() <= s.len(),
        occ_at(s, w, occs_from(s, w, i)[k]),
    decreases s.len() - i,
{
    if i < s.len() && i + w.len() <= s.len() {
        if occ_at(s, w, i) {
            if k > 0 {
                lemma_occs_bounds(s, w, i + 1, k - 1);
            }
        } else {
            lemma_occs_bounds(s, w, i + 1, k);
        }
    }
}

/// The whole-token occurrence offsets of `w` in the text, ascending.
fn find_all_occurrences(text: &str, w: &str) -> (r: Vec<usize>)
    requires
        w@.len() > 0,
    ensures
        r@.map_values(|o: usize| o as int) == occurrences(text@, w@),
{
    let s_len = text.unicode_len();
    let w_len = w.unicode_len();
    let mut out: Vec<usize> = Vec::new();
    if w_len > s_len {
        assert(occurrences(text@, w@) =~= Seq::<int>::empty());
        assert(out@.map_values(|o: usize| o as int) =~= occurrences(text@, w@));
        return out;
    }
    let limit = s_len - w_len;
    let mut i: usize = 0;
    while i <= limit
        invariant
            s_len == text@.len(),
            w_len == w@.len(),
            0 < w_len <= s_len,
            limit == s_len - w_len,
            0 <= i <= limit + 1,
            occurrences(text@, w@) =~= out@.map_values(|o: usize| o as int) + occs_from(
                text@,
                w@,
                i as int,
            ),
        decreases limit + 1 - i,
    {
        let is_sub = match_at(text, s_len, w, w_len, i);
        let left_ok = i == 0 || !word_char(text.get_char(i - 1));
        let right_ok = i + w_len == s_len || !word_char(text.get_char(i + w_len));
        let ghost prev = out@;
        if is_sub && left_ok && right_ok {
            out.push(i);
            assert(out@.map_values(|o: usize| o as int) =~= prev.map_values(|o: usize| o as int)
                + seq![i as int]);
        }
        i += 1;
    }
    assert(occs_from(text@, w@, i as int) =~= Seq::<int>::empty());
    assert(out@.map_values(|o: usize| o as int) =~= occurrences(text@, w@));
    out
}

/// The range spanning a whole-token occurrence of a token of length
/// `wlen` at offset `o`.
pub open spec fn occ_range(s: Seq<char>, o: int, wlen: int) -> TextRange {
    TextRange {
        start: offset_to_position_spec(s, o),
        end: offset_to_position_spec(s, o + wlen),
    }
}

/// Ranges of every whole-token occurrence of the word at `position`, in
/// document order; empty when no word surrounds the position.
pub fn find_references(doc: &Document, position: Position) -> (r: Vec<TextRange>)
    requires
        doc.text().len() <= u32::MAX,
    ensures
        match word_at_spec(doc.text(), position) {
            Some(w) => r@ == occurrences(doc.text(), w).map_values(
                |o: int| occ_range(doc.text(), o, w.len() as int),
            ),
            None => r@.len() == 0,
        },
{
    let word = match doc.get_word_at_position(position) {
        Some(w) => w,
        None => {
            return Vec::new();
        },
    };
    let ghost w = word@;
    proof {
        crate::document::lemma_word_at_nonempty(doc.text(), position, w);
    }
    let text = doc.get_text();
    let w_len = word.as_str().unicode_len();
    let offsets = find_all_occurrences(text.as_str(), word.as_str());
    let ghost target = occurrences(doc.text(), w).map_values(
        |o: int| occ_range(doc.text(), o, w.len() as int),
    );
    let mut out: Vec<TextRange> = Vec::new();
    let mut k: usize = 0;
    while k < offsets.len()
        invariant
            doc.text().len() <= u32::MAX,
            w_len == w.len(),
            w.len() > 0,
            offsets@.map_values(|o: usize| o as int) == occurrences(doc.text(), w),
            target == occurrences(doc.text(), w).map_values(
                |o: int| occ_range(doc.text(), o, w.len() as int),
            ),
            0 <= k <= offsets.len(),
            out@ =~= target.take(k as int),
        decreases offsets.len() - k,
    {
        let o = offsets[k];
        proof {
            assert(offsets@.map_values(|x: usize| x as int)[k as int] == o as int);
            assert(occurrences(doc.text(), w)[k as int] == o as int);
            lemma_occs_bounds(doc.text(), w, 0, k as int);
        }
        let start = doc.offset_to_position(o);
        let end = doc.offset_to_position(o + w_len);
        out.push(TextRange { start, end });
        assert(out@ =~= target.take(k as int + 1));
        k += 1;
    }
    assert(out@ =~= target);
    out
}

/// The edit set that renames the word at `position` to `new_name`: one
/// replacement per whole-token occurrence, all in one set.  `None` when
/// no word surrounds the position or the word never occurs, so a rename
/// is never partial.
pub fn rename(doc: &Document, position: Position, new_name: &str) -> (r: Option<Vec<TextEdit>>)
    requires
        doc.text().len() <= u32::MAX,
    ensures
        match word_at_spec(doc.text(), position) {
            Some(w) => {
                if occurrences(doc.text(), w).len() == 0 {
                    r is None
                } else {
                    match r {
                        Some(edits) => {
                            &&& edits@.len() == occurrences(doc.text(), w).len()
                            &&& forall|k: int|
                                0 <= k < edits@.len() ==> edits@[k].range == occ_range(
                                    doc.text(),
                                    occurrences(doc.text(), w)[k],
                                    w.len() as int,
                                ) && edits@[k].new_text@ == new_name@
                        },
                        None => false,
                    }
                }
            },
            None => r is None,
        },
{
    let word = match doc.get_word_at_position(position) {
        Some(w) => w,
        None => {
            return None;
        },
    };
    let ghost w = word@;
    proof {
        crate::document::lemma_word_at_nonempty(doc.text(), position, w);
    }
    let text = doc.get_text();
    let w_len = word.as_str().unicode_len();
    let offsets = find_all_occurrences(text.as_str(), word.as_str());
    if offsets.len() == 0 {
        return None;
    }
    let mut edits: Vec<TextEdit> = Vec::new();
    let mut k: usize = 0;
    while k < offsets.len()
        invariant
            doc.text().len() <= u32::MAX,
            w_len == w.len(),
            w.len() > 0,
            offsets@.map_values(|o: usize| o as int) == occurrences(doc.text(), w),
            0 <= k <= offsets.len(),
            edits@.len() == k,
            forall|j: int|
                0 <= j < k ==> edits@[j].range == occ_range(
                    doc.text(),
                    occurrences(doc.text(), w)[j],
                    w.len() as int,
                ) && edits@[j].new_text@ == new_name@,
        decreases offsets.len() - k,
    {
        let o = offsets[k];
        proof {
            assert(offsets@.map_values(|x: usize| x as int)[k as int] == o as int);
            assert(occurrences(doc.text(), w)[k as int] == o as int);
            lemma_occs_bounds(doc.text(), w, 0, k as int);
        }
        let start = doc.offset_to_position(o);
        let end = doc.offset_to_position(o + w_len);
        edits.push(TextEdit { range: TextRange { start, end }, new_text: String::from_str(new_name) });
        k += 1;
    }
    Some(edits)
}

/// A definition site for a variable-like token: the token occurs at `i`
/// and, after optional whitespace, `delim` follows.
pub open spec fn def_at(s: Seq<char>, w: Seq<char>, i: int, delim: char) -> bool {
    &&& sub_at(s, w, i)
    &&& skip_spaces(s, i + w.len()) < s.len()
    &&& s[skip_spaces(s, i + w.len())] == delim
}

/// Offset of the first definition site at or after `i`, if any.
pub open spec fn first_def_from(s: Seq<char>, w: Seq<char>, i: int, delim: char) -> Option<int>
    decreases s.len() - i,
{
    if i < 0 {
        first_def_from(s, w, 0, delim)
    } else if i >= s.len() || i + w.len() > s.len() {
        None
    } else if def_at(s, w, i, delim) {
        Some(i)
    } else {
        first_def_from(s, w, i + 1, delim)
    }
}

/// Where the given token is defined: for a variable (`--` prefix), the
/// first place it is followed by optional whitespace and `:`, the range
/// running to the delimiter; for a class token (`.` prefix), the first
/// place it is followed by optional whitespace and `{`, the range
/// spanning the token itself.  `None` otherwise.
pub open spec fn definition_for_word_spec(s: Seq<char>, w: Seq<char>) -> Option<TextRange> {
    if w.len() >= 2 && w[0] == '-' && w[1] == '-' {
        match first_def_from(s, w, 0, ':') {
            Some(i) => Some(
                TextRange {
                    start: offset_to_position_spec(s, i),
                    end: offset_to_position_spec(s, skip_spaces(s, i + w.len())),
                },
            ),
            None => None,
        }
    } else if w.len() >= 1 && w[0] == '.' {
        match first_def_from(s, w, 0, '{') {
            Some(i) => Some(
                TextRange {
                    start: offset_to_position_spec(s, i),
                    end: offset_to_position_spec(s, i + w.len()),
                },
            ),
            None => None,
        }
    } else {
        None
    }
}

/// Search for the first definition site of `w` with the given delimiter.
fn find_first_def(text: &str, w: &str, delim: char) -> (r: Option<usize>)
    requires
        w@.len() > 0,
    ensures
        match r {
            Some(i) => first_def_from(text@, w@, 0, delim) == Some(i as int) && i + w@.len()
                <= text@.len(),
            None => first_def_from(text@, w@, 0, delim) is None,
        },
{
    let s_len = text.unicode_len();
    let w_len = w.unicode_len();
    if w_len > s_len {
        return None;
    }
    let limit = s_len - w_len;
    let mut i: usize = 0;
    while i <= limit
        invariant
            s_len == text@.len(),
            w_len == w@.len(),
            0 < w_len <= s_len,
            limit == s_len - w_len,
            0 <= i <= limit + 1,
            first_def_from(text@, w@, 0, delim) == first_def_from(text@, w@, i as int, delim),
        decreases limit + 1 - i,
    {
        if match_at(text, s_len, w, w_len, i) {
            let after = skip_spaces_exec(text, s_len, i + w_len);
            proof {
                lemma_skip_spaces_bounds(text@, i + w_len);
            }
            if after < s_len && text.get_char(after) == delim {
                return Some(i);
            }
        }
        i += 1;
    }
    None
}

/// Definition lookup for the word at `position` (see
/// `definition_for_word_spec`).
pub fn find_definition_for_word(doc: &Document, word: &str) -> (r: Option<TextRange>)
    requires
        doc.text().len() <= u32::MAX,
        word@.len() > 0,
    ensures
        match r {
            Some(range) => definition_for_word_spec(doc.text(), word@) == Some(range),
            None => definition_for_word_spec(doc.text(), word@) is None,
        },
{
    let w_len = word.unicode_len();
    let starts_var = w_len >= 2 && word.get_char(0) == '-' && word.get_char(1) == '-';
    let starts_class = w_len >= 1 && word.get_char(0) == '.';
    if !starts_var && !starts_class {
        return None;
    }
    let text = doc.get_text();
    if starts_var {
        match find_first_def(text.as_str(), word, ':') {
            Some(i) => {
                let after = skip_spaces_exec(text.as_str(), text.as_str().unicode_len(), i + w_len);
                proof {
                    lemma_skip_spaces_bounds(doc.text(), i + w_len);
                }
                let start = doc.offset_to_position(i);
                let end = doc.offset_to_position(after);
                Some(TextRange { start, end })
            },
            None => None,
        }
    } else {
        match find_first_def(text.as_str(), word, '{') {
            Some(i) => {
                let start = doc.offset_to_position(i);
                let end = doc.offset_to_position(i + w_len);
                Some(TextRange { start, end })
            },
            None => None,
        }
    }
}

/// Definition lookup for the word surrounding `position`: `None` when no
/// word surrounds it or the word has no definition site.
pub fn find_definition(doc: &Document, position: Position) -> (r: Option<TextRange>)
    requires
        doc.text().len() <= u32::MAX,
    ensures
        match word_at_spec(doc.text(), position) {
            Some(w) => match r {
                Some(range) => definition_for_word_spec(doc.text(), w) == Some(range),
                None => definition_for_word_spec(doc.text(), w) is None,
            },
            None => r is None,
        },
{
    let word = match doc.get_word_at_position(position) {
        Some(w) => w,
        None => {
            return None;
        },
    };
    proof {
        crate::document::lemma_word_at_nonempty(doc.text(), position, word@);
    }
    find_definition_for_word(doc, word.as_str())
}

// ---------------------------------------------------------------------
// Collecting names for completion
// ---------------------------------------------------------------------
/// A selector token begins at `i`: the lead character (`.` or `#`)
/// followed by an identifier-leading character.
pub open spec fn selector_match_at(s: Seq<char>, lead: char, i: int) -> bool {
    0 <= i && i + 1 < s.len() && s[i] == lead && is_ident_start(s[i + 1])
}

/// The selector names led by `lead` at or after `i`, in scan order,
/// each scan resuming after the name just taken.
pub open spec fn selector_names_from(s: Seq<char>, lead: char, i: int) -> Seq<Seq<char>>
    decreases s.len() - i,
{
    if i < 0 {
        selector_names_from(s, lead, 0)
    } else if i >= s.len() {
        Seq::empty()
    } else if selector_match_at(s, lead, i) {
        let e0 = word_run_end(s, i + 1);
        let e = if i < e0 <= s.len() {
            e0
        } else {
            i + 1
        };
        seq![s.subrange(i + 1, e)] + selector_names_from(s, lead, e)
    } else {
        selector_names_from(s, lead, i + 1)
    }
}

/// A variable definition begins at `i`: `--`, at least one further word
/// character, then optional whitespace and a colon.
pub open spec fn var_def_match_at(s: Seq<char>, i: int) -> bool {
    &&& 0 <= i && i + 2 < s.len()
    &&& s[i] == '-' && s[i + 1] == '-' && is_word_char(s[i + 2])
    &&& {
        let e = word_run_end(s, i + 2);
        let k = skip_spaces(s, e);
        k < s.len() && s[k] == ':'
    }
}

/// The defined variable names (with their `--` prefix) at or after `i`,
/// in scan order, each scan resuming after the colon just matched.
pub open spec fn var_names_from(s: Seq<char>, i: int) -> Seq<Seq<char>>
    decreases s.len() - i,
{
    if i < 0 {
        var_names_from(s, 0)
    } else if i >= s.len() {
        Seq::empty()
    } else if var_def_match_at(s, i) {
        let e = word_run_end(s, i + 2);
        let k0 = skip_spaces(s, e);
        let k = if k0 + 1 > i + 1 {
            k0 + 1
        } else {
            i + 1
        };
        seq![s.subrange(i, e)] + var_names_from(s, k)
    } else {
        var_names_from(s, i + 1)
    }
}

/// The names of `l` with later repetitions removed: each name keeps its
/// first position.
pub open spec fn dedup_first(l: Seq<Seq<char>>) -> Seq<Seq<char>>
    decreases l.len(),
{
    if l.len() == 0 {
        Seq::empty()
    } else {
        let rest = dedup_first(l.drop_last());
        if l.drop_last().contains(l.last()) {
            rest
        } else {
            rest.push(l.last())
        }
    }
}

/// Removing repetitions keeps exactly the names that were there.
pub proof fn lemma_dedup_first_contains(l: Seq<Seq<char>>, x: Seq<char>)
    ensures
        dedup_first(l).contains(x) <==> l.contains(x),
    decreases l.len(),
{
    if l.len() > 0 {
        lemma_dedup_first_contains(l.drop_last(), x);
        if l.contains(x) {
            let j = choose|j: int| 0 <= j < l.len() && l[j] == x;
            if j < l.len() - 1 {
                assert(l.drop_last()[j] == x);
                assert(l.drop_last().contains(x));
            }
            if !dedup_first(l).contains(x) {
                if l.drop_last().contains(x) {
                    if !l.drop_last().contains(l.last()) {
                        assert(dedup_first(l) == dedup_first(l.drop_last()).push(l.last()));
                        let k = choose|k: int|
                            0 <= k < dedup_first(l.drop_last()).len() && dedup_first(
                                l.drop_last(),
                            )[k] == x;
                        assert(dedup_first(l)[k] == x);
                    }
                    assert(false);
                } else {
                    assert(l.last() == x);
                    assert(dedup_first(l).last() == x);
                    assert(false);
                }
            }
        }
        if dedup_first(l).contains(x) {
            let j = choose|j: int| 0 <= j < dedup_first(l).len() && dedup_first(l)[j] == x;
            if l.drop_last().contains(l.last()) {
                assert(l.drop_last().contains(x));
                let k = choose|k: int| 0 <= k < l.drop_last().len() && l.drop_last()[k] == x;
                assert(l[k] == x);
            } else {
                if j < dedup_first(l).len() - 1 {
                    assert(dedup_first(l.drop_last())[j] == x);
                    assert(l.drop_last().contains(x));
                    let k = choose|k: int| 0 <= k < l.drop_last().len() && l.drop_last()[k] == x;
                    assert(l[k] == x);
                } else {
                    assert(l.last() == x);
                }
            }
        }
    }
}

/// Whether `v` already holds the given text.
fn vec_contains_str(v: &Vec<String>, name: &String) -> (r: bool)
    ensures
        r == v.deep_view().contains(name@),
{
    let mut i: usize = 0;
    while i < v.len()
        invariant
            0 <= i <= v.len(),
            forall|j: int| 0 <= j < i ==> v.deep_view()[j] != name@,
        decreases v.len() - i,
    {
        if v[i] == *name {
            assert(v.deep_view()[i as int] == name@);
            return true;
        }
        i += 1;
    }
    assert forall|j: int| 0 <= j < v.deep_view().len() implies v.deep_view()[j] != name@ by {}
    false
}

/// Push `name` unless it is already present, keeping `out` equal to the
/// deduplication of the names seen so far.
fn push_if_new(out: &mut Vec<String>, name: String, Ghost(seen): Ghost<Seq<Seq<char>>>)
    requires
        old(out).deep_view() == dedup_first(seen),
    ensures
        final (out).deep_view() == dedup_first(seen.push(name@)),
{
    proof {
        lemma_dedup_first_contains(seen, name@);
        assert(seen.push(name@).drop_last() =~= seen);
        assert(seen.push(name@).last() == name@);
    }
    if !vec_contains_str(out, &name) {
        out.push(name);
        assert(out.deep_view() =~~= dedup_first(seen.push(name@)));
    } else {
        assert(out.deep_view() =~~= dedup_first(seen.push(name@)));
    }
}

/// The distinct selector names led by `lead`, each at its first
/// occurrence, in scan order.
fn collect_selector_names(doc: &Document, lead: char) -> (r: Vec<String>)
    ensures
        r.deep_view() == dedup_first(selector_names_from(doc.text(), lead, 0)),
{
    let text = doc.get_text();
    let s = text.as_str();
    let len = s.unicode_len();
    let mut out: Vec<String> = Vec::new();
    let mut i: usize = 0;
    let ghost seen = Seq::<Seq<char>>::empty();
    proof {
        assert(dedup_first(seen) =~= Seq::<Seq<char>>::empty());
    }
    while i < len
        invariant
            len == s@.len(),
            s@ == doc.text(),
            0 <= i <= len,
            out.deep_view() == dedup_first(seen),
            selector_names_from(doc.text(), lead, 0) =~= seen + selector_names_from(
                doc.text(),
                lead,
                i as int,
            ),
        decreases len - i,
    {
        let c = s.get_char(i);
        if c == lead && i + 1 < len && ident_start(s.get_char(i + 1)) {
            let e = word_run_end_exec(s, len, i + 1);
            let name = String::from_str(s.substring_char(i + 1, e));
            proof {
                crate::strutil::lemma_word_run_end_bounds(s@, i + 1);
            }
            push_if_new(&mut out, name, Ghost(seen));
            proof {
                seen = seen.push(s@.subrange(i + 1, e as int));
            }
            i = e;
        } else {
            i += 1;
        }
    }
    assert(out.deep_view() =~~= dedup_first(selector_names_from(doc.text(), lead, 0)));
    out
}

/// The distinct class selector names of the document (without their
/// leading dot), in first-occurrence order.
pub fn collect_class_names(doc: &Document) -> (r: Vec<String>)
    ensures
        r.deep_view() == dedup_first(selector_names_from(doc.text(), '.', 0)),
{
    collect_selector_names(doc, '.')
}

/// The distinct id selector names of the document (without their
/// leading hash), in first-occurrence order.
pub fn collect_id_names(doc: &Document) -> (r: Vec<String>)
    ensures
        r.deep_view() == dedup_first(selector_names_from(doc.text(), '#', 0)),
{
    collect_selector_names(doc, '#')
}

/// The distinct variable names defined in the document (with their `--`
/// prefix), in first-occurrence order.
pub fn collect_variable_names(doc: &Document) -> (r: Vec<String>)
    ensures
        r.deep_view() == dedup_first(var_names_from(doc.text(), 0)),
{
    let text = doc.get_text();
    let s = text.as_str();
    let len = s.unicode_len();
    let mut out: Vec<String> = Vec::new();
    let mut i: usize = 0;
    let ghost seen = Seq::<Seq<char>>::empty();
    proof {
        assert(dedup_first(seen) =~= Seq::<Seq<char>>::empty());
    }
    while i < len
        invariant
            len == s@.len(),
            s@ == doc.text(),
            0 <= i <= len,
            out.deep_view() == dedup_first(seen),
            var_names_from(doc.text(), 0) =~= seen + var_names_from(doc.text(), i as int),
        decreases len - i,
    {
        let is_match = len - i > 2 && s.get_char(i) == '-' && s.get_char(i + 1) == '-'
            && word_char(s.get_char(i + 2));
        if is_match {
            let e = word_run_end_exec(s, len, i + 2);
            let k = skip_spaces_exec(s, len, e);
            proof {
                crate::strutil::lemma_word_run_end_bounds(s@, i + 2);
                lemma_skip_spaces_bounds(s@, e as int);
            }
            if k < len && s.get_char(k) == ':' {
                let name = String::from_str(s.substring_char(i, e));
                push_if_new(&mut out, name, Ghost(seen));
                proof {
                    seen = seen.push(s@.subrange(i as int, e as int));
                }
                i = k + 1;
            } else {
                i += 1;
            }
        } else {
            i += 1;
        }
    }
    assert(out.deep_view() =~~= dedup_first(var_names_from(doc.text(), 0)));
    out
}


} // verus!
