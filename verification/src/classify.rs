//! The context classifier: given a document and a cursor position,
//! decide from lexical cues alone which syntactic construct surrounds the
//! cursor.  The priority of the rules is part of the contract: function
//! arguments first, then the trailing-punctuation cues, then block
//! nesting, and a bare selector context outside any block.

use vstd::prelude::*;
use vstd::string::{StrSliceExecFns, StringExecFns};

use crate::document::{position_to_offset_spec, text_before_spec, Document};
use crate::lines::line_count;
use crate::strutil::{
    all_word_chars, all_word_chars_exec, char_count, contains_char, count_char, count_char_upto,
    count_char_upto_exec, first_idx_exec, first_idx_from, match_at, paren_closes,
    paren_closes_exec, str_contains_char, sub_at, trim_seq, trim_str,
};
use crate::Position;

verus! {

/// What surrounds the cursor.  Exactly one tag per query; `PropertyValue`
/// carries the property name inferred from the current line.
#[derive(Debug, Clone, PartialEq, Eq)]
pub enum CompletionContext {
    /// At the start of a selector, outside any declaration block.
    Selector,
    /// After a class selector dot.
    ClassSelector,
    /// After an id selector hash.
    IdSelector,
    /// After a pseudo-class colon.
    PseudoClass,
    /// Inside a declaration block, expecting a property name.
    PropertyName,
    /// After a property colon, expecting a value for the named property.
    PropertyValue(String),
    /// Inside an unterminated `url(` or `resource(` argument.
    Url,
    /// Inside an unterminated `var(` argument.
    Variable,
    /// No rule matched.
    Unknown,
}

/// The classifier's output with the property name as a character
/// sequence: the value of a `CompletionContext` in specifications.
pub enum ContextView {
    Selector,
    ClassSelector,
    IdSelector,
    PseudoClass,
    PropertyName,
    PropertyValue(Seq<char>),
    Url,
    Variable,
    Unknown,
}

impl View for CompletionContext {
    type V = ContextView;

    open spec fn view(&self) -> ContextView {
        match self {
            CompletionContext::Selector => ContextView::Selector,
            CompletionContext::ClassSelector => ContextView::ClassSelector,
            CompletionContext::IdSelector => ContextView::IdSelector,
            CompletionContext::PseudoClass => ContextView::PseudoClass,
            CompletionContext::PropertyName => ContextView::PropertyName,
            CompletionContext::PropertyValue(n) => ContextView::PropertyValue(n@),
            CompletionContext::Url => ContextView::Url,
            CompletionContext::Variable => ContextView::Variable,
            CompletionContext::Unknown => ContextView::Unknown,
        }
    }
}

/// Some occurrence of `needle` (a function name with its opening
/// parenthesis) in the prefix is still open: the parenthesis it opens is
/// not closed by a matching `)` later in the prefix.
pub open spec fn has_open_call(tb: Seq<char>, needle: Seq<char>) -> bool {
    exists|i: int| sub_at(tb, needle, i) && !paren_closes(tb, i + needle.len(), 1)
}

/// Whether the prefix holds an occurrence of `needle` whose opening
/// parenthesis no later `)` matches.
fn open_call(tb: &str, len: usize, needle: &str) -> (r: bool)
    requires
        len == tb@.len(),
        needle@.len() > 0,
    ensures
        r == has_open_call(tb@, needle@),
{
    let nlen = needle.unicode_len();
    if nlen > len {
        assert(forall|i: int| !sub_at(tb@, needle@, i));
        return false;
    }
    let limit = len - nlen;
    let mut i: usize = 0;
    while i <= limit
        invariant
            len == tb@.len(),
            nlen == needle@.len(),
            0 < nlen <= len,
            limit == len - nlen,
            0 <= i <= limit + 1,
            forall|j: int|
                0 <= j < i ==> !(sub_at(tb@, needle@, j) && !paren_closes(tb@, j + nlen, 1)),
        decreases limit + 1 - i,
    {
        if match_at(tb, len, needle, nlen, i) && !paren_closes_exec(tb, len, i + nlen, 1) {
            assert(has_open_call(tb@, needle@)) by {
                assert(sub_at(tb@, needle@, i as int) && !paren_closes(
                    tb@,
                    i as int + needle@.len(),
                    1,
                ));
            }
            return true;
        }
        i += 1;
    }
    assert(forall|j: int|
        j > limit as int ==> !sub_at(tb@, needle@, j));
    false
}

/// The cursor lies inside a declaration block: among the characters of
/// the whole document before the cursor's offset, more braces open than
/// close.  An unresolvable position counts as offset 0.
pub open spec fn in_block_spec(s: Seq<char>, p: Position) -> bool {
    let o = match position_to_offset_spec(s, p) {
        Some(o) => o,
        None => 0,
    };
    count_char_upto(s, '{', o) > count_char_upto(s, '}', o)
}

/// The trimmed text before the first colon of `t`, trimmed again: the
/// property name a value on this line would belong to.
pub open spec fn prop_name_spec(t: Seq<char>) -> Seq<char> {
    trim_seq(t.subrange(0, first_idx_from(t, ':', 0)))
}

/// The classification rules, in priority order, over the document
/// content and the cursor position.
pub open spec fn classify_spec(s: Seq<char>, p: Position) -> ContextView {
    if p.line >= line_count(s) {
        ContextView::Unknown
    } else {
        let tb = text_before_spec(s, p);
        let tr = trim_seq(tb);
        if has_open_call(tb, "var("@) {
            ContextView::Variable
        } else if has_open_call(tb, "url("@) || has_open_call(tb, "resource("@) {
            ContextView::Url
        } else if tb.len() > 0 && tb[tb.len() - 1] == ':' && !(tb.len() >= 2 && tb[tb.len() - 2]
            == ':') {
            if in_block_spec(s, p) && count_char(tr, ':') == 1 {
                let name = prop_name_spec(tr);
                if name.len() > 0 && name[0] != '.' && name[0] != '#' {
                    ContextView::PropertyValue(name)
                } else {
                    ContextView::PseudoClass
                }
            } else {
                ContextView::PseudoClass
            }
        } else if tb.len() > 0 && tb[tb.len() - 1] == '.' {
            ContextView::ClassSelector
        } else if tb.len() > 0 && tb[tb.len() - 1] == '#' {
            ContextView::IdSelector
        } else if in_block_spec(s, p) {
            if contains_char(tr, ':') && prop_name_spec(tr).len() > 0 {
                ContextView::PropertyValue(prop_name_spec(tr))
            } else if tr.len() == 0 || tr[tr.len() - 1] == ';' || tr[tr.len() - 1] == '{'
                || all_word_chars(tr, 0, tr.len() as int) {
                ContextView::PropertyName
            } else {
                ContextView::Unknown
            }
        } else {
            ContextView::Selector
        }
    }
}

/// The cursor lies inside a declaration block (see `in_block_spec`).
fn in_block(doc: &Document, position: Position) -> (r: bool)
    ensures
        r == in_block_spec(doc.text(), position),
{
    let offset = match doc.position_to_offset(position) {
        Some(o) => o,
        None => 0,
    };
    let text = doc.get_text();
    let opens = count_char_upto_exec(text.as_str(), '{', offset);
    let closes = count_char_upto_exec(text.as_str(), '}', offset);
    opens > closes
}

/// Classify the cursor context.  The result is a pure function of the
/// buffer content and the position: `classify_spec` names it, so repeated
/// calls on an unchanged document agree.
pub fn get_completion_context(doc: &Document, position: Position) -> (r: CompletionContext)
    ensures
        r@ == classify_spec(doc.text(), position),
{
    let tb_string = match doc.get_text_before_cursor(position) {
        Some(t) => t,
        None => {
            return CompletionContext::Unknown;
        },
    };
    let tb = tb_string.as_str();
    let len = tb.unicode_len();
    proof {
        reveal_strlit("var(");
        reveal_strlit("url(");
        reveal_strlit("resource(");
    }
    // An opened var( whose parenthesis no later ) matches
    if open_call(tb, len, "var(") {
        return CompletionContext::Variable;
    }
    // An opened url( or resource( whose parenthesis no later ) matches
    if open_call(tb, len, "url(") || open_call(tb, len, "resource(") {
        return CompletionContext::Url;
    }
    let tr = trim_str(tb);
    let tr_len = tr.unicode_len();
    // A single trailing colon: pseudo-class, or a value for the property
    // named before the colon when inside a block
    if len > 0 && tb.get_char(len - 1) == ':' && !(len >= 2 && tb.get_char(len - 2) == ':') {
        if in_block(doc, position) && char_count(tr, ':') == 1 {
            let ci = first_idx_exec(tr, ':');
            let name = trim_str(tr.substring_char(0, ci));
            let name_len = name.unicode_len();
            if name_len > 0 && name.get_char(0) != '.' && name.get_char(0) != '#' {
                return CompletionContext::PropertyValue(String::from_str(name));
            }
        }
        return CompletionContext::PseudoClass;
    }
    // Trailing selector punctuation
    if len > 0 && tb.get_char(len - 1) == '.' {
        return CompletionContext::ClassSelector;
    }
    if len > 0 && tb.get_char(len - 1) == '#' {
        return CompletionContext::IdSelector;
    }
    if in_block(doc, position) {
        // A colon anywhere on the line: value of the named property
        if str_contains_char(tr, ':') {
            let ci = first_idx_exec(tr, ':');
            let name = trim_str(tr.substring_char(0, ci));
            if name.unicode_len() > 0 {
                return CompletionContext::PropertyValue(String::from_str(name));
            }
        }
        // Start of a new property declaration
        let starts_fresh = tr_len == 0 || tr.get_char(tr_len - 1) == ';' || tr.get_char(tr_len - 1)
            == '{';
        if starts_fresh || all_word_chars_exec(tr, tr_len, 0, tr_len) {
            return CompletionContext::PropertyName;
        }
        return CompletionContext::Unknown;
    }
    CompletionContext::Selector
}

/// Classification is deterministic: on equal content and equal positions
/// the classifier's result is the same.
pub proof fn lemma_classify_deterministic(s1: Seq<char>, p1: Position, s2: Seq<char>, p2: Position)
    requires
        s1 == s2,
        p1 == p2,
    ensures
        classify_spec(s1, p1) == classify_spec(s2, p2),
{
}

} // verus!
