//! The re-emission formatter: a single pass over the document's
//! characters that normalizes brace placement, line breaks after `;` and
//! `{`, spacing after `:`, and indentation by block depth, leaving
//! block-comment content untouched.

use vstd::prelude::*;
use vstd::string::StrSliceExecFns;

use crate::document::{position_to_offset_spec, Document};
use crate::refs::TextEdit;
use crate::{Position, TextRange};

verus! {

/// Formatting configuration: indent with spaces (so many per level) or
/// with one tab per level.
#[derive(Clone, Copy, Debug, PartialEq, Eq, Structural)]
pub struct FormatOptions {
    pub use_spaces: bool,
    pub indent_width: u32,
}

/// One level of indentation.
pub open spec fn indent_seq(opts: FormatOptions) -> Seq<char> {
    if opts.use_spaces {
        Seq::new(opts.indent_width as nat, |i: int| ' ')
    } else {
        seq!['\t']
    }
}

/// `s` repeated `n` times.
pub open spec fn rep_seq(s: Seq<char>, n: int) -> Seq<char>
    decreases n,
{
    if n <= 0 {
        Seq::empty()
    } else {
        rep_seq(s, n - 1) + s
    }
}

/// `s` with every trailing blank (space or tab) removed.
pub open spec fn trim_trailing_blanks(s: Seq<char>) -> Seq<char>
    decreases s.len(),
{
    if s.len() > 0 && (s[s.len() - 1] == ' ' || s[s.len() - 1] == '\t') {
        trim_trailing_blanks(s.drop_last())
    } else {
        s
    }
}

/// The formatter's running state: emitted output, current block depth,
/// whether the pass is inside a block comment, and the previous input
/// character.
pub struct FmtState {
    pub out: Seq<char>,
    pub level: int,
    pub in_comment: bool,
    pub prev: char,
}

pub open spec fn ends_with_char(s: Seq<char>, c: char) -> bool {
    s.len() > 0 && s[s.len() - 1] == c
}

/// One step of the pass: how one input character extends the output.
pub open spec fn fmt_step(opts: FormatOptions, st: FmtState, c: char) -> FmtState {
    let entering = st.prev == '/' && c == '*';
    let leaving = !entering && st.prev == '*' && c == '/';
    let in_comment = if entering {
        true
    } else if leaving {
        false
    } else {
        st.in_comment
    };
    if in_comment {
        FmtState { out: st.out.push(c), level: st.level, in_comment, prev: c }
    } else {
        let o = st.out;
        if c == '{' {
            let o1 = if !ends_with_char(o, ' ') && !ends_with_char(o, '\n') {
                o.push(' ')
            } else {
                o
            };
            FmtState {
                out: o1.push('{').push('\n'),
                level: st.level + 1,
                in_comment,
                prev: c,
            }
        } else if c == '}' {
            let o1 = trim_trailing_blanks(o);
            let o2 = if !ends_with_char(o1, '\n') {
                o1.push('\n')
            } else {
                o1
            };
            let level = if st.level > 0 {
                st.level - 1
            } else {
                0
            };
            FmtState {
                out: o2 + rep_seq(indent_seq(opts), level) + seq!['}', '\n'],
                level,
                in_comment,
                prev: c,
            }
        } else if c == ';' {
            FmtState { out: o.push(';').push('\n'), level: st.level, in_comment, prev: c }
        } else if c == ':' {
            let o1 = o.push(':');
            let o2 = if !(o1.len() >= 2 && o1[o1.len() - 2] == ':' && o1[o1.len() - 1] == ' ') {
                o1.push(' ')
            } else {
                o1
            };
            FmtState { out: o2, level: st.level, in_comment, prev: c }
        } else if c == '\n' {
            let o1 = if !ends_with_char(o, '\n') {
                o.push('\n')
            } else {
                o
            };
            FmtState { out: o1, level: st.level, in_comment, prev: c }
        } else if c == ' ' || c == '\t' {
            let o1 = if ends_with_char(o, '\n') {
                o + rep_seq(indent_seq(opts), st.level)
            } else if !ends_with_char(o, ' ') && !ends_with_char(o, '\t') {
                o.push(' ')
            } else {
                o
            };
            FmtState { out: o1, level: st.level, in_comment, prev: c }
        } else {
            let o1 = if ends_with_char(o, '\n') {
                o + rep_seq(indent_seq(opts), st.level)
            } else {
                o
            };
            FmtState { out: o1.push(c), level: st.level, in_comment, prev: c }
        }
    }
}

/// The pass over `s` from position `i` on, starting in state `st`.
pub open spec fn fmt_from(opts: FormatOptions, s: Seq<char>, i: int, st: FmtState) -> FmtState
    decreases s.len() - i,
{
    if i < 0 {
        fmt_from(opts, s, 0, st)
    } else if i >= s.len() {
        st
    } else {
        fmt_from(opts, s, i + 1, fmt_step(opts, st, s[i]))
    }
}

pub open spec fn fmt_init() -> FmtState {
    FmtState { out: Seq::empty(), level: 0, in_comment: false, prev: '\u{0}' }
}

/// The formatted text of `s`.
pub open spec fn format_spec(s: Seq<char>, opts: FormatOptions) -> Seq<char> {
    fmt_from(opts, s, 0, fmt_init()).out
}

/// Append one level of indentation to `out`.
fn push_indent_once(out: &mut Vec<char>, opts: &FormatOptions)
    ensures
        final (out)@ == old(out)@ + indent_seq(*opts),
{
    if opts.use_spaces {
        let n = opts.indent_width as usize;
        let mut k: usize = 0;
        assert(out@ =~= old(out)@ + Seq::new(0nat, |i: int| ' '));
        while k < n
            invariant
                0 <= k <= n,
                n == opts.indent_width,
                out@ == old(out)@ + Seq::new(k as nat, |i: int| ' '),
            decreases n - k,
        {
            let ghost before = out@;
            out.push(' ');
            proof {
                assert(out@ =~= old(out)@ + Seq::new((k + 1) as nat, |i: int| ' '));
            }
            k += 1;
        }
        assert(out@ =~= old(out)@ + indent_seq(*opts));
    } else {
        out.push('\t');
        assert(out@ =~= old(out)@ + indent_seq(*opts));
    }
}

/// Append `level` levels of indentation to `out`.
fn push_indent(out: &mut Vec<char>, opts: &FormatOptions, level: usize)
    ensures
        final (out)@ == old(out)@ + rep_seq(indent_seq(*opts), level as int),
{
    let mut k: usize = 0;
    assert(out@ =~= old(out)@ + rep_seq(indent_seq(*opts), 0));
    while k < level
        invariant
            0 <= k <= level,
            out@ == old(out)@ + rep_seq(indent_seq(*opts), k as int),
        decreases level - k,
    {
        push_indent_once(out, opts);
        proof {
            assert(out@ =~= old(out)@ + rep_seq(indent_seq(*opts), k + 1));
        }
        k += 1;
    }
}

fn ends_with(out: &Vec<char>, c: char) -> (r: bool)
    ensures
        r == ends_with_char(out@, c),
{
    out.len() > 0 && out[out.len() - 1] == c
}

/// Relies on `String`'s `FromIterator` over `char`: collecting the
/// characters of the vector yields the string of exactly those
/// characters in order.
#[verifier::external_body]
fn chars_to_string(v: &Vec<char>) -> (r: String)
    ensures
        r@ == v@,
{
    v.iter().collect()
}

/// Re-emit the text with normalized layout (see `format_spec`).
pub fn format_uss(text: &str, options: &FormatOptions) -> (r: String)
    ensures
        r@ == format_spec(text@, *options),
{
    let len = text.unicode_len();
    let mut out: Vec<char> = Vec::new();
    let mut level: usize = 0;
    let mut in_comment = false;
    let mut prev: char = '\u{0}';
    let mut i: usize = 0;
    while i < len
        invariant
            len == text@.len(),
            0 <= i <= len,
            level <= i,
            fmt_from(*options, text@, 0, fmt_init()) == fmt_from(
                *options,
                text@,
                i as int,
                FmtState { out: out@, level: level as int, in_comment, prev },
            ),
        decreases len - i,
    {
        let ghost st = FmtState { out: out@, level: level as int, in_comment, prev };
        let c = text.get_char(i);
        let ghost st2 = fmt_step(*options, st, c);
        let entering = prev == '/' && c == '*';
        let leaving = !entering && prev == '*' && c == '/';
        if entering {
            in_comment = true;
        } else if leaving {
            in_comment = false;
        }
        if in_comment {
            out.push(c);
        } else if c == '{' {
            if !ends_with(&out, ' ') && !ends_with(&out, '\n') {
                out.push(' ');
            }
            out.push('{');
            out.push('\n');
            level += 1;
        } else if c == '}' {
            while out.len() > 0 && (out[out.len() - 1] == ' ' || out[out.len() - 1] == '\t')
                invariant
                    trim_trailing_blanks(st.out) == trim_trailing_blanks(out@),
                decreases out@.len(),
            {
                let ghost before = out@;
                out.pop();
                proof {
                    assert(out@ =~= before.drop_last());
                }
            }
            assert(out@ == trim_trailing_blanks(st.out));
            if !ends_with(&out, '\n') {
                out.push('\n');
            }
            if level > 0 {
                level -= 1;
            }
            push_indent(&mut out, options, level);
            out.push('}');
            out.push('\n');
            assert(out@ =~= st2.out);
        } else if c == ';' {
            out.push(';');
            out.push('\n');
        } else if c == ':' {
            out.push(':');
            if !(out.len() >= 2 && out[out.len() - 2] == ':' && out[out.len() - 1] == ' ') {
                out.push(' ');
            }
        } else if c == '\n' {
            if !ends_with(&out, '\n') {
                out.push('\n');
            }
        } else if c == ' ' || c == '\t' {
            if ends_with(&out, '\n') {
                push_indent(&mut out, options, level);
            } else if !ends_with(&out, ' ') && !ends_with(&out, '\t') {
                out.push(' ');
            }
        } else {
            if ends_with(&out, '\n') {
                push_indent(&mut out, options, level);
            }
            out.push(c);
        }
        prev = c;
        proof {
            assert(FmtState { out: out@, level: level as int, in_comment, prev } == st2);
        }
        i += 1;
    }
    chars_to_string(&out)
}

/// The whole-document formatting result: no edit when the text is
/// already formatted, else one edit replacing the entire document.
pub open spec fn format_document_spec(s: Seq<char>, opts: FormatOptions) -> Seq<TextRange> {
    if format_spec(s, opts) == s {
        Seq::empty()
    } else {
        seq![
            TextRange {
                start: Position { line: 0, character: 0 },
                end: crate::document::offset_to_position_spec(s, s.len() as int),
            },
        ]
    }
}

/// Format the whole document: one edit spanning everything, or none
/// when the content is already formatted.
pub fn format_document(doc: &Document, options: &FormatOptions) -> (r: Vec<TextEdit>)
    requires
        doc.text().len() <= u32::MAX,
    ensures
        r@.len() <= 1,
        r@.len() == 0 <==> format_spec(doc.text(), *options) == doc.text(),
        forall|k: int|
            0 <= k < r@.len() ==> r@[k].range == format_document_spec(doc.text(), *options)[k]
                && r@[k].new_text@ == format_spec(doc.text(), *options),
{
    let text = doc.get_text();
    let formatted = format_uss(text.as_str(), options);
    if formatted == text {
        return Vec::new();
    }
    let end = doc.offset_to_position(text.as_str().unicode_len());
    let mut r: Vec<TextEdit> = Vec::new();
    r.push(
        TextEdit {
            range: TextRange { start: Position { line: 0, character: 0 }, end },
            new_text: formatted,
        },
    );
    r
}

/// The character span a formatting range denotes: the start defaults to
/// the document start and the end to the document end when a position
/// does not resolve.
pub open spec fn resolved_span(s: Seq<char>, r: TextRange) -> (int, int) {
    let a = match position_to_offset_spec(s, r.start) {
        Some(o) => o,
        None => 0,
    };
    let b = match position_to_offset_spec(s, r.end) {
        Some(o) => o,
        None => s.len() as int,
    };
    (a, b)
}

/// Format the span of the document denoted by `range`: one edit
/// replacing the span with its formatted text, or none exactly when the
/// resolved span is reversed or its formatted text equals the span.
pub fn format_range(doc: &Document, range: TextRange, options: &FormatOptions) -> (r: Vec<
    TextEdit,
>)
    requires
        doc.text().len() <= u32::MAX,
    ensures
        ({
            let (a, b) = resolved_span(doc.text(), range);
            &&& r@.len() <= 1
            &&& r@.len() == 0 <==> (a > b || format_spec(doc.text().subrange(a, b), *options)
                == doc.text().subrange(a, b))
            &&& r@.len() == 1 ==> r@[0].range == range && r@[0].new_text@ == format_spec(
                doc.text().subrange(a, b),
                *options,
            )
        }),
{
    let text = doc.get_text();
    let len = text.as_str().unicode_len();
    let start = match doc.position_to_offset(range.start) {
        Some(o) => o,
        None => 0,
    };
    let end = match doc.position_to_offset(range.end) {
        Some(o) => o,
        None => len,
    };
    if start > end {
        return Vec::new();
    }
    let slice = text.as_str().substring_char(start, end);
    let formatted = format_uss(slice, options);
    let mut r: Vec<TextEdit> = Vec::new();
    proof {
        assert(slice@ == doc.text().subrange(start as int, end as int));
    }
    if formatted.as_str().unicode_len() == slice.unicode_len() {
        // compare the characters: identical content needs no edit
        let mut same = true;
        let n = slice.unicode_len();
        let mut k: usize = 0;
        while k < n && same
            invariant
                0 <= k <= n,
                n == slice@.len(),
                n == formatted@.len(),
                same ==> forall|j: int| 0 <= j < k ==> formatted@[j] == slice@[j],
                !same ==> formatted@ != slice@,
            decreases n - k + if same {
                1 as int
            } else {
                0 as int
            },
        {
            if formatted.as_str().get_char(k) != slice.get_char(k) {
                proof {
                    assert(formatted@[k as int] != slice@[k as int]);
                }
                same = false;
            } else {
                k += 1;
            }
        }
        if same {
            assert(formatted@ =~= slice@);
            return r;
        }
    } else {
        proof {
            assert(formatted@ != slice@);
        }
    }
    r.push(TextEdit { range, new_text: formatted });
    assert(r@[0].new_text@ == format_spec(doc.text().subrange(start as int, end as int), *options));
    r
}

} // verus!
