//! The diagnostics scanner: a single line-by-line pass that tracks brace
//! depth across lines and flags shallow syntax problems — unknown or
//! empty property declarations, malformed hex color literals, unbalanced
//! parentheses, missing semicolons, and unbalanced braces at the end of
//! the document.

use vstd::prelude::*;
use vstd::string::{StrSliceExecFns, StringExecFns};

use crate::document::Document;
use crate::lines::line_count;
use crate::strutil::{
    char_count, contains_char, contains_sub, count_char, dec_seq, dec_string, find_sub,
    first_idx_exec, first_idx_from, first_idx_from_exec, first_sub_from, has_sub, hex_run_end,
    hex_run_end_exec, is_narrow_word_char, lemma_first_idx_from, lemma_first_sub_from,
    narrow_word_char, paren_closes, paren_closes_exec, skip_spaces, skip_spaces_exec,
    str_contains_char, trim_seq, trim_str, word_run_end, word_run_end_exec,
};
use crate::{Position, TextRange};

verus! {

/// How serious a diagnostic is.
#[derive(Clone, Copy, Debug, PartialEq, Eq, Structural)]
pub enum Severity {
    Error,
    Warning,
    Information,
    Hint,
}

/// One finding of the scanner: where, how serious, and the message text.
#[derive(Debug, Clone)]
pub struct Diagnostic {
    pub range: TextRange,
    pub severity: Severity,
    pub message: String,
}

/// The value of a `Diagnostic` in specifications: the message as a
/// character sequence.
#[verifier::ext_equal]
pub struct DiagnosticView {
    pub range: TextRange,
    pub severity: Severity,
    pub message: Seq<char>,
}

impl View for Diagnostic {
    type V = DiagnosticView;

    open spec fn view(&self) -> DiagnosticView {
        DiagnosticView { range: self.range, severity: self.severity, message: self.message@ }
    }
}

/// The diagnostics of a sequence, each taken at its view.
pub open spec fn diags_view(v: Seq<Diagnostic>) -> Seq<DiagnosticView> {
    v.map_values(|d: Diagnostic| d@)
}

/// A single-line range on line `num` from column `a` to column `b`.
pub open spec fn mk_range(num: int, a: int, b: int) -> TextRange {
    TextRange {
        start: Position { line: num as u32, character: a as u32 },
        end: Position { line: num as u32, character: b as u32 },
    }
}

pub open spec fn mk_diag_spec(num: int, a: int, b: int, sev: Severity, msg: Seq<char>)
    -> DiagnosticView {
    DiagnosticView { range: mk_range(num, a, b), severity: sev, message: msg }
}

// ---------------------------------------------------------------------
// Splitting the text into scanner lines
// ---------------------------------------------------------------------
/// A line piece with a trailing CR removed (a CRLF terminator leaves its
/// CR at the end of the piece before the LF).
pub open spec fn strip_cr(l: Seq<char>) -> Seq<char> {
    if l.len() > 0 && l[l.len() - 1] == '\r' {
        l.drop_last()
    } else {
        l
    }
}

/// The scanner's lines of `s` from position `i` on: pieces separated by
/// LF, a trailing CR of each inner piece removed, and no final empty
/// piece after a terminating LF.
pub open spec fn lines_from(s: Seq<char>, i: int) -> Seq<Seq<char>>
    decreases s.len() - i,
{
    if i < 0 {
        lines_from(s, 0)
    } else if i >= s.len() {
        Seq::empty()
    } else {
        let j0 = first_idx_from(s, '\n', i);
        let j = if j0 >= i {
            j0
        } else {
            i
        };
        if j >= s.len() {
            seq![s.subrange(i, s.len() as int)]
        } else {
            seq![strip_cr(s.subrange(i, j))] + lines_from(s, j + 1)
        }
    }
}

/// The scanner's lines of the whole text.
pub open spec fn lines_of(s: Seq<char>) -> Seq<Seq<char>> {
    lines_from(s, 0)
}

/// There are at most as many lines as characters, and every line is at
/// most as long as the text.
pub proof fn lemma_lines_from_bounds(s: Seq<char>, i: int)
    requires
        0 <= i <= s.len(),
    ensures
        lines_from(s, i).len() <= s.len() - i,
        forall|k: int|
            0 <= k < lines_from(s, i).len() ==> (#[trigger] lines_from(s, i)[k]).len() <= s.len()
                - i,
    decreases s.len() - i,
{
    if i < s.len() {
        lemma_first_idx_from(s, '\n', i);
        let j = first_idx_from(s, '\n', i);
        if j < s.len() {
            lemma_lines_from_bounds(s, j + 1);
        }
    }
}

/// Split the text into the scanner's lines.
pub fn split_lines(s: &str) -> (r: Vec<String>)
    ensures
        r.deep_view() == lines_of(s@),
{
    let len = s.unicode_len();
    let mut out: Vec<String> = Vec::new();
    let mut i: usize = 0;
    while i < len
        invariant
            len == s@.len(),
            0 <= i <= len,
            lines_of(s@) =~= out.deep_view() + lines_from(s@, i as int),
        decreases len - i,
    {
        proof {
            lemma_first_idx_from(s@, '\n', i as int);
        }
        let j = first_idx_from_exec(s, len, i, '\n');
        let ghost prev = out.deep_view();
        if j >= len {
            out.push(String::from_str(s.substring_char(i, len)));
            proof {
                assert(out.deep_view() =~~= prev.push(s@.subrange(i as int, len as int)));
                assert(lines_from(s@, i as int) =~= seq![s@.subrange(i as int, len as int)]);
                assert(lines_of(s@) =~= out.deep_view() + lines_from(s@, len as int));
            }
            i = len;
        } else {
            let line_end = if j > i && s.get_char(j - 1) == '\r' {
                j - 1
            } else {
                j
            };
            out.push(String::from_str(s.substring_char(i, line_end)));
            proof {
                assert(strip_cr(s@.subrange(i as int, j as int)) =~= s@.subrange(
                    i as int,
                    line_end as int,
                ));
                assert(out.deep_view() =~~= prev.push(strip_cr(s@.subrange(i as int, j as int))));
                assert(lines_from(s@, i as int) =~= seq![
                    strip_cr(s@.subrange(i as int, j as int)),
                ] + lines_from(s@, j + 1));
            }
            i = j + 1;
        }
    }
    assert(out.deep_view() =~~= lines_of(s@));
    out
}

// ---------------------------------------------------------------------
// Property declarations
// ---------------------------------------------------------------------
/// Parse a trimmed line as `name : value` with at most one trailing `;`:
/// the name is a leading run of word characters, a colon follows after
/// optional whitespace, and the remainder — one optional final `;`
/// removed — is non-empty and holds no further `;`.  Yields the name and
/// that remainder.
pub open spec fn prop_parse(t: Seq<char>) -> Option<(Seq<char>, Seq<char>)> {
    let ne = word_run_end(t, 0);
    if ne <= 0 {
        None
    } else {
        let colon = skip_spaces(t, ne);
        if !(colon < t.len() && t[colon] == ':') {
            None
        } else {
            let u = t.subrange(colon + 1, t.len() as int);
            let u2 = if u.len() > 0 && u[u.len() - 1] == ';' {
                u.drop_last()
            } else {
                u
            };
            if u2.len() > 0 && !contains_char(u2, ';') {
                Some((t.subrange(0, ne), u2))
            } else {
                None
            }
        }
    }
}

pub open spec fn msg_unknown_property(name: Seq<char>) -> Seq<char> {
    "Unknown USS property: '"@ + name + "'"@
}

/// Findings for a property-shaped line inside a block: a warning when
/// the name is neither a custom property (`--` prefix) nor in the known
/// property table, anchored at the name's first occurrence on the line;
/// and an error when the value is all whitespace, anchored from the
/// line's first colon to its end.
pub open spec fn prop_diags(line: Seq<char>, num: int, known: Seq<Seq<char>>)
    -> Seq<DiagnosticView> {
    match prop_parse(trim_seq(line)) {
        None => Seq::empty(),
        Some((name, u2)) => {
            let warn = if !(name.len() >= 2 && name[0] == '-' && name[1] == '-')
                && !known.contains(name) {
                let sc = match first_sub_from(line, name, 0) {
                    Some(i) => i,
                    None => 0,
                };
                seq![
                    mk_diag_spec(
                        num,
                        sc,
                        sc + name.len(),
                        Severity::Warning,
                        msg_unknown_property(name),
                    ),
                ]
            } else {
                Seq::empty()
            };
            let err = if trim_seq(u2).len() == 0 {
                let cp0 = first_idx_from(line, ':', 0);
                let cp = if cp0 < line.len() {
                    cp0
                } else {
                    0
                };
                seq![
                    mk_diag_spec(
                        num,
                        cp,
                        line.len() as int,
                        Severity::Error,
                        "Property value is empty"@,
                    ),
                ]
            } else {
                Seq::empty()
            };
            warn + err
        },
    }
}

/// Whether the known-property table holds `name`.
fn known_contains(known: &Vec<String>, name: &String) -> (r: bool)
    ensures
        r == known.deep_view().contains(name@),
{
    let mut i: usize = 0;
    while i < known.len()
        invariant
            0 <= i <= known.len(),
            forall|j: int| 0 <= j < i ==> known.deep_view()[j] != name@,
        decreases known.len() - i,
    {
        if known[i] == *name {
            assert(known.deep_view()[i as int] == name@);
            return true;
        }
        i += 1;
    }
    assert forall|j: int| 0 <= j < known.deep_view().len() implies known.deep_view()[j] != name@
        by {}
    false
}

/// Check one line, known to lie inside a declaration block, for a
/// property declaration with an unknown name or an empty value.
pub fn check_property_declaration(line: &str, line_num: usize, known: &Vec<String>) -> (r: Vec<
    Diagnostic,
>)
    requires
        line@.len() <= u32::MAX,
        line_num <= u32::MAX,
    ensures
        diags_view(r@) == prop_diags(line@, line_num as int, known.deep_view()),
{
    let mut out: Vec<Diagnostic> = Vec::new();
    let tr = trim_str(line);
    let tlen = tr.unicode_len();
    let ne = word_run_end_exec(tr, tlen, 0);
    if ne == 0 {
        assert(diags_view(out@) =~~= prop_diags(line@, line_num as int, known.deep_view()));
        return out;
    }
    let colon = skip_spaces_exec(tr, tlen, ne);
    if !(colon < tlen && tr.get_char(colon) == ':') {
        assert(diags_view(out@) =~~= prop_diags(line@, line_num as int, known.deep_view()));
        return out;
    }
    let u = tr.substring_char(colon + 1, tlen);
    let ulen = tlen - colon - 1;
    let u2_end = if ulen > 0 && u.get_char(ulen - 1) == ';' {
        ulen - 1
    } else {
        ulen
    };
    let u2 = u.substring_char(0, u2_end);
    proof {
        let tu = trim_seq(line@).subrange(colon + 1, tlen as int);
        let tu2 = if tu.len() > 0 && tu[tu.len() - 1] == ';' {
            tu.drop_last()
        } else {
            tu
        };
        assert(u2@ =~= tu2);
    }
    if u2_end == 0 || str_contains_char(u2, ';') {
        assert(diags_view(out@) =~~= prop_diags(line@, line_num as int, known.deep_view()));
        return out;
    }
    let name = String::from_str(tr.substring_char(0, ne));
    let is_custom = ne >= 2 && tr.get_char(0) == '-' && tr.get_char(1) == '-';
    if !is_custom && !known_contains(known, &name) {
        proof {
            lemma_first_sub_from(line@, name@, 0);
        }
        let sc = match find_sub(line, name.as_str()) {
            Some(i) => {
                proof {
                    lemma_first_sub_from(line@, name@, 0);
                }
                i
            },
            None => 0,
        };
        let mut msg = String::from_str("Unknown USS property: '");
        msg.append(name.as_str());
        msg.append("'");
        out.push(
            Diagnostic {
                range: TextRange {
                    start: Position { line: line_num as u32, character: sc as u32 },
                    end: Position { line: line_num as u32, character: (sc + ne) as u32 },
                },
                severity: Severity::Warning,
                message: msg,
            },
        );
    }
    if trim_str(u2).unicode_len() == 0 {
        let line_len = line.unicode_len();
        let cp0 = first_idx_exec(line, ':');
        let cp = if cp0 < line_len {
            cp0
        } else {
            0
        };
        out.push(
            Diagnostic {
                range: TextRange {
                    start: Position { line: line_num as u32, character: cp as u32 },
                    end: Position { line: line_num as u32, character: line_len as u32 },
                },
                severity: Severity::Error,
                message: String::from_str("Property value is empty"),
            },
        );
    }
    assert(diags_view(out@) =~~= prop_diags(line@, line_num as int, known.deep_view()));
    out
}

// ---------------------------------------------------------------------
// Hex color literals
// ---------------------------------------------------------------------
/// A `#` at `i` starts a run of hex digits that ends at a word boundary
/// and whose length is not one of 3, 4, 6 or 8.
pub open spec fn hex_flag_at(line: Seq<char>, i: int) -> bool {
    &&& 0 <= i < line.len()
    &&& line[i] == '#'
    &&& {
        let e = hex_run_end(line, i + 1);
        let n = e - (i + 1);
        &&& n >= 1
        &&& (e == line.len() || !is_narrow_word_char(line[e]))
        &&& !(n == 3 || n == 4 || n == 6 || n == 8)
    }
}

pub open spec fn msg_hex_length(n: int) -> Seq<char> {
    "Invalid hex color length: "@ + dec_seq(n) + ". Expected 3, 4, 6, or 8 characters."@
}

pub open spec fn hex_diag_at(line: Seq<char>, num: int, i: int) -> DiagnosticView {
    let e = hex_run_end(line, i + 1);
    let n = e - (i + 1);
    mk_diag_spec(num, i, e, Severity::Error, msg_hex_length(n))
}

/// All malformed hex color findings at or after position `i`.
pub open spec fn hex_diags_from(line: Seq<char>, num: int, i: int) -> Seq<DiagnosticView>
    decreases line.len() - i,
{
    if i < 0 {
        hex_diags_from(line, num, 0)
    } else if i >= line.len() {
        Seq::empty()
    } else if hex_flag_at(line, i) {
        seq![hex_diag_at(line, num, i)] + hex_diags_from(line, num, i + 1)
    } else {
        hex_diags_from(line, num, i + 1)
    }
}

/// Flag every `#`-prefixed hex digit run whose length is not 3, 4, 6 or
/// 8 — the shape of a color literal, not its meaning.
pub fn check_hex_colors(line: &str, line_num: usize) -> (r: Vec<Diagnostic>)
    requires
        line@.len() <= u32::MAX,
        line_num <= u32::MAX,
    ensures
        diags_view(r@) == hex_diags_from(line@, line_num as int, 0),
{
    let len = line.unicode_len();
    let mut out: Vec<Diagnostic> = Vec::new();
    let mut i: usize = 0;
    while i < len
        invariant
            len == line@.len(),
            len <= u32::MAX,
            line_num <= u32::MAX,
            0 <= i <= len,
            hex_diags_from(line@, line_num as int, 0) =~= diags_view(out@) + hex_diags_from(
                line@,
                line_num as int,
                i as int,
            ),
        decreases len - i,
    {
        let ghost prev = out@;
        if line.get_char(i) == '#' {
            let e = hex_run_end_exec(line, len, i + 1);
            let n = e - (i + 1);
            let boundary = e == len || !narrow_word_char(line.get_char(e));
            if n >= 1 && boundary && !(n == 3 || n == 4 || n == 6 || n == 8) {
                let mut msg = String::from_str("Invalid hex color length: ");
                msg.append(dec_string(n as u128).as_str());
                msg.append(". Expected 3, 4, 6, or 8 characters.");
                out.push(
                    Diagnostic {
                        range: TextRange {
                            start: Position { line: line_num as u32, character: i as u32 },
                            end: Position { line: line_num as u32, character: e as u32 },
                        },
                        severity: Severity::Error,
                        message: msg,
                    },
                );
                assert(diags_view(out@) =~~= diags_view(prev) + seq![
                    hex_diag_at(line@, line_num as int, i as int),
                ]);
            }
        }
        i += 1;
    }
    assert(diags_view(out@) =~~= hex_diags_from(line@, line_num as int, 0));
    out
}

// ---------------------------------------------------------------------
// Unbalanced parentheses
// ---------------------------------------------------------------------
/// Position of the first closing parenthesis that has no matching opener
/// on the line, scanning left to right with a running depth.
pub open spec fn first_unmatched_close(line: Seq<char>, i: int, depth: int) -> Option<int>
    decreases line.len() - i,
{
    if i < 0 {
        first_unmatched_close(line, 0, depth)
    } else if i >= line.len() {
        None
    } else if line[i] == ')' && depth <= 0 {
        Some(i)
    } else if line[i] == ')' {
        first_unmatched_close(line, i + 1, depth - 1)
    } else if line[i] == '(' {
        first_unmatched_close(line, i + 1, depth + 1)
    } else {
        first_unmatched_close(line, i + 1, depth)
    }
}

/// Position of the first opening parenthesis at or after `i` that no
/// later closing parenthesis matches.
pub open spec fn first_unmatched_open(line: Seq<char>, i: int) -> Option<int>
    decreases line.len() - i,
{
    if i < 0 {
        first_unmatched_open(line, 0)
    } else if i >= line.len() {
        None
    } else if line[i] == '(' && !paren_closes(line, i + 1, 1) {
        Some(i)
    } else {
        first_unmatched_open(line, i + 1)
    }
}

/// Findings for a line whose parenthesis counts differ: exactly one —
/// the first unmatched closer if any position dips below depth zero,
/// else the first opener that no later closer matches.
pub open spec fn paren_diags(line: Seq<char>, num: int) -> Seq<DiagnosticView> {
    if count_char(line, '(') == count_char(line, ')') {
        Seq::empty()
    } else {
        match first_unmatched_close(line, 0, 0) {
            Some(i) => seq![
                mk_diag_spec(num, i, i + 1, Severity::Error, "Unmatched closing parenthesis"@),
            ],
            None => match first_unmatched_open(line, 0) {
                Some(lo) => seq![
                    mk_diag_spec(num, lo, lo + 1, Severity::Error, "Unclosed parenthesis"@),
                ],
                None => Seq::empty(),
            },
        }
    }
}

/// A line gets at most one parenthesis finding: the first imbalance,
/// with an unmatched closer reported before a trailing unclosed opener.
pub proof fn lemma_paren_diags_at_most_one(line: Seq<char>, num: int)
    ensures
        paren_diags(line, num).len() <= 1,
{
}

/// Report the first parenthesis imbalance of the line, if its counts of
/// openers and closers differ.
pub fn check_unclosed_parens(line: &str, line_num: usize) -> (r: Vec<Diagnostic>)
    requires
        line@.len() <= u32::MAX,
        line_num <= u32::MAX,
    ensures
        diags_view(r@) == paren_diags(line@, line_num as int),
{
    let mut out: Vec<Diagnostic> = Vec::new();
    let opens = char_count(line, '(');
    let closes = char_count(line, ')');
    if opens == closes {
        assert(diags_view(out@) =~~= paren_diags(line@, line_num as int));
        return out;
    }
    let len = line.unicode_len();
    let mut i: usize = 0;
    let mut depth: usize = 0;
    while i < len
        invariant
            len == line@.len(),
            len <= u32::MAX,
            line_num <= u32::MAX,
            0 <= i <= len,
            depth <= i,
            out@.len() == 0,
            count_char(line@, '(') != count_char(line@, ')'),
            first_unmatched_close(line@, 0, 0) == first_unmatched_close(
                line@,
                i as int,
                depth as int,
            ),
        decreases len - i,
    {
        let c = line.get_char(i);
        if c == ')' {
            if depth == 0 {
                out.push(
                    Diagnostic {
                        range: TextRange {
                            start: Position { line: line_num as u32, character: i as u32 },
                            end: Position { line: line_num as u32, character: (i + 1) as u32 },
                        },
                        severity: Severity::Error,
                        message: String::from_str("Unmatched closing parenthesis"),
                    },
                );
                proof {
                    assert(first_unmatched_close(line@, 0, 0) == Some(i as int));
                }
                assert(diags_view(out@) =~~= paren_diags(line@, line_num as int));
                return out;
            }
            depth -= 1;
        } else if c == '(' {
            depth += 1;
        }
        i += 1;
    }
    assert(first_unmatched_close(line@, 0, 0) is None);
    let mut k: usize = 0;
    while k < len
        invariant
            len == line@.len(),
            len <= u32::MAX,
            line_num <= u32::MAX,
            0 <= k <= len,
            out@.len() == 0,
            first_unmatched_close(line@, 0, 0) is None,
            count_char(line@, '(') != count_char(line@, ')'),
            first_unmatched_open(line@, 0) == first_unmatched_open(line@, k as int),
        decreases len - k,
    {
        if line.get_char(k) == '(' && !paren_closes_exec(line, len, k + 1, 1) {
            proof {
                assert(first_unmatched_open(line@, 0) == Some(k as int));
            }
            out.push(
                Diagnostic {
                    range: TextRange {
                        start: Position { line: line_num as u32, character: k as u32 },
                        end: Position { line: line_num as u32, character: (k + 1) as u32 },
                    },
                    severity: Severity::Error,
                    message: String::from_str("Unclosed parenthesis"),
                },
            );
            assert(diags_view(out@) =~~= paren_diags(line@, line_num as int));
            return out;
        }
        k += 1;
    }
    assert(first_unmatched_open(line@, 0) is None);
    assert(diags_view(out@) =~~= paren_diags(line@, line_num as int));
    out
}

// ---------------------------------------------------------------------
// Missing semicolons
// ---------------------------------------------------------------------
/// A declaration-shaped line inside a block that looks complete (exactly
/// one colon, no `url(`/`var(` continuation) but lacks its terminator.
pub open spec fn semi_missing(line: Seq<char>) -> bool {
    let tr = trim_seq(line);
    &&& tr.len() > 0
    &&& contains_char(tr, ':')
    &&& tr[tr.len() - 1] != ';'
    &&& tr[tr.len() - 1] != '{'
    &&& tr[tr.len() - 1] != '}'
    &&& count_char(tr, ':') == 1
    &&& !contains_sub(tr, "url("@)
    &&& !contains_sub(tr, "var("@)
}

pub open spec fn semi_diag(line: Seq<char>, num: int) -> DiagnosticView {
    let e = line.len() as int;
    let st = if e >= 1 {
        e - 1
    } else {
        0
    };
    mk_diag_spec(num, st, e, Severity::Warning, "Missing semicolon at end of declaration"@)
}

// ---------------------------------------------------------------------
// One line of the scan
// ---------------------------------------------------------------------
/// Lines the scanner passes over entirely: empty ones and those opening
/// a comment (a shallow check; the pass is not comment-aware across
/// lines).
pub open spec fn skip_line(line: Seq<char>) -> bool {
    let tr = trim_seq(line);
    tr.len() == 0 || (tr.len() >= 2 && tr[0] == '/' && (tr[1] == '*' || tr[1] == '/'))
}

/// Cumulative brace depth after the line: unchanged for skipped lines,
/// else adjusted by the line's brace counts.
pub open spec fn depth_after(line: Seq<char>, depth: int) -> int {
    if skip_line(line) {
        depth
    } else {
        depth + count_char(line, '{') - count_char(line, '}')
    }
}

/// All findings for one line, given the cumulative depth before it.
pub open spec fn line_diags(line: Seq<char>, num: int, depth: int, known: Seq<Seq<char>>)
    -> Seq<DiagnosticView> {
    if skip_line(line) {
        Seq::empty()
    } else {
        let in_block = depth_after(line, depth) > 0;
        (if in_block {
            prop_diags(line, num, known)
        } else {
            Seq::empty()
        }) + hex_diags_from(line, num, 0) + paren_diags(line, num) + (if in_block && semi_missing(
            line,
        ) {
            seq![semi_diag(line, num)]
        } else {
            Seq::empty()
        })
    }
}

/// Check a single line, updating the cumulative brace depth and the
/// inside-a-block flag carried across lines.  The depth bound asks only
/// that the running depth stay far from the ends of its type, so that
/// one more line's worth of braces cannot overflow it.
pub fn check_line(
    line: &str,
    line_num: usize,
    brace_depth: &mut i128,
    in_declaration_block: &mut bool,
    known: &Vec<String>,
) -> (r: Vec<Diagnostic>)
    requires
        line@.len() <= u32::MAX,
        line_num <= u32::MAX,
        -0x40000000000000000 <= *old(brace_depth) <= 0x40000000000000000,
        *old(in_declaration_block) == (*old(brace_depth) > 0),
    ensures
        diags_view(r@) == line_diags(
            line@,
            line_num as int,
            *old(brace_depth) as int,
            known.deep_view(),
        ),
        *final (brace_depth) == depth_after(line@, *old(brace_depth) as int),
        *final (in_declaration_block) == (*final (brace_depth) > 0),
{
    let mut out: Vec<Diagnostic> = Vec::new();
    let tr = trim_str(line);
    let tlen = tr.unicode_len();
    let skip = tlen == 0 || (tlen >= 2 && tr.get_char(0) == '/' && (tr.get_char(1) == '*'
        || tr.get_char(1) == '/'));
    if skip {
        assert(diags_view(out@) =~~= line_diags(
            line@,
            line_num as int,
            *brace_depth as int,
            known.deep_view(),
        ));
        return out;
    }
    let opens = char_count(line, '{');
    let closes = char_count(line, '}');
    proof {
        crate::strutil::lemma_count_char_upto_le(line@, '{', line@.len() as int);
        crate::strutil::lemma_count_char_upto_le(line@, '}', line@.len() as int);
    }
    *brace_depth = *brace_depth + opens as i128 - closes as i128;
    *in_declaration_block = *brace_depth > 0;
    if *in_declaration_block {
        let mut d = check_property_declaration(line, line_num, known);
        out.append(&mut d);
    }
    let mut h = check_hex_colors(line, line_num);
    out.append(&mut h);
    let mut p = check_unclosed_parens(line, line_num);
    out.append(&mut p);
    if *in_declaration_block {
        let last = tr.get_char(tlen - 1);
        let semi = str_contains_char(tr, ':') && last != ';' && last != '{' && last != '}'
            && char_count(tr, ':') == 1 && !has_sub(tr, "url(") && !has_sub(tr, "var(");
        if semi {
            let line_len = line.unicode_len();
            let st = if line_len >= 1 {
                line_len - 1
            } else {
                0
            };
            out.push(
                Diagnostic {
                    range: TextRange {
                        start: Position { line: line_num as u32, character: st as u32 },
                        end: Position { line: line_num as u32, character: line_len as u32 },
                    },
                    severity: Severity::Warning,
                    message: String::from_str("Missing semicolon at end of declaration"),
                },
            );
        }
    }
    assert(diags_view(out@) =~~= line_diags(
        line@,
        line_num as int,
        *old(brace_depth) as int,
        known.deep_view(),
    ));
    out
}

// ---------------------------------------------------------------------
// The whole document
// ---------------------------------------------------------------------
/// All findings from line `idx` on, given the cumulative depth before.
pub open spec fn scan_from(ls: Seq<Seq<char>>, known: Seq<Seq<char>>, idx: int, depth: int)
    -> Seq<DiagnosticView>
    decreases ls.len() - idx,
{
    if idx < 0 {
        scan_from(ls, known, 0, depth)
    } else if idx >= ls.len() {
        Seq::empty()
    } else {
        line_diags(ls[idx], idx, depth, known) + scan_from(
            ls,
            known,
            idx + 1,
            depth_after(ls[idx], depth),
        )
    }
}

/// The cumulative brace depth after all lines from `idx` on.
pub open spec fn final_depth(ls: Seq<Seq<char>>, idx: int, depth: int) -> int
    decreases ls.len() - idx,
{
    if idx < 0 {
        final_depth(ls, 0, depth)
    } else if idx >= ls.len() {
        depth
    } else {
        final_depth(ls, idx + 1, depth_after(ls[idx], depth))
    }
}

/// Net brace balance of the lines at or after `idx`; skipped lines
/// contribute nothing.
pub open spec fn brace_balance_from(ls: Seq<Seq<char>>, idx: int) -> int
    decreases ls.len() - idx,
{
    if idx < 0 {
        brace_balance_from(ls, 0)
    } else if idx >= ls.len() {
        0
    } else {
        (if skip_line(ls[idx]) {
            0 as int
        } else {
            count_char(ls[idx], '{') - count_char(ls[idx], '}')
        }) + brace_balance_from(ls, idx + 1)
    }
}

/// The depth the scan carries equals the starting depth plus the brace
/// balance of the remaining lines.
pub proof fn lemma_final_depth_is_balance(ls: Seq<Seq<char>>, idx: int, depth: int)
    requires
        0 <= idx,
    ensures
        final_depth(ls, idx, depth) == depth + brace_balance_from(ls, idx),
    decreases ls.len() - idx,
{
    if idx < ls.len() {
        lemma_final_depth_is_balance(ls, idx + 1, depth_after(ls[idx], depth));
    }
}

/// A document whose non-skipped lines open exactly one brace more than
/// they close ends with exactly one document-end finding beyond the
/// per-line ones: the unclosed-brace error, anchored at the last line.
pub proof fn lemma_one_unclosed_brace(s: Seq<char>, known: Seq<Seq<char>>)
    requires
        brace_balance_from(lines_of(s), 0) == 1,
    ensures
        diagnostics_spec(s, known) == scan_from(lines_of(s), known, 0, 0) + seq![
            mk_diag_spec(line_count(s) - 1, 0, 0, Severity::Error, msg_unclosed_braces(1)),
        ],
{
    lemma_final_depth_is_balance(lines_of(s), 0, 0);
}

pub open spec fn msg_unclosed_braces(d: int) -> Seq<char> {
    "Unclosed brace(s): "@ + dec_seq(d) + " opening brace(s) without closing"@
}

pub open spec fn msg_extra_braces(d: int) -> Seq<char> {
    "Extra closing brace(s): "@ + dec_seq(d) + " more closing than opening"@
}

/// The document-end finding: one error on the last line when the final
/// cumulative depth is positive (unclosed braces) or negative (extra
/// closing braces).
pub open spec fn end_diags(s: Seq<char>, d: int) -> Seq<DiagnosticView> {
    let last = line_count(s) - 1;
    if d > 0 {
        seq![mk_diag_spec(last, 0, 0, Severity::Error, msg_unclosed_braces(d))]
    } else if d < 0 {
        seq![mk_diag_spec(last, 0, 0, Severity::Error, msg_extra_braces(-d))]
    } else {
        Seq::empty()
    }
}

/// Every finding of the scanner for the whole document, in order: the
/// per-line findings first, then the document-end brace balance.
pub open spec fn diagnostics_spec(s: Seq<char>, known: Seq<Seq<char>>) -> Seq<DiagnosticView> {
    scan_from(lines_of(s), known, 0, 0) + end_diags(s, final_depth(lines_of(s), 0, 0))
}

/// Scan the whole document: recompute every diagnostic from the current
/// content and the given table of known property names.
pub fn get_diagnostics(doc: &Document, known: &Vec<String>) -> (r: Vec<Diagnostic>)
    requires
        doc.text().len() <= u32::MAX,
    ensures
        diags_view(r@) == diagnostics_spec(doc.text(), known.deep_view()),
{
    let text = doc.get_text();
    let lines = split_lines(text.as_str());
    proof {
        lemma_lines_from_bounds(doc.text(), 0);
    }
    let ghost ls = lines_of(doc.text());
    let ghost kv = known.deep_view();
    let mut out: Vec<Diagnostic> = Vec::new();
    let mut depth: i128 = 0;
    let mut in_block = false;
    let mut idx: usize = 0;
    while idx < lines.len()
        invariant
            lines.deep_view() == ls,
            ls == lines_of(doc.text()),
            kv == known.deep_view(),
            doc.text().len() <= u32::MAX,
            ls.len() <= doc.text().len(),
            forall|k: int| 0 <= k < ls.len() ==> (#[trigger] ls[k]).len() <= doc.text().len(),
            0 <= idx <= lines.len(),
            lines.len() == ls.len(),
            -0x100000000 * (idx as int) <= depth <= 0x100000000 * (idx as int),
            in_block == (depth > 0),
            scan_from(ls, kv, 0, 0) =~= diags_view(out@) + scan_from(
                ls,
                kv,
                idx as int,
                depth as int,
            ),
            final_depth(ls, 0, 0) == final_depth(ls, idx as int, depth as int),
        decreases lines.len() - idx,
    {
        let ghost prev = out@;
        proof {
            assert(lines.deep_view()[idx as int] == lines@[idx as int]@);
        }
        let mut d = check_line(lines[idx].as_str(), idx, &mut depth, &mut in_block, known);
        let ghost dv = d@;
        out.append(&mut d);
        proof {
            crate::strutil::lemma_count_char_upto_le(ls[idx as int], '{', ls[idx as int].len() as int);
            crate::strutil::lemma_count_char_upto_le(ls[idx as int], '}', ls[idx as int].len() as int);
            assert(diags_view(out@) =~~= diags_view(prev) + diags_view(dv));
        }
        idx += 1;
    }
    let lc = doc.line_count();
    proof {
        crate::lines::lemma_breaks_before_mono(doc.text(), 0, doc.text().len() as int);
    }
    if depth > 0 {
        let mut msg = String::from_str("Unclosed brace(s): ");
        msg.append(dec_string(depth as u128).as_str());
        msg.append(" opening brace(s) without closing");
        out.push(
            Diagnostic {
                range: TextRange {
                    start: Position { line: (lc - 1) as u32, character: 0 },
                    end: Position { line: (lc - 1) as u32, character: 0 },
                },
                severity: Severity::Error,
                message: msg,
            },
        );
    } else if depth < 0 {
        let mut msg = String::from_str("Extra closing brace(s): ");
        msg.append(dec_string((-depth) as u128).as_str());
        msg.append(" more closing than opening");
        out.push(
            Diagnostic {
                range: TextRange {
                    start: Position { line: (lc - 1) as u32, character: 0 },
                    end: Position { line: (lc - 1) as u32, character: 0 },
                },
                severity: Severity::Error,
                message: msg,
            },
        );
    }
    assert(diags_view(out@) =~~= diagnostics_spec(doc.text(), known.deep_view()));
    out
}

} // verus!
