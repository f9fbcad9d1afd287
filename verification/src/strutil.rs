//! Character classes and verified scanning primitives over `&str`.
//!
//! Every document scan in this crate (classification, reference lookup,
//! diagnostics) is built from these helpers, so their contracts pin the
//! exact sequences of characters involved.

use vstd::prelude::*;
use vstd::string::{StrSliceExecFns, StringExecFns};

verus! {

/// Word-constituent characters: ASCII alphanumerics, `-` and `_`.
/// A token is a maximal run of these.
pub open spec fn is_word_char(c: char) -> bool {
    ('a' <= c && c <= 'z') || ('A' <= c && c <= 'Z') || ('0' <= c && c <= '9') || c == '-' || c
        == '_'
}

/// Whitespace as this library understands it: the ASCII blanks plus the
/// Unicode line terminators that the buffer's line model recognizes.
pub open spec fn is_space_char(c: char) -> bool {
    c == ' ' || c == '\t' || c == '\n' || c == '\r' || c == '\u{0B}' || c == '\u{0C}' || c
        == '\u{85}' || c == '\u{2028}' || c == '\u{2029}'
}

/// Hexadecimal digits, either case.
pub open spec fn is_hex_digit(c: char) -> bool {
    ('0' <= c && c <= '9') || ('a' <= c && c <= 'f') || ('A' <= c && c <= 'F')
}

/// Identifier-leading characters for class and id selector names:
/// ASCII letters and `_`.
pub open spec fn is_ident_start(c: char) -> bool {
    ('a' <= c && c <= 'z') || ('A' <= c && c <= 'Z') || c == '_'
}

pub fn word_char(c: char) -> (r: bool)
    ensures
        r == is_word_char(c),
{
    ('a' <= c && c <= 'z') || ('A' <= c && c <= 'Z') || ('0' <= c && c <= '9') || c == '-' || c
        == '_'
}

pub fn space_char(c: char) -> (r: bool)
    ensures
        r == is_space_char(c),
{
    c == ' ' || c == '\t' || c == '\n' || c == '\r' || c == '\u{0B}' || c == '\u{0C}' || c
        == '\u{85}' || c == '\u{2028}' || c == '\u{2029}'
}

pub fn hex_digit(c: char) -> (r: bool)
    ensures
        r == is_hex_digit(c),
{
    ('0' <= c && c <= '9') || ('a' <= c && c <= 'f') || ('A' <= c && c <= 'F')
}

pub fn ident_start(c: char) -> (r: bool)
    ensures
        r == is_ident_start(c),
{
    ('a' <= c && c <= 'z') || ('A' <= c && c <= 'Z') || c == '_'
}

/// The needle `n` occurs in `h` starting at index `i`.
pub open spec fn sub_at(h: Seq<char>, n: Seq<char>, i: int) -> bool {
    0 <= i && i + n.len() <= h.len() && h.subrange(i, i + n.len() as int) == n
}

/// The needle occurs somewhere in the haystack.
pub open spec fn contains_sub(h: Seq<char>, n: Seq<char>) -> bool {
    exists|i: int| sub_at(h, n, i)
}

/// Number of occurrences of `c` among the first `o` characters of `s`.
pub open spec fn count_char_upto(s: Seq<char>, c: char, o: int) -> int
    decreases o,
{
    if o <= 0 {
        0
    } else {
        count_char_upto(s, c, o - 1) + if s[o - 1] == c {
            1 as int
        } else {
            0 as int
        }
    }
}

pub open spec fn count_char(s: Seq<char>, c: char) -> int {
    count_char_upto(s, c, s.len() as int)
}

pub proof fn lemma_count_char_upto_le(s: Seq<char>, c: char, o: int)
    requires
        0 <= o <= s.len(),
    ensures
        0 <= count_char_upto(s, c, o) <= o,
    decreases o,
{
    if o > 0 {
        lemma_count_char_upto_le(s, c, o - 1);
    }
}

/// Whether the characters of `h` at a given index equal `n`, testing
/// executable slices; the length of `n` must already fit.
pub fn match_at(h: &str, hlen: usize, n: &str, nlen: usize, i: usize) -> (r: bool)
    requires
        hlen == h@.len(),
        nlen == n@.len(),
        i + nlen <= hlen,
    ensures
        r == sub_at(h@, n@, i as int),
{
    let mut j: usize = 0;
    while j < nlen
        invariant
            0 <= j <= nlen,
            hlen == h@.len(),
            nlen == n@.len(),
            i + nlen <= hlen,
            forall|k: int| 0 <= k < j ==> h@[i + k] == n@[k],
        decreases nlen - j,
    {
        if h.get_char(i + j) != n.get_char(j) {
            assert(h@.subrange(i as int, i + nlen as int)[j as int] != n@[j as int]);
            return false;
        }
        j += 1;
    }
    assert(h@.subrange(i as int, i + nlen as int) =~= n@);
    true
}

/// First index at which `n` occurs in `h`, if any.
pub fn find_sub(h: &str, n: &str) -> (r: Option<usize>)
    ensures
        match r {
            Some(i) => sub_at(h@, n@, i as int) && forall|j: int| 0 <= j < i ==> !sub_at(h@, n@, j),
            None => !contains_sub(h@, n@),
        },
{
    let hlen = h.unicode_len();
    let nlen = n.unicode_len();
    if nlen > hlen {
        assert forall|j: int| !sub_at(h@, n@, j) by {}
        return None;
    }
    if nlen == 0 {
        assert(sub_at(h@, n@, 0)) by {
            assert(h@.subrange(0, 0) =~= n@);
        }
        return Some(0);
    }
    let limit = hlen - nlen;
    let mut i: usize = 0;
    while i <= limit
        invariant
            hlen == h@.len(),
            nlen == n@.len(),
            0 < nlen <= hlen,
            limit == hlen - nlen,
            0 <= i <= limit + 1,
            forall|j: int| 0 <= j < i ==> !sub_at(h@, n@, j),
        decreases limit + 1 - i,
    {
        if match_at(h, hlen, n, nlen, i) {
            return Some(i);
        }
        i += 1;
    }
    assert forall|j: int| 0 <= j implies !sub_at(h@, n@, j) by {}
    None
}

pub fn has_sub(h: &str, n: &str) -> (r: bool)
    ensures
        r == contains_sub(h@, n@),
{
    match find_sub(h, n) {
        Some(_) => true,
        None => false,
    }
}

/// First index of the character `c` in `s`, if any.
pub fn find_char(s: &str, c: char) -> (r: Option<usize>)
    ensures
        match r {
            Some(i) => i < s@.len() && s@[i as int] == c && forall|j: int|
                0 <= j < i ==> s@[j] != c,
            None => forall|j: int| 0 <= j < s@.len() ==> s@[j] != c,
        },
{
    let len = s.unicode_len();
    let mut i: usize = 0;
    while i < len
        invariant
            len == s@.len(),
            0 <= i <= len,
            forall|j: int| 0 <= j < i ==> s@[j] != c,
        decreases len - i,
    {
        if s.get_char(i) == c {
            return Some(i);
        }
        i += 1;
    }
    None
}

pub fn str_contains_char(s: &str, c: char) -> (r: bool)
    ensures
        r == contains_char(s@, c),
{
    match find_char(s, c) {
        Some(i) => {
            assert(0 <= i < s@.len() && s@[i as int] == c);
            true
        },
        None => false,
    }
}

/// Number of occurrences of `c` in `s`.
pub fn char_count(s: &str, c: char) -> (r: usize)
    ensures
        r == count_char(s@, c),
{
    let len = s.unicode_len();
    let mut i: usize = 0;
    let mut cnt: usize = 0;
    while i < len
        invariant
            len == s@.len(),
            0 <= i <= len,
            cnt == count_char_upto(s@, c, i as int),
            cnt <= i,
        decreases len - i,
    {
        if s.get_char(i) == c {
            cnt += 1;
        }
        i += 1;
    }
    cnt
}

/// `s` holds the character `c` somewhere.
pub open spec fn contains_char(s: Seq<char>, c: char) -> bool {
    exists|j: int| 0 <= j < s.len() && s[j] == c
}

/// Index of the first occurrence of `c` in `s` at or after `from`;
/// `s.len()` if there is none.
pub open spec fn first_idx_from(s: Seq<char>, c: char, from: int) -> int
    decreases s.len() - from,
{
    if from < 0 {
        first_idx_from(s, c, 0)
    } else if from >= s.len() {
        s.len() as int
    } else if s[from] == c {
        from
    } else {
        first_idx_from(s, c, from + 1)
    }
}

pub proof fn lemma_first_idx_from(s: Seq<char>, c: char, from: int)
    requires
        0 <= from <= s.len(),
    ensures
        from <= first_idx_from(s, c, from) <= s.len(),
        first_idx_from(s, c, from) < s.len() ==> s[first_idx_from(s, c, from)] == c,
        forall|j: int| from <= j < first_idx_from(s, c, from) ==> s[j] != c,
    decreases s.len() - from,
{
    if from < s.len() && s[from] != c {
        lemma_first_idx_from(s, c, from + 1);
    }
}

/// First index of `c` in `s`, or the length of `s` when absent.
pub fn first_idx_exec(s: &str, c: char) -> (r: usize)
    ensures
        r == first_idx_from(s@, c, 0),
        r <= s@.len(),
{
    proof {
        lemma_first_idx_from(s@, c, 0);
    }
    match find_char(s, c) {
        Some(i) => {
            assert(i == first_idx_from(s@, c, 0)) by {
                lemma_first_idx_from(s@, c, 0);
            }
            i
        },
        None => {
            let len = s.unicode_len();
            assert(len == first_idx_from(s@, c, 0)) by {
                lemma_first_idx_from(s@, c, 0);
            }
            len
        },
    }
}

/// First index of `c` in `s` at or after `from`; the length of `s` when
/// absent.
pub fn first_idx_from_exec(s: &str, len: usize, from: usize, c: char) -> (r: usize)
    requires
        len == s@.len(),
        from <= len,
    ensures
        r == first_idx_from(s@, c, from as int),
        from <= r <= len,
{
    proof {
        lemma_first_idx_from(s@, c, from as int);
    }
    let mut i: usize = from;
    while i < len
        invariant
            len == s@.len(),
            from <= i <= len,
            forall|j: int| from <= j < i ==> s@[j] != c,
        decreases len - i,
    {
        if s.get_char(i) == c {
            assert(i == first_idx_from(s@, c, from as int)) by {
                lemma_first_idx_from(s@, c, from as int);
            }
            return i;
        }
        i += 1;
    }
    assert(len == first_idx_from(s@, c, from as int)) by {
        lemma_first_idx_from(s@, c, from as int);
    }
    len
}

pub proof fn lemma_first_sub_from(s: Seq<char>, n: Seq<char>, i: int)
    requires
        0 <= i,
        n.len() > 0,
    ensures
        match first_sub_from(s, n, i) {
            Some(k) => i <= k && sub_at(s, n, k) && forall|j: int| i <= j < k ==> !sub_at(s, n, j),
            None => forall|j: int| i <= j ==> !sub_at(s, n, j),
        },
    decreases s.len() - i,
{
    if i < s.len() && i + n.len() <= s.len() && !sub_at(s, n, i) {
        lemma_first_sub_from(s, n, i + 1);
    } else if i >= s.len() || i + n.len() > s.len() {
        assert forall|j: int| i <= j implies !sub_at(s, n, j) by {}
    }
}

/// Number of occurrences of `c` among the first `upto` characters.
pub fn count_char_upto_exec(s: &str, c: char, upto: usize) -> (r: usize)
    requires
        upto <= s@.len(),
    ensures
        r == count_char_upto(s@, c, upto as int),
{
    let mut i: usize = 0;
    let mut cnt: usize = 0;
    while i < upto
        invariant
            upto <= s@.len(),
            0 <= i <= upto,
            cnt == count_char_upto(s@, c, i as int),
            cnt <= i,
        decreases upto - i,
    {
        if s.get_char(i) == c {
            cnt += 1;
        }
        i += 1;
    }
    cnt
}

/// Index of the first character of `s` at or after `from` that is not
/// whitespace; `s.len()` if there is none.
pub open spec fn skip_spaces(s: Seq<char>, from: int) -> int
    decreases s.len() - from,
{
    if from < 0 {
        skip_spaces(s, 0)
    } else if from >= s.len() {
        s.len() as int
    } else if is_space_char(s[from]) {
        skip_spaces(s, from + 1)
    } else {
        from
    }
}

pub proof fn lemma_skip_spaces_bounds(s: Seq<char>, from: int)
    requires
        0 <= from <= s.len(),
    ensures
        from <= skip_spaces(s, from) <= s.len(),
        skip_spaces(s, from) < s.len() ==> !is_space_char(s[skip_spaces(s, from)]),
        forall|j: int| from <= j < skip_spaces(s, from) ==> is_space_char(s[j]),
    decreases s.len() - from,
{
    if from < s.len() && is_space_char(s[from]) {
        lemma_skip_spaces_bounds(s, from + 1);
    }
}

pub fn skip_spaces_exec(s: &str, len: usize, from: usize) -> (r: usize)
    requires
        len == s@.len(),
        from <= len,
    ensures
        r == skip_spaces(s@, from as int),
        from <= r <= len,
    decreases len - from,
{
    proof {
        lemma_skip_spaces_bounds(s@, from as int);
    }
    if from >= len {
        len
    } else if space_char(s.get_char(from)) {
        skip_spaces_exec(s, len, from + 1)
    } else {
        from
    }
}

/// Index one past the last non-whitespace character of `s` before `upto`;
/// 0 if all are whitespace.
pub open spec fn trim_end_idx(s: Seq<char>, upto: int) -> int
    decreases upto,
{
    if upto <= 0 {
        0
    } else if is_space_char(s[upto - 1]) {
        trim_end_idx(s, upto - 1)
    } else {
        upto
    }
}

pub proof fn lemma_trim_end_bounds(s: Seq<char>, upto: int)
    requires
        0 <= upto <= s.len(),
    ensures
        0 <= trim_end_idx(s, upto) <= upto,
        trim_end_idx(s, upto) > 0 ==> !is_space_char(s[trim_end_idx(s, upto) - 1]),
        forall|j: int| trim_end_idx(s, upto) <= j < upto ==> is_space_char(s[j]),
    decreases upto,
{
    if upto > 0 && is_space_char(s[upto - 1]) {
        lemma_trim_end_bounds(s, upto - 1);
    }
}

fn trim_end_exec(s: &str, len: usize, upto: usize) -> (r: usize)
    requires
        len == s@.len(),
        upto <= len,
    ensures
        r == trim_end_idx(s@, upto as int),
        r <= upto,
    decreases upto,
{
    proof {
        lemma_trim_end_bounds(s@, upto as int);
    }
    if upto == 0 {
        0
    } else if space_char(s.get_char(upto - 1)) {
        trim_end_exec(s, len, upto - 1)
    } else {
        upto
    }
}

/// The view of `s` with leading and trailing whitespace removed.
pub open spec fn trim_seq(s: Seq<char>) -> Seq<char> {
    let a = skip_spaces(s, 0);
    let b = trim_end_idx(s, s.len() as int);
    if a <= b {
        s.subrange(a, b)
    } else {
        Seq::empty()
    }
}

/// Trims whitespace from both ends, like `str::trim` restricted to this
/// library's whitespace set.
pub fn trim_str<'a>(s: &'a str) -> (r: &'a str)
    ensures
        r@ == trim_seq(s@),
{
    let len = s.unicode_len();
    let a = skip_spaces_exec(s, len, 0);
    let b = trim_end_exec(s, len, len);
    proof {
        lemma_skip_spaces_bounds(s@, 0);
        lemma_trim_end_bounds(s@, len as int);
    }
    if a <= b {
        s.substring_char(a, b)
    } else {
        proof {
            assert(forall|j: int| 0 <= j < s@.len() ==> is_space_char(s@[j])) by {
                lemma_skip_spaces_bounds(s@, 0);
            }
        }
        let r = s.substring_char(0, 0);
        assert(r@ =~= trim_seq(s@));
        r
    }
}

/// Word characters in the narrow sense of pattern word boundaries:
/// ASCII alphanumerics and `_`, without `-`.
pub open spec fn is_narrow_word_char(c: char) -> bool {
    ('a' <= c && c <= 'z') || ('A' <= c && c <= 'Z') || ('0' <= c && c <= '9') || c == '_'
}

pub fn narrow_word_char(c: char) -> (r: bool)
    ensures
        r == is_narrow_word_char(c),
{
    ('a' <= c && c <= 'z') || ('A' <= c && c <= 'Z') || ('0' <= c && c <= '9') || c == '_'
}

/// Index one past the end of the maximal run of hexadecimal digits
/// starting at `from`.
pub open spec fn hex_run_end(s: Seq<char>, from: int) -> int
    decreases s.len() - from,
{
    if from < 0 {
        hex_run_end(s, 0)
    } else if from >= s.len() {
        s.len() as int
    } else if is_hex_digit(s[from]) {
        hex_run_end(s, from + 1)
    } else {
        from
    }
}

pub proof fn lemma_hex_run_end_bounds(s: Seq<char>, from: int)
    requires
        0 <= from <= s.len(),
    ensures
        from <= hex_run_end(s, from) <= s.len(),
    decreases s.len() - from,
{
    if from < s.len() && is_hex_digit(s[from]) {
        lemma_hex_run_end_bounds(s, from + 1);
    }
}

pub fn hex_run_end_exec(s: &str, len: usize, from: usize) -> (r: usize)
    requires
        len == s@.len(),
        from <= len,
    ensures
        r == hex_run_end(s@, from as int),
        from <= r <= len,
    decreases len - from,
{
    proof {
        lemma_hex_run_end_bounds(s@, from as int);
    }
    if from >= len {
        len
    } else if hex_digit(s.get_char(from)) {
        hex_run_end_exec(s, len, from + 1)
    } else {
        from
    }
}

/// First index at or after `i` where `n` occurs in `s`, if any.
pub open spec fn first_sub_from(s: Seq<char>, n: Seq<char>, i: int) -> Option<int>
    decreases s.len() - i,
{
    if i < 0 {
        first_sub_from(s, n, 0)
    } else if i >= s.len() || i + n.len() > s.len() {
        None
    } else if sub_at(s, n, i) {
        Some(i)
    } else {
        first_sub_from(s, n, i + 1)
    }
}

/// The digit characters.
pub open spec fn dec_digit_char(d: int) -> char {
    if d == 0 {
        '0'
    } else if d == 1 {
        '1'
    } else if d == 2 {
        '2'
    } else if d == 3 {
        '3'
    } else if d == 4 {
        '4'
    } else if d == 5 {
        '5'
    } else if d == 6 {
        '6'
    } else if d == 7 {
        '7'
    } else if d == 8 {
        '8'
    } else {
        '9'
    }
}

/// Decimal notation of a non-negative integer.
pub open spec fn dec_seq(n: int) -> Seq<char>
    decreases n,
{
    if n < 10 {
        seq![dec_digit_char(n)]
    } else {
        dec_seq(n / 10) + seq![dec_digit_char(n % 10)]
    }
}

/// The decimal digit `d` as a string slice.
fn digit_str(d: u8) -> (r: &'static str)
    requires
        d < 10,
    ensures
        r@ == seq![dec_digit_char(d as int)],
{
    proof {
        reveal_strlit("0");
        reveal_strlit("1");
        reveal_strlit("2");
        reveal_strlit("3");
        reveal_strlit("4");
        reveal_strlit("5");
        reveal_strlit("6");
        reveal_strlit("7");
        reveal_strlit("8");
        reveal_strlit("9");
    }
    let r: &'static str = match d {
        0 => "0",
        1 => "1",
        2 => "2",
        3 => "3",
        4 => "4",
        5 => "5",
        6 => "6",
        7 => "7",
        8 => "8",
        _ => "9",
    };
    assert(r@ =~= seq![dec_digit_char(d as int)]);
    r
}

/// Decimal notation of `n`, as executable text.
pub fn dec_string(n: u128) -> (s: String)
    ensures
        s@ == dec_seq(n as int),
    decreases n,
{
    if n < 10 {
        String::from_str(digit_str(n as u8))
    } else {
        let mut s = dec_string(n / 10);
        s.append(digit_str((n % 10) as u8));
        assert(s@ =~= dec_seq(n as int));
        s
    }
}

/// Scanning from `i` with `depth` parentheses currently open: do they
/// all find their closing parentheses?  True exactly when the running
/// depth reaches zero before the end.
pub open spec fn paren_closes(s: Seq<char>, i: int, depth: int) -> bool
    decreases s.len() - i,
{
    if depth <= 0 {
        true
    } else if i < 0 {
        paren_closes(s, 0, depth)
    } else if i >= s.len() {
        false
    } else if s[i] == ')' {
        paren_closes(s, i + 1, depth - 1)
    } else if s[i] == '(' {
        paren_closes(s, i + 1, depth + 1)
    } else {
        paren_closes(s, i + 1, depth)
    }
}

/// Whether the parentheses open at position `from` (depth many) all
/// close by the end of `s`.
pub fn paren_closes_exec(s: &str, len: usize, from: usize, depth: usize) -> (r: bool)
    requires
        len == s@.len(),
        from <= len,
    ensures
        r == paren_closes(s@, from as int, depth as int),
{
    let mut i: usize = from;
    let mut d: u128 = depth as u128;
    while i < len && d > 0
        invariant
            len == s@.len(),
            from <= i <= len,
            d <= depth + (i - from),
            paren_closes(s@, from as int, depth as int) == paren_closes(s@, i as int, d as int),
        decreases len - i,
    {
        let c = s.get_char(i);
        if c == ')' {
            d -= 1;
        } else if c == '(' {
            d += 1;
        }
        i += 1;
    }
    d == 0
}


/// All characters of `s` in `[from, upto)` are word characters.
pub open spec fn all_word_chars(s: Seq<char>, from: int, upto: int) -> bool {
    forall|j: int| from <= j < upto ==> is_word_char(s[j])
}

pub fn all_word_chars_exec(s: &str, len: usize, from: usize, upto: usize) -> (r: bool)
    requires
        len == s@.len(),
        from <= upto <= len,
    ensures
        r == all_word_chars(s@, from as int, upto as int),
{
    let mut i: usize = from;
    while i < upto
        invariant
            len == s@.len(),
            from <= i <= upto <= len,
            forall|j: int| from <= j < i ==> is_word_char(s@[j]),
        decreases upto - i,
    {
        if !word_char(s.get_char(i)) {
            return false;
        }
        i += 1;
    }
    true
}

/// Index one past the end of the maximal run of word characters starting
/// at `from`.
pub open spec fn word_run_end(s: Seq<char>, from: int) -> int
    decreases s.len() - from,
{
    if from < 0 {
        word_run_end(s, 0)
    } else if from >= s.len() {
        s.len() as int
    } else if is_word_char(s[from]) {
        word_run_end(s, from + 1)
    } else {
        from
    }
}

pub proof fn lemma_word_run_end_bounds(s: Seq<char>, from: int)
    requires
        0 <= from <= s.len(),
    ensures
        from <= word_run_end(s, from) <= s.len(),
        word_run_end(s, from) < s.len() ==> !is_word_char(s[word_run_end(s, from)]),
        forall|j: int| from <= j < word_run_end(s, from) ==> is_word_char(s[j]),
    decreases s.len() - from,
{
    if from < s.len() && is_word_char(s[from]) {
        lemma_word_run_end_bounds(s, from + 1);
    }
}

pub fn word_run_end_exec(s: &str, len: usize, from: usize) -> (r: usize)
    requires
        len == s@.len(),
        from <= len,
    ensures
        r == word_run_end(s@, from as int),
        from <= r <= len,
    decreases len - from,
{
    proof {
        lemma_word_run_end_bounds(s@, from as int);
    }
    if from >= len {
        len
    } else if word_char(s.get_char(from)) {
        word_run_end_exec(s, len, from + 1)
    } else {
        from
    }
}

} // verus!
