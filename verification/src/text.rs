//! Character classes and exact-match primitives over the input text.
//!
//! Positions are `int` in specifications and `usize` in executable code; the
//! view of the input `&str` is its `Seq<char>`.

use vstd::prelude::*;

verus! {

/// Whitespace as the scanner understands it.
pub open spec fn is_ws(c: char) -> bool {
    c == ' ' || c == '\t' || c == '\r' || c == '\n'
}

/// Identifier characters: ASCII letters, digits and underscore.
pub open spec fn is_ident(c: char) -> bool {
    (97 <= c as u32 && c as u32 <= 122)  // a-z
    || (65 <= c as u32 && c as u32 <= 90)  // A-Z
    || (48 <= c as u32 && c as u32 <= 57)  // 0-9
    || c == '_'
}

/// The word `w` occurs in `s` starting exactly at position `i`.
pub open spec fn matches_at(s: Seq<char>, i: int, w: Seq<char>) -> bool {
    &&& 0 <= i
    &&& i + w.len() <= s.len()
    &&& forall|k: int| 0 <= k < w.len() ==> s[i + k] == w[k]
}

/// `w` occurs at `i` and is delimited by non-identifier characters, so that
/// it is not merely part of a longer identifier.
pub open spec fn kw_at(s: Seq<char>, i: int, w: Seq<char>) -> bool {
    &&& matches_at(s, i, w)
    &&& (i == 0 || !is_ident(s[i - 1]))
    &&& (i + w.len() == s.len() || !is_ident(s[i + w.len()]))
}

/// `w` occurs at `i` as a bare token: preceded by whitespace (or the start of
/// the input) and followed by whitespace, a block-parameter pipe, or the end
/// of the input.
pub open spec fn tok_at(s: Seq<char>, i: int, w: Seq<char>) -> bool {
    &&& matches_at(s, i, w)
    &&& (i == 0 || is_ws(s[i - 1]))
    &&& (i + w.len() == s.len() || is_ws(s[i + w.len()]) || s[i + w.len()] == '|')
}

pub open spec fn table_kw() -> Seq<char> {
    seq!['c', 'r', 'e', 'a', 't', 'e', '_', 't', 'a', 'b', 'l', 'e']
}

pub open spec fn view_kw() -> Seq<char> {
    seq!['c', 'r', 'e', 'a', 't', 'e', '_', 'v', 'i', 'e', 'w']
}

pub open spec fn do_tok() -> Seq<char> {
    seq!['d', 'o']
}

pub open spec fn end_tok() -> Seq<char> {
    seq!['e', 'n', 'd']
}

/// Opener of a here-document-style SQL literal.
pub open spec fn sql_open() -> Seq<char> {
    seq!['<', '<', '-', 'S', 'Q', 'L']
}

/// The closing sentinel word of a here-document-style SQL literal.
pub open spec fn sql_word() -> Seq<char> {
    seq!['S', 'Q', 'L']
}

/// Turns an executable search result into its specification counterpart.
pub open spec fn opt_pos(r: Option<usize>) -> Option<int> {
    match r {
        Some(j) => Some(j as int),
        None => None,
    }
}

/// Executable twin of [`is_ws`].
pub fn ws_char(c: char) -> (b: bool)
    ensures
        b == is_ws(c),
{
    c == ' ' || c == '\t' || c == '\r' || c == '\n'
}

/// Executable twin of [`is_ident`].
pub fn ident_char(c: char) -> (b: bool)
    ensures
        b == is_ident(c),
{
    let u = c as u32;
    (97 <= u && u <= 122) || (65 <= u && u <= 90) || (48 <= u && u <= 57) || c == '_'
}

/// Executable twin of [`matches_at`].
#[verifier::loop_isolation(false)]
pub fn match_at(s: &str, i: usize, w: &str) -> (b: bool)
    ensures
        b == matches_at(s@, i as int, w@),
{
    let n: usize = s.unicode_len();
    let m: usize = w.unicode_len();
    if m > n || i > n - m {
        return false;
    }
    let mut k: usize = 0;
    while k < m
        invariant
            k <= m,
            forall|t: int| 0 <= t < k ==> s@[i + t] == w@[t],
        decreases m - k,
    {
        if s.get_char(i + k) != w.get_char(k) {
            return false;
        }
        k += 1;
    }
    true
}

/// Executable twin of [`kw_at`].
pub fn kw_at_exec(s: &str, i: usize, w: &str) -> (b: bool)
    ensures
        b == kw_at(s@, i as int, w@),
{
    if !match_at(s, i, w) {
        return false;
    }
    if i > 0 && ident_char(s.get_char(i - 1)) {
        return false;
    }
    let n: usize = s.unicode_len();
    let j: usize = i + w.unicode_len();
    if j < n && ident_char(s.get_char(j)) {
        return false;
    }
    true
}

/// Executable twin of [`tok_at`].
pub fn tok_at_exec(s: &str, i: usize, w: &str) -> (b: bool)
    ensures
        b == tok_at(s@, i as int, w@),
{
    if !match_at(s, i, w) {
        return false;
    }
    if i > 0 && !ws_char(s.get_char(i - 1)) {
        return false;
    }
    let n: usize = s.unicode_len();
    let j: usize = i + w.unicode_len();
    if j < n {
        let c = s.get_char(j);
        if !ws_char(c) && c != '|' {
            return false;
        }
    }
    true
}

} // verus!
