//! Position-oriented searches over the input: character searches, identifier
//! runs, whitespace skipping, the block opener of a `do |...|` body, the
//! depth-aware search for the `end` that closes a block, and the
//! sentinel-aware search for the line that closes an embedded SQL literal.

use vstd::prelude::*;

use crate::text::{
    do_tok, end_tok, is_ident, is_ws, matches_at, opt_pos, sql_open, sql_word, tok_at,
    ident_char, match_at, tok_at_exec, ws_char,
};

verus! {

/// First position `j >= i` holding character `c`, if any.
pub open spec fn find_char_from(s: Seq<char>, i: int, c: char) -> Option<int>
    decreases s.len() - i,
{
    if i < 0 || i >= s.len() {
        None
    } else if s[i] == c {
        Some(i)
    } else {
        find_char_from(s, i + 1, c)
    }
}

pub proof fn lemma_find_char_from(s: Seq<char>, i: int, c: char)
    requires
        0 <= i,
    ensures
        match find_char_from(s, i, c) {
            Some(j) => i <= j < s.len() && s[j] == c && forall|m: int| i <= m < j ==> s[m] != c,
            None => forall|m: int| i <= m < s.len() ==> s[m] != c,
        },
    decreases s.len() - i,
{
    if i < s.len() && s[i] != c {
        lemma_find_char_from(s, i + 1, c);
    }
}

/// Executable twin of [`find_char_from`].
#[verifier::loop_isolation(false)]
pub fn find_char(s: &str, i: usize, c: char) -> (r: Option<usize>)
    ensures
        opt_pos(r) == find_char_from(s@, i as int, c),
{
    let n: usize = s.unicode_len();
    if i >= n {
        return None;
    }
    let mut j: usize = i;
    while j < n
        invariant
            i <= j <= n,
            find_char_from(s@, i as int, c) == find_char_from(s@, j as int, c),
        decreases n - j,
    {
        if s.get_char(j) == c {
            return Some(j);
        }
        j += 1;
    }
    None
}

/// End (exclusive) of the run of identifier characters starting at `i`.
pub open spec fn ident_run_end(s: Seq<char>, i: int) -> int
    decreases s.len() - i,
{
    if 0 <= i < s.len() && is_ident(s[i]) {
        ident_run_end(s, i + 1)
    } else {
        i
    }
}

pub proof fn lemma_ident_run_end(s: Seq<char>, i: int)
    requires
        0 <= i <= s.len(),
    ensures
        i <= ident_run_end(s, i) <= s.len(),
        forall|m: int| i <= m < ident_run_end(s, i) ==> is_ident(s[m]),
        ident_run_end(s, i) == s.len() || !is_ident(s[ident_run_end(s, i)]),
    decreases s.len() - i,
{
    if i < s.len() && is_ident(s[i]) {
        lemma_ident_run_end(s, i + 1);
    }
}

/// Executable twin of [`ident_run_end`].
#[verifier::loop_isolation(false)]
pub fn ident_run(s: &str, i: usize) -> (r: usize)
    requires
        i <= s@.len(),
    ensures
        r as int == ident_run_end(s@, i as int),
{
    let n: usize = s.unicode_len();
    let mut j: usize = i;
    while j < n && ident_char(s.get_char(j))
        invariant
            i <= j <= n,
            ident_run_end(s@, i as int) == ident_run_end(s@, j as int),
        decreases n - j,
    {
        j += 1;
    }
    j
}

/// First position `j >= i` that holds neither whitespace nor an opening
/// parenthesis; the scanner uses it to step from a declaration keyword to
/// the declared name.
pub open spec fn skip_ws_open(s: Seq<char>, i: int) -> int
    decreases s.len() - i,
{
    if 0 <= i < s.len() && (is_ws(s[i]) || s[i] == '(') {
        skip_ws_open(s, i + 1)
    } else {
        i
    }
}

pub proof fn lemma_skip_ws_open(s: Seq<char>, i: int)
    requires
        0 <= i <= s.len(),
    ensures
        i <= skip_ws_open(s, i) <= s.len(),
        forall|m: int| i <= m < skip_ws_open(s, i) ==> is_ws(s[m]) || s[m] == '(',
        skip_ws_open(s, i) == s.len() || !(is_ws(s[skip_ws_open(s, i)]) || s[skip_ws_open(s, i)]
            == '('),
    decreases s.len() - i,
{
    if i < s.len() && (is_ws(s[i]) || s[i] == '(') {
        lemma_skip_ws_open(s, i + 1);
    }
}

/// Executable twin of [`skip_ws_open`].
#[verifier::loop_isolation(false)]
pub fn skip_ws_open_exec(s: &str, i: usize) -> (r: usize)
    requires
        i <= s@.len(),
    ensures
        r as int == skip_ws_open(s@, i as int),
{
    let n: usize = s.unicode_len();
    let mut j: usize = i;
    while j < n
        invariant
            i <= j <= n,
            skip_ws_open(s@, i as int) == skip_ws_open(s@, j as int),
        decreases n - j,
    {
        let c = s.get_char(j);
        if ws_char(c) || c == '(' {
            j += 1;
        } else {
            return j;
        }
    }
    j
}

/// First position `j >= i` that holds no whitespace.
pub open spec fn skip_ws(s: Seq<char>, i: int) -> int
    decreases s.len() - i,
{
    if 0 <= i < s.len() && is_ws(s[i]) {
        skip_ws(s, i + 1)
    } else {
        i
    }
}

pub proof fn lemma_skip_ws(s: Seq<char>, i: int)
    requires
        0 <= i <= s.len(),
    ensures
        i <= skip_ws(s, i) <= s.len(),
        forall|m: int| i <= m < skip_ws(s, i) ==> is_ws(s[m]),
        skip_ws(s, i) == s.len() || !is_ws(s[skip_ws(s, i)]),
    decreases s.len() - i,
{
    if i < s.len() && is_ws(s[i]) {
        lemma_skip_ws(s, i + 1);
    }
}

/// Executable twin of [`skip_ws`].
#[verifier::loop_isolation(false)]
pub fn skip_ws_exec(s: &str, i: usize) -> (r: usize)
    requires
        i <= s@.len(),
    ensures
        r as int == skip_ws(s@, i as int),
{
    let n: usize = s.unicode_len();
    let mut j: usize = i;
    while j < n && ws_char(s.get_char(j))
        invariant
            i <= j <= n,
            skip_ws(s@, i as int) == skip_ws(s@, j as int),
        decreases n - j,
    {
        j += 1;
    }
    j
}

/// A complete block opener at `p`: the bare token `do`, optional whitespace,
/// and a pipe-delimited block parameter `|...|` with at least one character
/// between the pipes.  Returns the position just past the closing pipe.
pub open spec fn do_open_at(s: Seq<char>, p: int) -> Option<int> {
    if tok_at(s, p, do_tok()) {
        let q = skip_ws(s, p + 2);
        if q < s.len() && s[q] == '|' {
            match find_char_from(s, q + 1, '|') {
                Some(r) => if r > q + 1 {
                    Some(r + 1)
                } else {
                    None
                },
                None => None,
            }
        } else {
            None
        }
    } else {
        None
    }
}

pub proof fn lemma_do_open_at(s: Seq<char>, p: int)
    ensures
        match do_open_at(s, p) {
            Some(e) => p + 5 <= e <= s.len() && tok_at(s, p, do_tok()),
            None => true,
        },
{
    if tok_at(s, p, do_tok()) {
        lemma_skip_ws(s, p + 2);
        let q = skip_ws(s, p + 2);
        if q < s.len() && s[q] == '|' {
            lemma_find_char_from(s, q + 1, '|');
        }
    }
}

/// Executable twin of [`do_open_at`].
pub fn do_open_at_exec(s: &str, p: usize) -> (r: Option<usize>)
    ensures
        opt_pos(r) == do_open_at(s@, p as int),
{
    proof {
        reveal_strlit("do");
        assert("do"@ =~= do_tok());
    }
    let n = s.unicode_len();
    if !tok_at_exec(s, p, "do") {
        return None;
    }
    let q = skip_ws_exec(s, p + 2);
    proof {
        lemma_skip_ws(s@, p + 2);
    }
    if q < n && s.get_char(q) == '|' {
        match find_char(s, q + 1, '|') {
            Some(r) => {
                if r > q + 1 {
                    proof {
                        lemma_find_char_from(s@, q + 1, '|');
                    }
                    Some(r + 1)
                } else {
                    None
                }
            },
            None => None,
        }
    } else {
        None
    }
}

/// End position of the first complete block opener at or after `i`.
pub open spec fn find_do_open_from(s: Seq<char>, i: int) -> Option<int>
    decreases s.len() - i,
{
    if i < 0 || i >= s.len() {
        None
    } else {
        match do_open_at(s, i) {
            Some(e) => Some(e),
            None => find_do_open_from(s, i + 1),
        }
    }
}

pub proof fn lemma_find_do_open_from(s: Seq<char>, i: int)
    requires
        0 <= i,
    ensures
        match find_do_open_from(s, i) {
            Some(e) => i + 5 <= e <= s.len(),
            None => true,
        },
    decreases s.len() - i,
{
    if 0 <= i < s.len() {
        lemma_do_open_at(s, i);
        if do_open_at(s, i) is None {
            lemma_find_do_open_from(s, i + 1);
        }
    }
}

/// Executable twin of [`find_do_open_from`].
#[verifier::loop_isolation(false)]
pub fn find_do_open(s: &str, i: usize) -> (r: Option<usize>)
    ensures
        opt_pos(r) == find_do_open_from(s@, i as int),
{
    let n: usize = s.unicode_len();
    if i >= n {
        return None;
    }
    let mut j: usize = i;
    while j < n
        invariant
            i <= j <= n,
            find_do_open_from(s@, i as int) == find_do_open_from(s@, j as int),
        decreases n - j,
    {
        match do_open_at_exec(s, j) {
            Some(e) => {
                return Some(e);
            },
            None => {
                j += 1;
            },
        }
    }
    None
}

/// Depth-aware search for the bare `end` that closes the block whose opener
/// was already consumed: each bare `do` opens a nested block, each bare `end`
/// closes one, and the span ends just past the `end` that brings the depth
/// back to zero.  Returns the position just past that `end`.
pub open spec fn find_block_end(s: Seq<char>, i: int, depth: int) -> Option<int>
    decreases s.len() - i,
{
    if i < 0 || i >= s.len() {
        None
    } else if tok_at(s, i, end_tok()) {
        if depth <= 1 {
            Some(i + 3)
        } else {
            find_block_end(s, i + 1, depth - 1)
        }
    } else if tok_at(s, i, do_tok()) {
        find_block_end(s, i + 1, depth + 1)
    } else {
        find_block_end(s, i + 1, depth)
    }
}

pub proof fn lemma_find_block_end(s: Seq<char>, i: int, depth: int)
    requires
        0 <= i,
    ensures
        match find_block_end(s, i, depth) {
            Some(e) => i + 3 <= e <= s.len() && tok_at(s, e - 3, end_tok()),
            None => true,
        },
    decreases s.len() - i,
{
    if 0 <= i < s.len() {
        if tok_at(s, i, end_tok()) {
            if depth > 1 {
                lemma_find_block_end(s, i + 1, depth - 1);
            }
        } else if tok_at(s, i, do_tok()) {
            lemma_find_block_end(s, i + 1, depth + 1);
        } else {
            lemma_find_block_end(s, i + 1, depth);
        }
    }
}

/// Executable twin of [`find_block_end`].
#[verifier::loop_isolation(false)]
pub fn find_block_end_exec(s: &str, i: usize, depth: u128) -> (r: Option<usize>)
    requires
        1 <= depth,
        depth <= 1 + i as int,
    ensures
        opt_pos(r) == find_block_end(s@, i as int, depth as int),
{
    let n: usize = s.unicode_len();
    if i >= n {
        return None;
    }
    let mut j: usize = i;
    let mut d: u128 = depth;
    while j < n
        invariant
            i <= j <= n,
            1 <= d,
            d <= 1 + j as int,
            find_block_end(s@, i as int, depth as int) == find_block_end(s@, j as int, d as int),
        decreases n - j,
    {
        proof {
            reveal_strlit("end");
            reveal_strlit("do");
            assert("end"@ =~= end_tok());
            assert("do"@ =~= do_tok());
        }
        if tok_at_exec(s, j, "end") {
            if d == 1 {
                return Some(j + 3);
            }
            d = d - 1;
        } else if tok_at_exec(s, j, "do") {
            d = d + 1;
        }
        j += 1;
    }
    None
}

/// Between the previous line break (or the start of the input) and `q` there
/// is nothing but spaces and tabs: `q` begins the content of its line.
pub open spec fn line_ws_start(s: Seq<char>, q: int) -> bool
    decreases q,
{
    if q <= 0 {
        true
    } else if q <= s.len() && s[q - 1] == '\n' {
        true
    } else if q <= s.len() && (s[q - 1] == ' ' || s[q - 1] == '\t') {
        line_ws_start(s, q - 1)
    } else {
        false
    }
}

/// Executable twin of [`line_ws_start`].
#[verifier::loop_isolation(false)]
pub fn line_ws_start_exec(s: &str, q: usize) -> (b: bool)
    requires
        q <= s@.len(),
    ensures
        b == line_ws_start(s@, q as int),
{
    let mut p: usize = q;
    while p > 0
        invariant
            p <= q,
            line_ws_start(s@, q as int) == line_ws_start(s@, p as int),
        decreases p,
    {
        let c = s.get_char(p - 1);
        if c == '\n' {
            return true;
        }
        if c == ' ' || c == '\t' {
            p -= 1;
        } else {
            return false;
        }
    }
    true
}

/// The closing sentinel of a here-document SQL literal: the word `SQL` at the
/// start of its line (up to indentation), followed by a line break or the end
/// of the input.  Matching the sentinel at start-of-line keeps the same word
/// inside the literal content from closing the literal early.
pub open spec fn sql_close_at(s: Seq<char>, q: int) -> bool {
    &&& matches_at(s, q, sql_word())
    &&& line_ws_start(s, q)
    &&& (q + 3 == s.len() || s[q + 3] == '\n' || s[q + 3] == '\r')
}

/// Executable twin of [`sql_close_at`].
pub fn sql_close_at_exec(s: &str, q: usize) -> (b: bool)
    ensures
        b == sql_close_at(s@, q as int),
{
    proof {
        reveal_strlit("SQL");
        assert("SQL"@ =~= sql_word());
    }
    if !match_at(s, q, "SQL") {
        return false;
    }
    if !line_ws_start_exec(s, q) {
        return false;
    }
    let n = s.unicode_len();
    if q + 3 == n {
        return true;
    }
    let c = s.get_char(q + 3);
    c == '\n' || c == '\r'
}

/// First position `j >= i` where the closing SQL sentinel stands.
pub open spec fn find_sql_close_from(s: Seq<char>, i: int) -> Option<int>
    decreases s.len() - i,
{
    if i < 0 || i >= s.len() {
        None
    } else if sql_close_at(s, i) {
        Some(i)
    } else {
        find_sql_close_from(s, i + 1)
    }
}

pub proof fn lemma_find_sql_close_from(s: Seq<char>, i: int)
    requires
        0 <= i,
    ensures
        match find_sql_close_from(s, i) {
            Some(q) => i <= q && q + 3 <= s.len() && sql_close_at(s, q) && forall|m: int|
                i <= m < q ==> !sql_close_at(s, m),
            None => forall|m: int| i <= m < s.len() ==> !sql_close_at(s, m),
        },
    decreases s.len() - i,
{
    if 0 <= i < s.len() && !sql_close_at(s, i) {
        lemma_find_sql_close_from(s, i + 1);
    }
}

/// Executable twin of [`find_sql_close_from`].
#[verifier::loop_isolation(false)]
pub fn find_sql_close(s: &str, i: usize) -> (r: Option<usize>)
    ensures
        opt_pos(r) == find_sql_close_from(s@, i as int),
{
    let n: usize = s.unicode_len();
    if i >= n {
        return None;
    }
    let mut j: usize = i;
    while j < n
        invariant
            i <= j <= n,
            find_sql_close_from(s@, i as int) == find_sql_close_from(s@, j as int),
        decreases n - j,
    {
        if sql_close_at_exec(s, j) {
            return Some(j);
        }
        j += 1;
    }
    None
}

/// Depth-aware search for the close brace that matches an already consumed
/// open brace.  Returns the position just past that close brace.
pub open spec fn find_brace_end(s: Seq<char>, i: int, depth: int) -> Option<int>
    decreases s.len() - i,
{
    if i < 0 || i >= s.len() {
        None
    } else if s[i] == '}' {
        if depth <= 1 {
            Some(i + 1)
        } else {
            find_brace_end(s, i + 1, depth - 1)
        }
    } else if s[i] == '{' {
        find_brace_end(s, i + 1, depth + 1)
    } else {
        find_brace_end(s, i + 1, depth)
    }
}

pub proof fn lemma_find_brace_end(s: Seq<char>, i: int, depth: int)
    requires
        0 <= i,
    ensures
        match find_brace_end(s, i, depth) {
            Some(e) => i + 1 <= e <= s.len() && s[e - 1] == '}',
            None => true,
        },
    decreases s.len() - i,
{
    if 0 <= i < s.len() && !(s[i] == '}' && depth <= 1) {
        if s[i] == '}' {
            lemma_find_brace_end(s, i + 1, depth - 1);
        } else if s[i] == '{' {
            lemma_find_brace_end(s, i + 1, depth + 1);
        } else {
            lemma_find_brace_end(s, i + 1, depth);
        }
    }
}

/// Executable twin of [`find_brace_end`].
#[verifier::loop_isolation(false)]
pub fn find_brace_end_exec(s: &str, i: usize, depth: u128) -> (r: Option<usize>)
    requires
        1 <= depth,
        depth <= 1 + i as int,
    ensures
        opt_pos(r) == find_brace_end(s@, i as int, depth as int),
{
    let n: usize = s.unicode_len();
    if i >= n {
        return None;
    }
    let mut j: usize = i;
    let mut d: u128 = depth;
    while j < n
        invariant
            i <= j <= n,
            1 <= d,
            d <= 1 + j as int,
            find_brace_end(s@, i as int, depth as int) == find_brace_end(s@, j as int, d as int),
        decreases n - j,
    {
        let c = s.get_char(j);
        if c == '}' {
            if d == 1 {
                return Some(j + 1);
            }
            d = d - 1;
        } else if c == '{' {
            d = d + 1;
        }
        j += 1;
    }
    None
}

} // verus!
