//! Idempotence of extraction: the scan of one captured span depends only on
//! the span's own characters, so re-scanning emitted output finds the same
//! definitions again.  The lemmas here translate each step of the parse from
//! the original input to any other text that carries the same span.

use vstd::prelude::*;

use crate::emit::sep;
use crate::parser::{
    find_lit_open_from, lit_open_at, lemma_parse_name_at, parse_name_at, parse_table_at,
    parse_view_at, scan, scan_from, DeclKind, DefSpec,
};
use crate::props::lemma_scan_from_defs;
use crate::scan::{
    do_open_at, find_block_end, find_brace_end, find_char_from, find_do_open_from,
    find_sql_close_from, ident_run_end, lemma_find_char_from, lemma_skip_ws, line_ws_start,
    skip_ws, skip_ws_open, sql_close_at,
};
use crate::text::{
    do_tok, end_tok, is_ident, is_ws, kw_at, matches_at, sql_open, sql_word, table_kw, tok_at,
    view_kw,
};

verus! {

/// The characters of `s1` in the window `[lo, hi)` reappear in `s2` at
/// offset `o`.
pub open spec fn agree(s1: Seq<char>, s2: Seq<char>, o: int, lo: int, hi: int) -> bool {
    &&& 0 <= lo
    &&& hi <= s1.len()
    &&& 0 <= lo + o
    &&& hi + o <= s2.len()
    &&& forall|m: int| lo <= m < hi ==> s1[m] == s2[m + o]
}

proof fn lemma_matches_shift(s1: Seq<char>, s2: Seq<char>, o: int, lo: int, hi: int, i: int, w: Seq<char>)
    requires
        agree(s1, s2, o, lo, hi),
        lo <= i,
        i + w.len() <= hi,
    ensures
        matches_at(s1, i, w) == matches_at(s2, i + o, w),
{
    if matches_at(s1, i, w) {
        assert forall|k: int| 0 <= k < w.len() implies s2[i + o + k] == w[k] by {
            assert(s1[i + k] == w[k]);
            assert(s1[i + k] == s2[i + k + o]);
        }
    }
    if matches_at(s2, i + o, w) {
        assert forall|k: int| 0 <= k < w.len() implies s1[i + k] == w[k] by {
            assert(s2[i + o + k] == w[k]);
            assert(s1[i + k] == s2[i + k + o]);
        }
    }
}

proof fn lemma_skip_ws_open_shift(s1: Seq<char>, s2: Seq<char>, o: int, lo: int, hi: int, i: int)
    requires
        agree(s1, s2, o, lo, hi),
        lo <= i,
        i <= skip_ws_open(s1, i),
        skip_ws_open(s1, i) < hi,
    ensures
        skip_ws_open(s2, i + o) == skip_ws_open(s1, i) + o,
    decreases s1.len() - i,
{
    if i < s1.len() && (is_ws(s1[i]) || s1[i] == '(') {
        crate::scan::lemma_skip_ws_open(s1, i);
        lemma_skip_ws_open_shift(s1, s2, o, lo, hi, i + 1);
    }
}

proof fn lemma_skip_ws_shift(s1: Seq<char>, s2: Seq<char>, o: int, lo: int, hi: int, i: int)
    requires
        agree(s1, s2, o, lo, hi),
        lo <= i,
        i <= skip_ws(s1, i),
        skip_ws(s1, i) < hi,
    ensures
        skip_ws(s2, i + o) == skip_ws(s1, i) + o,
    decreases s1.len() - i,
{
    if i < s1.len() && is_ws(s1[i]) {
        lemma_skip_ws(s1, i);
        lemma_skip_ws_shift(s1, s2, o, lo, hi, i + 1);
    }
}

proof fn lemma_find_char_shift(s1: Seq<char>, s2: Seq<char>, o: int, lo: int, hi: int, i: int, c: char, q: int)
    requires
        agree(s1, s2, o, lo, hi),
        lo <= i,
        find_char_from(s1, i, c) == Some(q),
        q < hi,
    ensures
        find_char_from(s2, i + o, c) == Some(q + o),
    decreases s1.len() - i,
{
    lemma_find_char_from(s1, i, c);
    if s1[i] != c {
        lemma_find_char_shift(s1, s2, o, lo, hi, i + 1, c, q);
    }
}

proof fn lemma_ident_run_shift(s1: Seq<char>, s2: Seq<char>, o: int, lo: int, hi: int, i: int)
    requires
        agree(s1, s2, o, lo, hi),
        lo <= i,
        i <= ident_run_end(s1, i),
        ident_run_end(s1, i) < hi,
    ensures
        ident_run_end(s2, i + o) == ident_run_end(s1, i) + o,
    decreases s1.len() - i,
{
    if 0 <= i < s1.len() && is_ident(s1[i]) {
        crate::scan::lemma_ident_run_end(s1, i);
        lemma_ident_run_shift(s1, s2, o, lo, hi, i + 1);
    }
}

proof fn lemma_parse_name_shift(s1: Seq<char>, s2: Seq<char>, o: int, lo: int, hi: int, i: int, n: Seq<char>, e: int)
    requires
        agree(s1, s2, o, lo, hi),
        lo <= i,
        parse_name_at(s1, i) == Some((n, e)),
        e < hi,
    ensures
        parse_name_at(s2, i + o) == Some((n, e + o)),
{
    lemma_parse_name_at(s1, i);
    if s1[i] == '"' {
        lemma_find_char_shift(s1, s2, o, lo, hi, i + 1, '"', e - 1);
        assert(s1.subrange(i + 1, e - 1) =~= s2.subrange(i + 1 + o, e - 1 + o));
    } else {
        crate::scan::lemma_ident_run_end(s1, i + 1);
        lemma_ident_run_shift(s1, s2, o, lo, hi, i + 1);
        assert(s1.subrange(i + 1, e) =~= s2.subrange(i + 1 + o, e + o));
    }
}

proof fn lemma_line_ws_shift(s1: Seq<char>, s2: Seq<char>, o: int, lo: int, hi: int, q: int)
    requires
        agree(s1, s2, o, lo, hi),
        lo < q <= hi,
        !(s1[lo] == ' ' || s1[lo] == '\t'),
    ensures
        line_ws_start(s2, q + o) == line_ws_start(s1, q),
    decreases q,
{
    if s1[q - 1] == ' ' || s1[q - 1] == '\t' {
        lemma_line_ws_shift(s1, s2, o, lo, hi, q - 1);
    }
}

proof fn lemma_sql_close_interior_shift(s1: Seq<char>, s2: Seq<char>, o: int, lo: int, hi: int, q: int)
    requires
        agree(s1, s2, o, lo, hi),
        lo < q,
        q + 3 < hi,
        !(s1[lo] == ' ' || s1[lo] == '\t'),
    ensures
        sql_close_at(s2, q + o) == sql_close_at(s1, q),
{
    lemma_matches_shift(s1, s2, o, lo, hi, q, sql_word());
    lemma_line_ws_shift(s1, s2, o, lo, hi, q);
}

proof fn lemma_find_sql_close_shift(s1: Seq<char>, s2: Seq<char>, o: int, lo: int, hi: int, i: int, q: int)
    requires
        agree(s1, s2, o, lo, hi),
        lo < i,
        find_sql_close_from(s1, i) == Some(q),
        q + 3 == hi,
        hi + o == s2.len() || s2[hi + o] == '\n',
        !(s1[lo] == ' ' || s1[lo] == '\t'),
    ensures
        find_sql_close_from(s2, i + o) == Some(q + o),
    decreases s1.len() - i,
{
    crate::scan::lemma_find_sql_close_from(s1, i);
    if sql_close_at(s1, i) {
        lemma_matches_shift(s1, s2, o, lo, hi, i, sql_word());
        lemma_line_ws_shift(s1, s2, o, lo, hi, i);
        assert(sql_close_at(s2, i + o));
    } else {
        lemma_sql_close_interior_shift(s1, s2, o, lo, hi, i);
        lemma_find_sql_close_shift(s1, s2, o, lo, hi, i + 1, q);
    }
}

proof fn lemma_find_brace_shift(s1: Seq<char>, s2: Seq<char>, o: int, lo: int, hi: int, i: int, depth: int, e: int)
    requires
        agree(s1, s2, o, lo, hi),
        lo <= i,
        find_brace_end(s1, i, depth) == Some(e),
        e <= hi,
    ensures
        find_brace_end(s2, i + o, depth) == Some(e + o),
    decreases s1.len() - i,
{
    crate::scan::lemma_find_brace_end(s1, i, depth);
    if s1[i] == '}' {
        if depth > 1 {
            lemma_find_brace_shift(s1, s2, o, lo, hi, i + 1, depth - 1, e);
        }
    } else if s1[i] == '{' {
        lemma_find_brace_shift(s1, s2, o, lo, hi, i + 1, depth + 1, e);
    } else {
        lemma_find_brace_shift(s1, s2, o, lo, hi, i + 1, depth, e);
    }
}

proof fn lemma_find_lit_open_shift(s1: Seq<char>, s2: Seq<char>, o: int, lo: int, hi: int, i: int, p: int)
    requires
        agree(s1, s2, o, lo, hi),
        lo <= i,
        find_lit_open_from(s1, i) == Some(p),
        s1[p] == '{' ==> p < hi,
        s1[p] != '{' ==> p + 6 <= hi,
        hi + o == s2.len() || s2[hi + o] == '\n',
    ensures
        find_lit_open_from(s2, i + o) == Some(p + o),
    decreases s1.len() - i,
{
    crate::parser::lemma_find_lit_open_from(s1, i);
    if lit_open_at(s1, i) {
        if s1[i] != '{' {
            lemma_matches_shift(s1, s2, o, lo, hi, i, sql_open());
        }
        assert(lit_open_at(s2, i + o));
    } else {
        assert(!lit_open_at(s2, i + o)) by {
            assert(s2[i + o] == s1[i]);
            if matches_at(s2, i + o, sql_open()) {
                if i + 6 <= hi {
                    lemma_matches_shift(s1, s2, o, lo, hi, i, sql_open());
                } else {
                    // a match would place an opener character at the
                    // boundary, which holds a line break or nothing
                    assert(hi + o < s2.len() ==> s2[(hi - i) + (i + o)] == sql_open()[hi - i]);
                    assert(sql_open()[hi - i] != '\n');
                }
            }
        }
        lemma_find_lit_open_shift(s1, s2, o, lo, hi, i + 1, p);
    }
}

proof fn lemma_tok_shift(s1: Seq<char>, s2: Seq<char>, o: int, lo: int, hi: int, i: int, w: Seq<char>)
    requires
        agree(s1, s2, o, lo, hi),
        lo < i,
        i + w.len() < hi,
    ensures
        tok_at(s2, i + o, w) == tok_at(s1, i, w),
{
    lemma_matches_shift(s1, s2, o, lo, hi, i, w);
    assert(s1[i - 1] == s2[i - 1 + o]);
    assert(s1[i + w.len()] == s2[i + w.len() + o]);
}

proof fn lemma_find_block_end_shift(s1: Seq<char>, s2: Seq<char>, o: int, lo: int, hi: int, i: int, depth: int, e: int)
    requires
        agree(s1, s2, o, lo, hi),
        lo < i,
        find_block_end(s1, i, depth) == Some(e),
        e <= hi,
        hi + o == s2.len() || s2[hi + o] == '\n',
    ensures
        find_block_end(s2, i + o, depth) == Some(e + o),
    decreases s1.len() - i,
{
    crate::scan::lemma_find_block_end(s1, i, depth);
    if tok_at(s1, i, end_tok()) {
        if depth <= 1 {
            // the closing token itself; its trailing boundary may be the
            // window edge
            lemma_matches_shift(s1, s2, o, lo, hi, i, end_tok());
            assert(s1[i - 1] == s2[i - 1 + o]);
            if i + 3 < hi {
                assert(s1[i + 3] == s2[i + 3 + o]);
            }
            assert(tok_at(s2, i + o, end_tok()));
        } else {
            crate::scan::lemma_find_block_end(s1, i + 1, depth - 1);
            lemma_tok_shift(s1, s2, o, lo, hi, i, end_tok());
            lemma_find_block_end_shift(s1, s2, o, lo, hi, i + 1, depth - 1, e);
        }
    } else if tok_at(s1, i, do_tok()) {
        crate::scan::lemma_find_block_end(s1, i + 1, depth + 1);
        lemma_tok_shift(s1, s2, o, lo, hi, i, do_tok());
        lemma_tok_shift(s1, s2, o, lo, hi, i, end_tok());
        lemma_find_block_end_shift(s1, s2, o, lo, hi, i + 1, depth + 1, e);
    } else {
        crate::scan::lemma_find_block_end(s1, i + 1, depth);
        lemma_tok_shift(s1, s2, o, lo, hi, i, end_tok());
        lemma_tok_shift(s1, s2, o, lo, hi, i, do_tok());
        lemma_find_block_end_shift(s1, s2, o, lo, hi, i + 1, depth, e);
    }
}

proof fn lemma_do_open_shift(s1: Seq<char>, s2: Seq<char>, o: int, lo: int, hi: int, p: int, e: int)
    requires
        agree(s1, s2, o, lo, hi),
        lo < p,
        do_open_at(s1, p) == Some(e),
        e <= hi,
    ensures
        do_open_at(s2, p + o) == Some(e + o),
{
    crate::scan::lemma_do_open_at(s1, p);
    lemma_tok_shift(s1, s2, o, lo, hi, p, do_tok());
    let q = skip_ws(s1, p + 2);
    lemma_skip_ws(s1, p + 2);
    match find_char_from(s1, q + 1, '|') {
        Some(r) => {
            lemma_find_char_from(s1, q + 1, '|');
            lemma_skip_ws_shift(s1, s2, o, lo, hi, p + 2);
            lemma_find_char_shift(s1, s2, o, lo, hi, q + 1, '|', r);
            assert(s2[q + o] == s1[q]);
        },
        None => {},
    }
}

proof fn lemma_do_open_none_shift(s1: Seq<char>, s2: Seq<char>, o: int, lo: int, hi: int, p: int, pstar: int, eo: int)
    requires
        agree(s1, s2, o, lo, hi),
        lo < p,
        p < pstar,
        do_open_at(s1, p) == None::<int>,
        do_open_at(s1, pstar) == Some(eo),
        eo <= hi,
    ensures
        do_open_at(s2, p + o) == None::<int>,
{
    crate::scan::lemma_do_open_at(s1, pstar);
    assert(s1[pstar] == 'd');
    if !tok_at(s1, p, do_tok()) {
        lemma_tok_shift(s1, s2, o, lo, hi, p, do_tok());
    } else {
        // `do` at p but without a complete block parameter; the later
        // complete opener at pstar bounds every probe inside the window
        assert(pstar >= p + 3) by {
            assert(s1[p] == 'd');
            assert(s1[p + 1] == 'o');
            if pstar == p + 1 || pstar == p + 2 {
                assert(is_ws(s1[pstar - 1]));
            }
        }
        lemma_tok_shift(s1, s2, o, lo, hi, p, do_tok());
        let q1 = skip_ws(s1, p + 2);
        lemma_skip_ws(s1, p + 2);
        assert(q1 <= pstar) by {
            if q1 > pstar {
                assert(is_ws(s1[pstar]));
            }
        }
        lemma_skip_ws_shift(s1, s2, o, lo, hi, p + 2);
        if q1 < s1.len() && s1[q1] == '|' {
            assert(q1 < pstar);
            let qstar = skip_ws(s1, pstar + 2);
            lemma_skip_ws(s1, pstar + 2);
            assert(s1[qstar] == '|');
            match find_char_from(s1, q1 + 1, '|') {
                Some(r1) => {
                    lemma_find_char_from(s1, q1 + 1, '|');
                    assert(r1 <= qstar) by {
                        if r1 > qstar {
                            assert(s1[qstar] != '|');
                        }
                    }
                    lemma_find_char_shift(s1, s2, o, lo, hi, q1 + 1, '|', r1);
                    assert(r1 == q1 + 1);
                },
                None => {
                    lemma_find_char_from(s1, q1 + 1, '|');
                    assert(s1[qstar] != '|');
                    assert(false);
                },
            }
        } else {
            assert(q1 < s1.len() ==> s2[q1 + o] == s1[q1]);
        }
    }
}

proof fn lemma_find_do_open_pos(s1: Seq<char>, i: int)
    requires
        0 <= i,
        find_do_open_from(s1, i) is Some,
    ensures
        exists|p: int| i <= p && #[trigger] do_open_at(s1, p) == find_do_open_from(s1, i),
    decreases s1.len() - i,
{
    if do_open_at(s1, i) is Some {
        assert(do_open_at(s1, i) == find_do_open_from(s1, i));
    } else {
        lemma_find_do_open_pos(s1, i + 1);
    }
}

proof fn lemma_find_do_open_shift(s1: Seq<char>, s2: Seq<char>, o: int, lo: int, hi: int, i: int, eo: int)
    requires
        agree(s1, s2, o, lo, hi),
        lo < i,
        find_do_open_from(s1, i) == Some(eo),
        eo <= hi,
    ensures
        find_do_open_from(s2, i + o) == Some(eo + o),
    decreases s1.len() - i,
{
    crate::scan::lemma_find_do_open_from(s1, i);
    match do_open_at(s1, i) {
        Some(e2) => {
            lemma_do_open_shift(s1, s2, o, lo, hi, i, eo);
        },
        None => {
            lemma_find_do_open_pos(s1, i + 1);
            let pstar = choose|p: int|
                i + 1 <= p && #[trigger] do_open_at(s1, p) == find_do_open_from(s1, i + 1);
            lemma_do_open_none_shift(s1, s2, o, lo, hi, i, pstar, eo);
            lemma_find_do_open_shift(s1, s2, o, lo, hi, i + 1, eo);
        },
    }
}

proof fn lemma_parse_table_shift(s1: Seq<char>, s2: Seq<char>, o: int, j: int, e: int, name: Seq<char>)
    requires
        0 <= j,
        j + 12 <= s1.len(),
        parse_table_at(s1, j) == Some((name, e)),
        agree(s1, s2, o, j, e),
        e + o == s2.len() || s2[e + o] == '\n',
    ensures
        parse_table_at(s2, j + o) == Some((name, e + o)),
{
    crate::scan::lemma_skip_ws_open(s1, j + 12);
    let k = skip_ws_open(s1, j + 12);
    lemma_parse_name_at(s1, k);
    match parse_name_at(s1, k) {
        Some(nm) => {
            crate::scan::lemma_find_do_open_from(s1, nm.1);
            match find_do_open_from(s1, nm.1) {
                Some(body) => {
                    crate::scan::lemma_find_block_end(s1, body, 1);
                    lemma_skip_ws_open_shift(s1, s2, o, j, e, j + 12);
                    lemma_parse_name_shift(s1, s2, o, j, e, k, nm.0, nm.1);
                    lemma_find_do_open_shift(s1, s2, o, j, e, nm.1, body);
                    lemma_find_block_end_shift(s1, s2, o, j, e, body, 1, e);
                },
                None => {},
            }
        },
        None => {},
    }
}

proof fn lemma_parse_view_shift(s1: Seq<char>, s2: Seq<char>, o: int, j: int, e: int, name: Seq<char>)
    requires
        0 <= j,
        j + 11 <= s1.len(),
        parse_view_at(s1, j) == Some((name, e)),
        agree(s1, s2, o, j, e),
        e + o == s2.len() || s2[e + o] == '\n',
        !(s1[j] == ' ' || s1[j] == '\t'),
    ensures
        parse_view_at(s2, j + o) == Some((name, e + o)),
{
    crate::scan::lemma_skip_ws_open(s1, j + 11);
    let k = skip_ws_open(s1, j + 11);
    lemma_parse_name_at(s1, k);
    match parse_name_at(s1, k) {
        Some(nm) => {
            crate::parser::lemma_find_lit_open_from(s1, nm.1);
            match find_lit_open_from(s1, nm.1) {
                Some(p) => {
                    if s1[p] == '{' {
                        crate::scan::lemma_find_brace_end(s1, p + 1, 1);
                        lemma_skip_ws_open_shift(s1, s2, o, j, e, j + 11);
                        lemma_parse_name_shift(s1, s2, o, j, e, k, nm.0, nm.1);
                        lemma_find_lit_open_shift(s1, s2, o, j, e, nm.1, p);
                        lemma_find_brace_shift(s1, s2, o, j, e, p + 1, 1, e);
                        assert(s2[p + o] == s1[p]);
                    } else {
                        crate::scan::lemma_find_sql_close_from(s1, p + 6);
                        match find_sql_close_from(s1, p + 6) {
                            Some(q) => {
                                lemma_skip_ws_open_shift(s1, s2, o, j, e, j + 11);
                                lemma_parse_name_shift(s1, s2, o, j, e, k, nm.0, nm.1);
                                lemma_find_lit_open_shift(s1, s2, o, j, e, nm.1, p);
                                lemma_find_sql_close_shift(s1, s2, o, j, e, p + 6, q);
                                assert(s2[p + o] == s1[p]);
                            },
                            None => {},
                        }
                    }
                },
                None => {},
            }
        },
        None => {},
    }
}

proof fn lemma_scan_skip_newline(s2: Seq<char>, i: int)
    requires
        0 <= i < s2.len(),
        s2[i] == '\n',
    ensures
        scan_from(s2, i) == scan_from(s2, i + 1),
{
    assert(!matches_at(s2, i, table_kw())) by {
        if matches_at(s2, i, table_kw()) {
            assert(s2[i + 0] == table_kw()[0]);
        }
    }
    assert(!matches_at(s2, i, view_kw())) by {
        if matches_at(s2, i, view_kw()) {
            assert(s2[i + 0] == view_kw()[0]);
        }
    }
}

#[verifier::spinoff_prover]
proof fn lemma_scan_exact_pair(s2: Seq<char>, w: int, kind: DeclKind, name: Seq<char>)
    requires
        1 <= w,
        s2.len() == 2 * w + 2,
        s2[w] == '\n',
        s2[w + 1] == '\n',
        kind == DeclKind::Table ==> kw_at(s2, 0, table_kw()) && parse_table_at(s2, 0) == Some(
            (name, w),
        ) && kw_at(s2, w + 2, table_kw()) && parse_table_at(s2, w + 2) == Some(
            (name, 2 * w + 2),
        ),
        kind == DeclKind::View ==> kw_at(s2, 0, view_kw()) && !matches_at(s2, 0, table_kw())
            && parse_view_at(s2, 0) == Some((name, w)) && kw_at(s2, w + 2, view_kw())
            && !matches_at(s2, w + 2, table_kw()) && parse_view_at(s2, w + 2) == Some(
            (name, 2 * w + 2),
        ),
    ensures
        scan(s2) == seq![
            DefSpec { kind, name, start: 0, end: w },
            DefSpec { kind, name, start: w + 2, end: 2 * w + 2 },
        ],
{
    let d1 = DefSpec { kind, name, start: 0, end: w };
    let d2 = DefSpec { kind, name, start: w + 2, end: 2 * w + 2 };
    assert(scan_from(s2, 0) == seq![d1] + scan_from(s2, w));
    lemma_scan_skip_newline(s2, w);
    lemma_scan_skip_newline(s2, w + 1);
    assert(scan_from(s2, w + 2) == seq![d2] + scan_from(s2, 2 * w + 2));
    assert(scan_from(s2, 2 * w + 2) =~= Seq::<DefSpec>::empty());
    assert(scan(s2) =~= seq![d1, d2]);
}

#[verifier::rlimit(100)]
#[verifier::spinoff_prover]
proof fn lemma_rescan_table(s: Seq<char>, j: int, e: int, name: Seq<char>)
    requires
        0 <= j,
        j + 12 < e,
        e <= s.len(),
        kw_at(s, j, table_kw()),
        parse_table_at(s, j) == Some((name, e)),
    ensures
        ({
            let t = s.subrange(j, e);
            let s2 = t + sep() + t;
            let w = e - j;
            scan(s2) == seq![
                DefSpec { kind: DeclKind::Table, name, start: 0, end: w },
                DefSpec { kind: DeclKind::Table, name, start: w + 2, end: 2 * w + 2 },
            ]
        }),
{
    let t = s.subrange(j, e);
    let s2 = t + sep() + t;
    let w = e - j;
    let o1 = -j;
    let o2 = w + 2 - j;
    assert(agree(s, s2, o1, j, e));
    assert(agree(s, s2, o2, j, e));
    assert(s2[w] == '\n');
    assert(s2[w + 1] == '\n');
    lemma_parse_table_shift(s, s2, o1, j, e, name);
    lemma_parse_table_shift(s, s2, o2, j, e, name);
    assert(kw_at(s2, 0, table_kw())) by {
        lemma_matches_shift(s, s2, o1, j, e, j, table_kw());
        assert(s2[12] == s[j + 12]);
    }
    assert(kw_at(s2, w + 2, table_kw())) by {
        lemma_matches_shift(s, s2, o2, j, e, j, table_kw());
        assert(s2[w + 2 + 12] == s[j + 12]);
        assert(s2[w + 1] == '\n');
    }
    lemma_scan_exact_pair(s2, w, DeclKind::Table, name);
}

#[verifier::rlimit(100)]
#[verifier::spinoff_prover]
proof fn lemma_rescan_view(s: Seq<char>, j: int, e: int, name: Seq<char>)
    requires
        0 <= j,
        j + 11 < e,
        e <= s.len(),
        kw_at(s, j, view_kw()),
        parse_view_at(s, j) == Some((name, e)),
    ensures
        ({
            let t = s.subrange(j, e);
            let s2 = t + sep() + t;
            let w = e - j;
            scan(s2) == seq![
                DefSpec { kind: DeclKind::View, name, start: 0, end: w },
                DefSpec { kind: DeclKind::View, name, start: w + 2, end: 2 * w + 2 },
            ]
        }),
{
    let t = s.subrange(j, e);
    let s2 = t + sep() + t;
    let w = e - j;
    let o1 = -j;
    let o2 = w + 2 - j;
    assert(agree(s, s2, o1, j, e));
    assert(agree(s, s2, o2, j, e));
    assert(s2[w] == '\n');
    assert(s2[w + 1] == '\n');
    assert(s[j] == view_kw()[0]);
    lemma_parse_view_shift(s, s2, o1, j, e, name);
    lemma_parse_view_shift(s, s2, o2, j, e, name);
    assert(kw_at(s2, 0, view_kw())) by {
        lemma_matches_shift(s, s2, o1, j, e, j, view_kw());
        assert(s2[11] == s[j + 11]);
    }
    assert(kw_at(s2, w + 2, view_kw())) by {
        lemma_matches_shift(s, s2, o2, j, e, j, view_kw());
        assert(s2[w + 2 + 11] == s[j + 11]);
        assert(s2[w + 1] == '\n');
    }
    assert(!matches_at(s2, 0, table_kw())) by {
        if matches_at(s2, 0, table_kw()) {
            assert(s2[0int + 7] == table_kw()[7]);
            assert(s2[7] == s[j + 7]);
            assert(s[j + 7] == view_kw()[7]);
        }
    }
    assert(!matches_at(s2, w + 2, table_kw())) by {
        if matches_at(s2, w + 2, table_kw()) {
            assert(s2[w + 2 + 7] == table_kw()[7]);
            assert(s2[w + 2 + 7] == s[j + 7]);
            assert(s[j + 7] == view_kw()[7]);
        }
    }
    lemma_scan_exact_pair(s2, w, DeclKind::View, name);
}

/// Idempotence of extraction: emit one recognised definition twice, with the
/// blank-line separation the writer uses, and re-scanning the result yields
/// exactly two definitions, each with the same kind, name and source text as
/// the original.
#[verifier::rlimit(100)]
#[verifier::spinoff_prover]
pub proof fn lemma_extraction_idempotent(s: Seq<char>, k: int)
    requires
        0 <= k < scan(s).len(),
    ensures
        ({
            let d = scan(s)[k];
            let t = s.subrange(d.start, d.end);
            let s2 = t + sep() + t;
            &&& scan(s2).len() == 2
            &&& scan(s2)[0].kind == d.kind
            &&& scan(s2)[1].kind == d.kind
            &&& scan(s2)[0].name == d.name
            &&& scan(s2)[1].name == d.name
            &&& s2.subrange(scan(s2)[0].start, scan(s2)[0].end) == t
            &&& s2.subrange(scan(s2)[1].start, scan(s2)[1].end) == t
        }),
{
    lemma_scan_from_defs(s, 0);
    let d = scan(s)[k];
    let t = s.subrange(d.start, d.end);
    let s2 = t + sep() + t;
    let j = d.start;
    let e = d.end;
    let w = e - j;  // length of the span
    if d.kind == DeclKind::Table {
        crate::parser::lemma_parse_table_at(s, j);
        lemma_rescan_table(s, j, e, d.name);
    } else {
        crate::parser::lemma_parse_view_at(s, j);
        lemma_rescan_view(s, j, e, d.name);
    }
    assert(s2.subrange(0, w) =~= t);
    assert(s2.subrange(w + 2, 2 * w + 2) =~= t);
}

} // verus!
