//! The scanner: recognises `create_table` and `create_view` declarations,
//! determines each declared name (quoted-string or symbol form, both
//! normalised to the plain identifier text), and captures the exact source
//! span from the declaration keyword through its terminator.
//!
//! Declarations that cannot be bounded — no name after the keyword, or no
//! terminator before the end of the input — are skipped, and scanning goes
//! on after the keyword: malformed input never fails the scan.

use vstd::prelude::*;

use crate::scan::{
    find_block_end, find_brace_end, find_char_from, find_do_open_from, find_sql_close_from,
    ident_run_end, lemma_find_block_end, lemma_find_brace_end, lemma_find_char_from,
    lemma_find_do_open_from, lemma_find_sql_close_from, lemma_ident_run_end, lemma_skip_ws_open,
    skip_ws_open, find_block_end_exec, find_brace_end_exec, find_char, find_do_open,
    find_sql_close, ident_run, skip_ws_open_exec,
};
use crate::text::{
    kw_at, matches_at, opt_pos, sql_open, table_kw, end_tok, tok_at, view_kw, kw_at_exec,
    match_at,
};

verus! {

/// The declared name immediately after a keyword: either a quoted string
/// with at least one character between the quotes, or a symbol marker `:`
/// followed by a non-empty identifier run.  Both forms yield the plain
/// name text and the position just past the name.
pub open spec fn parse_name_at(s: Seq<char>, i: int) -> Option<(Seq<char>, int)> {
    if 0 <= i < s.len() && s[i] == '"' {
        match find_char_from(s, i + 1, '"') {
            Some(q) => if q > i + 1 {
                Some((s.subrange(i + 1, q), q + 1))
            } else {
                None
            },
            None => None,
        }
    } else if 0 <= i < s.len() && s[i] == ':' {
        let e = ident_run_end(s, i + 1);
        if e > i + 1 {
            Some((s.subrange(i + 1, e), e))
        } else {
            None
        }
    } else {
        None
    }
}

pub proof fn lemma_parse_name_at(s: Seq<char>, i: int)
    requires
        0 <= i <= s.len(),
    ensures
        match parse_name_at(s, i) {
            Some(r) => i + 2 <= r.1 <= s.len() && r.0.len() >= 1,
            None => true,
        },
{
    if i < s.len() && s[i] == '"' {
        lemma_find_char_from(s, i + 1, '"');
    } else if i < s.len() && s[i] == ':' {
        lemma_ident_run_end(s, i + 1);
    }
}

/// Executable twin of [`parse_name_at`].
pub fn parse_name(s: &str, i: usize) -> (r: Option<(String, usize)>)
    requires
        i <= s@.len(),
    ensures
        match r {
            Some(p) => parse_name_at(s@, i as int) == Some((p.0@, p.1 as int)),
            None => parse_name_at(s@, i as int) is None,
        },
{
    let n: usize = s.unicode_len();
    if i >= n {
        return None;
    }
    let c = s.get_char(i);
    if c == '"' {
        match find_char(s, i + 1, '"') {
            Some(q) => {
                proof {
                    lemma_find_char_from(s@, i + 1, '"');
                }
                if q > i + 1 {
                    let nm = s.substring_char(i + 1, q).to_owned();
                    Some((nm, q + 1))
                } else {
                    None
                }
            },
            None => None,
        }
    } else if c == ':' {
        let e = ident_run(s, i + 1);
        proof {
            lemma_ident_run_end(s@, i + 1);
        }
        if e > i + 1 {
            let nm = s.substring_char(i + 1, e).to_owned();
            Some((nm, e))
        } else {
            None
        }
    } else {
        None
    }
}

/// A table declaration starting at the keyword position `j`: skip whitespace
/// and parentheses, read the name, step over the options clause to the first
/// complete block opener `do |...|`, then find the bare `end` that closes the
/// block depth-aware.  Yields the name and the exclusive end of the span.
pub open spec fn parse_table_at(s: Seq<char>, j: int) -> Option<(Seq<char>, int)> {
    let k = skip_ws_open(s, j + 12);
    match parse_name_at(s, k) {
        None => None,
        Some(nm) => match find_do_open_from(s, nm.1) {
            None => None,
            Some(body) => match find_block_end(s, body, 1) {
                None => None,
                Some(e) => Some((nm.0, e)),
            },
        },
    }
}

pub proof fn lemma_parse_table_at(s: Seq<char>, j: int)
    requires
        0 <= j,
        j + 12 <= s.len(),
    ensures
        match parse_table_at(s, j) {
            Some(r) => j + 12 < r.1 <= s.len() && r.0.len() >= 1 && tok_at(s, r.1 - 3, end_tok()),
            None => true,
        },
{
    lemma_skip_ws_open(s, j + 12);
    let k = skip_ws_open(s, j + 12);
    lemma_parse_name_at(s, k);
    match parse_name_at(s, k) {
        None => {},
        Some(nm) => {
            lemma_find_do_open_from(s, nm.1);
            match find_do_open_from(s, nm.1) {
                None => {},
                Some(body) => {
                    lemma_find_block_end(s, body, 1);
                },
            }
        },
    }
}

/// Executable twin of [`parse_table_at`].
pub fn parse_table(s: &str, j: usize) -> (r: Option<(String, usize)>)
    requires
        j + 12 <= s@.len(),
    ensures
        match r {
            Some(p) => parse_table_at(s@, j as int) == Some((p.0@, p.1 as int)),
            None => parse_table_at(s@, j as int) is None,
        },
{
    let _n: usize = s.unicode_len();
    let k = skip_ws_open_exec(s, j + 12);
    proof {
        lemma_skip_ws_open(s@, j + 12);
    }
    match parse_name(s, k) {
        None => None,
        Some(nm) => {
            proof {
                lemma_parse_name_at(s@, k as int);
            }
            match find_do_open(s, nm.1) {
                None => None,
                Some(body) => {
                    proof {
                        lemma_find_do_open_from(s@, nm.1 as int);
                    }
                    match find_block_end_exec(s, body, 1) {
                        None => None,
                        Some(e) => Some((nm.0, e)),
                    }
                },
            }
        },
    }
}

/// Opener of a view body literal: either the here-document opener `<<-SQL`
/// or an open brace.
pub open spec fn lit_open_at(s: Seq<char>, p: int) -> bool {
    matches_at(s, p, sql_open()) || (0 <= p < s.len() && s[p] == '{')
}

/// First position `p >= i` where a view body literal opens.
pub open spec fn find_lit_open_from(s: Seq<char>, i: int) -> Option<int>
    decreases s.len() - i,
{
    if i < 0 || i >= s.len() {
        None
    } else if lit_open_at(s, i) {
        Some(i)
    } else {
        find_lit_open_from(s, i + 1)
    }
}

pub proof fn lemma_find_lit_open_from(s: Seq<char>, i: int)
    requires
        0 <= i,
    ensures
        match find_lit_open_from(s, i) {
            Some(p) => i <= p < s.len() && lit_open_at(s, p) && (s[p] == '{' || p + 6 <= s.len()),
            None => true,
        },
    decreases s.len() - i,
{
    if 0 <= i < s.len() && !lit_open_at(s, i) {
        lemma_find_lit_open_from(s, i + 1);
    }
}

/// Executable twin of [`find_lit_open_from`].
#[verifier::loop_isolation(false)]
pub fn find_lit_open(s: &str, i: usize) -> (r: Option<usize>)
    ensures
        opt_pos(r) == find_lit_open_from(s@, i as int),
{
    proof {
        reveal_strlit("<<-SQL");
        assert("<<-SQL"@ =~= sql_open());
    }
    let n: usize = s.unicode_len();
    if i >= n {
        return None;
    }
    let mut j: usize = i;
    while j < n
        invariant
            i <= j <= n,
            find_lit_open_from(s@, i as int) == find_lit_open_from(s@, j as int),
        decreases n - j,
    {
        if s.get_char(j) == '{' || match_at(s, j, "<<-SQL") {
            return Some(j);
        }
        j += 1;
    }
    None
}

/// A view declaration starting at the keyword position `j`: skip whitespace
/// and parentheses, read the name, step over the options clause to the first
/// literal opener.  A brace literal closes at its matching close brace; a
/// here-document literal closes at the first line-start `SQL` sentinel, so
/// that terminator-like words inside the literal content are passed over.
pub open spec fn parse_view_at(s: Seq<char>, j: int) -> Option<(Seq<char>, int)> {
    let k = skip_ws_open(s, j + 11);
    match parse_name_at(s, k) {
        None => None,
        Some(nm) => match find_lit_open_from(s, nm.1) {
            None => None,
            Some(p) => if s[p] == '{' {
                match find_brace_end(s, p + 1, 1) {
                    None => None,
                    Some(e) => Some((nm.0, e)),
                }
            } else {
                match find_sql_close_from(s, p + 6) {
                    None => None,
                    Some(q) => Some((nm.0, q + 3)),
                }
            },
        },
    }
}

pub proof fn lemma_parse_view_at(s: Seq<char>, j: int)
    requires
        0 <= j,
        j + 11 <= s.len(),
    ensures
        match parse_view_at(s, j) {
            Some(r) => j + 11 < r.1 <= s.len() && r.0.len() >= 1,
            None => true,
        },
{
    lemma_skip_ws_open(s, j + 11);
    let k = skip_ws_open(s, j + 11);
    lemma_parse_name_at(s, k);
    match parse_name_at(s, k) {
        None => {},
        Some(nm) => {
            lemma_find_lit_open_from(s, nm.1);
            match find_lit_open_from(s, nm.1) {
                None => {},
                Some(p) => {
                    if s[p] == '{' {
                        lemma_find_brace_end(s, p + 1, 1);
                    } else {
                        lemma_find_sql_close_from(s, p + 6);
                    }
                },
            }
        },
    }
}

/// Executable twin of [`parse_view_at`].
pub fn parse_view(s: &str, j: usize) -> (r: Option<(String, usize)>)
    requires
        j + 11 <= s@.len(),
    ensures
        match r {
            Some(p) => parse_view_at(s@, j as int) == Some((p.0@, p.1 as int)),
            None => parse_view_at(s@, j as int) is None,
        },
{
    let _n: usize = s.unicode_len();
    let k = skip_ws_open_exec(s, j + 11);
    proof {
        lemma_skip_ws_open(s@, j + 11);
    }
    match parse_name(s, k) {
        None => None,
        Some(nm) => {
            proof {
                lemma_parse_name_at(s@, k as int);
            }
            match find_lit_open(s, nm.1) {
                None => None,
                Some(p) => {
                    proof {
                        lemma_find_lit_open_from(s@, nm.1 as int);
                    }
                    if s.get_char(p) == '{' {
                        match find_brace_end_exec(s, p + 1, 1) {
                            None => None,
                            Some(e) => Some((nm.0, e)),
                        }
                    } else {
                        match find_sql_close(s, p + 6) {
                            None => None,
                            Some(q) => {
                                proof {
                                    lemma_find_sql_close_from(s@, p + 6);
                                }
                                Some((nm.0, q + 3))
                            },
                        }
                    }
                },
            }
        },
    }
}

/// The kind of a recognised declaration.
#[derive(Clone, Copy, PartialEq, Eq, Structural, Debug)]
pub enum DeclKind {
    Table,
    View,
}

/// Mathematical record of one recognised declaration: its kind, its
/// normalised name, and the half-open span `[start, end)` of its exact
/// source text within the input.
pub ghost struct DefSpec {
    pub kind: DeclKind,
    pub name: Seq<char>,
    pub start: int,
    pub end: int,
}

/// Cursor position after a recognised declaration ending at `e`; falls back
/// to a single step where the end would not advance the scan.
pub open spec fn step(s: Seq<char>, i: int, e: int) -> int {
    if i < e <= s.len() {
        e
    } else {
        i + 1
    }
}

/// The full scan from position `i`: at each position where a declaration
/// keyword stands delimited, try to bound the declaration; on success record
/// it and resume immediately after its terminator.  A candidate without a
/// name is skipped, and scanning resumes past the keyword; a named candidate
/// without a terminator means the search exhausted the input, so the
/// candidate is discarded and the scan stops with no partial record.
pub open spec fn scan_from(s: Seq<char>, i: int) -> Seq<DefSpec>
    decreases s.len() - i,
{
    if i < 0 || i >= s.len() {
        Seq::empty()
    } else if kw_at(s, i, table_kw()) {
        match parse_table_at(s, i) {
            Some(pr) => seq![
                DefSpec { kind: DeclKind::Table, name: pr.0, start: i, end: pr.1 },
            ] + scan_from(s, step(s, i, pr.1)),
            None => if parse_name_at(s, skip_ws_open(s, i + 12)) is Some {
                Seq::empty()
            } else {
                scan_from(s, i + 12)
            },
        }
    } else if kw_at(s, i, view_kw()) {
        match parse_view_at(s, i) {
            Some(pr) => seq![
                DefSpec { kind: DeclKind::View, name: pr.0, start: i, end: pr.1 },
            ] + scan_from(s, step(s, i, pr.1)),
            None => if parse_name_at(s, skip_ws_open(s, i + 11)) is Some {
                Seq::empty()
            } else {
                scan_from(s, i + 11)
            },
        }
    } else {
        scan_from(s, i + 1)
    }
}

/// All declarations recognised in the input, in source order.
pub open spec fn scan(s: Seq<char>) -> Seq<DefSpec> {
    scan_from(s, 0)
}

/// One recognised declaration as executable data.  `name` is the declared
/// identifier in its plain string form; `content` is the exact source text
/// from the declaration keyword through its terminator; `order_index` is the
/// position in the input at which the declaration starts.
pub struct SchemaDefinition {
    pub kind: DeclKind,
    pub name: String,
    pub content: String,
    pub order_index: usize,
}

/// `d` faithfully represents the recognised declaration `g` of input `s`.
pub open spec fn def_ok(s: Seq<char>, d: SchemaDefinition, g: DefSpec) -> bool {
    &&& d.kind == g.kind
    &&& d.name@ == g.name
    &&& d.order_index as int == g.start
    &&& d.content@ == s.subrange(g.start, g.end)
}

/// The produced definitions represent exactly the recognised declarations,
/// in the same order.
pub open spec fn defs_ok(s: Seq<char>, ds: Seq<SchemaDefinition>, gs: Seq<DefSpec>) -> bool {
    &&& ds.len() == gs.len()
    &&& forall|k: int| 0 <= k < ds.len() ==> def_ok(s, ds[k], gs[k])
}

/// Scan the whole input and return every recognised table and view
/// declaration, in source order, each with its normalised name and its
/// byte-for-byte source span.
#[verifier::loop_isolation(false)]
pub fn parse_tables(schema: &str) -> (res: Vec<SchemaDefinition>)
    ensures
        defs_ok(schema@, res@, scan(schema@)),
{
    proof {
        reveal_strlit("create_table");
        reveal_strlit("create_view");
        assert("create_table"@ =~= table_kw());
        assert("create_view"@ =~= view_kw());
    }
    let n: usize = schema.unicode_len();
    let mut res: Vec<SchemaDefinition> = Vec::new();
    let ghost mut gpast: Seq<DefSpec> = Seq::empty();
    let mut i: usize = 0;
    while i < n
        invariant
            i <= n,
            scan(schema@) == gpast + scan_from(schema@, i as int),
            defs_ok(schema@, res@, gpast),
        decreases n - i,
    {
        if kw_at_exec(schema, i, "create_table") {
            match parse_table(schema, i) {
                Some(pr) => {
                    proof {
                        lemma_parse_table_at(schema@, i as int);
                    }
                    let e = pr.1;
                    let content = schema.substring_char(i, e).to_owned();
                    res.push(
                        SchemaDefinition {
                            kind: DeclKind::Table,
                            name: pr.0,
                            content,
                            order_index: i,
                        },
                    );
                    proof {
                        let g = DefSpec {
                            kind: DeclKind::Table,
                            name: pr.0@,
                            start: i as int,
                            end: e as int,
                        };
                        assert(scan_from(schema@, i as int) == seq![g] + scan_from(
                            schema@,
                            e as int,
                        ));
                        gpast = gpast + seq![g];
                    }
                    i = e;
                },
                None => {
                    let k = skip_ws_open_exec(schema, i + 12);
                    proof {
                        lemma_skip_ws_open(schema@, i + 12);
                    }
                    match parse_name(schema, k) {
                        Some(_) => {
                            proof {
                                assert(scan_from(schema@, i as int) =~= Seq::<DefSpec>::empty());
                            }
                            i = n;
                        },
                        None => {
                            i += 12;
                        },
                    }
                },
            }
        } else if kw_at_exec(schema, i, "create_view") {
            match parse_view(schema, i) {
                Some(pr) => {
                    proof {
                        lemma_parse_view_at(schema@, i as int);
                    }
                    let e = pr.1;
                    let content = schema.substring_char(i, e).to_owned();
                    res.push(
                        SchemaDefinition {
                            kind: DeclKind::View,
                            name: pr.0,
                            content,
                            order_index: i,
                        },
                    );
                    proof {
                        let g = DefSpec {
                            kind: DeclKind::View,
                            name: pr.0@,
                            start: i as int,
                            end: e as int,
                        };
                        assert(scan_from(schema@, i as int) == seq![g] + scan_from(
                            schema@,
                            e as int,
                        ));
                        gpast = gpast + seq![g];
                    }
                    i = e;
                },
                None => {
                    let k = skip_ws_open_exec(schema, i + 11);
                    proof {
                        lemma_skip_ws_open(schema@, i + 11);
                    }
                    match parse_name(schema, k) {
                        Some(_) => {
                            proof {
                                assert(scan_from(schema@, i as int) =~= Seq::<DefSpec>::empty());
                            }
                            i = n;
                        },
                        None => {
                            i += 11;
                        },
                    }
                },
            }
        } else {
            i += 1;
        }
    }
    proof {
        assert(scan_from(schema@, i as int) =~= Seq::<DefSpec>::empty());
        assert(scan(schema@) =~= gpast);
    }
    res
}

} // verus!
