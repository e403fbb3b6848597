//! Laws of the scanner and the selector, stated over the specification
//! functions that the executable contracts use.

use vstd::prelude::*;

use crate::parser::{
    find_lit_open_from, parse_name_at, parse_table_at, parse_view_at, scan, scan_from, DeclKind,
    SchemaDefinition,
};
use crate::scan::{
    lemma_find_sql_close_from, skip_ws_open, sql_close_at,
};
use crate::selector::{def_names, name_views, spec_matched, spec_unmatched};
use crate::text::{end_tok, kw_at, table_kw, tok_at, view_kw};

verus! {

/// Every recognised declaration arises from a successful parse at its start
/// position: its keyword stands delimited there, its span lies within the
/// input, and its name and end are the ones that parse produced.
pub proof fn lemma_scan_from_defs(s: Seq<char>, i: int)
    requires
        0 <= i,
    ensures
        forall|k: int|
            #![trigger scan_from(s, i)[k]]
            0 <= k < scan_from(s, i).len() ==> {
                let d = scan_from(s, i)[k];
                &&& i <= d.start
                &&& d.start < d.end <= s.len()
                &&& (d.kind == DeclKind::Table ==> kw_at(s, d.start, table_kw())
                    && parse_table_at(s, d.start) == Some((d.name, d.end)))
                &&& (d.kind == DeclKind::View ==> kw_at(s, d.start, view_kw())
                    && parse_view_at(s, d.start) == Some((d.name, d.end)))
            },
    decreases s.len() - i,
{
    if i >= s.len() {
    } else if kw_at(s, i, table_kw()) {
        match parse_table_at(s, i) {
            Some(pr) => {
                crate::parser::lemma_parse_table_at(s, i);
                lemma_scan_from_defs(s, pr.1);
            },
            None => {
                if parse_name_at(s, skip_ws_open(s, i + 12)) is None {
                    lemma_scan_from_defs(s, i + 12);
                }
            },
        }
    } else if kw_at(s, i, view_kw()) {
        match parse_view_at(s, i) {
            Some(pr) => {
                crate::parser::lemma_parse_view_at(s, i);
                lemma_scan_from_defs(s, pr.1);
            },
            None => {
                if parse_name_at(s, skip_ws_open(s, i + 11)) is None {
                    lemma_scan_from_defs(s, i + 11);
                }
            },
        }
    } else {
        lemma_scan_from_defs(s, i + 1);
    }
}

/// Span fidelity: the spans of the recognised declarations lie within the
/// input, begin at their keyword, and stand in source order without overlap,
/// so that the skipped gaps and the captured spans together cover the input
/// in order.
pub proof fn lemma_span_fidelity(s: Seq<char>, i: int)
    requires
        0 <= i,
    ensures
        forall|k1: int, k2: int|
            0 <= k1 < k2 < scan_from(s, i).len() ==> #[trigger] scan_from(s, i)[k1].end
                <= #[trigger] scan_from(s, i)[k2].start,
    decreases s.len() - i,
{
    lemma_scan_from_defs(s, i);
    if i >= s.len() {
    } else if kw_at(s, i, table_kw()) {
        match parse_table_at(s, i) {
            Some(pr) => {
                crate::parser::lemma_parse_table_at(s, i);
                lemma_span_fidelity(s, pr.1);
                lemma_scan_from_defs(s, pr.1);
            },
            None => {
                if parse_name_at(s, skip_ws_open(s, i + 12)) is None {
                    lemma_span_fidelity(s, i + 12);
                }
            },
        }
    } else if kw_at(s, i, view_kw()) {
        match parse_view_at(s, i) {
            Some(pr) => {
                crate::parser::lemma_parse_view_at(s, i);
                lemma_span_fidelity(s, pr.1);
                lemma_scan_from_defs(s, pr.1);
            },
            None => {
                if parse_name_at(s, skip_ws_open(s, i + 11)) is None {
                    lemma_span_fidelity(s, i + 11);
                }
            },
        }
    } else {
        lemma_span_fidelity(s, i + 1);
    }
}

/// Name normalisation: a quoted-string name and a symbol name carrying the
/// same identifier text parse to the same plain name.
pub proof fn lemma_name_normalization(
    s1: Seq<char>,
    i1: int,
    n1: Seq<char>,
    e1: int,
    s2: Seq<char>,
    i2: int,
    n2: Seq<char>,
    e2: int,
)
    requires
        0 <= i1 < s1.len(),
        0 <= i2 < s2.len(),
        s1[i1] == '"',
        s2[i2] == ':',
        parse_name_at(s1, i1) == Some((n1, e1)),
        parse_name_at(s2, i2) == Some((n2, e2)),
        s1.subrange(i1 + 1, e1 - 1) == s2.subrange(i2 + 1, e2),
    ensures
        n1 == n2,
{
}

/// The position where the body literal of the view declaration at `j`
/// opens, if the declaration parses that far.
pub open spec fn view_lit_open(s: Seq<char>, j: int) -> Option<int> {
    let k = skip_ws_open(s, j + 11);
    match parse_name_at(s, k) {
        None => None,
        Some(nm) => find_lit_open_from(s, nm.1),
    }
}

/// Literal safety: when a view body is a here-document literal, its span
/// ends at the first line-start SQL sentinel after the opener.  No word
/// inside the literal content closes the span — in particular, a bare block
/// terminator occurring in the content lies strictly inside the captured
/// text.
pub proof fn lemma_literal_safety(s: Seq<char>, j: int, name: Seq<char>, e: int, p: int)
    requires
        0 <= j,
        j + 11 <= s.len(),
        parse_view_at(s, j) == Some((name, e)),
        view_lit_open(s, j) == Some(p),
        s[p] != '{',
    ensures
        sql_close_at(s, e - 3),
        forall|q: int| p + 6 <= q < e - 3 ==> !sql_close_at(s, q),
        forall|q: int| p + 6 <= q < e - 3 && tok_at(s, q, end_tok()) ==> q + 3 < e,
{
    lemma_find_sql_close_from(s, p + 6);
}

/// Selector completeness: every requested name stands either among the
/// matched definitions or among the unmatched names; every matched
/// definition bears a requested, discovered name; every unmatched name was
/// requested and matches no discovered definition.
pub proof fn lemma_selector_completeness(defs: Seq<SchemaDefinition>, req: Seq<String>)
    ensures
        forall|i: int|
            0 <= i < req.len() ==> spec_unmatched(req, def_names(defs)).contains(#[trigger] req[i])
                || exists|j: int|
                0 <= j < spec_matched(defs, name_views(req)).len() && #[trigger] spec_matched(
                    defs,
                    name_views(req),
                )[j].name@ == req[i]@,
        forall|j: int|
            #![trigger spec_matched(defs, name_views(req))[j]]
            0 <= j < spec_matched(defs, name_views(req)).len() ==> {
                let d = spec_matched(defs, name_views(req))[j];
                name_views(req).contains(d.name@) && def_names(defs).contains(d.name@)
            },
        forall|m: int|
            #![trigger spec_unmatched(req, def_names(defs))[m]]
            0 <= m < spec_unmatched(req, def_names(defs)).len() ==> {
                let x = spec_unmatched(req, def_names(defs))[m];
                req.contains(x) && !def_names(defs).contains(x@)
            },
{
    broadcast use vstd::seq_lib::group_filter_ensures;

    lemma_filter_in_source(defs, |d: SchemaDefinition| name_views(req).contains(d.name@));
    lemma_filter_in_source(req, |r: String| !def_names(defs).contains(r@));
    let matched = spec_matched(defs, name_views(req));
    let unmatched = spec_unmatched(req, def_names(defs));
    assert forall|i: int| 0 <= i < req.len() implies unmatched.contains(#[trigger] req[i]) || (
    exists|j: int|
        0 <= j < matched.len() && #[trigger] matched[j].name@ == req[i]@) by {
        if def_names(defs).contains(req[i]@) {
            let t = choose|t: int| 0 <= t < def_names(defs).len() && def_names(defs)[t]
                == req[i]@;
            assert(defs[t].name@ == req[i]@);
            assert(name_views(req)[i] == req[i]@);
            assert(name_views(req).contains(defs[t].name@));
            assert(matched.contains(defs[t]));
            let j = choose|j: int| 0 <= j < matched.len() && matched[j] == defs[t];
            assert(matched[j].name@ == req[i]@);
        } else {
            assert(unmatched.contains(req[i]));
        }
    }
    assert forall|j: int| 0 <= j < matched.len() implies name_views(req).contains(
        #[trigger] matched[j].name@,
    ) && def_names(defs).contains(matched[j].name@) by {
        assert(defs.contains(matched[j]));
        let t = choose|t: int| 0 <= t < defs.len() && defs[t] == matched[j];
        assert(def_names(defs)[t] == matched[j].name@);
    }
    assert forall|m: int| 0 <= m < unmatched.len() implies req.contains(
        #[trigger] unmatched[m],
    ) && !def_names(defs).contains(unmatched[m]@) by {
        assert(req.contains(unmatched[m]));
    }
}

/// Every element kept by a filter is an element of the filtered sequence.
proof fn lemma_filter_in_source<A>(s: Seq<A>, pred: spec_fn(A) -> bool)
    ensures
        forall|j: int| 0 <= j < s.filter(pred).len() ==> s.contains(#[trigger] s.filter(pred)[j]),
    decreases s.len(),
{
    reveal(Seq::filter);
    if s.len() > 0 {
        lemma_filter_in_source(s.drop_last(), pred);
        assert forall|j: int| 0 <= j < s.filter(pred).len() implies s.contains(
            #[trigger] s.filter(pred)[j],
        ) by {
            let sub = s.drop_last().filter(pred);
            if j < sub.len() {
                assert(sub.contains(sub[j]));
                let t = choose|t: int| 0 <= t < s.drop_last().len() && s.drop_last()[t] == sub[j];
                assert(s[t] == sub[j]);
            } else {
                assert(s.filter(pred)[j] == s.last());
                assert(s[s.len() - 1] == s.last());
            }
        }
    }
}

} // verus!
