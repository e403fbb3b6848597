//! The selector: partitions a list of requested names into the definitions
//! found (in source order, duplicates kept) and the names that match no
//! discovered definition (in requested order).  Matching is exact string
//! equality on normalised names.

use vstd::prelude::*;

use crate::parser::SchemaDefinition;

verus! {

/// The requested names as character sequences.
pub open spec fn name_views(req: Seq<String>) -> Seq<Seq<char>> {
    req.map_values(|r: String| r@)
}

/// The names of the discovered definitions, in source order.
pub open spec fn def_names(defs: Seq<SchemaDefinition>) -> Seq<Seq<char>> {
    defs.map_values(|d: SchemaDefinition| d.name@)
}

/// The definitions whose name was requested, in source order; a requested
/// name that several definitions share keeps all of them.
pub open spec fn spec_matched(defs: Seq<SchemaDefinition>, req: Seq<Seq<char>>) -> Seq<
    SchemaDefinition,
> {
    defs.filter(|d: SchemaDefinition| req.contains(d.name@))
}

/// The requested names under which some definition was discovered, in
/// requested order.
pub open spec fn spec_found(req: Seq<String>, names: Seq<Seq<char>>) -> Seq<String> {
    req.filter(|r: String| names.contains(r@))
}

/// The requested names that match no discovered definition, in requested
/// order; every such name is reported, not only the first.
pub open spec fn spec_unmatched(req: Seq<String>, names: Seq<Seq<char>>) -> Seq<String> {
    req.filter(|r: String| !names.contains(r@))
}

proof fn lemma_matched_push(defs: Seq<SchemaDefinition>, req: Seq<Seq<char>>, x: SchemaDefinition)
    ensures
        spec_matched(defs.push(x), req) == if req.contains(x.name@) {
            spec_matched(defs, req).push(x)
        } else {
            spec_matched(defs, req)
        },
{
    reveal_with_fuel(Seq::filter, 2);
    assert(defs.push(x).drop_last() =~= defs);
}

proof fn lemma_found_push(req: Seq<String>, names: Seq<Seq<char>>, x: String)
    ensures
        spec_found(req.push(x), names) == if names.contains(x@) {
            spec_found(req, names).push(x)
        } else {
            spec_found(req, names)
        },
        spec_unmatched(req.push(x), names) == if !names.contains(x@) {
            spec_unmatched(req, names).push(x)
        } else {
            spec_unmatched(req, names)
        },
{
    reveal_with_fuel(Seq::filter, 2);
    assert(req.push(x).drop_last() =~= req);
}

/// Whether some discovered definition bears the given name.
#[verifier::loop_isolation(false)]
pub fn defs_contain(defs: &Vec<SchemaDefinition>, name: &String) -> (b: bool)
    ensures
        b == def_names(defs@).contains(name@),
{
    let mut k: usize = 0;
    while k < defs.len()
        invariant
            k <= defs.len(),
            forall|m: int| 0 <= m < k ==> defs@[m].name@ != name@,
        decreases defs.len() - k,
    {
        if defs[k].name == *name {
            assert(def_names(defs@)[k as int] == name@);
            return true;
        }
        k += 1;
    }
    assert(forall|m: int| 0 <= m < def_names(defs@).len() ==> def_names(defs@)[m] != name@);
    false
}

/// Whether the given name was requested.
#[verifier::loop_isolation(false)]
pub fn requested_contains(requested: &Vec<String>, name: &String) -> (b: bool)
    ensures
        b == name_views(requested@).contains(name@),
{
    let mut k: usize = 0;
    while k < requested.len()
        invariant
            k <= requested.len(),
            forall|m: int| 0 <= m < k ==> requested@[m]@ != name@,
        decreases requested.len() - k,
    {
        if requested[k] == *name {
            assert(name_views(requested@)[k as int] == name@);
            return true;
        }
        k += 1;
    }
    assert(forall|m: int| 0 <= m < name_views(requested@).len() ==> name_views(requested@)[m]
        != name@);
    false
}

/// Outcome of selecting requested names among the discovered definitions.
pub struct Selection {
    /// The definitions to emit, in source order.
    pub matched: Vec<SchemaDefinition>,
    /// The requested names that were found, in requested order.
    pub found: Vec<String>,
    /// The requested names that were not found, in requested order.
    pub missing: Vec<String>,
}

/// Partition the requested names against the discovered definitions.
#[verifier::loop_isolation(false)]
pub fn select(defs: Vec<SchemaDefinition>, requested: &Vec<String>) -> (sel: Selection)
    ensures
        sel.matched@ == spec_matched(defs@, name_views(requested@)),
        sel.found@ == spec_found(requested@, def_names(defs@)),
        sel.missing@ == spec_unmatched(requested@, def_names(defs@)),
{
    let ghost orig = defs@;
    let mut found: Vec<String> = Vec::new();
    let mut missing: Vec<String> = Vec::new();
    let mut k: usize = 0;
    while k < requested.len()
        invariant
            k <= requested.len(),
            found@ == spec_found(requested@.subrange(0, k as int), def_names(orig)),
            missing@ == spec_unmatched(requested@.subrange(0, k as int), def_names(orig)),
            defs@ == orig,
        decreases requested.len() - k,
    {
        let name = requested[k].clone();
        proof {
            lemma_found_push(
                requested@.subrange(0, k as int),
                def_names(orig),
                requested@[k as int],
            );
            assert(requested@.subrange(0, k + 1) =~= requested@.subrange(0, k as int).push(
                requested@[k as int],
            ));
        }
        if defs_contain(&defs, &name) {
            found.push(name);
        } else {
            missing.push(name);
        }
        k += 1;
    }
    proof {
        assert(requested@.subrange(0, requested@.len() as int) =~= requested@);
    }
    let mut rest = defs;
    let mut matched: Vec<SchemaDefinition> = Vec::new();
    let ghost mut done: int = 0;
    while rest.len() > 0
        invariant
            0 <= done <= orig.len(),
            rest@ == orig.subrange(done, orig.len() as int),
            matched@ == spec_matched(orig.subrange(0, done), name_views(requested@)),
        decreases rest@.len(),
    {
        let d = rest.remove(0);
        proof {
            assert(d == orig[done]);
            lemma_matched_push(orig.subrange(0, done), name_views(requested@), orig[done]);
            assert(orig.subrange(0, done + 1) =~= orig.subrange(0, done).push(orig[done]));
            assert(rest@ =~= orig.subrange(done + 1, orig.len() as int));
        }
        if requested_contains(requested, &d.name) {
            matched.push(d);
        }
        proof {
            done = done + 1;
        }
    }
    proof {
        assert(orig.subrange(0, orig.len() as int) =~= orig);
    }
    Selection { matched, found, missing }
}

} // verus!
