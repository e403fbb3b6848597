//! Rendering of the selected definitions into the output text: the source
//! spans in order, separated by blank lines, with nothing added around them.

use vstd::prelude::*;

use crate::parser::SchemaDefinition;

verus! {

/// The blank-line separator placed between emitted definitions.
pub open spec fn sep() -> Seq<char> {
    seq!['\n', '\n']
}

/// The emitted output text for a sequence of definitions.
pub open spec fn spec_render(ds: Seq<SchemaDefinition>) -> Seq<char>
    decreases ds.len(),
{
    if ds.len() == 0 {
        Seq::empty()
    } else if ds.len() == 1 {
        ds[0].content@
    } else {
        spec_render(ds.drop_last()) + sep() + ds.last().content@
    }
}

/// Concatenate the source texts of the selected definitions, in order, each
/// separated from the next by a blank line.
#[verifier::loop_isolation(false)]
pub fn render_output(defs: &Vec<SchemaDefinition>) -> (out: String)
    ensures
        out@ == spec_render(defs@),
{
    proof {
        reveal_strlit("\n\n");
        assert("\n\n"@ =~= sep());
    }
    let mut out = String::new();
    let mut k: usize = 0;
    while k < defs.len()
        invariant
            k <= defs.len(),
            out@ == spec_render(defs@.subrange(0, k as int)),
        decreases defs.len() - k,
    {
        if k > 0 {
            out.append("\n\n");
        }
        out.append(defs[k].content.as_str());
        proof {
            assert(defs@.subrange(0, k + 1).drop_last() =~= defs@.subrange(0, k as int));
            assert(defs@.subrange(0, k + 1).last() == defs@[k as int]);
            if k == 0 {
                assert(out@ =~= spec_render(defs@.subrange(0, k + 1)));
            }
        }
        k += 1;
    }
    proof {
        assert(defs@.subrange(0, defs@.len() as int) =~= defs@);
    }
    out
}

} // verus!
