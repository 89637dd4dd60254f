//! The constant name synthesizer: a path's rendered segments folded into a
//! single synthetic identifier-like name.
//!
//! The name starts as `PATH`; for every rendered element in order — prefix
//! marker, each segment, wildcard marker if present — an underscore and the
//! element's text uppercased are appended. Each element is uppercased
//! verbatim, character for character: no underscore is inserted at case
//! transitions inside a mixed-case segment, and the prefix markers `::` and
//! `*` uppercase to themselves. Uniqueness across distinct paths that
//! uppercase alike is the caller's concern.

use vstd::prelude::*;

use crate::path::{TypePath, rendered_of};

verus! {

/// The Unicode uppercase of a text: a function of its characters alone.
pub uninterp spec fn upper_of(s: Seq<char>) -> Seq<char>;

/// Relies on str::to_uppercase: the returned text is `s` uppercased,
/// determined by the characters of `s` alone.
#[verifier::external_body]
fn to_upper(s: &str) -> (out: String)
    ensures
        out@ == upper_of(s@),
{
    s.to_uppercase()
}

/// The leading text of every synthesized name.
pub open spec fn name_stem() -> Seq<char> {
    seq!['P', 'A', 'T', 'H']
}

/// The synthesized constant name for a rendered segment sequence: the stem,
/// then `_` and the uppercase of each element, in order.
pub open spec fn const_name_of(rendered: Seq<Seq<char>>) -> Seq<char>
    decreases rendered.len(),
{
    if rendered.len() == 0 {
        name_stem()
    } else {
        const_name_of(rendered.drop_last()) + seq!['_'] + upper_of(rendered.last())
    }
}

/// The named-constant output: the synthesized name and the rendered
/// segments that are its value.
pub struct PathConst {
    pub name: String,
    pub segments: Vec<String>,
}

impl TypePath {
    /// Synthesizes the constant name from this path's rendered segments. A
    /// pure function of the path: equal paths yield equal names.
    pub fn const_name(&self) -> (out: String)
        ensures
            out@ == const_name_of(rendered_of(self@)),
    {
        let rendered = self.render();
        let ghost all: Seq<Seq<char>> = rendered.deep_view();
        let mut out = String::from_str("PATH");
        proof {
            reveal_strlit("PATH");
            assert(out@ =~= name_stem());
            assert(all.take(0) =~= Seq::<Seq<char>>::empty());
        }
        let mut i: usize = 0;
        while i < rendered.len()
            invariant
                i <= rendered.len(),
                all == rendered.deep_view(),
                out@ == const_name_of(all.take(i as int)),
            decreases rendered.len() - i,
        {
            out.append("_");
            let upper = to_upper(rendered[i].as_str());
            out.append(upper.as_str());
            proof {
                reveal_strlit("_");
                assert("_"@ =~= seq!['_']);
                assert(all.take(i + 1).drop_last() =~= all.take(i as int));
                assert(all.take(i + 1).last() == all[i as int]);
                assert(out@ =~= const_name_of(all.take(i + 1)));
            }
            i = i + 1;
        }
        proof {
            assert(all.take(rendered.len() as int) =~= all);
        }
        out
    }
}

} // verus!
