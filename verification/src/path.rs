//! The path data model and its rendered forms.

use vstd::prelude::*;

verus! {

/// The root of a path: the program's global namespace, rendered `"::"`, or
/// the current crate's own namespace, rendered `"crate"`.
#[derive(Clone, Copy, Debug, PartialEq, Eq, Structural)]
pub enum PathPrefix {
    RootAbsolute,
    SelfCrate,
}

/// The mathematical model of a parsed path: its prefix, the text of each
/// segment in order from outermost to innermost, and whether a wildcard
/// suffix was present.
#[verifier::ext_equal]
pub struct PathModel {
    pub prefix: PathPrefix,
    pub segments: Seq<Seq<char>>,
    pub wildcard: bool,
}

/// A parsed path. The grammar guarantees at least one segment; each segment
/// is a non-empty identifier holding no whitespace.
pub struct TypePath {
    pub prefix: PathPrefix,
    pub segments: Vec<String>,
    pub wildcard: bool,
}

impl View for TypePath {
    type V = PathModel;

    open spec fn view(&self) -> PathModel {
        PathModel {
            prefix: self.prefix,
            segments: self.segments.deep_view(),
            wildcard: self.wildcard,
        }
    }
}

/// The canonical first rendered element of a path with this prefix.
pub open spec fn prefix_marker(p: PathPrefix) -> Seq<char> {
    match p {
        PathPrefix::RootAbsolute => seq![':', ':'],
        PathPrefix::SelfCrate => seq!['c', 'r', 'a', 't', 'e'],
    }
}

/// The final rendered element of a wildcarded path.
pub open spec fn star_marker() -> Seq<char> {
    seq!['*']
}

/// The `::` separator as it stands in path source text.
pub open spec fn sep_chars() -> Seq<char> {
    seq![':', ':']
}

/// The rendered output of a path: the prefix marker, each segment's exact
/// text in order, and a final `"*"` when a wildcard was present.
pub open spec fn rendered_of(m: PathModel) -> Seq<Seq<char>> {
    seq![prefix_marker(m.prefix)] + m.segments + if m.wildcard {
        seq![star_marker()]
    } else {
        Seq::<Seq<char>>::empty()
    }
}

/// The segments joined by `::`, as path source text.
pub open spec fn joined_segments(segs: Seq<Seq<char>>) -> Seq<char>
    decreases segs.len(),
{
    if segs.len() == 0 {
        Seq::<char>::empty()
    } else if segs.len() == 1 {
        segs[0]
    } else {
        joined_segments(segs.drop_last()) + sep_chars() + segs.last()
    }
}

/// The source text of the scope-validation import for a path: the path
/// written back out in canonical spelling, wildcard included.
pub open spec fn import_text_of(m: PathModel) -> Seq<char> {
    (match m.prefix {
        PathPrefix::RootAbsolute => sep_chars(),
        PathPrefix::SelfCrate => prefix_marker(PathPrefix::SelfCrate) + sep_chars(),
    }) + joined_segments(m.segments) + if m.wildcard {
        sep_chars() + star_marker()
    } else {
        Seq::<char>::empty()
    }
}

fn clone_string(s: &String) -> (out: String)
    ensures
        out@ == s@,
{
    String::from_str(s.as_str())
}

impl TypePath {
    /// Renders the path as its ordered string segments: the prefix marker
    /// first, then each segment verbatim, then `"*"` if the path ends in a
    /// wildcard. A pure projection: two calls on equal paths agree.
    pub fn render(&self) -> (out: Vec<String>)
        ensures
            out.deep_view() == rendered_of(self@),
    {
        let mut out: Vec<String> = Vec::new();
        let prefix_text: &str = match self.prefix {
            PathPrefix::RootAbsolute => "::",
            PathPrefix::SelfCrate => "crate",
        };
        proof {
            reveal_strlit("::");
            reveal_strlit("crate");
            assert(prefix_text@ =~= prefix_marker(self.prefix));
        }
        out.push(String::from_str(prefix_text));
        let ghost segs: Seq<Seq<char>> = self.segments.deep_view();
        proof {
            assert(out.deep_view() =~= seq![prefix_marker(self.prefix)] + segs.take(0));
        }
        let mut i: usize = 0;
        while i < self.segments.len()
            invariant
                i <= self.segments.len(),
                segs == self.segments.deep_view(),
                out.deep_view() =~= seq![prefix_marker(self.prefix)] + segs.take(i as int),
            decreases self.segments.len() - i,
        {
            let ghost pre: Seq<Seq<char>> = out.deep_view();
            out.push(clone_string(&self.segments[i]));
            proof {
                assert(out.deep_view() =~= pre.push(segs[i as int]));
                assert(segs.take(i + 1) =~= segs.take(i as int).push(segs[i as int]));
                assert(out.deep_view() =~= seq![prefix_marker(self.prefix)] + segs.take(i + 1));
            }
            i = i + 1;
        }
        proof {
            assert(segs.take(self.segments.len() as int) =~= segs);
        }
        if self.wildcard {
            let star = String::from_str("*");
            proof {
                reveal_strlit("*");
                assert(star@ =~= star_marker());
            }
            let ghost pre: Seq<Seq<char>> = out.deep_view();
            out.push(star);
            proof {
                assert(out.deep_view() =~= pre.push(star_marker()));
            }
        }
        proof {
            assert(out.deep_view() =~= rendered_of(self@));
        }
        out
    }

    /// The path written back out as source text, for the scope-validation
    /// import: `::` or `crate::`, the segments joined by `::`, and a final
    /// `::*` when the path is wildcarded.
    pub fn import_text(&self) -> (out: String)
        ensures
            out@ == import_text_of(self@),
    {
        let mut out: String = match self.prefix {
            PathPrefix::RootAbsolute => String::from_str("::"),
            PathPrefix::SelfCrate => String::from_str("crate::"),
        };
        proof {
            reveal_strlit("::");
            reveal_strlit("crate::");
            assert((match self.prefix {
                PathPrefix::RootAbsolute => sep_chars(),
                PathPrefix::SelfCrate => prefix_marker(PathPrefix::SelfCrate) + sep_chars(),
            }) =~= out@);
        }
        let ghost lead: Seq<char> = out@;
        let ghost segs: Seq<Seq<char>> = self.segments.deep_view();
        let mut i: usize = 0;
        while i < self.segments.len()
            invariant
                i <= self.segments.len(),
                segs == self.segments.deep_view(),
                out@ == lead + joined_segments(segs.take(i as int)),
            decreases self.segments.len() - i,
        {
            if i > 0 {
                out.append("::");
                proof {
                    reveal_strlit("::");
                    assert("::"@ =~= sep_chars());
                }
            }
            out.append(self.segments[i].as_str());
            proof {
                assert(segs.take(i + 1).drop_last() =~= segs.take(i as int));
                assert(segs.take(i + 1).last() == segs[i as int]);
                if i == 0 {
                    assert(joined_segments(segs.take(1)) == segs[0]);
                    assert(lead + Seq::<char>::empty() =~= lead);
                }
                assert(out@ =~= lead + joined_segments(segs.take(i + 1)));
            }
            i = i + 1;
        }
        proof {
            assert(segs.take(self.segments.len() as int) =~= segs);
        }
        if self.wildcard {
            out.append("::*");
            proof {
                reveal_strlit("::*");
                assert("::*"@ =~= sep_chars() + star_marker());
            }
        }
        proof {
            assert(out@ =~= import_text_of(self@));
        }
        out
    }
}

} // verus!
