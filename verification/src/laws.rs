//! The library's general guarantees, stated once over the
//! specification-level parser and the rendered projections, and proved.

use vstd::prelude::*;

use crate::name::const_name_of;
use crate::parse::{
    ParseErrorModel, at_sep, ident_end, is_ident, is_ident_char, is_ident_start_char,
    lemma_ident_end_bounds, lemma_parse_wf, lemma_skip_ws_bounds, parse_path_spec, parse_segments,
    parse_tail, skip_ws, valid_path, wf_model,
};
use crate::path::{PathModel, PathPrefix, prefix_marker, rendered_of, sep_chars, star_marker};
use crate::trim::is_ws_char;

verus! {

/// Text made of whitespace alone: what may stand between two path tokens.
pub open spec fn ws_text(g: Seq<char>) -> bool {
    forall|i: int| 0 <= i < g.len() ==> is_ws_char(#[trigger] g[i])
}

pub open spec fn all_ws_texts(gaps: Seq<Seq<char>>) -> bool {
    forall|i: int| 0 <= i < gaps.len() ==> ws_text(#[trigger] gaps[i])
}

/// How many gaps the layout of a path tail takes: two per further segment,
/// and a final one, preceded by two more when a wildcard closes the path.
pub open spec fn tail_gap_count(more: int, wildcard: bool) -> int {
    2 * more + if wildcard {
        3int
    } else {
        1int
    }
}

/// How many gaps the layout of a whole path takes.
pub open spec fn layout_gap_count(m: PathModel) -> int {
    (match m.prefix {
        PathPrefix::RootAbsolute => 2int,
        PathPrefix::SelfCrate => 3int,
    }) + tail_gap_count(m.segments.len() - 1, m.wildcard)
}

/// The source text of a path tail — everything after the first segment —
/// under a chosen whitespace layout: a gap, `::`, a gap and the segment for
/// each further segment; then either a gap, `::`, a gap, `*` and a final
/// gap when the path is wildcarded, or a final gap alone.
pub open spec fn tail_layout(segs: Seq<Seq<char>>, wildcard: bool, gaps: Seq<Seq<char>>) -> Seq<
    char,
>
    decreases segs.len(),
{
    if segs.len() > 0 {
        gaps[0] + sep_chars() + gaps[1] + segs[0] + tail_layout(
            segs.drop_first(),
            wildcard,
            gaps.skip(2),
        )
    } else if wildcard {
        gaps[0] + sep_chars() + gaps[1] + star_marker() + gaps[2]
    } else {
        gaps[0]
    }
}

/// The source text of a whole path under a chosen whitespace layout: the
/// prefix's tokens, the first segment and the tail, with one gap between
/// each pair of adjacent tokens and around the whole.
pub open spec fn path_layout(m: PathModel, gaps: Seq<Seq<char>>) -> Seq<char> {
    match m.prefix {
        PathPrefix::RootAbsolute => gaps[0] + sep_chars() + gaps[1] + m.segments[0] + tail_layout(
            m.segments.drop_first(),
            m.wildcard,
            gaps.skip(2),
        ),
        PathPrefix::SelfCrate => gaps[0] + prefix_marker(PathPrefix::SelfCrate) + gaps[1]
            + sep_chars() + gaps[2] + m.segments[0] + tail_layout(
            m.segments.drop_first(),
            m.wildcard,
            gaps.skip(3),
        ),
    }
}

proof fn lemma_char_classes()
    ensures
        forall|c: char| is_ws_char(c) ==> !is_ident_char(c),
        !is_ident_char(':'),
        !is_ident_char('*'),
        !is_ws_char(':'),
        !is_ws_char('*'),
        ':' != '*',
{
    assert forall|c: char| is_ws_char(c) implies !is_ident_char(c) by {
        assert(c == '\t' || c == '\n' || c == '\r' || c == ' ');
        assert((c as u32) == 9 || (c as u32) == 10 || (c as u32) == 13 || (c as u32) == 32);
    }
    assert((':' as u32) == 58);
    assert(('*' as u32) == 42);
}

proof fn lemma_skip_ws_exact(s: Seq<char>, a: int, b: int)
    requires
        0 <= a <= b <= s.len(),
        forall|k: int| a <= k < b ==> is_ws_char(#[trigger] s[k]),
        b == s.len() || !is_ws_char(s[b]),
    ensures
        skip_ws(s, a) == b,
    decreases b - a,
{
    if a < b {
        lemma_skip_ws_exact(s, a + 1, b);
    }
}

proof fn lemma_ident_end_exact(s: Seq<char>, a: int, b: int)
    requires
        0 <= a <= b <= s.len(),
        forall|k: int| a <= k < b ==> is_ident_char(#[trigger] s[k]),
        b == s.len() || !is_ident_char(s[b]),
    ensures
        ident_end(s, a) == b,
    decreases b - a,
{
    if a < b {
        lemma_ident_end_exact(s, a + 1, b);
    }
}

/// The first character of a tail layout, if any, is whitespace or a colon —
/// never an identifier character.
proof fn lemma_tail_layout_head(segs: Seq<Seq<char>>, wildcard: bool, gaps: Seq<Seq<char>>)
    requires
        all_ws_texts(gaps),
        gaps.len() == tail_gap_count(segs.len() as int, wildcard),
    ensures
        tail_layout(segs, wildcard, gaps).len() == 0 || is_ws_char(
            tail_layout(segs, wildcard, gaps)[0],
        ) || tail_layout(segs, wildcard, gaps)[0] == ':',
{
    let t = tail_layout(segs, wildcard, gaps);
    if segs.len() > 0 || wildcard {
        if gaps[0].len() > 0 {
            assert(t[0] == gaps[0][0]);
            assert(is_ws_char(gaps[0][0]));
        } else {
            assert(t[0] == sep_chars()[0]);
        }
    } else {
        if gaps[0].len() > 0 {
            assert(t[0] == gaps[0][0]);
            assert(is_ws_char(gaps[0][0]));
        }
    }
}

/// Parsing a path tail is insensitive to the whitespace layout: whatever
/// whitespace stands in the gaps, the same segments and wildcard come back.
proof fn lemma_parse_tail_layout(
    t: Seq<char>,
    k: int,
    segs: Seq<Seq<char>>,
    wildcard: bool,
    gaps: Seq<Seq<char>>,
)
    requires
        0 <= k <= t.len(),
        t.skip(k) == tail_layout(segs, wildcard, gaps),
        all_ws_texts(gaps),
        gaps.len() == tail_gap_count(segs.len() as int, wildcard),
        forall|i: int| 0 <= i < segs.len() ==> is_ident(#[trigger] segs[i]),
    ensures
        parse_tail(t, k) == Ok::<(Seq<Seq<char>>, bool), ParseErrorModel>((segs, wildcard)),
    decreases segs.len(),
{
    lemma_char_classes();
    let rest = t.skip(k);
    assert(forall|i: int| 0 <= i < rest.len() ==> rest[i] == t[k + i]);
    if segs.len() == 0 && !wildcard {
        assert(rest == gaps[0]);
        assert(forall|q: int| k <= q < t.len() ==> is_ws_char(#[trigger] t[q])) by {
            assert(forall|q: int| k <= q < t.len() ==> t[q] == rest[q - k]);
        }
        lemma_skip_ws_exact(t, k, t.len() as int);
        assert(segs =~= Seq::<Seq<char>>::empty());
    } else if segs.len() == 0 && wildcard {
        let g0 = gaps[0];
        let g1 = gaps[1];
        let g2 = gaps[2];
        assert(rest == g0 + sep_chars() + g1 + star_marker() + g2);
        let a = k + g0.len();
        let b = a + 2 + g1.len();
        assert(rest.len() == g0.len() + 2 + g1.len() + 1 + g2.len());
        assert forall|q: int| k <= q < a implies is_ws_char(#[trigger] t[q]) by {
            assert(t[q] == rest[q - k]);
            assert(rest[q - k] == g0[q - k]);
        }
        assert(t[a] == ':') by { assert(rest[g0.len() as int] == sep_chars()[0]); }
        assert(t[a + 1] == ':') by { assert(rest[g0.len() as int + 1] == sep_chars()[1]); }
        lemma_skip_ws_exact(t, k, a);
        assert(at_sep(t, a));
        assert forall|q: int| a + 2 <= q < b implies is_ws_char(#[trigger] t[q]) by {
            assert(t[q] == rest[q - k]);
            assert(rest[q - k] == g1[q - k - g0.len() - 2]);
        }
        assert(t[b] == '*') by {
            assert(rest[b - k] == star_marker()[0]);
        }
        lemma_skip_ws_exact(t, a + 2, b);
        assert forall|q: int| b + 1 <= q < t.len() implies is_ws_char(#[trigger] t[q]) by {
            assert(t[q] == rest[q - k]);
            assert(rest[q - k] == g2[q - k - g0.len() - 2 - g1.len() - 1]);
        }
        lemma_skip_ws_exact(t, b + 1, t.len() as int);
        assert(skip_ws(t, k) != t.len());
        assert(parse_tail(t, k) == Ok::<(Seq<Seq<char>>, bool), ParseErrorModel>(
            (Seq::<Seq<char>>::empty(), true),
        ));
        assert(segs =~= Seq::<Seq<char>>::empty());
    } else {
        let g0 = gaps[0];
        let g1 = gaps[1];
        let seg = segs[0];
        let rest2 = tail_layout(segs.drop_first(), wildcard, gaps.skip(2));
        assert(rest == g0 + sep_chars() + g1 + seg + rest2);
        let a = k + g0.len();
        let b = a + 2 + g1.len();
        let c = b + seg.len();
        assert(rest.len() == g0.len() + 2 + g1.len() + seg.len() + rest2.len());
        assert forall|q: int| k <= q < a implies is_ws_char(#[trigger] t[q]) by {
            assert(t[q] == rest[q - k]);
            assert(rest[q - k] == g0[q - k]);
        }
        assert(t[a] == ':') by { assert(rest[g0.len() as int] == sep_chars()[0]); }
        assert(t[a + 1] == ':') by { assert(rest[g0.len() as int + 1] == sep_chars()[1]); }
        lemma_skip_ws_exact(t, k, a);
        assert(at_sep(t, a));
        assert forall|q: int| a + 2 <= q < b implies is_ws_char(#[trigger] t[q]) by {
            assert(t[q] == rest[q - k]);
            assert(rest[q - k] == g1[q - k - g0.len() - 2]);
        }
        assert(is_ident(seg));
        assert forall|q: int| b <= q < c implies is_ident_char(#[trigger] t[q]) by {
            assert(t[q] == rest[q - k]);
            assert(rest[q - k] == seg[q - b]);
        }
        assert(t[b] == seg[0]) by { assert(rest[b - k] == seg[0]); }
        lemma_skip_ws_exact(t, a + 2, b);
        assert(skip_ws(t, k) != t.len());
        assert(t[b] != '*');
        assert(is_ident_start_char(t[b]));
        lemma_tail_layout_head(segs.drop_first(), wildcard, gaps.skip(2));
        assert(c == t.len() || !is_ident_char(t[c])) by {
            if c < t.len() {
                assert(t[c] == rest[c - k]);
                assert(rest[c - k] == rest2[0]);
            }
        }
        lemma_ident_end_exact(t, b, c);
        assert(t.subrange(b, c) =~= seg) by {
            assert forall|q: int| 0 <= q < seg.len() implies #[trigger] t.subrange(b, c)[q]
                == seg[q] by {
                assert(t.subrange(b, c)[q] == t[b + q]);
                assert(t[b + q] == rest[b + q - k]);
                assert(rest[b + q - k] == seg[q]);
            }
        }
        assert(t.skip(c) =~= rest2) by {
            assert forall|q: int| 0 <= q < rest2.len() implies #[trigger] t.skip(c)[q]
                == rest2[q] by {
                assert(t.skip(c)[q] == t[c + q]);
                assert(t[c + q] == rest[c + q - k]);
                assert(rest[c + q - k] == rest2[q]);
            }
        }
        assert(all_ws_texts(gaps.skip(2))) by {
            assert forall|i: int| 0 <= i < gaps.skip(2).len() implies ws_text(
                #[trigger] gaps.skip(2)[i],
            ) by {
                assert(gaps.skip(2)[i] == gaps[i + 2]);
            }
        }
        assert(forall|i: int|
            0 <= i < segs.drop_first().len() ==> is_ident(#[trigger] segs.drop_first()[i]));
        lemma_parse_tail_layout(t, c, segs.drop_first(), wildcard, gaps.skip(2));
        assert(seq![t.subrange(b, c)] + segs.drop_first() =~= segs);
    }
}

/// Parsing the mandatory segments after a prefix is insensitive to the
/// whitespace layout.
proof fn lemma_parse_segments_layout(
    t: Seq<char>,
    i: int,
    prefix: PathPrefix,
    segs: Seq<Seq<char>>,
    wildcard: bool,
    gaps: Seq<Seq<char>>,
)
    requires
        0 <= i <= t.len(),
        t.skip(i) == gaps[0] + segs[0] + tail_layout(segs.drop_first(), wildcard, gaps.skip(1)),
        all_ws_texts(gaps),
        gaps.len() == 1 + tail_gap_count(segs.len() - 1, wildcard),
        segs.len() >= 1,
        forall|q: int| 0 <= q < segs.len() ==> is_ident(#[trigger] segs[q]),
    ensures
        parse_segments(t, prefix, i) == Ok::<PathModel, ParseErrorModel>(
            PathModel { prefix, segments: segs, wildcard },
        ),
{
    lemma_char_classes();
    let rest = t.skip(i);
    assert(forall|q: int| 0 <= q < rest.len() ==> rest[q] == t[i + q]);
    let g0 = gaps[0];
    let seg = segs[0];
    let rest2 = tail_layout(segs.drop_first(), wildcard, gaps.skip(1));
    let b = i + g0.len();
    let c = b + seg.len();
    assert(rest.len() == g0.len() + seg.len() + rest2.len());
    assert forall|q: int| i <= q < b implies is_ws_char(#[trigger] t[q]) by {
        assert(t[q] == rest[q - i]);
        assert(rest[q - i] == g0[q - i]);
    }
    assert(is_ident(seg));
    assert forall|q: int| b <= q < c implies is_ident_char(#[trigger] t[q]) by {
        assert(t[q] == rest[q - i]);
        assert(rest[q - i] == seg[q - b]);
    }
    assert(t[b] == seg[0]) by { assert(rest[b - i] == seg[0]); }
    lemma_skip_ws_exact(t, i, b);
    assert(is_ident_start_char(t[b]));
    lemma_tail_layout_head(segs.drop_first(), wildcard, gaps.skip(1));
    assert(c == t.len() || !is_ident_char(t[c])) by {
        if c < t.len() {
            assert(t[c] == rest[c - i]);
            assert(rest[c - i] == rest2[0]);
        }
    }
    lemma_ident_end_exact(t, b, c);
    assert(t.subrange(b, c) =~= seg) by {
        assert forall|q: int| 0 <= q < seg.len() implies #[trigger] t.subrange(b, c)[q]
            == seg[q] by {
            assert(t.subrange(b, c)[q] == t[b + q]);
            assert(t[b + q] == rest[b + q - i]);
            assert(rest[b + q - i] == seg[q]);
        }
    }
    assert(t.skip(c) =~= rest2) by {
        assert forall|q: int| 0 <= q < rest2.len() implies #[trigger] t.skip(c)[q] == rest2[q] by {
            assert(t.skip(c)[q] == t[c + q]);
            assert(t[c + q] == rest[c + q - i]);
            assert(rest[c + q - i] == rest2[q]);
        }
    }
    assert(all_ws_texts(gaps.skip(1))) by {
        assert forall|q: int| 0 <= q < gaps.skip(1).len() implies ws_text(
            #[trigger] gaps.skip(1)[q],
        ) by {
            assert(gaps.skip(1)[q] == gaps[q + 1]);
        }
    }
    assert(forall|q: int|
        0 <= q < segs.drop_first().len() ==> is_ident(#[trigger] segs.drop_first()[q]));
    lemma_parse_tail_layout(t, c, segs.drop_first(), wildcard, gaps.skip(1));
    assert(seq![t.subrange(b, c)] + segs.drop_first() =~= segs);
    assert(parse_segments(t, prefix, i)->Ok_0 =~= PathModel { prefix, segments: segs, wildcard });
}

/// Whitespace between path tokens carries no meaning. Under every
/// whitespace layout — any amount of tabs, newlines, carriage returns and
/// spaces in any gap between two tokens, including none — the text of a
/// well-formed path parses to exactly that path, so the rendered output
/// and the synthesized constant name are byte-identical to those of the
/// whitespace-free form.
pub proof fn lemma_whitespace_insensitive(m: PathModel, gaps: Seq<Seq<char>>)
    requires
        wf_model(m),
        all_ws_texts(gaps),
        gaps.len() == layout_gap_count(m),
    ensures
        parse_path_spec(path_layout(m, gaps)) == Ok::<PathModel, ParseErrorModel>(m),
{
    lemma_char_classes();
    let t = path_layout(m, gaps);
    let g0 = gaps[0];
    let segs = m.segments;
    match m.prefix {
        PathPrefix::RootAbsolute => {
            let tail = gaps[1] + segs[0] + tail_layout(segs.drop_first(), m.wildcard, gaps.skip(2));
            assert(t == g0 + sep_chars() + tail);
            let a = g0.len() as int;
            assert(t.len() == g0.len() + 2 + tail.len());
            assert forall|q: int| 0 <= q < a implies is_ws_char(#[trigger] t[q]) by {
                assert(t[q] == g0[q]);
            }
            assert(t[a] == ':') by { assert(t[a] == sep_chars()[0]); }
            assert(t[a + 1] == ':') by { assert(t[a + 1] == sep_chars()[1]); }
            lemma_skip_ws_exact(t, 0, a);
            assert(at_sep(t, a));
            assert(t.skip(a + 2) =~= tail) by {
                assert forall|q: int| 0 <= q < tail.len() implies #[trigger] t.skip(a + 2)[q]
                    == tail[q] by {
                    assert(t.skip(a + 2)[q] == t[a + 2 + q]);
                }
            }
            assert(gaps.skip(1).skip(1) =~= gaps.skip(2));
            assert(all_ws_texts(gaps.skip(1))) by {
                assert forall|q: int| 0 <= q < gaps.skip(1).len() implies ws_text(
                    #[trigger] gaps.skip(1)[q],
                ) by {
                    assert(gaps.skip(1)[q] == gaps[q + 1]);
                }
            }
            assert(gaps.skip(1)[0] == gaps[1]);
            lemma_parse_segments_layout(
                t,
                a + 2,
                PathPrefix::RootAbsolute,
                segs,
                m.wildcard,
                gaps.skip(1),
            );
            assert(PathModel { prefix: PathPrefix::RootAbsolute, segments: segs, wildcard: m.wildcard }
                =~= m);
        },
        PathPrefix::SelfCrate => {
            let g1 = gaps[1];
            let g2 = gaps[2];
            let kw = prefix_marker(PathPrefix::SelfCrate);
            let tail = g2 + segs[0] + tail_layout(segs.drop_first(), m.wildcard, gaps.skip(3));
            assert(t == g0 + kw + g1 + sep_chars() + tail);
            let a = g0.len() as int;
            let p = a + 5;
            let sp = p + g1.len();
            assert(t.len() == g0.len() + 5 + g1.len() + 2 + tail.len());
            assert forall|q: int| 0 <= q < a implies is_ws_char(#[trigger] t[q]) by {
                assert(t[q] == g0[q]);
            }
            assert(is_ident_char('c') && is_ident_char('r') && is_ident_char('a') && is_ident_char(
                't',
            ) && is_ident_char('e'));
            assert(is_ident_start_char('c'));
            assert(t[a] == 'c') by { assert(t[a] == kw[0]); }
            assert forall|q: int| a <= q < p implies is_ident_char(#[trigger] t[q]) by {
                assert(t[q] == kw[q - a]);
            }
            lemma_skip_ws_exact(t, 0, a);
            assert(!at_sep(t, a)) by {
                assert(('c' as u32) != (':' as u32));
            }
            assert(p == t.len() || !is_ident_char(t[p])) by {
                if g1.len() > 0 {
                    assert(t[p] == g1[0]);
                } else {
                    assert(t[p] == sep_chars()[0]);
                }
            }
            lemma_ident_end_exact(t, a, p);
            assert(t.subrange(a, p) =~= kw) by {
                assert forall|q: int| 0 <= q < 5 implies #[trigger] t.subrange(a, p)[q]
                    == kw[q] by {
                    assert(t.subrange(a, p)[q] == t[a + q]);
                }
            }
            assert forall|q: int| p <= q < sp implies is_ws_char(#[trigger] t[q]) by {
                assert(t[q] == g1[q - p]);
            }
            assert(t[sp] == ':') by { assert(t[sp] == sep_chars()[0]); }
            assert(t[sp + 1] == ':') by { assert(t[sp + 1] == sep_chars()[1]); }
            lemma_skip_ws_exact(t, p, sp);
            assert(at_sep(t, sp));
            assert(t.skip(sp + 2) =~= tail) by {
                assert forall|q: int| 0 <= q < tail.len() implies #[trigger] t.skip(sp + 2)[q]
                    == tail[q] by {
                    assert(t.skip(sp + 2)[q] == t[sp + 2 + q]);
                }
            }
            assert(gaps.skip(2).skip(1) =~= gaps.skip(3));
            assert(all_ws_texts(gaps.skip(2))) by {
                assert forall|q: int| 0 <= q < gaps.skip(2).len() implies ws_text(
                    #[trigger] gaps.skip(2)[q],
                ) by {
                    assert(gaps.skip(2)[q] == gaps[q + 2]);
                }
            }
            assert(gaps.skip(2)[0] == gaps[2]);
            lemma_parse_segments_layout(
                t,
                sp + 2,
                PathPrefix::SelfCrate,
                segs,
                m.wildcard,
                gaps.skip(2),
            );
            assert(PathModel { prefix: PathPrefix::SelfCrate, segments: segs, wildcard: m.wildcard }
                =~= m);
        },
    }
}

/// Two whitespace layouts of the same path — the whitespace-free form
/// among them — parse alike and render byte-identically.
pub proof fn lemma_layouts_render_identically(
    m: PathModel,
    gaps1: Seq<Seq<char>>,
    gaps2: Seq<Seq<char>>,
)
    requires
        wf_model(m),
        all_ws_texts(gaps1),
        all_ws_texts(gaps2),
        gaps1.len() == layout_gap_count(m),
        gaps2.len() == layout_gap_count(m),
    ensures
        parse_path_spec(path_layout(m, gaps1)) == parse_path_spec(path_layout(m, gaps2)),
        rendered_of(parse_path_spec(path_layout(m, gaps1))->Ok_0) == rendered_of(
            parse_path_spec(path_layout(m, gaps2))->Ok_0,
        ),
{
    lemma_whitespace_insensitive(m, gaps1);
    lemma_whitespace_insensitive(m, gaps2);
}

/// The wildcard suffix as source text.
pub open spec fn wildcard_suffix() -> Seq<char> {
    seq![':', ':', '*']
}

proof fn lemma_skip_ws_extend(s: Seq<char>, ext: Seq<char>, i: int)
    requires
        0 <= i <= s.len(),
        ext.len() > 0,
        !is_ws_char(ext[0]),
    ensures
        skip_ws(s + ext, i) == skip_ws(s, i),
    decreases s.len() - i,
{
    let e = s + ext;
    if i < s.len() && is_ws_char(s[i]) {
        assert(e[i] == s[i]);
        lemma_skip_ws_extend(s, ext, i + 1);
    } else if i == s.len() {
        assert(e[i] == ext[0]);
    } else {
        assert(e[i] == s[i]);
    }
}

proof fn lemma_ident_end_extend(s: Seq<char>, ext: Seq<char>, i: int)
    requires
        0 <= i <= s.len(),
        ext.len() > 0,
        !is_ident_char(ext[0]),
    ensures
        ident_end(s + ext, i) == ident_end(s, i),
    decreases s.len() - i,
{
    let e = s + ext;
    if i < s.len() && is_ident_char(s[i]) {
        assert(e[i] == s[i]);
        lemma_ident_end_extend(s, ext, i + 1);
    } else if i == s.len() {
        assert(e[i] == ext[0]);
    } else {
        assert(e[i] == s[i]);
    }
}

proof fn lemma_parse_tail_extend(s: Seq<char>, k: int)
    requires
        0 <= k <= s.len(),
        parse_tail(s, k) is Ok,
        !parse_tail(s, k)->Ok_0.1,
    ensures
        parse_tail(s + wildcard_suffix(), k) == Ok::<(Seq<Seq<char>>, bool), ParseErrorModel>(
            (parse_tail(s, k)->Ok_0.0, true),
        ),
    decreases s.len() - k,
{
    lemma_char_classes();
    let e = s + wildcard_suffix();
    assert(wildcard_suffix()[0] == ':');
    lemma_skip_ws_extend(s, wildcard_suffix(), k);
    lemma_skip_ws_bounds(s, k);
    let j = skip_ws(s, k);
    if j == s.len() {
        assert(e[j] == ':');
        assert(e[j + 1] == ':');
        assert(at_sep(e, j));
        assert(e[j + 2] == '*');
        assert(skip_ws(e, j + 2) == j + 2);
        assert(skip_ws(e, j + 3) == j + 3);
        assert(j + 3 == e.len());
    } else {
        assert(at_sep(s, j));
        assert(e[j] == s[j] && e[j + 1] == s[j + 1]);
        assert(at_sep(e, j));
        let m = skip_ws(s, j + 2);
        lemma_skip_ws_extend(s, wildcard_suffix(), j + 2);
        lemma_skip_ws_bounds(s, j + 2);
        if m < s.len() && s[m] == '*' {
            assert(false);
        }
        assert(m < s.len() && is_ident_start_char(s[m]));
        assert(e[m] == s[m]);
        assert(e[m] != '*');
        let k2 = ident_end(s, m);
        lemma_ident_end_extend(s, wildcard_suffix(), m);
        lemma_ident_end_bounds(s, m);
        lemma_ident_end_bounds(s, m + 1);
        assert(ident_end(s, m) == ident_end(s, m + 1));
        assert(e.subrange(m, k2) =~= s.subrange(m, k2)) by {
            assert forall|q: int| 0 <= q < k2 - m implies #[trigger] e.subrange(m, k2)[q]
                == s.subrange(m, k2)[q] by {
                assert(e.subrange(m, k2)[q] == e[m + q]);
                assert(e[m + q] == s[m + q]);
                assert(s.subrange(m, k2)[q] == s[m + q]);
            }
        }
        lemma_parse_tail_extend(s, k2);
    }
}

proof fn lemma_parse_segments_extend(s: Seq<char>, prefix: PathPrefix, i: int)
    requires
        0 <= i <= s.len(),
        parse_segments(s, prefix, i) is Ok,
        !parse_segments(s, prefix, i)->Ok_0.wildcard,
    ensures
        parse_segments(s + wildcard_suffix(), prefix, i) == Ok::<PathModel, ParseErrorModel>(
            PathModel { wildcard: true, ..parse_segments(s, prefix, i)->Ok_0 },
        ),
{
    lemma_char_classes();
    let e = s + wildcard_suffix();
    lemma_skip_ws_extend(s, wildcard_suffix(), i);
    lemma_skip_ws_bounds(s, i);
    let j = skip_ws(s, i);
    assert(j < s.len() && is_ident_start_char(s[j]));
    assert(e[j] == s[j]);
    let k = ident_end(s, j);
    lemma_ident_end_extend(s, wildcard_suffix(), j);
    lemma_ident_end_bounds(s, j);
    assert(e.subrange(j, k) =~= s.subrange(j, k)) by {
        assert forall|q: int| 0 <= q < k - j implies #[trigger] e.subrange(j, k)[q] == s.subrange(
            j,
            k,
        )[q] by {
            assert(e.subrange(j, k)[q] == e[j + q]);
            assert(e[j + q] == s[j + q]);
            assert(s.subrange(j, k)[q] == s[j + q]);
        }
    }
    lemma_parse_tail_extend(s, k);
    assert(parse_segments(e, prefix, i)->Ok_0 =~= PathModel {
        wildcard: true,
        ..parse_segments(s, prefix, i)->Ok_0
    });
}

/// Appending the wildcard suffix `::*` to the text of any valid
/// non-wildcarded path yields a valid path again, identical but for the
/// wildcard: its rendered output is the old output with exactly one
/// trailing `"*"` element added, and nothing else changed.
pub proof fn lemma_append_wildcard_suffix(s: Seq<char>)
    requires
        valid_path(s),
        !parse_path_spec(s)->Ok_0.wildcard,
    ensures
        valid_path(s + wildcard_suffix()),
        parse_path_spec(s + wildcard_suffix()) == Ok::<PathModel, ParseErrorModel>(
            PathModel { wildcard: true, ..parse_path_spec(s)->Ok_0 },
        ),
        rendered_of(parse_path_spec(s + wildcard_suffix())->Ok_0) == rendered_of(
            parse_path_spec(s)->Ok_0,
        ).push(star_marker()),
{
    lemma_char_classes();
    let e = s + wildcard_suffix();
    lemma_skip_ws_extend(s, wildcard_suffix(), 0);
    lemma_skip_ws_bounds(s, 0);
    let i0 = skip_ws(s, 0);
    if at_sep(s, i0) {
        assert(e[i0] == s[i0] && e[i0 + 1] == s[i0 + 1]);
        assert(at_sep(e, i0));
        lemma_parse_segments_extend(s, PathPrefix::RootAbsolute, i0 + 2);
    } else {
        assert(i0 < s.len() && is_ident_start_char(s[i0]));
        assert(s[i0] != ':');
        assert(e[i0] == s[i0]);
        assert(!at_sep(e, i0));
        let k = ident_end(s, i0);
        lemma_ident_end_extend(s, wildcard_suffix(), i0);
        lemma_ident_end_bounds(s, i0);
        assert(e.subrange(i0, k) =~= s.subrange(i0, k)) by {
            assert forall|q: int| 0 <= q < k - i0 implies #[trigger] e.subrange(i0, k)[q]
                == s.subrange(i0, k)[q] by {
                assert(e.subrange(i0, k)[q] == e[i0 + q]);
                assert(e[i0 + q] == s[i0 + q]);
                assert(s.subrange(i0, k)[q] == s[i0 + q]);
            }
        }
        let j2 = skip_ws(s, k);
        lemma_skip_ws_extend(s, wildcard_suffix(), k);
        lemma_skip_ws_bounds(s, k);
        assert(at_sep(s, j2));
        assert(e[j2] == s[j2] && e[j2 + 1] == s[j2 + 1]);
        assert(at_sep(e, j2));
        lemma_parse_segments_extend(s, PathPrefix::SelfCrate, j2 + 2);
    }
    lemma_wildcard_adds_star(parse_path_spec(s)->Ok_0);
    assert(rendered_of(parse_path_spec(e)->Ok_0) == rendered_of(parse_path_spec(s)->Ok_0).push(
        star_marker(),
    ));
}

/// Some contiguous span of `s` is exactly `seg`.
pub open spec fn verbatim_span_of(s: Seq<char>, seg: Seq<char>) -> bool {
    exists|a: int, b: int| 0 <= a <= b <= s.len() && seg == s.subrange(a, b)
}

proof fn lemma_parse_tail_verbatim(s: Seq<char>, k: int)
    requires
        0 <= k,
    ensures
        parse_tail(s, k) is Ok ==> (forall|i: int|
            0 <= i < parse_tail(s, k)->Ok_0.0.len() ==> verbatim_span_of(
                s,
                #[trigger] parse_tail(s, k)->Ok_0.0[i],
            )),
    decreases s.len() - k,
{
    let j = skip_ws(s, k);
    lemma_skip_ws_bounds(s, k);
    if j != s.len() && at_sep(s, j) {
        let m = skip_ws(s, j + 2);
        lemma_skip_ws_bounds(s, j + 2);
        if !(m < s.len() && s[m] == '*') && m < s.len() && is_ident_start_char(s[m]) {
            let k2 = ident_end(s, m);
            lemma_ident_end_bounds(s, m);
            lemma_parse_tail_verbatim(s, k2);
            if parse_tail(s, k) is Ok {
                let whole = parse_tail(s, k)->Ok_0;
                let tail = parse_tail(s, k2)->Ok_0;
                assert(whole.0 == seq![s.subrange(m, k2)] + tail.0);
                assert forall|i: int| 0 <= i < whole.0.len() implies verbatim_span_of(
                    s,
                    #[trigger] whole.0[i],
                ) by {
                    if i == 0 {
                        assert(0 <= m <= k2 <= s.len() && whole.0[0] == s.subrange(m, k2));
                    } else {
                        assert(whole.0[i] == tail.0[i - 1]);
                    }
                }
            }
        }
    }
}

proof fn lemma_parse_segments_verbatim(s: Seq<char>, prefix: PathPrefix, i0: int)
    requires
        0 <= i0,
    ensures
        parse_segments(s, prefix, i0) is Ok ==> (forall|i: int|
            0 <= i < parse_segments(s, prefix, i0)->Ok_0.segments.len() ==> verbatim_span_of(
                s,
                #[trigger] parse_segments(s, prefix, i0)->Ok_0.segments[i],
            )),
{
    let j = skip_ws(s, i0);
    lemma_skip_ws_bounds(s, i0);
    if j < s.len() && is_ident_start_char(s[j]) {
        let k = ident_end(s, j);
        lemma_ident_end_bounds(s, j);
        lemma_parse_tail_verbatim(s, k);
        if parse_segments(s, prefix, i0) is Ok {
            let whole = parse_segments(s, prefix, i0)->Ok_0;
            let tail = parse_tail(s, k)->Ok_0;
            assert(whole.segments == seq![s.subrange(j, k)] + tail.0);
            assert forall|i: int| 0 <= i < whole.segments.len() implies verbatim_span_of(
                s,
                #[trigger] whole.segments[i],
            ) by {
                if i == 0 {
                    assert(0 <= j <= k <= s.len() && whole.segments[0] == s.subrange(j, k));
                } else {
                    assert(whole.segments[i] == tail.0[i - 1]);
                }
            }
        }
    }
}

/// Every segment of a parsed path stands verbatim in the source text as a
/// contiguous span of it: parsing copies identifier text - non-ASCII
/// characters included - and never alters it.
pub proof fn lemma_segments_verbatim(s: Seq<char>)
    requires
        valid_path(s),
    ensures
        forall|i: int|
            0 <= i < parse_path_spec(s)->Ok_0.segments.len() ==> verbatim_span_of(
                s,
                #[trigger] parse_path_spec(s)->Ok_0.segments[i],
            ),
{
    let i0 = skip_ws(s, 0);
    lemma_skip_ws_bounds(s, 0);
    lemma_ident_end_bounds(s, i0);
    lemma_skip_ws_bounds(s, ident_end(s, i0));
    let m = parse_path_spec(s)->Ok_0;
    let pfx = m.prefix;
    let start: int = if at_sep(s, i0) {
        i0 + 2
    } else {
        skip_ws(s, ident_end(s, i0)) + 2
    };
    lemma_parse_segments_verbatim(s, pfx, start);
    assert(m == parse_segments(s, pfx, start)->Ok_0);
    assert forall|i: int| 0 <= i < m.segments.len() implies verbatim_span_of(
        s,
        #[trigger] m.segments[i],
    ) by {
        assert(m.segments[i] == parse_segments(s, pfx, start)->Ok_0.segments[i]);
        assert(verbatim_span_of(s, parse_segments(s, pfx, start)->Ok_0.segments[i]));
    }
}

/// A valid root-absolute path with N segments and no wildcard renders to
/// exactly N + 1 elements, and the first element is `"::"`.
pub proof fn lemma_root_absolute_rendered(s: Seq<char>)
    requires
        valid_path(s),
        parse_path_spec(s)->Ok_0.prefix is RootAbsolute,
        !parse_path_spec(s)->Ok_0.wildcard,
    ensures
        rendered_of(parse_path_spec(s)->Ok_0).len() == parse_path_spec(s)->Ok_0.segments.len()
            + 1,
        rendered_of(parse_path_spec(s)->Ok_0)[0] == prefix_marker(PathPrefix::RootAbsolute),
        parse_path_spec(s)->Ok_0.segments.len() >= 1,
{
    lemma_parse_wf(s);
    let m = parse_path_spec(s)->Ok_0;
    assert(rendered_of(m) =~= seq![prefix_marker(m.prefix)] + m.segments);
}

/// A valid crate-relative path renders with `"crate"` as its first element
/// — never `"::"`.
pub proof fn lemma_crate_relative_first(s: Seq<char>)
    requires
        valid_path(s),
        parse_path_spec(s)->Ok_0.prefix is SelfCrate,
    ensures
        rendered_of(parse_path_spec(s)->Ok_0)[0] == prefix_marker(PathPrefix::SelfCrate),
        rendered_of(parse_path_spec(s)->Ok_0)[0] != prefix_marker(PathPrefix::RootAbsolute),
{
    assert(prefix_marker(PathPrefix::SelfCrate).len() == 5);
    assert(prefix_marker(PathPrefix::RootAbsolute).len() == 2);
}

/// Turning the wildcard on adds exactly one trailing `"*"` element to the
/// rendered output and changes nothing else.
pub proof fn lemma_wildcard_adds_star(m: PathModel)
    requires
        !m.wildcard,
    ensures
        rendered_of(PathModel { wildcard: true, ..m }) == rendered_of(m).push(star_marker()),
{
    assert(rendered_of(PathModel { wildcard: true, ..m }) =~= rendered_of(m).push(star_marker()));
}

/// Re-deriving the outputs from equivalent inputs changes nothing: texts
/// that parse alike render alike and synthesize the same constant name.
/// With `s1 == s2` this is the purity of a single derivation re-run.
pub proof fn lemma_derivation_deterministic(s1: Seq<char>, s2: Seq<char>)
    requires
        valid_path(s1),
        parse_path_spec(s1) == parse_path_spec(s2),
    ensures
        rendered_of(parse_path_spec(s1)->Ok_0) == rendered_of(parse_path_spec(s2)->Ok_0),
        const_name_of(rendered_of(parse_path_spec(s1)->Ok_0)) == const_name_of(
            rendered_of(parse_path_spec(s2)->Ok_0),
        ),
{
}

} // verus!
