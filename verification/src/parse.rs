//! The path grammar parser.
//!
//! A path is `::` or `crate ::`, then one or more identifier segments
//! separated by `::`, then an optional wildcard suffix `:: *`. Whitespace
//! (the four ASCII codes) may stand between any two tokens and carries no
//! meaning. A separator's two colons must be immediately adjacent; a lone
//! colon never forms one. The specification-level parser below is the single
//! definition of the grammar; the executable parser returns exactly its
//! result, success and failure alike.

use vstd::prelude::*;

use crate::path::{PathModel, PathPrefix, TypePath, prefix_marker};
use crate::trim::is_ws_char;

verus! {

/// Identifier characters of the restricted lexical grammar: ASCII letters,
/// digits, underscore, and every character beyond ASCII (non-ASCII
/// identifier text passes through unchanged).
pub open spec fn is_ident_char(c: char) -> bool {
    (c as u32) == 95 || (97 <= (c as u32) && (c as u32) <= 122) || (65 <= (c as u32) && (c as u32)
        <= 90) || (48 <= (c as u32) && (c as u32) <= 57) || (c as u32) >= 128
}

/// A segment may not begin with an ASCII digit.
pub open spec fn is_ident_start_char(c: char) -> bool {
    is_ident_char(c) && !(48 <= (c as u32) && (c as u32) <= 57)
}

/// A syntactically valid segment: non-empty, a valid start character,
/// identifier characters throughout.
pub open spec fn is_ident(s: Seq<char>) -> bool {
    s.len() > 0 && is_ident_start_char(s[0]) && (forall|i: int|
        0 <= i < s.len() ==> is_ident_char(s[i]))
}

/// Position of the first non-whitespace character at or after `i`.
pub open spec fn skip_ws(s: Seq<char>, i: int) -> int
    decreases s.len() - i,
{
    if i < s.len() && is_ws_char(s[i]) {
        skip_ws(s, i + 1)
    } else {
        i
    }
}

/// End of the run of identifier characters beginning at `i`.
pub open spec fn ident_end(s: Seq<char>, i: int) -> int
    decreases s.len() - i,
{
    if i < s.len() && is_ident_char(s[i]) {
        ident_end(s, i + 1)
    } else {
        i
    }
}

pub proof fn lemma_skip_ws_bounds(s: Seq<char>, i: int)
    ensures
        i <= skip_ws(s, i),
        i <= s.len() ==> skip_ws(s, i) <= s.len(),
        forall|k: int| i <= k < skip_ws(s, i) ==> is_ws_char(s[k]),
        skip_ws(s, i) < s.len() ==> !is_ws_char(s[skip_ws(s, i)]),
    decreases s.len() - i,
{
    if i < s.len() && is_ws_char(s[i]) {
        lemma_skip_ws_bounds(s, i + 1);
    }
}

pub proof fn lemma_ident_end_bounds(s: Seq<char>, i: int)
    ensures
        i <= ident_end(s, i),
        i <= s.len() ==> ident_end(s, i) <= s.len(),
        forall|k: int| i <= k < ident_end(s, i) ==> is_ident_char(s[k]),
        ident_end(s, i) < s.len() ==> !is_ident_char(s[ident_end(s, i)]),
    decreases s.len() - i,
{
    if i < s.len() && is_ident_char(s[i]) {
        lemma_ident_end_bounds(s, i + 1);
    }
}

/// A separator: two immediately adjacent colons at `i`.
pub open spec fn at_sep(s: Seq<char>, i: int) -> bool {
    0 <= i && i + 1 < s.len() && s[i] == ':' && s[i + 1] == ':'
}

/// Why parsing failed. Parsing either fully succeeds or reports one of
/// these at the offending position; there is no partial result.
#[derive(Clone, Copy, Debug, PartialEq, Eq, Structural)]
pub enum ParseErrorKind {
    /// The path begins with neither `::` nor `crate`.
    ExpectedPrefix,
    /// `crate` is not followed by a `::` separator.
    ExpectedPathSep,
    /// An identifier segment is missing: after the prefix, or after a
    /// separator, there stands neither an identifier nor (past the first
    /// segment) a wildcard star. A trailing bare `::` lands here.
    ExpectedIdent,
    /// Leftover input after a complete path: a stray token where only a
    /// separator or the end may stand, or anything past the wildcard.
    TrailingInput,
}

/// A grammar error, with the character position of the offending token.
#[derive(Clone, Copy, Debug, PartialEq, Eq, Structural)]
pub struct ParseError {
    pub kind: ParseErrorKind,
    pub pos: usize,
}

/// The model of a grammar error; the position is unbounded here.
pub struct ParseErrorModel {
    pub kind: ParseErrorKind,
    pub pos: int,
}

impl View for ParseError {
    type V = ParseErrorModel;

    open spec fn view(&self) -> ParseErrorModel {
        ParseErrorModel { kind: self.kind, pos: self.pos as int }
    }
}

/// Parses `("::" Identifier)* ("::" "*")?` followed by the end of input,
/// starting at `k` (just past a segment), and yields the further segments
/// and the wildcard flag.
pub open spec fn parse_tail(s: Seq<char>, k: int) -> Result<
    (Seq<Seq<char>>, bool),
    ParseErrorModel,
>
    decreases s.len() - k,
    via parse_tail_decreases
{
    let j = skip_ws(s, k);
    if j == s.len() {
        Ok((Seq::<Seq<char>>::empty(), false))
    } else if at_sep(s, j) {
        let m = skip_ws(s, j + 2);
        if m < s.len() && s[m] == '*' {
            let t = skip_ws(s, m + 1);
            if t == s.len() {
                Ok((Seq::<Seq<char>>::empty(), true))
            } else {
                Err(ParseErrorModel { kind: ParseErrorKind::TrailingInput, pos: t })
            }
        } else if m < s.len() && is_ident_start_char(s[m]) {
            let k2 = ident_end(s, m);
            match parse_tail(s, k2) {
                Ok(tail) => Ok((seq![s.subrange(m, k2)] + tail.0, tail.1)),
                Err(e) => Err(e),
            }
        } else {
            Err(ParseErrorModel { kind: ParseErrorKind::ExpectedIdent, pos: m })
        }
    } else {
        Err(ParseErrorModel { kind: ParseErrorKind::TrailingInput, pos: j })
    }
}

#[via_fn]
proof fn parse_tail_decreases(s: Seq<char>, k: int) {
    let j = skip_ws(s, k);
    lemma_skip_ws_bounds(s, k);
    if j != s.len() && at_sep(s, j) {
        let m = skip_ws(s, j + 2);
        lemma_skip_ws_bounds(s, j + 2);
        if !(m < s.len() && s[m] == '*') && m < s.len() && is_ident_start_char(s[m]) {
            lemma_ident_end_bounds(s, m);
            lemma_ident_end_bounds(s, m + 1);
            assert(ident_end(s, m) == ident_end(s, m + 1));
        }
    }
}

/// Parses the mandatory segments after a prefix, beginning at `i` (just
/// past the prefix's separator), and the rest of the path.
pub open spec fn parse_segments(s: Seq<char>, prefix: PathPrefix, i: int) -> Result<
    PathModel,
    ParseErrorModel,
> {
    let j = skip_ws(s, i);
    if j < s.len() && is_ident_start_char(s[j]) {
        let k = ident_end(s, j);
        match parse_tail(s, k) {
            Ok(tail) => Ok(
                PathModel { prefix, segments: seq![s.subrange(j, k)] + tail.0, wildcard: tail.1 },
            ),
            Err(e) => Err(e),
        }
    } else {
        Err(ParseErrorModel { kind: ParseErrorKind::ExpectedIdent, pos: j })
    }
}

/// The grammar, whole: what parsing the given source text yields, a path
/// model or the first grammar error.
pub open spec fn parse_path_spec(s: Seq<char>) -> Result<PathModel, ParseErrorModel> {
    let i = skip_ws(s, 0);
    if at_sep(s, i) {
        parse_segments(s, PathPrefix::RootAbsolute, i + 2)
    } else if i < s.len() && is_ident_start_char(s[i]) && s.subrange(i, ident_end(s, i))
        == prefix_marker(PathPrefix::SelfCrate) {
        let j = skip_ws(s, ident_end(s, i));
        if at_sep(s, j) {
            parse_segments(s, PathPrefix::SelfCrate, j + 2)
        } else {
            Err(ParseErrorModel { kind: ParseErrorKind::ExpectedPathSep, pos: j })
        }
    } else {
        Err(ParseErrorModel { kind: ParseErrorKind::ExpectedPrefix, pos: i })
    }
}

/// A source text holding a grammatically valid path.
pub open spec fn valid_path(s: Seq<char>) -> bool {
    parse_path_spec(s) is Ok
}

/// A structurally well-formed model: at least one segment, every segment a
/// valid identifier.
pub open spec fn wf_model(m: PathModel) -> bool {
    m.segments.len() >= 1 && (forall|i: int| 0 <= i < m.segments.len() ==> is_ident(m.segments[i]))
}

proof fn lemma_parse_tail_wf(s: Seq<char>, k: int)
    requires
        0 <= k,
    ensures
        parse_tail(s, k) is Ok ==> (forall|i: int|
            0 <= i < parse_tail(s, k)->Ok_0.0.len() ==> is_ident(#[trigger] parse_tail(s, k)->Ok_0.0[i])),
    decreases s.len() - k,
{
    let j = skip_ws(s, k);
    lemma_skip_ws_bounds(s, k);
    if j != s.len() && at_sep(s, j) {
        let m = skip_ws(s, j + 2);
        lemma_skip_ws_bounds(s, j + 2);
        if !(m < s.len() && s[m] == '*') && m < s.len() && is_ident_start_char(s[m]) {
            let k2 = ident_end(s, m);
            lemma_ident_end_bounds(s, m);
            lemma_ident_end_bounds(s, m + 1);
            lemma_parse_tail_wf(s, k2);
            if parse_tail(s, k) is Ok {
                let seg = s.subrange(m, k2);
                assert(is_ident_char(s[m]));
                assert(k2 >= m + 1);
                assert(seg.len() > 0);
                assert(seg[0] == s[m]);
                assert(forall|q: int| 0 <= q < seg.len() ==> seg[q] == s[m + q]);
                assert(is_ident(seg));
                let tail = parse_tail(s, k2)->Ok_0;
                let whole = parse_tail(s, k)->Ok_0;
                assert(whole.0 == seq![seg] + tail.0);
                assert(forall|i: int| 1 <= i < whole.0.len() ==> whole.0[i] == tail.0[i - 1]);
            }
        }
    }
}

/// Whatever parses is well-formed: at least one segment, and every segment
/// a non-empty identifier.
pub proof fn lemma_parse_wf(s: Seq<char>)
    ensures
        parse_path_spec(s) is Ok ==> wf_model(parse_path_spec(s)->Ok_0),
{
    let i = skip_ws(s, 0);
    lemma_skip_ws_bounds(s, 0);
    if parse_path_spec(s) is Ok {
        let m = parse_path_spec(s)->Ok_0;
        lemma_ident_end_bounds(s, i);
        lemma_skip_ws_bounds(s, ident_end(s, i));
        let start: int = if at_sep(s, i) {
            i + 2
        } else {
            skip_ws(s, ident_end(s, i)) + 2
        };
        lemma_parse_segments_wf(s, m.prefix, start);
    }
}

proof fn lemma_parse_segments_wf(s: Seq<char>, prefix: PathPrefix, i: int)
    requires
        0 <= i,
    ensures
        parse_segments(s, prefix, i) is Ok ==> wf_model(parse_segments(s, prefix, i)->Ok_0),
{
    let j = skip_ws(s, i);
    lemma_skip_ws_bounds(s, i);
    if j < s.len() && is_ident_start_char(s[j]) {
        let k = ident_end(s, j);
        lemma_ident_end_bounds(s, j);
        lemma_ident_end_bounds(s, j + 1);
        lemma_parse_tail_wf(s, k);
        if parse_tail(s, k) is Ok {
            let seg = s.subrange(j, k);
            assert(k >= j + 1);
            assert(seg.len() > 0);
            assert(seg[0] == s[j]);
            assert(forall|q: int| 0 <= q < seg.len() ==> seg[q] == s[j + q]);
            assert(is_ident(seg));
            let tail = parse_tail(s, k)->Ok_0;
            let whole = parse_segments(s, prefix, i)->Ok_0;
            assert(whole.segments == seq![seg] + tail.0);
            assert(forall|q: int| 1 <= q < whole.segments.len() ==> whole.segments[q] == tail.0[q - 1]);
        }
    }
}

fn is_ws_char_exec(c: char) -> (r: bool)
    ensures
        r == is_ws_char(c),
{
    c == '\t' || c == '\n' || c == '\r' || c == ' '
}

fn is_ident_char_exec(c: char) -> (r: bool)
    ensures
        r == is_ident_char(c),
{
    let u = c as u32;
    u == 95 || (97 <= u && u <= 122) || (65 <= u && u <= 90) || (48 <= u && u <= 57) || u >= 128
}

fn is_ident_start_char_exec(c: char) -> (r: bool)
    ensures
        r == is_ident_start_char(c),
{
    let u = c as u32;
    is_ident_char_exec(c) && !(48 <= u && u <= 57)
}

fn skip_ws_exec(s: &str, len: usize, i: usize) -> (r: usize)
    requires
        len == s@.len(),
        i <= len,
    ensures
        r == skip_ws(s@, i as int),
        i <= r <= len,
{
    let mut r = i;
    while r < len && is_ws_char_exec(s.get_char(r))
        invariant
            i <= r <= len,
            len == s@.len(),
            skip_ws(s@, i as int) == skip_ws(s@, r as int),
        decreases len - r,
    {
        proof {
            assert(skip_ws(s@, r as int) == skip_ws(s@, r as int + 1));
        }
        r = r + 1;
    }
    proof {
        assert(skip_ws(s@, r as int) == r as int);
    }
    r
}

fn ident_end_exec(s: &str, len: usize, i: usize) -> (r: usize)
    requires
        len == s@.len(),
        i <= len,
    ensures
        r == ident_end(s@, i as int),
        i <= r <= len,
{
    let mut r = i;
    while r < len && is_ident_char_exec(s.get_char(r))
        invariant
            i <= r <= len,
            len == s@.len(),
            ident_end(s@, i as int) == ident_end(s@, r as int),
        decreases len - r,
    {
        proof {
            assert(ident_end(s@, r as int) == ident_end(s@, r as int + 1));
        }
        r = r + 1;
    }
    proof {
        assert(ident_end(s@, r as int) == r as int);
    }
    r
}

fn at_sep_exec(s: &str, len: usize, i: usize) -> (r: bool)
    requires
        len == s@.len(),
        i <= len,
    ensures
        r == at_sep(s@, i as int),
{
    i < len && i + 1 < len && s.get_char(i) == ':' && s.get_char(i + 1) == ':'
}

/// Whether the characters `[j, k)` spell exactly `crate`.
fn is_crate_ident(s: &str, j: usize, k: usize) -> (r: bool)
    requires
        j <= k <= s@.len(),
    ensures
        r == (s@.subrange(j as int, k as int) == prefix_marker(PathPrefix::SelfCrate)),
{
    let ghost sub: Seq<char> = s@.subrange(j as int, k as int);
    if k - j == 5 && s.get_char(j) == 'c' && s.get_char(j + 1) == 'r' && s.get_char(j + 2) == 'a'
        && s.get_char(j + 3) == 't' && s.get_char(j + 4) == 'e' {
        proof {
            assert(sub =~= prefix_marker(PathPrefix::SelfCrate));
        }
        true
    } else {
        proof {
            if sub == prefix_marker(PathPrefix::SelfCrate) {
                assert(sub.len() == 5);
                assert(s@[j as int] == 'c') by { assert(sub[0] == 'c'); }
                assert(s@[j + 1] == 'r') by { assert(sub[1] == 'r'); }
                assert(s@[j + 2] == 'a') by { assert(sub[2] == 'a'); }
                assert(s@[j + 3] == 't') by { assert(sub[3] == 't'); }
                assert(s@[j + 4] == 'e') by { assert(sub[4] == 'e'); }
            }
        }
        false
    }
}

fn parse_tail_exec(s: &str, len: usize, k: usize) -> (r: Result<(Vec<String>, bool), ParseError>)
    requires
        len == s@.len(),
        k <= len,
    ensures
        match parse_tail(s@, k as int) {
            Ok(t) => r is Ok && r->Ok_0.0.deep_view() == t.0 && r->Ok_0.1 == t.1,
            Err(e) => r is Err && r->Err_0@ == e,
        },
    decreases len - k,
{
    let j = skip_ws_exec(s, len, k);
    if j == len {
        Ok((Vec::new(), false))
    } else if at_sep_exec(s, len, j) {
        let m = skip_ws_exec(s, len, j + 2);
        if m < len && s.get_char(m) == '*' {
            let t = skip_ws_exec(s, len, m + 1);
            if t == len {
                Ok((Vec::new(), true))
            } else {
                Err(ParseError { kind: ParseErrorKind::TrailingInput, pos: t })
            }
        } else if m < len && is_ident_start_char_exec(s.get_char(m)) {
            let k2 = ident_end_exec(s, len, m);
            proof {
                assert(ident_end(s@, m as int) == ident_end(s@, m as int + 1));
                lemma_ident_end_bounds(s@, m as int + 1);
            }
            let seg = s.substring_char(m, k2);
            match parse_tail_exec(s, len, k2) {
                Ok(tail) => {
                    let (mut segs, wildcard) = tail;
                    let ghost pre: Seq<Seq<char>> = segs.deep_view();
                    segs.insert(0, String::from_str(seg));
                    proof {
                        let t = parse_tail(s@, k as int)->Ok_0;
                        assert(segs.deep_view() =~= seq![s@.subrange(m as int, k2 as int)] + pre);
                    }
                    Ok((segs, wildcard))
                },
                Err(e) => Err(e),
            }
        } else {
            Err(ParseError { kind: ParseErrorKind::ExpectedIdent, pos: m })
        }
    } else {
        Err(ParseError { kind: ParseErrorKind::TrailingInput, pos: j })
    }
}

fn parse_segments_exec(s: &str, len: usize, prefix: PathPrefix, i: usize) -> (r: Result<
    TypePath,
    ParseError,
>)
    requires
        len == s@.len(),
        i <= len,
    ensures
        match parse_segments(s@, prefix, i as int) {
            Ok(m) => r is Ok && r->Ok_0@ == m,
            Err(e) => r is Err && r->Err_0@ == e,
        },
{
    let j = skip_ws_exec(s, len, i);
    if j < len && is_ident_start_char_exec(s.get_char(j)) {
        let k = ident_end_exec(s, len, j);
        let seg = s.substring_char(j, k);
        match parse_tail_exec(s, len, k) {
            Ok(tail) => {
                let (mut segs, wildcard) = tail;
                let ghost pre: Seq<Seq<char>> = segs.deep_view();
                segs.insert(0, String::from_str(seg));
                let path = TypePath { prefix, segments: segs, wildcard };
                proof {
                    assert(path.segments.deep_view() =~= seq![s@.subrange(j as int, k as int)]
                        + pre);
                }
                Ok(path)
            },
            Err(e) => Err(e),
        }
    } else {
        Err(ParseError { kind: ParseErrorKind::ExpectedIdent, pos: j })
    }
}

/// Parses a path from its source text. Succeeds exactly on grammatically
/// valid paths and returns their model; fails exactly with the grammar
/// error the specification assigns to the text.
pub fn parse_path(s: &str) -> (r: Result<TypePath, ParseError>)
    ensures
        match parse_path_spec(s@) {
            Ok(m) => r is Ok && r->Ok_0@ == m,
            Err(e) => r is Err && r->Err_0@ == e,
        },
        r is Ok <==> valid_path(s@),
{
    let len = s.unicode_len();
    let i = skip_ws_exec(s, len, 0);
    if at_sep_exec(s, len, i) {
        parse_segments_exec(s, len, PathPrefix::RootAbsolute, i + 2)
    } else if i < len && is_ident_start_char_exec(s.get_char(i)) {
        let k = ident_end_exec(s, len, i);
        if is_crate_ident(s, i, k) {
            let j = skip_ws_exec(s, len, k);
            if at_sep_exec(s, len, j) {
                parse_segments_exec(s, len, PathPrefix::SelfCrate, j + 2)
            } else {
                Err(ParseError { kind: ParseErrorKind::ExpectedPathSep, pos: j })
            }
        } else {
            Err(ParseError { kind: ParseErrorKind::ExpectedPrefix, pos: i })
        }
    } else {
        Err(ParseError { kind: ParseErrorKind::ExpectedPrefix, pos: i })
    }
}

} // verus!
