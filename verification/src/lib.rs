//! Compile-time type paths as verified string processing.
//!
//! A type path is a scoped chain of identifiers, rooted either at the global
//! namespace (`::std::io::BufWriter`) or at the current crate
//! (`crate::foo::bar`), optionally ending in a wildcard (`::std::io::*`).
//! This crate parses such a path from its source text, renders it as an
//! ordered sequence of string segments (prefix marker first, `"*"` last when
//! a wildcard is present), and can derive a synthetic constant name from the
//! rendered segments.

use vstd::prelude::*;

mod laws;
mod name;
mod parse;
mod path;
mod trim;

pub use laws::{
    all_ws_texts, layout_gap_count, lemma_append_wildcard_suffix, lemma_crate_relative_first,
    lemma_derivation_deterministic, lemma_layouts_render_identically,
    lemma_root_absolute_rendered, lemma_segments_verbatim,
    lemma_whitespace_insensitive, lemma_wildcard_adds_star, path_layout, tail_gap_count,
    tail_layout, verbatim_span_of, wildcard_suffix, ws_text,
};
pub use name::{PathConst, const_name_of, name_stem, upper_of};
pub use parse::{ParseError, ParseErrorKind, ParseErrorModel, parse_path};
pub use parse::{
    at_sep, ident_end, is_ident, is_ident_char, is_ident_start_char, lemma_parse_wf,
    parse_path_spec, parse_segments, parse_tail, skip_ws, valid_path, wf_model,
};
pub use path::{PathModel, PathPrefix, TypePath};
pub use path::{import_text_of, joined_segments, prefix_marker, rendered_of, sep_chars, star_marker};
pub use trim::{is_ws_byte, is_ws_char, lemma_trim_no_ws_identity, trim_ascii_whitespace, trimmed};

verus! {

/// The array-producing form: parses the path source text and renders it as
/// its ordered string segments — prefix marker first, each segment verbatim,
/// `"*"` last when a wildcard was present. Succeeds exactly on
/// grammatically valid paths; fails with the grammar error the
/// specification assigns to the text.
pub fn type_path(input: &str) -> (r: Result<Vec<String>, ParseError>)
    ensures
        match parse::parse_path_spec(input@) {
            Ok(m) => r is Ok && r->Ok_0.deep_view() == path::rendered_of(m),
            Err(e) => r is Err && r->Err_0@ == e,
        },
{
    match parse::parse_path(input) {
        Ok(p) => Ok(p.render()),
        Err(e) => Err(e),
    }
}

/// The named-constant form: parses the path source text and yields both the
/// synthesized constant name and the rendered segments that are its value.
pub fn inaccessible_type_path(input: &str) -> (r: Result<PathConst, ParseError>)
    ensures
        match parse::parse_path_spec(input@) {
            Ok(m) => r is Ok && r->Ok_0.name@ == name::const_name_of(path::rendered_of(m))
                && r->Ok_0.segments.deep_view() == path::rendered_of(m),
            Err(e) => r is Err && r->Err_0@ == e,
        },
{
    match parse::parse_path(input) {
        Ok(p) => {
            let name = p.const_name();
            let segments = p.render();
            Ok(PathConst { name, segments })
        },
        Err(e) => Err(e),
    }
}

} // verus!
