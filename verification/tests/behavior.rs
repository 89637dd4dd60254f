use type_path::inaccessible_type_path;
use type_path::parse_path;
use type_path::trim_ascii_whitespace;
use type_path::type_path;
use type_path::ParseErrorKind;
use type_path::PathPrefix;

#[test]
fn wildcard_separated_by_whitespace() {
    assert_eq!(type_path(":: core :: *").unwrap(), ["::", "core", "*"]);
}

#[test]
fn empty_input_is_rejected() {
    let e = type_path("").unwrap_err();
    assert_eq!(e.kind, ParseErrorKind::ExpectedPrefix);
    assert_eq!(e.pos, 0);
}

#[test]
fn bare_prefix_is_rejected() {
    let e = type_path("::").unwrap_err();
    assert_eq!(e.kind, ParseErrorKind::ExpectedIdent);
    assert_eq!(e.pos, 2);
}

#[test]
fn bare_star_after_prefix_is_rejected() {
    let e = type_path("::*").unwrap_err();
    assert_eq!(e.kind, ParseErrorKind::ExpectedIdent);
    assert_eq!(e.pos, 2);
}

#[test]
fn trailing_separator_is_rejected() {
    let e = type_path("::foo::").unwrap_err();
    assert_eq!(e.kind, ParseErrorKind::ExpectedIdent);
    assert_eq!(e.pos, 7);
}

#[test]
fn crate_without_separator_is_rejected() {
    let e = type_path("crate").unwrap_err();
    assert_eq!(e.kind, ParseErrorKind::ExpectedPathSep);
    assert_eq!(e.pos, 5);
}

#[test]
fn unrooted_path_is_rejected() {
    let e = type_path("foo::bar").unwrap_err();
    assert_eq!(e.kind, ParseErrorKind::ExpectedPrefix);
    assert_eq!(e.pos, 0);
}

#[test]
fn split_colons_are_not_a_separator() {
    let e = type_path("::foo: :bar").unwrap_err();
    assert_eq!(e.kind, ParseErrorKind::TrailingInput);
    assert_eq!(e.pos, 5);
}

#[test]
fn star_without_separator_is_rejected() {
    let e = type_path("::foo*").unwrap_err();
    assert_eq!(e.kind, ParseErrorKind::TrailingInput);
    assert_eq!(e.pos, 5);
}

#[test]
fn tokens_after_wildcard_are_rejected() {
    let e = type_path("::a::*b").unwrap_err();
    assert_eq!(e.kind, ParseErrorKind::TrailingInput);
    assert_eq!(e.pos, 6);
}

#[test]
fn digit_start_is_rejected() {
    let e = type_path("::9foo").unwrap_err();
    assert_eq!(e.kind, ParseErrorKind::ExpectedIdent);
    assert_eq!(e.pos, 2);
}

#[test]
fn parsed_path_structure() {
    let p = parse_path("crate :: foo :: bar :: *").unwrap();
    assert_eq!(p.prefix, PathPrefix::SelfCrate);
    assert_eq!(p.segments, ["foo", "bar"]);
    assert!(p.wildcard);
}

#[test]
fn import_text_is_canonical() {
    let p = parse_path("crate :: foo ::*").unwrap();
    assert_eq!(p.import_text(), "crate::foo::*");
    let q = parse_path("::a::b").unwrap();
    assert_eq!(q.import_text(), "::a::b");
}

#[test]
fn const_name_uppercases_segments_verbatim() {
    // Mixed-case segments are uppercased character by character, not split
    // at case transitions; the `::` prefix marker passes through unchanged.
    let c = inaccessible_type_path("::std::io::BufWriter").unwrap();
    assert_eq!(c.name, "PATH_::_STD_IO_BUFWRITER");
    assert_eq!(c.segments, ["::", "std", "io", "BufWriter"]);
}

#[test]
fn const_name_keeps_wildcard_marker() {
    let c = inaccessible_type_path("crate::a::*").unwrap();
    assert_eq!(c.name, "PATH_CRATE_A_*");
    assert_eq!(c.segments, ["crate", "a", "*"]);
}

#[test]
fn trim_strips_only_edge_whitespace() {
    assert_eq!(trim_ascii_whitespace(b"  \t\r\n x y \n "), &b"x y"[..]);
    assert_eq!(trim_ascii_whitespace(b""), &b""[..]);
    assert_eq!(trim_ascii_whitespace(b" \t\r\n"), &b""[..]);
    assert_eq!(trim_ascii_whitespace(b"abc"), &b"abc"[..]);
}

#[test]
fn trim_passes_non_ascii_through() {
    let raw = "  \u{e4}\u{be}\u{2039} ".as_bytes();
    assert_eq!(trim_ascii_whitespace(raw), "\u{e4}\u{be}\u{2039}".as_bytes());
}

#[test]
fn rederivation_is_stable() {
    let a = type_path(" ::x::Y ").unwrap();
    let b = type_path("::x::Y").unwrap();
    assert_eq!(a, b);
    let n1 = inaccessible_type_path("crate::x").unwrap();
    let n2 = inaccessible_type_path("crate::x").unwrap();
    assert_eq!(n1.name, n2.name);
    assert_eq!(n1.segments, n2.segments);
}
