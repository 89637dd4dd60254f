use type_path::inaccessible_type_path;
use type_path::type_path;

#[test]
fn three_segment_path() {
    assert_eq!(
        type_path("::std::io::BufWriter").unwrap(),
        ["::", "std", "io", "BufWriter"]
    );
}

#[test]
fn one_segment_path() {
    assert_eq!(type_path("::core").unwrap(), ["::", "core"]);
}

#[test]
fn import_everything() {
    assert_eq!(type_path("::core::*").unwrap(), ["::", "core", "*"]);
}

#[test]
fn private_path() {
    let c = inaccessible_type_path("crate::foo::private_mod").unwrap();

    assert_eq!(c.name, "PATH_CRATE_FOO_PRIVATE_MOD");
    assert_eq!(c.segments, ["crate", "foo", "private_mod"]);
}

#[test]
fn crate_prefix() {
    assert_eq!(type_path("crate::foo::bar").unwrap(), ["crate", "foo", "bar"]);
}

#[test]
fn import_everything_with_crate_prefix() {
    assert_eq!(
        type_path("crate::foo::bar::*").unwrap(),
        ["crate", "foo", "bar", "*"]
    );
}

#[test]
fn extra_whitespace() {
    const TARGET: [&str; 4] = ["::", "std", "path", "PathBuf"];

    assert_eq!(type_path("::    std::     path   ::PathBuf").unwrap(), TARGET);
    assert_eq!(type_path(" :: std::     path::      PathBuf").unwrap(), TARGET);
    assert_eq!(type_path("\n::\n        std::path::PathBuf").unwrap(), TARGET);
    assert_eq!(
        type_path("\n  ::\n\n                std\n        ::\n        path::\n        PathBuf\n\n    ")
            .unwrap(),
        TARGET
    );
}

#[test]
fn non_ascii_chars() {
    // Whitespace to test trimming
    assert_eq!(
        type_path("\n\n        crate::      \u{e4}\u{be}\u{2039}::\n\n        \u{e5}\u{201a}\u{2026}")
            .unwrap(),
        ["crate", "\u{e4}\u{be}\u{2039}", "\u{e5}\u{201a}\u{2026}"]
    );

    assert_eq!(
        type_path("\n\n        crate::      \u{e4}\u{be}\u{2039}::\n\n        \u{11f}\u{160}\u{153}")
            .unwrap(),
        ["crate", "\u{e4}\u{be}\u{2039}", "\u{11f}\u{160}\u{153}"]
    );
}
