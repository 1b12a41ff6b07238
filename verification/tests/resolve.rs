use std::borrow::Cow;
use tinhir::glob::glob_match;
use tinhir::PathGlob;

fn universe(paths: &[&str]) -> Vec<String> {
    paths.iter().map(|p| p.to_string()).collect()
}

fn resolved(glob: &str, paths: &[&str]) -> Vec<String> {
    PathGlob(glob)
        .resolve(&universe(paths))
        .into_iter()
        .map(|path| path.0.into_owned())
        .collect()
}

#[test]
fn a_star_yields_the_paths_of_its_segment() {
    assert_eq!(resolved("a/*", &["a/x", "a/y", "b/z"]), vec!["a/x", "a/y"]);
}

#[test]
fn the_order_of_the_universe_is_kept() {
    assert_eq!(resolved("a/*", &["a/y", "b/z", "a/x", "a/y"]), vec!["a/y", "a/x", "a/y"]);
    assert!(resolved("a/*", &[]).is_empty());
    assert!(resolved("c/*", &["a/x", "a/y", "b/z"]).is_empty());
}

#[test]
fn a_star_does_not_cross_segments() {
    assert_eq!(resolved("a/*", &["a/x/y", "a/x", "a/", "a"]), vec!["a/x", "a/"]);
    assert_eq!(resolved("a.*", &["a.x", "a.x.y", "a/x"]), vec!["a.x"]);
    assert_eq!(resolved("*/*", &["a/x", "a", "a/b/c", "/"]), vec!["a/x", "/"]);
    assert_eq!(resolved("*", &["a", "a/x", "", "a.b"]), vec!["a", ""]);
}

#[test]
fn stars_match_any_run_within_a_segment() {
    assert!(glob_match(b"a*c", b"ac"));
    assert!(glob_match(b"a*c", b"abc"));
    assert!(glob_match(b"a*c", b"abbbc"));
    assert!(glob_match(b"a*c", b"acbc"));
    assert!(!glob_match(b"a*c", b"ab"));
    assert!(!glob_match(b"a*c", b"a/c"));
    assert!(glob_match(b"*a*b*", b"xaybz"));
    assert!(glob_match(b"**", b"abc"));
    assert!(glob_match(b"*", b""));
    assert!(glob_match(b"", b""));
    assert!(!glob_match(b"", b"a"));
    assert!(glob_match(b"lib/*/mod*", b"lib/core/module"));
    assert!(!glob_match(b"lib/*/mod*", b"lib/core/x/module"));
    assert!(glob_match("é/*".as_bytes(), "é/ü".as_bytes()));
    assert!(glob_match(b"*a*b", b"aab"));
    assert!(!glob_match(b"*a*b", b"a/b"));
    assert!(glob_match(b"*/a*b", b"x/ab"));
}

#[test]
fn a_glob_without_star_borrows_its_own_text() {
    let glob = PathGlob("a/x");
    let paths = glob.resolve(&universe(&["a/x", "a/y", "a/x"]));
    assert_eq!(paths.len(), 2);
    for path in &paths {
        assert!(matches!(&path.0, Cow::Borrowed(text) if *text == "a/x"));
    }
    assert!(glob.resolve(&universe(&["a/y"])).is_empty());
}

#[test]
fn a_glob_with_star_owns_what_it_found() {
    let paths = PathGlob("a/*").resolve(&universe(&["a/x", "b/z"]));
    assert_eq!(paths.len(), 1);
    assert!(matches!(&paths[0].0, Cow::Owned(text) if text == "a/x"));
}
