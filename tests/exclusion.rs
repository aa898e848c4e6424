use fnlint::config::ConfigError;
use fnlint::exclusion::IgnoreSpec;

fn spec(patterns: &[&str]) -> IgnoreSpec {
    let v: Vec<String> = patterns.iter().map(|p| p.to_string()).collect();
    IgnoreSpec::new(&v).unwrap()
}

#[test]
fn star_glob_excludes_rust_files_only() {
    let s = spec(&["*.rs"]);
    assert!(s.is_excluded("main.rs", true));
    assert!(s.is_excluded("lib.rs", true));
    assert!(!s.is_excluded("Cargo.toml", true));
}

#[test]
fn plain_name_excludes_that_file() {
    let s = spec(&["main.rs"]);
    assert!(s.is_excluded("src/main.rs", true));
    assert!(!s.is_excluded("src/config/mod.rs", true));
    assert!(!s.is_excluded("src/config", false));
    assert!(!s.is_excluded("src", false));
}

#[test]
fn double_star_folder_patterns() {
    let s = spec(&["config/**"]);
    assert!(s.is_excluded("src/config", false));
    assert!(s.is_excluded("src/config/mod.rs", true));
    assert!(!s.is_excluded("src/main.rs", true));
}

#[test]
fn node_modules_both_forms_prune_subtree() {
    let glob = spec(&["**/node_modules"]);
    let plain = spec(&["node_modules"]);
    for (path, is_file) in [
        ("node_modules", false),
        ("node_modules/pkg", false),
        ("node_modules/pkg/index.js", true),
    ] {
        assert!(glob.is_excluded(path, is_file));
        assert!(plain.is_excluded(path, is_file));
    }
    for (path, is_file) in [("src", false), ("src/index.js", true)] {
        assert!(!glob.is_excluded(path, is_file));
        assert!(!plain.is_excluded(path, is_file));
    }
}

#[test]
fn double_star_expression_matches_end_of_path() {
    // neither piece `**` nor `a.c` occurs literally; the expression `/a.c$` does
    let s = spec(&["**/a.c"]);
    assert!(s.is_excluded("src/abc", false));
    assert!(!s.is_excluded("src/abc/d", false));
}

#[test]
fn single_star_expression_sees_basename_only() {
    let s = spec(&["x*y"]);
    assert!(s.is_excluded("dir/xay", true));
    assert!(!s.is_excluded("xay/b", true));
}

#[test]
fn pattern_with_both_wildcards_takes_double_star_branch() {
    // open question kept as it stands: `**` shadows the `*` reading, so the
    // expression `/*.rs$` (`**/*.rs` without its `**`) is tried on the whole
    // path, where `/*` reads as "any number of slashes"
    let s = spec(&["**/*.rs"]);
    assert!(s.is_excluded("src/x.rs", true));
    assert!(s.is_excluded("src/main.rs", true));
    assert!(!s.is_excluded("src/main.toml", true));
}

#[test]
fn empty_piece_excludes_everything() {
    let s = spec(&["build/"]);
    assert!(s.is_excluded("src/main.rs", true));
}

#[test]
fn no_patterns_exclude_nothing() {
    let s = spec(&[]);
    assert!(!s.is_excluded("src/main.rs", true));
}

#[test]
fn malformed_expression_is_a_configuration_error() {
    let v = vec!["ok".to_string(), "(*".to_string(), "[*".to_string()];
    match IgnoreSpec::new(&v) {
        Err(ConfigError::InvalidIgnorePattern(p)) => assert_eq!(p, "(*"),
        _ => panic!("expected an invalid pattern"),
    }
}
