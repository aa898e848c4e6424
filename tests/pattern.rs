use fnlint::pattern::Pattern;

#[test]
fn test_glob_pattern() {
    let pattern = Pattern::new("*.rs");
    assert!(pattern.matches("main.rs"));
    assert!(pattern.matches("lib.rs"));
    assert!(!pattern.matches("Cargo.toml"));
}

#[test]
fn plain_pattern_is_exact() {
    let pattern = Pattern::new("main.rs");
    assert!(matches!(pattern, Pattern::Plain(_)));
    assert!(pattern.matches("main.rs"));
    assert!(!pattern.matches("src/main.rs"));
}

#[test]
fn invalid_glob_is_refused() {
    assert!(Pattern::try_new("a**b").is_none());
    assert!(Pattern::try_new("a?c").unwrap().matches("abc"));
    assert_eq!(Pattern::Glob("a**b".to_string()).try_matches("x"), None);
    assert_eq!(Pattern::Glob("d*g".to_string()).try_matches("doog"), Some(true));
}
