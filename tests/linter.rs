use std::sync::Arc;

use fnlint::casing::FilenameCase;
use fnlint::config::FilenameLintConfig;
use fnlint::linter::{lint_filenames, lint_files, lint_name, Issue};

#[test]
fn test_issue_print() {
    let issue = Issue {
        filename: "hello-world.js".to_string(),
        target: Arc::new(vec![FilenameCase::Kebab, FilenameCase::Lower]),
        path: "src/linter/helloWorld.js".to_string(),
    };
    let expected = "Filename hello-world.js does not match any of the patterns: kebab-case, lowercase";
    assert_eq!(issue.message(), expected);
}

#[test]
fn lint_none_case() {
    let patterns = Arc::new(vec![FilenameCase::Kebab, FilenameCase::Lower]);
    let no_issue = lint_name("src/linter/mod.rs", &patterns, ".rs").is_none();
    assert!(no_issue);
}

#[test]
fn lint_kebab_case() {
    let patterns = Arc::new(vec![FilenameCase::Kebab]);
    let no_issue = lint_name("src/linter/hello-world.js", &patterns, ".js");
    assert!(no_issue.is_none());
    let camel = lint_name("src/linter/helloWorld.js", &patterns, ".js");
    assert!(camel.is_some());
    let pascal = lint_name("src/linter/HelloWorld.js", &patterns, ".js");
    assert!(pascal.is_some());
    let snake = lint_name("src/linter/hello_world.js", &patterns, ".js");
    assert!(snake.is_some());
}

#[test]
fn lint_camel_case() {
    let patterns = Arc::new(vec![FilenameCase::Camel]);
    let always_good = lint_name("src/linter/mod.js", &patterns, ".js").is_none();
    assert!(always_good);
    let no_issue = lint_name("src/linter/helloWorld.js", &patterns, ".js").is_none();
    assert!(no_issue);
    let kebab = lint_name("src/linter/hello-world.js", &patterns, ".js");
    assert!(kebab.is_some());
    let pascal = lint_name("src/linter/HelloWorld.js", &patterns, ".js");
    assert!(pascal.is_some());
    let snake = lint_name("src/linter/hello_world.js", &patterns, ".js");
    assert!(snake.is_some());
}

#[test]
fn lint_pascal_case() {
    let patterns = Arc::new(vec![FilenameCase::Pascal]);
    let no_issue = lint_name("src/linter/HelloWorld.js", &patterns, ".js").is_none();
    assert!(no_issue);
    let kebab = lint_name("src/linter/hello-world.js", &patterns, ".js");
    assert!(kebab.is_some());
    let camel = lint_name("src/linter/helloWorld.js", &patterns, ".js");
    assert!(camel.is_some());
    let snake = lint_name("src/linter/hello_world.js", &patterns, ".js");
    assert!(snake.is_some());
}

#[test]
fn lint_snake_case() {
    let patterns = Arc::new(vec![FilenameCase::Snake]);
    let no_issue = lint_name("src/linter/hello_world.js", &patterns, ".js").is_none();
    assert!(no_issue);
    let kebab = lint_name("src/linter/hello-world.js", &patterns, ".js");
    assert!(kebab.is_some());
    let camel = lint_name("src/linter/helloWorld.js", &patterns, ".js");
    assert!(camel.is_some());
    let pascal = lint_name("src/linter/HelloWorld.js", &patterns, ".js");
    assert!(pascal.is_some());
}

#[test]
fn lint_snake_files() {
    let patterns = Arc::new(vec![FilenameCase::Snake]);
    let files = vec![
        "src/linter/hello_world.js".to_string(),
        "src/linter/a_bC.js".to_string(),
        "src/linter/A_vbC.js".to_string(),
        "src/linter/helloWorld.js".to_string(),
        "src/linter/HelloWorld.js".to_string(),
        "src/linter/hello-world.js".to_string(),
    ];
    let issues = lint_files(files, ".js".to_string(), &patterns);
    assert_eq!(issues.len(), 5);
}

#[test]
fn test_lint_filenames() {
    let config = Arc::new(FilenameLintConfig {
        ls: vec![(".rs".to_string(), vec![FilenameCase::Snake])],
        ignore: vec![],
    });
    let files = vec![
        "src/main.rs".to_string(),
        "src/linter/mod.rs".to_string(),
        "src/linter/hello-world.rs".to_string(),
    ];
    let issues = lint_filenames(&config, files);
    assert_eq!(issues.len(), 1);
}

#[test]
fn kebab_or_lower_rule_set_reports_camel_stem() {
    let patterns = Arc::new(vec![FilenameCase::Kebab, FilenameCase::Lower]);
    assert!(lint_name("hello-world.ts", &patterns, ".ts").is_none());
    let issue = lint_name("web/helloWorld.ts", &patterns, ".ts").unwrap();
    assert_eq!(issue.filename, "helloWorld");
    assert_eq!(issue.path, "web/helloWorld.ts");
    assert_eq!(*issue.target, vec![FilenameCase::Kebab, FilenameCase::Lower]);
    assert_eq!(
        issue.message(),
        "Filename helloWorld does not match any of the patterns: kebab-case, lowercase"
    );
}

#[test]
fn snake_rule_set_raises_three_issues() {
    let patterns = Arc::new(vec![FilenameCase::Snake]);
    let files = vec![
        "hello_world.js".to_string(),
        "helloWorld.js".to_string(),
        "HelloWorld.js".to_string(),
        "hello-world.js".to_string(),
    ];
    let issues = lint_files(files, ".js".to_string(), &patterns);
    assert_eq!(issues.len(), 3);
    assert_eq!(issues[0].path, "helloWorld.js");
    assert_eq!(issues[1].path, "HelloWorld.js");
    assert_eq!(issues[2].path, "hello-world.js");
    assert_eq!(issues[2].filename, "hello-world");
}

#[test]
fn unconfigured_extension_never_reported() {
    let config = Arc::new(FilenameLintConfig {
        ls: vec![(".rs".to_string(), vec![FilenameCase::Snake])],
        ignore: vec![],
    });
    let files = vec![
        "src/BadName.js".to_string(),
        "src/Bad-Name.py".to_string(),
        "src/BadName.rs".to_string(),
    ];
    let issues = lint_filenames(&config, files);
    assert_eq!(issues.len(), 1);
    assert_eq!(issues[0].path, "src/BadName.rs");
}

#[test]
fn same_files_in_another_order_give_same_issues() {
    let config = Arc::new(FilenameLintConfig {
        ls: vec![
            (".rs".to_string(), vec![FilenameCase::Snake]),
            (".js".to_string(), vec![FilenameCase::Camel]),
        ],
        ignore: vec![],
    });
    let a = vec!["a/Bad.rs".to_string(), "b/bad_name.js".to_string(), "c/okName.js".to_string()];
    let b = vec!["c/okName.js".to_string(), "a/Bad.rs".to_string(), "b/bad_name.js".to_string()];
    let mut first: Vec<String> = lint_filenames(&config, a).iter().map(|i| i.path.clone()).collect();
    let mut second: Vec<String> = lint_filenames(&config, b).iter().map(|i| i.path.clone()).collect();
    first.sort();
    second.sort();
    assert_eq!(first, vec!["a/Bad.rs".to_string(), "b/bad_name.js".to_string()]);
    assert_eq!(first, second);
}

#[test]
fn extension_removed_once_and_only_at_end() {
    let patterns = Arc::new(vec![FilenameCase::Snake]);
    let issue = lint_name("src/a.js.js", &patterns, ".js").unwrap();
    assert_eq!(issue.filename, "a.js");
    let lower = Arc::new(vec![FilenameCase::Lower]);
    assert!(lint_name("x/lib.rs", &lower, ".rs").is_none());
    let issue = lint_name("x/a.rs.bak", &lower, ".rs").unwrap();
    assert_eq!(issue.filename, "a.rs.bak");
    let point = Arc::new(vec![FilenameCase::Point]);
    assert!(lint_name("x/lib.rs.rs", &point, ".rs").is_none());
}

#[test]
fn empty_extension_keeps_basename() {
    let patterns = Arc::new(vec![FilenameCase::Point]);
    assert!(lint_name("dir/main.rs", &patterns, "").is_none());
    let issue = lint_name("dir/Main.rs", &patterns, "").unwrap();
    assert_eq!(issue.filename, "Main.rs");
}
