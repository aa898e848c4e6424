use fnlint::casing::FilenameCase;
use fnlint::config::{parse_cases, select_format, ConfigError, ConfigFormat, FilenameLintConfig};

#[test]
fn format_precedence() {
    assert_eq!(select_format(true, true, true), Some(ConfigFormat::Json));
    assert_eq!(select_format(false, true, true), Some(ConfigFormat::Yaml));
    assert_eq!(select_format(false, false, true), Some(ConfigFormat::Toml));
    assert_eq!(select_format(false, false, false), None);
    assert_eq!(ConfigFormat::Yaml.file_name(), "./fnlint.config.yaml");
}

#[test]
fn names_become_styles() {
    let names = vec!["kebab-case".to_string(), "lowercase".to_string()];
    assert_eq!(parse_cases(&names), Ok(vec![FilenameCase::Kebab, FilenameCase::Lower]));
}

#[test]
fn first_unknown_name_is_reported() {
    let names = vec!["snake_case".to_string(), "Title".to_string(), "Other".to_string()];
    assert_eq!(parse_cases(&names), Err(ConfigError::UnknownCase("Title".to_string())));
}

#[test]
fn config_from_names() {
    let ls = vec![(".rs".to_string(), vec!["snake_case".to_string()])];
    let config = FilenameLintConfig::from_names(ls, vec!["target".to_string()]).unwrap();
    assert_eq!(config.ls, vec![(".rs".to_string(), vec![FilenameCase::Snake])]);
    assert_eq!(config.ignore, vec!["target".to_string()]);
    assert!(config.ignore_spec().unwrap().is_excluded("target/debug", false));
    let bad = vec![(".rs".to_string(), vec!["snake".to_string()])];
    assert!(matches!(
        FilenameLintConfig::from_names(bad, vec![]),
        Err(ConfigError::UnknownCase(_))
    ));
}

#[test]
fn repeated_extension_keeps_last_rule_set() {
    let ls = vec![
        (".rs".to_string(), vec!["snake_case".to_string()]),
        (".js".to_string(), vec!["camelCase".to_string()]),
        (".rs".to_string(), vec!["kebab-case".to_string(), "lowercase".to_string()]),
    ];
    let config = FilenameLintConfig::from_names(ls, vec![]).unwrap();
    assert_eq!(config.ls.len(), 2);
    let rs: Vec<_> = config.ls.iter().filter(|(k, _)| k == ".rs").collect();
    assert_eq!(rs.len(), 1);
    assert_eq!(rs[0].1, vec![FilenameCase::Kebab, FilenameCase::Lower]);
    let js: Vec<_> = config.ls.iter().filter(|(k, _)| k == ".js").collect();
    assert_eq!(js[0].1, vec![FilenameCase::Camel]);
}

#[test]
fn repeated_extension_lints_once() {
    let ls = vec![
        (".rs".to_string(), vec!["snake_case".to_string()]),
        (".rs".to_string(), vec!["snake_case".to_string()]),
    ];
    let config = std::sync::Arc::new(FilenameLintConfig::from_names(ls, vec![]).unwrap());
    let issues = fnlint::linter::lint_filenames(&config, vec!["src/Bad.rs".to_string()]);
    assert_eq!(issues.len(), 1);
}
