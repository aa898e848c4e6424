use fnlint::casing::FilenameCase;

const ALL: [FilenameCase; 7] = [
    FilenameCase::Lower,
    FilenameCase::Snake,
    FilenameCase::Camel,
    FilenameCase::Kebab,
    FilenameCase::Pascal,
    FilenameCase::Point,
    FilenameCase::ScreamingSnake,
];

#[test]
fn plain_lowercase_conforms_to_every_style() {
    for case in ALL {
        for s in ["button", "v2", "index", "2024", "a"] {
            assert!(case.matches(s), "{} should conform to {}", s, case.name());
        }
        assert!(!case.matches(""));
    }
}

#[test]
fn snake_grammar() {
    let c = FilenameCase::Snake;
    assert!(c.matches("hello_world"));
    assert!(c.matches("a_1_b2"));
    assert!(!c.matches("_hello"));
    assert!(!c.matches("hello_"));
    assert!(!c.matches("hello__world"));
    assert!(!c.matches("hello_World"));
    assert!(!c.matches("hello-world"));
}

#[test]
fn kebab_and_point_grammar() {
    assert!(FilenameCase::Kebab.matches("hello-world-2"));
    assert!(!FilenameCase::Kebab.matches("hello--world"));
    assert!(!FilenameCase::Kebab.matches("-hello"));
    assert!(FilenameCase::Point.matches("app.config.test"));
    assert!(!FilenameCase::Point.matches("app..config"));
    assert!(!FilenameCase::Point.matches("app.config."));
}

#[test]
fn screaming_snake_grammar() {
    let c = FilenameCase::ScreamingSnake;
    assert!(c.matches("HELLO_WORLD"));
    assert!(c.matches("README"));
    assert!(c.matches("V2_API"));
    assert!(!c.matches("HELLO__WORLD"));
    assert!(!c.matches("_HELLO"));
    assert!(!c.matches("Hello_World"));
}

#[test]
fn camel_grammar() {
    let c = FilenameCase::Camel;
    assert!(c.matches("helloWorld"));
    assert!(c.matches("helloWorld2"));
    assert!(c.matches("aBC"));
    assert!(!c.matches("HelloWorld"));
    assert!(!c.matches("hello2World"));
    assert!(!c.matches("hello_world"));
}

#[test]
fn pascal_grammar() {
    let c = FilenameCase::Pascal;
    assert!(c.matches("HelloWorld"));
    assert!(c.matches("Http2Server"));
    assert!(!c.matches("HTTPServer"));
    assert!(!c.matches("HelloW"));
    assert!(!c.matches("helloWorld"));
    assert!(!c.matches("Hello_World"));
}

#[test]
fn lower_grammar() {
    assert!(FilenameCase::Lower.matches("abc123"));
    assert!(!FilenameCase::Lower.matches("abc_123"));
    assert!(!FilenameCase::Lower.matches("Abc"));
}

#[test]
fn names_round_trip() {
    let names = [
        "lowercase",
        "snake_case",
        "camelCase",
        "kebab-case",
        "Pascal",
        "point.case",
        "SCREAMING_SNAKE_CASE",
    ];
    for (case, name) in ALL.iter().zip(names.iter()) {
        assert_eq!(case.name(), *name);
        assert_eq!(case.to_string(), *name);
        assert_eq!(FilenameCase::from_str(name), Ok(*case));
    }
}

#[test]
fn unknown_name_is_rejected() {
    assert_eq!(
        FilenameCase::from_str("Snake_Case"),
        Err("Unknown filename case: Snake_Case".to_string())
    );
    assert!(FilenameCase::from_str("").is_err());
}
