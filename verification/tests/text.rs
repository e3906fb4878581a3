use astral::error::AstralError;
use astral::paths::{join_path, path_less, paths_equal, sort_paths, sort_strings};
use astral::text::{decimal, parse_i64, parse_usize};

#[test]
fn decimals_and_parsing() {
    assert_eq!(decimal(0), "0");
    assert_eq!(decimal(18446744073709551615), "18446744073709551615");
    assert_eq!(parse_i64("-42"), Some(-42));
    assert_eq!(parse_i64("+7"), Some(7));
    assert_eq!(parse_i64("9223372036854775808"), None);
    assert_eq!(parse_i64("-9223372036854775808"), Some(i64::MIN));
    assert_eq!(parse_i64(" 5"), None);
    assert_eq!(parse_usize("12"), Some(12));
    assert_eq!(parse_usize("-1"), None);
    assert_eq!(parse_usize(""), None);
}

#[test]
fn joining_paths() {
    assert_eq!(join_path("a", "b"), "a/b");
    assert_eq!(join_path("a/", "b"), "a/b");
    assert_eq!(join_path("", "b"), "b");
    assert_eq!(join_path("a", "/b"), "/b");
}

#[test]
fn paths_compare_by_components() {
    assert!(path_less("a/z", "a-b"));
    assert!(path_less("a", "a/b"));
    assert!(paths_equal("a//b/./c", "a/b/c"));
    assert!(!paths_equal("a/b", "b/a"));
    assert_eq!(
        sort_paths(&vec!["b".to_owned(), "a/b".to_owned(), "a".to_owned()]),
        vec!["a".to_owned(), "a/b".to_owned(), "b".to_owned()]
    );
    assert_eq!(
        sort_strings(&vec!["b".to_owned(), "B".to_owned(), "b".to_owned()]),
        vec!["B".to_owned(), "b".to_owned(), "b".to_owned()]
    );
}

#[test]
fn error_messages_and_kinds() {
    let e = AstralError::RepositoryNotRegistered { name: "missing-repo".to_owned() };
    assert_eq!(e.message(), "repository not registered: missing-repo");
    assert_eq!(e.kind(), "repository_not_registered");
    let p = AstralError::PathAccess { path: "/x".to_owned(), source: "denied".to_owned() };
    assert_eq!(p.message(), "failed to access path '/x': denied");
    assert_eq!(p.kind(), "path_access");
    let n = AstralError::PathNotFound { path: "/missing".to_owned() };
    assert_eq!(n.message(), "path does not exist: /missing");
}
