//! Pattern parsing and joining.

use tsukuyomi::uri::{Uri, UriError};

fn parse(s: &str) -> Result<Uri, UriError> {
    Uri::parse(s)
}

#[test]
fn parse_uri_root() {
    let uri = parse("/").unwrap();
    assert_eq!(uri.as_str(), "/");
    assert!(uri.capture_names().is_none());
}

#[test]
fn parse_uri_static() {
    let uri = parse("/path/to/lib").unwrap();
    assert_eq!(uri.as_str(), "/path/to/lib");
    assert!(uri.capture_names().is_none());
}

#[test]
fn parse_uri_static_has_trailing_slash() {
    let uri = parse("/path/to/lib/").unwrap();
    assert_eq!(uri.as_str(), "/path/to/lib/");
    assert!(uri.capture_names().is_none());
}

#[test]
fn parse_uri_has_wildcard_params() {
    let uri = parse("/api/v1/:param/*path").unwrap();
    assert_eq!(uri.as_str(), "/api/v1/:param/*path");
    let names = uri.capture_names().expect("captures expected");
    assert_eq!(names.len(), 2);
    assert_eq!(names.position("param"), Some(0));
    assert_eq!(names.position("path"), Some(1));
    assert_eq!(names.position("missing"), None);
    assert!(names.has_wildcard());
}

#[test]
fn parse_uri_failcase_empty() {
    assert!(parse("").is_err());
}

#[test]
fn parse_uri_failcase_without_prefix_root() {
    assert!(parse("foo/bar").is_err());
}

#[test]
fn parse_uri_failcase_duplicated_slashes() {
    assert!(parse("//foo/bar/").is_err());
    assert!(parse("/foo//bar/").is_err());
    assert!(parse("/foo/bar//").is_err());
}

#[test]
fn parse_uri_failcase_invalid_wildcard_specifier_pos() {
    assert!(parse("/pa:th").is_err());
}

#[test]
fn parse_uri_failcase_non_ascii() {
    assert!(parse("/パス").is_err());
}

#[test]
fn parse_uri_failcase_duplicated_param_name() {
    assert!(parse("/:id/:id").is_err());
}

#[test]
fn parse_uri_failcase_after_wildcard_name() {
    assert!(parse("/path/to/*a/id").is_err());
}

#[test]
fn parse_uri_failcase_variants() {
    assert!(matches!(parse(""), Err(UriError::MissingLeadingSlash)));
    assert!(matches!(parse("foo/bar"), Err(UriError::MissingLeadingSlash)));
    assert!(matches!(parse("/パス"), Err(UriError::NotAscii)));
    assert!(matches!(parse("/foo//bar"), Err(UriError::EmptySegment)));
    assert!(matches!(parse("/pa:th"), Err(UriError::InvalidCharacter)));
    assert!(matches!(parse("/:id/:id"), Err(UriError::DuplicateParameterName)));
    assert!(matches!(parse("/path/to/*a/id"), Err(UriError::WildcardAlreadySet)));
    assert!(matches!(parse("/:"), Err(UriError::EmptyParameterName)));
    assert!(matches!(parse("/*a/"), Err(UriError::WildcardAlreadySet)));
}

#[test]
fn parse_uri_roundtrip() {
    for text in ["/", "/posts", "/posts/:id", "/a/b/", "/files/*rest"] {
        let uri = parse(text).unwrap();
        assert_eq!(uri.as_str(), text);
        let again = parse(uri.as_str()).unwrap();
        assert_eq!(again.as_str(), uri.as_str());
        match (uri.capture_names(), again.capture_names()) {
            (None, None) => {}
            (Some(a), Some(b)) => {
                assert_eq!(a.len(), b.len());
                assert_eq!(a.has_wildcard(), b.has_wildcard());
            }
            _ => panic!("structurally different reparse for {}", text),
        }
    }
}

#[test]
fn join_roots() {
    let joined = parse("/").unwrap().join(&parse("/").unwrap()).unwrap();
    assert_eq!(joined.as_str(), "/");
}

#[test]
fn join_root_and_static() {
    let joined = parse("/").unwrap().join(&parse("/path/to").unwrap()).unwrap();
    assert_eq!(joined.as_str(), "/path/to");
}

#[test]
fn join_trailing_slash_before_root_1() {
    let joined = parse("/path/to/").unwrap().join(&parse("/").unwrap()).unwrap();
    assert_eq!(joined.as_str(), "/path/to/");
}

#[test]
fn join_trailing_slash_before_root_2() {
    let joined = parse("/path/to").unwrap().join(&parse("/").unwrap()).unwrap();
    assert_eq!(joined.as_str(), "/path/to");
}

#[test]
fn join_trailing_slash_before_static_1() {
    let joined = parse("/path").unwrap().join(&parse("/to").unwrap()).unwrap();
    assert_eq!(joined.as_str(), "/path/to");
}

#[test]
fn join_trailing_slash_before_static_2() {
    let joined = parse("/path/").unwrap().join(&parse("/to").unwrap()).unwrap();
    assert_eq!(joined.as_str(), "/path/to");
}

#[test]
fn join_merges_capture_names() {
    let joined = parse("/:a").unwrap().join(&parse("/:b/*rest").unwrap()).unwrap();
    assert_eq!(joined.as_str(), "/:a/:b/*rest");
    let names = joined.capture_names().unwrap();
    assert_eq!(names.position("a"), Some(0));
    assert_eq!(names.position("b"), Some(1));
    assert_eq!(names.position("rest"), Some(2));
    assert!(names.has_wildcard());
}

#[test]
fn join_rejects_collision_and_wildcard_prefix() {
    assert!(matches!(
        parse("/:id").unwrap().join(&parse("/:id").unwrap()),
        Err(UriError::DuplicateParameterName)
    ));
    assert!(matches!(
        parse("/files/*rest").unwrap().join(&parse("/more").unwrap()),
        Err(UriError::WildcardAlreadySet)
    ));
}

#[test]
fn uri_equality_compares_text() {
    let a = parse("/posts/:id").unwrap();
    let b = parse("/posts/:id").unwrap();
    let c = parse("/posts").unwrap();
    assert!(a == b);
    assert!(a != c);
    assert!(parse("/").unwrap() == parse("/").unwrap());
}
