use minihttp::body::{is_json, BodyError, JsonParser};

#[test]
fn json_content_types() {
    assert!(is_json(Some("application/json")));
    assert!(is_json(Some("application/json; charset=utf-8")));
    assert!(is_json(Some("Application/JSON")));
    assert!(!is_json(Some("text/plain")));
    assert!(!is_json(Some("application/xml")));
    assert!(!is_json(Some("not a mime")));
    assert!(!is_json(None));
}

#[test]
fn wrong_content_type_fails_first() {
    let parser = JsonParser::default();
    assert!(matches!(parser.begin(Some("text/html")), Err(BodyError::ContentTypeMismatch)));
    assert!(matches!(parser.begin(None), Err(BodyError::ContentTypeMismatch)));
}

#[test]
fn default_limit_is_32_kib() {
    let parser = JsonParser::default();
    let mut reader = parser.begin(Some("application/json")).unwrap();
    assert!(reader.accept(32 * 1024).is_ok());
    assert_eq!(reader.len(), 32768);
    assert!(matches!(reader.accept(1), Err(BodyError::LengthLimitExceeded)));
}

#[test]
fn body_over_limit_fails() {
    let mut parser = JsonParser::default();
    parser.length_limit(10);
    let mut reader = parser.begin(Some("application/json")).unwrap();
    assert!(reader.accept(4).is_ok());
    assert!(reader.accept(6).is_ok());
    assert_eq!(reader.len(), 10);
    assert!(matches!(reader.accept(1), Err(BodyError::LengthLimitExceeded)));
    assert_eq!(reader.len(), 10);
}

#[test]
fn huge_chunk_does_not_overflow() {
    let parser = JsonParser::default();
    let mut reader = parser.begin(Some("application/json")).unwrap();
    assert!(reader.accept(3).is_ok());
    assert!(matches!(reader.accept(usize::MAX), Err(BodyError::LengthLimitExceeded)));
}

#[test]
fn zero_limit_accepts_only_empty_body() {
    let mut parser = JsonParser::default();
    parser.length_limit(0);
    let mut reader = parser.begin(Some("application/json")).unwrap();
    assert!(reader.accept(0).is_ok());
    assert!(matches!(reader.accept(1), Err(BodyError::LengthLimitExceeded)));
}
