use craft::error::{AutoFix, EngineError, ErrorCollector, IoError, IoErrorKind, ParseError, ValidationError};
use craft::json::Json;

#[test]
fn error_collector_collects_multiple() {
    let mut c = ErrorCollector::new("scene.json");
    c.push(ValidationError {
        file: "scene.json".to_string(),
        json_path: "$.nodes[0].components.health".to_string(),
        message: "expected integer".to_string(),
        expected_type: "integer".to_string(),
        actual_value: Some(Json::Str("fast".to_string())),
        suggestion: Some("Replace with a number like 100".to_string()),
        auto_fixable: AutoFix::Suggested,
    });
    c.push(ValidationError {
        file: "scene.json".to_string(),
        json_path: "$.nodes[1].type".to_string(),
        message: "unknown node type".to_string(),
        expected_type: "known node type".to_string(),
        actual_value: Some(Json::Str("Monstr".to_string())),
        suggestion: Some("Did you mean 'Monster'?".to_string()),
        auto_fixable: AutoFix::Suggested,
    });
    assert_eq!(c.len(), 2);
    assert!(!c.is_empty());
    let result = c.into_result();
    assert!(result.is_err());
    let err = result.unwrap_err();
    assert!(matches!(err, EngineError::Validation { .. }));
    if let EngineError::Validation { file, errors } = err {
        assert_eq!(file, "scene.json");
        assert_eq!(errors.len(), 2);
        assert_eq!(errors[0].json_path, "$.nodes[0].components.health");
        assert_eq!(errors[0].suggestion.as_deref(), Some("Replace with a number like 100"));
    }
}

#[test]
fn empty_collector_returns_ok() {
    let c = ErrorCollector::new("scene.json");
    assert!(c.into_result().is_ok());
}

#[test]
fn io_error_constructors_set_kind() {
    let r = IoError::read("a.json", "denied");
    assert_eq!(r.kind, IoErrorKind::Read);
    assert_eq!(r.file, "a.json");
    let n = IoError::not_found("b.json", "missing");
    assert_eq!(n.kind, IoErrorKind::NotFound);
    assert_eq!(n.message, "missing");
}

#[test]
fn engine_error_file_and_message() {
    let p = EngineError::Parse(ParseError {
        file: "s.json".to_string(),
        line: Some(3),
        column: Some(1),
        message: "bad token".to_string(),
        snippet: None,
    });
    assert_eq!(p.file(), "s.json");
    assert_eq!(p.message(), "bad token");
    let v = EngineError::Validation { file: "v.json".to_string(), errors: Vec::new() };
    assert_eq!(v.message(), "validation failed with 0 error(s)");
    let io = EngineError::Io(IoError::read("f", "oops"));
    assert_eq!(io.message(), "io error in f: oops");
    let i = EngineError::Internal("boom".to_string());
    assert_eq!(i.file(), "<internal>");
    assert_eq!(i.message(), "internal error: boom");
}
