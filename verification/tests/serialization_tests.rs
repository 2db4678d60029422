use dragonfly_client::jsonfmt::{error_to_json, scan_result_json, success_to_json};
use dragonfly_client::models::{ScanResult, SubmitJobResultsError, SubmitJobResultsSuccess};

#[test]
fn test_scan_result_success_serialization() {
    let success = SubmitJobResultsSuccess {
        name: "test".into(),
        version: "1.0.0".into(),
        score: 10,
        inspector_url: Some("inspector url".into()),
        rules_matched: vec!["abc".into(), "def".into()],
        commit: "commit hash".into(),
    };

    let scan_result: ScanResult = Ok(success);
    let actual = scan_result_json(&scan_result);
    let expected = r#"{"name":"test","version":"1.0.0","score":10,"inspector_url":"inspector url","rules_matched":["abc","def"],"commit":"commit hash"}"#;

    assert_eq!(actual, expected);
}

#[test]
fn test_scan_result_error_serialization() {
    let error = SubmitJobResultsError {
        name: "test".into(),
        version: "1.0.0".into(),
        reason: "Package too large".into(),
    };

    let scan_result: ScanResult = Err(error);
    let actual = scan_result_json(&scan_result);
    let expected = r#"{"name":"test","version":"1.0.0","reason":"Package too large"}"#;

    assert_eq!(actual, expected);
}

#[test]
fn success_serialization_without_inspector_url() {
    let success = SubmitJobResultsSuccess {
        name: "pkg".into(),
        version: "0.1.0".into(),
        score: 0,
        inspector_url: None,
        rules_matched: Vec::new(),
        commit: "h".into(),
    };

    let actual = success_to_json(&success);
    let expected = r#"{"name":"pkg","version":"0.1.0","score":0,"inspector_url":null,"rules_matched":[],"commit":"h"}"#;
    assert_eq!(actual, expected);
}

#[test]
fn serialization_escapes_json_characters() {
    let error = SubmitJobResultsError {
        name: "a\"b".into(),
        version: "1\\2".into(),
        reason: "line one\nline two\ttabbed\u{1}".into(),
    };

    let actual = error_to_json(&error);
    let expected =
        "{\"name\":\"a\\\"b\",\"version\":\"1\\\\2\",\"reason\":\"line one\\nline two\\ttabbed\\u0001\"}";
    assert_eq!(actual, expected);
}

#[test]
fn serialization_of_negative_and_extreme_scores() {
    let mut success = SubmitJobResultsSuccess {
        name: "n".into(),
        version: "v".into(),
        score: -42,
        inspector_url: None,
        rules_matched: Vec::new(),
        commit: "c".into(),
    };
    assert_eq!(
        success_to_json(&success),
        r#"{"name":"n","version":"v","score":-42,"inspector_url":null,"rules_matched":[],"commit":"c"}"#
    );

    success.score = i64::MIN;
    assert!(success_to_json(&success).contains("-9223372036854775808"));
    success.score = i64::MAX;
    assert!(success_to_json(&success).contains("9223372036854775807"));
}

#[test]
fn serialization_is_deterministic() {
    // Two separately built but equal bodies serialize byte for byte alike.
    let build = || SubmitJobResultsSuccess {
        name: "pkg".into(),
        version: "2.0".into(),
        score: 17,
        inspector_url: Some("https://inspector.pypi.io/project/pkg/2.0/p/f.py".into()),
        rules_matched: vec!["r1".into(), "r2".into()],
        commit: "abc123".into(),
    };
    assert_eq!(success_to_json(&build()), success_to_json(&build()));
}

#[test]
fn display_strings_list_fields_line_by_line() {
    let success = SubmitJobResultsSuccess {
        name: "test".into(),
        version: "1.0.0".into(),
        score: 10,
        inspector_url: None,
        rules_matched: vec!["abc".into(), "def".into()],
        commit: "commit hash".into(),
    };
    assert_eq!(
        success.display_string(),
        "Name: test\nVersion: 1.0.0\nScore: 10\nInspector URL: None\nRules matched: abc, def\nCommit hash: commit hash\n"
    );

    let error = SubmitJobResultsError {
        name: "test".into(),
        version: "1.0.0".into(),
        reason: "Package too large".into(),
    };
    assert_eq!(
        error.display_string(),
        "Name: test\nVersion: 1.0.0\nReason: Package too large\n"
    );
}
