//! Tests for the JSON diagnostic parsers. The inputs mirror the
//! one-object-per-line output of the toolchain's build and lint commands.

use forgetest::diagnostics::{parse_cargo_json_output, parse_clippy_output};
use forgetest::results::DiagnosticLevel;

#[test]
fn parse_compiler_errors_and_warnings() {
    let output = [
        r#"{"reason":"compiler-artifact","target":{"name":"x"}}"#,
        r#"{"reason":"compiler-message","message":{"level":"error","message":"mismatched types","code":{"code":"E0308"},"spans":[{"file_name":"src/lib.rs","line_start":3,"line_end":3,"column_start":5,"column_end":10,"text":[{"text":"    a + b"}]}]}}"#,
        r#"{"reason":"compiler-message","message":{"level":"warning","message":"unused variable","code":null,"spans":[]}}"#,
        "not json at all",
        "",
    ]
    .join("\n");
    let output = output.as_str();
    let (errors, warnings) = parse_cargo_json_output(output);
    assert_eq!(errors.len(), 1);
    assert_eq!(errors[0].level, DiagnosticLevel::Error);
    assert_eq!(errors[0].message, "mismatched types");
    assert_eq!(errors[0].code.as_deref(), Some("E0308"));
    assert_eq!(errors[0].spans.len(), 1);
    assert_eq!(errors[0].spans[0].file, "src/lib.rs");
    assert_eq!(errors[0].spans[0].line_start, 3);
    assert_eq!(errors[0].spans[0].column_end, 10);
    assert_eq!(errors[0].spans[0].text.as_deref(), Some("    a + b"));
    assert_eq!(warnings.len(), 1);
    assert_eq!(warnings[0].message, "unused variable");
    assert!(warnings[0].code.is_none());
}

#[test]
fn spans_with_missing_fields_are_skipped_individually() {
    let output = [
        r#"{"reason":"compiler-message","message":{"level":"error","message":"broken","spans":"#,
        r#"[{"file_name":"a.rs","line_start":1,"line_end":1,"column_start":1,"column_end":2},"#,
        r#"{"file_name":"b.rs","line_start":9}]}}"#,
    ]
    .join("");
    let output = output.as_str();
    let (errors, _warnings) = parse_cargo_json_output(output);
    assert_eq!(errors.len(), 1);
    assert_eq!(errors[0].spans.len(), 1);
    assert_eq!(errors[0].spans[0].file, "a.rs");
    assert!(errors[0].spans[0].text.is_none());
}

#[test]
fn notes_and_other_reasons_are_dropped() {
    let output = [
        r#"{"reason":"compiler-message","message":{"level":"note","message":"hint"}}"#,
        r#"{"reason":"build-finished","success":true}"#,
        "",
    ]
    .join("\n");
    let output = output.as_str();
    let (errors, warnings) = parse_cargo_json_output(output);
    assert!(errors.is_empty());
    assert!(warnings.is_empty());
}

#[test]
fn clippy_keeps_only_its_own_warnings() {
    let output = [
        r#"{"reason":"compiler-message","message":{"level":"warning","message":"needless return","code":{"code":"clippy::needless_return"},"spans":[{"file_name":"src/lib.rs","line_start":2,"line_end":2,"column_start":1,"column_end":7}]}}"#,
        r#"{"reason":"compiler-message","message":{"level":"warning","message":"unused variable","code":{"code":"unused_variables"},"spans":[]}}"#,
        r#"{"reason":"compiler-message","message":{"level":"error","message":"oops","code":{"code":"clippy::oops"},"spans":[]}}"#,
        "",
    ]
    .join("\n");
    let output = output.as_str();
    let warnings = parse_clippy_output(output);
    assert_eq!(warnings.len(), 1);
    assert_eq!(warnings[0].code.as_deref(), Some("clippy::needless_return"));
    assert_eq!(warnings[0].message, "needless return");
    // Lint spans carry no source text.
    assert_eq!(warnings[0].spans.len(), 1);
    assert!(warnings[0].spans[0].text.is_none());
}
