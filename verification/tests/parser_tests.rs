//! Tests for eval set validation.

use forgetest::model::{EvalCase, EvalSet, Expectations, Language};
use forgetest::parser::validate_eval_set;

fn case(id: &str, prompt: &str, expectations: Expectations) -> EvalCase {
    EvalCase {
        id: id.into(),
        name: id.into(),
        description: String::new(),
        prompt: prompt.into(),
        language: None,
        context: vec![],
        expectations,
        tags: vec![],
        dependencies: vec![],
        timeout_secs: None,
        max_tokens: None,
    }
}

fn set(cases: Vec<EvalCase>) -> EvalSet {
    EvalSet {
        id: "set".into(),
        name: "Set".into(),
        description: String::new(),
        cases,
        default_language: Language::Rust,
        default_timeout_secs: 60,
    }
}

fn with_tests() -> Expectations {
    Expectations { test_file: Some("#[test] fn t() {}".into()), ..Expectations::default() }
}

#[test]
fn validate_duplicate_ids() {
    let s = set(vec![
        case("same", "Write something", with_tests()),
        case("same", "Write something else", with_tests()),
    ]);
    let warnings = validate_eval_set(&s);
    assert!(warnings.iter().any(|w| w.message.contains("duplicate")));
    assert!(warnings.iter().any(|w| w.message == "duplicate case ID: same"));
}

#[test]
fn validate_tests_without_test_file() {
    let s = set(vec![case("case1", "Write something", Expectations::default())]);
    let warnings = validate_eval_set(&s);
    assert!(warnings.iter().any(|w| w.message.contains("no test_file")));
}

#[test]
fn validate_flags_empty_prompts_and_custom_checks() {
    let mut exp = with_tests();
    exp.custom_check = Some("sh verify-output.sh".into());
    let s = set(vec![case("c1", "   \n\t ", exp)]);
    let warnings = validate_eval_set(&s);
    assert!(warnings.iter().any(|w| w.message == "prompt is empty"));
    assert!(warnings
        .iter()
        .any(|w| w.message == "custom_check is not yet implemented and will be ignored"));
    assert!(warnings.iter().all(|w| w.case_id.as_deref() == Some("c1")));
}

#[test]
fn validate_accepts_a_clean_set() {
    let s = set(vec![
        case("a", "Write a", with_tests()),
        case("b", "Write b", with_tests()),
    ]);
    let warnings = validate_eval_set(&s);
    assert!(warnings.is_empty());
}
