//! Tests for the data model.

use forgetest::model::{Expectations, Language};

#[test]
fn language_display_and_parse() {
    assert_eq!(Language::Rust.name(), "rust");
    assert_eq!(Language::Python.name(), "python");
    assert_eq!("rust".parse::<Language>().unwrap(), Language::Rust);
    assert_eq!(
        "TypeScript".parse::<Language>().unwrap(),
        Language::TypeScript
    );
    assert_eq!("ts".parse::<Language>().unwrap(), Language::TypeScript);
    assert_eq!("golang".parse::<Language>().unwrap(), Language::Go);
    assert!("java".parse::<Language>().is_err());
}

#[test]
fn expectations_default() {
    let exp = Expectations::default();
    assert!(exp.should_compile);
    assert!(exp.should_pass_tests);
    assert!(exp.test_file.is_none());
    assert!(exp.expected_functions.is_empty());
}

#[test]
fn unknown_language_message_names_the_input() {
    let err = "java".parse::<Language>().unwrap_err();
    assert_eq!(err, "unknown language: java");
}
