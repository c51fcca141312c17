//! Tests for the test-output parser.

use forgetest::test_output::parse_test_output;

#[test]
fn parse_all_pass() {
    let output = r#"
running 3 tests
test tests::test_one ... ok
test tests::test_two ... ok
test tests::test_three ... ok

test result: ok. 3 passed; 0 failed; 0 ignored; 0 measured; 0 filtered out; finished in 0.00s
"#;
    let result = parse_test_output(output, 100);
    assert_eq!(result.passed, 3);
    assert_eq!(result.failed, 0);
    assert!(result.failures.is_empty());
}

#[test]
fn parse_some_failures() {
    let output = r#"
running 3 tests
test tests::test_one ... ok
test tests::test_two ... FAILED
test tests::test_three ... ok

failures:

---- tests::test_two stdout ----
thread 'tests::test_two' panicked at 'assertion `left == right` failed
  left: 1
 right: 2'

failures:
    tests::test_two

test result: FAILED. 2 passed; 1 failed; 0 ignored; 0 measured; 0 filtered out; finished in 0.00s
"#;
    let result = parse_test_output(output, 100);
    assert_eq!(result.passed, 2);
    assert_eq!(result.failed, 1);
    assert_eq!(result.failures.len(), 1);
    assert_eq!(result.failures[0].name, "tests::test_two");
    assert!(result.failures[0].message.contains("assertion"));
}

#[test]
fn parse_no_tests() {
    let output = "running 0 tests\n\ntest result: ok. 0 passed; 0 failed; 0 ignored; 0 measured; 0 filtered out\n";
    let result = parse_test_output(output, 0);
    assert_eq!(result.passed, 0);
    assert_eq!(result.failed, 0);
}

#[test]
fn parse_with_ignored() {
    let output = r#"
running 3 tests
test tests::test_one ... ok
test tests::test_two ... ignored
test tests::test_three ... ok

test result: ok. 2 passed; 0 failed; 1 ignored; 0 measured; 0 filtered out; finished in 0.00s
"#;
    let result = parse_test_output(output, 100);
    assert_eq!(result.passed, 2);
    assert_eq!(result.ignored, 1);
}

#[test]
fn parse_sums_summaries_of_all_binaries() {
    let output = "test result: ok. 3 passed; 1 failed; 0 ignored; 0 measured; 0 filtered out\n\
                  test result: ok. 2 passed; 0 failed; 1 ignored; 0 measured; 0 filtered out\n";
    let result = parse_test_output(output, 5);
    assert_eq!(result.passed, 5);
    assert_eq!(result.failed, 1);
    assert_eq!(result.ignored, 1);
    assert_eq!(result.duration_ms, 5);
}

#[test]
fn per_line_counts_used_only_without_summary() {
    let output = "test a ... ok\ntest b ... FAILED\ntest c ... ok\n";
    let result = parse_test_output(output, 1);
    assert_eq!(result.passed, 2);
    assert_eq!(result.failed, 1);
    assert_eq!(result.failures.len(), 1);
    assert_eq!(result.failures[0].name, "b");
}
