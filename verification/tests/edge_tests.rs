//! Edge cases: empty inputs and boundary sizes.

use forgetest::extract::extract_code_from_markdown;
use forgetest::statistics::pass_at_k;
use forgetest::test_output::parse_test_output;

#[test]
fn extract_empty_response_is_verbatim() {
    assert_eq!(extract_code_from_markdown(""), "");
}

#[test]
fn extract_unclosed_block_without_content_is_dropped() {
    // An unclosed trailing block is captured only when it has content.
    let input = "nothing here\n```rust";
    assert_eq!(extract_code_from_markdown(input), input);
}

#[test]
fn extract_close_fence_without_open_starts_a_block() {
    // A bare fence line outside a block opens an untagged block.
    let out = extract_code_from_markdown("```\ncontent\n```");
    assert_eq!(out, "content");
}

#[test]
fn parse_empty_test_output() {
    let result = parse_test_output("", 0);
    assert_eq!(result.passed, 0);
    assert_eq!(result.failed, 0);
    assert_eq!(result.ignored, 0);
    assert!(result.failures.is_empty());
}

#[test]
fn pass_at_k_at_the_largest_supported_attempt_count() {
    // n = 100 is the largest attempt count the exact estimator takes.
    assert_eq!(pass_at_k(100, 100, 1), 1_000_000);
    assert_eq!(pass_at_k(100, 0, 100), 0);
    assert_eq!(pass_at_k(100, 50, 1), 500_000);
    let nearly = pass_at_k(100, 1, 99);
    assert_eq!(nearly, 990_000);
}

#[test]
fn pass_at_k_with_one_attempt() {
    assert_eq!(pass_at_k(1, 0, 1), 0);
    assert_eq!(pass_at_k(1, 1, 1), 1_000_000);
}
