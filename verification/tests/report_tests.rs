//! Tests for report comparison and regression detection.
//!
//! Scores and thresholds are fixed-point values in millionths:
//! a threshold of 50_000 stands for 0.05.

use forgetest::report::{EvalReport, EvalSetSummary};
use forgetest::results::{
    CompilationResult, EvalResult, TestFailure, TestResult, TimingInfo, TokenUsage,
};
use forgetest::statistics::AggregateStats;

fn make_result(
    case_id: &str,
    model: &str,
    compile_ok: bool,
    passed: u32,
    failed: u32,
) -> EvalResult {
    EvalResult {
        case_id: case_id.into(),
        model: model.into(),
        provider: "test".into(),
        generated_code: "// test".into(),
        compilation: CompilationResult {
            success: compile_ok,
            errors: vec![],
            warnings: vec![],
            duration_ms: 100,
        },
        test_execution: if compile_ok {
            Some(TestResult {
                passed,
                failed,
                ignored: 0,
                duration_ms: 100,
                failures: if failed > 0 {
                    vec![TestFailure {
                        name: "test_example".into(),
                        message: "assertion failed".into(),
                        stdout: String::new(),
                    }]
                } else {
                    vec![]
                },
            })
        } else {
            None
        },
        clippy: None,
        timing: TimingInfo {
            llm_request_ms: 100,
            compilation_ms: 100,
            test_execution_ms: 100,
            total_ms: 300,
        },
        token_usage: TokenUsage {
            prompt_tokens: 10,
            completion_tokens: 20,
            total_tokens: 30,
            estimated_cost_microusd: 1000,
        },
        attempt: 1,
        run_id: 0,
    }
}

fn make_report(results: Vec<EvalResult>) -> EvalReport {
    let mut models: Vec<String> = Vec::new();
    for r in &results {
        if !models.contains(&r.model) {
            models.push(r.model.clone());
        }
    }
    EvalReport {
        id: 0,
        created_at_ms: 0,
        eval_set: EvalSetSummary {
            id: "test-set".into(),
            name: "Test Set".into(),
            case_count: results.len(),
        },
        models_evaluated: models,
        results,
        aggregate: AggregateStats { per_model: vec![], per_case: vec![] },
        duration_ms: 1000,
    }
}

#[test]
fn detect_regression_when_tests_start_failing() {
    let baseline = make_report(vec![
        make_result("fib", "model-a", true, 3, 0),
        make_result("palindrome", "model-a", true, 4, 0),
    ]);

    let current = make_report(vec![
        make_result("fib", "model-a", true, 1, 2), // regression
        make_result("palindrome", "model-a", true, 4, 0), // same
    ]);

    let report = current.compare(&baseline, 50_000);

    assert!(report.has_regressions());
    assert_eq!(report.regressions.len(), 1);
    assert_eq!(report.regressions[0].case_id, "fib");
    assert!(report.regressions[0].delta < 0);
}

#[test]
fn detect_regression_when_compilation_breaks() {
    let baseline = make_report(vec![make_result("fib", "model-a", true, 3, 0)]);
    let current = make_report(vec![make_result("fib", "model-a", false, 0, 0)]);

    let report = current.compare(&baseline, 50_000);

    assert!(report.has_regressions());
    assert_eq!(report.regressions[0].current_score, 0);
}

#[test]
fn detect_improvement() {
    let baseline = make_report(vec![make_result("fib", "model-a", true, 1, 2)]);
    let current = make_report(vec![make_result("fib", "model-a", true, 3, 0)]);

    let report = current.compare(&baseline, 50_000);

    assert!(!report.has_regressions());
    assert_eq!(report.improvements.len(), 1);
    assert!(report.improvements[0].delta > 0);
}

#[test]
fn no_change_with_identical_results() {
    let baseline = make_report(vec![
        make_result("fib", "model-a", true, 3, 0),
        make_result("palindrome", "model-a", true, 4, 0),
    ]);

    let report = baseline.compare(&baseline, 50_000);

    assert!(!report.has_regressions());
    assert!(report.improvements.is_empty());
    assert_eq!(report.unchanged, 2);
}

#[test]
fn detect_new_and_removed_cases() {
    let baseline = make_report(vec![
        make_result("old_case", "model-a", true, 3, 0),
        make_result("shared_case", "model-a", true, 2, 0),
    ]);

    let current = make_report(vec![
        make_result("shared_case", "model-a", true, 2, 0),
        make_result("new_case", "model-a", true, 5, 0),
    ]);

    let report = current.compare(&baseline, 50_000);

    assert_eq!(report.new_cases, 1);
    assert_eq!(report.removed_cases, 1);
}

#[test]
fn multi_model_regression() {
    let baseline = make_report(vec![
        make_result("fib", "model-a", true, 3, 0),
        make_result("fib", "model-b", true, 3, 0),
    ]);

    let current = make_report(vec![
        make_result("fib", "model-a", true, 3, 0), // same
        make_result("fib", "model-b", true, 0, 3), // regression
    ]);

    let report = current.compare(&baseline, 50_000);

    assert_eq!(report.regressions.len(), 1);
    assert_eq!(report.regressions[0].model, "model-b");
}

#[test]
fn threshold_controls_sensitivity() {
    let baseline = make_report(vec![make_result("fib", "model-a", true, 9, 1)]);
    // Slight change: 9/10 -> 8/10 in test pass rate
    let current = make_report(vec![make_result("fib", "model-a", true, 8, 2)]);

    // With strict threshold, this should be a regression
    let strict = current.compare(&baseline, 10_000);
    assert!(strict.has_regressions());

    // With relaxed threshold, this might not be flagged
    let relaxed = current.compare(&baseline, 500_000);
    assert!(!relaxed.has_regressions());
}

#[test]
fn compare_identical_reports() {
    let r1 = make_result("case1", "model1", true, 3, 0);
    let baseline = make_report(vec![r1.clone()]);
    let current = make_report(vec![r1]);

    let report = current.compare(&baseline, 50_000);
    assert!(report.regressions.is_empty());
    assert!(report.improvements.is_empty());
    assert_eq!(report.unchanged, 1);
}

#[test]
fn compare_with_regression() {
    let baseline = make_report(vec![make_result("case1", "model1", true, 3, 0)]);
    let current = make_report(vec![make_result("case1", "model1", false, 0, 0)]);

    let report = current.compare(&baseline, 50_000);
    assert_eq!(report.regressions.len(), 1);
    assert_eq!(report.regressions[0].case_id, "case1");
}

#[test]
fn compare_with_new_and_removed() {
    let baseline = make_report(vec![make_result("old_case", "model1", true, 1, 0)]);
    let current = make_report(vec![make_result("new_case", "model1", true, 1, 0)]);

    let report = current.compare(&baseline, 50_000);
    assert_eq!(report.new_cases, 1);
    assert_eq!(report.removed_cases, 1);
}

#[test]
fn regression_from_compile_break_has_large_delta() {
    // Baseline near 0.9, current exactly 0 from a compile failure: with a
    // threshold of 0.05 there is exactly one regression and its delta is
    // below -0.85.
    let baseline = make_report(vec![make_result("fib", "model-a", true, 9, 1)]);
    let current = make_report(vec![make_result("fib", "model-a", false, 0, 0)]);

    let report = current.compare(&baseline, 50_000);
    assert!(report.has_regressions());
    assert_eq!(report.regressions.len(), 1);
    assert_eq!(report.regressions[0].baseline_score, 950_000);
    assert_eq!(report.regressions[0].current_score, 0);
    assert!(report.regressions[0].delta < -850_000);
}

#[test]
fn best_attempt_of_a_pair_wins() {
    let baseline = make_report(vec![
        make_result("fib", "model-a", true, 1, 2),
        make_result("fib", "model-a", true, 3, 0),
    ]);
    let current = make_report(vec![make_result("fib", "model-a", true, 3, 0)]);

    let report = current.compare(&baseline, 50_000);
    assert!(!report.has_regressions());
    assert!(report.improvements.is_empty());
    assert_eq!(report.unchanged, 1);
}
