//! Tests for the Pass@k estimator and the aggregate rollups.
//!
//! Rates are fixed-point values in millionths: 1_000_000 stands for 1.0.

use forgetest::model::{EvalCase, EvalSet, Expectations};
use forgetest::results::{CompilationResult, EvalResult, TestResult, TimingInfo, TokenUsage};
use forgetest::statistics::{compute_aggregate_stats, compute_pass_at_k_batch, pass_at_k};

#[test]
fn pass_at_k_all_success() {
    assert_eq!(pass_at_k(10, 10, 1), 1_000_000);
}

#[test]
fn pass_at_k_all_failure() {
    assert_eq!(pass_at_k(10, 0, 1), 0);
}

#[test]
fn pass_at_k_half_success() {
    let score = pass_at_k(10, 5, 1);
    assert_eq!(score, 500_000, "expected exactly 0.5, got {score}");
}

#[test]
fn pass_at_k_10_with_1_success() {
    // With 10 samples and 1 correct, Pass@10 should be 1.0
    let score = pass_at_k(10, 1, 10);
    assert_eq!(score, 1_000_000, "expected 1.0, got {score}");
}

#[test]
fn pass_at_k_edge_k_greater_than_n() {
    let score = pass_at_k(5, 3, 10);
    assert!(score > 0);
    assert!(score <= 1_000_000);
}

#[test]
fn pass_at_k_edge_n_zero() {
    assert_eq!(pass_at_k(0, 0, 1), 0);
}

#[test]
fn pass_at_k_exact_estimator_value() {
    // n = 4, c = 2, k = 2: 1 - C(2,2)/C(4,2) = 1 - 1/6.
    assert_eq!(pass_at_k(4, 2, 2), 1_000_000 - 1_000_000 / 6 - 1);
    // The floor of 5/6 in millionths is 833333.
    assert_eq!(pass_at_k(4, 2, 2), 833_333);
}

#[test]
fn pass_at_k_monotone_spot_checks() {
    // Monotone in c.
    let mut prev = 0;
    for c in 0..=10 {
        let cur = pass_at_k(10, c, 3);
        assert!(cur >= prev, "c={c}: {cur} < {prev}");
        prev = cur;
    }
    // Monotone in k up to n.
    let mut prev = 0;
    for k in 0..=10 {
        let cur = pass_at_k(10, 4, k);
        assert!(cur >= prev, "k={k}: {cur} < {prev}");
        prev = cur;
    }
}

fn make_result(case_id: &str, model: &str, compile_ok: bool, passed: u32, failed: u32) -> EvalResult {
    EvalResult {
        case_id: case_id.into(),
        model: model.into(),
        provider: "test".into(),
        generated_code: String::new(),
        compilation: CompilationResult {
            success: compile_ok,
            errors: vec![],
            warnings: vec![],
            duration_ms: 10,
        },
        test_execution: if compile_ok {
            Some(TestResult {
                passed,
                failed,
                ignored: 0,
                duration_ms: 20,
                failures: vec![],
            })
        } else {
            None
        },
        clippy: None,
        timing: TimingInfo {
            llm_request_ms: 100,
            compilation_ms: 10,
            test_execution_ms: 20,
            total_ms: 130,
        },
        token_usage: TokenUsage {
            prompt_tokens: 10,
            completion_tokens: 20,
            total_tokens: 30,
            estimated_cost_microusd: 90,
        },
        attempt: 1,
        run_id: 0,
    }
}

fn set_with_case(id: &str) -> EvalSet {
    EvalSet {
        id: "set".into(),
        name: "Set".into(),
        description: String::new(),
        cases: vec![EvalCase {
            id: id.into(),
            name: id.into(),
            description: String::new(),
            prompt: "write code".into(),
            language: None,
            context: vec![],
            expectations: Expectations::default(),
            tags: vec![],
            dependencies: vec![],
            timeout_secs: None,
            max_tokens: None,
        }],
        default_language: forgetest::model::Language::Rust,
        default_timeout_secs: 60,
    }
}

#[test]
fn batch_groups_by_pair_and_counts_successes() {
    let results = vec![
        make_result("fib", "model-a", true, 3, 0),
        make_result("fib", "model-a", true, 1, 2),
        make_result("fib", "model-b", false, 0, 0),
    ];
    let set = set_with_case("fib");
    let batch = compute_pass_at_k_batch(&results, &set, &vec![1]);
    assert_eq!(batch.len(), 2);
    assert_eq!(batch[0].case_id, "fib");
    assert_eq!(batch[0].model, "model-a");
    // Two attempts, one success: Pass@1 = 1 - C(1,1)/C(2,1) = 1/2.
    assert_eq!(batch[0].scores, vec![(1, 500_000)]);
    // model-b never compiled.
    assert_eq!(batch[1].model, "model-b");
    assert_eq!(batch[1].scores, vec![(1, 0)]);
}

#[test]
fn aggregate_stats_per_model_and_case() {
    let results = vec![
        make_result("fib", "model-a", true, 3, 0),
        make_result("fib", "model-a", false, 0, 0),
    ];
    let set = set_with_case("fib");
    let agg = compute_aggregate_stats(&results, &set, &vec![1]);
    assert_eq!(agg.per_model.len(), 1);
    let ms = &agg.per_model[0];
    assert_eq!(ms.model, "model-a");
    // One of two compiled.
    assert_eq!(ms.avg_compilation_rate, 500_000);
    // One test stage, all passing.
    assert_eq!(ms.avg_test_pass_rate, 1_000_000);
    // No lint stage ran.
    assert_eq!(ms.avg_clippy_score, 0);
    assert_eq!(ms.total_tokens, 60);
    assert_eq!(ms.total_cost_microusd, 180);
    assert_eq!(ms.avg_latency_ms, 130);
    assert_eq!(ms.pass_at_k, vec![(1, 500_000)]);
    assert_eq!(agg.per_case.len(), 1);
    let cs = &agg.per_case[0];
    assert_eq!(cs.case_id, "fib");
    assert_eq!(cs.per_model_pass_rate, vec![("model-a".to_string(), 500_000)]);
}
