//! Tests for the engine's decision logic and the scorer.

use forgetest::engine::{
    assemble_eval_result, build_generate_request, expand_tasks, initial_retry_state, max_pass_k,
    on_provider_error, should_run_clippy, should_run_tests, EvalEngineConfig, ModelSpec,
    RetryAction,
};
use forgetest::errors::ProviderError;
use forgetest::model::{EvalCase, Expectations, Language};
use forgetest::results::{
    ClippyResult, CompilationResult, EvalResult, Score, TestResult, TokenUsage,
};

fn usage() -> TokenUsage {
    TokenUsage {
        prompt_tokens: 10,
        completion_tokens: 20,
        total_tokens: 30,
        estimated_cost_microusd: 330,
    }
}

fn compile(ok: bool) -> CompilationResult {
    CompilationResult { success: ok, errors: vec![], warnings: vec![], duration_ms: 50 }
}

fn tests(passed: u32, failed: u32) -> TestResult {
    TestResult { passed, failed, ignored: 0, duration_ms: 70, failures: vec![] }
}

fn clippy(warnings: u32) -> ClippyResult {
    ClippyResult { warnings: vec![], warning_count: warnings }
}

fn case_with_tests() -> EvalCase {
    EvalCase {
        id: "add".into(),
        name: "Add".into(),
        description: String::new(),
        prompt: "Write add".into(),
        language: Some(Language::Rust),
        context: vec![],
        expectations: Expectations {
            test_file: Some("#[test] fn t() {}".into()),
            ..Expectations::default()
        },
        tags: vec![],
        dependencies: vec![],
        timeout_secs: None,
        max_tokens: None,
    }
}

fn assemble(
    exp: &Expectations,
    compilation: CompilationResult,
    test_execution: Option<TestResult>,
    clippy_res: Option<ClippyResult>,
) -> EvalResult {
    assemble_eval_result(
        "add".into(),
        "model-a".into(),
        "prov".into(),
        "code".into(),
        exp,
        compilation,
        test_execution,
        clippy_res,
        100,
        usage(),
        1,
        7,
    )
}

#[test]
fn expansion_covers_the_cross_product_in_order() {
    let models = vec![
        ModelSpec { provider: "anthropic".into(), model: "m1".into() },
        ModelSpec { provider: "unknown".into(), model: "m2".into() },
        ModelSpec { provider: "openai".into(), model: "m3".into() },
    ];
    let registered = vec!["anthropic".to_string(), "openai".to_string()];
    let tasks = expand_tasks(&models, &registered, 2, 2);
    // The unregistered provider's model is skipped.
    assert_eq!(tasks.len(), 2 * 2 * 2);
    let triples: Vec<(usize, usize, u32)> =
        tasks.iter().map(|t| (t.model_index, t.case_index, t.attempt)).collect();
    assert_eq!(
        triples,
        vec![
            (0, 0, 1),
            (0, 0, 2),
            (0, 1, 1),
            (0, 1, 2),
            (2, 0, 1),
            (2, 0, 2),
            (2, 1, 1),
            (2, 1, 2),
        ]
    );
    // Attempts lie in [1, max_k] and the triples are pairwise distinct.
    for (i, a) in triples.iter().enumerate() {
        assert!(1 <= a.2 && a.2 <= 2);
        for b in &triples[i + 1..] {
            assert_ne!(a, b);
        }
    }
}

#[test]
fn max_pass_k_defaults_to_one() {
    assert_eq!(max_pass_k(&vec![]), 1);
    assert_eq!(max_pass_k(&vec![1, 5, 10]), 10);
    assert_eq!(max_pass_k(&vec![3]), 3);
}

#[test]
fn retry_on_rate_limit_sleeps_twice_with_the_hint() {
    // The provider returns a rate limit with a one-second hint twice,
    // then succeeds: exactly two sleeps, each using the hint.
    let config = EvalEngineConfig::default();
    let s0 = initial_retry_state(&config);
    let err = ProviderError::RateLimited { retry_after_ms: 1000 };

    let a1 = on_provider_error(&s0, &err);
    let s1 = match a1 {
        RetryAction::SleepRetry { sleep_ms, next } => {
            assert_eq!(sleep_ms, 1000);
            next
        },
        RetryAction::Fail => panic!("transient error must be retried"),
    };
    assert_eq!(s1.retries_left, 2);
    assert_eq!(s1.delay_ms, 2000);

    let a2 = on_provider_error(&s1, &err);
    match a2 {
        RetryAction::SleepRetry { sleep_ms, next } => {
            assert_eq!(sleep_ms, 1000);
            assert_eq!(next.retries_left, 1);
        },
        RetryAction::Fail => panic!("transient error must be retried"),
    }
    // The third call returns a success, so no further decision is made:
    // the run records exactly one result, with the final response's usage.
}

#[test]
fn permanent_errors_abort_immediately() {
    let config = EvalEngineConfig::default();
    let s0 = initial_retry_state(&config);
    let auth = ProviderError::AuthenticationFailed("bad".into());
    assert_eq!(on_provider_error(&s0, &auth), RetryAction::Fail);
    let missing = ProviderError::ModelNotFound("m".into());
    assert_eq!(on_provider_error(&s0, &missing), RetryAction::Fail);
}

#[test]
fn backoff_doubles_and_caps_at_a_minute() {
    let mut state = forgetest::engine::RetryState { retries_left: 10, delay_ms: 20_000 };
    let err = ProviderError::NetworkError("down".into());
    let mut sleeps = Vec::new();
    loop {
        match on_provider_error(&state, &err) {
            RetryAction::SleepRetry { sleep_ms, next } => {
                sleeps.push(sleep_ms);
                state = next;
            },
            RetryAction::Fail => break,
        }
    }
    assert_eq!(sleeps, vec![
        20_000, 40_000, 60_000, 60_000, 60_000, 60_000, 60_000, 60_000, 60_000, 60_000,
    ]);
}

#[test]
fn stage_gates_follow_compile_and_expectations() {
    let with_tests = case_with_tests().expectations;
    assert!(should_run_tests(true, &with_tests));
    assert!(!should_run_tests(false, &with_tests));
    let no_source = Expectations::default();
    assert!(!should_run_tests(true, &no_source));
    let mut no_tests = case_with_tests().expectations;
    no_tests.should_pass_tests = false;
    assert!(!should_run_tests(true, &no_tests));
    assert!(should_run_clippy(true));
    assert!(!should_run_clippy(false));
}

#[test]
fn result_invariants_on_compile_failure() {
    // A result whose compilation failed records no test and no lint
    // stage, even when the driver handed them in.
    let exp = case_with_tests().expectations;
    let r = assemble(&exp, compile(false), Some(tests(1, 0)), Some(clippy(0)));
    assert!(r.test_execution.is_none());
    assert!(r.clippy.is_none());
    assert_eq!(r.timing.total_ms, 100 + 50 + 0);
}

#[test]
fn result_timing_totals_generation_compile_and_tests() {
    let exp = case_with_tests().expectations;
    let r = assemble(&exp, compile(true), Some(tests(3, 0)), Some(clippy(1)));
    assert!(r.test_execution.is_some());
    assert!(r.clippy.is_some());
    assert_eq!(r.timing.llm_request_ms, 100);
    assert_eq!(r.timing.compilation_ms, 50);
    assert_eq!(r.timing.test_execution_ms, 70);
    assert_eq!(r.timing.total_ms, 220);
    assert!(r.timing.total_ms >= r.timing.llm_request_ms + r.timing.compilation_ms
        + r.timing.test_execution_ms);
    assert_eq!(r.attempt, 1);
    assert_eq!(r.run_id, 7);
}

#[test]
fn request_carries_case_prompt_and_overrides() {
    let mut case = case_with_tests();
    case.max_tokens = Some(512);
    let config = EvalEngineConfig::default();
    let req = build_generate_request(&case, &config, &"model-x".to_string());
    assert_eq!(req.model, "model-x");
    assert_eq!(req.prompt, "Write add");
    assert_eq!(req.max_tokens, 512);
    assert_eq!(req.temperature_milli, 0);
    assert!(req.system_prompt.is_none());
    assert!(req.stop_sequences.is_empty());
}

// --- Scorer scenarios ---

#[test]
fn score_perfect_compile_and_tests() {
    let exp = case_with_tests().expectations;
    let r = assemble(&exp, compile(true), Some(tests(3, 0)), Some(clippy(0)));
    assert!(r.compilation.success);
    let t = r.test_execution.as_ref().unwrap();
    assert!(t.passed >= 1);
    assert_eq!(t.failed, 0);
    let score = Score::compute(&r, &exp);
    assert!(score.overall > 800_000, "expected > 0.8, got {}", score.overall);
    assert_eq!(score.overall, 1_000_000);
}

#[test]
fn score_syntax_error_is_zero() {
    let exp = case_with_tests().expectations;
    let r = assemble(&exp, compile(false), None, None);
    assert!(!r.compilation.success);
    assert!(r.test_execution.is_none());
    assert!(r.clippy.is_none());
    let score = Score::compute(&r, &exp);
    assert_eq!(score.overall, 0);
}

#[test]
fn score_logic_bug_is_intermediate() {
    let exp = case_with_tests().expectations;
    let r = assemble(&exp, compile(true), Some(tests(1, 1)), Some(clippy(0)));
    let t = r.test_execution.as_ref().unwrap();
    assert!(t.failed >= 1);
    let score = Score::compute(&r, &exp);
    assert!(score.overall > 0 && score.overall < 900_000,
        "expected an intermediate score, got {}", score.overall);
    assert_eq!(score.overall, 400_000 + 250_000 + 100_000);
}

#[test]
fn score_empty_generation_caps_at_half() {
    // Empty source compiles; the battery produces no runnable test, so
    // the test stage reports zero passed and zero failed.
    let exp = case_with_tests().expectations;
    let r = assemble(&exp, compile(true), Some(tests(0, 0)), Some(clippy(0)));
    let t = r.test_execution.as_ref().unwrap();
    assert_eq!(t.passed + t.failed, 0);
    let score = Score::compute(&r, &exp);
    assert!(score.overall <= 500_000, "expected <= 0.5, got {}", score.overall);
    assert_eq!(score.overall, 500_000);
}

#[test]
fn score_lint_warnings_reduce_the_lint_component() {
    let exp = case_with_tests().expectations;
    let r = assemble(&exp, compile(true), Some(tests(1, 0)), Some(clippy(3)));
    let score = Score::compute(&r, &exp);
    assert_eq!(score.clippy, 700_000);
    assert_eq!(score.overall, 400_000 + 500_000 + 70_000);
    let r10 = assemble(&exp, compile(true), Some(tests(1, 0)), Some(clippy(12)));
    let score10 = Score::compute(&r10, &exp);
    assert_eq!(score10.clippy, 0);
}
