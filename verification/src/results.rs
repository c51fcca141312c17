//! Stage results, per-attempt eval results, and the scorer.
//!
//! Rates and scores are fixed-point values in millionths of a unit
//! (`RATE_SCALE` stands for 1.0), so that every scoring formula is exact
//! integer arithmetic.

use vstd::prelude::*;

use crate::model::Expectations;
use crate::RATE_SCALE;

verus! {

/// Severity of a toolchain diagnostic.
#[derive(Debug, Clone, Copy, PartialEq, Eq, Structural)]
pub enum DiagnosticLevel {
    Error,
    Warning,
    Note,
    Help,
}

/// A single source span of a diagnostic.
#[derive(Debug, Clone)]
pub struct DiagnosticSpan {
    pub file: String,
    pub line_start: u32,
    pub line_end: u32,
    pub column_start: u32,
    pub column_end: u32,
    /// The source text the span covers, when the toolchain reported it.
    pub text: Option<String>,
}

/// A typed diagnostic parsed from toolchain output.
#[derive(Debug, Clone)]
pub struct CompilerDiagnostic {
    pub level: DiagnosticLevel,
    pub message: String,
    /// Structured code identifier (e.g. "E0308"), when present.
    pub code: Option<String>,
    pub spans: Vec<DiagnosticSpan>,
}

/// Outcome of the compile stage.
#[derive(Debug, Clone)]
pub struct CompilationResult {
    /// Whether the build subprocess exited successfully.
    pub success: bool,
    pub errors: Vec<CompilerDiagnostic>,
    pub warnings: Vec<CompilerDiagnostic>,
    /// Wall-clock duration of the stage in milliseconds.
    pub duration_ms: u64,
}

/// One failing test, with what it printed.
#[derive(Debug, Clone)]
pub struct TestFailure {
    pub name: String,
    pub message: String,
    pub stdout: String,
}

/// Outcome of the test stage.
#[derive(Debug, Clone)]
pub struct TestResult {
    pub passed: u32,
    pub failed: u32,
    pub ignored: u32,
    /// Wall-clock duration of the stage in milliseconds.
    pub duration_ms: u64,
    pub failures: Vec<TestFailure>,
}

/// Outcome of the lint stage.
#[derive(Debug, Clone)]
pub struct ClippyResult {
    pub warnings: Vec<CompilerDiagnostic>,
    pub warning_count: u32,
}

/// Timing breakdown of one attempt, in milliseconds.
#[derive(Debug, Clone)]
pub struct TimingInfo {
    pub llm_request_ms: u64,
    pub compilation_ms: u64,
    pub test_execution_ms: u64,
    pub total_ms: u64,
}

/// Token usage of one attempt. Cost is in millionths of a dollar, which
/// the published per-token prices make exact.
#[derive(Debug, Clone)]
pub struct TokenUsage {
    pub prompt_tokens: u32,
    pub completion_tokens: u32,
    pub total_tokens: u32,
    pub estimated_cost_microusd: u64,
}

/// The result of one `(case, model, attempt)` task.
#[derive(Debug, Clone)]
pub struct EvalResult {
    pub case_id: String,
    pub model: String,
    pub provider: String,
    pub generated_code: String,
    pub compilation: CompilationResult,
    /// Absent when compilation failed, tests are not expected, or no test
    /// source was supplied.
    pub test_execution: Option<TestResult>,
    /// Absent when compilation failed.
    pub clippy: Option<ClippyResult>,
    pub timing: TimingInfo,
    pub token_usage: TokenUsage,
    /// 1-based attempt number.
    pub attempt: u32,
    /// Identifier of the run that produced this result.
    pub run_id: u128,
}

/// Test component of the score: passed / (passed + failed), zero when no
/// test ran at all.
pub open spec fn spec_tests_rate(passed: u32, failed: u32) -> int {
    if passed + failed == 0 {
        0
    } else {
        (RATE_SCALE * passed) as int / (passed + failed) as int
    }
}

/// Lint component of the score: max(0, 1 - warning_count / 10).
pub open spec fn spec_clippy_rate(warning_count: u32) -> int {
    if warning_count >= 10 {
        0
    } else {
        (10 - warning_count) * (RATE_SCALE as int / 10)
    }
}

/// The overall weighted score of a result:
/// 0.4 * compilation + 0.5 * tests + 0.1 * lint, where a skipped test
/// stage contributes zero and a skipped lint stage contributes full lint
/// credit; a result that failed to compile scores exactly zero.
pub open spec fn spec_overall(r: EvalResult) -> int {
    if !r.compilation.success {
        0
    } else {
        let tests = match r.test_execution {
            Some(t) => (5 * spec_tests_rate(t.passed, t.failed)) / 10,
            None => 0,
        };
        let lint = match r.clippy {
            Some(c) => spec_clippy_rate(c.warning_count) / 10,
            None => RATE_SCALE as int / 10,
        };
        (4 * RATE_SCALE as int) / 10 + tests + lint
    }
}

/// The component scores of one result, in millionths of a unit.
#[derive(Debug, Clone, Copy)]
pub struct Score {
    /// 1.0 when the code compiled, else 0.0.
    pub compilation: u64,
    /// passed / (passed + failed); 0.0 when the test stage was skipped or
    /// ran no test.
    pub tests: u64,
    /// max(0, 1 - 0.1 * warnings); 1.0 when the lint stage was skipped.
    pub clippy: u64,
    /// The weighted overall score.
    pub overall: u64,
}

impl Score {
    /// Computes the component and overall scores of one result.
    ///
    /// The expectations parameter is part of the scoring interface; the
    /// canonical weights do not depend on it.
    pub fn compute(r: &EvalResult, _expectations: &Expectations) -> (s: Score)
        ensures
            s.compilation == if r.compilation.success {
                RATE_SCALE as int
            } else {
                0
            },
            s.tests == match r.test_execution {
                Some(t) => spec_tests_rate(t.passed, t.failed),
                None => 0,
            },
            s.clippy == match r.clippy {
                Some(c) => spec_clippy_rate(c.warning_count),
                None => RATE_SCALE as int,
            },
            s.overall == spec_overall(*r),
            s.overall <= RATE_SCALE,
    {
        let compilation: u64 = if r.compilation.success {
            RATE_SCALE
        } else {
            0
        };
        let tests: u64 = match &r.test_execution {
            Some(t) => {
                let total: u64 = t.passed as u64 + t.failed as u64;
                if total == 0 {
                    0
                } else {
                    RATE_SCALE * (t.passed as u64) / total
                }
            },
            None => 0,
        };
        let clippy: u64 = match &r.clippy {
            Some(c) => {
                if c.warning_count >= 10 {
                    0
                } else {
                    let d: u64 = 10 - c.warning_count as u64;
                    d * 100_000
                }
            },
            None => RATE_SCALE,
        };
        let overall: u64 = if !r.compilation.success {
            0
        } else {
            let test_term: u64 = match &r.test_execution {
                Some(t) => {
                    let total: u64 = t.passed as u64 + t.failed as u64;
                    if total == 0 {
                        0
                    } else {
                        proof {
                            vstd::arithmetic::div_mod::lemma_div_is_ordered(
                                (RATE_SCALE * t.passed) as int,
                                (RATE_SCALE * total) as int,
                                total as int,
                            );
                            vstd::arithmetic::div_mod::lemma_div_by_multiple(
                                RATE_SCALE as int,
                                total as int,
                            );
                            assert((5 * ((RATE_SCALE * t.passed) as int / total as int)) / 10 <= (5
                                * RATE_SCALE as int) / 10) by {
                                vstd::arithmetic::div_mod::lemma_div_is_ordered(
                                    5 * ((RATE_SCALE * t.passed) as int / total as int),
                                    5 * RATE_SCALE as int,
                                    10,
                                );
                            }
                        }
                        5 * (RATE_SCALE * (t.passed as u64) / total) / 10
                    }
                },
                None => 0,
            };
            let lint_term: u64 = match &r.clippy {
                Some(c) => {
                    if c.warning_count >= 10 {
                        0
                    } else {
                        let d: u64 = 10 - c.warning_count as u64;
                        d * 100_000 / 10
                    }
                },
                None => RATE_SCALE / 10,
            };
            4 * RATE_SCALE / 10 + test_term + lint_term
        };
        Score { compilation, tests, clippy, overall }
    }
}

/// A result counts as functionally correct for Pass@k when it compiled
/// and at least 99% of its tests passed; lint does not count.
pub open spec fn spec_pass_success(r: EvalResult) -> bool {
    &&& r.compilation.success
    &&& match r.test_execution {
        Some(t) => spec_tests_rate(t.passed, t.failed) >= 990_000,
        None => false,
    }
}

/// Decides functional correctness of one result, as Pass@k counts it.
pub fn is_pass_success(r: &EvalResult) -> (b: bool)
    ensures
        b == spec_pass_success(*r),
{
    if !r.compilation.success {
        return false;
    }
    match &r.test_execution {
        Some(t) => {
            let total: u64 = t.passed as u64 + t.failed as u64;
            if total == 0 {
                false
            } else {
                RATE_SCALE * (t.passed as u64) / total >= 990_000
            }
        },
        None => false,
    }
}

} // verus!
