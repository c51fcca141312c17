//! The evaluation engine's decision logic.
//!
//! The engine expands (case x model x attempt) into tasks, retries
//! generation on transient provider errors with exponential backoff, gates
//! the test and lint stages on the compile outcome, and assembles one
//! result per task. The driver that performs network calls, subprocesses
//! and sleeps lives outside the library and consults these functions for
//! every decision.

use vstd::prelude::*;

use crate::errors::ProviderError;
use crate::model::{ContextFile, EvalCase, Expectations};
use crate::providers::GenerateRequest;
use crate::results::{ClippyResult, CompilationResult, EvalResult, TestResult, TimingInfo, TokenUsage};

verus! {

/// Configuration for the eval engine.
#[derive(Debug, Clone)]
pub struct EvalEngineConfig {
    /// Maximum concurrent evals.
    pub parallelism: usize,
    /// Pass@k values to compute (e.g. [1, 5, 10]).
    pub pass_k: Vec<u32>,
    /// Temperature for generation, in thousandths.
    pub temperature_milli: u32,
    /// Max tokens for generation.
    pub max_tokens: u32,
    /// Retries on transient provider errors (not code failures).
    pub max_retries_per_case: u32,
    /// Initial delay between retries, in milliseconds.
    pub retry_delay_ms: u64,
    /// Optional system prompt override.
    pub system_prompt_override: Option<String>,
}

impl Default for EvalEngineConfig {
    /// Four workers, Pass@1 only, deterministic sampling, three retries
    /// spaced a second apart.
    fn default() -> (r: Self)
        ensures
            r.parallelism == 4,
            r.pass_k@ == seq![1u32],
            r.temperature_milli == 0,
            r.max_tokens == 4096,
            r.max_retries_per_case == 3,
            r.retry_delay_ms == 1000,
            r.system_prompt_override is None,
    {
        let mut pass_k: Vec<u32> = Vec::new();
        pass_k.push(1);
        proof {
            assert(pass_k@ =~= seq![1u32]);
        }
        EvalEngineConfig {
            parallelism: 4,
            pass_k,
            temperature_milli: 0,
            max_tokens: 4096,
            max_retries_per_case: 3,
            retry_delay_ms: 1000,
            system_prompt_override: None,
        }
    }
}

/// Which model to evaluate: a provider name and a model identifier.
#[derive(Debug, Clone)]
pub struct ModelSpec {
    /// Provider name (e.g. "anthropic").
    pub provider: String,
    /// Model identifier.
    pub model: String,
}

/// Progress reporting: the engine's driver announces task starts,
/// completions, errors, and one final set-complete event.
pub trait ProgressReporter {
    fn on_eval_start(&self, case_id: &str, model: &str, attempt: u32);

    fn on_eval_complete(&self, result: &EvalResult);

    fn on_eval_error(&self, case_id: &str, model: &str, error: &str);

    fn on_set_complete(&self, total: usize, completed: usize, failed: usize, elapsed_ms: u64);
}

/// No-op progress reporter.
pub struct NoopReporter;

impl ProgressReporter for NoopReporter {
    fn on_eval_start(&self, _case_id: &str, _model: &str, _attempt: u32) {
    }

    fn on_eval_complete(&self, _result: &EvalResult) {
    }

    fn on_eval_error(&self, _case_id: &str, _model: &str, _error: &str) {
    }

    fn on_set_complete(&self, _total: usize, _completed: usize, _failed: usize, _elapsed_ms: u64) {
    }
}

/// The largest requested Pass@k value, or 1 when none is requested.
pub open spec fn spec_max_k(ks: Seq<u32>) -> int
    decreases ks.len(),
{
    if ks.len() == 0 {
        1
    } else {
        let rest = spec_max_k(ks.drop_last());
        if ks.last() > rest {
            ks.last() as int
        } else {
            rest
        }
    }
}

/// The number of attempts per (case, model): the largest requested k.
pub fn max_pass_k(ks: &Vec<u32>) -> (r: u32)
    ensures
        r == spec_max_k(ks@),
        r >= 1,
{
    let mut best: u32 = 1;
    let mut i: usize = 0;
    proof {
        assert(ks@.take(0) =~= Seq::<u32>::empty());
    }
    while i < ks.len()
        invariant
            i <= ks@.len(),
            best == spec_max_k(ks@.take(i as int)),
            best >= 1,
        decreases ks@.len() - i,
    {
        proof {
            assert(ks@.take(i as int + 1).drop_last() =~= ks@.take(i as int));
            assert(ks@.take(i as int + 1).last() == ks@[i as int]);
        }
        if ks[i] > best {
            best = ks[i];
        }
        i = i + 1;
    }
    proof {
        assert(ks@.take(i as int) =~= ks@);
    }
    best
}

/// One scheduled unit of work: an attempt of one case against one model.
#[derive(Debug, Clone, Copy, PartialEq, Eq, Structural)]
pub struct Task {
    /// Index into the model list.
    pub model_index: usize,
    /// Index into the case list.
    pub case_index: usize,
    /// 1-based attempt number.
    pub attempt: u32,
}

/// The attempts 1..=mk of one (model, case), in order.
pub open spec fn attempts_block(mi: int, ci: int, mk: int) -> Seq<Task>
    decreases mk,
{
    if mk <= 0 {
        Seq::empty()
    } else {
        attempts_block(mi, ci, mk - 1).push(
            Task { model_index: mi as usize, case_index: ci as usize, attempt: mk as u32 },
        )
    }
}

/// The tasks of one model over the cases 0..cc, in case order.
pub open spec fn cases_block(mi: int, cc: int, mk: int) -> Seq<Task>
    decreases cc,
{
    if cc <= 0 {
        Seq::empty()
    } else {
        cases_block(mi, cc - 1, mk) + attempts_block(mi, cc - 1, mk)
    }
}

/// The tasks of the selected models, in model order.
pub open spec fn spec_expand(sel: Seq<int>, cc: int, mk: int) -> Seq<Task>
    decreases sel.len(),
{
    if sel.len() == 0 {
        Seq::empty()
    } else {
        spec_expand(sel.drop_last(), cc, mk) + cases_block(sel.last(), cc, mk)
    }
}

/// Is the model's provider among the registered provider names?
pub open spec fn provider_registered(m: ModelSpec, registered: Seq<Seq<char>>) -> bool {
    exists|i: int| 0 <= i < registered.len() && registered[i] == m.provider@
}

/// The indices of the models whose provider is registered, ascending.
pub open spec fn selected_models(models: Seq<ModelSpec>, registered: Seq<Seq<char>>, n: int) -> Seq<
    int,
>
    decreases n,
{
    if n <= 0 {
        Seq::empty()
    } else if provider_registered(models[n - 1], registered) {
        selected_models(models, registered, n - 1).push(n - 1)
    } else {
        selected_models(models, registered, n - 1)
    }
}

/// Expands the cross product (case x model x attempt) into tasks: for
/// each model whose provider is registered, in input order, each case in
/// set order, each attempt 1 to max_k. Models of unregistered providers
/// are skipped.
pub fn expand_tasks(
    models: &Vec<ModelSpec>,
    registered: &Vec<String>,
    case_count: usize,
    max_k: u32,
) -> (r: Vec<Task>)
    ensures
        r@ == spec_expand(
            selected_models(models@, registered@.map_values(|s: String| s@), models@.len() as int),
            case_count as int,
            max_k as int,
        ),
{
    let ghost regv = registered@.map_values(|s: String| s@);
    let mut out: Vec<Task> = Vec::new();
    let mut mi: usize = 0;
    while mi < models.len()
        invariant
            mi <= models@.len(),
            regv == registered@.map_values(|s: String| s@),
            out@ == spec_expand(
                selected_models(models@, regv, mi as int),
                case_count as int,
                max_k as int,
            ),
        decreases models@.len() - mi,
    {
        let ghost sel0 = selected_models(models@, regv, mi as int);
        let m = &models[mi];
        let mut found = false;
        let mut ri: usize = 0;
        while ri < registered.len()
            invariant
                ri <= registered@.len(),
                regv == registered@.map_values(|s: String| s@),
                m.provider@ == models@[mi as int].provider@,
                found ==> provider_registered(models@[mi as int], regv),
                !found ==> forall|j: int| 0 <= j < ri ==> regv[j] != models@[mi as int].provider@,
            decreases registered@.len() - ri,
        {
            proof {
                assert(regv[ri as int] == registered@[ri as int]@);
            }
            if !found && registered[ri].eq(&m.provider) {
                found = true;
            }
            ri = ri + 1;
        }
        if found {
            // All attempts of all cases for this model.
            let ghost base = out@;
            let mut ci: usize = 0;
            while ci < case_count
                invariant
                    ci <= case_count,
                    mi < models@.len(),
                    out@ == base + cases_block(mi as int, ci as int, max_k as int),
                decreases case_count - ci,
            {
                let ghost cbase = out@;
                let mut a: u64 = 1;
                while a <= max_k as u64
                    invariant
                        1 <= a <= max_k as u64 + 1,
                        mi < models@.len(),
                        ci < case_count,
                        out@ == cbase + attempts_block(mi as int, ci as int, a as int - 1),
                    decreases max_k as u64 + 1 - a,
                {
                    out.push(Task { model_index: mi, case_index: ci, attempt: a as u32 });
                    proof {
                        assert(out@ =~= cbase + attempts_block(mi as int, ci as int, a as int));
                    }
                    a = a + 1;
                }
                proof {
                    assert(base + cases_block(mi as int, ci as int, max_k as int) + attempts_block(
                        mi as int,
                        ci as int,
                        max_k as int,
                    ) =~= base + cases_block(mi as int, ci as int + 1, max_k as int));
                }
                ci = ci + 1;
            }
            proof {
                assert(selected_models(models@, regv, mi as int + 1) == sel0.push(mi as int));
                assert(sel0.push(mi as int).drop_last() =~= sel0);
                assert(sel0.push(mi as int).last() == mi as int);
                assert(out@ == spec_expand(sel0.push(mi as int), case_count as int, max_k as int));
            }
        } else {
            proof {
                assert(!provider_registered(models@[mi as int], regv));
                assert(selected_models(models@, regv, mi as int + 1) == sel0);
            }
        }
        mi = mi + 1;
    }
    out
}

/// Every expanded task names an attempt between 1 and max_k, and no two
/// expanded tasks coincide: the triple (model, case, attempt) is unique
/// within one run.
pub proof fn lemma_tasks_unique(sel: Seq<int>, cc: int, mk: int)
    requires
        cc <= usize::MAX,
        mk <= u32::MAX,
        forall|i: int| 0 <= i < sel.len() ==> 0 <= #[trigger] sel[i] <= usize::MAX,
        forall|i: int, j: int| 0 <= i < j < sel.len() ==> sel[i] != sel[j],
    ensures
        forall|t: int|
            0 <= t < spec_expand(sel, cc, mk).len() ==> 1 <= (#[trigger] spec_expand(
                sel,
                cc,
                mk,
            )[t]).attempt <= mk,
        forall|t1: int, t2: int|
            0 <= t1 < t2 < spec_expand(sel, cc, mk).len() ==> spec_expand(sel, cc, mk)[t1]
                != spec_expand(sel, cc, mk)[t2],
    decreases sel.len(),
{
    if sel.len() > 0 {
        let pre = sel.drop_last();
        assert(forall|i: int, j: int| 0 <= i < j < pre.len() ==> pre[i] != pre[j]);
        lemma_tasks_unique(pre, cc, mk);
        lemma_cases_block_tasks(sel.last(), cc, mk);
        assert forall|t: int|
            0 <= t < spec_expand(sel, cc, mk).len() implies 1 <= (#[trigger] spec_expand(
            sel,
            cc,
            mk,
        )[t]).attempt <= mk by {
            if t < spec_expand(pre, cc, mk).len() {
                assert(spec_expand(sel, cc, mk)[t] == spec_expand(pre, cc, mk)[t]);
            } else {
                assert(spec_expand(sel, cc, mk)[t] == cases_block(sel.last(), cc, mk)[t
                    - spec_expand(pre, cc, mk).len()]);
            }
        }
        lemma_expand_models(pre, cc, mk);
        assert forall|t1: int, t2: int|
            0 <= t1 < t2 < spec_expand(sel, cc, mk).len() implies spec_expand(sel, cc, mk)[t1]
            != spec_expand(sel, cc, mk)[t2] by {
            let n = spec_expand(pre, cc, mk).len();
            if t2 < n {
                assert(spec_expand(sel, cc, mk)[t1] == spec_expand(pre, cc, mk)[t1]);
                assert(spec_expand(sel, cc, mk)[t2] == spec_expand(pre, cc, mk)[t2]);
            } else if t1 >= n {
                assert(spec_expand(sel, cc, mk)[t1] == cases_block(sel.last(), cc, mk)[t1 - n]);
                assert(spec_expand(sel, cc, mk)[t2] == cases_block(sel.last(), cc, mk)[t2 - n]);
            } else {
                // t1 names an earlier model, t2 the last one.
                assert(spec_expand(sel, cc, mk)[t1] == spec_expand(pre, cc, mk)[t1]);
                assert(spec_expand(sel, cc, mk)[t2] == cases_block(sel.last(), cc, mk)[t2 - n]);
                assert(contains_model(pre, spec_expand(pre, cc, mk)[t1].model_index as int));
                assert(cases_block(sel.last(), cc, mk)[t2 - n].model_index as int == sel.last());
            }
        }
    }
}

/// Membership of a model index in a selection.
pub open spec fn contains_model(sel: Seq<int>, mi: int) -> bool {
    exists|i: int| 0 <= i < sel.len() && sel[i] == mi
}

proof fn lemma_expand_models(sel: Seq<int>, cc: int, mk: int)
    requires
        cc <= usize::MAX,
        mk <= u32::MAX,
        forall|i: int| 0 <= i < sel.len() ==> 0 <= #[trigger] sel[i] <= usize::MAX,
    ensures
        forall|t: int|
            0 <= t < spec_expand(sel, cc, mk).len() ==> contains_model(
                sel,
                (#[trigger] spec_expand(sel, cc, mk)[t]).model_index as int,
            ),
    decreases sel.len(),
{
    if sel.len() > 0 {
        let pre = sel.drop_last();
        lemma_expand_models(pre, cc, mk);
        lemma_cases_block_tasks(sel.last(), cc, mk);
        assert forall|t: int|
            0 <= t < spec_expand(sel, cc, mk).len() implies contains_model(
            sel,
            (#[trigger] spec_expand(sel, cc, mk)[t]).model_index as int,
        ) by {
            let n = spec_expand(pre, cc, mk).len();
            if t < n {
                assert(spec_expand(sel, cc, mk)[t] == spec_expand(pre, cc, mk)[t]);
                assert(contains_model(pre, spec_expand(pre, cc, mk)[t].model_index as int));
                let w = choose|i: int|
                    0 <= i < pre.len() && pre[i] == spec_expand(pre, cc, mk)[t].model_index as int;
                assert(sel[w] == spec_expand(pre, cc, mk)[t].model_index as int);
            } else {
                assert(spec_expand(sel, cc, mk)[t] == cases_block(sel.last(), cc, mk)[t - n]);
                assert(sel[sel.len() - 1] == sel.last());
            }
        }
    }
}

proof fn lemma_attempts_block_tasks(mi: int, ci: int, mk: int)
    requires
        0 <= mi <= usize::MAX,
        0 <= ci <= usize::MAX,
        mk <= u32::MAX,
    ensures
        attempts_block(mi, ci, mk).len() == if mk <= 0 {
            0
        } else {
            mk
        },
        forall|t: int|
            0 <= t < attempts_block(mi, ci, mk).len() ==> #[trigger] attempts_block(mi, ci, mk)[t]
                == (Task {
                model_index: mi as usize,
                case_index: ci as usize,
                attempt: (t + 1) as u32,
            }),
    decreases mk,
{
    if mk > 0 {
        lemma_attempts_block_tasks(mi, ci, mk - 1);
    }
}

proof fn lemma_cases_block_tasks(mi: int, cc: int, mk: int)
    requires
        0 <= mi <= usize::MAX,
        cc <= usize::MAX,
        mk <= u32::MAX,
    ensures
        forall|t: int|
            0 <= t < cases_block(mi, cc, mk).len() ==> {
                &&& (#[trigger] cases_block(mi, cc, mk)[t]).model_index == mi
                &&& 0 <= cases_block(mi, cc, mk)[t].case_index < cc
                &&& 1 <= cases_block(mi, cc, mk)[t].attempt <= mk
            },
        forall|t1: int, t2: int|
            0 <= t1 < t2 < cases_block(mi, cc, mk).len() ==> cases_block(mi, cc, mk)[t1]
                != cases_block(mi, cc, mk)[t2],
    decreases cc,
{
    if cc > 0 {
        lemma_cases_block_tasks(mi, cc - 1, mk);
        lemma_attempts_block_tasks(mi, cc - 1, mk);
        let whole = cases_block(mi, cc, mk);
        let pre = cases_block(mi, cc - 1, mk);
        let blk = attempts_block(mi, cc - 1, mk);
        assert forall|t: int| 0 <= t < whole.len() implies {
            &&& (#[trigger] whole[t]).model_index == mi
            &&& 0 <= whole[t].case_index < cc
            &&& 1 <= whole[t].attempt <= mk
        } by {
            if t < pre.len() {
                assert(whole[t] == pre[t]);
            } else {
                assert(whole[t] == blk[t - pre.len()]);
            }
        }
        assert forall|t1: int, t2: int|
            0 <= t1 < t2 < whole.len() implies whole[t1] != whole[t2] by {
            if t2 < pre.len() {
                assert(whole[t1] == pre[t1] && whole[t2] == pre[t2]);
            } else if t1 >= pre.len() {
                assert(whole[t1] == blk[t1 - pre.len()] && whole[t2] == blk[t2 - pre.len()]);
            } else {
                assert(whole[t1] == pre[t1] && whole[t2] == blk[t2 - pre.len()]);
                assert(pre[t1].case_index < cc - 1);
                assert(blk[t2 - pre.len()].case_index == cc - 1);
            }
        }
    }
}

/// The retry budget and the next backoff delay of one task.
#[derive(Debug, Clone, Copy, PartialEq, Eq, Structural)]
pub struct RetryState {
    /// Retries left after the attempt that just failed.
    pub retries_left: u32,
    /// Delay before the next retry, in milliseconds.
    pub delay_ms: u64,
}

/// What to do after a provider call failed.
#[derive(Debug, Clone, Copy, PartialEq, Eq, Structural)]
pub enum RetryAction {
    /// Give up: the error is permanent or the budget is exhausted.
    Fail,
    /// Sleep for the given milliseconds, then retry with the new state.
    SleepRetry { sleep_ms: u64, next: RetryState },
}

/// The retry state of a fresh task.
pub fn initial_retry_state(config: &EvalEngineConfig) -> (r: RetryState)
    ensures
        r.retries_left == config.max_retries_per_case,
        r.delay_ms == config.retry_delay_ms,
{
    RetryState { retries_left: config.max_retries_per_case, delay_ms: config.retry_delay_ms }
}

/// The doubled backoff delay, capped at one minute.
pub open spec fn spec_next_delay(slept: u64) -> int {
    if 2 * slept > 60_000 {
        60_000
    } else {
        2 * slept
    }
}

/// Decides what a task does after its provider call failed.
///
/// A permanent error aborts the task at once, without consuming retry
/// budget; so does an exhausted budget. Otherwise the task sleeps — for
/// the rate-limit hint when the error carries one, else for the current
/// backoff delay — and the delay then doubles, capped at one minute.
pub fn on_provider_error(state: &RetryState, err: &ProviderError) -> (r: RetryAction)
    ensures
        ((*err) is AuthenticationFailed || (*err) is ModelNotFound) ==> r == RetryAction::Fail,
        !((*err) is AuthenticationFailed || (*err) is ModelNotFound) && state.retries_left == 0
            ==> r == RetryAction::Fail,
        !((*err) is AuthenticationFailed || (*err) is ModelNotFound) && state.retries_left > 0
            ==> (r matches RetryAction::SleepRetry {
            sleep_ms,
            next,
        } && sleep_ms == (match *err {
            ProviderError::RateLimited { retry_after_ms } => retry_after_ms as int,
            _ => state.delay_ms as int,
        }) && next.retries_left == state.retries_left - 1 && next.delay_ms == spec_next_delay(
            sleep_ms,
        )),
{
    let permanent = match err {
        ProviderError::AuthenticationFailed(_) => true,
        ProviderError::ModelNotFound(_) => true,
        _ => false,
    };
    if permanent || state.retries_left == 0 {
        return RetryAction::Fail;
    }
    let sleep_ms: u64 = match err {
        ProviderError::RateLimited { retry_after_ms } => *retry_after_ms,
        _ => state.delay_ms,
    };
    let doubled: u64 = if sleep_ms > 30_000 {
        60_000
    } else {
        2 * sleep_ms
    };
    proof {
        assert(doubled == spec_next_delay(sleep_ms));
    }
    RetryAction::SleepRetry {
        sleep_ms,
        next: RetryState { retries_left: state.retries_left - 1, delay_ms: doubled },
    }
}

/// Should the test stage run? Only when compilation succeeded, the case
/// expects passing tests, and a test source is supplied.
pub fn should_run_tests(compile_success: bool, expectations: &Expectations) -> (r: bool)
    ensures
        r == (compile_success && expectations.should_pass_tests && expectations.test_file is Some),
{
    compile_success && expectations.should_pass_tests && expectations.test_file.is_some()
}

/// Should the lint stage run? Only when compilation succeeded,
/// independent of the test stage.
pub fn should_run_clippy(compile_success: bool) -> (r: bool)
    ensures
        r == compile_success,
{
    compile_success
}

/// The invariants every recorded result obeys: the test stage is absent
/// whenever compilation failed, the case does not request tests, or no
/// test source was supplied; the lint stage is absent whenever
/// compilation failed; and the total time covers generation, compile and
/// test time.
pub open spec fn wf_result(r: EvalResult, expectations: Expectations) -> bool {
    &&& (!r.compilation.success || !expectations.should_pass_tests
        || expectations.test_file is None) ==> r.test_execution is None
    &&& !r.compilation.success ==> r.clippy is None
    &&& r.timing.total_ms >= r.timing.llm_request_ms + r.timing.compilation_ms
        + r.timing.test_execution_ms
}

/// Assembles the result of one task from its stage outcomes.
///
/// The test stage is kept only when compilation succeeded, tests are
/// expected and a test source exists; the lint stage only when
/// compilation succeeded. The total time is the sum of the generation,
/// compile and test times.
pub fn assemble_eval_result(
    case_id: String,
    model: String,
    provider: String,
    generated_code: String,
    expectations: &Expectations,
    compilation: CompilationResult,
    test_execution: Option<TestResult>,
    clippy: Option<ClippyResult>,
    llm_request_ms: u64,
    token_usage: TokenUsage,
    attempt: u32,
    run_id: u128,
) -> (r: EvalResult)
    requires
        llm_request_ms + compilation.duration_ms + (match test_execution {
            Some(t) => t.duration_ms as int,
            None => 0,
        }) <= u64::MAX,
    ensures
        wf_result(r, *expectations),
        r.case_id@ == case_id@,
        r.model@ == model@,
        r.provider@ == provider@,
        r.generated_code@ == generated_code@,
        r.compilation == compilation,
        r.test_execution == if compilation.success && expectations.should_pass_tests
            && expectations.test_file is Some {
            test_execution
        } else {
            None::<TestResult>
        },
        r.clippy == if compilation.success {
            clippy
        } else {
            None::<ClippyResult>
        },
        r.timing.llm_request_ms == llm_request_ms,
        r.timing.compilation_ms == compilation.duration_ms,
        r.timing.total_ms == r.timing.llm_request_ms + r.timing.compilation_ms
            + r.timing.test_execution_ms,
        r.token_usage == token_usage,
        r.attempt == attempt,
        r.run_id == run_id,
{
    let keep_tests = should_run_tests(compilation.success, expectations);
    let test_execution = if keep_tests {
        test_execution
    } else {
        None
    };
    let clippy = if compilation.success {
        clippy
    } else {
        None
    };
    let test_execution_ms: u64 = match &test_execution {
        Some(t) => t.duration_ms,
        None => 0,
    };
    let compilation_ms = compilation.duration_ms;
    let total_ms = llm_request_ms + compilation_ms + test_execution_ms;
    EvalResult {
        case_id,
        model,
        provider,
        generated_code,
        compilation,
        test_execution,
        clippy,
        timing: TimingInfo { llm_request_ms, compilation_ms, test_execution_ms, total_ms },
        token_usage,
        attempt,
        run_id,
    }
}

/// Builds the generation request of one task: the case's prompt and
/// context, the configured system prompt override and temperature, and
/// the case's token cap when it sets one.
pub fn build_generate_request(case: &EvalCase, config: &EvalEngineConfig, model: &String) -> (r:
    GenerateRequest)
    ensures
        r.model@ == model@,
        r.prompt@ == case.prompt@,
        r.system_prompt == config.system_prompt_override,
        r.context_files@ == case.context@,
        r.max_tokens == (match case.max_tokens {
            Some(m) => m,
            None => config.max_tokens,
        }),
        r.temperature_milli == config.temperature_milli,
        r.stop_sequences@.len() == 0,
{
    let max_tokens = match case.max_tokens {
        Some(m) => m,
        None => config.max_tokens,
    };
    GenerateRequest {
        model: model.clone(),
        prompt: case.prompt.clone(),
        system_prompt: clone_opt_string(&config.system_prompt_override),
        context_files: clone_context(&case.context),
        max_tokens,
        temperature_milli: config.temperature_milli,
        stop_sequences: Vec::new(),
    }
}

fn clone_opt_string(s: &Option<String>) -> (r: Option<String>)
    ensures
        r == *s,
{
    match s {
        Some(x) => Some(x.clone()),
        None => None,
    }
}

fn clone_context(c: &Vec<ContextFile>) -> (r: Vec<ContextFile>)
    ensures
        r@ == c@,
{
    let mut out: Vec<ContextFile> = Vec::new();
    let mut i: usize = 0;
    while i < c.len()
        invariant
            i <= c@.len(),
            out@ == c@.take(i as int),
        decreases c@.len() - i,
    {
        let f = &c[i];
        let path = f.path.clone();
        let content = f.content.clone();
        out.push(ContextFile { path, content });
        proof {
            assert(out@ =~= c@.take(i as int + 1));
        }
        i = i + 1;
    }
    proof {
        assert(c@.take(i as int) =~= c@);
    }
    out
}

} // verus!
