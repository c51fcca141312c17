//! The Pass@k estimator and its laws.
//!
//! Pass@k is the unbiased estimator `1 - C(n-c, k) / C(n, k)` for the
//! probability that at least one of `k` samples drawn without replacement
//! from `n` attempts with `c` observed successes is a success. Rates are
//! fixed-point values in millionths (`RATE_SCALE` stands for 1.0).

use vstd::prelude::*;
use vstd::arithmetic::div_mod::{
    lemma_div_by_multiple, lemma_div_is_ordered, lemma_div_pos_is_pos, lemma_fundamental_div_mod,
};
use vstd::arithmetic::power2::{lemma2_to64, lemma_pow2_adds, pow2};

use crate::model::{EvalCase, EvalSet};
use crate::report::{distinct_pairs, has_pair, pair_of, result_matches};
use crate::results::{spec_pass_success, EvalResult};
use crate::RATE_SCALE;

verus! {

/// The binomial coefficient `C(n, k)`, by Pascal's rule.
pub open spec fn binom(n: nat, k: nat) -> nat
    decreases n, k,
{
    if k == 0 {
        1
    } else if n == 0 {
        0
    } else {
        binom((n - 1) as nat, (k - 1) as nat) + binom((n - 1) as nat, k)
    }
}

/// Choosing more than there is cannot be done: `C(n, k) = 0` for `k > n`.
pub proof fn lemma_binom_above(n: nat, k: nat)
    requires
        k > n,
    ensures
        binom(n, k) == 0,
    decreases n,
{
    if n > 0 {
        lemma_binom_above((n - 1) as nat, (k - 1) as nat);
        lemma_binom_above((n - 1) as nat, k);
    }
}

/// `C(n, k) >= 1` for `k <= n`.
pub proof fn lemma_binom_pos(n: nat, k: nat)
    requires
        k <= n,
    ensures
        binom(n, k) >= 1,
    decreases n,
{
    if k > 0 {
        lemma_binom_pos((n - 1) as nat, (k - 1) as nat);
    }
}

/// Every binomial coefficient is bounded by the power set: `C(n, k) <= 2^n`.
pub proof fn lemma_binom_le_pow2(n: nat, k: nat)
    ensures
        binom(n, k) <= pow2(n),
    decreases n,
{
    vstd::arithmetic::power2::lemma_pow2_pos(n);
    if k == 0 {
    } else if n == 0 {
    } else {
        lemma_binom_le_pow2((n - 1) as nat, (k - 1) as nat);
        lemma_binom_le_pow2((n - 1) as nat, k);
        assert(pow2(n) == 2 * pow2((n - 1) as nat)) by {
            lemma_pow2_adds(1, (n - 1) as nat);
            lemma2_to64();
        }
    }
}

/// `C` is monotone in its first argument: `C(m, k) <= C(n, k)` for `m <= n`.
pub proof fn lemma_binom_mono_first(m: nat, n: nat, k: nat)
    requires
        m <= n,
    ensures
        binom(m, k) <= binom(n, k),
    decreases n,
{
    if m < n && k > 0 {
        lemma_binom_mono_first(m, (n - 1) as nat, k);
    }
}

/// The absorption identity relating neighbouring binomials:
/// `(k+1) * C(n, k+1) == (n-k) * C(n, k)` for `k < n`.
pub proof fn lemma_binom_step(n: nat, k: nat)
    requires
        k < n,
    ensures
        (k + 1) * binom(n, (k + 1) as nat) == (n - k) * binom(n, k),
    decreases n,
{
    if n == 1 {
        assert(binom(0, 0) == 1);
        assert(binom(0, 1) == 0);
        assert(binom(1, 1) == 1);
        assert(binom(1, 0) == 1);
    } else {
        let n1 = (n - 1) as nat;
        if k == 0 {
            // C(n, 1) == n, by induction through C(n-1, 1) == n - 1.
            lemma_binom_step(n1, 0);
            assert(binom(n, 1) == binom(n1, 0) + binom(n1, 1));
            assert(1 * binom(n1, 1) == (n1 - 0) * binom(n1, 0));
            assert((n - 0) * binom(n, 0) == n) by (nonlinear_arith)
                requires
                    binom(n, 0) == 1,
            ;
            assert(1 * binom(n, 1) == binom(n, 1));
            assert(1 * binom(n1, 1) == binom(n1, 1));
            assert((n1 - 0) * binom(n1, 0) == n1) by (nonlinear_arith)
                requires
                    binom(n1, 0) == 1,
            ;
        } else {
            // (k+1) C(n, k+1) = (k+1) C(n-1, k) + (k+1) C(n-1, k+1)
            //                 = (k+1) C(n-1, k) + (n-1-k) C(n-1, k)      [IH at k]
            //                 = n C(n-1, k),
            // (n-k) C(n, k)   = (n-k) C(n-1, k-1) + (n-k) C(n-1, k)
            //                 = k C(n-1, k) + (n-k) C(n-1, k)            [IH at k-1]
            //                 = n C(n-1, k).
            let a = binom(n1, (k - 1) as nat);
            let b = binom(n1, k);
            let c = binom(n1, (k + 1) as nat);
            if k < n1 {
                lemma_binom_step(n1, k);
                assert((k + 1) * c == (n1 - k) * b);
            } else {
                lemma_binom_above(n1, (k + 1) as nat);
                assert(c == 0);
                assert((k + 1) * c == 0) by (nonlinear_arith)
                    requires
                        c == 0,
                ;
                assert((n1 - k) * b == 0) by (nonlinear_arith)
                    requires
                        n1 == k,
                ;
            }
            lemma_binom_step(n1, (k - 1) as nat);
            assert(k * b == (n1 - (k - 1)) * a);
            assert((k + 1) * (b + c) == (n - k) * (a + b)) by (nonlinear_arith)
                requires
                    (k + 1) * c == (n1 - k) * b,
                    k * b == (n1 - (k - 1)) * a,
                    n1 == n - 1,
                    k >= 1,
            ;
            assert(binom(n, (k + 1) as nat) == b + c);
            assert(binom(n, k) == a + b);
        }
    }
}

/// From `a1 / d1 <= a2 / d2` as rationals (cross-multiplied), the scaled
/// integer quotients are ordered the same way.
proof fn lemma_frac_le(s: int, a1: int, d1: int, a2: int, d2: int)
    requires
        s >= 0,
        a1 >= 0,
        a2 >= 0,
        d1 >= 1,
        d2 >= 1,
        a1 * d2 <= a2 * d1,
    ensures
        (s * a1) / d1 <= (s * a2) / d2,
{
    let q1 = (s * a1) / d1;
    lemma_fundamental_div_mod(s * a1, d1);
    assert(q1 * d1 <= s * a1) by (nonlinear_arith)
        requires
            s * a1 == d1 * q1 + (s * a1) % d1,
            (s * a1) % d1 >= 0,
    ;
    assert(q1 >= 0) by {
        lemma_div_pos_is_pos(s * a1, d1);
        assert(s * a1 >= 0) by (nonlinear_arith)
            requires
                s >= 0,
                a1 >= 0,
        ;
    }
    assert(q1 * d2 <= s * a2) by (nonlinear_arith)
        requires
            q1 * d1 <= s * a1,
            a1 * d2 <= a2 * d1,
            q1 >= 0,
            s >= 0,
            d1 >= 1,
            d2 >= 1,
    ;
    lemma_div_is_ordered(q1 * d2, s * a2, d2);
    lemma_div_by_multiple(q1, d2);
    assert((q1 * d2) / d2 == q1);
}

/// Pass@k in millionths: zero without attempts, samples or successes;
/// `min(c/n, 1)` when more samples are asked for than attempts exist;
/// one when every attempt succeeded; else the unbiased estimator
/// `1 - C(n-c, k) / C(n, k)`.
pub open spec fn spec_pass_at_k(n: u32, c: u32, k: u32) -> int {
    let scale = RATE_SCALE as int;
    if n == 0 || k == 0 || c == 0 {
        0
    } else if k > n {
        if scale * c / (n as int) > scale {
            scale
        } else {
            scale * c / (n as int)
        }
    } else if c >= n {
        scale
    } else {
        scale * (binom(n as nat, k as nat) - binom((n - c) as nat, k as nat)) / (binom(
            n as nat,
            k as nat,
        ) as int)
    }
}

/// Pass@k is a rate: it lies between 0 and 1.
pub proof fn lemma_pass_at_k_range(n: u32, c: u32, k: u32)
    ensures
        0 <= spec_pass_at_k(n, c, k) <= RATE_SCALE,
{
    let scale = RATE_SCALE as int;
    if n == 0 || k == 0 || c == 0 {
    } else if k > n {
        lemma_div_pos_is_pos(scale * c, n as int);
    } else if c >= n {
    } else {
        let d = binom(n as nat, k as nat) as int;
        let m = binom((n - c) as nat, k as nat) as int;
        lemma_binom_pos(n as nat, k as nat);
        lemma_binom_mono_first((n - c) as nat, n as nat, k as nat);
        lemma_div_pos_is_pos(scale * (d - m), d);
        assert(scale * (d - m) <= scale * d) by (nonlinear_arith)
            requires
                m >= 0,
                scale >= 0,
                d >= m,
        ;
        lemma_div_is_ordered(scale * (d - m), scale * d, d);
        lemma_div_by_multiple(scale, d);
        assert((scale * d) / d == scale);
    }
}

/// When every attempt succeeded, Pass@k is 1 for every `k <= n`.
pub proof fn lemma_pass_at_k_all_successes(n: u32, k: u32)
    requires
        1 <= k <= n,
    ensures
        spec_pass_at_k(n, n, k) == RATE_SCALE,
{
}

/// Without a single success, Pass@k is 0, whatever `n` and `k` are.
pub proof fn lemma_pass_at_k_no_successes(n: u32, k: u32)
    ensures
        spec_pass_at_k(n, 0, k) == 0,
{
}

/// Pass@k is monotone in the number of successes.
pub proof fn lemma_pass_at_k_monotone_in_successes(n: u32, c1: u32, c2: u32, k: u32)
    requires
        c1 <= c2,
    ensures
        spec_pass_at_k(n, c1, k) <= spec_pass_at_k(n, c2, k),
{
    let scale = RATE_SCALE as int;
    lemma_pass_at_k_range(n, c1, k);
    lemma_pass_at_k_range(n, c2, k);
    if n == 0 || k == 0 || c1 == 0 {
    } else if k > n {
        assert(scale * c1 <= scale * c2) by (nonlinear_arith)
            requires
                c1 <= c2,
                scale >= 0,
        ;
        lemma_div_is_ordered(scale * c1, scale * c2, n as int);
    } else if c2 >= n {
        // The right side is exactly 1, and Pass@k never exceeds 1.
    } else {
        let d = binom(n as nat, k as nat) as int;
        let m1 = binom((n - c1) as nat, k as nat) as int;
        let m2 = binom((n - c2) as nat, k as nat) as int;
        lemma_binom_pos(n as nat, k as nat);
        lemma_binom_mono_first((n - c2) as nat, (n - c1) as nat, k as nat);
        lemma_binom_mono_first((n - c1) as nat, n as nat, k as nat);
        assert(scale * (d - m1) <= scale * (d - m2)) by (nonlinear_arith)
            requires
                m2 <= m1,
                scale >= 0,
        ;
        lemma_div_is_ordered(scale * (d - m1), scale * (d - m2), d);
    }
}

/// One step of monotonicity in `k`, inside the estimator branch.
proof fn lemma_pass_at_k_step(n: u32, c: u32, k: u32)
    requires
        1 <= k,
        k + 1 <= n,
        0 < c < n,
    ensures
        spec_pass_at_k(n, c, k) <= spec_pass_at_k(n, c, ((k + 1) as u32)),
{
    let scale = RATE_SCALE as int;
    let m = (n - c) as nat;
    let d1 = binom(n as nat, k as nat) as int;
    let d2 = binom(n as nat, (k + 1) as nat) as int;
    let m1 = binom(m, k as nat) as int;
    let m2 = binom(m, (k + 1) as nat) as int;
    lemma_binom_pos(n as nat, k as nat);
    lemma_binom_pos(n as nat, (k + 1) as nat);
    lemma_binom_mono_first(m, n as nat, k as nat);
    lemma_binom_mono_first(m, n as nat, (k + 1) as nat);
    // m2 * d1 <= m1 * d2, by the absorption identity on both binomials.
    if k >= m {
        lemma_binom_above(m, (k + 1) as nat);
        assert(m2 * d1 <= m1 * d2) by (nonlinear_arith)
            requires
                m2 == 0,
                m1 >= 0,
                d2 >= 0,
                d1 >= 0,
        ;
    } else {
        lemma_binom_step(m, k as nat);
        lemma_binom_step(n as nat, k as nat);
        assert(m2 * d1 <= m1 * d2) by (nonlinear_arith)
            requires
                (k + 1) * m2 == (m - k) * m1,
                (k + 1) * d2 == (n - k) * d1,
                0 < m < n,
                k < m,
                m1 >= 0,
                d1 >= 1,
                d2 >= 1,
                m2 >= 0,
        ;
    }
    assert((d1 - m1) * d2 <= (d2 - m2) * d1) by (nonlinear_arith)
        requires
            m2 * d1 <= m1 * d2,
    ;
    lemma_frac_le(scale, d1 - m1, d1, d2 - m2, d2);
}

/// Pass@k is non-decreasing in `k`, for `k` up to the number of attempts.
/// (Beyond `n` the estimator switches to `min(c/n, 1)` and the
/// monotonicity is lost: `pass_at_k(2, 1, 2) = 1` but
/// `pass_at_k(2, 1, 3) = 1/2`.)
pub proof fn lemma_pass_at_k_monotone_in_k(n: u32, c: u32, k1: u32, k2: u32)
    requires
        k1 <= k2 <= n,
    ensures
        spec_pass_at_k(n, c, k1) <= spec_pass_at_k(n, c, k2),
    decreases k2 - k1,
{
    lemma_pass_at_k_range(n, c, k1);
    lemma_pass_at_k_range(n, c, k2);
    if k1 == k2 || c == 0 || k1 == 0 {
    } else if c >= n {
    } else {
        lemma_pass_at_k_monotone_in_k(n, c, k1, (k2 - 1) as u32);
        lemma_pass_at_k_step(n, c, (k2 - 1) as u32);
        assert((((k2 - 1) as u32) + 1) as u32 == k2);
    }
}

/// Statistics for a single model across all eval cases. Rates are in
/// millionths; cost is in millionths of a dollar.
#[derive(Debug, Clone)]
pub struct ModelStats {
    /// Model identifier.
    pub model: String,
    /// Pass@k rate for each requested k, keyed by k.
    pub pass_at_k: Vec<(u32, u64)>,
    /// Fraction of this model's tasks whose compile succeeded.
    pub avg_compilation_rate: u64,
    /// Mean test pass rate over tasks with a test stage.
    pub avg_test_pass_rate: u64,
    /// Mean lint score over tasks with a lint stage.
    pub avg_clippy_score: u64,
    /// Total tokens used.
    pub total_tokens: u64,
    /// Total estimated cost in millionths of a dollar.
    pub total_cost_microusd: u64,
    /// Mean of the tasks' total wall-clock milliseconds.
    pub avg_latency_ms: u64,
}

/// Statistics for a single eval case across all models.
#[derive(Debug, Clone)]
pub struct CaseStats {
    /// Case identifier.
    pub case_id: String,
    /// Pass rate per model, in millionths.
    pub per_model_pass_rate: Vec<(String, u64)>,
}

/// Aggregate statistics across all results: per-model and per-case
/// rollups, keyed by model name and case id, each key unique.
#[derive(Debug, Clone)]
pub struct AggregateStats {
    pub per_model: Vec<ModelStats>,
    pub per_case: Vec<CaseStats>,
}

/// Largest number of attempts the estimator accepts: the binomial
/// coefficients are evaluated exactly, which needs them to fit in
/// machine integers.
pub const PASS_AT_K_MAX_N: u32 = 100;

proof fn lemma_pow2_100_bound()
    ensures
        pow2(100) == 0x10000000000000000000000000,
{
    lemma_pow2_adds(64, 36);
    lemma2_to64();
    vstd::arithmetic::power2::lemma2_to64_rest();
    assert(pow2(100) == pow2(64) * pow2(36));
    assert(pow2(64) * pow2(36) == 0x10000000000000000 * 0x1000000000) by (nonlinear_arith)
        requires
            pow2(64) == 0x10000000000000000,
            pow2(36) == 0x1000000000,
    ;
}

/// Computes `C(n, k)` exactly.
fn binom_exec(n: u32, k: u32) -> (r: u128)
    requires
        n <= PASS_AT_K_MAX_N,
    ensures
        r == binom(n as nat, k as nat),
{
    if k > n {
        proof {
            lemma_binom_above(n as nat, k as nat);
        }
        return 0;
    }
    let mut acc: u128 = 1;
    let mut i: u32 = 1;
    while i <= k
        invariant
            1 <= i <= k + 1,
            k <= n <= PASS_AT_K_MAX_N,
            acc == binom(n as nat, (i - 1) as nat),
        decreases k + 1 - i,
    {
        proof {
            lemma_binom_step(n as nat, (i - 1) as nat);
            lemma_binom_le_pow2(n as nat, (i - 1) as nat);
            if (n as nat) < 100 {
                vstd::arithmetic::power2::lemma_pow2_strictly_increases(n as nat, 100);
            }
            lemma_pow2_100_bound();
            assert(acc <= pow2(n as nat));
            assert(pow2(n as nat) <= pow2(100));
            assert(acc <= 0x10000000000000000000000000);
            assert(acc * ((n - i + 1) as int) <= 0x10000000000000000000000000 * 101)
                by (nonlinear_arith)
                requires
                    0 <= acc <= 0x10000000000000000000000000,
                    0 <= ((n - i + 1) as int) < 101,
            ;
        }
        let next = acc * ((n - i + 1) as u128) / (i as u128);
        proof {
            let b = binom(n as nat, i as nat) as int;
            assert((i as int) * b == ((n - i + 1) as int) * (acc as int));
            assert((acc as int) * ((n - i + 1) as int) == b * (i as int)) by (nonlinear_arith)
                requires
                    (i as int) * b == ((n - i + 1) as int) * (acc as int),
            ;
            lemma_div_by_multiple(b, i as int);
            assert((b * (i as int)) / (i as int) == b);
            assert(next == b);
        }
        acc = next;
        i = i + 1;
    }
    acc
}

/// Computes Pass@k exactly, in millionths, by the unbiased estimator.
pub fn pass_at_k(n: u32, c: u32, k: u32) -> (r: u64)
    requires
        n <= PASS_AT_K_MAX_N,
    ensures
        r == spec_pass_at_k(n, c, k),
        r <= RATE_SCALE,
{
    proof {
        lemma_pass_at_k_range(n, c, k);
    }
    if n == 0 || k == 0 || c == 0 {
        return 0;
    }
    if k > n {
        let raw: u64 = RATE_SCALE * (c as u64) / (n as u64);
        if raw > RATE_SCALE {
            return RATE_SCALE;
        }
        return raw;
    }
    if c >= n {
        return RATE_SCALE;
    }
    let d = binom_exec(n, k);
    let nc = binom_exec(n - c, k);
    proof {
        lemma_binom_pos(n as nat, k as nat);
        lemma_binom_mono_first((n - c) as nat, n as nat, k as nat);
        lemma_binom_le_pow2(n as nat, k as nat);
        if (n as nat) < 100 {
            vstd::arithmetic::power2::lemma_pow2_strictly_increases(n as nat, 100);
        }
        lemma_pow2_100_bound();
        assert(d <= pow2(n as nat));
        assert(d <= 0x10000000000000000000000000);
        assert((1000000 as int) * ((d - nc) as int) <= 1000000 * 0x10000000000000000000000000)
            by (nonlinear_arith)
            requires
                ((d - nc) as int) <= 0x10000000000000000000000000,
                0 <= ((d - nc) as int),
        ;
    }
    let num: u128 = (RATE_SCALE as u128) * (d - nc);
    let q: u128 = num / d;
    proof {
        let scale = RATE_SCALE as int;
        let di = d as int;
        let nci = nc as int;
        assert(scale * (di - nci) <= scale * di) by (nonlinear_arith)
            requires
                nci >= 0,
                scale >= 0,
                di >= nci,
        ;
        lemma_div_is_ordered(scale * (di - nci), scale * di, di);
        lemma_div_by_multiple(scale, di);
    }
    q as u64
}

/// The case of a set with the given id, if any; the first when ids repeat.
pub open spec fn spec_lookup_case(cases: Seq<EvalCase>, id: Seq<char>) -> Option<EvalCase>
    decreases cases.len(),
{
    if cases.len() == 0 {
        None
    } else if cases[0].id@ == id {
        Some(cases[0])
    } else {
        spec_lookup_case(cases.drop_first(), id)
    }
}

/// Whether a result counts as correct for Pass@k: functional correctness
/// when the case is known, bare compile success when it is not.
pub open spec fn spec_counted_success(r: EvalResult, cases: Seq<EvalCase>) -> bool {
    match spec_lookup_case(cases, r.case_id@) {
        Some(_) => spec_pass_success(r),
        None => r.compilation.success,
    }
}

/// Number of attempts of a pair.
pub open spec fn count_matching(results: Seq<EvalResult>, p: (Seq<char>, Seq<char>)) -> int
    decreases results.len(),
{
    if results.len() == 0 {
        0
    } else {
        count_matching(results.drop_last(), p) + if result_matches(results.last(), p) {
            1int
        } else {
            0int
        }
    }
}

/// Number of counted successes of a pair.
pub open spec fn count_successes(
    results: Seq<EvalResult>,
    p: (Seq<char>, Seq<char>),
    cases: Seq<EvalCase>,
) -> int
    decreases results.len(),
{
    if results.len() == 0 {
        0
    } else {
        count_successes(results.drop_last(), p, cases) + if result_matches(results.last(), p)
            && spec_counted_success(results.last(), cases) {
            1int
        } else {
            0int
        }
    }
}

/// Every pair's attempt count stays within what the estimator accepts.
pub open spec fn spec_groups_small(results: Seq<EvalResult>) -> bool {
    forall|i: int|
        0 <= i < results.len() ==> count_matching(results, pair_of(#[trigger] results[i]))
            <= PASS_AT_K_MAX_N
}

/// The Pass@k rates of one `(case, model)` pair, one per requested k.
#[derive(Debug, Clone)]
pub struct PairPassAtK {
    pub case_id: String,
    pub model: String,
    /// `(k, rate in millionths)`, in the requested order.
    pub scores: Vec<(u32, u64)>,
}

/// Finds the case of the set with the given id.
fn lookup_case<'a>(cases: &'a Vec<EvalCase>, id: &String) -> (r: Option<&'a EvalCase>)
    ensures
        match r {
            Some(c) => spec_lookup_case(cases@, id@) == Some(*c),
            None => spec_lookup_case(cases@, id@) is None,
        },
{
    let mut i: usize = 0;
    proof {
        assert(cases@.skip(0) =~= cases@);
    }
    while i < cases.len()
        invariant
            i <= cases@.len(),
            forall|j: int| 0 <= j < i ==> (#[trigger] cases@[j]).id@ != id@,
            spec_lookup_case(cases@, id@) == spec_lookup_case(cases@.skip(i as int), id@),
        decreases cases@.len() - i,
    {
        proof {
            assert(cases@.skip(i as int)[0] == cases@[i as int]);
            assert(cases@.skip(i as int).drop_first() =~= cases@.skip(i as int + 1));
        }
        if cases[i].id.eq(id) {
            return Some(&cases[i]);
        }
        i = i + 1;
    }
    proof {
        assert(cases@.skip(i as int) =~= Seq::<EvalCase>::empty());
    }
    None
}

/// Does this result count as correct for Pass@k?
fn counted_success(r: &EvalResult, cases: &Vec<EvalCase>) -> (b: bool)
    ensures
        b == spec_counted_success(*r, cases@),
{
    match lookup_case(cases, &r.case_id) {
        Some(_) => crate::results::is_pass_success(r),
        None => r.compilation.success,
    }
}

/// Counts a pair's attempts and counted successes.
fn count_pair(results: &Vec<EvalResult>, case_id: &String, model: &String, cases: &Vec<EvalCase>)
    -> (r: (usize, usize))
    ensures
        r.0 == count_matching(results@, (case_id@, model@)),
        r.1 == count_successes(results@, (case_id@, model@), cases@),
        r.1 <= r.0,
{
    let ghost p = (case_id@, model@);
    let mut n: usize = 0;
    let mut c: usize = 0;
    let mut i: usize = 0;
    proof {
        assert(results@.take(0) =~= Seq::<EvalResult>::empty());
    }
    while i < results.len()
        invariant
            i <= results@.len(),
            p == (case_id@, model@),
            n == count_matching(results@.take(i as int), p),
            c == count_successes(results@.take(i as int), p, cases@),
            c <= n <= i,
        decreases results@.len() - i,
    {
        let r = &results[i];
        proof {
            assert(results@.take(i as int + 1).drop_last() =~= results@.take(i as int));
            assert(results@.take(i as int + 1).last() == results@[i as int]);
        }
        if r.case_id.eq(case_id) && r.model.eq(model) {
            n = n + 1;
            if counted_success(r, cases) {
                c = c + 1;
            }
        }
        i = i + 1;
    }
    proof {
        assert(results@.take(i as int) =~= results@);
    }
    (n, c)
}

/// Computes Pass@k for every `(case, model)` pair of the results, for
/// every requested k: `n` is the pair's attempt count, `c` its count of
/// results that compiled and whose tests nearly all passed (when the
/// case is unknown to the set, bare compile success counts).
pub fn compute_pass_at_k_batch(
    results: &Vec<EvalResult>,
    eval_set: &EvalSet,
    k_values: &Vec<u32>,
) -> (out: Vec<PairPassAtK>)
    requires
        spec_groups_small(results@),
    ensures
        out@.len() == distinct_pairs(results@).len(),
        forall|i: int|
            0 <= i < out@.len() ==> {
                let p = distinct_pairs(results@)[i];
                let n = count_matching(results@, p);
                let c = count_successes(results@, p, eval_set.cases@);
                &&& ((#[trigger] out@[i]).case_id@, out@[i].model@) == p
                &&& out@[i].scores@.len() == k_values@.len()
                &&& forall|j: int|
                    0 <= j < k_values@.len() ==> (#[trigger] out@[i].scores@[j]) == (
                    k_values@[j],
                    spec_pass_at_k(n as u32, c as u32, k_values@[j]) as u64,
                )
            },
{
    let pairs = crate::report::distinct_pairs_exec(results);
    let ghost dps = distinct_pairs(results@);
    proof {
        crate::report::lemma_distinct_pairs_present(results@);
    }
    let mut out: Vec<PairPassAtK> = Vec::new();
    let mut i: usize = 0;
    while i < pairs.len()
        invariant
            i <= pairs@.len(),
            dps == pairs@.map_values(|q: (String, String)| (q.0@, q.1@)),
            dps == distinct_pairs(results@),
            spec_groups_small(results@),
            forall|m: int|
                0 <= m < dps.len() ==> has_pair(results@, #[trigger] dps[m]),
            out@.len() == i,
            forall|m: int|
                0 <= m < i ==> {
                    let p = dps[m];
                    let n = count_matching(results@, p);
                    let c = count_successes(results@, p, eval_set.cases@);
                    &&& ((#[trigger] out@[m]).case_id@, out@[m].model@) == p
                    &&& out@[m].scores@.len() == k_values@.len()
                    &&& forall|j: int|
                        0 <= j < k_values@.len() ==> (#[trigger] out@[m].scores@[j]) == (
                        k_values@[j],
                        spec_pass_at_k(n as u32, c as u32, k_values@[j]) as u64,
                    )
                },
        decreases pairs@.len() - i,
    {
        let ghost p = dps[i as int];
        proof {
            assert(pairs@.map_values(|q: (String, String)| (q.0@, q.1@))[i as int] == (
            pairs@[i as int].0@,
            pairs@[i as int].1@,
            ));
        }
        let case_id = &pairs[i].0;
        let model = &pairs[i].1;
        let counts = count_pair(results, case_id, model, &eval_set.cases);
        let n = counts.0;
        let c = counts.1;
        proof {
            // The pair stands in the results, so its count is positive and
            // bounded by the group-size premise.
            let w = choose|j: int|
                0 <= j < results@.len() && result_matches(#[trigger] results@[j], p);
            lemma_count_matching_same(results@, p, pair_of(results@[w]));
            assert(count_matching(results@, pair_of(results@[w])) <= PASS_AT_K_MAX_N);
        }
        let mut scores: Vec<(u32, u64)> = Vec::new();
        let mut j: usize = 0;
        while j < k_values.len()
            invariant
                j <= k_values@.len(),
                n == count_matching(results@, p),
                c == count_successes(results@, p, eval_set.cases@),
                n <= PASS_AT_K_MAX_N,
                c <= n,
                scores@.len() == j,
                forall|m: int|
                    0 <= m < j ==> (#[trigger] scores@[m]) == (
                    k_values@[m],
                    spec_pass_at_k(n as u32, c as u32, k_values@[m]) as u64,
                ),
            decreases k_values@.len() - j,
        {
            let k = k_values[j];
            let rate = pass_at_k(n as u32, c as u32, k);
            scores.push((k, rate));
            j = j + 1;
        }
        out.push(
            PairPassAtK {
                case_id: crate::text::string_of(&crate::text::chars_of(case_id.as_str())),
                model: crate::text::string_of(&crate::text::chars_of(model.as_str())),
                scores,
            },
        );
        i = i + 1;
    }
    out
}

/// The distinct model names of a result list, in first-occurrence order,
/// after those already seen.
pub open spec fn models_after(results: Seq<EvalResult>, seen: Seq<Seq<char>>) -> Seq<Seq<char>>
    decreases results.len(),
{
    if results.len() == 0 {
        Seq::empty()
    } else {
        let m = results[0].model@;
        if seen.contains(m) {
            models_after(results.drop_first(), seen)
        } else {
            seq![m] + models_after(results.drop_first(), seen.push(m))
        }
    }
}

pub open spec fn distinct_models(results: Seq<EvalResult>) -> Seq<Seq<char>> {
    models_after(results, Seq::empty())
}

/// The distinct case ids of a result list, in first-occurrence order.
pub open spec fn cases_after(results: Seq<EvalResult>, seen: Seq<Seq<char>>) -> Seq<Seq<char>>
    decreases results.len(),
{
    if results.len() == 0 {
        Seq::empty()
    } else {
        let c = results[0].case_id@;
        if seen.contains(c) {
            cases_after(results.drop_first(), seen)
        } else {
            seq![c] + cases_after(results.drop_first(), seen.push(c))
        }
    }
}

pub open spec fn distinct_case_ids(results: Seq<EvalResult>) -> Seq<Seq<char>> {
    cases_after(results, Seq::empty())
}

/// Number of results of a model.
pub open spec fn count_model(results: Seq<EvalResult>, m: Seq<char>) -> int
    decreases results.len(),
{
    if results.len() == 0 {
        0
    } else {
        count_model(results.drop_last(), m) + if results.last().model@ == m {
            1int
        } else {
            0int
        }
    }
}

/// Number of a model's results whose compile succeeded.
pub open spec fn count_model_compiled(results: Seq<EvalResult>, m: Seq<char>) -> int
    decreases results.len(),
{
    if results.len() == 0 {
        0
    } else {
        count_model_compiled(results.drop_last(), m) + if results.last().model@ == m
            && results.last().compilation.success {
            1int
        } else {
            0int
        }
    }
}

/// Number of a model's results with a test stage.
pub open spec fn count_with_tests(results: Seq<EvalResult>, m: Seq<char>) -> int
    decreases results.len(),
{
    if results.len() == 0 {
        0
    } else {
        count_with_tests(results.drop_last(), m) + if results.last().model@ == m
            && results.last().test_execution is Some {
            1int
        } else {
            0int
        }
    }
}

/// Sum of a model's test pass rates over results with a test stage.
pub open spec fn sum_tests_rate(results: Seq<EvalResult>, m: Seq<char>) -> int
    decreases results.len(),
{
    if results.len() == 0 {
        0
    } else {
        sum_tests_rate(results.drop_last(), m) + (match results.last().test_execution {
            Some(t) => if results.last().model@ == m {
                crate::results::spec_tests_rate(t.passed, t.failed)
            } else {
                0
            },
            None => 0,
        })
    }
}

/// Number of a model's results with a lint stage.
pub open spec fn count_with_clippy(results: Seq<EvalResult>, m: Seq<char>) -> int
    decreases results.len(),
{
    if results.len() == 0 {
        0
    } else {
        count_with_clippy(results.drop_last(), m) + if results.last().model@ == m
            && results.last().clippy is Some {
            1int
        } else {
            0int
        }
    }
}

/// Sum of a model's lint scores over results with a lint stage.
pub open spec fn sum_clippy_rate(results: Seq<EvalResult>, m: Seq<char>) -> int
    decreases results.len(),
{
    if results.len() == 0 {
        0
    } else {
        sum_clippy_rate(results.drop_last(), m) + (match results.last().clippy {
            Some(c) => if results.last().model@ == m {
                crate::results::spec_clippy_rate(c.warning_count)
            } else {
                0
            },
            None => 0,
        })
    }
}

/// Sum of a model's token totals.
pub open spec fn sum_tokens(results: Seq<EvalResult>, m: Seq<char>) -> int
    decreases results.len(),
{
    if results.len() == 0 {
        0
    } else {
        sum_tokens(results.drop_last(), m) + if results.last().model@ == m {
            results.last().token_usage.total_tokens as int
        } else {
            0
        }
    }
}

/// Sum of a model's estimated costs, in millionths of a dollar.
pub open spec fn sum_cost(results: Seq<EvalResult>, m: Seq<char>) -> int
    decreases results.len(),
{
    if results.len() == 0 {
        0
    } else {
        sum_cost(results.drop_last(), m) + if results.last().model@ == m {
            results.last().token_usage.estimated_cost_microusd as int
        } else {
            0
        }
    }
}

/// Sum of a model's total wall-clock milliseconds.
pub open spec fn sum_latency(results: Seq<EvalResult>, m: Seq<char>) -> int
    decreases results.len(),
{
    if results.len() == 0 {
        0
    } else {
        sum_latency(results.drop_last(), m) + if results.last().model@ == m {
            results.last().timing.total_ms as int
        } else {
            0
        }
    }
}

/// Number of a model's `(case, model)` pairs.
pub open spec fn count_model_pairs(pairs: Seq<(Seq<char>, Seq<char>)>, m: Seq<char>) -> int
    decreases pairs.len(),
{
    if pairs.len() == 0 {
        0
    } else {
        count_model_pairs(pairs.drop_last(), m) + if pairs.last().1 == m {
            1int
        } else {
            0int
        }
    }
}

/// Sum of a model's per-pair Pass@k rates, for one k.
pub open spec fn sum_pass_k(
    pairs: Seq<(Seq<char>, Seq<char>)>,
    results: Seq<EvalResult>,
    cases: Seq<EvalCase>,
    m: Seq<char>,
    k: u32,
) -> int
    decreases pairs.len(),
{
    if pairs.len() == 0 {
        0
    } else {
        sum_pass_k(pairs.drop_last(), results, cases, m, k) + if pairs.last().1 == m {
            spec_pass_at_k(
                count_matching(results, pairs.last()) as u32,
                count_successes(results, pairs.last(), cases) as u32,
                k,
            )
        } else {
            0
        }
    }
}

/// The mean, over a model's pairs, of the pair Pass@k rates; zero when
/// the model has no pair.
pub open spec fn spec_model_pass_k(
    results: Seq<EvalResult>,
    cases: Seq<EvalCase>,
    m: Seq<char>,
    k: u32,
) -> int {
    let pairs = distinct_pairs(results);
    let cnt = count_model_pairs(pairs, m);
    if cnt == 0 {
        0
    } else {
        sum_pass_k(pairs, results, cases, m, k) / cnt
    }
}

/// What the per-model rollup states for one model.
pub open spec fn model_stats_ok(
    ms: ModelStats,
    results: Seq<EvalResult>,
    cases: Seq<EvalCase>,
    k_values: Seq<u32>,
) -> bool {
    let m = ms.model@;
    let n = count_model(results, m);
    &&& n >= 1
    &&& ms.avg_compilation_rate == RATE_SCALE * count_model_compiled(results, m) / n
    &&& ms.avg_test_pass_rate == sum_tests_rate(results, m) / (if count_with_tests(results, m)
        >= 1 {
        count_with_tests(results, m)
    } else {
        1
    })
    &&& ms.avg_clippy_score == sum_clippy_rate(results, m) / (if count_with_clippy(results, m)
        >= 1 {
        count_with_clippy(results, m)
    } else {
        1
    })
    &&& ms.total_tokens == (if sum_tokens(results, m) > u64::MAX {
        u64::MAX as int
    } else {
        sum_tokens(results, m)
    })
    &&& ms.total_cost_microusd == (if sum_cost(results, m) > u64::MAX {
        u64::MAX as int
    } else {
        sum_cost(results, m)
    })
    &&& ms.avg_latency_ms == sum_latency(results, m) / n
    &&& ms.pass_at_k@.len() == k_values.len()
    &&& forall|j: int|
        0 <= j < k_values.len() ==> (#[trigger] ms.pass_at_k@[j]) == (
        k_values[j],
        spec_model_pass_k(results, cases, m, k_values[j]) as u64,
        )
}

/// What the per-case rollup states for one case id.
pub open spec fn case_stats_ok(cs: CaseStats, results: Seq<EvalResult>, cases: Seq<EvalCase>) -> bool {
    let c = cs.case_id@;
    let pairs_of_case = distinct_pairs(results).filter(case_pred(c));
    &&& cs.per_model_pass_rate@.len() == pairs_of_case.len()
    &&& forall|j: int|
        0 <= j < pairs_of_case.len() ==> {
            let p = pairs_of_case[j];
            (#[trigger] cs.per_model_pass_rate@[j]).0@ == p.1
                && cs.per_model_pass_rate@[j].1 as int == RATE_SCALE * count_successes(
                results,
                p,
                cases,
            ) / count_matching(results, p)
        }
}

/// The pairs of one case.
pub open spec fn case_pred(c: Seq<char>) -> spec_fn((Seq<char>, Seq<char>)) -> bool {
    |p: (Seq<char>, Seq<char>)| p.0 == c
}

/// Two equal pairs have equal counts.
proof fn lemma_count_matching_same(
    results: Seq<EvalResult>,
    p: (Seq<char>, Seq<char>),
    q: (Seq<char>, Seq<char>),
)
    requires
        p == q,
    ensures
        count_matching(results, p) == count_matching(results, q),
{
}


/// The distinct model names of the results, in first-occurrence order.
fn distinct_models_exec(results: &Vec<EvalResult>) -> (r: Vec<String>)
    ensures
        r@.map_values(|s: String| s@) == distinct_models(results@),
{
    let mut models: Vec<String> = Vec::new();
    let mut i: usize = 0;
    proof {
        assert(results@.skip(0) =~= results@);
        assert(models@.map_values(|s: String| s@) =~= Seq::<Seq<char>>::empty());
        assert(Seq::<Seq<char>>::empty() + models_after(results@, Seq::empty()) =~= models_after(
            results@,
            Seq::empty(),
        ));
    }
    while i < results.len()
        invariant
            i <= results@.len(),
            distinct_models(results@) == models@.map_values(|s: String| s@) + models_after(
                results@.skip(i as int),
                models@.map_values(|s: String| s@),
            ),
        decreases results@.len() - i,
    {
        let ghost mv = models@.map_values(|s: String| s@);
        let r = &results[i];
        proof {
            assert(results@.skip(i as int)[0] == results@[i as int]);
            assert(results@.skip(i as int).drop_first() =~= results@.skip(i as int + 1));
        }
        let mut seen = false;
        let mut j: usize = 0;
        while j < models.len()
            invariant
                j <= models@.len(),
                mv == models@.map_values(|s: String| s@),
                i < results@.len(),
                r.model@ == results@[i as int].model@,
                seen ==> mv.contains(results@[i as int].model@),
                !seen ==> forall|t: int| 0 <= t < j ==> mv[t] != results@[i as int].model@,
            decreases models@.len() - j,
        {
            if !seen {
                proof {
                    assert(mv[j as int] == models@[j as int]@);
                }
                if models[j].eq(&r.model) {
                    seen = true;
                    proof {
                        assert(mv[j as int] == results@[i as int].model@);
                    }
                }
            }
            j = j + 1;
        }
        if !seen {
            proof {
                assert(!mv.contains(results@[i as int].model@));
            }
            models.push(r.model.clone());
            proof {
                assert(models@.map_values(|s: String| s@) =~~= mv.push(results@[i as int].model@));
                assert(mv + (seq![results@[i as int].model@] + models_after(
                    results@.skip(i as int + 1),
                    mv.push(results@[i as int].model@),
                )) =~= (mv + seq![results@[i as int].model@]) + models_after(
                    results@.skip(i as int + 1),
                    mv.push(results@[i as int].model@),
                ));
            }
        }
        i = i + 1;
    }
    proof {
        assert(results@.skip(i as int) =~= Seq::<EvalResult>::empty());
        let mv = models@.map_values(|s: String| s@);
        assert(mv + models_after(results@.skip(i as int), mv) =~= mv);
    }
    models
}

/// Rolls one model's results up.
fn model_stats_for(
    results: &Vec<EvalResult>,
    model: &String,
    eval_set: &EvalSet,
    k_values: &Vec<u32>,
) -> (ms: ModelStats)
    requires
        spec_groups_small(results@),
        count_model(results@, model@) >= 1,
    ensures
        ms.model@ == model@,
        model_stats_ok(ms, results@, eval_set.cases@, k_values@),
{
    let ghost m = model@;
    let mut n: usize = 0;
    let mut compiled: usize = 0;
    let mut with_tests: usize = 0;
    let mut tests_sum: u128 = 0;
    let mut with_clippy: usize = 0;
    let mut clippy_sum: u128 = 0;
    let mut tokens_sum: u128 = 0;
    let mut cost_sum: u128 = 0;
    let mut latency_sum: u128 = 0;
    let mut i: usize = 0;
    proof {
        assert(results@.take(0) =~= Seq::<EvalResult>::empty());
    }
    while i < results.len()
        invariant
            i <= results@.len(),
            m == model@,
            n == count_model(results@.take(i as int), m),
            compiled == count_model_compiled(results@.take(i as int), m),
            with_tests == count_with_tests(results@.take(i as int), m),
            tests_sum == sum_tests_rate(results@.take(i as int), m),
            with_clippy == count_with_clippy(results@.take(i as int), m),
            clippy_sum == sum_clippy_rate(results@.take(i as int), m),
            tokens_sum == sum_tokens(results@.take(i as int), m),
            cost_sum == sum_cost(results@.take(i as int), m),
            latency_sum == sum_latency(results@.take(i as int), m),
            compiled <= n <= i,
            with_tests <= n,
            with_clippy <= n,
            tests_sum <= with_tests * (RATE_SCALE as int),
            clippy_sum <= with_clippy * (RATE_SCALE as int),
            tokens_sum <= i * (u32::MAX as int),
            cost_sum <= i * (u64::MAX as int),
            latency_sum <= n * (u64::MAX as int),
        decreases results@.len() - i,
    {
        let r = &results[i];
        proof {
            assert(results@.take(i as int + 1).drop_last() =~= results@.take(i as int));
            assert(results@.take(i as int + 1).last() == results@[i as int]);
        }
        if r.model.eq(model) {
            n = n + 1;
            if r.compilation.success {
                compiled = compiled + 1;
            }
            match &r.test_execution {
                Some(t) => {
                    with_tests = with_tests + 1;
                    let total: u64 = t.passed as u64 + t.failed as u64;
                    let rate: u64 = if total == 0 {
                        0
                    } else {
                        RATE_SCALE * (t.passed as u64) / total
                    };
                    proof {
                        if total != 0 {
                            lemma_div_is_ordered(
                                (RATE_SCALE * t.passed) as int,
                                (RATE_SCALE * total) as int,
                                total as int,
                            );
                            lemma_div_by_multiple(RATE_SCALE as int, total as int);
                        }
                        assert(rate == crate::results::spec_tests_rate(t.passed, t.failed));
                        assert(rate <= RATE_SCALE);
                    }
                    tests_sum = tests_sum + rate as u128;
                },
                None => {},
            }
            match &r.clippy {
                Some(c) => {
                    with_clippy = with_clippy + 1;
                    let score: u64 = if c.warning_count >= 10 {
                        0
                    } else {
                        (10 - c.warning_count as u64) * 100_000
                    };
                    proof {
                        assert(score == crate::results::spec_clippy_rate(c.warning_count));
                    }
                    clippy_sum = clippy_sum + score as u128;
                },
                None => {},
            }
            tokens_sum = tokens_sum + r.token_usage.total_tokens as u128;
            cost_sum = cost_sum + r.token_usage.estimated_cost_microusd as u128;
            latency_sum = latency_sum + r.timing.total_ms as u128;
        }
        i = i + 1;
    }
    proof {
        assert(results@.take(i as int) =~= results@);
    }
    proof {
        assert((RATE_SCALE as u128) * (compiled as u128) <= (RATE_SCALE as u128) * (n as u128))
            by (nonlinear_arith)
            requires
                compiled <= n,
        ;
        lemma_div_is_ordered(
            RATE_SCALE as int * (compiled as int),
            RATE_SCALE as int * (n as int),
            n as int,
        );
        lemma_div_by_multiple(RATE_SCALE as int, n as int);
    }
    let avg_compilation_rate: u64 = ((RATE_SCALE as u128) * (compiled as u128) / (n as u128))
        as u64;
    let tests_den: u128 = if with_tests >= 1 {
        with_tests as u128
    } else {
        1
    };
    proof {
        lemma_mean_bounded(tests_sum as int, tests_den as int, RATE_SCALE as int);
    }
    let avg_test_pass_rate: u64 = (tests_sum / tests_den) as u64;
    let clippy_den: u128 = if with_clippy >= 1 {
        with_clippy as u128
    } else {
        1
    };
    proof {
        lemma_mean_bounded(clippy_sum as int, clippy_den as int, RATE_SCALE as int);
    }
    let avg_clippy_score: u64 = (clippy_sum / clippy_den) as u64;
    let total_tokens: u64 = if tokens_sum > u64::MAX as u128 {
        u64::MAX
    } else {
        tokens_sum as u64
    };
    let total_cost_microusd: u64 = if cost_sum > u64::MAX as u128 {
        u64::MAX
    } else {
        cost_sum as u64
    };
    proof {
        lemma_mean_bounded(latency_sum as int, n as int, u64::MAX as int);
    }
    let avg_latency_ms: u64 = (latency_sum / (n as u128)) as u64;
    // Per-model Pass@k: the mean of the model's pair rates.
    let pairs = crate::report::distinct_pairs_exec(results);
    let ghost dps = distinct_pairs(results@);
    proof {
        crate::report::lemma_distinct_pairs_present(results@);
    }
    let mut pair_cnt: usize = 0;
    let mut pass_sums: Vec<u128> = Vec::new();
    let mut j: usize = 0;
    while j < k_values.len()
        invariant
            j <= k_values@.len(),
            pass_sums@.len() == j,
            forall|t: int| 0 <= t < j ==> pass_sums@[t] == 0,
        decreases k_values@.len() - j,
    {
        pass_sums.push(0);
        j = j + 1;
    }
    let mut pi: usize = 0;
    proof {
        assert(dps.take(0) =~= Seq::<(Seq<char>, Seq<char>)>::empty());
    }
    while pi < pairs.len()
        invariant
            pi <= pairs@.len(),
            m == model@,
            spec_groups_small(results@),
            dps == pairs@.map_values(|q: (String, String)| (q.0@, q.1@)),
            dps == distinct_pairs(results@),
            forall|t: int| 0 <= t < dps.len() ==> has_pair(results@, #[trigger] dps[t]),
            pair_cnt == count_model_pairs(dps.take(pi as int), m),
            pair_cnt <= pi,
            pass_sums@.len() == k_values@.len(),
            forall|t: int|
                0 <= t < k_values@.len() ==> #[trigger] pass_sums@[t] == sum_pass_k(
                    dps.take(pi as int),
                    results@,
                    eval_set.cases@,
                    m,
                    k_values@[t],
                ),
            forall|t: int|
                0 <= t < k_values@.len() ==> #[trigger] pass_sums@[t] <= pair_cnt * (
                RATE_SCALE as int),
        decreases pairs@.len() - pi,
    {
        let ghost p = dps[pi as int];
        proof {
            assert(pairs@.map_values(|q: (String, String)| (q.0@, q.1@))[pi as int] == (
            pairs@[pi as int].0@,
            pairs@[pi as int].1@,
            ));
            assert(dps.take(pi as int + 1).drop_last() =~= dps.take(pi as int));
            assert(dps.take(pi as int + 1).last() == p);
        }
        if pairs[pi].1.eq(model) {
            pair_cnt = pair_cnt + 1;
            let counts = count_pair(results, &pairs[pi].0, &pairs[pi].1, &eval_set.cases);
            proof {
                let w = choose|t: int|
                    0 <= t < results@.len() && result_matches(#[trigger] results@[t], p);
                assert(count_matching(results@, pair_of(results@[w])) <= PASS_AT_K_MAX_N);
            }
            let mut t: usize = 0;
            while t < k_values.len()
                invariant
                    t <= k_values@.len(),
                    m == model@,
                    p == dps[pi as int],
                    pi < dps.len(),
                    p.1 == m,
                    counts.0 == count_matching(results@, p),
                    counts.1 == count_successes(results@, p, eval_set.cases@),
                    counts.0 <= PASS_AT_K_MAX_N,
                    counts.1 <= counts.0,
                    pass_sums@.len() == k_values@.len(),
                    forall|x: int|
                        t <= x < k_values@.len() ==> #[trigger] pass_sums@[x] == sum_pass_k(
                            dps.take(pi as int),
                            results@,
                            eval_set.cases@,
                            m,
                            k_values@[x],
                        ),
                    forall|x: int|
                        0 <= x < t ==> #[trigger] pass_sums@[x] == sum_pass_k(
                            dps.take(pi as int + 1),
                            results@,
                            eval_set.cases@,
                            m,
                            k_values@[x],
                        ),
                    pair_cnt >= 1,
                    forall|x: int|
                        t <= x < k_values@.len() ==> #[trigger] pass_sums@[x] <= (pair_cnt - 1) * (
                        RATE_SCALE as int),
                    forall|x: int|
                        0 <= x < t ==> #[trigger] pass_sums@[x] <= pair_cnt * (RATE_SCALE as int),
                decreases k_values@.len() - t,
            {
                let rate = pass_at_k(counts.0 as u32, counts.1 as u32, k_values[t]);
                let updated = pass_sums[t] + rate as u128;
                proof {
                    assert(dps.take(pi as int + 1).drop_last() =~= dps.take(pi as int));
                }
                pass_sums.set(t, updated);
                t = t + 1;
            }
        } else {
            proof {
                assert(dps.take(pi as int + 1).drop_last() =~= dps.take(pi as int));
                assert forall|x: int| 0 <= x < k_values@.len() implies #[trigger] pass_sums@[x]
                    == sum_pass_k(
                    dps.take(pi as int + 1),
                    results@,
                    eval_set.cases@,
                    m,
                    k_values@[x],
                ) by {
                    assert(pass_sums@[x] == sum_pass_k(
                        dps.take(pi as int),
                        results@,
                        eval_set.cases@,
                        m,
                        k_values@[x],
                    ));
                }
            }
        }
        pi = pi + 1;
    }
    proof {
        assert(dps.take(pi as int) =~= dps);
    }
    let mut pass_at_k_out: Vec<(u32, u64)> = Vec::new();
    let mut t: usize = 0;
    while t < k_values.len()
        invariant
            t <= k_values@.len(),
            m == model@,
            pair_cnt == count_model_pairs(dps, m),
            dps == distinct_pairs(results@),
            pass_sums@.len() == k_values@.len(),
            forall|x: int|
                0 <= x < k_values@.len() ==> #[trigger] pass_sums@[x] == sum_pass_k(
                    dps,
                    results@,
                    eval_set.cases@,
                    m,
                    k_values@[x],
                ),
            forall|x: int|
                0 <= x < k_values@.len() ==> #[trigger] pass_sums@[x] <= pair_cnt * (
                RATE_SCALE as int),
            pass_at_k_out@.len() == t,
            forall|x: int|
                0 <= x < t ==> (#[trigger] pass_at_k_out@[x]) == (
                k_values@[x],
                spec_model_pass_k(results@, eval_set.cases@, m, k_values@[x]) as u64,
            ),
        decreases k_values@.len() - t,
    {
        let mean: u64 = if pair_cnt == 0 {
            0
        } else {
            proof {
                lemma_mean_bounded(
                    pass_sums@[t as int] as int,
                    pair_cnt as int,
                    RATE_SCALE as int,
                );
            }
            (pass_sums[t] / pair_cnt as u128) as u64
        };
        pass_at_k_out.push((k_values[t], mean));
        t = t + 1;
    }
    ModelStats {
        model: model.clone(),
        pass_at_k: pass_at_k_out,
        avg_compilation_rate,
        avg_test_pass_rate,
        avg_clippy_score,
        total_tokens,
        total_cost_microusd,
        avg_latency_ms,
    }
}

/// A non-negative sum of values below a bound divides to a mean below
/// the bound.
proof fn lemma_mean_bounded(sum: int, den: int, bound: int)
    requires
        den >= 1,
        0 <= sum,
        0 <= bound,
        sum <= den * bound,
    ensures
        0 <= sum / den <= bound,
{
    lemma_div_pos_is_pos(sum, den);
    lemma_div_is_ordered(sum, den * bound, den);
    lemma_div_by_multiple(bound, den);
    assert((bound * den) / den == bound);
    assert(den * bound == bound * den) by (nonlinear_arith);
}

proof fn lemma_sum_pass_nonneg(
    pairs: Seq<(Seq<char>, Seq<char>)>,
    results: Seq<EvalResult>,
    cases: Seq<EvalCase>,
    m: Seq<char>,
    k: u32,
)
    ensures
        0 <= sum_pass_k(pairs, results, cases, m, k) <= pairs.len() * (RATE_SCALE as int),
    decreases pairs.len(),
{
    if pairs.len() > 0 {
        lemma_sum_pass_nonneg(pairs.drop_last(), results, cases, m, k);
        lemma_pass_at_k_range(
            count_matching(results, pairs.last()) as u32,
            count_successes(results, pairs.last(), cases) as u32,
            k,
        );
    }
}

/// Rolls one case's pairs up: the per-model pass rate of each of the
/// case's `(case, model)` pairs.
fn case_stats_for(
    results: &Vec<EvalResult>,
    case_id: &String,
    eval_set: &EvalSet,
) -> (cs: CaseStats)
    ensures
        cs.case_id@ == case_id@,
        case_stats_ok(cs, results@, eval_set.cases@),
{
    let ghost c = case_id@;
    let pairs = crate::report::distinct_pairs_exec(results);
    let ghost dps = distinct_pairs(results@);
    proof {
        crate::report::lemma_distinct_pairs_present(results@);
    }
    let mut out: Vec<(String, u64)> = Vec::new();
    let mut i: usize = 0;
    proof {
        assert(dps.take(0) =~= Seq::<(Seq<char>, Seq<char>)>::empty());
        assert(dps.take(0).filter(case_pred(c)) =~= Seq::<(Seq<char>, Seq<char>)>::empty());
    }
    while i < pairs.len()
        invariant
            i <= pairs@.len(),
            c == case_id@,
            dps == pairs@.map_values(|q: (String, String)| (q.0@, q.1@)),
            dps == distinct_pairs(results@),
            forall|t: int| 0 <= t < dps.len() ==> has_pair(results@, #[trigger] dps[t]),
            out@.len() == dps.take(i as int).filter(case_pred(c)).len(),
            forall|j: int|
                0 <= j < out@.len() ==> {
                    let p = dps.take(i as int).filter(case_pred(c))[j];
                    (#[trigger] out@[j]).0@ == p.1 && out@[j].1 as int == RATE_SCALE
                        * count_successes(results@, p, eval_set.cases@) / count_matching(
                        results@,
                        p,
                    )
                },
        decreases pairs@.len() - i,
    {
        let ghost p = dps[i as int];
        proof {
            assert(pairs@.map_values(|q: (String, String)| (q.0@, q.1@))[i as int] == (
            pairs@[i as int].0@,
            pairs@[i as int].1@,
            ));
            assert(dps.take(i as int + 1) =~= dps.take(i as int).push(p));
            lemma_filter_push_pairs(dps.take(i as int), case_pred(c), p);
        }
        if pairs[i].0.eq(case_id) {
            let counts = count_pair(results, &pairs[i].0, &pairs[i].1, &eval_set.cases);
            proof {
                let w = choose|t: int|
                    0 <= t < results@.len() && result_matches(#[trigger] results@[t], p);
                assert(count_matching(results@, p) >= 1) by {
                    lemma_count_matching_at_least(results@, p, w);
                }
            }
            proof {
                assert((RATE_SCALE as u128) * (counts.1 as u128) <= (RATE_SCALE as u128) * (
                counts.0 as u128)) by (nonlinear_arith)
                    requires
                        counts.1 <= counts.0,
                ;
                lemma_div_is_ordered(
                    RATE_SCALE as int * (counts.1 as int),
                    RATE_SCALE as int * (counts.0 as int),
                    counts.0 as int,
                );
                lemma_div_by_multiple(RATE_SCALE as int, counts.0 as int);
            }
            let rate: u64 = ((RATE_SCALE as u128) * (counts.1 as u128) / (counts.0 as u128))
                as u64;
            out.push((pairs[i].1.clone(), rate));
        }
        i = i + 1;
    }
    proof {
        assert(dps.take(i as int) =~= dps);
    }
    CaseStats { case_id: case_id.clone(), per_model_pass_rate: out }
}

proof fn lemma_filter_push_pairs(
    s: Seq<(Seq<char>, Seq<char>)>,
    f: spec_fn((Seq<char>, Seq<char>)) -> bool,
    x: (Seq<char>, Seq<char>),
)
    ensures
        s.push(x).filter(f) == if f(x) {
            s.filter(f).push(x)
        } else {
            s.filter(f)
        },
{
    reveal_with_fuel(Seq::filter, 2);
    assert(s.push(x).drop_last() =~= s);
    assert(s.push(x).last() == x);
}

/// A pair with a witness in the results has a positive count.
proof fn lemma_count_matching_at_least(
    results: Seq<EvalResult>,
    p: (Seq<char>, Seq<char>),
    w: int,
)
    requires
        0 <= w < results.len(),
        result_matches(results[w], p),
    ensures
        count_matching(results, p) >= 1,
    decreases results.len(),
{
    if w == results.len() - 1 {
        lemma_count_matching_nonneg(results.drop_last(), p);
    } else {
        lemma_count_matching_at_least(results.drop_last(), p, w);
    }
}

proof fn lemma_count_matching_nonneg(results: Seq<EvalResult>, p: (Seq<char>, Seq<char>))
    ensures
        count_matching(results, p) >= 0,
    decreases results.len(),
{
    if results.len() > 0 {
        lemma_count_matching_nonneg(results.drop_last(), p);
    }
}

/// Computes the aggregate statistics of a run: one rollup per model
/// evaluated and one per case, each key in first-occurrence order.
pub fn compute_aggregate_stats(
    results: &Vec<EvalResult>,
    eval_set: &EvalSet,
    k_values: &Vec<u32>,
) -> (agg: AggregateStats)
    requires
        spec_groups_small(results@),
    ensures
        agg.per_model@.len() == distinct_models(results@).len(),
        forall|i: int|
            0 <= i < agg.per_model@.len() ==> (#[trigger] agg.per_model@[i]).model@
                == distinct_models(results@)[i] && model_stats_ok(
                agg.per_model@[i],
                results@,
                eval_set.cases@,
                k_values@,
            ),
        agg.per_case@.len() == distinct_case_ids(results@).len(),
        forall|i: int|
            0 <= i < agg.per_case@.len() ==> (#[trigger] agg.per_case@[i]).case_id@
                == distinct_case_ids(results@)[i] && case_stats_ok(
                agg.per_case@[i],
                results@,
                eval_set.cases@,
            ),
{
    let models = distinct_models_exec(results);
    let ghost dms = distinct_models(results@);
    proof {
        lemma_distinct_models_counted(results@);
    }
    let mut per_model: Vec<ModelStats> = Vec::new();
    let mut i: usize = 0;
    while i < models.len()
        invariant
            i <= models@.len(),
            spec_groups_small(results@),
            dms == models@.map_values(|s: String| s@),
            dms == distinct_models(results@),
            forall|t: int| 0 <= t < dms.len() ==> count_model(results@, #[trigger] dms[t]) >= 1,
            per_model@.len() == i,
            forall|t: int|
                0 <= t < i ==> (#[trigger] per_model@[t]).model@ == dms[t] && model_stats_ok(
                    per_model@[t],
                    results@,
                    eval_set.cases@,
                    k_values@,
                ),
        decreases models@.len() - i,
    {
        proof {
            assert(models@.map_values(|s: String| s@)[i as int] == models@[i as int]@);
        }
        let ms = model_stats_for(results, &models[i], eval_set, k_values);
        per_model.push(ms);
        i = i + 1;
    }
    let case_ids = distinct_cases_exec(results);
    let ghost dcs = distinct_case_ids(results@);
    let mut per_case: Vec<CaseStats> = Vec::new();
    let mut j: usize = 0;
    while j < case_ids.len()
        invariant
            j <= case_ids@.len(),
            spec_groups_small(results@),
            dcs == case_ids@.map_values(|s: String| s@),
            dcs == distinct_case_ids(results@),
            per_case@.len() == j,
            forall|t: int|
                0 <= t < j ==> (#[trigger] per_case@[t]).case_id@ == dcs[t] && case_stats_ok(
                    per_case@[t],
                    results@,
                    eval_set.cases@,
                ),
        decreases case_ids@.len() - j,
    {
        proof {
            assert(case_ids@.map_values(|s: String| s@)[j as int] == case_ids@[j as int]@);
        }
        let cs = case_stats_for(results, &case_ids[j], eval_set);
        per_case.push(cs);
        j = j + 1;
    }
    AggregateStats { per_model, per_case }
}

/// Every distinct model has at least one result.
proof fn lemma_distinct_models_counted(results: Seq<EvalResult>)
    ensures
        forall|t: int|
            0 <= t < distinct_models(results).len() ==> count_model(
                results,
                #[trigger] distinct_models(results)[t],
            ) >= 1,
{
    lemma_models_after_counted(results, Seq::empty());
    assert forall|t: int|
        0 <= t < distinct_models(results).len() implies count_model(
        results,
        #[trigger] distinct_models(results)[t],
    ) >= 1 by {
        assert(distinct_models(results)[t] == models_after(results, Seq::empty())[t]);
    }
}

proof fn lemma_models_after_counted(results: Seq<EvalResult>, seen: Seq<Seq<char>>)
    ensures
        forall|t: int|
            0 <= t < models_after(results, seen).len() ==> count_model(
                results,
                #[trigger] models_after(results, seen)[t],
            ) >= 1,
    decreases results.len(),
{
    if results.len() > 0 {
        let m0 = results[0].model@;
        let rest = results.drop_first();
        if seen.contains(m0) {
            lemma_models_after_counted(rest, seen);
            assert forall|t: int|
                0 <= t < models_after(results, seen).len() implies count_model(
                results,
                #[trigger] models_after(results, seen)[t],
            ) >= 1 by {
                let q = models_after(results, seen)[t];
                assert(q == models_after(rest, seen)[t]);
                lemma_count_model_extend(results, q);
            }
        } else {
            lemma_models_after_counted(rest, seen.push(m0));
            assert forall|t: int|
                0 <= t < models_after(results, seen).len() implies count_model(
                results,
                #[trigger] models_after(results, seen)[t],
            ) >= 1 by {
                let q = models_after(results, seen)[t];
                if t == 0 {
                    lemma_count_model_head(results);
                } else {
                    assert(q == models_after(rest, seen.push(m0))[t - 1]);
                    lemma_count_model_extend(results, q);
                }
            }
        }
    }
}

/// A model counted in the tail is counted in the whole.
proof fn lemma_count_model_extend(results: Seq<EvalResult>, m: Seq<char>)
    requires
        results.len() > 0,
        count_model(results.drop_first(), m) >= 1,
    ensures
        count_model(results, m) >= 1,
    decreases results.len(),
{
    if results.len() == 1 {
        assert(results.drop_first() =~= Seq::<EvalResult>::empty());
    } else {
        let pre = results.drop_last();
        assert(results.drop_first().drop_last() =~= pre.drop_first());
        if results.last().model@ == m {
            lemma_count_model_nonneg(pre, m);
        } else {
            assert(count_model(results.drop_first(), m) == count_model(
                pre.drop_first(),
                m,
            ) + if results.drop_first().last().model@ == m {
                1int
            } else {
                0int
            });
            assert(results.drop_first().last() == results.last());
            lemma_count_model_extend(pre, m);
        }
    }
}

proof fn lemma_count_model_nonneg(results: Seq<EvalResult>, m: Seq<char>)
    ensures
        count_model(results, m) >= 0,
    decreases results.len(),
{
    if results.len() > 0 {
        lemma_count_model_nonneg(results.drop_last(), m);
    }
}

/// The model of the first result is counted.
proof fn lemma_count_model_head(results: Seq<EvalResult>)
    requires
        results.len() > 0,
    ensures
        count_model(results, results[0].model@) >= 1,
    decreases results.len(),
{
    if results.len() == 1 {
        assert(results.last() == results[0]);
        assert(results.drop_last() =~= Seq::<EvalResult>::empty());
        assert(count_model(results.drop_last(), results[0].model@) == 0);
        assert(count_model(results, results[0].model@) == 1);
    } else {
        assert(results.drop_last()[0] == results[0]);
        lemma_count_model_head(results.drop_last());
        assert(count_model(results.drop_last(), results[0].model@) >= 1);
        assert(count_model(results, results[0].model@) == count_model(
            results.drop_last(),
            results[0].model@,
        ) + (if results.last().model@ == results[0].model@ {
            1int
        } else {
            0int
        }));
    }
}

/// The distinct case ids of the results, in first-occurrence order.
fn distinct_cases_exec(results: &Vec<EvalResult>) -> (r: Vec<String>)
    ensures
        r@.map_values(|s: String| s@) == distinct_case_ids(results@),
{
    let mut ids: Vec<String> = Vec::new();
    let mut i: usize = 0;
    proof {
        assert(results@.skip(0) =~= results@);
        assert(ids@.map_values(|s: String| s@) =~= Seq::<Seq<char>>::empty());
        assert(Seq::<Seq<char>>::empty() + cases_after(results@, Seq::empty()) =~= cases_after(
            results@,
            Seq::empty(),
        ));
    }
    while i < results.len()
        invariant
            i <= results@.len(),
            distinct_case_ids(results@) == ids@.map_values(|s: String| s@) + cases_after(
                results@.skip(i as int),
                ids@.map_values(|s: String| s@),
            ),
        decreases results@.len() - i,
    {
        let ghost cv = ids@.map_values(|s: String| s@);
        let r = &results[i];
        proof {
            assert(results@.skip(i as int)[0] == results@[i as int]);
            assert(results@.skip(i as int).drop_first() =~= results@.skip(i as int + 1));
        }
        let mut seen = false;
        let mut j: usize = 0;
        while j < ids.len()
            invariant
                j <= ids@.len(),
                cv == ids@.map_values(|s: String| s@),
                i < results@.len(),
                r.case_id@ == results@[i as int].case_id@,
                seen ==> cv.contains(results@[i as int].case_id@),
                !seen ==> forall|t: int| 0 <= t < j ==> cv[t] != results@[i as int].case_id@,
            decreases ids@.len() - j,
        {
            if !seen {
                proof {
                    assert(cv[j as int] == ids@[j as int]@);
                }
                if ids[j].eq(&r.case_id) {
                    seen = true;
                    proof {
                        assert(cv[j as int] == results@[i as int].case_id@);
                    }
                }
            }
            j = j + 1;
        }
        if !seen {
            proof {
                assert(!cv.contains(results@[i as int].case_id@));
            }
            ids.push(r.case_id.clone());
            proof {
                assert(ids@.map_values(|s: String| s@) =~~= cv.push(results@[i as int].case_id@));
                assert(cv + (seq![results@[i as int].case_id@] + cases_after(
                    results@.skip(i as int + 1),
                    cv.push(results@[i as int].case_id@),
                )) =~= (cv + seq![results@[i as int].case_id@]) + cases_after(
                    results@.skip(i as int + 1),
                    cv.push(results@[i as int].case_id@),
                ));
            }
        }
        i = i + 1;
    }
    proof {
        assert(results@.skip(i as int) =~= Seq::<EvalResult>::empty());
        let cv = ids@.map_values(|s: String| s@);
        assert(cv + cases_after(results@.skip(i as int), cv) =~= cv);
    }
    ids
}

} // verus!
