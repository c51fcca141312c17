//! Eval reports and the regression comparator.
//!
//! A report holds the results of one run. Comparing a current report
//! against a baseline classifies every `(case, model)` pair of the current
//! report by the signed change of its best overall score against a
//! threshold.

use vstd::prelude::*;

use crate::model::Expectations;
use crate::results::{spec_overall, EvalResult, Score};
use crate::statistics::AggregateStats;

verus! {

/// Summary of an eval set, without the full case definitions.
#[derive(Debug, Clone)]
pub struct EvalSetSummary {
    pub id: String,
    pub name: String,
    pub case_count: usize,
}

/// A complete eval report.
#[derive(Debug, Clone)]
pub struct EvalReport {
    /// Unique run identifier.
    pub id: u128,
    /// When the report was created, in milliseconds since the epoch.
    pub created_at_ms: u64,
    /// Summary of the eval set.
    pub eval_set: EvalSetSummary,
    /// Models that were evaluated.
    pub models_evaluated: Vec<String>,
    /// Individual eval results.
    pub results: Vec<EvalResult>,
    /// Aggregate statistics.
    pub aggregate: AggregateStats,
    /// Total wall-clock duration in milliseconds.
    pub duration_ms: u64,
}

/// A detected regression: a pair whose score fell by more than the
/// threshold. Scores are in millionths; the delta is signed.
#[derive(Debug, Clone)]
pub struct Regression {
    pub case_id: String,
    pub model: String,
    pub baseline_score: u64,
    pub current_score: u64,
    pub delta: i64,
}

/// A detected improvement: a pair whose score rose by more than the
/// threshold.
#[derive(Debug, Clone)]
pub struct Improvement {
    pub case_id: String,
    pub model: String,
    pub baseline_score: u64,
    pub current_score: u64,
    pub delta: i64,
}

/// Result of comparing two reports.
#[derive(Debug, Clone)]
pub struct RegressionReport {
    /// Pairs whose score went down, in the current report's pair order.
    pub regressions: Vec<Regression>,
    /// Pairs whose score went up, in the current report's pair order.
    pub improvements: Vec<Improvement>,
    /// Pairs with no significant change.
    pub unchanged: usize,
    /// Pairs in current but not baseline.
    pub new_cases: usize,
    /// Pairs in baseline but not current.
    pub removed_cases: usize,
}

/// The `(case, model)` pair of a result.
pub open spec fn pair_of(r: EvalResult) -> (Seq<char>, Seq<char>) {
    (r.case_id@, r.model@)
}

pub open spec fn contains_pair(pairs: Seq<(Seq<char>, Seq<char>)>, p: (Seq<char>, Seq<char>)) -> bool {
    exists|i: int| 0 <= i < pairs.len() && pairs[i] == p
}

/// The distinct pairs of a result list, in first-occurrence order, after
/// those already `seen`.
pub open spec fn pairs_after(results: Seq<EvalResult>, seen: Seq<(Seq<char>, Seq<char>)>) -> Seq<
    (Seq<char>, Seq<char>),
>
    decreases results.len(),
{
    if results.len() == 0 {
        Seq::empty()
    } else {
        let p = pair_of(results[0]);
        if contains_pair(seen, p) {
            pairs_after(results.drop_first(), seen)
        } else {
            seq![p] + pairs_after(results.drop_first(), seen.push(p))
        }
    }
}

/// The distinct `(case, model)` pairs of a result list, in
/// first-occurrence order.
pub open spec fn distinct_pairs(results: Seq<EvalResult>) -> Seq<(Seq<char>, Seq<char>)> {
    pairs_after(results, Seq::empty())
}

pub open spec fn result_matches(r: EvalResult, p: (Seq<char>, Seq<char>)) -> bool {
    r.case_id@ == p.0 && r.model@ == p.1
}

pub open spec fn has_pair(results: Seq<EvalResult>, p: (Seq<char>, Seq<char>)) -> bool {
    exists|i: int| 0 <= i < results.len() && result_matches(#[trigger] results[i], p)
}

/// The best overall score of a pair's attempts; zero when it has none.
pub open spec fn best_score(results: Seq<EvalResult>, p: (Seq<char>, Seq<char>)) -> int
    decreases results.len(),
{
    if results.len() == 0 {
        0
    } else {
        let rest = best_score(results.drop_last(), p);
        if result_matches(results.last(), p) && spec_overall(results.last()) > rest {
            spec_overall(results.last())
        } else {
            rest
        }
    }
}

/// A pair regressed: it stands in both reports and its best score fell
/// by more than the threshold.
pub open spec fn regressed(
    base: Seq<EvalResult>,
    cur: Seq<EvalResult>,
    threshold: int,
) -> spec_fn((Seq<char>, Seq<char>)) -> bool {
    |p: (Seq<char>, Seq<char>)|
        has_pair(base, p) && best_score(base, p) > best_score(cur, p) + threshold
}

/// A pair improved: it stands in both reports and its best score rose by
/// more than the threshold.
pub open spec fn improved(
    base: Seq<EvalResult>,
    cur: Seq<EvalResult>,
    threshold: int,
) -> spec_fn((Seq<char>, Seq<char>)) -> bool {
    |p: (Seq<char>, Seq<char>)|
        has_pair(base, p) && best_score(cur, p) > best_score(base, p) + threshold
}

/// A pair is unchanged: it stands in both reports and its best score
/// moved by at most the threshold either way.
pub open spec fn unchanged_pair(
    base: Seq<EvalResult>,
    cur: Seq<EvalResult>,
    threshold: int,
) -> spec_fn((Seq<char>, Seq<char>)) -> bool {
    |p: (Seq<char>, Seq<char>)|
        has_pair(base, p) && !(best_score(base, p) > best_score(cur, p) + threshold) && !(
        best_score(cur, p) > best_score(base, p) + threshold)
}

/// A pair is new: the baseline has no attempt for it.
pub open spec fn new_pair(base: Seq<EvalResult>) -> spec_fn((Seq<char>, Seq<char>)) -> bool {
    |p: (Seq<char>, Seq<char>)| !has_pair(base, p)
}

/// The content of a regression or improvement entry.
pub open spec fn entry_view(
    case_id: Seq<char>,
    model: Seq<char>,
    baseline_score: int,
    current_score: int,
    delta: int,
) -> (Seq<char>, Seq<char>, int, int, int) {
    (case_id, model, baseline_score, current_score, delta)
}

/// The entry a pair produces, from the two reports' best scores.
pub open spec fn entry_of(base: Seq<EvalResult>, cur: Seq<EvalResult>) -> spec_fn(
    (Seq<char>, Seq<char>),
) -> (Seq<char>, Seq<char>, int, int, int) {
    |p: (Seq<char>, Seq<char>)|
        entry_view(
            p.0,
            p.1,
            best_score(base, p),
            best_score(cur, p),
            best_score(cur, p) - best_score(base, p),
        )
}

pub open spec fn reg_views(s: Seq<Regression>) -> Seq<(Seq<char>, Seq<char>, int, int, int)> {
    s.map_values(
        |r: Regression|
            entry_view(
                r.case_id@,
                r.model@,
                r.baseline_score as int,
                r.current_score as int,
                r.delta as int,
            ),
    )
}

pub open spec fn imp_views(s: Seq<Improvement>) -> Seq<(Seq<char>, Seq<char>, int, int, int)> {
    s.map_values(
        |r: Improvement|
            entry_view(
                r.case_id@,
                r.model@,
                r.baseline_score as int,
                r.current_score as int,
                r.delta as int,
            ),
    )
}

/// Copies a string by its characters.
fn clone_string(s: &String) -> (r: String)
    ensures
        r@ == s@,
{
    crate::text::string_of(&crate::text::chars_of(s.as_str()))
}

/// Are two strings equal?
fn str_eq(a: &String, b: &String) -> (r: bool)
    ensures
        r == (a@ == b@),
{
    a.eq(b)
}

/// The best overall score, in millionths, over a pair's attempts.
fn best_score_exec(results: &Vec<EvalResult>, case_id: &String, model: &String) -> (r: u64)
    ensures
        r == best_score(results@, (case_id@, model@)),
        r <= crate::RATE_SCALE,
{
    let ghost p = (case_id@, model@);
    let mut best: u64 = 0;
    let mut i: usize = 0;
    proof {
        assert(results@.take(0) =~= Seq::<EvalResult>::empty());
    }
    while i < results.len()
        invariant
            i <= results@.len(),
            best == best_score(results@.take(i as int), p),
            p == (case_id@, model@),
            best <= crate::RATE_SCALE,
        decreases results@.len() - i,
    {
        let r = &results[i];
        proof {
            assert(results@.take(i as int + 1).drop_last() =~= results@.take(i as int));
            assert(results@.take(i as int + 1).last() == results@[i as int]);
        }
        if str_eq(&r.case_id, case_id) && str_eq(&r.model, model) {
            let score = Score::compute(r, &Expectations::default());
            if score.overall > best {
                best = score.overall;
            }
        }
        i = i + 1;
    }
    proof {
        assert(results@.take(i as int) =~= results@);
    }
    best
}

/// Does the result list hold an attempt for the pair?
fn has_pair_exec(results: &Vec<EvalResult>, case_id: &String, model: &String) -> (r: bool)
    ensures
        r == has_pair(results@, (case_id@, model@)),
{
    let mut i: usize = 0;
    while i < results.len()
        invariant
            i <= results@.len(),
            forall|j: int|
                0 <= j < i ==> !result_matches(#[trigger] results@[j], (case_id@, model@)),
        decreases results@.len() - i,
    {
        let r = &results[i];
        if str_eq(&r.case_id, case_id) && str_eq(&r.model, model) {
            return true;
        }
        i = i + 1;
    }
    false
}

/// The distinct `(case, model)` pairs of a result list, in
/// first-occurrence order.
pub fn distinct_pairs_exec(results: &Vec<EvalResult>) -> (r: Vec<(String, String)>)
    ensures
        r@.map_values(|q: (String, String)| (q.0@, q.1@)) == distinct_pairs(results@),
{
    let mut pairs: Vec<(String, String)> = Vec::new();
    let mut i: usize = 0;
    proof {
        assert(results@.skip(0) =~= results@);
        assert(pairs@.map_values(|q: (String, String)| (q.0@, q.1@)) =~= Seq::<
            (Seq<char>, Seq<char>),
        >::empty());
        assert(Seq::<(Seq<char>, Seq<char>)>::empty() + pairs_after(
            results@,
            Seq::empty(),
        ) =~= pairs_after(results@, Seq::empty()));
    }
    while i < results.len()
        invariant
            i <= results@.len(),
            distinct_pairs(results@) == pairs@.map_values(|q: (String, String)| (q.0@, q.1@))
                + pairs_after(
                results@.skip(i as int),
                pairs@.map_values(|q: (String, String)| (q.0@, q.1@)),
            ),
        decreases results@.len() - i,
    {
        let ghost pv = pairs@.map_values(|q: (String, String)| (q.0@, q.1@));
        let r = &results[i];
        proof {
            assert(results@.skip(i as int)[0] == results@[i as int]);
            assert(results@.skip(i as int).drop_first() =~= results@.skip(i as int + 1));
        }
        let mut seen = false;
        let mut j: usize = 0;
        while j < pairs.len()
            invariant
                j <= pairs@.len(),
                pv == pairs@.map_values(|q: (String, String)| (q.0@, q.1@)),
                i < results@.len(),
                r.case_id@ == results@[i as int].case_id@,
                r.model@ == results@[i as int].model@,
                seen ==> contains_pair(pv, pair_of(results@[i as int])),
                !seen ==> forall|m: int| 0 <= m < j ==> pv[m] != pair_of(results@[i as int]),
            decreases pairs@.len() - j,
        {
            if !seen {
                proof {
                    assert(pv[j as int] == (pairs@[j as int].0@, pairs@[j as int].1@));
                }
                let same_case = str_eq(&pairs[j].0, &r.case_id);
                let same_model = str_eq(&pairs[j].1, &r.model);
                if same_case && same_model {
                    seen = true;
                    proof {
                        assert(pairs@[j as int].0@ == results@[i as int].case_id@);
                        assert(pairs@[j as int].1@ == results@[i as int].model@);
                        assert(pv[j as int] == pair_of(results@[i as int]));
                    }
                } else {
                    proof {
                        assert(pairs@[j as int].0@ != results@[i as int].case_id@ || pairs@[
                            j as int
                        ].1@ != results@[i as int].model@);
                        assert(pv[j as int] != pair_of(results@[i as int]));
                    }
                }
            }
            j = j + 1;
        }
        if !seen {
            proof {
                assert(!contains_pair(pv, pair_of(results@[i as int])));
            }
            let c = clone_string(&r.case_id);
            let m = clone_string(&r.model);
            pairs.push((c, m));
            proof {
                assert(pairs@.map_values(|q: (String, String)| (q.0@, q.1@)) =~~= pv.push(
                    pair_of(results@[i as int]),
                ));
                assert(pv + (seq![pair_of(results@[i as int])] + pairs_after(
                    results@.skip(i as int + 1),
                    pv.push(pair_of(results@[i as int])),
                )) =~= (pv + seq![pair_of(results@[i as int])]) + pairs_after(
                    results@.skip(i as int + 1),
                    pv.push(pair_of(results@[i as int])),
                ));
            }
        }
        i = i + 1;
    }
    proof {
        assert(results@.skip(i as int) =~= Seq::<EvalResult>::empty());
        let pv = pairs@.map_values(|q: (String, String)| (q.0@, q.1@));
        assert(pv + pairs_after(results@.skip(i as int), pv) =~= pv);
    }
    pairs
}

proof fn lemma_filter_push<A>(s: Seq<A>, f: spec_fn(A) -> bool, x: A)
    ensures
        s.push(x).filter(f) == if f(x) {
            s.filter(f).push(x)
        } else {
            s.filter(f)
        },
{
    reveal_with_fuel(Seq::filter, 2);
    assert(s.push(x).drop_last() =~= s);
    assert(s.push(x).last() == x);
}

impl EvalReport {
    /// Compares this report against a baseline.
    ///
    /// For each distinct `(case, model)` pair of this report, the best
    /// overall scores of the two reports are compared: a fall by more
    /// than the threshold is a regression, a rise by more than the
    /// threshold an improvement, anything else unchanged; pairs absent
    /// from the baseline are new. Pairs of the baseline absent here are
    /// counted as removed. The threshold is in millionths and compares
    /// against the signed delta.
    pub fn compare(&self, baseline: &EvalReport, threshold: u64) -> (rr: RegressionReport)
        ensures
            reg_views(rr.regressions@) == distinct_pairs(self.results@).filter(
                regressed(baseline.results@, self.results@, threshold as int),
            ).map_values(entry_of(baseline.results@, self.results@)),
            imp_views(rr.improvements@) == distinct_pairs(self.results@).filter(
                improved(baseline.results@, self.results@, threshold as int),
            ).map_values(entry_of(baseline.results@, self.results@)),
            rr.unchanged == distinct_pairs(self.results@).filter(
                unchanged_pair(baseline.results@, self.results@, threshold as int),
            ).len(),
            rr.new_cases == distinct_pairs(self.results@).filter(
                new_pair(baseline.results@),
            ).len(),
            rr.removed_cases == distinct_pairs(baseline.results@).filter(
                new_pair(self.results@),
            ).len(),
    {
        let ghost base = baseline.results@;
        let ghost cur = self.results@;
        let ghost t = threshold as int;
        let pairs = distinct_pairs_exec(&self.results);
        let ghost dps = distinct_pairs(cur);
        let mut regressions: Vec<Regression> = Vec::new();
        let mut improvements: Vec<Improvement> = Vec::new();
        let mut unchanged: usize = 0;
        let mut new_cases: usize = 0;
        let mut i: usize = 0;
        proof {
            assert(dps.take(0) =~= Seq::<(Seq<char>, Seq<char>)>::empty());
            assert(dps.take(0).filter(regressed(base, cur, t)) =~= Seq::<
                (Seq<char>, Seq<char>),
            >::empty());
            assert(dps.take(0).filter(improved(base, cur, t)) =~= Seq::<
                (Seq<char>, Seq<char>),
            >::empty());
            assert(dps.take(0).filter(unchanged_pair(base, cur, t)) =~= Seq::<
                (Seq<char>, Seq<char>),
            >::empty());
            assert(dps.take(0).filter(new_pair(base)) =~= Seq::<(Seq<char>, Seq<char>)>::empty());
            assert(reg_views(regressions@) =~= Seq::<
                (Seq<char>, Seq<char>, int, int, int),
            >::empty());
            assert(imp_views(improvements@) =~= Seq::<
                (Seq<char>, Seq<char>, int, int, int),
            >::empty());
        }
        while i < pairs.len()
            invariant
                i <= pairs@.len(),
                base == baseline.results@,
                cur == self.results@,
                t == threshold as int,
                dps == pairs@.map_values(|q: (String, String)| (q.0@, q.1@)),
                reg_views(regressions@) == dps.take(i as int).filter(
                    regressed(base, cur, t),
                ).map_values(entry_of(base, cur)),
                imp_views(improvements@) == dps.take(i as int).filter(
                    improved(base, cur, t),
                ).map_values(entry_of(base, cur)),
                unchanged == dps.take(i as int).filter(unchanged_pair(base, cur, t)).len(),
                new_cases == dps.take(i as int).filter(new_pair(base)).len(),
                unchanged <= i,
                new_cases <= i,
            decreases pairs@.len() - i,
        {
            let ghost p = dps[i as int];
            proof {
                assert(pairs@.map_values(|q: (String, String)| (q.0@, q.1@))[i as int] == (
                pairs@[i as int].0@,
                pairs@[i as int].1@,
                ));
                assert(dps.take(i as int + 1) =~= dps.take(i as int).push(p));
                lemma_filter_push(dps.take(i as int), regressed(base, cur, t), p);
                lemma_filter_push(dps.take(i as int), improved(base, cur, t), p);
                lemma_filter_push(dps.take(i as int), unchanged_pair(base, cur, t), p);
                lemma_filter_push(dps.take(i as int), new_pair(base), p);
            }
            let case_id = &pairs[i].0;
            let model = &pairs[i].1;
            let in_base = has_pair_exec(&baseline.results, case_id, model);
            if in_base {
                let best_base = best_score_exec(&baseline.results, case_id, model);
                let best_cur = best_score_exec(&self.results, case_id, model);
                if best_base as u128 > best_cur as u128 + threshold as u128 {
                    let ghost prev = reg_views(regressions@);
                    let delta: i64 = best_cur as i64 - best_base as i64;
                    regressions.push(
                        Regression {
                            case_id: clone_string(case_id),
                            model: clone_string(model),
                            baseline_score: best_base,
                            current_score: best_cur,
                            delta,
                        },
                    );
                    proof {
                        assert(reg_views(regressions@) =~~= prev.push(entry_of(base, cur)(p)));
                        assert(dps.take(i as int).filter(regressed(base, cur, t)).push(
                            p,
                        ).map_values(entry_of(base, cur)) =~= dps.take(i as int).filter(
                            regressed(base, cur, t),
                        ).map_values(entry_of(base, cur)).push(entry_of(base, cur)(p)));
                    }
                } else if best_cur as u128 > best_base as u128 + threshold as u128 {
                    let ghost prev = imp_views(improvements@);
                    let delta: i64 = best_cur as i64 - best_base as i64;
                    improvements.push(
                        Improvement {
                            case_id: clone_string(case_id),
                            model: clone_string(model),
                            baseline_score: best_base,
                            current_score: best_cur,
                            delta,
                        },
                    );
                    proof {
                        assert(imp_views(improvements@) =~~= prev.push(entry_of(base, cur)(p)));
                        assert(dps.take(i as int).filter(improved(base, cur, t)).push(
                            p,
                        ).map_values(entry_of(base, cur)) =~= dps.take(i as int).filter(
                            improved(base, cur, t),
                        ).map_values(entry_of(base, cur)).push(entry_of(base, cur)(p)));
                    }
                } else {
                    unchanged = unchanged + 1;
                }
            } else {
                new_cases = new_cases + 1;
            }
            i = i + 1;
        }
        proof {
            assert(dps.take(i as int) =~= dps);
        }
        // Pairs of the baseline that the current report no longer has.
        let base_pairs = distinct_pairs_exec(&baseline.results);
        let ghost bps = distinct_pairs(base);
        let mut removed_cases: usize = 0;
        let mut k: usize = 0;
        proof {
            assert(bps.take(0) =~= Seq::<(Seq<char>, Seq<char>)>::empty());
            assert(bps.take(0).filter(new_pair(cur)) =~= Seq::<(Seq<char>, Seq<char>)>::empty());
        }
        while k < base_pairs.len()
            invariant
                k <= base_pairs@.len(),
                cur == self.results@,
                bps == base_pairs@.map_values(|q: (String, String)| (q.0@, q.1@)),
                removed_cases == bps.take(k as int).filter(new_pair(cur)).len(),
                removed_cases <= k,
            decreases base_pairs@.len() - k,
        {
            let ghost p = bps[k as int];
            proof {
                assert(base_pairs@.map_values(|q: (String, String)| (q.0@, q.1@))[k as int] == (
                base_pairs@[k as int].0@,
                base_pairs@[k as int].1@,
                ));
                assert(bps.take(k as int + 1) =~= bps.take(k as int).push(p));
                lemma_filter_push(bps.take(k as int), new_pair(cur), p);
            }
            if !has_pair_exec(&self.results, &base_pairs[k].0, &base_pairs[k].1) {
                removed_cases = removed_cases + 1;
            }
            k = k + 1;
        }
        proof {
            assert(bps.take(k as int) =~= bps);
        }
        RegressionReport { regressions, improvements, unchanged, new_cases, removed_cases }
    }
}

impl RegressionReport {
    /// Returns true if there are any regressions.
    pub fn has_regressions(&self) -> (r: bool)
        ensures
            r == (self.regressions@.len() > 0),
    {
        self.regressions.len() > 0
    }
}

/// Comparing a report against itself finds nothing: no regressions, no
/// improvements, and every one of its distinct pairs unchanged.
pub proof fn lemma_compare_self_is_unchanged(results: Seq<EvalResult>, threshold: int)
    requires
        threshold >= 0,
    ensures
        distinct_pairs(results).filter(regressed(results, results, threshold)).len() == 0,
        distinct_pairs(results).filter(improved(results, results, threshold)).len() == 0,
        distinct_pairs(results).filter(unchanged_pair(results, results, threshold)).len()
            == distinct_pairs(results).len(),
{
    lemma_distinct_pairs_present(results);
    lemma_self_filters(distinct_pairs(results), results, threshold);
}

proof fn lemma_self_filters(
    pairs: Seq<(Seq<char>, Seq<char>)>,
    results: Seq<EvalResult>,
    threshold: int,
)
    requires
        threshold >= 0,
        forall|i: int| 0 <= i < pairs.len() ==> has_pair(results, #[trigger] pairs[i]),
    ensures
        pairs.filter(regressed(results, results, threshold)).len() == 0,
        pairs.filter(improved(results, results, threshold)).len() == 0,
        pairs.filter(unchanged_pair(results, results, threshold)).len() == pairs.len(),
    decreases pairs.len(),
{
    reveal_with_fuel(Seq::filter, 2);
    if pairs.len() > 0 {
        assert(forall|i: int|
            0 <= i < pairs.len() - 1 ==> has_pair(results, #[trigger] pairs.drop_last()[i]));
        lemma_self_filters(pairs.drop_last(), results, threshold);
    }
}

/// Every distinct pair of a report has an attempt in it.
pub proof fn lemma_distinct_pairs_present(results: Seq<EvalResult>)
    ensures
        forall|i: int|
            0 <= i < distinct_pairs(results).len() ==> has_pair(
                results,
                #[trigger] distinct_pairs(results)[i],
            ),
{
    lemma_pairs_after_present(results, Seq::empty());
}

proof fn lemma_pairs_after_present(results: Seq<EvalResult>, seen: Seq<(Seq<char>, Seq<char>)>)
    ensures
        forall|i: int|
            0 <= i < pairs_after(results, seen).len() ==> has_pair(
                results,
                #[trigger] pairs_after(results, seen)[i],
            ),
    decreases results.len(),
{
    if results.len() > 0 {
        let p = pair_of(results[0]);
        let rest = results.drop_first();
        if contains_pair(seen, p) {
            lemma_pairs_after_present(rest, seen);
            assert forall|i: int|
                0 <= i < pairs_after(results, seen).len() implies has_pair(
                results,
                #[trigger] pairs_after(results, seen)[i],
            ) by {
                let q = pairs_after(results, seen)[i];
                assert(q == pairs_after(rest, seen)[i]);
                assert(has_pair(rest, q));
                let w = choose|j: int| 0 <= j < rest.len() && result_matches(#[trigger] rest[j], q);
                assert(result_matches(results[w + 1], q));
            }
        } else {
            lemma_pairs_after_present(rest, seen.push(p));
            assert forall|i: int|
                0 <= i < pairs_after(results, seen).len() implies has_pair(
                results,
                #[trigger] pairs_after(results, seen)[i],
            ) by {
                let q = pairs_after(results, seen)[i];
                if i == 0 {
                    assert(result_matches(results[0], q));
                } else {
                    assert(q == pairs_after(rest, seen.push(p))[i - 1]);
                    assert(has_pair(rest, q));
                    assert(pairs_after(rest, seen.push(p))[i - 1] == q);
                    let w = choose|j: int|
                        0 <= j < rest.len() && result_matches(#[trigger] rest[j], q);
                    assert(result_matches(results[w + 1], q));
                }
            }
        }
    }
}

} // verus!
