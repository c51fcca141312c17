//! Parsing the human-readable output of the toolchain's test command.
//!
//! Per-test lines are counted only when no summary line is found; once any
//! summary line is seen, per-line counts are discarded and every summary's
//! counts are added, since the toolchain runs several test binaries. A
//! `failures:` section supplies the message of each failing test.

use vstd::prelude::*;

use crate::extract::block_push;
use crate::results::{TestFailure, TestResult};
use crate::text::{
    all_digits, chars_of, digits_value, has_prefix, has_suffix, parse_u64, spec_has_prefix,
    spec_has_suffix, spec_lines, spec_split, spec_trim, split_char, split_lines, string_of,
    subrange_vec, trim,
};

verus! {

/// `s` with every copy of the prefix `p` removed from the front.
pub open spec fn strip_all_prefix(s: Seq<char>, p: Seq<char>) -> Seq<char>
    decreases s.len(),
{
    if p.len() > 0 && spec_has_prefix(s, p) {
        strip_all_prefix(s.skip(p.len() as int), p)
    } else {
        s
    }
}

/// `s` with every copy of the suffix `p` removed from the back.
pub open spec fn strip_all_suffix(s: Seq<char>, p: Seq<char>) -> Seq<char>
    decreases s.len(),
{
    if p.len() > 0 && spec_has_suffix(s, p) {
        strip_all_suffix(s.take(s.len() - p.len()), p)
    } else {
        s
    }
}

pub open spec fn is_pass_line(l: Seq<char>) -> bool {
    spec_has_prefix(spec_trim(l), "test "@) && spec_has_suffix(spec_trim(l), " ... ok"@)
}

pub open spec fn is_failed_line(l: Seq<char>) -> bool {
    spec_has_prefix(spec_trim(l), "test "@) && spec_has_suffix(spec_trim(l), " ... FAILED"@)
}

pub open spec fn is_ignored_line(l: Seq<char>) -> bool {
    spec_has_prefix(spec_trim(l), "test "@) && spec_has_suffix(spec_trim(l), " ... ignored"@)
}

/// The test name on a failing per-test line.
pub open spec fn failed_test_name(l: Seq<char>) -> Seq<char> {
    strip_all_suffix(strip_all_prefix(spec_trim(l), "test "@), " ... FAILED"@)
}

pub open spec fn is_summary_line(l: Seq<char>) -> bool {
    spec_has_prefix(spec_trim(l), "test result:"@)
}

/// The numeric value of a count fragment: a run of digits that fits a
/// `u32`; anything else counts as zero.
pub open spec fn count_value(s: Seq<char>) -> int {
    if s.len() > 0 && all_digits(s) && digits_value(s) <= u32::MAX {
        digits_value(s)
    } else {
        0
    }
}

/// First piece whose trimmed form ends with `label`.
pub open spec fn find_in_pieces(pieces: Seq<Seq<char>>, label: Seq<char>) -> Option<Seq<char>>
    decreases pieces.len(),
{
    if pieces.len() == 0 {
        None
    } else if spec_has_suffix(spec_trim(pieces[0]), label) {
        Some(pieces[0])
    } else {
        find_in_pieces(pieces.drop_first(), label)
    }
}

/// First fragment ending with `label` among the `;`-separated segments,
/// each further split at `.`.
pub open spec fn find_labeled(segs: Seq<Seq<char>>, label: Seq<char>) -> Option<Seq<char>>
    decreases segs.len(),
{
    if segs.len() == 0 {
        None
    } else {
        match find_in_pieces(spec_split(segs[0], '.'), label) {
            Some(p) => Some(p),
            None => find_labeled(segs.drop_first(), label),
        }
    }
}

/// The count that a summary line reports under `label`: the text after
/// the first `:`, split at `;` and `.`, searched for the first piece
/// ending with the label; absent pieces count as zero.
pub open spec fn summary_count(t: Seq<char>, label: Seq<char>) -> int {
    let cols = spec_split(t, ':');
    if cols.len() < 2 {
        0
    } else {
        match find_labeled(spec_split(cols[1], ';'), label) {
            Some(p) => {
                let tp = spec_trim(p);
                count_value(spec_trim(tp.take(tp.len() - label.len())))
            },
            None => 0,
        }
    }
}

/// Sum of one label's counts over all summary lines.
pub open spec fn summary_total(lines: Seq<Seq<char>>, label: Seq<char>) -> int
    decreases lines.len(),
{
    if lines.len() == 0 {
        0
    } else {
        let head = if is_summary_line(lines[0]) {
            summary_count(spec_trim(lines[0]), label)
        } else {
            0
        };
        head + summary_total(lines.drop_first(), label)
    }
}

pub open spec fn has_summary(lines: Seq<Seq<char>>) -> bool {
    exists|i: int| 0 <= i < lines.len() && is_summary_line(#[trigger] lines[i])
}

/// The three counts of the whole output: summary totals when any summary
/// line exists, else per-line counts; clamped to `u32`.
pub open spec fn spec_counts(lines: Seq<Seq<char>>, label: Seq<char>, per_line: int) -> int {
    let raw = if has_summary(lines) {
        summary_total(lines, label)
    } else {
        per_line
    };
    if raw > u32::MAX {
        u32::MAX as int
    } else {
        raw
    }
}

/// The failing tests' names, in output order, each with an empty message.
pub open spec fn initial_failures(lines: Seq<Seq<char>>) -> Seq<(Seq<char>, Seq<char>)> {
    lines.filter(|l: Seq<char>| is_failed_line(l)).map_values(
        |l: Seq<char>| (failed_test_name(l), Seq::<char>::empty()),
    )
}

/// Sets the message of the first failure with the given name.
pub open spec fn commit_message(
    fails: Seq<(Seq<char>, Seq<char>)>,
    name: Seq<char>,
    msg: Seq<char>,
) -> Seq<(Seq<char>, Seq<char>)>
    decreases fails.len(),
{
    if fails.len() == 0 {
        fails
    } else if fails[0].0 == name {
        seq![(name, msg)] + fails.drop_first()
    } else {
        seq![fails[0]] + commit_message(fails.drop_first(), name, msg)
    }
}

pub open spec fn is_failure_header(t: Seq<char>) -> bool {
    spec_has_prefix(t, "---- "@) && spec_has_suffix(t, " stdout ----"@)
}

pub open spec fn failure_header_name(t: Seq<char>) -> Seq<char> {
    strip_all_suffix(strip_all_prefix(t, "---- "@), " stdout ----"@)
}

/// Walks the `failures:` section, filling in each failing test's message:
/// a `---- <name> stdout ----` header starts a message and commits the
/// one before it, and other lines inside the section extend the message.
pub open spec fn message_scan(
    lines: Seq<Seq<char>>,
    in_failures: bool,
    name: Seq<char>,
    msg: Seq<char>,
    fails: Seq<(Seq<char>, Seq<char>)>,
) -> Seq<(Seq<char>, Seq<char>)>
    decreases lines.len(),
{
    if lines.len() == 0 {
        if name.len() > 0 {
            commit_message(fails, name, msg)
        } else {
            fails
        }
    } else {
        let t = spec_trim(lines[0]);
        let rest = lines.drop_first();
        if t == "failures:"@ {
            message_scan(rest, true, name, msg, fails)
        } else if in_failures && is_failure_header(t) {
            let fails2 = if name.len() > 0 {
                commit_message(fails, name, msg)
            } else {
                fails
            };
            message_scan(rest, in_failures, failure_header_name(t), Seq::empty(), fails2)
        } else if in_failures && name.len() > 0 {
            message_scan(rest, in_failures, name, block_push(msg, t), fails)
        } else {
            message_scan(rest, in_failures, name, msg, fails)
        }
    }
}

/// The final failure records of the output.
pub open spec fn spec_failures(lines: Seq<Seq<char>>) -> Seq<(Seq<char>, Seq<char>)> {
    message_scan(lines, false, Seq::empty(), Seq::empty(), initial_failures(lines))
}

/// The per-test-line predicates, as named values so that every use
/// denotes the same function.
pub open spec fn pass_pred() -> spec_fn(Seq<char>) -> bool {
    |l: Seq<char>| is_pass_line(l)
}

pub open spec fn failed_pred() -> spec_fn(Seq<char>) -> bool {
    |l: Seq<char>| is_failed_line(l)
}

pub open spec fn ignored_pred() -> spec_fn(Seq<char>) -> bool {
    |l: Seq<char>| is_ignored_line(l)
}

/// The name/message pairs of a failure list.
pub open spec fn fails_view(s: Seq<TestFailure>) -> Seq<(Seq<char>, Seq<char>)> {
    s.map_values(|f: TestFailure| (f.name@, f.message@))
}

/// A trimmed line ends with at most one of the three per-test markers.
proof fn lemma_line_class_disjoint(l: Seq<char>)
    ensures
        !(is_pass_line(l) && is_failed_line(l)),
        !(is_pass_line(l) && is_ignored_line(l)),
        !(is_failed_line(l) && is_ignored_line(l)),
{
    reveal_strlit(" ... ok");
    reveal_strlit(" ... FAILED");
    reveal_strlit(" ... ignored");
    let t = spec_trim(l);
    if spec_has_suffix(t, " ... ok"@) && spec_has_suffix(t, " ... FAILED"@) {
        assert(t.skip(t.len() - 7)[6] == t[t.len() - 1]);
        assert(t.skip(t.len() - 11)[10] == t[t.len() - 1]);
        assert(false);
    }
    if spec_has_suffix(t, " ... ok"@) && spec_has_suffix(t, " ... ignored"@) {
        assert(t.skip(t.len() - 7)[6] == t[t.len() - 1]);
        assert(t.skip(t.len() - 12)[11] == t[t.len() - 1]);
        assert(false);
    }
    if spec_has_suffix(t, " ... FAILED"@) && spec_has_suffix(t, " ... ignored"@) {
        assert(t.skip(t.len() - 11)[10] == t[t.len() - 1]);
        assert(t.skip(t.len() - 12)[11] == t[t.len() - 1]);
        assert(false);
    }
}

proof fn lemma_filter_push<A>(s: Seq<A>, f: spec_fn(A) -> bool, x: A)
    ensures
        s.push(x).filter(f) == if f(x) {
            s.filter(f).push(x)
        } else {
            s.filter(f)
        },
{
    reveal_with_fuel(Seq::filter, 2);
    assert(s.push(x).drop_last() =~= s);
    assert(s.push(x).last() == x);
}

proof fn lemma_initial_failures_push(s: Seq<Seq<char>>, l: Seq<char>)
    ensures
        initial_failures(s.push(l)) == if is_failed_line(l) {
            initial_failures(s).push((failed_test_name(l), Seq::<char>::empty()))
        } else {
            initial_failures(s)
        },
{
    let f = |x: Seq<char>| is_failed_line(x);
    let m = |x: Seq<char>| (failed_test_name(x), Seq::<char>::empty());
    lemma_filter_push(s, f, l);
    if f(l) {
        assert(s.push(l).filter(f).map_values(m) =~= s.filter(f).map_values(m).push(m(l)));
    }
}

/// Removes every copy of the prefix `p` from the front of `v`.
fn strip_prefix_all_exec(v: &Vec<char>, p: &str) -> (r: Vec<char>)
    ensures
        r@ == strip_all_prefix(v@, p@),
    decreases v@.len(),
{
    let w = chars_of(p);
    if w.len() > 0 && has_prefix(v, p) {
        let rest = subrange_vec(v, w.len(), v.len());
        proof {
            assert(rest@ =~= v@.skip(p@.len() as int));
        }
        strip_prefix_all_exec(&rest, p)
    } else {
        subrange_vec(v, 0, v.len())
    }
}

/// Removes every copy of the suffix `p` from the back of `v`.
fn strip_suffix_all_exec(v: &Vec<char>, p: &str) -> (r: Vec<char>)
    ensures
        r@ == strip_all_suffix(v@, p@),
    decreases v@.len(),
{
    let w = chars_of(p);
    if w.len() > 0 && has_suffix(v, p) {
        let rest = subrange_vec(v, 0, v.len() - w.len());
        proof {
            assert(rest@ =~= v@.take(v@.len() - p@.len()));
        }
        strip_suffix_all_exec(&rest, p)
    } else {
        subrange_vec(v, 0, v.len())
    }
}

/// Every summary count is a `u32`-sized non-negative number.
proof fn lemma_summary_count_range(t: Seq<char>, label: Seq<char>)
    ensures
        0 <= summary_count(t, label) <= u32::MAX,
{
    let cols = spec_split(t, ':');
    if cols.len() >= 2 {
        match find_labeled(spec_split(cols[1], ';'), label) {
            Some(p) => {
                let tp = spec_trim(p);
                let body = spec_trim(tp.take(tp.len() - label.len()));
                if body.len() > 0 && all_digits(body) && digits_value(body) <= u32::MAX {
                    crate::text::lemma_digits_value_nonneg(body);
                }
            },
            None => {},
        }
    }
}

/// Parses one summary count out of a trimmed summary line.
fn summary_count_exec(t: &Vec<char>, label: &str) -> (r: u32)
    ensures
        r == summary_count(t@, label@),
{
    let cols = split_char(t, ':');
    proof {
        assert(cols.deep_view().len() == spec_split(t@, ':').len());
    }
    if cols.len() < 2 {
        return 0;
    }
    let seg = &cols[1];
    proof {
        assert(cols@[1].deep_view() =~= cols@[1]@);
        assert(seg@ == spec_split(t@, ':')[1]);
    }
    let segs = split_char(seg, ';');
    let ghost sdv = segs.deep_view();
    let lab = chars_of(label);
    let mut i: usize = 0;
    proof {
        assert(sdv.skip(0) =~= sdv);
    }
    while i < segs.len()
        invariant
            i <= sdv.len(),
            sdv == segs.deep_view(),
            spec_split(t@, ':').len() >= 2,
            sdv == spec_split(spec_split(t@, ':')[1], ';'),
            lab@ == label@,
            find_labeled(sdv, label@) == find_labeled(sdv.skip(i as int), label@),
        decreases sdv.len() - i,
    {
        proof {
            assert(segs@[i as int].deep_view() =~= segs@[i as int]@);
            assert(sdv.skip(i as int)[0] == sdv[i as int]);
            assert(sdv.skip(i as int).drop_first() =~= sdv.skip(i as int + 1));
        }
        let pieces = split_char(&segs[i], '.');
        let ghost pdv = pieces.deep_view();
        let mut j: usize = 0;
        proof {
            assert(pdv.skip(0) =~= pdv);
        }
        while j < pieces.len()
            invariant
                j <= pdv.len(),
                i < sdv.len(),
                pdv == pieces.deep_view(),
                spec_split(t@, ':').len() >= 2,
                sdv == spec_split(spec_split(t@, ':')[1], ';'),
                pdv == spec_split(sdv[i as int], '.'),
                lab@ == label@,
                find_labeled(sdv, label@) == find_labeled(sdv.skip(i as int), label@),
                find_in_pieces(pdv, label@) == find_in_pieces(pdv.skip(j as int), label@),
            decreases pdv.len() - j,
        {
            proof {
                assert(pieces@[j as int].deep_view() =~= pieces@[j as int]@);
                assert(pdv.skip(j as int)[0] == pdv[j as int]);
                assert(pdv.skip(j as int).drop_first() =~= pdv.skip(j as int + 1));
            }
            let piece = &pieces[j];
            let tp = trim(piece);
            if has_suffix(&tp, label) {
                // This is the piece the label names.
                let body = subrange_vec(&tp, 0, tp.len() - lab.len());
                let btrim = trim(&body);
                let val = match parse_u64(&btrim) {
                    Some(x) => if x <= u32::MAX as u64 {
                        x as u32
                    } else {
                        0u32
                    },
                    None => 0u32,
                };
                proof {
                    assert(find_in_pieces(pdv.skip(j as int), label@) == Some(piece@));
                    assert(sdv.skip(i as int)[0] == sdv[i as int]);
                    assert(find_labeled(sdv.skip(i as int), label@) == Some(piece@));
                    assert(body@ =~= spec_trim(piece@).take(
                        spec_trim(piece@).len() - label@.len(),
                    ));
                    assert(val == count_value(spec_trim(body@)));
                }
                return val;
            }
            j = j + 1;
        }
        proof {
            assert(pdv.skip(j as int) =~= Seq::<Seq<char>>::empty());
            assert(find_in_pieces(pdv, label@) is None);
        }
        i = i + 1;
    }
    proof {
        assert(sdv.skip(i as int) =~= Seq::<Seq<char>>::empty());
        assert(find_labeled(sdv, label@) is None);
    }
    0
}

/// Parses the toolchain's human-readable test output.
///
/// The reported duration is the caller's wall-clock measurement. Counts
/// are clamped to `u32`.
pub fn parse_test_output(output: &str, duration_ms: u64) -> (r: TestResult)
    ensures
        r.passed == spec_counts(
            spec_lines(output@),
            "passed"@,
            spec_lines(output@).filter(pass_pred()).len() as int,
        ),
        r.failed == spec_counts(
            spec_lines(output@),
            "failed"@,
            spec_lines(output@).filter(failed_pred()).len() as int,
        ),
        r.ignored == spec_counts(
            spec_lines(output@),
            "ignored"@,
            spec_lines(output@).filter(ignored_pred()).len() as int,
        ),
        r.duration_ms == duration_ms,
        fails_view(r.failures@) == spec_failures(spec_lines(output@)),
        forall|i: int| 0 <= i < r.failures@.len() ==> r.failures@[i].stdout@ == Seq::<char>::empty(),
{
    let chars = chars_of(output);
    let lines = split_lines(&chars);
    let ghost ldv = lines.deep_view();

    // Pass 1: per-line counts, failing test names, and summary totals.
    let mut passed_pl: u64 = 0;
    let mut failed_pl: u64 = 0;
    let mut ignored_pl: u64 = 0;
    let mut sum_passed: u128 = 0;
    let mut sum_failed: u128 = 0;
    let mut sum_ignored: u128 = 0;
    let mut seen_summary = false;
    let mut failures: Vec<TestFailure> = Vec::new();
    let mut i: usize = 0;
    proof {
        assert(ldv.take(0) =~= Seq::<Seq<char>>::empty());
        assert(ldv.take(0).filter(pass_pred()) =~= Seq::<Seq<char>>::empty());
        assert(ldv.take(0).filter(failed_pred()) =~= Seq::<Seq<char>>::empty());
        assert(ldv.take(0).filter(ignored_pred()) =~= Seq::<Seq<char>>::empty());
        assert(initial_failures(ldv.take(0)) =~= Seq::<(Seq<char>, Seq<char>)>::empty());
        assert(fails_view(failures@) =~= Seq::<(Seq<char>, Seq<char>)>::empty());
        assert(ldv.skip(0) =~= ldv);
    }
    while i < lines.len()
        invariant
            i <= ldv.len(),
            ldv == lines.deep_view(),
            passed_pl == ldv.take(i as int).filter(pass_pred()).len(),
            failed_pl == ldv.take(i as int).filter(failed_pred()).len(),
            ignored_pl == ldv.take(i as int).filter(ignored_pred()).len(),
            sum_passed == summary_total(ldv, "passed"@) - summary_total(
                ldv.skip(i as int),
                "passed"@,
            ),
            sum_failed == summary_total(ldv, "failed"@) - summary_total(
                ldv.skip(i as int),
                "failed"@,
            ),
            sum_ignored == summary_total(ldv, "ignored"@) - summary_total(
                ldv.skip(i as int),
                "ignored"@,
            ),
            seen_summary == exists|j: int| 0 <= j < i && is_summary_line(#[trigger] ldv[j]),
            0 <= sum_passed <= i * (u32::MAX as int),
            0 <= sum_failed <= i * (u32::MAX as int),
            0 <= sum_ignored <= i * (u32::MAX as int),
            passed_pl <= i,
            failed_pl <= i,
            ignored_pl <= i,
            fails_view(failures@) == initial_failures(ldv.take(i as int)),
            forall|j: int|
                0 <= j < failures@.len() ==> (#[trigger] failures@[j]).stdout@ == Seq::<
                    char,
                >::empty(),
        decreases ldv.len() - i,
    {
        let line = &lines[i];
        proof {
            assert(lines@[i as int].deep_view() =~= lines@[i as int]@);
            assert(ldv[i as int] == line@);
            assert(ldv.skip(i as int)[0] == ldv[i as int]);
            assert(ldv.skip(i as int).drop_first() =~= ldv.skip(i as int + 1));
            assert(ldv.take(i as int + 1) =~= ldv.take(i as int).push(line@));
            lemma_filter_push(ldv.take(i as int), pass_pred(), line@);
            lemma_filter_push(ldv.take(i as int), failed_pred(), line@);
            lemma_filter_push(ldv.take(i as int), ignored_pred(), line@);
            lemma_initial_failures_push(ldv.take(i as int), line@);
            lemma_line_class_disjoint(line@);
        }
        let ghost prev_fails = fails_view(failures@);
        let t = trim(line);
        if has_prefix(&t, "test ") && has_suffix(&t, " ... ok") {
            passed_pl = passed_pl + 1;
        } else if has_prefix(&t, "test ") && has_suffix(&t, " ... FAILED") {
            failed_pl = failed_pl + 1;
            let name_part = strip_prefix_all_exec(&t, "test ");
            let name_chars = strip_suffix_all_exec(&name_part, " ... FAILED");
            let name = string_of(&name_chars);
            failures.push(TestFailure { name, message: String::new(), stdout: String::new() });
            proof {
                assert(fails_view(failures@) =~~= prev_fails.push(
                    (failed_test_name(line@), Seq::<char>::empty()),
                ));
            }
        } else if has_prefix(&t, "test ") && has_suffix(&t, " ... ignored") {
            ignored_pl = ignored_pl + 1;
        }
        if has_prefix(&t, "test result:") {
            seen_summary = true;
            proof {
                lemma_summary_count_range(t@, "passed"@);
                lemma_summary_count_range(t@, "failed"@);
                lemma_summary_count_range(t@, "ignored"@);
            }
            sum_passed = sum_passed + summary_count_exec(&t, "passed") as u128;
            sum_failed = sum_failed + summary_count_exec(&t, "failed") as u128;
            sum_ignored = sum_ignored + summary_count_exec(&t, "ignored") as u128;
        }
        i = i + 1;
    }
    proof {
        assert(ldv.take(i as int) =~= ldv);
        assert(ldv.skip(i as int) =~= Seq::<Seq<char>>::empty());
    }

    // Pass 2: the failures section fills in messages.
    let ghost goal = message_scan(ldv, false, Seq::empty(), Seq::empty(), initial_failures(ldv));
    let mut in_failures = false;
    let mut cur_name: Vec<char> = Vec::new();
    let mut cur_msg: Vec<char> = Vec::new();
    let mut k: usize = 0;
    proof {
        assert(ldv.skip(0) =~= ldv);
    }
    while k < lines.len()
        invariant
            k <= ldv.len(),
            ldv == lines.deep_view(),
            message_scan(
                ldv.skip(k as int),
                in_failures,
                cur_name@,
                cur_msg@,
                fails_view(failures@),
            ) == goal,
            forall|j: int|
                0 <= j < failures@.len() ==> (#[trigger] failures@[j]).stdout@ == Seq::<
                    char,
                >::empty(),
        decreases ldv.len() - k,
    {
        let line = &lines[k];
        proof {
            assert(lines@[k as int].deep_view() =~= lines@[k as int]@);
            assert(ldv[k as int] == line@);
            assert(ldv.skip(k as int)[0] == ldv[k as int]);
            assert(ldv.skip(k as int).drop_first() =~= ldv.skip(k as int + 1));
        }
        let t = trim(line);
        if crate::text::chars_eq_str(&t, "failures:") {
            in_failures = true;
        } else if in_failures && has_prefix(&t, "---- ") && has_suffix(&t, " stdout ----") {
            if cur_name.len() > 0 {
                commit_exec(&mut failures, &cur_name, &cur_msg);
            }
            let base = strip_prefix_all_exec(&t, "---- ");
            cur_name = strip_suffix_all_exec(&base, " stdout ----");
            cur_msg = Vec::new();
            proof {
                assert(cur_msg@ =~= Seq::<char>::empty());
            }
        } else if in_failures && cur_name.len() > 0 {
            let ghost m0 = cur_msg@;
            if cur_msg.len() > 0 {
                cur_msg.push('\n');
            }
            let mut j: usize = 0;
            let ghost base = cur_msg@;
            while j < t.len()
                invariant
                    j <= t@.len(),
                    cur_msg@ == base + t@.take(j as int),
                decreases t@.len() - j,
            {
                cur_msg.push(t[j]);
                j = j + 1;
            }
            proof {
                assert(cur_msg@ =~= base + t@);
                assert(cur_msg@ =~= block_push(m0, t@));
            }
        }
        k = k + 1;
    }
    proof {
        assert(ldv.skip(k as int) =~= Seq::<Seq<char>>::empty());
    }
    if cur_name.len() > 0 {
        commit_exec(&mut failures, &cur_name, &cur_msg);
    }

    // Assemble the result, with totals clamped to u32.
    let passed: u32 = if seen_summary {
        clamp_u32(sum_passed)
    } else {
        clamp_u32(passed_pl as u128)
    };
    let failed: u32 = if seen_summary {
        clamp_u32(sum_failed)
    } else {
        clamp_u32(failed_pl as u128)
    };
    let ignored: u32 = if seen_summary {
        clamp_u32(sum_ignored)
    } else {
        clamp_u32(ignored_pl as u128)
    };
    TestResult { passed, failed, ignored, duration_ms, failures }
}

fn clamp_u32(x: u128) -> (r: u32)
    ensures
        r == if x > u32::MAX {
            u32::MAX as int
        } else {
            x as int
        },
{
    if x > u32::MAX as u128 {
        u32::MAX
    } else {
        x as u32
    }
}

/// Sets the message of the first recorded failure with the given name.
fn commit_exec(failures: &mut Vec<TestFailure>, name: &Vec<char>, msg: &Vec<char>)
    ensures
        fails_view(final(failures)@) == commit_message(fails_view(old(failures)@), name@, msg@),
        final(failures)@.len() == old(failures)@.len(),
        (forall|j: int|
            0 <= j < old(failures)@.len() ==> (#[trigger] old(failures)@[j]).stdout@ == Seq::<
                char,
            >::empty()) ==> (forall|j: int|
            0 <= j < final(failures)@.len() ==> (#[trigger] final(failures)@[j]).stdout@ == Seq::<
                char,
            >::empty()),
{
    let ghost orig = fails_view(failures@);
    let mut i: usize = 0;
    proof {
        assert(orig.skip(0) =~= orig);
        assert(orig.take(0) + commit_message(orig, name@, msg@) =~= commit_message(
            orig,
            name@,
            msg@,
        ));
    }
    while i < failures.len()
        invariant
            i <= failures@.len(),
            failures@ == old(failures)@,
            orig == fails_view(failures@),
            forall|j: int| 0 <= j < i ==> orig[j].0 != name@,
            commit_message(orig, name@, msg@) == orig.take(i as int) + commit_message(
                orig.skip(i as int),
                name@,
                msg@,
            ),
        decreases failures@.len() - i,
    {
        proof {
            assert(orig.skip(i as int)[0] == orig[i as int]);
        }
        if chars_eq_string(&failures[i].name, name) {
            let new_msg = string_of(msg);
            let name_s = string_of(name);
            failures.set(i, TestFailure { name: name_s, message: new_msg, stdout: String::new() });
            proof {
                assert(orig.skip(i as int).drop_first() =~= orig.skip(i as int + 1));
                assert(commit_message(orig.skip(i as int), name@, msg@) =~= seq![
                    (name@, msg@),
                ] + orig.skip(i as int + 1));
                assert(fails_view(failures@) =~~= commit_message(orig, name@, msg@));
            }
            return ;
        }
        proof {
            assert(orig.skip(i as int).drop_first() =~= orig.skip(i as int + 1));
            assert(orig.take(i as int + 1) =~= orig.take(i as int) + seq![orig[i as int]]);
            assert(orig.take(i as int) + (seq![orig[i as int]] + commit_message(
                orig.skip(i as int + 1),
                name@,
                msg@,
            )) =~= orig.take(i as int + 1) + commit_message(orig.skip(i as int + 1), name@, msg@));
        }
        i = i + 1;
    }
    proof {
        assert(orig.skip(i as int) =~= Seq::<(Seq<char>, Seq<char>)>::empty());
        assert(orig.take(i as int) =~= orig);
        assert(commit_message(orig, name@, msg@) =~~= orig);
    }
}

/// Compares a string's characters against a character vector.
pub fn chars_eq_string(s: &String, v: &Vec<char>) -> (r: bool)
    ensures
        r == (s@ == v@),
{
    let w = chars_of(s.as_str());
    if w.len() != v.len() {
        return false;
    }
    let mut i: usize = 0;
    while i < w.len()
        invariant
            i <= w@.len(),
            w@.len() == v@.len(),
            w@ == s@,
            forall|j: int| 0 <= j < i ==> w@[j] == v@[j],
        decreases w@.len() - i,
    {
        if w[i] != v[i] {
            return false;
        }
        i = i + 1;
    }
    proof {
        assert(s@ =~= v@);
    }
    true
}

} // verus!
