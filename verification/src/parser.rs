//! Validation of eval sets.
//!
//! Loading the case files themselves is the loader's business; the rules
//! checked over a loaded set live here: duplicate case ids, test
//! expectations without a test source, empty prompts, and the recognized
//! but unexecuted custom check.

use vstd::prelude::*;
use vstd::string::StringExecFns;

use crate::model::{EvalCase, EvalSet};
use crate::text::{chars_of, spec_trim, trim};

verus! {

/// A warning from eval set validation.
#[derive(Debug, Clone)]
pub struct ValidationWarning {
    /// The case id the warning concerns, if one does.
    pub case_id: Option<String>,
    /// Warning message.
    pub message: String,
}

/// The content of a warning.
pub open spec fn warning_view(w: ValidationWarning) -> (Option<Seq<char>>, Seq<char>) {
    (
        match w.case_id {
            Some(c) => Some(c@),
            None => None,
        },
        w.message@,
    )
}

pub open spec fn warnings_view(ws: Seq<ValidationWarning>) -> Seq<(Option<Seq<char>>, Seq<char>)> {
    ws.map_values(|w: ValidationWarning| warning_view(w))
}

/// Is the case at index `i` a repeat of an earlier case's id?
pub open spec fn duplicate_at(cases: Seq<EvalCase>, i: int) -> bool {
    exists|j: int| 0 <= j < i && (#[trigger] cases[j]).id@ == cases[i].id@
}

/// The duplicate-id warnings, in case order.
pub open spec fn dup_warnings(cases: Seq<EvalCase>, n: int) -> Seq<(Option<Seq<char>>, Seq<char>)>
    decreases n,
{
    if n <= 0 {
        Seq::empty()
    } else {
        dup_warnings(cases, n - 1) + if duplicate_at(cases, n - 1) {
            seq![
                (
                    Some(cases[n - 1].id@),
                    "duplicate case ID: "@ + cases[n - 1].id@,
                ),
            ]
        } else {
            Seq::empty()
        }
    }
}

/// The warnings for cases that expect passing tests without supplying a
/// test source.
pub open spec fn missing_test_warnings(cases: Seq<EvalCase>, n: int) -> Seq<
    (Option<Seq<char>>, Seq<char>),
>
    decreases n,
{
    if n <= 0 {
        Seq::empty()
    } else {
        missing_test_warnings(cases, n - 1) + if cases[n - 1].expectations.should_pass_tests
            && cases[n - 1].expectations.test_file is None {
            seq![
                (
                    Some(cases[n - 1].id@),
                    "should_pass_tests is true but no test_file provided"@,
                ),
            ]
        } else {
            Seq::empty()
        }
    }
}

/// The warnings for cases with an empty prompt.
pub open spec fn empty_prompt_warnings(cases: Seq<EvalCase>, n: int) -> Seq<
    (Option<Seq<char>>, Seq<char>),
>
    decreases n,
{
    if n <= 0 {
        Seq::empty()
    } else {
        empty_prompt_warnings(cases, n - 1) + if spec_trim(cases[n - 1].prompt@).len() == 0 {
            seq![(Some(cases[n - 1].id@), "prompt is empty"@)]
        } else {
            Seq::empty()
        }
    }
}

/// The warnings for cases carrying a custom check, which the harness
/// recognizes but does not execute.
pub open spec fn custom_check_warnings(cases: Seq<EvalCase>, n: int) -> Seq<
    (Option<Seq<char>>, Seq<char>),
>
    decreases n,
{
    if n <= 0 {
        Seq::empty()
    } else {
        custom_check_warnings(cases, n - 1) + if cases[n - 1].expectations.custom_check is Some {
            seq![
                (
                    Some(cases[n - 1].id@),
                    "custom_check is not yet implemented and will be ignored"@,
                ),
            ]
        } else {
            Seq::empty()
        }
    }
}

/// Everything validation reports for a set, section by section.
pub open spec fn spec_validation(cases: Seq<EvalCase>) -> Seq<(Option<Seq<char>>, Seq<char>)> {
    dup_warnings(cases, cases.len() as int) + missing_test_warnings(cases, cases.len() as int)
        + empty_prompt_warnings(cases, cases.len() as int) + custom_check_warnings(
        cases,
        cases.len() as int,
    )
}

/// Validates an eval set: warns about duplicate case ids, cases that
/// expect passing tests without a test source, empty prompts, and custom
/// checks, which are recognized but not executed.
pub fn validate_eval_set(set: &EvalSet) -> (r: Vec<ValidationWarning>)
    ensures
        warnings_view(r@) == spec_validation(set.cases@),
{
    let cases = &set.cases;
    let mut warnings: Vec<ValidationWarning> = Vec::new();
    // Duplicate case ids.
    let mut i: usize = 0;
    proof {
        assert(warnings_view(warnings@) =~= dup_warnings(cases@, 0));
    }
    while i < cases.len()
        invariant
            i <= cases@.len(),
            cases@ == set.cases@,
            warnings_view(warnings@) == dup_warnings(cases@, i as int),
        decreases cases@.len() - i,
    {
        let ghost prev = warnings_view(warnings@);
        let mut dup = false;
        let mut j: usize = 0;
        while j < i
            invariant
                j <= i < cases@.len(),
                cases@ == set.cases@,
                dup ==> duplicate_at(cases@, i as int),
                !dup ==> forall|t: int| 0 <= t < j ==> (#[trigger] cases@[t]).id@ != cases@[
                    i as int
                ].id@,
            decreases i - j,
        {
            if !dup && cases[j].id.eq(&cases[i].id) {
                dup = true;
            }
            j = j + 1;
        }
        if dup {
            let mut msg = "duplicate case ID: ".to_owned();
            msg.append(cases[i].id.as_str());
            warnings.push(ValidationWarning { case_id: Some(cases[i].id.clone()), message: msg });
            proof {
                assert(warnings_view(warnings@) =~~= prev.push(
                    (Some(cases@[i as int].id@), "duplicate case ID: "@ + cases@[i as int].id@),
                ));
            }
        }
        i = i + 1;
    }
    // Expected tests without a test source.
    let mut i: usize = 0;
    let ghost base1 = warnings_view(warnings@);
    while i < cases.len()
        invariant
            i <= cases@.len(),
            cases@ == set.cases@,
            base1 == dup_warnings(cases@, cases@.len() as int),
            warnings_view(warnings@) == base1 + missing_test_warnings(cases@, i as int),
        decreases cases@.len() - i,
    {
        let ghost prev = warnings_view(warnings@);
        if cases[i].expectations.should_pass_tests && cases[i].expectations.test_file.is_none() {
            warnings.push(
                ValidationWarning {
                    case_id: Some(cases[i].id.clone()),
                    message: "should_pass_tests is true but no test_file provided".to_owned(),
                },
            );
            proof {
                assert(warnings_view(warnings@) =~~= prev.push(
                    (
                        Some(cases@[i as int].id@),
                        "should_pass_tests is true but no test_file provided"@,
                    ),
                ));
                assert(prev.push(
                    (
                        Some(cases@[i as int].id@),
                        "should_pass_tests is true but no test_file provided"@,
                    ),
                ) =~= base1 + missing_test_warnings(cases@, i as int + 1));
            }
        }
        i = i + 1;
    }
    // Empty prompts.
    let mut i: usize = 0;
    let ghost base2 = warnings_view(warnings@);
    while i < cases.len()
        invariant
            i <= cases@.len(),
            cases@ == set.cases@,
            base2 == dup_warnings(cases@, cases@.len() as int) + missing_test_warnings(
                cases@,
                cases@.len() as int,
            ),
            warnings_view(warnings@) == base2 + empty_prompt_warnings(cases@, i as int),
        decreases cases@.len() - i,
    {
        let ghost prev = warnings_view(warnings@);
        let pv = chars_of(cases[i].prompt.as_str());
        let t = trim(&pv);
        if t.len() == 0 {
            warnings.push(
                ValidationWarning {
                    case_id: Some(cases[i].id.clone()),
                    message: "prompt is empty".to_owned(),
                },
            );
            proof {
                assert(warnings_view(warnings@) =~~= prev.push(
                    (Some(cases@[i as int].id@), "prompt is empty"@),
                ));
                assert(prev.push((Some(cases@[i as int].id@), "prompt is empty"@)) =~= base2
                    + empty_prompt_warnings(cases@, i as int + 1));
            }
        }
        i = i + 1;
    }
    // Custom checks are recognized but not executed.
    let mut i: usize = 0;
    let ghost base3 = warnings_view(warnings@);
    while i < cases.len()
        invariant
            i <= cases@.len(),
            cases@ == set.cases@,
            base3 == dup_warnings(cases@, cases@.len() as int) + missing_test_warnings(
                cases@,
                cases@.len() as int,
            ) + empty_prompt_warnings(cases@, cases@.len() as int),
            warnings_view(warnings@) == base3 + custom_check_warnings(cases@, i as int),
        decreases cases@.len() - i,
    {
        let ghost prev = warnings_view(warnings@);
        if cases[i].expectations.custom_check.is_some() {
            warnings.push(
                ValidationWarning {
                    case_id: Some(cases[i].id.clone()),
                    message: "custom_check is not yet implemented and will be ignored".to_owned(),
                },
            );
            proof {
                assert(warnings_view(warnings@) =~~= prev.push(
                    (
                        Some(cases@[i as int].id@),
                        "custom_check is not yet implemented and will be ignored"@,
                    ),
                ));
                assert(prev.push(
                    (
                        Some(cases@[i as int].id@),
                        "custom_check is not yet implemented and will be ignored"@,
                    ),
                ) =~= base3 + custom_check_warnings(cases@, i as int + 1));
            }
        }
        i = i + 1;
    }
    proof {
        assert(warnings_view(warnings@) =~= spec_validation(set.cases@));
    }
    warnings
}

} // verus!
