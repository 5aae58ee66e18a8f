//! The outcomes of the test cases of a document after its executions:
//! the outputs that were produced are validated, and the test cases that
//! did not run are skipped.
use vstd::prelude::*;

use crate::escaping::Escaper;
use crate::outcome::Outcome;
use crate::output::{ExitStatus, Output, OutputStream, OutputView};
use crate::parsers::parser::ParserType;
use crate::testcase::{spec_validation, TestCase, TestCaseError};

verus! {

/// The output of a test case that did not run.
pub open spec fn skipped_output() -> OutputView {
    OutputView { stdout: Seq::empty(), stderr: Seq::empty(), exit_code: ExitStatus::Unknown }
}

/// Whether `r` is the result for an output: a timeout fails the test case
/// where timeouts count as failures, else the output is validated.
pub open spec fn spec_early_result(
    tc: TestCase,
    out: Output,
    timeouts_fail: bool,
    r: Result<(), TestCaseError>,
) -> bool {
    if timeouts_fail && out.exit_code is Timeout {
        r == Err::<(), TestCaseError>(TestCaseError::Timeout)
    } else {
        spec_validation(tc, out.stdout.0@, out.stderr.0@, out.exit_code, r)
    }
}

/// How many of the outcomes in `a..b` failed.
pub open spec fn failed_in(o: Seq<Outcome>, a: int, b: int) -> nat
    decreases b - a,
{
    if b <= a {
        0
    } else {
        failed_in(o, a, b - 1) + if o[b - 1].result is Err {
            1nat
        } else {
            0nat
        }
    }
}

proof fn lemma_count_failed_bound(o: Seq<Outcome>, a: int, b: int)
    ensures
        b >= a ==> failed_in(o, a, b) <= b - a,
    decreases b - a,
{
    if b > a {
        lemma_count_failed_bound(o, a, b - 1);
    }
}

proof fn lemma_count_failed_prefix(o: Seq<Outcome>, p: Seq<Outcome>, a: int, b: int)
    requires
        0 <= a <= b <= o.len(),
        o.len() <= p.len(),
        forall|i: int| a <= i < b ==> #[trigger] p[i] == o[i],
    ensures
        failed_in(p, a, b) == failed_in(o, a, b),
    decreases b - a,
{
    if b > a {
        lemma_count_failed_prefix(o, p, a, b - 1);
    }
}

/// Appends the outcomes of the test cases of a document whose executions
/// ended early: each output that was produced is validated against its test
/// case (a timeout fails it where timeouts count as failures), and counted
/// as a success or a failure; the test cases without output are skipped and
/// counted as such.
pub fn handle_early_termination(
    outputs: &[Output],
    testcases: &[TestCase],
    outcomes: &mut Vec<Outcome>,
    location: &str,
    escaping: Escaper,
    format: ParserType,
    count_success: &mut usize,
    count_failed: &mut usize,
    count_skipped: &mut usize,
    timeouts_fail: bool,
)
    requires
        outputs@.len() <= testcases@.len(),
        *old(count_success) + outputs@.len() <= usize::MAX,
        *old(count_failed) + outputs@.len() <= usize::MAX,
        *old(count_skipped) + testcases@.len() <= usize::MAX,
    ensures
        final(outcomes)@.len() == old(outcomes)@.len() + testcases@.len(),
        forall|i: int| 0 <= i < old(outcomes)@.len() ==> #[trigger] final(outcomes)@[i] == old(outcomes)@[i],
        forall|i: int|
            0 <= i < testcases@.len() ==> {
                let o = #[trigger] final(outcomes)@[old(outcomes)@.len() + i];
                &&& o.location matches Some(l) && l@ == location@
                &&& o.testcase@ == testcases@[i]@
                &&& o.escaping == escaping
                &&& o.format == format
                &&& if i < outputs@.len() {
                    o.output@ == outputs@[i]@ && spec_early_result(
                        testcases@[i],
                        outputs@[i],
                        timeouts_fail,
                        o.result,
                    )
                } else {
                    o.output@ == skipped_output() && o.result == Err::<(), TestCaseError>(
                        TestCaseError::Skipped,
                    )
                }
            },
        *final(count_failed) == *old(count_failed) + failed_in(
            final(outcomes)@,
            old(outcomes)@.len() as int,
            (old(outcomes)@.len() + outputs@.len()) as int,
        ),
        *final(count_success) + *final(count_failed) == *old(count_success) + *old(count_failed)
            + outputs@.len(),
        *final(count_skipped) == *old(count_skipped) + (testcases@.len() - outputs@.len()),
{
    let ghost start = outcomes@.len() as int;
    let ghost old_outcomes = outcomes@;
    let ghost s0 = *count_success;
    let ghost f0 = *count_failed;
    let mut i: usize = 0;
    while i < testcases.len()
        invariant
            outputs@.len() <= testcases@.len(),
            i <= testcases@.len(),
            start == old_outcomes.len(),
            outcomes@.len() == start + i,
            forall|k: int| 0 <= k < start ==> #[trigger] outcomes@[k] == old_outcomes[k],
            forall|k: int|
                0 <= k < i ==> {
                    let o = #[trigger] outcomes@[start + k];
                    &&& o.location matches Some(l) && l@ == location@
                    &&& o.testcase@ == testcases@[k]@
                    &&& o.escaping == escaping
                    &&& o.format == format
                    &&& if k < outputs@.len() {
                        o.output@ == outputs@[k]@ && spec_early_result(
                            testcases@[k],
                            outputs@[k],
                            timeouts_fail,
                            o.result,
                        )
                    } else {
                        o.output@ == skipped_output() && o.result == Err::<(), TestCaseError>(
                            TestCaseError::Skipped,
                        )
                    }
                },
            *count_failed == f0 + failed_in(
                outcomes@,
                start,
                start + if i < outputs@.len() {
                    i as int
                } else {
                    outputs@.len() as int
                },
            ),
            *count_success + *count_failed == s0 + f0 + if i < outputs@.len() {
                i as int
            } else {
                outputs@.len() as int
            },
            s0 + outputs@.len() <= usize::MAX,
            f0 + outputs@.len() <= usize::MAX,
            *count_skipped == *old(count_skipped) + if i < outputs@.len() {
                0
            } else {
                i - outputs@.len()
            },
            *old(count_skipped) + testcases@.len() <= usize::MAX,
        decreases testcases@.len() - i,
    {
        let tc = testcases[i].copy();
        let ghost before = outcomes@;
        let ghost n = if i < outputs@.len() {
            i as int
        } else {
            outputs@.len() as int
        };
        proof {
            lemma_count_failed_bound(outcomes@, start, start + n);
        }
        if i < outputs.len() {
            let out = &outputs[i];
            let result = if timeouts_fail && matches!(out.exit_code, ExitStatus::Timeout(_)) {
                Err(TestCaseError::Timeout)
            } else {
                testcases[i].validate(out)
            };
            let failed = result.is_err();
            let outcome = Outcome {
                location: Some(location.to_owned()),
                output: out.copy(),
                testcase: tc,
                format,
                escaping,
                result,
            };
            outcomes.push(outcome);
            if failed {
                *count_failed = *count_failed + 1;
            } else {
                *count_success = *count_success + 1;
            }
            proof {
                lemma_count_failed_prefix(before, outcomes@, start, start + n);
                assert(outcomes@[start + i] == outcome);
                assert(outcome.output@ == outputs@[i as int]@);
                assert(outcome.testcase@ == testcases@[i as int]@);
                assert(spec_early_result(testcases@[i as int], outputs@[i as int], timeouts_fail, outcome.result));
            }
        } else {
            let outcome = Outcome {
                location: Some(location.to_owned()),
                output: Output {
                    stdout: OutputStream(Vec::new()),
                    stderr: OutputStream(Vec::new()),
                    exit_code: ExitStatus::Unknown,
                },
                testcase: tc,
                format,
                escaping,
                result: Err(TestCaseError::Skipped),
            };
            outcomes.push(outcome);
            *count_skipped = *count_skipped + 1;
            proof {
                lemma_count_failed_prefix(before, outcomes@, start, start + n);
                assert(outcomes@[start + i] == outcome);
                assert(outcome.output@ == skipped_output());
                assert(outcome.testcase@ == testcases@[i as int]@);
            }
        }
        assert forall|k: int| 0 <= k < start implies #[trigger] outcomes@[k] == old_outcomes[k] by {
            assert(outcomes@[k] == before[k]);
        }
        assert forall|k: int| 0 <= k < i implies #[trigger] outcomes@[start + k] == before[start + k] by {
        }
        i = i + 1;
    }
}

} // verus!
