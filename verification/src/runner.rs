//! The suite runner's state machine.
//!
//! A run walks a problem's fixtures in order, one at a time; the caller
//! executes the selected fixture, classifies the record, and feeds the
//! verdict back. On a success the run advances; on any other verdict it
//! fails at that fixture and keeps its verdict and record for diagnostics.
//! No fixture after a failing one is ever selected.

use vstd::prelude::*;
use crate::problem::Problem;
use crate::tester::{ExecutionRecord, Outcome};

verus! {

/// Where a suite run stands.
pub enum SuiteState {
    /// No fixture has been selected yet.
    Pending,
    /// Every fixture before `index` succeeded; `index` is the next to run.
    Running { index: usize },
    /// Every fixture succeeded.
    Passed,
    /// Fixture `index` produced `outcome`; no later fixture was run.
    Failed { index: usize, outcome: Outcome, record: ExecutionRecord },
}

impl SuiteState {
    /// The state fits a problem with `num_tests` fixtures.
    pub open spec fn wf(&self, num_tests: nat) -> bool {
        match self {
            SuiteState::Running { index } => (index as nat) < num_tests,
            SuiteState::Failed { index, outcome, .. } => (index as nat) < num_tests && !(*outcome
                is Success),
            _ => true,
        }
    }

    /// Terminal states end the run: nothing more is ever executed from them.
    pub open spec fn is_terminal(&self) -> bool {
        self is Passed || self is Failed
    }
}

/// The state a run of a suite with `num_tests` fixtures begins in.
pub open spec fn start_spec(num_tests: nat) -> SuiteState {
    if num_tests == 0 {
        SuiteState::Passed
    } else {
        SuiteState::Running { index: 0 }
    }
}

/// The fixture a state selects for execution, if any.
pub open spec fn next_spec(state: SuiteState) -> Option<usize> {
    match state {
        SuiteState::Running { index } => Some(index),
        _ => None,
    }
}

/// The state after fixture `index` was executed and classified.
pub open spec fn advance_spec(
    num_tests: nat,
    index: usize,
    outcome: Outcome,
    record: ExecutionRecord,
) -> SuiteState {
    if !(outcome is Success) {
        SuiteState::Failed { index, outcome, record }
    } else if index + 1 < num_tests {
        SuiteState::Running { index: (index + 1) as usize }
    } else {
        SuiteState::Passed
    }
}

/// Begin a run of `problem`: immediately passed when there is nothing to
/// run, else ready to run the first fixture.
pub fn suite_start(problem: &Problem) -> (s: SuiteState)
    ensures
        s == start_spec(problem.tests@.len()),
        s.wf(problem.tests@.len()),
{
    if problem.tests.len() == 0 {
        SuiteState::Passed
    } else {
        SuiteState::Running { index: 0 }
    }
}

/// The fixture to execute next: only a running suite executes anything, and
/// it executes exactly the fixture at its index.
pub fn suite_next(state: &SuiteState) -> (r: Option<usize>)
    ensures
        r == next_spec(*state),
{
    match state {
        SuiteState::Running { index } => Some(*index),
        _ => None,
    }
}

/// Step the suite after fixture `index` was executed and classified: on a
/// success move on to the next fixture, or pass the suite when none is left;
/// on any other verdict fail the suite at this fixture, keeping the verdict
/// and the record for diagnostics.
pub fn suite_advance(
    problem: &Problem,
    state: SuiteState,
    outcome: Outcome,
    record: ExecutionRecord,
) -> (next: SuiteState)
    requires
        state matches SuiteState::Running { index } && (index as nat) < problem.tests@.len(),
    ensures
        (state matches SuiteState::Running { index } ==> next == advance_spec(
            problem.tests@.len(),
            index,
            outcome,
            record,
        )),
        next.wf(problem.tests@.len()),
{
    match state {
        SuiteState::Running { index } => {
            proof {
                assert((index as nat) < problem.tests@.len());
            }
            match outcome {
                Outcome::Success => {
                    if index < problem.tests.len() - 1 {
                        SuiteState::Running { index: index + 1 }
                    } else {
                        SuiteState::Passed
                    }
                },
                _ => SuiteState::Failed { index, outcome, record },
            }
        },
        _ => vstd::pervasive::unreached(),
    }
}

/// The failing fixture's index, verdict and record, kept for diagnostics.
pub struct FailureReport {
    pub index: usize,
    pub outcome: Outcome,
    pub record: ExecutionRecord,
}

/// The overall result of a run: pass or fail, and on a failure the first
/// failing fixture's details.
pub struct SuiteResult {
    pub passed: bool,
    pub failure: Option<FailureReport>,
}

/// Read the overall result off a finished run: passed exactly when every
/// fixture succeeded; otherwise the first failing fixture with its verdict
/// and record.
pub fn suite_result(state: SuiteState) -> (r: SuiteResult)
    requires
        state.is_terminal(),
    ensures
        r.passed <==> state is Passed,
        (state matches SuiteState::Failed { index, outcome, record } ==> (r.failure matches Some(f)
            && f.index == index && f.outcome == outcome && f.record == record)),
        state is Passed ==> r.failure is None,
{
    match state {
        SuiteState::Failed { index, outcome, record } => SuiteResult {
            passed: false,
            failure: Some(FailureReport { index, outcome, record }),
        },
        _ => SuiteResult { passed: true, failure: None },
    }
}

/// How far into the fixtures a state stands; drives the run's termination.
pub open spec fn remaining(num_tests: nat, state: SuiteState) -> int {
    match state {
        SuiteState::Running { index } => num_tests - index,
        _ => 0,
    }
}

/// The terminal state the machine reaches from `state` when fixture `j`
/// would yield the verdict `outcomes[j]` and the record `records[j]`.
pub open spec fn run_spec(
    num_tests: nat,
    state: SuiteState,
    outcomes: Seq<Outcome>,
    records: Seq<ExecutionRecord>,
) -> SuiteState
    decreases remaining(num_tests, state),
{
    match state {
        SuiteState::Running { index } => {
            if (index as nat) < num_tests && num_tests <= usize::MAX as nat {
                run_spec(
                    num_tests,
                    advance_spec(num_tests, index, outcomes[index as int], records[index as int]),
                    outcomes,
                    records,
                )
            } else {
                state
            }
        },
        _ => state,
    }
}

/// How many fixtures the machine executes from `state` on: one per step it
/// takes while running.
pub open spec fn executed_count(
    num_tests: nat,
    state: SuiteState,
    outcomes: Seq<Outcome>,
    records: Seq<ExecutionRecord>,
) -> int
    decreases remaining(num_tests, state),
{
    match state {
        SuiteState::Running { index } => {
            if (index as nat) < num_tests && num_tests <= usize::MAX as nat {
                1 + executed_count(
                    num_tests,
                    advance_spec(num_tests, index, outcomes[index as int], records[index as int]),
                    outcomes,
                    records,
                )
            } else {
                0
            }
        },
        _ => 0,
    }
}

/// From the fixture at `k` on, with every verdict before `i` a success and
/// the verdict at `i` not one, the run ends failed at `i` after executing
/// exactly the fixtures `k..=i`.
proof fn lemma_run_fails_from(
    num_tests: nat,
    k: usize,
    outcomes: Seq<Outcome>,
    records: Seq<ExecutionRecord>,
    i: int,
)
    requires
        outcomes.len() == num_tests,
        records.len() == num_tests,
        num_tests <= usize::MAX as nat,
        k <= i < num_tests,
        forall|j: int| k <= j < i ==> outcomes[j] is Success,
        !(outcomes[i] is Success),
    ensures
        run_spec(num_tests, SuiteState::Running { index: k }, outcomes, records) == (
        SuiteState::Failed {
            index: i as usize,
            outcome: outcomes[i],
            record: records[i],
        }),
        executed_count(num_tests, SuiteState::Running { index: k }, outcomes, records) == i + 1 - k,
    decreases i - k,
{
    let state = SuiteState::Running { index: k };
    let stepped = advance_spec(num_tests, k, outcomes[k as int], records[k as int]);
    assert(run_spec(num_tests, state, outcomes, records) == run_spec(
        num_tests,
        stepped,
        outcomes,
        records,
    ));
    assert(executed_count(num_tests, state, outcomes, records) == 1 + executed_count(
        num_tests,
        stepped,
        outcomes,
        records,
    ));
    if k < i {
        assert(outcomes[k as int] is Success);
        assert(stepped == (SuiteState::Running { index: (k + 1) as usize }));
        lemma_run_fails_from(num_tests, (k + 1) as usize, outcomes, records, i);
    } else {
        assert(stepped == (SuiteState::Failed {
            index: k,
            outcome: outcomes[k as int],
            record: records[k as int],
        }));
        assert(run_spec(num_tests, stepped, outcomes, records) == stepped);
        assert(executed_count(num_tests, stepped, outcomes, records) == 0);
    }
}

/// The suite runner never executes a fixture after one that did not succeed:
/// when the first non-success verdict comes at fixture `i`, the run ends
/// failed at `i` with that verdict and record, exactly `i + 1` fixtures were
/// executed, and the failed state selects no further fixture.
pub proof fn lemma_fail_fast(
    num_tests: nat,
    outcomes: Seq<Outcome>,
    records: Seq<ExecutionRecord>,
    i: int,
)
    requires
        outcomes.len() == num_tests,
        records.len() == num_tests,
        num_tests <= usize::MAX as nat,
        0 <= i < num_tests,
        forall|j: int| 0 <= j < i ==> outcomes[j] is Success,
        !(outcomes[i] is Success),
    ensures
        run_spec(num_tests, start_spec(num_tests), outcomes, records) == (SuiteState::Failed {
            index: i as usize,
            outcome: outcomes[i],
            record: records[i],
        }),
        executed_count(num_tests, start_spec(num_tests), outcomes, records) == i + 1,
        next_spec(run_spec(num_tests, start_spec(num_tests), outcomes, records)) is None,
{
    lemma_run_fails_from(num_tests, 0, outcomes, records, i);
}

/// When every fixture succeeds, the run passes and executes them all.
pub proof fn lemma_all_pass(num_tests: nat, outcomes: Seq<Outcome>, records: Seq<ExecutionRecord>)
    requires
        outcomes.len() == num_tests,
        records.len() == num_tests,
        num_tests <= usize::MAX as nat,
        forall|j: int| 0 <= j < num_tests ==> outcomes[j] is Success,
    ensures
        run_spec(num_tests, start_spec(num_tests), outcomes, records) is Passed,
        executed_count(num_tests, start_spec(num_tests), outcomes, records) == num_tests,
{
    if num_tests > 0 {
        lemma_runs_pass_from(num_tests, 0, outcomes, records);
    }
}

/// From fixture `k` on, all-success verdicts carry the run to a pass.
proof fn lemma_runs_pass_from(
    num_tests: nat,
    k: usize,
    outcomes: Seq<Outcome>,
    records: Seq<ExecutionRecord>,
)
    requires
        outcomes.len() == num_tests,
        records.len() == num_tests,
        num_tests <= usize::MAX as nat,
        (k as nat) < num_tests,
        forall|j: int| k <= j < num_tests ==> outcomes[j] is Success,
    ensures
        run_spec(num_tests, SuiteState::Running { index: k }, outcomes, records) is Passed,
        executed_count(num_tests, SuiteState::Running { index: k }, outcomes, records) == num_tests
            - k,
    decreases num_tests - k,
{
    let state = SuiteState::Running { index: k };
    let stepped = advance_spec(num_tests, k, outcomes[k as int], records[k as int]);
    assert(outcomes[k as int] is Success);
    assert(run_spec(num_tests, state, outcomes, records) == run_spec(
        num_tests,
        stepped,
        outcomes,
        records,
    ));
    assert(executed_count(num_tests, state, outcomes, records) == 1 + executed_count(
        num_tests,
        stepped,
        outcomes,
        records,
    ));
    if k + 1 < num_tests {
        assert(stepped == (SuiteState::Running { index: (k + 1) as usize }));
        lemma_runs_pass_from(num_tests, (k + 1) as usize, outcomes, records);
    } else {
        assert(stepped is Passed);
        assert(run_spec(num_tests, stepped, outcomes, records) == stepped);
        assert(executed_count(num_tests, stepped, outcomes, records) == 0);
    }
}

} // verus!
