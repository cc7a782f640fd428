use chint::problem::{Problem, Test};
use chint::runner::{suite_advance, suite_next, suite_result, suite_start, SuiteState};
use chint::tester::{classify, Disposition, ExecutionRecord, Outcome};

fn test(name: &str, input: &[u8], output: &[u8]) -> Test {
    Test {
        test_name: name.to_string(),
        input: input.to_vec(),
        output: output.to_vec(),
    }
}

fn record(disposition: Disposition, stdout: &[u8]) -> ExecutionRecord {
    ExecutionRecord {
        time_taken_ms: 1,
        stdout: stdout.to_vec(),
        stderr: Vec::new(),
        disposition,
    }
}

#[test]
fn fail_fast_stops_after_first_failure() {
    let problem = Problem {
        title: "sum".to_string(),
        description: "add the numbers".to_string(),
        tests: vec![test("a", b"1 2", b"3\n"), test("b", b"2 2", b"4\n"), test("c", b"3 3", b"6\n")],
    };
    // the candidate answers fixture `a` correctly and gets fixture `b` wrong
    let replies: Vec<ExecutionRecord> = vec![
        record(Disposition::Exited { code: 0 }, b"3\n"),
        record(Disposition::Exited { code: 0 }, b"5\n"),
        record(Disposition::Exited { code: 0 }, b"6\n"),
    ];

    let mut executed: Vec<usize> = Vec::new();
    let mut state = suite_start(&problem);
    while let Some(i) = suite_next(&state) {
        executed.push(i);
        let rec = replies[i].clone();
        let outcome = classify(&rec, &problem.tests[i].output);
        state = suite_advance(&problem, state, outcome, rec);
    }

    // exactly fixtures 0 and 1 ran, in order; fixture 2 never did
    assert_eq!(executed, vec![0, 1]);
    assert!(matches!(state, SuiteState::Failed { index: 1, .. }));
    let result = suite_result(state);
    assert!(!result.passed);
    let failure = result.failure.unwrap();
    assert_eq!(failure.index, 1);
    assert_eq!(failure.outcome, Outcome::IncorrectOutput);
    assert_eq!(failure.record.stdout, b"5\n".to_vec());
}

#[test]
fn all_successes_pass_the_suite() {
    let problem = Problem {
        title: "echo".to_string(),
        description: "say it back".to_string(),
        tests: vec![test("a", b"x", b"x\n"), test("b", b"y", b"y\n")],
    };
    let replies: Vec<ExecutionRecord> = vec![
        record(Disposition::Exited { code: 0 }, b"x\n"),
        record(Disposition::Exited { code: 0 }, b"y\n"),
    ];

    let mut executed: Vec<usize> = Vec::new();
    let mut state = suite_start(&problem);
    while let Some(i) = suite_next(&state) {
        executed.push(i);
        let rec = replies[i].clone();
        let outcome = classify(&rec, &problem.tests[i].output);
        state = suite_advance(&problem, state, outcome, rec);
    }

    assert_eq!(executed, vec![0, 1]);
    assert!(matches!(state, SuiteState::Passed));
    let result = suite_result(state);
    assert!(result.passed);
    assert!(result.failure.is_none());
}

#[test]
fn timeout_fails_the_suite_at_that_fixture() {
    let problem = Problem {
        title: "slow".to_string(),
        description: "too slow".to_string(),
        tests: vec![test("a", b"", b"ok\n")],
    };

    let mut state = suite_start(&problem);
    let i = suite_next(&state).unwrap();
    assert_eq!(i, 0);
    let rec = record(Disposition::TimedOut, b"");
    let outcome = classify(&rec, &problem.tests[0].output);
    state = suite_advance(&problem, state, outcome, rec);

    assert!(suite_next(&state).is_none());
    let result = suite_result(state);
    assert!(!result.passed);
    assert_eq!(result.failure.unwrap().outcome, Outcome::Timeout);
}

#[test]
fn empty_problem_passes_immediately() {
    let problem = Problem {
        title: "empty".to_string(),
        description: "nothing to run".to_string(),
        tests: Vec::new(),
    };
    let state = suite_start(&problem);
    assert!(suite_next(&state).is_none());
    assert!(suite_result(state).passed);
}
