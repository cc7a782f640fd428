use chint::cli::{get_problem, resolve_command, CliError, CliRequest, Command, SolutionSpec};
use chint::problem::Problem;

fn problems() -> Vec<Problem> {
    vec![
        Problem {
            title: "One".to_string(),
            description: "first".to_string(),
            tests: Vec::new(),
        },
        Problem {
            title: "Two".to_string(),
            description: "second".to_string(),
            tests: Vec::new(),
        },
    ]
}

#[test]
fn list_needs_no_problem() {
    let ps = problems();
    assert!(matches!(resolve_command(&ps, CliRequest::List), Ok(Command::List)));
}

#[test]
fn show_resolves_one_based_identifier() {
    let ps = problems();
    match resolve_command(&ps, CliRequest::Show { problem_id: 2 }) {
        Ok(Command::Show { problem }) => assert_eq!(problem.title, "Two"),
        _ => panic!("expected the second problem"),
    }
}

#[test]
fn show_rejects_out_of_range_identifier() {
    let ps = problems();
    match resolve_command(&ps, CliRequest::Show { problem_id: 0 }) {
        Err(CliError::UnknownProblem { problem_id, count }) => {
            assert_eq!(problem_id, 0);
            assert_eq!(count, 2);
        },
        _ => panic!("expected an unknown-problem error"),
    }
    assert!(matches!(
        resolve_command(&ps, CliRequest::Show { problem_id: 3 }),
        Err(CliError::UnknownProblem { .. })
    ));
}

#[test]
fn explicit_command_wins_over_file() {
    let ps = problems();
    let request = CliRequest::Test {
        problem_id: 1,
        timeout_secs: 60,
        file: Some("sol.py".to_string()),
        command: Some("node sol.js".to_string()),
    };
    match resolve_command(&ps, request) {
        Ok(Command::Test { problem, solution, timeout_secs }) => {
            assert_eq!(problem.title, "One");
            assert_eq!(timeout_secs, 60);
            match solution {
                SolutionSpec::Command(c) => assert_eq!(c, "node sol.js"),
                SolutionSpec::File(_) => panic!("expected the explicit command"),
            }
        },
        _ => panic!("expected a test command"),
    }
}

#[test]
fn file_is_used_when_no_command_is_given() {
    let ps = problems();
    let request = CliRequest::Test {
        problem_id: 1,
        timeout_secs: 5,
        file: Some("main.py".to_string()),
        command: None,
    };
    match resolve_command(&ps, request) {
        Ok(Command::Test { solution: SolutionSpec::File(f), .. }) => assert_eq!(f, "main.py"),
        _ => panic!("expected the file solution"),
    }
}

#[test]
fn test_without_solution_is_refused() {
    let ps = problems();
    let request = CliRequest::Test {
        problem_id: 1,
        timeout_secs: 5,
        file: None,
        command: None,
    };
    assert!(matches!(resolve_command(&ps, request), Err(CliError::MissingSolution)));
}

#[test]
fn get_problem_indexes_from_one() {
    let ps = problems();
    assert_eq!(get_problem(&ps, 1).title, "One");
    assert_eq!(get_problem(&ps, 2).title, "Two");
}
