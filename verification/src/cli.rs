//! The command-line surface's decisions: which problem a request names, and
//! what the tool is to do with it. Argument parsing itself (and completion
//! generation) lives outside the library; it hands a plain [`CliRequest`]
//! over and carries out the [`Command`] that comes back.

use vstd::prelude::*;
use crate::problem::Problem;

verus! {

/// How the user points at their solution: an explicit command line, or a
/// source file whose run command is to be inferred.
pub enum SolutionSpec {
    Command(String),
    File(String),
}

/// A parsed invocation, as plain values.
pub enum CliRequest {
    /// List the available problems.
    List,
    /// Show a problem's title and description.
    Show { problem_id: u64 },
    /// Test a solution against a problem, with a time budget in seconds.
    Test { problem_id: u64, timeout_secs: u64, file: Option<String>, command: Option<String> },
}

/// What the tool was asked to do, with the problem resolved.
pub enum Command<'a> {
    List,
    Show { problem: &'a Problem },
    Test { problem: &'a Problem, solution: SolutionSpec, timeout_secs: u64 },
}

/// Why a request names no runnable job.
pub enum CliError {
    /// The problem identifier is not in `1..=count`.
    UnknownProblem { problem_id: u64, count: usize },
    /// Neither a solution file nor a command was supplied.
    MissingSolution,
}

/// The problem a 1-based identifier names.
pub fn get_problem(problems: &Vec<Problem>, id: u64) -> (p: &Problem)
    requires
        1 <= id <= problems@.len(),
    ensures
        *p == problems@[id as int - 1],
{
    let n = problems.len();
    proof {
        assert(id - 1 < n);
    }
    let idx = (id - 1) as usize;
    &problems[idx]
}

/// Resolve a parsed invocation against the problem list. A listing needs
/// nothing; showing or testing resolves the 1-based problem identifier, and
/// is refused when it is out of range. A test takes the explicit command when
/// one was given, else the solution file, and is refused when it has neither.
pub fn resolve_command<'a>(problems: &'a Vec<Problem>, request: CliRequest) -> (r: Result<
    Command<'a>,
    CliError,
>)
    ensures
        match request {
            CliRequest::List => r matches Ok(c) && c is List,
            CliRequest::Show { problem_id } => {
                if 1 <= problem_id <= problems@.len() {
                    r matches Ok(c) && (c matches Command::Show { problem } && *problem
                        == problems@[problem_id as int - 1])
                } else {
                    r == Err::<Command<'a>, CliError>(
                        CliError::UnknownProblem { problem_id, count: problems@.len() as usize },
                    )
                }
            },
            CliRequest::Test { problem_id, timeout_secs, file, command } => {
                if !(1 <= problem_id <= problems@.len()) {
                    r == Err::<Command<'a>, CliError>(
                        CliError::UnknownProblem { problem_id, count: problems@.len() as usize },
                    )
                } else {
                    match command {
                        Some(cmd) => r matches Ok(c) && (c matches Command::Test {
                            problem,
                            solution,
                            timeout_secs: t,
                        } && *problem == problems@[problem_id as int - 1] && solution
                            == SolutionSpec::Command(cmd) && t == timeout_secs),
                        None => match file {
                            Some(f) => r matches Ok(c) && (c matches Command::Test {
                                problem,
                                solution,
                                timeout_secs: t,
                            } && *problem == problems@[problem_id as int - 1] && solution
                                == SolutionSpec::File(f) && t == timeout_secs),
                            None => r == Err::<Command<'a>, CliError>(CliError::MissingSolution),
                        },
                    }
                }
            },
        },
{
    match request {
        CliRequest::List => Ok(Command::List),
        CliRequest::Show { problem_id } => {
            if 1 <= problem_id && problem_id <= problems.len() as u64 {
                Ok(Command::Show { problem: get_problem(problems, problem_id) })
            } else {
                Err(CliError::UnknownProblem { problem_id, count: problems.len() })
            }
        },
        CliRequest::Test { problem_id, timeout_secs, file, command } => {
            if !(1 <= problem_id && problem_id <= problems.len() as u64) {
                Err(CliError::UnknownProblem { problem_id, count: problems.len() })
            } else {
                let problem = get_problem(problems, problem_id);
                match command {
                    Some(cmd) => Ok(
                        Command::Test {
                            problem,
                            solution: SolutionSpec::Command(cmd),
                            timeout_secs,
                        },
                    ),
                    None => match file {
                        Some(f) => Ok(
                            Command::Test {
                                problem,
                                solution: SolutionSpec::File(f),
                                timeout_secs,
                            },
                        ),
                        None => Err(CliError::MissingSolution),
                    },
                }
            }
        },
    }
}

} // verus!
