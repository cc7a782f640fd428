//! Classification of one fixture run.
//!
//! The execution engine (outside this library) runs the candidate once per
//! fixture and reports what happened as an [`ExecutionRecord`]. [`classify`]
//! turns such a record, together with the fixture's expected output, into an
//! [`Outcome`], applying a fixed precedence: a timeout beats everything, a
//! non-zero exit code beats any output comparison, and the output comparison
//! ignores trailing whitespace on both sides.

use vstd::prelude::*;

verus! {

/// How the candidate process ended: either it exited with a code within the
/// time budget, or it was still running when the budget ran out.
#[derive(Clone, Copy, PartialEq, Eq, Structural, Debug)]
pub enum Disposition {
    Exited { code: i32 },
    TimedOut,
}

/// What one run of the candidate on one fixture produced: elapsed wall-clock
/// time, the captured output streams, and how the process ended.
///
/// On the timed-out path the engine discards partial output, so `stdout` and
/// `stderr` are meaningful only when `disposition` is `Exited`.
#[derive(Clone, Debug)]
pub struct ExecutionRecord {
    pub time_taken_ms: u64,
    pub stdout: Vec<u8>,
    pub stderr: Vec<u8>,
    pub disposition: Disposition,
}

/// The verdict for one fixture. No other outcome is representable.
#[derive(Clone, Copy, PartialEq, Eq, Structural, Debug)]
pub enum Outcome {
    Success,
    IncorrectExitCode { exit_code: i32 },
    IncorrectOutput,
    Timeout,
}

/// The bytes the output comparison treats as trailing whitespace: space, tab,
/// line feed, form feed and carriage return (the ASCII whitespace set).
pub open spec fn is_trailing_ws(b: u8) -> bool {
    b == 32 || b == 9 || b == 10 || b == 12 || b == 13
}

/// `s` with every trailing whitespace byte removed.
pub open spec fn trim_end_spec(s: Seq<u8>) -> Seq<u8>
    decreases s.len(),
{
    if s.len() > 0 && is_trailing_ws(s.last()) {
        trim_end_spec(s.drop_last())
    } else {
        s
    }
}

/// The outputs agree byte for byte once trailing whitespace is trimmed from
/// both sides.
pub open spec fn output_matches(actual: Seq<u8>, expected: Seq<u8>) -> bool {
    trim_end_spec(actual) == trim_end_spec(expected)
}

/// The verdict for a record, by the fixed precedence: timeout first, then a
/// non-zero exit code (whatever the output holds), then the trailing-trimmed
/// output comparison.
pub open spec fn classify_spec(disposition: Disposition, stdout: Seq<u8>, expected: Seq<u8>) -> Outcome {
    match disposition {
        Disposition::TimedOut => Outcome::Timeout,
        Disposition::Exited { code } => if code != 0 {
            Outcome::IncorrectExitCode { exit_code: code }
        } else if output_matches(stdout, expected) {
            Outcome::Success
        } else {
            Outcome::IncorrectOutput
        },
    }
}

/// The length that `s` keeps once trailing whitespace is trimmed.
fn trimmed_len(s: &Vec<u8>) -> (n: usize)
    ensures
        n <= s@.len(),
        trim_end_spec(s@) == s@.take(n as int),
        n > 0 ==> !is_trailing_ws(s@[n - 1]),
{
    let mut n: usize = s.len();
    proof {
        assert(s@.take(n as int) =~= s@);
    }
    while n > 0 && is_ws_byte(s[n - 1])
        invariant
            n <= s@.len(),
            trim_end_spec(s@) == trim_end_spec(s@.take(n as int)),
        decreases n,
    {
        proof {
            assert(s@.take(n as int).last() == s@[n - 1]);
            assert(s@.take(n as int).drop_last() =~= s@.take(n - 1));
        }
        n = n - 1;
    }
    proof {
        if n == 0 {
            assert(s@.take(0).len() == 0);
        }
    }
    n
}

/// Whether one byte counts as trailing whitespace.
fn is_ws_byte(b: u8) -> (r: bool)
    ensures
        r == is_trailing_ws(b),
{
    b == 32 || b == 9 || b == 10 || b == 12 || b == 13
}

/// Whether `actual` equals `expected` once trailing whitespace is trimmed
/// from both.
pub fn outputs_match(actual: &Vec<u8>, expected: &Vec<u8>) -> (r: bool)
    ensures
        r == output_matches(actual@, expected@),
{
    let na = trimmed_len(actual);
    let ne = trimmed_len(expected);
    if na != ne {
        proof {
            assert(trim_end_spec(actual@).len() == na);
            assert(trim_end_spec(expected@).len() == ne);
        }
        return false;
    }
    let mut i: usize = 0;
    while i < na
        invariant
            na == ne <= expected@.len(),
            na <= actual@.len(),
            trim_end_spec(actual@) == actual@.take(na as int),
            trim_end_spec(expected@) == expected@.take(ne as int),
            i <= na,
            forall|j: int| 0 <= j < i ==> actual@[j] == expected@[j],
        decreases na - i,
    {
        if actual[i] != expected[i] {
            proof {
                assert(trim_end_spec(actual@)[i as int] != trim_end_spec(expected@)[i as int]);
            }
            return false;
        }
        i = i + 1;
    }
    proof {
        assert(actual@.take(na as int) =~= expected@.take(ne as int));
    }
    true
}

/// The verdict for one fixture run: `Timeout` if the process did not exit in
/// time; else `IncorrectExitCode` on a non-zero exit code, whatever the
/// output; else `Success` exactly when the captured standard output equals
/// the expected output up to trailing whitespace, and `IncorrectOutput`
/// otherwise.
pub fn classify(record: &ExecutionRecord, expected: &Vec<u8>) -> (outcome: Outcome)
    ensures
        outcome == classify_spec(record.disposition, record.stdout@, expected@),
{
    match record.disposition {
        Disposition::TimedOut => Outcome::Timeout,
        Disposition::Exited { code } => {
            if code != 0 {
                Outcome::IncorrectExitCode { exit_code: code }
            } else if outputs_match(&record.stdout, expected) {
                Outcome::Success
            } else {
                Outcome::IncorrectOutput
            }
        },
    }
}

/// Why a suite run cannot proceed at all. These are operational failures,
/// surfaced distinctly from the classified verdicts: a verdict says what the
/// candidate did, an engine error says the run itself could not be carried
/// out.
#[derive(Debug, PartialEq, Eq)]
pub enum EngineError {
    /// Malformed or empty command string; detected before any process is
    /// created.
    ConfigurationError { message: String },
    /// The resolved command's executable could not be started.
    SpawnError { reason: String },
    /// Reading the captured output streams failed after the process exited.
    IOError { reason: String },
}

/// What `shlex::split` makes of a command string: `None` on erroneous input,
/// otherwise the shell-style word list.
pub uninterp spec fn shlex_words(s: Seq<char>) -> Option<Seq<Seq<char>>>;

/// Relies on `shlex::split`: shell-style tokenization of a whole command
/// line, respecting quoting; `None` exactly on erroneous input (an unclosed
/// quote or a trailing backslash). The result depends on the characters
/// alone.
#[verifier::external_body]
fn shlex_split(s: &str) -> (r: Option<Vec<String>>)
    ensures
        r is Some <==> shlex_words(s@) is Some,
        r matches Some(v) ==> Some(v.deep_view()) == shlex_words(s@),
{
    shlex::split(s)
}

/// A non-empty argument vector: the program to start and its arguments.
#[derive(Debug)]
pub struct CommandLine {
    pub argv: Vec<String>,
}

impl CommandLine {
    /// A command line always holds at least the program name.
    pub open spec fn wf(&self) -> bool {
        self.argv@.len() > 0
    }
}

/// Tokenize the command string, shell-style. Succeeds exactly when the
/// string splits into a non-empty word list; otherwise the configuration
/// error names what was wrong ("Invalid Command" for a string that cannot be
/// tokenized, "Empty Command" for one with no words), and no process is ever
/// created on that path.
pub fn parse_command(command: &str) -> (r: Result<CommandLine, EngineError>)
    ensures
        match r {
            Ok(cl) => {
                &&& cl.wf()
                &&& shlex_words(command@) matches Some(ws)
                &&& ws == cl.argv.deep_view()
                &&& ws.len() > 0
            },
            Err(e) => match shlex_words(command@) {
                None => e matches EngineError::ConfigurationError { message }
                    && message@ == "Invalid Command"@,
                Some(ws) => ws.len() == 0 && (e matches EngineError::ConfigurationError { message }
                    && message@ == "Empty Command"@),
            },
        },
{
    match shlex_split(command) {
        None => Err(EngineError::ConfigurationError { message: "Invalid Command".to_owned() }),
        Some(argv) => {
            if argv.len() == 0 {
                Err(EngineError::ConfigurationError { message: "Empty Command".to_owned() })
            } else {
                Ok(CommandLine { argv })
            }
        },
    }
}

/// A run that exits in time with code 0 and output equal to the expected
/// output up to trailing whitespace is a success.
pub proof fn lemma_success_owed(stdout: Seq<u8>, expected: Seq<u8>)
    requires
        output_matches(stdout, expected),
    ensures
        classify_spec(Disposition::Exited { code: 0 }, stdout, expected) == Outcome::Success,
{
}

/// A run that did not finish within the budget is a timeout, whatever output
/// it produced.
pub proof fn lemma_timeout_overrides_output(stdout: Seq<u8>, expected: Seq<u8>)
    ensures
        classify_spec(Disposition::TimedOut, stdout, expected) == Outcome::Timeout,
{
}

/// A non-zero exit code is reported as such even when the output exactly
/// matches the expected output.
pub proof fn lemma_exit_code_overrides_output(code: i32, stdout: Seq<u8>, expected: Seq<u8>)
    requires
        code != 0,
    ensures
        classify_spec(Disposition::Exited { code }, stdout, expected) == (Outcome::IncorrectExitCode {
            exit_code: code,
        }),
{
}

/// Appending whitespace to a byte sequence does not change its trimmed form.
pub proof fn lemma_trim_end_append_ws(s: Seq<u8>, ws: Seq<u8>)
    requires
        forall|i: int| 0 <= i < ws.len() ==> is_trailing_ws(ws[i]),
    ensures
        trim_end_spec(s + ws) == trim_end_spec(s),
    decreases ws.len(),
{
    if ws.len() == 0 {
        assert(s + ws =~= s);
    } else {
        assert((s + ws).last() == ws.last());
        assert((s + ws).drop_last() =~= s + ws.drop_last());
        lemma_trim_end_append_ws(s, ws.drop_last());
    }
}

/// Extra trailing whitespace on the captured standard output leaves the
/// classification as it was, under every disposition.
pub proof fn lemma_trailing_ws_irrelevant(
    disposition: Disposition,
    stdout: Seq<u8>,
    ws: Seq<u8>,
    expected: Seq<u8>,
)
    requires
        forall|i: int| 0 <= i < ws.len() ==> is_trailing_ws(ws[i]),
    ensures
        classify_spec(disposition, stdout + ws, expected) == classify_spec(
            disposition,
            stdout,
            expected,
        ),
{
    lemma_trim_end_append_ws(stdout, ws);
}

/// With exit code 0, any difference that trimming trailing whitespace cannot
/// absorb is reported as incorrect output.
pub proof fn lemma_content_difference_detected(stdout: Seq<u8>, expected: Seq<u8>)
    requires
        !output_matches(stdout, expected),
    ensures
        classify_spec(Disposition::Exited { code: 0 }, stdout, expected)
            == Outcome::IncorrectOutput,
{
}

} // verus!
