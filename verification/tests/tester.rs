use chint::tester::{
    classify, outputs_match, parse_command, Disposition, EngineError, ExecutionRecord, Outcome,
};

fn record(disposition: Disposition, stdout: &[u8]) -> ExecutionRecord {
    ExecutionRecord {
        time_taken_ms: 7,
        stdout: stdout.to_vec(),
        stderr: Vec::new(),
        disposition,
    }
}

#[test]
fn exact_output_and_zero_exit_is_success() {
    let r = record(Disposition::Exited { code: 0 }, b"3\n");
    assert_eq!(classify(&r, &b"3\n".to_vec()), Outcome::Success);
}

#[test]
fn timeout_beats_output() {
    let r = record(Disposition::TimedOut, b"3\n");
    assert_eq!(classify(&r, &b"3\n".to_vec()), Outcome::Timeout);
    let silent = record(Disposition::TimedOut, b"");
    assert_eq!(classify(&silent, &b"3\n".to_vec()), Outcome::Timeout);
}

#[test]
fn nonzero_exit_code_beats_matching_output() {
    let r = record(Disposition::Exited { code: 2 }, b"3\n");
    assert_eq!(
        classify(&r, &b"3\n".to_vec()),
        Outcome::IncorrectExitCode { exit_code: 2 }
    );
}

#[test]
fn trailing_blank_line_is_success() {
    let r = record(Disposition::Exited { code: 0 }, b"3\n\n");
    assert_eq!(classify(&r, &b"3\n".to_vec()), Outcome::Success);
}

#[test]
fn trailing_whitespace_mix_is_success() {
    let r = record(Disposition::Exited { code: 0 }, b"answer \t\r\n");
    assert_eq!(classify(&r, &b"answer".to_vec()), Outcome::Success);
}

#[test]
fn content_difference_is_incorrect_output() {
    let r = record(Disposition::Exited { code: 0 }, b"4\n");
    assert_eq!(classify(&r, &b"3\n".to_vec()), Outcome::IncorrectOutput);
}

#[test]
fn inner_whitespace_difference_is_incorrect_output() {
    let r = record(Disposition::Exited { code: 0 }, b"a b");
    assert_eq!(classify(&r, &b"ab".to_vec()), Outcome::IncorrectOutput);
}

#[test]
fn outputs_match_ignores_only_trailing_whitespace() {
    assert!(outputs_match(&b"x".to_vec(), &b"x\n".to_vec()));
    assert!(outputs_match(&b"".to_vec(), &b" \t\n".to_vec()));
    assert!(!outputs_match(&b" x".to_vec(), &b"x".to_vec()));
}

#[test]
fn empty_command_is_configuration_error() {
    let err = parse_command("").unwrap_err();
    assert_eq!(
        err,
        EngineError::ConfigurationError {
            message: String::from("Empty Command"),
        }
    );
    let blank = parse_command("   ").unwrap_err();
    assert_eq!(
        blank,
        EngineError::ConfigurationError {
            message: String::from("Empty Command"),
        }
    );
}

#[test]
fn unclosed_quote_is_configuration_error() {
    let err = parse_command("echo \"unclosed").unwrap_err();
    assert_eq!(
        err,
        EngineError::ConfigurationError {
            message: String::from("Invalid Command"),
        }
    );
}

#[test]
fn quoted_arguments_are_split_shell_style() {
    let cl = parse_command("python3 'my file.py' -x").unwrap();
    assert_eq!(cl.argv, vec!["python3", "my file.py", "-x"]);
}

#[test]
fn single_word_command_splits_into_one_argument() {
    let cl = parse_command("ls").unwrap();
    assert_eq!(cl.argv, vec!["ls"]);
}
