use chint::command_guesser::guess_command;

#[test]
fn guess_command_test() {
    assert!(guess_command("abc.xyz").is_none());
    assert_eq!(guess_command("abc.py"), Some("python3 abc.py".into()));
    assert_eq!(guess_command("hey/abc.py"), Some("python3 hey/abc.py".into()));
}

#[test]
fn hidden_file_has_no_extension() {
    assert!(guess_command(".py").is_none());
    assert!(guess_command("dir/.py").is_none());
}

#[test]
fn quoting_applies_to_awkward_paths() {
    assert_eq!(guess_command("my file.py"), Some("python3 'my file.py'".into()));
}
