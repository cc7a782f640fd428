use chint::problem::{LoadError, Problem, ProblemDir, ProblemFile};

fn file(name: &str, content: &[u8]) -> ProblemFile {
    ProblemFile {
        name: name.to_string(),
        content: content.to_vec(),
    }
}

fn dir(number: u64, files: Vec<ProblemFile>) -> ProblemDir {
    ProblemDir { number, files }
}

#[test]
fn build_test_valid_problem_structure() {
    let dirs = vec![dir(
        1,
        vec![
            file("description.md", b"Sum\nAdd the two numbers."),
            file("a.in", b"1 2"),
            file("a.out", b"3\n"),
        ],
    )];

    assert!(Problem::from_dir(&dirs).unwrap().len() > 0);
}

#[test]
fn from_dir_splits_title_and_description() {
    let dirs = vec![dir(
        1,
        vec![file("description.md", b"Sum\nAdd the two numbers.\nMore.")],
    )];

    let problems = Problem::from_dir(&dirs).unwrap();
    assert_eq!(problems.len(), 1);
    assert_eq!(problems[0].title, "Sum");
    assert_eq!(problems[0].description, "Add the two numbers.\nMore.");
    assert_eq!(problems[0].tests.len(), 0);
}

#[test]
fn from_dir_orders_tests_by_name() {
    let dirs = vec![dir(
        1,
        vec![
            file("description.md", b"T\nD"),
            file("b.in", b"bi"),
            file("b.out", b"bo"),
            file("a.in", b"ai"),
            file("a.out", b"ao"),
        ],
    )];

    let problems = Problem::from_dir(&dirs).unwrap();
    let names: Vec<&str> = problems[0].tests.iter().map(|t| t.test_name.as_str()).collect();
    assert_eq!(names, vec!["a", "b"]);
    assert_eq!(problems[0].tests[0].input, b"ai".to_vec());
    assert_eq!(problems[0].tests[0].output, b"ao".to_vec());
}

#[test]
fn from_dir_stops_at_first_gap() {
    let dirs = vec![
        dir(1, vec![file("description.md", b"One\n.")]),
        dir(3, vec![file("description.md", b"Three\n.")]),
    ];

    let problems = Problem::from_dir(&dirs).unwrap();
    assert_eq!(problems.len(), 1);
    assert_eq!(problems[0].title, "One");
}

#[test]
fn missing_description_is_an_error() {
    let dirs = vec![dir(1, vec![file("a.in", b"x"), file("a.out", b"y")])];

    assert_eq!(
        Problem::from_dir(&dirs).unwrap_err(),
        LoadError::MissingDescription { problem: 1 }
    );
}

#[test]
fn invalid_utf8_description_is_an_error() {
    let dirs = vec![dir(1, vec![file("description.md", &[0xff, 0xfe, 0x00])])];

    assert_eq!(
        Problem::from_dir(&dirs).unwrap_err(),
        LoadError::InvalidUtf8 { problem: 1 }
    );
}

#[test]
fn description_without_newline_is_an_error() {
    let dirs = vec![dir(1, vec![file("description.md", b"TitleOnly")])];

    assert_eq!(
        Problem::from_dir(&dirs).unwrap_err(),
        LoadError::InvalidFormat { problem: 1 }
    );
}

#[test]
fn input_without_output_is_an_error() {
    let dirs = vec![dir(
        1,
        vec![file("description.md", b"T\nD"), file("a.in", b"x")],
    )];

    assert_eq!(
        Problem::from_dir(&dirs).unwrap_err(),
        LoadError::MissingOutput {
            problem: 1,
            test_name: "a".to_string(),
        }
    );
}

#[test]
fn first_broken_directory_stops_the_load() {
    let dirs = vec![
        dir(1, vec![file("description.md", b"One\n.")]),
        dir(2, vec![file("notes.txt", b"no description here")]),
    ];

    assert_eq!(
        Problem::from_dir(&dirs).unwrap_err(),
        LoadError::MissingDescription { problem: 2 }
    );
}
