use chint::resolve::{
    normalize_path, parse_identifier, resolve_path, unwrap_string_literal, ResolveError,
};

#[test]
fn resolve_path_with_no_environment_variables() {
    let path = "./file.txt";

    let resolved = resolve_path(path, |_| unreachable!()).unwrap();

    assert_eq!(resolved, path);
}

#[test]
fn simple_environment_variable() {
    let path = "./$VAR";

    let resolved = resolve_path(path, |name| {
        assert_eq!(name, "VAR");
        Some("file.txt".to_string())
    })
    .unwrap();

    assert_eq!(resolved, "./file.txt");
}

#[test]
fn dont_resolve_recursively() {
    let path = "./$TOP_LEVEL.txt";

    let resolved = resolve_path(path, |name| match name {
        "TOP_LEVEL" => Some("$NESTED".to_string()),
        "$NESTED" => unreachable!("Shouldn't resolve recursively"),
        _ => unreachable!(),
    })
    .unwrap();

    assert_eq!(resolved, "./$NESTED.txt");
}

#[test]
fn parse_valid_identifiers() {
    let inputs = vec![
        ("a", "a"),
        ("a_", "a_"),
        ("_asf", "_asf"),
        ("a1", "a1"),
        ("a1_#sd", "a1_"),
    ];

    for (src, expected) in inputs {
        let (got, rest) = parse_identifier(src).unwrap();
        assert_eq!(got.len() + rest.len(), src.len());
        assert_eq!(got, expected);
    }
}

#[test]
fn unknown_environment_variable() {
    let path = "$UNKNOWN";

    let err = resolve_path(path, |_| None).unwrap_err();

    assert_eq!(
        err,
        ResolveError::MissingVariable {
            variable: String::from("UNKNOWN"),
        }
    );
}

#[test]
fn invalid_variables() {
    let inputs = &["$1", "$"];

    for input in inputs {
        let err = resolve_path(input, |_| unreachable!()).unwrap_err();

        assert_eq!(
            err,
            ResolveError::UnableToParseVariable {
                rest: input.to_string(),
            }
        );
    }
}

#[test]
fn two_variables_resolved_left_to_right() {
    let resolved = resolve_path("$A/$B", |name| match name {
        "A" => Some("first".to_string()),
        "B" => Some("second".to_string()),
        _ => unreachable!(),
    })
    .unwrap();

    assert_eq!(resolved, "first/second");
}

#[test]
fn normalize_path_strips_root_and_separators() {
    assert_eq!(normalize_path("problems", "problems/1\\data.in"), "1/data.in");
    assert_eq!(normalize_path("root", "root/a/b"), "a/b");
    assert_eq!(normalize_path("", "x/y"), "x/y");
}

#[test]
fn unwrap_string_literal_strips_quotes() {
    assert_eq!(unwrap_string_literal("\"problems\""), "problems");
    assert_eq!(unwrap_string_literal("\"\""), "");
}
