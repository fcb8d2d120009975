use cmdlang::eval;
use cmdlang::parse;
use cmdlang::tokenise;
use cmdlang::ByteStream;
use cmdlang::Environment;
use cmdlang::ProcessOptions;
use cmdlang::SyntaxError;

fn eval_text(input: &str, options: ProcessOptions, env: &Environment) -> Result<Vec<u8>, SyntaxError> {
    let tokens = tokenise(input)?;
    let ast = parse(&tokens)?;
    eval(&ast, options, env).map(|bs| bs.merge())
}

#[test]
fn multiplication_binds_tighter_than_addition() {
    let env = Environment::new();
    let out = eval_text("1 + 2 * 3", ProcessOptions::default(), &env).unwrap();
    assert_eq!(out, b"7".to_vec());
}

#[test]
fn subtraction_on_numbers() {
    let env = Environment::new();
    let out = eval_text("5 - 2", ProcessOptions::default(), &env).unwrap();
    assert_eq!(out, b"3".to_vec());
}

#[test]
fn equal_precedence_groups_left_associatively() {
    let env = Environment::new();
    let out = eval_text("10 - 3 - 2", ProcessOptions::default(), &env).unwrap();
    assert_eq!(out, b"5".to_vec());
    let out = eval_text("10 - 3 + 2", ProcessOptions::default(), &env).unwrap();
    assert_eq!(out, b"9".to_vec());
}

#[test]
fn addition_concatenates_strings() {
    let env = Environment::new();
    let out = eval_text("\"foo\" + \"bar\"", ProcessOptions::default(), &env).unwrap();
    assert_eq!(out, b"foobar".to_vec());
}

#[test]
fn numbers_reduce_to_canonical_decimal_text() {
    let env = Environment::new();
    let out = eval_text("007", ProcessOptions::default(), &env).unwrap();
    assert_eq!(out, b"7".to_vec());
    let out = eval_text("-0x1F", ProcessOptions::default(), &env).unwrap();
    assert_eq!(out, b"-31".to_vec());
    let out = eval_text("0b101", ProcessOptions::default(), &env).unwrap();
    assert_eq!(out, b"5".to_vec());
    // A fractional part leaves the integer shapes; the text stands as written.
    let out = eval_text("0b10.01", ProcessOptions::default(), &env).unwrap();
    assert_eq!(out, b"0b10.01".to_vec());
    let out = eval_text("2.5", ProcessOptions::default(), &env).unwrap();
    assert_eq!(out, b"2.5".to_vec());
}

#[test]
fn hex_and_binary_integers_take_part_in_arithmetic() {
    let env = Environment::new();
    let out = eval_text("0x2 + 1", ProcessOptions::default(), &env).unwrap();
    assert_eq!(out, b"3".to_vec());
    let out = eval_text("0x10 * 0b10", ProcessOptions::default(), &env).unwrap();
    assert_eq!(out, b"32".to_vec());
}

#[test]
fn booleans_reduce_to_their_names() {
    let env = Environment::new();
    let out = eval_text("true", ProcessOptions::default(), &env).unwrap();
    assert_eq!(out, b"true".to_vec());
    let out = eval_text("false", ProcessOptions::default(), &env).unwrap();
    assert_eq!(out, b"false".to_vec());
}

#[test]
fn parenthesised_groups_evaluate_first() {
    let env = Environment::new();
    let out = eval_text("2 * (1 + 3)", ProcessOptions::default(), &env).unwrap();
    assert_eq!(out, b"8".to_vec());
}

#[test]
fn division_has_no_reduction_yet() {
    let env = Environment::new();
    let err = eval_text("6 / 2", ProcessOptions::default(), &env).unwrap_err();
    assert!(matches!(err, SyntaxError::UnsupportedOperator()));
}

#[test]
fn a_dict_has_no_evaluation_yet() {
    let env = Environment::new();
    let err = eval_text("{a, b}", ProcessOptions::default(), &env).unwrap_err();
    assert!(matches!(err, SyntaxError::UnsupportedExpression(_)));
}

#[test]
fn variable_mode_reads_the_variable_table() {
    let env = Environment {
        variables: vec![("PATH".to_string(), "/usr/local/bin:/usr/bin".to_string())],
        executables: Vec::new(),
    };
    let out = eval_text("PATH", ProcessOptions::default(), &env).unwrap();
    assert_eq!(out, b"/usr/local/bin:/usr/bin".to_vec());
}

#[test]
fn executable_mode_reads_the_search_path_snapshot() {
    let env = Environment {
        variables: Vec::new(),
        executables: vec![("ls".to_string(), "/bin/ls".to_string())],
    };
    let options = ProcessOptions {
        resolve_names_to_executables: true,
        ..ProcessOptions::default()
    };
    let out = eval_text("ls", options, &env).unwrap();
    assert_eq!(out, b"/bin/ls".to_vec());
}

#[test]
fn an_absent_name_is_no_value_in_both_modes() {
    let env = Environment::new();
    let err = eval_text("missing", ProcessOptions::default(), &env).unwrap_err();
    match err {
        SyntaxError::NoValue(name) => assert_eq!(name, "missing"),
        other => panic!("{:?}", other),
    }
    let options = ProcessOptions {
        resolve_names_to_executables: true,
        ..ProcessOptions::default()
    };
    let err = eval_text("missing", options, &env).unwrap_err();
    assert!(matches!(err, SyntaxError::NoValue(_)));
}

#[test]
fn a_call_resolves_its_callee_as_an_executable() {
    // The callee resolves in executable mode even under default options;
    // execution itself is not implemented, so the call stays unsupported.
    let env = Environment {
        variables: Vec::new(),
        executables: vec![("echo".to_string(), "/bin/echo".to_string())],
    };
    let err = eval_text("echo(\"hi\")", ProcessOptions::default(), &env).unwrap_err();
    assert!(matches!(err, SyntaxError::UnsupportedExpression(_)));

    // An unknown callee fails earlier, while resolving.
    let err = eval_text("nothere(\"hi\")", ProcessOptions::default(), &env).unwrap_err();
    assert!(matches!(err, SyntaxError::NoValue(_)));
}

#[test]
fn merge_drains_the_stream_to_bytes() {
    let bs = ByteStream::from_string("hello");
    assert_eq!(bs.merge(), b"hello".to_vec());
    let bs = ByteStream::from_string("");
    assert_eq!(bs.merge(), Vec::<u8>::new());
}

#[test]
fn search_dirs_splits_on_colons() {
    let dirs = cmdlang::search_dirs("/usr/local/bin:/usr/bin:/bin");
    assert_eq!(dirs, vec!["/usr/local/bin", "/usr/bin", "/bin"]);
    let dirs = cmdlang::search_dirs("");
    assert_eq!(dirs, vec![""]);
}

#[test]
fn candidate_path_joins_directory_and_name() {
    assert_eq!(cmdlang::candidate_path("/usr/bin", "ls"), "/usr/bin/ls");
}

#[test]
fn pick_candidate_takes_the_first_probe_that_succeeded() {
    let dirs = vec!["/a".to_string(), "/b".to_string(), "/c".to_string()];
    let found = vec![false, true, true];
    assert_eq!(cmdlang::pick_candidate(&dirs, &found, "x"), Some("/b/x".to_string()));
    let none = vec![false, false, false];
    assert_eq!(cmdlang::pick_candidate(&dirs, &none, "x"), None);
}
