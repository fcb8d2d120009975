use cmdlang::tokenise;
use cmdlang::BracketType;
use cmdlang::KeywordType;
use cmdlang::OperatorType;
use cmdlang::PipeType;
use cmdlang::SyntaxError;
use cmdlang::TokenType;

#[test]
fn whitespace_only_input_yields_no_tokens() {
    let tokens = tokenise("  \t \r\n   ").unwrap();
    assert!(tokens.is_empty());
}

#[test]
fn comments_and_whitespace_yield_no_tokens() {
    let tokens = tokenise("  // a line comment\n   /* a box */  ").unwrap();
    assert!(tokens.is_empty());

    let tokens = tokenise("// just a comment").unwrap();
    assert!(tokens.is_empty());
}

#[test]
fn call_round_trip_tokens() {
    let tokens = tokenise("echo(\"hi\")").unwrap();
    assert_eq!(tokens.len(), 4);
    assert!(matches!(&tokens[0].token_type, TokenType::Symbol(s) if s == "echo"));
    assert!(matches!(
        &tokens[1].token_type,
        TokenType::OpenBracket(BracketType::Parenthesis)
    ));
    // The string token keeps its quotes; only the parsed literal drops them.
    assert!(matches!(&tokens[2].token_type, TokenType::String(s) if s == "\"hi\""));
    assert!(matches!(
        &tokens[3].token_type,
        TokenType::CloseBracket(BracketType::Parenthesis)
    ));
}

#[test]
fn longest_match_prefers_the_longest_pipe() {
    let tokens = tokenise("|oe |o | || |Eo").unwrap();
    assert!(matches!(
        tokens[0].token_type,
        TokenType::Operator(OperatorType::Pipe(PipeType::Both))
    ));
    assert!(matches!(
        tokens[1].token_type,
        TokenType::Operator(OperatorType::Pipe(PipeType::Stdout))
    ));
    assert!(matches!(
        tokens[2].token_type,
        TokenType::Operator(OperatorType::Pipe(PipeType::Stdout))
    ));
    assert!(matches!(tokens[3].token_type, TokenType::Operator(OperatorType::Or)));
    assert!(matches!(
        tokens[4].token_type,
        TokenType::Operator(OperatorType::Pipe(PipeType::Both))
    ));
}

#[test]
fn keywords_booleans_and_symbols_are_told_apart() {
    let tokens = tokenise("if iffy true trueish false for function return import").unwrap();
    assert!(matches!(tokens[0].token_type, TokenType::Keyword(KeywordType::If)));
    assert!(matches!(&tokens[1].token_type, TokenType::Symbol(s) if s == "iffy"));
    assert!(matches!(tokens[2].token_type, TokenType::Boolean(true)));
    assert!(matches!(&tokens[3].token_type, TokenType::Symbol(s) if s == "trueish"));
    assert!(matches!(tokens[4].token_type, TokenType::Boolean(false)));
    assert!(matches!(tokens[5].token_type, TokenType::Keyword(KeywordType::For)));
    assert!(matches!(tokens[6].token_type, TokenType::Keyword(KeywordType::Function)));
    assert!(matches!(tokens[7].token_type, TokenType::Keyword(KeywordType::Return)));
    assert!(matches!(tokens[8].token_type, TokenType::Keyword(KeywordType::Import)));
}

#[test]
fn numbers_come_in_decimal_hex_and_binary() {
    let tokens = tokenise("-12 3.5 0x1F 0b10.01").unwrap();
    assert!(matches!(&tokens[0].token_type, TokenType::Number(s) if s == "-12"));
    assert!(matches!(&tokens[1].token_type, TokenType::Number(s) if s == "3.5"));
    // A bare hex literal ties with the symbol pattern at the same length;
    // the earlier pattern in the fixed order wins, and that is the number.
    assert!(matches!(&tokens[2].token_type, TokenType::Number(s) if s == "0x1F"));
    assert!(matches!(&tokens[3].token_type, TokenType::Number(s) if s == "0b10.01"));
}

#[test]
fn path_like_symbols_are_single_tokens() {
    let tokens = tokenise("/usr/bin ~/.x ./y").unwrap();
    assert!(matches!(&tokens[0].token_type, TokenType::Symbol(s) if s == "/usr/bin"));
    assert!(matches!(&tokens[1].token_type, TokenType::Symbol(s) if s == "~/.x"));
    assert!(matches!(&tokens[2].token_type, TokenType::Symbol(s) if s == "./y"));
}

#[test]
fn angle_brackets_and_comparisons() {
    let tokens = tokenise("< > <= >= == != = !").unwrap();
    assert!(matches!(tokens[0].token_type, TokenType::OpenBracket(BracketType::Angle)));
    assert!(matches!(tokens[1].token_type, TokenType::CloseBracket(BracketType::Angle)));
    assert!(matches!(
        tokens[2].token_type,
        TokenType::Operator(OperatorType::LessThanOrEqual)
    ));
    assert!(matches!(
        tokens[3].token_type,
        TokenType::Operator(OperatorType::GreaterThanOrEqual)
    ));
    assert!(matches!(tokens[4].token_type, TokenType::Operator(OperatorType::Equal)));
    assert!(matches!(tokens[5].token_type, TokenType::Operator(OperatorType::NotEqual)));
    assert!(matches!(tokens[6].token_type, TokenType::Operator(OperatorType::Assign)));
    assert!(matches!(tokens[7].token_type, TokenType::Operator(OperatorType::Not)));
}

#[test]
fn positions_are_one_based_lines_and_columns() {
    let tokens = tokenise("ab\ncd").unwrap();
    assert_eq!(tokens[0].line, 1);
    assert_eq!(tokens[0].column, 1);
    assert_eq!(tokens[0].index, 0);
    assert_eq!(tokens[1].line, 2);
    assert_eq!(tokens[1].column, 1);
    assert_eq!(tokens[1].index, 3);
}

#[test]
fn indices_are_byte_offsets() {
    // The accented character takes two bytes, so the second token starts
    // at byte 9 though it is the ninth character.
    let tokens = tokenise("\"h\u{e9}llo\" x").unwrap();
    assert_eq!(tokens[0].index, 0);
    assert_eq!(tokens[1].index, 9);
}

#[test]
fn an_unmatched_character_is_an_unexpected_token() {
    let err = tokenise("echo &").unwrap_err();
    match err {
        SyntaxError::UnexpectedToken(fragment, line, column) => {
            assert_eq!(fragment, "&");
            assert_eq!(line, 1);
            assert_eq!(column, 6);
        }
        other => panic!("{:?}", other),
    }
}

#[test]
fn tokens_render_as_kind_and_lexeme() {
    let tokens = tokenise("echo(\"hi\")").unwrap();
    assert_eq!(tokens[0].describe(), "Symbol(echo)");
    assert_eq!(tokens[1].describe(), "OpenBracket(()");
    assert_eq!(tokens[2].describe(), "String(\"hi\")");
}

#[test]
fn lambda_arrow_and_punctuation() {
    let tokens = tokenise("x; y -> x . y , z :").unwrap();
    assert!(matches!(&tokens[0].token_type, TokenType::Symbol(s) if s == "x"));
    assert!(matches!(tokens[1].token_type, TokenType::Semicolon));
    assert!(matches!(tokens[3].token_type, TokenType::Lambda));
    assert!(matches!(tokens[5].token_type, TokenType::Dot));
    assert!(matches!(tokens[7].token_type, TokenType::Comma));
    assert!(matches!(tokens[9].token_type, TokenType::Colon));
}
