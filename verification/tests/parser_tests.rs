use cmdlang::get_enclosed_tokens;
use cmdlang::parse;
use cmdlang::tokenise;
use cmdlang::top_level_split;
use cmdlang::Delimiter;
use cmdlang::SyntaxError;
use cmdlang::TokenType;

#[test]
pub fn test_parse_basic_call() -> Result<(), SyntaxError> {
    {
        let tokens = tokenise("echo()")?;
        let ast = parse(&tokens)?;

        println!("{:#?}", ast);
    }

    {
        let tokens = tokenise("echo(\"Hi\")").unwrap();
        let ast = parse(&tokens).unwrap();

        println!("{:#?}", ast);
    }

    Ok(())
}

#[test]
pub fn test_parse_basic_expr() -> Result<(), SyntaxError> {
    {
        let tokens = tokenise("1 + 2 * 3")?;
        let ast = parse(&tokens)?;

        println!("{:#?}", ast);
    }

    {
        let tokens = tokenise("1 + 2 * 3 + echo(\"hi\")")?;
        let ast = parse(&tokens)?;

        println!("{:#?}", ast);
    }

    Ok(())
}

#[test]
pub fn test_get_enclosed_content() {
    let tokens = tokenise("(\"Hi\", \"World\"), \"hello\"").unwrap();
    let enclosed = get_enclosed_tokens(&tokens[0..]).unwrap();

    println!("{:?}", &enclosed);

    assert_eq!(enclosed.len(), 3);
}

#[test]
pub fn test_top_level_split() {
    let tokens = tokenise("1, (1 + 2, 3), 2, 3").unwrap();
    let sections = top_level_split(&tokens, Delimiter::Comma, false).unwrap();

    println!("{:?}", &sections);

    assert_eq!(sections.len(), 4);
}

#[test]
pub fn test_top_level_split_keep_delimiter() {
    let tokens = tokenise("1, (1 + 2, 3), 2, 3").unwrap();
    let sections = top_level_split(&tokens, Delimiter::Comma, true).unwrap();

    println!("{:?}", &sections);

    assert_eq!(sections.len(), 4);
}

#[test]
pub fn test_top_level_split_empty() {
    let tokens = tokenise("1").unwrap();
    let sections = top_level_split(&tokens, Delimiter::Comma, false).unwrap();

    println!("{:?}", &sections);

    assert_eq!(sections.len(), 1);
}

#[test]
fn split_rejoins_to_the_input_without_delimiters() {
    let tokens = tokenise("1, (1 + 2, 3), 2, 3").unwrap();
    let sections = top_level_split(&tokens, Delimiter::Comma, false).unwrap();

    let mut rejoined: Vec<String> = Vec::new();
    for (i, section) in sections.iter().enumerate() {
        if i > 0 {
            rejoined.push(",".to_string());
        }
        for t in section.iter() {
            rejoined.push(t.lexeme.clone());
        }
    }
    let originals: Vec<String> = tokens.iter().map(|t| t.lexeme.clone()).collect();
    assert_eq!(rejoined, originals);
}

#[test]
fn split_rejoins_to_the_input_with_delimiters() {
    let tokens = tokenise("1, (1 + 2, 3), 2, 3").unwrap();
    let sections = top_level_split(&tokens, Delimiter::Comma, true).unwrap();

    let mut rejoined: Vec<String> = Vec::new();
    for section in sections.iter() {
        for t in section.iter() {
            rejoined.push(t.lexeme.clone());
        }
    }
    let originals: Vec<String> = tokens.iter().map(|t| t.lexeme.clone()).collect();
    assert_eq!(rejoined, originals);
}

#[test]
fn enclosed_region_is_bracket_balanced() {
    let tokens = tokenise("(a, {b, c}, [d])").unwrap();
    let enclosed = get_enclosed_tokens(&tokens).unwrap();
    // The reported region is everything strictly inside the outer pair.
    assert_eq!(enclosed.len(), tokens.len() - 2);
    // Counters balance: equally many opens and closes of every family inside.
    let mut p = 0i64;
    let mut b = 0i64;
    let mut k = 0i64;
    let mut a = 0i64;
    for t in enclosed.iter() {
        match &t.token_type {
            TokenType::OpenBracket(cmdlang::BracketType::Parenthesis) => p += 1,
            TokenType::OpenBracket(cmdlang::BracketType::Brace) => b += 1,
            TokenType::OpenBracket(cmdlang::BracketType::Bracket) => k += 1,
            TokenType::OpenBracket(cmdlang::BracketType::Angle) => a += 1,
            TokenType::CloseBracket(cmdlang::BracketType::Parenthesis) => p -= 1,
            TokenType::CloseBracket(cmdlang::BracketType::Brace) => b -= 1,
            TokenType::CloseBracket(cmdlang::BracketType::Bracket) => k -= 1,
            TokenType::CloseBracket(cmdlang::BracketType::Angle) => a -= 1,
            _ => {}
        }
        assert!(p >= 0 && b >= 0 && k >= 0 && a >= 0);
    }
    assert_eq!((p, b, k, a), (0, 0, 0, 0));
}

#[test]
fn unbalanced_brackets_are_a_mismatch() {
    let tokens = tokenise("(a, {b)").unwrap();
    let err = get_enclosed_tokens(&tokens).unwrap_err();
    assert!(matches!(err, SyntaxError::BracketMismatch(1, 1)));
}

#[test]
fn parsing_twice_yields_identical_trees() {
    let tokens = tokenise("map(i -> i + 'Oi')").unwrap();
    let first = parse(&tokens).unwrap();
    let second = parse(&tokens).unwrap();
    assert_eq!(format!("{:#?}", first), format!("{:#?}", second));
}
