use cmdlang::parse;
use cmdlang::tokenise;
use cmdlang::ASTNode;
use cmdlang::KeyOrNoKey;
use cmdlang::LiteralToken;
use cmdlang::OpOrExpr;
use cmdlang::OperatorType;
use cmdlang::SyntaxError;

fn single_literal(node: &ASTNode) -> &LiteralToken {
    match node {
        ASTNode::Expression(items) if items.len() == 1 => match &items[0] {
            OpOrExpr::Literal(l) => l,
            other => panic!("{:?}", other),
        },
        other => panic!("{:?}", other),
    }
}

#[test]
fn a_call_parses_to_callee_and_positional_argument() {
    let tokens = tokenise("echo(\"hi\")").unwrap();
    let ast = parse(&tokens).unwrap();
    match &*ast {
        ASTNode::Call(callee, args) => {
            assert!(matches!(single_literal(callee), LiteralToken::Symbol(s) if s == "echo"));
            assert_eq!(args.len(), 1);
            match &args[0] {
                KeyOrNoKey::NoKey(value) => {
                    // The quotes of the string token are stripped here.
                    assert!(
                        matches!(single_literal(value), LiteralToken::String(s) if s == "hi")
                    );
                }
                other => panic!("{:?}", other),
            }
        }
        other => panic!("{:?}", other),
    }
}

#[test]
fn keyed_arguments_carry_their_key_name() {
    let tokens = tokenise("readdir(file: 'file:/home/user')").unwrap();
    let ast = parse(&tokens).unwrap();
    match &*ast {
        ASTNode::Call(_, args) => {
            assert_eq!(args.len(), 1);
            match &args[0] {
                KeyOrNoKey::Key(name, value) => {
                    assert_eq!(name, "file");
                    assert!(
                        matches!(single_literal(value),
                            LiteralToken::String(s) if s == "file:/home/user")
                    );
                }
                other => panic!("{:?}", other),
            }
        }
        other => panic!("{:?}", other),
    }
}

#[test]
fn an_expression_keeps_source_order_before_reordering() {
    let tokens = tokenise("1 + 2 * 3").unwrap();
    let ast = parse(&tokens).unwrap();
    match &*ast {
        ASTNode::Expression(items) => {
            assert_eq!(items.len(), 5);
            assert!(
                matches!(&items[0], OpOrExpr::Expr(e)
                    if matches!(single_literal(e), LiteralToken::Number(s) if s == "1"))
            );
            assert!(matches!(items[1], OpOrExpr::Operator(OperatorType::Add)));
            assert!(
                matches!(&items[2], OpOrExpr::Expr(e)
                    if matches!(single_literal(e), LiteralToken::Number(s) if s == "2"))
            );
            assert!(matches!(items[3], OpOrExpr::Operator(OperatorType::Multiply)));
            assert!(
                matches!(&items[4], OpOrExpr::Expr(e)
                    if matches!(single_literal(e), LiteralToken::Number(s) if s == "3"))
            );
        }
        other => panic!("{:?}", other),
    }
}

#[test]
fn a_dotted_chain_parses_to_index_segments() {
    let tokens = tokenise("a.b.c").unwrap();
    let ast = parse(&tokens).unwrap();
    match &*ast {
        ASTNode::Index(segments) => {
            assert_eq!(segments.len(), 3);
            let names: Vec<String> = segments
                .iter()
                .map(|seg| match single_literal(seg) {
                    LiteralToken::Symbol(s) => s.clone(),
                    other => panic!("{:?}", other),
                })
                .collect();
            assert_eq!(names, vec!["a", "b", "c"]);
        }
        other => panic!("{:?}", other),
    }
}

#[test]
fn an_index_with_an_unparseable_segment_is_invalid_syntax() {
    let tokens = tokenise("a.b.&&").unwrap();
    let err = parse(&tokens).unwrap_err();
    assert!(matches!(err, SyntaxError::InvalidSyntax(_, _)));
}

#[test]
fn the_index_rule_validates_every_segment() {
    // A failing final segment.
    let tokens = tokenise("a.b.&&").unwrap();
    let err = cmdlang::parse_index(&tokens).unwrap_err();
    assert!(matches!(err, SyntaxError::InvalidSyntax(1, 1)));

    // A failing first segment, even though the later ones parse.
    let tokens = tokenise("&&.b.c").unwrap();
    let err = cmdlang::parse_index(&tokens).unwrap_err();
    assert!(matches!(err, SyntaxError::InvalidSyntax(1, 1)));

    // All segments parse.
    let tokens = tokenise("a.b.c").unwrap();
    let node = cmdlang::parse_index(&tokens).unwrap();
    assert!(matches!(&node, ASTNode::Index(segments) if segments.len() == 3));
}

#[test]
fn computed_index_segments_parse_recursively() {
    let tokens = tokenise("index.(1 + 2).hi").unwrap();
    let ast = parse(&tokens).unwrap();
    match &*ast {
        ASTNode::Index(segments) => {
            assert_eq!(segments.len(), 3);
            assert!(matches!(&*segments[1], ASTNode::Expression(items) if items.len() == 3));
        }
        other => panic!("{:?}", other),
    }
}

#[test]
fn a_lambda_parses_to_parameters_and_body() {
    let tokens = tokenise("x; y -> x + y").unwrap();
    let ast = parse(&tokens).unwrap();
    match &*ast {
        ASTNode::Lambda(params, body) => {
            assert_eq!(params, &vec!["x".to_string(), "y".to_string()]);
            match &**body {
                ASTNode::Expression(items) => {
                    assert_eq!(items.len(), 3);
                    assert!(matches!(items[1], OpOrExpr::Operator(OperatorType::Add)));
                }
                other => panic!("{:?}", other),
            }
        }
        other => panic!("{:?}", other),
    }
}

#[test]
fn a_dict_parses_keyed_and_positional_entries() {
    let tokens = tokenise("{greeting: \"hello\", extra}").unwrap();
    let ast = parse(&tokens).unwrap();
    match &*ast {
        ASTNode::Dict(entries) => {
            assert_eq!(entries.len(), 2);
            assert!(matches!(&entries[0], cmdlang::DictKey::Key(_, _)));
            assert!(matches!(&entries[1], cmdlang::DictKey::NoKey(_)));
        }
        other => panic!("{:?}", other),
    }
}

#[test]
fn an_empty_input_is_an_unexpected_eof() {
    let tokens = tokenise("   ").unwrap();
    let err = parse(&tokens).unwrap_err();
    assert!(matches!(err, SyntaxError::UnexpectedEOF()));
}

#[test]
fn pipes_parse_as_expression_operators() {
    let tokens = tokenise("readdir(file: 'f') | keys").unwrap();
    let ast = parse(&tokens).unwrap();
    match &*ast {
        ASTNode::Expression(items) => {
            assert_eq!(items.len(), 3);
            assert!(matches!(
                items[1],
                OpOrExpr::Operator(OperatorType::Pipe(cmdlang::PipeType::Stdout))
            ));
        }
        other => panic!("{:?}", other),
    }
}
