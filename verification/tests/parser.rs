use tinycalc::lexer::{lex, Token};
use tinycalc::parser::{parse, LeafToken, OperatorToken, ParseError, SyntaxTree};
use tinycalc::span::Span;

fn to_vec(input: &str) -> Vec<SyntaxTree> {
    let tokens = lex(input).tokens().expect("Lexing failed!");
    parse(tokens).trees().expect("Parsing failed")
}

fn parse_err(input: &str) -> ParseError {
    let tokens = lex(input).tokens().expect("Lexing failed!");
    match parse(tokens).trees() {
        Err(e) => e,
        Ok(trees) => panic!("expected a parse error, got {:?}", trees),
    }
}

#[test]
fn parsing_nothing_returns_empty_list() {
    assert_eq!(to_vec(""), []);
}

#[test]
fn parsing_number_produces_leaf_expression() {
    assert_eq!(
        to_vec("51"),
        [SyntaxTree::Leaf(LeafToken::integer("51", Span::new(0, 2)))]
    );
}

#[test]
fn parsing_sum_produces_opr_expression() {
    assert_eq!(
        to_vec("82 + 1"),
        [SyntaxTree::Operation {
            operator: OperatorToken::operation("+", Span::new(3, 1)),
            left: Box::new(SyntaxTree::Leaf(LeafToken::integer("82", Span::new(0, 2)))),
            right: Box::new(SyntaxTree::Leaf(LeafToken::integer("1", Span::new(5, 1))))
        }]
    );
}

#[test]
fn trailing_operator_gives_unexpected_eof() {
    match parse_err("3 +") {
        ParseError::UnexpectedEof(e) => {
            // the span points at the operator left without an operand
            assert_eq!(e.span, Span::new(2, 1));
            assert_eq!(e.src_name, "stdin");
        }
        other => panic!("expected end-of-input error, got {:?}", other),
    }
}

#[test]
fn adjacent_literals_give_unexpected_token() {
    match parse_err("3 3") {
        ParseError::UnexpectedToken(e) => {
            assert_eq!(e.span, Span::new(2, 1));
        }
        other => panic!("expected a token error, got {:?}", other),
    }
}

#[test]
fn adjacent_operators_give_unexpected_token() {
    match parse_err("3 + +") {
        ParseError::UnexpectedToken(e) => {
            assert_eq!(e.span, Span::new(4, 1));
        }
        other => panic!("expected a token error, got {:?}", other),
    }
}

#[test]
fn leading_operator_gives_unexpected_token() {
    match parse_err("+ 3") {
        ParseError::UnexpectedToken(e) => {
            assert_eq!(e.span, Span::new(0, 1));
        }
        other => panic!("expected a token error, got {:?}", other),
    }
}

#[test]
fn parser_stops_after_first_error() {
    let tokens = lex("3 3 4 + 5").tokens().expect("Lexing failed!");
    let mut pr = parse(tokens);
    assert!(matches!(
        pr.next(),
        Some(Err(ParseError::UnexpectedToken(_)))
    ));
    assert!(pr.next().is_none());
    assert!(pr.next().is_none());
}

#[test]
fn narrowing_tokens_to_leaf_and_operator() {
    assert_eq!(
        LeafToken::try_from(Token::integer("7", Span::new(0, 1))),
        Ok(LeafToken::integer("7", Span::new(0, 1)))
    );
    assert!(LeafToken::try_from(Token::operation("+", Span::new(0, 1))).is_err());
    assert_eq!(
        OperatorToken::try_from(Token::operation("+", Span::new(4, 1))),
        Ok(OperatorToken::operation("+", Span::new(4, 1)))
    );
    assert!(OperatorToken::try_from(Token::integer("7", Span::new(0, 1))).is_err());
}

#[test]
fn parsing_two_expressions_gives_two_trees() {
    assert_eq!(
        to_vec("1 + 2 3 + 4"),
        [
            SyntaxTree::Operation {
                operator: OperatorToken::operation("+", Span::new(2, 1)),
                left: Box::new(SyntaxTree::Leaf(LeafToken::integer("1", Span::new(0, 1)))),
                right: Box::new(SyntaxTree::Leaf(LeafToken::integer("2", Span::new(4, 1))))
            },
            SyntaxTree::Operation {
                operator: OperatorToken::operation("+", Span::new(8, 1)),
                left: Box::new(SyntaxTree::Leaf(LeafToken::integer("3", Span::new(6, 1)))),
                right: Box::new(SyntaxTree::Leaf(LeafToken::integer("4", Span::new(10, 1))))
            }
        ]
    );
}
