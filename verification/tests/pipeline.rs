use tinycalc::evaluator::{eval, Value};
use tinycalc::lexer::lex;
use tinycalc::parser::{parse, ParseError};
use tinycalc::span::Span;

fn run(input: &str) -> Vec<Value> {
    let tokens = lex(input).tokens().expect("Lexing error");
    let trees = parse(tokens).trees().expect("Parsing error");
    let (values, err) = eval(trees).values();
    assert!(err.is_none(), "Evaluation error: {:?}", err);
    values
}

#[test]
fn empty_input_is_empty_at_every_stage() {
    let tokens = lex("").tokens().expect("Lexing error");
    assert_eq!(tokens, []);
    let trees = parse(tokens).trees().expect("Parsing error");
    assert_eq!(trees, []);
    let (values, err) = eval(trees).values();
    assert_eq!(values, []);
    assert!(err.is_none());
}

#[test]
fn single_number_evaluates_to_itself() {
    assert_eq!(run("35"), [Value::I32(35)]);
}

#[test]
fn sum_evaluates_to_the_arithmetic_sum() {
    assert_eq!(run("81 + 2"), [Value::I32(83)]);
}

#[test]
fn backtick_errors_at_offset_zero() {
    let err = lex("`").tokens().expect_err("expected a lexing error");
    assert_eq!(err.span, Span::new(0, 1));
    assert_eq!(err.src_text, "`");
}

#[test]
fn sum_without_space_before_operator_is_refused() {
    // the digit run swallows the character that ends it, so without a
    // space the operator itself is consumed and two bare literals remain
    let tokens = lex("3+4").tokens().expect("Lexing error");
    assert_eq!(tokens.len(), 2);
    assert!(matches!(
        parse(tokens).trees(),
        Err(ParseError::UnexpectedToken(_))
    ));
}

#[test]
fn sum_without_space_after_operator_is_accepted() {
    assert_eq!(run("3 +4"), [Value::I32(7)]);
}

#[test]
fn several_expressions_evaluate_in_source_order() {
    assert_eq!(run("1 + 2 3 + 4"), [Value::I32(3), Value::I32(7)]);
}
