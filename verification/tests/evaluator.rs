use tinycalc::evaluator::{eval, EvalError, Value};
use tinycalc::lexer::lex;
use tinycalc::parser::{parse, LeafToken, SyntaxTree};
use tinycalc::span::Span;

fn to_vec(input: &str) -> Vec<Value> {
    let tokens = lex(input).tokens().expect("Lexing error");
    let trees = parse(tokens).trees().expect("Parsing error");
    let (values, err) = eval(trees).values();
    assert!(err.is_none(), "Evaluation error: {:?}", err);
    values
}

fn eval_outcome(input: &str) -> (Vec<Value>, Option<EvalError>) {
    let tokens = lex(input).tokens().expect("Lexing error");
    let trees = parse(tokens).trees().expect("Parsing error");
    eval(trees).values()
}

#[test]
fn evaluating_no_trees_gives_no_results() {
    assert_eq!(to_vec(""), []);
}

#[test]
fn evaluating_integer_gives_i32() {
    assert_eq!(to_vec("35"), [Value::I32(35)]);
}

#[test]
fn evaluating_addition_gives_sum() {
    assert_eq!(to_vec("81 + 2"), [Value::I32(83)]);
}

#[test]
fn largest_value_fits() {
    assert_eq!(to_vec("2147483647"), [Value::I32(2147483647)]);
}

#[test]
fn leading_zeros_are_accepted() {
    assert_eq!(to_vec("007"), [Value::I32(7)]);
}

#[test]
fn literal_too_large_is_invalid_number() {
    let (values, err) = eval_outcome("2147483648");
    assert_eq!(values, []);
    match err {
        Some(EvalError::InvalidNumber(e)) => {
            // the span is the literal's
            assert_eq!(e.span, Span::new(0, 10));
            assert_eq!(e.src_name, "stdin");
        }
        other => panic!("expected an invalid-number error, got {:?}", other),
    }
}

#[test]
fn addition_overflow_is_reported() {
    let (values, err) = eval_outcome("2147483647 + 1");
    assert_eq!(values, []);
    match err {
        Some(EvalError::ArithmeticOverflow(e)) => {
            // the span is the operator's
            assert_eq!(e.span, Span::new(11, 1));
        }
        other => panic!("expected an overflow error, got {:?}", other),
    }
}

#[test]
fn empty_literal_is_invalid_number() {
    let leaf = SyntaxTree::Leaf(LeafToken::integer("", Span::new(0, 0)));
    let mut ev = eval(vec![leaf]);
    assert!(matches!(
        ev.next(),
        Some(Err(EvalError::InvalidNumber(_)))
    ));
    assert!(ev.next().is_none());
}

#[test]
fn signed_literal_is_invalid_number() {
    let leaf = SyntaxTree::Leaf(LeafToken::integer("-5", Span::new(0, 2)));
    let mut ev = eval(vec![leaf]);
    assert!(matches!(
        ev.next(),
        Some(Err(EvalError::InvalidNumber(_)))
    ));
}

#[test]
fn values_before_the_failing_tree_are_kept() {
    let (values, err) = eval_outcome("1 + 2 99999999999");
    assert_eq!(values, [Value::I32(3)]);
    assert!(matches!(err, Some(EvalError::InvalidNumber(_))));
}
