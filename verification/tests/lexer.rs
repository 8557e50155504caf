use tinycalc::lexer::{lex, Token, UnexpectedCharacter};
use tinycalc::span::Span;

/// Lex the supplied str, collect into a Vec, and panic if any of the
/// tokens causes an error.
fn to_vec(input: &str) -> Vec<Token> {
    lex(input).tokens().expect("Lexing failed")
}

/// Pull items until the lexer yields nothing more, counting tokens and
/// errors alike.
fn count_items(input: &str) -> usize {
    let mut lx = lex(input);
    let mut n = 0;
    while lx.next().is_some() {
        n += 1;
    }
    n
}

#[test]
fn lex_int() {
    assert_eq!(to_vec("32"), [Token::integer("32", Span::new(0, 2))]);
    assert_eq!(to_vec("5"), [Token::integer("5", Span::new(0, 1))]);
}

#[test]
fn lex_multiple_tokens() {
    assert_eq!(
        to_vec("33 6"),
        [
            Token::integer("33", Span::new(0, 2)),
            Token::integer("6", Span::new(3, 1))
        ]
    );
    assert_eq!(
        to_vec("7 16"),
        [
            Token::integer("7", Span::new(0, 1)),
            Token::integer("16", Span::new(2, 2))
        ]
    );
}

#[test]
fn lex_add_expr() {
    assert_eq!(
        to_vec("34 + 61"),
        [
            Token::integer("34", Span::new(0, 2)),
            Token::operation("+", Span::new(3, 1)),
            Token::integer("61", Span::new(5, 2))
        ]
    );
    assert_eq!(
        to_vec("8 + 160"),
        [
            Token::integer("8", Span::new(0, 1)),
            Token::operation("+", Span::new(2, 1)),
            Token::integer("160", Span::new(4, 3))
        ]
    );
}

#[test]
fn stop_producing_tokens_when_is_error() {
    assert_eq!(count_items("33 6 ' 5 5"), 3);
    assert_eq!(count_items("7 16 52 ' 9 8"), 4);
}

#[test]
fn lexing_invalid_is_error() {
    let mut lx = lex("`");
    let err: UnexpectedCharacter = match lx.next() {
        Some(Err(e)) => e,
        other => panic!("expected an error, got {:?}", other),
    };
    assert_eq!(err.span, Span::new(0, 1));
    assert_eq!(err.src_text, "`");
    assert_eq!(err.src_name, "stdin");
    assert!(lx.next().is_none());

    let mut lx = lex("3\n4\n87 'sd");
    assert_eq!(
        lx.next().unwrap().unwrap(),
        Token::integer("3", Span::new(0, 1))
    );
    assert_eq!(
        lx.next().unwrap().unwrap(),
        Token::integer("4", Span::new(2, 1))
    );
    assert_eq!(
        lx.next().unwrap().unwrap(),
        Token::integer("87", Span::new(4, 2))
    );
    let err = match lx.next() {
        Some(Err(e)) => e,
        other => panic!("expected an error, got {:?}", other),
    };
    assert_eq!(err.span, Span::new(7, 1));
    assert_eq!(err.src_text, "3\n4\n87 'sd");
    assert!(lx.next().is_none());
}

#[test]
fn digits_only_input_gives_one_token() {
    assert_eq!(
        to_vec("0123456789"),
        [Token::integer("0123456789", Span::new(0, 10))]
    );
}

#[test]
fn tokenizer_stops_at_first_bad_char() {
    let mut lx = lex("12 x 34");
    assert_eq!(
        lx.next().unwrap().unwrap(),
        Token::integer("12", Span::new(0, 2))
    );
    let err = match lx.next() {
        Some(Err(e)) => e,
        other => panic!("expected an error, got {:?}", other),
    };
    assert_eq!(err.span, Span::new(3, 1));
    assert!(lx.next().is_none());
    assert!(lx.next().is_none());
}

#[test]
fn bad_char_after_digit_run_is_swallowed() {
    // the character that ends a digit run is consumed with it, so a bad
    // character standing right after digits never reaches the tokenizer
    assert_eq!(
        to_vec("3'4"),
        [
            Token::integer("3", Span::new(0, 1)),
            Token::integer("4", Span::new(2, 1))
        ]
    );
}

#[test]
fn multi_byte_bad_char_errors_at_its_byte_offset() {
    let mut lx = lex("+ \u{1f4a6} 5");
    assert_eq!(
        lx.next().unwrap().unwrap(),
        Token::operation("+", Span::new(0, 1))
    );
    let err = match lx.next() {
        Some(Err(e)) => e,
        other => panic!("expected an error, got {:?}", other),
    };
    assert_eq!(err.span, Span::new(2, 1));
}
