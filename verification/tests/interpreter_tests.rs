use myparse::interpreter::{Interpreter, InterpreterErrorKind};
use myparse::lexer::{Lexer, Loc};
use myparse::parser::parse;

fn eval_line(input: &str) -> Result<i64, myparse::interpreter::InterpreterError> {
    let mut lexer = Lexer::new(input);
    let tokens = lexer.lex().unwrap();
    let ast = parse(tokens).unwrap();
    let mut interp = Interpreter::new();
    interp.eval(&ast)
}

#[test]
fn test_eval_sample() {
    // 1 + 2*3 - (-10) = 17
    assert_eq!(eval_line("1 + 2 * 3 - -10"), Ok(17));
}

#[test]
fn test_eval_division_by_zero_at_operator_span() {
    // The error's span is exactly the `/` token's span, not the
    // whole expression's.
    let err = eval_line("1/0").unwrap_err();
    assert_eq!(err.value, InterpreterErrorKind::DivisionByZero);
    assert_eq!(err.loc, Loc(1, 2));
}

#[test]
fn test_eval_precedence_and_parens() {
    assert_eq!(eval_line("2+3*4"), Ok(14));
    assert_eq!(eval_line("(2+3)*4"), Ok(20));
}

#[test]
fn test_eval_left_associative() {
    assert_eq!(eval_line("10-3-4"), Ok(3));
    assert_eq!(eval_line("100/10/5"), Ok(2));
}

#[test]
fn test_eval_unary_operators() {
    assert_eq!(eval_line("+5"), Ok(5));
    assert_eq!(eval_line("-5"), Ok(-5));
}

#[test]
fn test_eval_division_truncates_toward_zero() {
    assert_eq!(eval_line("-7/2"), Ok(-3));
    assert_eq!(eval_line("7/-2"), Ok(-3));
}

#[test]
fn test_eval_addition_overflow() {
    let err = eval_line("9223372036854775807 + 1").unwrap_err();
    assert_eq!(err.value, InterpreterErrorKind::Overflow);
    assert_eq!(err.loc, Loc(20, 21));
}

#[test]
fn test_eval_literal_too_large_for_i64() {
    // A literal above i64::MAX lexes and parses (it fits in u64)
    // but cannot be evaluated.
    let err = eval_line("9223372036854775808").unwrap_err();
    assert_eq!(err.value, InterpreterErrorKind::Overflow);
    assert_eq!(err.loc, Loc(0, 19));
}

#[test]
fn test_eval_min_divided_by_minus_one_overflows() {
    // (i64::MIN) / -1 does not fit in an i64; the error points at
    // the division operator.
    let err = eval_line("(-9223372036854775807-1)/-1").unwrap_err();
    assert_eq!(err.value, InterpreterErrorKind::Overflow);
    assert_eq!(err.loc, Loc(24, 25));
}

#[test]
fn test_eval_negation_overflow_at_operator_span() {
    // Negating i64::MIN overflows; the error points at the unary
    // minus.
    let err = eval_line("-(-9223372036854775807-1)").unwrap_err();
    assert_eq!(err.value, InterpreterErrorKind::Overflow);
    assert_eq!(err.loc, Loc(0, 1));
}

#[test]
fn test_eval_whitespace_insensitive_value() {
    assert_eq!(eval_line("1-2"), eval_line("1 - 2"));
}
