//! End-to-end tests of the lex -> parse -> evaluate pipeline.

use interp::ast::{EvalError, SyntaxError};
use interp::eval::evaluate;
use interp::lexer::lex;
use interp::parser::parse;

fn eval_line(line: &str) -> Result<Result<i32, EvalError>, SyntaxError> {
    match parse(lex(line)) {
        Ok(expr) => Ok(evaluate(&expr)),
        Err(e) => Err(e),
    }
}

fn eval_ok(line: &str) -> i32 {
    match eval_line(line) {
        Ok(Ok(v)) => v,
        _ => panic!("expected a value for {:?}", line),
    }
}

fn eval_err(line: &str) -> EvalError {
    match eval_line(line) {
        Ok(Err(e)) => e,
        _ => panic!("expected an evaluation error for {:?}", line),
    }
}

fn parse_err(line: &str) -> SyntaxError {
    match eval_line(line) {
        Err(e) => e,
        _ => panic!("expected a syntax error for {:?}", line),
    }
}

#[test]
fn round_trip_parenthesized() {
    assert_eq!(eval_ok("( 1 + 2 ) * 3"), 9);
}

#[test]
fn pow_is_right_associative() {
    assert_eq!(eval_ok("2 ^ 3 ^ 2"), 512);
}

#[test]
fn minus_is_left_associative() {
    assert_eq!(eval_ok("8 - 3 - 2"), 3);
}

#[test]
fn division_by_zero() {
    assert_eq!(eval_err("1 / 0"), EvalError::DivisionByZero);
}

#[test]
fn modulo_by_zero() {
    assert_eq!(eval_err("1 % 0"), EvalError::DivisionByZero);
}

#[test]
fn unclosed_paren_is_mismatched() {
    assert!(matches!(parse_err("1 + ("), SyntaxError::MismatchedParentheses));
}

#[test]
fn unopened_paren_is_mismatched() {
    assert!(matches!(parse_err("1 + )"), SyntaxError::MismatchedParentheses));
}

#[test]
fn lone_close_paren_is_mismatched() {
    assert!(matches!(parse_err(")"), SyntaxError::MismatchedParentheses));
}

#[test]
fn unknown_symbol_is_reported_with_its_text() {
    assert!(matches!(parse_err("1 @ 2"), SyntaxError::UnknownSymbol(s) if s == "@"));
}

#[test]
fn empty_line_is_a_general_error() {
    assert!(matches!(parse_err(""), SyntaxError::GeneralError));
}

#[test]
fn spaces_only_line_is_a_general_error() {
    assert!(matches!(parse_err("   "), SyntaxError::GeneralError));
}

#[test]
fn two_operands_without_operator_is_a_general_error() {
    assert!(matches!(parse_err("1 2"), SyntaxError::GeneralError));
}

#[test]
fn times_binds_tighter_than_plus() {
    assert_eq!(eval_ok("2 + 3 * 4"), 14);
}

#[test]
fn parens_beat_precedence() {
    assert_eq!(eval_ok("( 2 + 3 ) * 4"), 20);
}

#[test]
fn modulo_binds_loosest() {
    assert_eq!(eval_ok("4 + 6 % 2"), 0);
}

#[test]
fn reevaluation_of_one_tree_is_stable() {
    let expr = parse(lex("( 2 + 3 ) * 4 - 1")).unwrap();
    let first = evaluate(&expr);
    let second = evaluate(&expr);
    assert_eq!(first, Ok(19));
    assert_eq!(second, Ok(19));
}

#[test]
fn negative_literal() {
    assert_eq!(eval_ok("-5 + 3"), -2);
}

#[test]
fn plus_signed_literal() {
    assert_eq!(eval_ok("+5 - 1"), 4);
}

#[test]
fn minus_operator_before_negative_literal() {
    assert_eq!(eval_ok("5 - -3"), 8);
}

#[test]
fn smallest_i32_literal() {
    assert_eq!(eval_ok("-2147483648 + 0"), i32::MIN);
}

#[test]
fn literal_above_i32_range_is_unknown() {
    assert!(matches!(
        parse_err("2147483648"),
        SyntaxError::UnknownSymbol(s) if s == "2147483648"
    ));
}

#[test]
fn literal_below_i32_range_is_unknown() {
    assert!(matches!(
        parse_err("-2147483649"),
        SyntaxError::UnknownSymbol(s) if s == "-2147483649"
    ));
}

#[test]
fn addition_wraps() {
    assert_eq!(eval_ok("2147483647 + 1"), i32::MIN);
}

#[test]
fn multiplication_wraps() {
    assert_eq!(eval_ok("65536 * 65536"), 0);
}

#[test]
fn division_truncates_toward_zero() {
    assert_eq!(eval_ok("-7 / 2"), -3);
    assert_eq!(eval_ok("7 / -2"), -3);
}

#[test]
fn remainder_takes_sign_of_dividend() {
    assert_eq!(eval_ok("-7 % 2"), -1);
    assert_eq!(eval_ok("7 % -2"), 1);
}

#[test]
fn division_overflow_wraps() {
    assert_eq!(eval_ok("-2147483648 / -1"), i32::MIN);
}

#[test]
fn remainder_overflow_is_zero() {
    assert_eq!(eval_ok("-2147483648 % -1"), 0);
}

#[test]
fn zero_exponent_yields_one() {
    assert_eq!(eval_ok("2 ^ 0"), 1);
    assert_eq!(eval_ok("0 ^ 0"), 1);
}

#[test]
fn negative_exponent_fails() {
    assert_eq!(eval_err("2 ^ -1"), EvalError::NegativeExponent);
}

#[test]
fn pow_wraps() {
    assert_eq!(eval_ok("2 ^ 32"), 0);
}

#[test]
fn divisor_error_reported_before_dividend() {
    assert_eq!(eval_err("1 / 0 / 0"), EvalError::DivisionByZero);
}

#[test]
fn consecutive_operators_are_a_general_error() {
    assert!(matches!(parse_err("1 + + 2"), SyntaxError::GeneralError));
}

#[test]
fn trailing_operator_is_a_general_error() {
    assert!(matches!(parse_err("1 +"), SyntaxError::GeneralError));
}

#[test]
fn unclosed_paren_with_body_is_mismatched() {
    assert!(matches!(parse_err("( 1 + 2"), SyntaxError::MismatchedParentheses));
}

#[test]
fn empty_parens_are_a_general_error() {
    assert!(matches!(parse_err("( )"), SyntaxError::GeneralError));
}

#[test]
fn repeated_spaces_separate_tokens() {
    assert_eq!(eval_ok("1  +  2"), 3);
}

#[test]
fn glued_digits_and_letters_are_unknown() {
    assert!(matches!(parse_err("1 + 2a"), SyntaxError::UnknownSymbol(s) if s == "2a"));
}

#[test]
fn lone_sign_is_an_operator_not_a_literal() {
    assert!(matches!(parse_err("-"), SyntaxError::GeneralError));
}

#[test]
fn nested_parens() {
    assert_eq!(eval_ok("( ( 1 + 2 ) * ( 3 + 4 ) )"), 21);
}

#[test]
fn single_number_in_parens() {
    assert_eq!(eval_ok("( 1 )"), 1);
}

#[test]
fn adjacent_groups_without_operator_are_a_general_error() {
    assert!(matches!(parse_err("( 1 + 2 ) ( 3 + 4 )"), SyntaxError::GeneralError));
}
