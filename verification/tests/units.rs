//! Tests of the pipeline's stages taken one at a time.

use interp::ast::{Op, SyntaxError, Token};
use interp::eval::evaluate;
use interp::lexer::lex;
use interp::parser::{construct_expr, parse};

#[test]
fn construct_expr_builds_a_binary_node() {
    let node = construct_expr(
        Some(Token::Operator(Op::Plus)),
        interp::ast::Expr::Number(2),
        interp::ast::Expr::Number(3),
    );
    let expr = match node {
        Ok(e) => e,
        Err(_) => panic!("expected a node"),
    };
    assert_eq!(evaluate(&expr), Ok(5));
}

#[test]
fn construct_expr_without_token_is_a_general_error() {
    let r = construct_expr(None, interp::ast::Expr::Number(1), interp::ast::Expr::Number(2));
    assert!(matches!(r, Err(SyntaxError::GeneralError)));
}

#[test]
fn construct_expr_on_a_paren_is_a_general_error() {
    let r = construct_expr(
        Some(Token::LParen),
        interp::ast::Expr::Number(1),
        interp::ast::Expr::Number(2),
    );
    assert!(matches!(r, Err(SyntaxError::GeneralError)));
}

#[test]
fn construct_expr_on_a_lexical_error_reports_its_text() {
    let r = construct_expr(
        Some(Token::LexicalError(String::from("?!"))),
        interp::ast::Expr::Number(1),
        interp::ast::Expr::Number(2),
    );
    assert!(matches!(r, Err(SyntaxError::UnknownSymbol(s)) if s == "?!"));
}

#[test]
fn lexer_defers_unknown_chunks() {
    let tokens = lex("1 ~ 2");
    assert_eq!(tokens.len(), 3);
    assert!(matches!(&tokens[1], Token::LexicalError(s) if s == "~"));
}

#[test]
fn lexer_of_empty_line_yields_no_tokens() {
    assert_eq!(lex("").len(), 0);
    assert_eq!(lex("    ").len(), 0);
}

#[test]
fn lexer_recognizes_all_symbols() {
    let tokens = lex("( 1 + 2 - 3 * 4 / 5 % 6 ^ 7 )");
    assert_eq!(tokens.len(), 15);
    assert!(matches!(tokens[0], Token::LParen));
    assert!(matches!(tokens[2], Token::Operator(Op::Plus)));
    assert!(matches!(tokens[4], Token::Operator(Op::Minus)));
    assert!(matches!(tokens[6], Token::Operator(Op::Times)));
    assert!(matches!(tokens[8], Token::Operator(Op::Divide)));
    assert!(matches!(tokens[10], Token::Operator(Op::Modulo)));
    assert!(matches!(tokens[12], Token::Operator(Op::Pow)));
    assert!(matches!(tokens[14], Token::RParen));
    assert!(matches!(tokens[1], Token::Number(1)));
}

#[test]
fn parser_rejects_the_first_deferred_chunk() {
    let tokens = lex("# + $");
    let r = parse(tokens);
    assert!(matches!(r, Err(SyntaxError::UnknownSymbol(s)) if s == "#"));
}

#[test]
fn parser_accepts_a_single_number() {
    let expr = parse(lex("42")).unwrap();
    assert_eq!(evaluate(&expr), Ok(42));
}
