//! An infix arithmetic expression interpreter core.
//!
//! A line of input is split into whitespace-separated tokens ([`lexer::lex`]),
//! turned into an expression tree with the shunting-yard algorithm
//! ([`parser::parse`]), and evaluated to a single `i32` ([`eval::evaluate`]).
//! Errors are values throughout: the lexer defers unknown chunks as
//! [`ast::Token::LexicalError`], the parser classifies malformed input as an
//! [`ast::SyntaxError`], and the evaluator reports an [`ast::EvalError`].
//! The surrounding read-print shell is not part of this crate.

pub mod ast;
pub mod eval;
pub mod laws;
pub mod lexer;
pub mod parser;
