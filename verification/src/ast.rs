//! The shared data model: tokens, expression trees, errors, and the
//! operator-precedence table.

use vstd::prelude::*;

verus! {

/// The six binary operators of the language.
#[derive(Clone, Copy, PartialEq, Eq, Hash, Structural, Debug)]
pub enum Op {
    Pow,
    Plus,
    Minus,
    Times,
    Divide,
    Modulo,
}

/// Grouping direction for operators of equal precedence.
#[derive(Clone, Copy, PartialEq, Eq, Structural, Debug)]
pub enum Assoc {
    Left,
    Right,
}

/// One whitespace-delimited token of the input line.
///
/// A chunk that is neither a recognized symbol nor an integer literal is
/// deferred as `LexicalError` rather than failing the lexer, so that the
/// parser can report the first offending chunk. Equality and hashing are
/// structural: a token is nothing but its value.
#[derive(PartialEq, Eq, Hash, Debug)]
pub enum Token {
    Number(i32),
    Operator(Op),
    LParen,
    RParen,
    LexicalError(String),
}

/// Mathematical model of a [`Token`]: the lexeme of a `LexicalError` is a
/// sequence of characters instead of a `String`.
pub enum TokenModel {
    Number(i32),
    Operator(Op),
    LParen,
    RParen,
    LexicalError(Seq<char>),
}

impl View for Token {
    type V = TokenModel;

    open spec fn view(&self) -> TokenModel {
        match self {
            Token::Number(n) => TokenModel::Number(*n),
            Token::Operator(k) => TokenModel::Operator(*k),
            Token::LParen => TokenModel::LParen,
            Token::RParen => TokenModel::RParen,
            Token::LexicalError(s) => TokenModel::LexicalError(s@),
        }
    }
}

/// The models of a sequence of tokens, element by element.
pub open spec fn tokens_model(s: Seq<Token>) -> Seq<TokenModel> {
    s.map_values(|t: Token| t@)
}

/// A well-formed expression tree. Each node exclusively owns its children.
pub enum Expr {
    Number(i32),
    BinaryOp(Op, Box<Expr>, Box<Expr>),
}

/// A parse-time error.
///
/// `UnknownSymbol` carries the offending chunk; `MismatchedParentheses`
/// covers unbalanced `(` or `)`; `GeneralError` covers a structurally
/// invalid token stream (wrong operand count, empty input).
#[derive(Debug)]
pub enum SyntaxError {
    UnknownSymbol(String),
    MismatchedParentheses,
    GeneralError,
}

/// Mathematical model of a [`SyntaxError`], with the offending chunk as a
/// sequence of characters.
pub enum SyntaxErrorModel {
    UnknownSymbol(Seq<char>),
    MismatchedParentheses,
    GeneralError,
}

impl View for SyntaxError {
    type V = SyntaxErrorModel;

    open spec fn view(&self) -> SyntaxErrorModel {
        match self {
            SyntaxError::UnknownSymbol(s) => SyntaxErrorModel::UnknownSymbol(s@),
            SyntaxError::MismatchedParentheses => SyntaxErrorModel::MismatchedParentheses,
            SyntaxError::GeneralError => SyntaxErrorModel::GeneralError,
        }
    }
}

/// An evaluation-time error.
///
/// `DivisionByZero` covers `/` and `%` with a zero right operand.
/// `NegativeExponent` is this crate's documented choice for `^` with a
/// negative right operand: integer exponentiation is left undefined there,
/// so it fails explicitly instead of coercing the exponent.
#[derive(Clone, Copy, PartialEq, Eq, Structural, Debug)]
pub enum EvalError {
    DivisionByZero,
    NegativeExponent,
}

/// The fixed precedence table: precedence (higher binds tighter) and
/// associativity of each real operator. Parentheses are deliberately not in
/// this table; they are matched structurally and never compared for
/// precedence against real operators.
pub open spec fn op_entry(op: Op) -> (int, Assoc) {
    match op {
        Op::Pow => (4, Assoc::Right),
        Op::Times => (3, Assoc::Left),
        Op::Divide => (3, Assoc::Left),
        Op::Plus => (2, Assoc::Left),
        Op::Minus => (2, Assoc::Left),
        Op::Modulo => (1, Assoc::Left),
    }
}

/// The precedence table as a function value, so that the parser's model can
/// be stated for an arbitrary table and instantiated with this one.
pub open spec fn op_table() -> spec_fn(Op) -> (int, Assoc) {
    |op: Op| op_entry(op)
}

/// Precedence of `op` in the fixed table.
pub fn op_precedence(op: Op) -> (p: u32)
    ensures
        p as int == op_entry(op).0,
{
    match op {
        Op::Pow => 4,
        Op::Times => 3,
        Op::Divide => 3,
        Op::Plus => 2,
        Op::Minus => 2,
        Op::Modulo => 1,
    }
}

/// Associativity of `op` in the fixed table.
pub fn op_associativity(op: Op) -> (a: Assoc)
    ensures
        a == op_entry(op).1,
{
    match op {
        Op::Pow => Assoc::Right,
        Op::Times => Assoc::Left,
        Op::Divide => Assoc::Left,
        Op::Plus => Assoc::Left,
        Op::Minus => Assoc::Left,
        Op::Modulo => Assoc::Left,
    }
}

} // verus!
