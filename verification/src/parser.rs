//! The parser: Dijkstra's shunting-yard algorithm over the token sequence.
//!
//! The algorithm keeps an operator stack (operator and `(` tokens) and a true
//! LIFO operand stack of completed sub-expressions. A reduction pops the top
//! operator and the top two operands and pushes one `BinaryOp` node back; the
//! top of the operand stack is the right operand. The model below
//! ([`run_tokens`], [`finish`]) states the algorithm once, for an arbitrary
//! precedence table, and [`parse`] is proved to return exactly its value on
//! the fixed table [`op_table`].

use vstd::prelude::*;

use crate::ast::{
    op_associativity, op_entry, op_precedence, op_table, tokens_model, Assoc, Expr, Op,
    SyntaxError, SyntaxErrorModel, Token, TokenModel,
};

verus! {

/// The parser's state: the operator stack and the operand stack, both with
/// their top at the end of the sequence.
#[verifier::ext_equal]
pub struct ParseState {
    pub ops: Seq<TokenModel>,
    pub vals: Seq<Expr>,
}

/// One step of the parser: either a new state or the error that stops it.
#[verifier::ext_equal]
pub enum ParseStep {
    Next(ParseState),
    Fail(SyntaxErrorModel),
}

/// The state both stacks start from.
pub open spec fn init_state() -> ParseState {
    ParseState { ops: Seq::empty(), vals: Seq::empty() }
}

/// The state whose stacks are modeled by the given vectors' contents.
pub open spec fn state_of(ops: Seq<Token>, vals: Seq<Expr>) -> ParseState {
    ParseState { ops: tokens_model(ops), vals: vals }
}

/// What one reduction builds from a popped stack token and the two topmost
/// operands: a `BinaryOp` node for a real operator, `UnknownSymbol` for a
/// deferred lexical error, and `GeneralError` for anything else.
pub open spec fn spec_construct(t: TokenModel, l_op: Expr, r_op: Expr) -> Result<
    Expr,
    SyntaxErrorModel,
> {
    match t {
        TokenModel::Operator(k) => Ok(Expr::BinaryOp(k, Box::new(l_op), Box::new(r_op))),
        TokenModel::LexicalError(s) => Err(SyntaxErrorModel::UnknownSymbol(s)),
        _ => Err(SyntaxErrorModel::GeneralError),
    }
}

/// The operand stack after one reduction with operator `k`: the two topmost
/// operands are replaced by one node, left operand below the right one.
pub open spec fn reduce_vals(vals: Seq<Expr>, e: Expr) -> Seq<Expr>
    recommends
        vals.len() >= 2,
{
    vals.take(vals.len() - 2).push(e)
}

/// Whether the incoming operator forces the stacked operator to reduce:
/// strictly lower precedence always reduces, equal precedence reduces only
/// for a left-associative incoming operator.
pub open spec fn reduce_cond(table: spec_fn(Op) -> (int, Assoc), incoming: Op, top: Op) -> bool {
    let p1 = table(incoming).0;
    let a1 = table(incoming).1;
    let p2 = table(top).0;
    p1 < p2 || (p1 == p2 && a1 == Assoc::Left)
}

/// Handling of a `)` token: pop and reduce until the matching `(` is found
/// and discarded. An operator stack that empties first, or a reduction forced
/// by the `)` that lacks operands, is a parenthesis mismatch.
pub open spec fn close_paren(st: ParseState) -> ParseStep
    decreases st.ops.len(),
{
    if st.ops.len() == 0 {
        ParseStep::Fail(SyntaxErrorModel::MismatchedParentheses)
    } else {
        match st.ops.last() {
            TokenModel::LParen => ParseStep::Next(
                ParseState { ops: st.ops.drop_last(), vals: st.vals },
            ),
            t => {
                if st.vals.len() < 2 {
                    ParseStep::Fail(SyntaxErrorModel::MismatchedParentheses)
                } else {
                    match spec_construct(t, st.vals[st.vals.len() - 2], st.vals[st.vals.len() - 1]) {
                        Ok(e) => close_paren(
                            ParseState {
                                ops: st.ops.drop_last(),
                                vals: reduce_vals(st.vals, e),
                            },
                        ),
                        Err(er) => ParseStep::Fail(er),
                    }
                }
            },
        }
    }
}

/// Handling of a real operator token: reduce stacked operators while
/// [`reduce_cond`] holds, stop at a `(` or a non-reducible operator, then
/// push the incoming operator. The table is never consulted when the stack
/// is empty or `(` is on top.
pub open spec fn shunt_op(table: spec_fn(Op) -> (int, Assoc), st: ParseState, op: Op) -> ParseStep
    decreases st.ops.len(),
{
    if st.ops.len() == 0 {
        ParseStep::Next(ParseState { ops: st.ops.push(TokenModel::Operator(op)), vals: st.vals })
    } else {
        match st.ops.last() {
            TokenModel::LParen => ParseStep::Next(
                ParseState { ops: st.ops.push(TokenModel::Operator(op)), vals: st.vals },
            ),
            TokenModel::Operator(top) => {
                if reduce_cond(table, op, top) {
                    if st.vals.len() < 2 {
                        ParseStep::Fail(SyntaxErrorModel::GeneralError)
                    } else {
                        match spec_construct(
                            TokenModel::Operator(top),
                            st.vals[st.vals.len() - 2],
                            st.vals[st.vals.len() - 1],
                        ) {
                            Ok(e) => shunt_op(
                                table,
                                ParseState {
                                    ops: st.ops.drop_last(),
                                    vals: reduce_vals(st.vals, e),
                                },
                                op,
                            ),
                            Err(er) => ParseStep::Fail(er),
                        }
                    }
                } else {
                    ParseStep::Next(
                        ParseState { ops: st.ops.push(TokenModel::Operator(op)), vals: st.vals },
                    )
                }
            },
            _ => ParseStep::Fail(SyntaxErrorModel::GeneralError),
        }
    }
}

/// What one input token does to the parser's state.
pub open spec fn apply_token(
    table: spec_fn(Op) -> (int, Assoc),
    st: ParseState,
    t: TokenModel,
) -> ParseStep {
    match t {
        TokenModel::LexicalError(s) => ParseStep::Fail(SyntaxErrorModel::UnknownSymbol(s)),
        TokenModel::Number(n) => ParseStep::Next(
            ParseState { ops: st.ops, vals: st.vals.push(Expr::Number(n)) },
        ),
        TokenModel::LParen => ParseStep::Next(
            ParseState { ops: st.ops.push(TokenModel::LParen), vals: st.vals },
        ),
        TokenModel::RParen => close_paren(st),
        TokenModel::Operator(k) => shunt_op(table, st, k),
    }
}

/// The state after consuming the whole token sequence in order, or the first
/// error on the way.
pub open spec fn run_tokens(
    table: spec_fn(Op) -> (int, Assoc),
    st: ParseState,
    ts: Seq<TokenModel>,
) -> ParseStep
    decreases ts.len(),
{
    if ts.len() == 0 {
        ParseStep::Next(st)
    } else {
        match apply_token(table, st, ts[0]) {
            ParseStep::Next(st2) => run_tokens(table, st2, ts.drop_first()),
            ParseStep::Fail(er) => ParseStep::Fail(er),
        }
    }
}

/// The final stage, after all tokens are consumed: pop and reduce the
/// operator stack until empty. A leftover parenthesis is a mismatch; a
/// reduction without two operands is a general error; exactly one operand
/// must remain.
pub open spec fn finish(st: ParseState) -> Result<Expr, SyntaxErrorModel>
    decreases st.ops.len(),
{
    if st.ops.len() == 0 {
        if st.vals.len() == 1 {
            Ok(st.vals[0])
        } else {
            Err(SyntaxErrorModel::GeneralError)
        }
    } else {
        match st.ops.last() {
            TokenModel::LParen => Err(SyntaxErrorModel::MismatchedParentheses),
            TokenModel::RParen => Err(SyntaxErrorModel::MismatchedParentheses),
            t => {
                if st.vals.len() < 2 {
                    Err(SyntaxErrorModel::GeneralError)
                } else {
                    match spec_construct(t, st.vals[st.vals.len() - 2], st.vals[st.vals.len() - 1]) {
                        Ok(e) => finish(
                            ParseState {
                                ops: st.ops.drop_last(),
                                vals: reduce_vals(st.vals, e),
                            },
                        ),
                        Err(er) => Err(er),
                    }
                }
            },
        }
    }
}

/// What parsing a token sequence yields, for an arbitrary precedence table.
pub open spec fn spec_parse_with(
    table: spec_fn(Op) -> (int, Assoc),
    ts: Seq<TokenModel>,
) -> Result<Expr, SyntaxErrorModel> {
    match run_tokens(table, init_state(), ts) {
        ParseStep::Next(st) => finish(st),
        ParseStep::Fail(er) => Err(er),
    }
}

/// What parsing a token sequence yields with the fixed table of the language.
pub open spec fn spec_parse(ts: Seq<TokenModel>) -> Result<Expr, SyntaxErrorModel> {
    spec_parse_with(op_table(), ts)
}

/// The model of an executable parse result.
pub open spec fn result_model(r: Result<Expr, SyntaxError>) -> Result<Expr, SyntaxErrorModel> {
    match r {
        Ok(e) => Ok(e),
        Err(er) => Err(er@),
    }
}

/// Consuming a sequence extended by one token runs the sequence, then the
/// token.
pub proof fn lemma_run_tokens_push(
    table: spec_fn(Op) -> (int, Assoc),
    st: ParseState,
    ts: Seq<TokenModel>,
    t: TokenModel,
)
    ensures
        run_tokens(table, st, ts.push(t)) == (match run_tokens(table, st, ts) {
            ParseStep::Next(st2) => apply_token(table, st2, t),
            ParseStep::Fail(er) => ParseStep::Fail(er),
        }),
    decreases ts.len(),
{
    if ts.len() == 0 {
        assert(ts.push(t)[0] == t);
        assert(ts.push(t).drop_first() =~= Seq::<TokenModel>::empty());
        match apply_token(table, st, t) {
            ParseStep::Next(st2) => {
                assert(run_tokens(table, st2, Seq::<TokenModel>::empty()) == ParseStep::Next(st2));
            },
            ParseStep::Fail(_) => {},
        }
    } else {
        assert(ts.push(t)[0] == ts[0]);
        assert(ts.push(t).drop_first() =~= ts.drop_first().push(t));
        match apply_token(table, st, ts[0]) {
            ParseStep::Next(st2) => {
                lemma_run_tokens_push(table, st2, ts.drop_first(), t);
            },
            ParseStep::Fail(_) => {},
        }
    }
}

/// Consuming a concatenation runs the first part, then the second.
pub proof fn lemma_run_tokens_concat(
    table: spec_fn(Op) -> (int, Assoc),
    st: ParseState,
    ts1: Seq<TokenModel>,
    ts2: Seq<TokenModel>,
)
    ensures
        run_tokens(table, st, ts1 + ts2) == (match run_tokens(table, st, ts1) {
            ParseStep::Next(st2) => run_tokens(table, st2, ts2),
            ParseStep::Fail(er) => ParseStep::Fail(er),
        }),
    decreases ts1.len(),
{
    if ts1.len() == 0 {
        assert(ts1 + ts2 =~= ts2);
    } else {
        assert((ts1 + ts2)[0] == ts1[0]);
        assert((ts1 + ts2).drop_first() =~= ts1.drop_first() + ts2);
        match apply_token(table, st, ts1[0]) {
            ParseStep::Next(st2) => {
                lemma_run_tokens_concat(table, st2, ts1.drop_first(), ts2);
            },
            ParseStep::Fail(_) => {},
        }
    }
}

/// A failure on a prefix of the sequence is the failure of the whole run.
pub proof fn lemma_run_tokens_fail_prefix(
    table: spec_fn(Op) -> (int, Assoc),
    st: ParseState,
    ts: Seq<TokenModel>,
    i: int,
    er: SyntaxErrorModel,
)
    requires
        0 <= i <= ts.len(),
        run_tokens(table, st, ts.take(i)) == ParseStep::Fail(er),
    ensures
        run_tokens(table, st, ts) == ParseStep::Fail(er),
{
    assert(ts =~= ts.take(i) + ts.skip(i));
    lemma_run_tokens_concat(table, st, ts.take(i), ts.skip(i));
}

/// Builds one `BinaryOp` node from a popped operator-stack token and the two
/// operands of a reduction, or reports why it cannot: `UnknownSymbol` for a
/// deferred lexical error, `GeneralError` for a missing or non-operator
/// token.
pub fn construct_expr(token: Option<Token>, l_op: Expr, r_op: Expr) -> (r: Result<
    Expr,
    SyntaxError,
>)
    ensures
        match token {
            Some(t) => result_model(r) == spec_construct(t@, l_op, r_op),
            None => result_model(r) == Err::<Expr, SyntaxErrorModel>(
                SyntaxErrorModel::GeneralError,
            ),
        },
{
    match token {
        Some(Token::Operator(k)) => Ok(Expr::BinaryOp(k, Box::new(l_op), Box::new(r_op))),
        Some(Token::LexicalError(s)) => Err(SyntaxError::UnknownSymbol(s)),
        _ => Err(SyntaxError::GeneralError),
    }
}

/// Executable counterpart of [`reduce_cond`] on the fixed table.
fn should_reduce(incoming: Op, top: Op) -> (b: bool)
    ensures
        b == reduce_cond(op_table(), incoming, top),
{
    let p1 = op_precedence(incoming);
    let p2 = op_precedence(top);
    let reduces = p1 < p2 || (p1 == p2 && matches!(op_associativity(incoming), Assoc::Left));
    proof {
        assert(op_table()(incoming) == op_entry(incoming));
        assert(op_table()(top) == op_entry(top));
    }
    reduces
}

/// Executable counterpart of one reduction: pops the two topmost operands
/// and the top operator-stack token, and pushes the built node.
fn reduce_once(ops: &mut Vec<Token>, vals: &mut Vec<Expr>) -> (r: Result<(), SyntaxError>)
    requires
        old(ops)@.len() >= 1,
        old(vals)@.len() >= 2,
    ensures
        match r {
            Ok(_) => {
                &&& final(ops)@ == old(ops)@.drop_last()
                &&& spec_construct(
                    old(ops)@.last()@,
                    old(vals)@[old(vals)@.len() - 2],
                    old(vals)@[old(vals)@.len() - 1],
                ) matches Ok(e) && final(vals)@ == reduce_vals(old(vals)@, e)
            },
            Err(er) => {
                &&& spec_construct(
                    old(ops)@.last()@,
                    old(vals)@[old(vals)@.len() - 2],
                    old(vals)@[old(vals)@.len() - 1],
                ) == Err::<Expr, SyntaxErrorModel>(er@)
            },
        },
{
    let r_op = vals.pop().unwrap();
    let l_op = vals.pop().unwrap();
    let top = ops.pop();
    proof {
        assert(vals@ =~= old(vals)@.take(old(vals)@.len() - 2));
        assert(ops@ =~= old(ops)@.drop_last());
    }
    match construct_expr(top, l_op, r_op) {
        Ok(e) => {
            vals.push(e);
            Ok(())
        },
        Err(er) => Err(er),
    }
}

/// Executable counterpart of [`close_paren`] on the two stacks.
fn close_paren_exec(ops: &mut Vec<Token>, vals: &mut Vec<Expr>) -> (r: Result<(), SyntaxError>)
    ensures
        match r {
            Ok(_) => close_paren(state_of(old(ops)@, old(vals)@)) == ParseStep::Next(
                state_of(final(ops)@, final(vals)@),
            ),
            Err(er) => close_paren(state_of(old(ops)@, old(vals)@)) == ParseStep::Fail(er@),
        },
{
    let mut done = false;
    while !done
        invariant
            done ==> close_paren(state_of(old(ops)@, old(vals)@)) == ParseStep::Next(
                state_of(ops@, vals@),
            ),
            !done ==> close_paren(state_of(old(ops)@, old(vals)@)) == close_paren(
                state_of(ops@, vals@),
            ),
        decreases (if done { 0int } else { ops@.len() as int + 2 }),
    {
        let ghost st = state_of(ops@, vals@);
        if ops.len() == 0 {
            return Err(SyntaxError::MismatchedParentheses);
        }
        let is_lparen = matches!(&ops[ops.len() - 1], Token::LParen);
        proof {
            assert(st.ops.last() == ops@.last()@);
        }
        if is_lparen {
            ops.pop();
            proof {
                assert(tokens_model(ops@) =~= st.ops.drop_last());
            }
            done = true;
        } else {
            if vals.len() < 2 {
                return Err(SyntaxError::MismatchedParentheses);
            }
            match reduce_once(ops, vals) {
                Ok(_) => {
                    proof {
                        assert(tokens_model(ops@) =~= st.ops.drop_last());
                    }
                },
                Err(er) => {
                    return Err(er);
                },
            }
        }
    }
    Ok(())
}

/// Executable counterpart of [`shunt_op`] on the two stacks.
fn shunt_op_exec(ops: &mut Vec<Token>, vals: &mut Vec<Expr>, op: Op) -> (r: Result<
    (),
    SyntaxError,
>)
    ensures
        match r {
            Ok(_) => shunt_op(op_table(), state_of(old(ops)@, old(vals)@), op) == ParseStep::Next(
                state_of(final(ops)@, final(vals)@),
            ),
            Err(er) => shunt_op(op_table(), state_of(old(ops)@, old(vals)@), op)
                == ParseStep::Fail(er@),
        },
{
    let mut done = false;
    while !done
        invariant
            done ==> shunt_op(op_table(), state_of(old(ops)@, old(vals)@), op) == ParseStep::Next(
                state_of(ops@, vals@),
            ),
            !done ==> shunt_op(op_table(), state_of(old(ops)@, old(vals)@), op) == shunt_op(
                op_table(),
                state_of(ops@, vals@),
                op,
            ),
        decreases (if done { 0int } else { ops@.len() as int + 2 }),
    {
        let ghost st = state_of(ops@, vals@);
        if ops.len() == 0 {
            ops.push(Token::Operator(op));
            proof {
                assert(tokens_model(ops@) =~= st.ops.push(TokenModel::Operator(op)));
            }
            done = true;
        } else {
            proof {
                assert(st.ops.last() == ops@.last()@);
            }
            match &ops[ops.len() - 1] {
                Token::LParen => {
                    ops.push(Token::Operator(op));
                    proof {
                        assert(tokens_model(ops@) =~= st.ops.push(TokenModel::Operator(op)));
                    }
                    done = true;
                },
                Token::Operator(top) => {
                    if should_reduce(op, *top) {
                        if vals.len() < 2 {
                            return Err(SyntaxError::GeneralError);
                        }
                        match reduce_once(ops, vals) {
                            Ok(_) => {
                                proof {
                                    assert(tokens_model(ops@) =~= st.ops.drop_last());
                                }
                            },
                            Err(er) => {
                                return Err(er);
                            },
                        }
                    } else {
                        ops.push(Token::Operator(op));
                        proof {
                            assert(tokens_model(ops@) =~= st.ops.push(TokenModel::Operator(op)));
                        }
                        done = true;
                    }
                },
                _ => {
                    return Err(SyntaxError::GeneralError);
                },
            }
        }
    }
    Ok(())
}

/// Executable counterpart of [`finish`] on the two stacks.
fn finish_exec(ops: &mut Vec<Token>, vals: &mut Vec<Expr>) -> (r: Result<Expr, SyntaxError>)
    ensures
        result_model(r) == finish(state_of(old(ops)@, old(vals)@)),
{
    while ops.len() != 0
        invariant
            finish(state_of(old(ops)@, old(vals)@)) == finish(state_of(ops@, vals@)),
        decreases ops@.len(),
    {
        let ghost st = state_of(ops@, vals@);
        proof {
            assert(st.ops.last() == ops@.last()@);
        }
        let is_paren = matches!(&ops[ops.len() - 1], Token::LParen | Token::RParen);
        if is_paren {
            return Err(SyntaxError::MismatchedParentheses);
        }
        if vals.len() < 2 {
            return Err(SyntaxError::GeneralError);
        }
        match reduce_once(ops, vals) {
            Ok(_) => {
                proof {
                    assert(tokens_model(ops@) =~= st.ops.drop_last());
                }
            },
            Err(er) => {
                return Err(er);
            },
        }
    }
    if vals.len() != 1 {
        return Err(SyntaxError::GeneralError);
    }
    let e = vals.pop().unwrap();
    Ok(e)
}

/// Parses a token sequence into an expression tree with the shunting-yard
/// algorithm over the fixed precedence table.
///
/// The result is exactly [`spec_parse`] of the tokens' model: the tree the
/// algorithm of this module's model builds, or the first error it reports.
pub fn parse(tokens: Vec<Token>) -> (r: Result<Expr, SyntaxError>)
    ensures
        result_model(r) == spec_parse(tokens_model(tokens@)),
{
    let ghost toks = tokens_model(tokens@);
    let mut ops: Vec<Token> = Vec::new();
    let mut vals: Vec<Expr> = Vec::new();
    let mut i: usize = 0;
    proof {
        assert(toks.take(0) =~= Seq::<TokenModel>::empty());
        assert(state_of(ops@, vals@) =~= init_state());
    }
    while i < tokens.len()
        invariant
            i <= tokens@.len(),
            toks == tokens_model(tokens@),
            run_tokens(op_table(), init_state(), toks.take(i as int)) == ParseStep::Next(
                state_of(ops@, vals@),
            ),
        decreases tokens@.len() - i,
    {
        let ghost st = state_of(ops@, vals@);
        proof {
            lemma_run_tokens_push(op_table(), init_state(), toks.take(i as int), toks[i as int]);
            assert(toks.take(i + 1) =~= toks.take(i as int).push(toks[i as int]));
            assert(toks[i as int] == tokens@[i as int]@);
        }
        match &tokens[i] {
            Token::LexicalError(s) => {
                proof {
                    lemma_run_tokens_fail_prefix(
                        op_table(),
                        init_state(),
                        toks,
                        i + 1,
                        SyntaxErrorModel::UnknownSymbol(s@),
                    );
                }
                return Err(SyntaxError::UnknownSymbol(s.clone()));
            },
            Token::Number(n) => {
                vals.push(Expr::Number(*n));
                proof {
                    assert(state_of(ops@, vals@) =~= ParseState {
                        ops: st.ops,
                        vals: st.vals.push(Expr::Number(*n)),
                    });
                }
            },
            Token::LParen => {
                ops.push(Token::LParen);
                proof {
                    assert(tokens_model(ops@) =~= st.ops.push(TokenModel::LParen));
                }
            },
            Token::RParen => {
                match close_paren_exec(&mut ops, &mut vals) {
                    Ok(_) => {},
                    Err(er) => {
                        proof {
                            lemma_run_tokens_fail_prefix(
                                op_table(),
                                init_state(),
                                toks,
                                i + 1,
                                er@,
                            );
                        }
                        return Err(er);
                    },
                }
            },
            Token::Operator(k) => {
                match shunt_op_exec(&mut ops, &mut vals, *k) {
                    Ok(_) => {},
                    Err(er) => {
                        proof {
                            lemma_run_tokens_fail_prefix(
                                op_table(),
                                init_state(),
                                toks,
                                i + 1,
                                er@,
                            );
                        }
                        return Err(er);
                    },
                }
            },
        }
        i = i + 1;
    }
    proof {
        assert(toks.take(tokens@.len() as int) =~= toks);
    }
    finish_exec(&mut ops, &mut vals)
}

} // verus!
