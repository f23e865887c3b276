//! Laws of the parser that relate several functions: a fully parenthesized
//! expression parses back to itself, under every precedence table, so
//! parentheses always win over precedence; and on an unparenthesized chain of
//! two operators the grouping follows precedence and associativity alone.

use vstd::prelude::*;

use crate::ast::{op_entry, op_table, Assoc, Expr, Op, SyntaxErrorModel, TokenModel};
use crate::parser::{
    apply_token, close_paren, finish, init_state, lemma_run_tokens_concat, reduce_cond,
    reduce_vals, run_tokens, shunt_op, spec_construct, spec_parse, spec_parse_with, ParseState,
    ParseStep,
};

verus! {

/// The fully parenthesized rendering of an expression tree: every `BinaryOp`
/// node is wrapped in its own pair of parentheses.
pub open spec fn paren_tokens(e: Expr) -> Seq<TokenModel>
    decreases e,
{
    match e {
        Expr::Number(n) => seq![TokenModel::Number(n)],
        Expr::BinaryOp(k, l, r) => seq![TokenModel::LParen] + paren_tokens(*l) + seq![
            TokenModel::Operator(k),
        ] + paren_tokens(*r) + seq![TokenModel::RParen],
    }
}

/// Consuming a single token is one application of [`apply_token`].
proof fn lemma_run_single(table: spec_fn(Op) -> (int, Assoc), st: ParseState, t: TokenModel)
    ensures
        run_tokens(table, st, seq![t]) == apply_token(table, st, t),
{
    assert(seq![t][0] == t);
    assert(seq![t].drop_first() =~= Seq::<TokenModel>::empty());
    match apply_token(table, st, t) {
        ParseStep::Next(st2) => {
            assert(run_tokens(table, st2, Seq::<TokenModel>::empty()) == ParseStep::Next(st2));
        },
        ParseStep::Fail(_) => {},
    }
}

/// Consuming the fully parenthesized rendering of a tree, from any state and
/// under any precedence table, pushes exactly that tree onto the operand
/// stack and leaves the operator stack as it was. The table is never
/// consulted: every operator is pushed over its own `(`.
pub proof fn lemma_run_paren_tokens(table: spec_fn(Op) -> (int, Assoc), st: ParseState, e: Expr)
    ensures
        run_tokens(table, st, paren_tokens(e)) == ParseStep::Next(
            ParseState { ops: st.ops, vals: st.vals.push(e) },
        ),
    decreases e,
{
    match e {
        Expr::Number(n) => {
            lemma_run_single(table, st, TokenModel::Number(n));
        },
        Expr::BinaryOp(k, l, r) => {
            let sa = seq![TokenModel::LParen];
            let sb = seq![TokenModel::Operator(k)];
            let sc = seq![TokenModel::RParen];
            let tl = paren_tokens(*l);
            let tr = paren_tokens(*r);
            let st1 = ParseState { ops: st.ops.push(TokenModel::LParen), vals: st.vals };
            let st2 = ParseState { ops: st1.ops, vals: st1.vals.push(*l) };
            let st3 = ParseState { ops: st2.ops.push(TokenModel::Operator(k)), vals: st2.vals };
            let st4 = ParseState { ops: st3.ops, vals: st3.vals.push(*r) };
            lemma_run_single(table, st, TokenModel::LParen);
            assert(run_tokens(table, st, sa) == ParseStep::Next(st1));
            lemma_run_paren_tokens(table, st1, *l);
            lemma_run_tokens_concat(table, st, sa, tl);
            assert(run_tokens(table, st, sa + tl) == ParseStep::Next(st2));
            lemma_run_single(table, st2, TokenModel::Operator(k));
            assert(st2.ops.last() == TokenModel::LParen);
            assert(shunt_op(table, st2, k) == ParseStep::Next(st3));
            lemma_run_tokens_concat(table, st, sa + tl, sb);
            assert(run_tokens(table, st, (sa + tl) + sb) == ParseStep::Next(st3));
            lemma_run_paren_tokens(table, st3, *r);
            lemma_run_tokens_concat(table, st, (sa + tl) + sb, tr);
            assert(run_tokens(table, st, ((sa + tl) + sb) + tr) == ParseStep::Next(st4));
            lemma_run_single(table, st4, TokenModel::RParen);
            assert(st4.ops.last() == TokenModel::Operator(k));
            assert(st4.vals.len() >= 2);
            assert(st4.vals[st4.vals.len() - 2] == *l);
            assert(st4.vals[st4.vals.len() - 1] == *r);
            assert(spec_construct(TokenModel::Operator(k), *l, *r) == Ok::<
                Expr,
                SyntaxErrorModel,
            >(e));
            let st5 = ParseState { ops: st4.ops.drop_last(), vals: reduce_vals(st4.vals, e) };
            assert(close_paren(st4) == close_paren(st5));
            assert(st5.ops.len() > 0 && st5.ops.last() == TokenModel::LParen) by {
                assert(st5.ops =~= st.ops.push(TokenModel::LParen));
            }
            assert(st5.ops.drop_last() =~= st.ops);
            assert(st5.vals =~= st.vals.push(e));
            assert(close_paren(st5) == ParseStep::Next(
                ParseState { ops: st.ops, vals: st.vals.push(e) },
            ));
            lemma_run_tokens_concat(table, st, ((sa + tl) + sb) + tr, sc);
            assert(paren_tokens(e) == (((sa + tl) + sb) + tr) + sc);
        },
    }
}

/// Round trip: parsing the fully parenthesized rendering of any tree yields
/// exactly that tree, under any precedence table.
pub proof fn lemma_paren_round_trip(table: spec_fn(Op) -> (int, Assoc), e: Expr)
    ensures
        spec_parse_with(table, paren_tokens(e)) == Ok::<Expr, SyntaxErrorModel>(e),
{
    lemma_run_paren_tokens(table, init_state(), e);
    let fin = ParseState { ops: init_state().ops, vals: init_state().vals.push(e) };
    assert(fin.ops.len() == 0);
    assert(fin.vals.len() == 1);
    assert(fin.vals[0] == e);
}

/// Parsing the fully parenthesized rendering of any tree yields that tree
/// with the fixed table of the language in particular.
pub proof fn lemma_paren_round_trip_fixed(e: Expr)
    ensures
        spec_parse(paren_tokens(e)) == Ok::<Expr, SyntaxErrorModel>(e),
{
    lemma_paren_round_trip(op_table(), e);
}

/// A number leaf.
pub open spec fn num(n: i32) -> Expr {
    Expr::Number(n)
}

/// A binary node.
pub open spec fn bin(op: Op, l: Expr, r: Expr) -> Expr {
    Expr::BinaryOp(op, Box::new(l), Box::new(r))
}

/// The unparenthesized token chain `n1 o1 n2 o2 n3`.
pub open spec fn chain3(n1: i32, o1: Op, n2: i32, o2: Op, n3: i32) -> Seq<TokenModel> {
    seq![
        TokenModel::Number(n1),
        TokenModel::Operator(o1),
        TokenModel::Number(n2),
        TokenModel::Operator(o2),
        TokenModel::Number(n3),
    ]
}

/// Parsing the chain `n1 o1 n2 o2 n3` is decided by one comparison of the two
/// operators: the first groups first exactly when [`reduce_cond`] says the
/// second forces it to reduce.
pub proof fn lemma_parse_chain3(n1: i32, o1: Op, n2: i32, o2: Op, n3: i32)
    ensures
        spec_parse(chain3(n1, o1, n2, o2, n3)) == Ok::<Expr, SyntaxErrorModel>(
            if reduce_cond(op_table(), o2, o1) {
                bin(o2, bin(o1, num(n1), num(n2)), num(n3))
            } else {
                bin(o1, num(n1), bin(o2, num(n2), num(n3)))
            },
        ),
{
    let table = op_table();
    let tn1 = TokenModel::Number(n1);
    let to1 = TokenModel::Operator(o1);
    let tn2 = TokenModel::Number(n2);
    let to2 = TokenModel::Operator(o2);
    let tn3 = TokenModel::Number(n3);
    let ts = chain3(n1, o1, n2, o2, n3);
    let ts1 = seq![to1, tn2, to2, tn3];
    let ts2 = seq![tn2, to2, tn3];
    let ts3 = seq![to2, tn3];
    let ts4 = seq![tn3];
    let st0 = init_state();
    let st1 = ParseState { ops: Seq::empty(), vals: seq![num(n1)] };
    let st2 = ParseState { ops: seq![to1], vals: seq![num(n1)] };
    let st3 = ParseState { ops: seq![to1], vals: seq![num(n1), num(n2)] };
    assert(ts[0] == tn1 && ts1[0] == to1 && ts2[0] == tn2 && ts3[0] == to2 && ts4[0] == tn3);
    assert(ts.drop_first() =~= ts1);
    assert(ts1.drop_first() =~= ts2);
    assert(ts2.drop_first() =~= ts3);
    assert(ts3.drop_first() =~= ts4);
    assert(ts4.drop_first() =~= Seq::<TokenModel>::empty());
    assert(apply_token(table, st0, tn1) == ParseStep::Next(st1)) by {
        assert(st0.vals.push(num(n1)) =~= st1.vals);
        assert(st0.ops =~= st1.ops);
    }
    assert(apply_token(table, st1, to1) == ParseStep::Next(st2)) by {
        assert(st1.ops.push(to1) =~= st2.ops);
    }
    assert(apply_token(table, st2, tn2) == ParseStep::Next(st3)) by {
        assert(st2.vals.push(num(n2)) =~= st3.vals);
    }
    assert(st3.ops.last() == to1);
    assert(st3.vals[st3.vals.len() - 2] == num(n1) && st3.vals[st3.vals.len() - 1] == num(n2));
    if reduce_cond(table, o2, o1) {
        let node1 = bin(o1, num(n1), num(n2));
        let stm = ParseState { ops: st3.ops.drop_last(), vals: reduce_vals(st3.vals, node1) };
        let st4 = ParseState { ops: seq![to2], vals: seq![node1] };
        assert(stm.ops.len() == 0) by {
            assert(stm.ops =~= Seq::<TokenModel>::empty());
        }
        assert(shunt_op(table, stm, o2) == ParseStep::Next(st4)) by {
            assert(stm.ops.push(to2) =~= st4.ops);
            assert(stm.vals =~= st4.vals);
        }
        assert(shunt_op(table, st3, o2) == ParseStep::Next(st4));
        let st5 = ParseState { ops: seq![to2], vals: seq![node1, num(n3)] };
        assert(apply_token(table, st4, tn3) == ParseStep::Next(st5)) by {
            assert(st4.vals.push(num(n3)) =~= st5.vals);
        }
        assert(run_tokens(table, st5, Seq::<TokenModel>::empty()) == ParseStep::Next(st5));
        assert(run_tokens(table, st4, ts4) == ParseStep::Next(st5));
        assert(run_tokens(table, st3, ts3) == ParseStep::Next(st5));
        assert(run_tokens(table, st2, ts2) == ParseStep::Next(st5));
        assert(run_tokens(table, st1, ts1) == ParseStep::Next(st5));
        assert(run_tokens(table, st0, ts) == ParseStep::Next(st5));
        let res = bin(o2, node1, num(n3));
        assert(st5.ops.last() == to2);
        assert(st5.vals[st5.vals.len() - 2] == node1 && st5.vals[st5.vals.len() - 1] == num(n3));
        let st6 = ParseState { ops: st5.ops.drop_last(), vals: reduce_vals(st5.vals, res) };
        assert(st6.ops.len() == 0) by {
            assert(st6.ops =~= Seq::<TokenModel>::empty());
        }
        assert(st6.vals =~= seq![res]);
        assert(finish(st6) == Ok::<Expr, SyntaxErrorModel>(res));
        assert(finish(st5) == Ok::<Expr, SyntaxErrorModel>(res));
    } else {
        let st4 = ParseState { ops: seq![to1, to2], vals: seq![num(n1), num(n2)] };
        assert(shunt_op(table, st3, o2) == ParseStep::Next(st4)) by {
            assert(st3.ops.push(to2) =~= st4.ops);
            assert(st3.vals =~= st4.vals);
        }
        let st5 = ParseState { ops: seq![to1, to2], vals: seq![num(n1), num(n2), num(n3)] };
        assert(apply_token(table, st4, tn3) == ParseStep::Next(st5)) by {
            assert(st4.vals.push(num(n3)) =~= st5.vals);
        }
        assert(run_tokens(table, st5, Seq::<TokenModel>::empty()) == ParseStep::Next(st5));
        assert(run_tokens(table, st4, ts4) == ParseStep::Next(st5));
        assert(run_tokens(table, st3, ts3) == ParseStep::Next(st5));
        assert(run_tokens(table, st2, ts2) == ParseStep::Next(st5));
        assert(run_tokens(table, st1, ts1) == ParseStep::Next(st5));
        assert(run_tokens(table, st0, ts) == ParseStep::Next(st5));
        let node2 = bin(o2, num(n2), num(n3));
        assert(st5.ops.last() == to2);
        assert(st5.vals[st5.vals.len() - 2] == num(n2) && st5.vals[st5.vals.len() - 1] == num(n3));
        let st6 = ParseState { ops: st5.ops.drop_last(), vals: reduce_vals(st5.vals, node2) };
        assert(st6.ops =~= seq![to1]);
        assert(st6.vals =~= seq![num(n1), node2]);
        let res = bin(o1, num(n1), node2);
        assert(st6.ops.last() == to1);
        assert(st6.vals[st6.vals.len() - 2] == num(n1) && st6.vals[st6.vals.len() - 1] == node2);
        let st7 = ParseState { ops: st6.ops.drop_last(), vals: reduce_vals(st6.vals, res) };
        assert(st7.ops.len() == 0) by {
            assert(st7.ops =~= Seq::<TokenModel>::empty());
        }
        assert(st7.vals =~= seq![res]);
        assert(finish(st7) == Ok::<Expr, SyntaxErrorModel>(res));
        assert(finish(st6) == Ok::<Expr, SyntaxErrorModel>(res));
        assert(finish(st5) == Ok::<Expr, SyntaxErrorModel>(res));
    }
}

/// For a chain of one operator, the grouping follows associativity alone: a
/// right-associative operator chains to the right and a left-associative one
/// to the left.
pub proof fn lemma_chain_associativity(n1: i32, n2: i32, n3: i32, op: Op)
    ensures
        op_entry(op).1 == Assoc::Right ==> spec_parse(chain3(n1, op, n2, op, n3)) == Ok::<
            Expr,
            SyntaxErrorModel,
        >(bin(op, num(n1), bin(op, num(n2), num(n3)))),
        op_entry(op).1 == Assoc::Left ==> spec_parse(chain3(n1, op, n2, op, n3)) == Ok::<
            Expr,
            SyntaxErrorModel,
        >(bin(op, bin(op, num(n1), num(n2)), num(n3))),
{
    lemma_parse_chain3(n1, op, n2, op, n3);
    assert(op_table()(op) == op_entry(op));
}

/// For a chain of two different-precedence operators, the one of higher
/// precedence takes its operands first, wherever it stands in the chain.
pub proof fn lemma_chain_precedence(n1: i32, o1: Op, n2: i32, o2: Op, n3: i32)
    ensures
        op_entry(o1).0 < op_entry(o2).0 ==> spec_parse(chain3(n1, o1, n2, o2, n3)) == Ok::<
            Expr,
            SyntaxErrorModel,
        >(bin(o1, num(n1), bin(o2, num(n2), num(n3)))),
        op_entry(o1).0 > op_entry(o2).0 ==> spec_parse(chain3(n1, o1, n2, o2, n3)) == Ok::<
            Expr,
            SyntaxErrorModel,
        >(bin(o2, bin(o1, num(n1), num(n2)), num(n3))),
{
    lemma_parse_chain3(n1, o1, n2, o2, n3);
    assert(op_table()(o1) == op_entry(o1));
    assert(op_table()(o2) == op_entry(o2));
}

/// On fully parenthesized input the parser's output does not depend on the
/// precedence table: parentheses always win.
pub proof fn lemma_paren_table_independent(
    t1: spec_fn(Op) -> (int, Assoc),
    t2: spec_fn(Op) -> (int, Assoc),
    e: Expr,
)
    ensures
        spec_parse_with(t1, paren_tokens(e)) == spec_parse_with(t2, paren_tokens(e)),
{
    lemma_paren_round_trip(t1, e);
    lemma_paren_round_trip(t2, e);
}

} // verus!
