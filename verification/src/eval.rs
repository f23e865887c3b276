//! The evaluator: a post-order recursive walk of the expression tree.
//!
//! Arithmetic policy, chosen and documented here because the language leaves
//! it open: `+`, `-`, `*` and `^` wrap modulo 2^32 (two's complement); `/`
//! and `%` truncate toward zero and wrap on their single overflowing case
//! (`i32::MIN / -1` yields `i32::MIN`, `i32::MIN % -1` yields `0`); `^` with
//! a negative exponent fails with [`EvalError::NegativeExponent`]; `/` and
//! `%` with a zero right operand fail with [`EvalError::DivisionByZero`].

use vstd::prelude::*;

use crate::ast::{EvalError, Expr, Op};
use vstd::wrapping::i32_specs;

verus! {

/// `base` raised to the exponent `e`, every intermediate product reduced
/// modulo 2^32. Exponent zero yields one.
pub open spec fn pow_wrap(base: i32, e: int) -> i32
    decreases e,
{
    if e <= 0 {
        1
    } else {
        i32_specs::wrapping_mul(pow_wrap(base, e - 1), base)
    }
}

/// What evaluating a tree yields: the value of each node, or the first error
/// in evaluation order. `+`, `-`, `*` and `^` evaluate the left child first;
/// `/` and `%` evaluate the right child first so that a zero divisor is
/// reported without evaluating the left child.
pub open spec fn spec_eval(e: Expr) -> Result<i32, EvalError>
    decreases e,
{
    match e {
        Expr::Number(n) => Ok(n),
        Expr::BinaryOp(k, l, r) => match k {
            Op::Plus => match spec_eval(*l) {
                Err(er) => Err(er),
                Ok(lv) => match spec_eval(*r) {
                    Err(er) => Err(er),
                    Ok(rv) => Ok(i32_specs::wrapping_add(lv, rv)),
                },
            },
            Op::Minus => match spec_eval(*l) {
                Err(er) => Err(er),
                Ok(lv) => match spec_eval(*r) {
                    Err(er) => Err(er),
                    Ok(rv) => Ok(i32_specs::wrapping_sub(lv, rv)),
                },
            },
            Op::Times => match spec_eval(*l) {
                Err(er) => Err(er),
                Ok(lv) => match spec_eval(*r) {
                    Err(er) => Err(er),
                    Ok(rv) => Ok(i32_specs::wrapping_mul(lv, rv)),
                },
            },
            Op::Divide => match spec_eval(*r) {
                Err(er) => Err(er),
                Ok(rv) => if rv == 0 {
                    Err(EvalError::DivisionByZero)
                } else {
                    match spec_eval(*l) {
                        Err(er) => Err(er),
                        Ok(lv) => Ok(
                            match lv.checked_div(rv) {
                                Some(q) => q,
                                None => i32::MIN,
                            },
                        ),
                    }
                },
            },
            Op::Modulo => match spec_eval(*r) {
                Err(er) => Err(er),
                Ok(rv) => if rv == 0 {
                    Err(EvalError::DivisionByZero)
                } else {
                    match spec_eval(*l) {
                        Err(er) => Err(er),
                        Ok(lv) => Ok(
                            match lv.checked_rem(rv) {
                                Some(m) => m,
                                None => 0,
                            },
                        ),
                    }
                },
            },
            Op::Pow => match spec_eval(*l) {
                Err(er) => Err(er),
                Ok(lv) => match spec_eval(*r) {
                    Err(er) => Err(er),
                    Ok(rv) => if rv < 0 {
                        Err(EvalError::NegativeExponent)
                    } else {
                        Ok(pow_wrap(lv, rv as int))
                    },
                },
            },
        },
    }
}

/// Evaluates an expression tree.
///
/// The result is exactly [`spec_eval`] of the tree: a pure function of the
/// tree's value. The tree is only borrowed, never changed, so re-evaluating
/// the same tree yields the same result.
pub fn evaluate(expr: &Expr) -> (r: Result<i32, EvalError>)
    ensures
        r == spec_eval(*expr),
    decreases *expr,
{
    match expr {
        Expr::Number(n) => Ok(*n),
        Expr::BinaryOp(k, l, r) => match *k {
            Op::Plus => {
                let lv = match evaluate(&**l) {
                    Ok(v) => v,
                    Err(er) => return Err(er),
                };
                let rv = match evaluate(&**r) {
                    Ok(v) => v,
                    Err(er) => return Err(er),
                };
                Ok(lv.wrapping_add(rv))
            },
            Op::Minus => {
                let lv = match evaluate(&**l) {
                    Ok(v) => v,
                    Err(er) => return Err(er),
                };
                let rv = match evaluate(&**r) {
                    Ok(v) => v,
                    Err(er) => return Err(er),
                };
                Ok(lv.wrapping_sub(rv))
            },
            Op::Times => {
                let lv = match evaluate(&**l) {
                    Ok(v) => v,
                    Err(er) => return Err(er),
                };
                let rv = match evaluate(&**r) {
                    Ok(v) => v,
                    Err(er) => return Err(er),
                };
                Ok(lv.wrapping_mul(rv))
            },
            Op::Divide => {
                let rv = match evaluate(&**r) {
                    Ok(v) => v,
                    Err(er) => return Err(er),
                };
                if rv == 0 {
                    return Err(EvalError::DivisionByZero);
                }
                let lv = match evaluate(&**l) {
                    Ok(v) => v,
                    Err(er) => return Err(er),
                };
                match lv.checked_div(rv) {
                    Some(q) => Ok(q),
                    None => Ok(i32::MIN),
                }
            },
            Op::Modulo => {
                let rv = match evaluate(&**r) {
                    Ok(v) => v,
                    Err(er) => return Err(er),
                };
                if rv == 0 {
                    return Err(EvalError::DivisionByZero);
                }
                let lv = match evaluate(&**l) {
                    Ok(v) => v,
                    Err(er) => return Err(er),
                };
                match lv.checked_rem(rv) {
                    Some(m) => Ok(m),
                    None => Ok(0),
                }
            },
            Op::Pow => {
                let lv = match evaluate(&**l) {
                    Ok(v) => v,
                    Err(er) => return Err(er),
                };
                let rv = match evaluate(&**r) {
                    Ok(v) => v,
                    Err(er) => return Err(er),
                };
                if rv < 0 {
                    return Err(EvalError::NegativeExponent);
                }
                let mut acc: i32 = 1;
                let mut i: i32 = 0;
                while i < rv
                    invariant
                        0 <= i <= rv,
                        acc == pow_wrap(lv, i as int),
                    decreases rv - i,
                {
                    acc = acc.wrapping_mul(lv);
                    i = i + 1;
                }
                Ok(acc)
            },
        },
    }
}

} // verus!
