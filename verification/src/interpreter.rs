//! The evaluator: a post-order walk of the syntax tree computing a
//! 64-bit signed integer, or failing with an arithmetic error whose
//! span is the offending operator's own span.

use vstd::prelude::*;
use crate::lexer::Annot;
use crate::parser::{Ast, AstNode, BinOp, BinOpKind, UniOp, UniOpKind};

verus! {

/// The kinds of arithmetic fault evaluation can detect.
#[derive(Debug, Clone, Copy, PartialEq, Eq, Hash)]
pub enum InterpreterErrorKind {
    /// The right operand of a division is zero.
    DivisionByZero,
    /// A value does not fit in a 64-bit signed integer: a literal
    /// above `i64::MAX`, or an addition, subtraction, multiplication,
    /// negation or division (`i64::MIN / -1`) that leaves the range.
    /// Arithmetic faults are reported rather than wrapped around, so
    /// that evaluation is total and testable.
    Overflow,
}

/// An evaluation error: an [`InterpreterErrorKind`] with the span of
/// the operator (or literal) that caused it — not the span of the
/// whole subexpression, so a diagnostic can underline just the
/// offending operator.
pub type InterpreterError = Annot<InterpreterErrorKind>;

/// The quotient of `x` and `d` truncated toward zero, as Rust's `/`
/// computes it on signed integers (`d != 0`).
pub open spec fn trunc_div(x: int, d: int) -> int {
    if x == 0 {
        0
    } else if x > 0 && d > 0 {
        x / d
    } else if x < 0 && d < 0 {
        (x * -1) / (d * -1)
    } else if x < 0 {
        ((x * -1) / d) * -1
    } else {
        (x / (d * -1)) * -1
    }
}

/// What a unary operator does to a value: `+` keeps it, `-` negates
/// it, overflowing only on `i64::MIN`.
pub open spec fn spec_eval_uniop(op: UniOpKind, n: i64) -> Result<i64, InterpreterErrorKind> {
    match op {
        UniOpKind::Plus => Ok(n),
        UniOpKind::Minus => if n == i64::MIN {
            Err(InterpreterErrorKind::Overflow)
        } else {
            Ok((-n) as i64)
        },
    }
}

/// What a binary operator does to two values: exact integer
/// arithmetic, `Overflow` where the result leaves the 64-bit signed
/// range, and `DivisionByZero` exactly when the right operand of a
/// division is zero.
pub open spec fn spec_eval_binop(op: BinOpKind, l: i64, r: i64) -> Result<
    i64,
    InterpreterErrorKind,
> {
    match op {
        BinOpKind::Add => if i64::MIN <= l + r <= i64::MAX {
            Ok((l + r) as i64)
        } else {
            Err(InterpreterErrorKind::Overflow)
        },
        BinOpKind::Sub => if i64::MIN <= l - r <= i64::MAX {
            Ok((l - r) as i64)
        } else {
            Err(InterpreterErrorKind::Overflow)
        },
        BinOpKind::Mul => if i64::MIN <= l * r <= i64::MAX {
            Ok((l * r) as i64)
        } else {
            Err(InterpreterErrorKind::Overflow)
        },
        BinOpKind::Div => if r == 0 {
            Err(InterpreterErrorKind::DivisionByZero)
        } else {
            let q = trunc_div(l as int, r as int);
            if i64::MIN <= q <= i64::MAX {
                Ok(q as i64)
            } else {
                Err(InterpreterErrorKind::Overflow)
            }
        },
    }
}

/// The value of a tree: leaves evaluate to themselves, operands are
/// evaluated left to right before their operator is applied, and the
/// first fault ends evaluation with the offending operator's span.
pub open spec fn spec_eval(e: Ast) -> Result<i64, InterpreterError>
    decreases e,
{
    match e.value {
        AstNode::Num(n) => if n <= i64::MAX {
            Ok(n as i64)
        } else {
            Err(Annot { value: InterpreterErrorKind::Overflow, loc: e.loc })
        },
        AstNode::UniOp { op, e: inner } => match spec_eval(*inner) {
            Ok(v) => match spec_eval_uniop(op.value, v) {
                Ok(x) => Ok(x),
                Err(k) => Err(Annot { value: k, loc: op.loc }),
            },
            Err(err) => Err(err),
        },
        AstNode::BinOp { op, l, r } => match spec_eval(*l) {
            Ok(lv) => match spec_eval(*r) {
                Ok(rv) => match spec_eval_binop(op.value, lv, rv) {
                    Ok(x) => Ok(x),
                    Err(k) => Err(Annot { value: k, loc: op.loc }),
                },
                Err(err) => Err(err),
            },
            Err(err) => Err(err),
        },
    }
}

/// The evaluator. It keeps no state between evaluations; each call of
/// [`Interpreter::eval`] is a pure function of the tree it is given.
pub struct Interpreter;

impl Interpreter {
    /// A fresh evaluator.
    pub fn new() -> Self {
        Interpreter
    }

    /// Evaluates a tree to its 64-bit signed value, or to the first
    /// arithmetic fault, located at the offending operator's span.
    pub fn eval(&mut self, expr: &Ast) -> (r: Result<i64, InterpreterError>)
        ensures
            r == spec_eval(*expr),
        decreases *expr,
    {
        match &expr.value {
            AstNode::Num(n) => {
                if *n <= i64::MAX as u64 {
                    Ok(*n as i64)
                } else {
                    Err(InterpreterError::new(InterpreterErrorKind::Overflow, expr.loc))
                }
            },
            AstNode::UniOp { op, e } => {
                let v: i64 = match self.eval(&**e) {
                    Ok(v) => v,
                    Err(err) => {
                        return Err(err);
                    },
                };
                match self.eval_uniop(op, v) {
                    Ok(x) => Ok(x),
                    Err(k) => Err(InterpreterError::new(k, op.loc)),
                }
            },
            AstNode::BinOp { op, l, r } => {
                let lv: i64 = match self.eval(&**l) {
                    Ok(v) => v,
                    Err(err) => {
                        return Err(err);
                    },
                };
                let rv: i64 = match self.eval(&**r) {
                    Ok(v) => v,
                    Err(err) => {
                        return Err(err);
                    },
                };
                match self.eval_binop(op, lv, rv) {
                    Ok(x) => Ok(x),
                    Err(k) => Err(InterpreterError::new(k, op.loc)),
                }
            },
        }
    }

    /// Applies a unary operator to an already-evaluated operand.
    fn eval_uniop(&mut self, op: &UniOp, n: i64) -> (r: Result<i64, InterpreterErrorKind>)
        ensures
            r == spec_eval_uniop(op.value, n),
    {
        match op.value {
            UniOpKind::Plus => Ok(n),
            UniOpKind::Minus => {
                if n == i64::MIN {
                    Err(InterpreterErrorKind::Overflow)
                } else {
                    Ok(-n)
                }
            },
        }
    }

    /// Applies a binary operator to two already-evaluated operands,
    /// left first.
    fn eval_binop(&mut self, op: &BinOp, l: i64, r: i64) -> (res: Result<
        i64,
        InterpreterErrorKind,
    >)
        ensures
            res == spec_eval_binop(op.value, l, r),
    {
        match op.value {
            BinOpKind::Add => match l.checked_add(r) {
                Some(x) => Ok(x),
                None => Err(InterpreterErrorKind::Overflow),
            },
            BinOpKind::Sub => match l.checked_sub(r) {
                Some(x) => Ok(x),
                None => Err(InterpreterErrorKind::Overflow),
            },
            BinOpKind::Mul => match l.checked_mul(r) {
                Some(x) => Ok(x),
                None => Err(InterpreterErrorKind::Overflow),
            },
            BinOpKind::Div => {
                if r == 0 {
                    Err(InterpreterErrorKind::DivisionByZero)
                } else {
                    match l.checked_div(r) {
                        Some(x) => Ok(x),
                        None => Err(InterpreterErrorKind::Overflow),
                    }
                }
            },
        }
    }
}

} // verus!

