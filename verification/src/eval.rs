//! Evaluation: an expression tree to a signed integer.
//!
//! [`Eval::eval`] walks the tree in post order, children before parents and
//! left before right, so the first fault in that order is the one reported.
//! All arithmetic is `i32` arithmetic; division truncates toward zero.
//! Division by zero and any intermediate result outside the `i32` range are
//! faults ([`EvalFault`]), never a wrapped or invented value. The result,
//! value or fault, is exactly [`eval_node_spec`] of the tree.

use vstd::math::abs;
use vstd::prelude::*;

use crate::parser::BinaryOperator;
use crate::parser::Node;
use crate::parser::UnaryOperator;

verus! {

/// An arithmetic fault: illegal arithmetic found while evaluating, distinct
/// from the lexical and syntactic error classes.
#[derive(Debug, Clone, Copy, PartialEq, Eq, Structural)]
pub enum EvalFault {
    DivisionByZero,
    Overflow,
}

/// Integer division truncating toward zero, as machine division does: the
/// magnitudes are divided and the sign is reattached.
pub open spec fn div_trunc(x: int, d: int) -> int
    recommends
        d != 0,
{
    let q = (abs(x) / abs(d)) as int;
    if (x < 0) == (d < 0) {
        q
    } else {
        -q
    }
}

/// A result that fits in an `i32`, or an overflow fault.
pub open spec fn fit32(v: int) -> Result<int, EvalFault> {
    if i32::MIN as int <= v <= i32::MAX as int {
        Ok(v)
    } else {
        Err(EvalFault::Overflow)
    }
}

/// One binary operation on already-evaluated operands.
pub open spec fn apply_binary(op: BinaryOperator, l: int, r: int) -> Result<int, EvalFault> {
    match op {
        BinaryOperator::Plus => fit32(l + r),
        BinaryOperator::Minus => fit32(l - r),
        BinaryOperator::Mul => fit32(l * r),
        BinaryOperator::Div => if r == 0 {
            Err(EvalFault::DivisionByZero)
        } else {
            fit32(div_trunc(l, r))
        },
    }
}

/// The value of an expression tree, or its first fault in post order, left
/// operand before right.
pub open spec fn eval_node_spec(n: Node) -> Result<int, EvalFault>
    decreases n,
{
    match n {
        Node::Number(v) => Ok(v as int),
        Node::UnaryExpr { op, child } => match eval_node_spec(*child) {
            Ok(c) => match op {
                UnaryOperator::Neg => fit32(-c),
            },
            Err(f) => Err(f),
        },
        Node::BinaryExpr { op, lhs, rhs } => match eval_node_spec(*lhs) {
            Ok(l) => match eval_node_spec(*rhs) {
                Ok(r) => apply_binary(op, l, r),
                Err(f) => Err(f),
            },
            Err(f) => Err(f),
        },
    }
}

/// A tree-walking evaluator. It keeps no state: every call is a pure
/// function of the tree it is given.
pub struct Eval {}

impl Eval {
    /// An evaluator.
    pub fn new() -> Eval {
        Eval {}
    }

    /// Computes the value of `node`, or its first fault: exactly
    /// [`eval_node_spec`] decides which.
    pub fn eval(&self, node: &Node) -> (r: Result<i32, EvalFault>)
        ensures
            (match eval_node_spec(*node) {
                Ok(v) => r matches Ok(x) && x as int == v,
                Err(f) => r == Err::<i32, EvalFault>(f),
            }),
        decreases *node,
    {
        match node {
            Node::Number(v) => Ok(*v),
            Node::UnaryExpr { op, child } => {
                let c = match self.eval(&**child) {
                    Ok(v) => v,
                    Err(f) => {
                        return Err(f);
                    },
                };
                match op {
                    UnaryOperator::Neg => if c == i32::MIN {
                        Err(EvalFault::Overflow)
                    } else {
                        Ok(-c)
                    },
                }
            },
            Node::BinaryExpr { op, lhs, rhs } => {
                let l = match self.eval(&**lhs) {
                    Ok(v) => v,
                    Err(f) => {
                        return Err(f);
                    },
                };
                let r = match self.eval(&**rhs) {
                    Ok(v) => v,
                    Err(f) => {
                        return Err(f);
                    },
                };
                match op {
                    BinaryOperator::Plus => match l.checked_add(r) {
                        Some(v) => Ok(v),
                        None => Err(EvalFault::Overflow),
                    },
                    BinaryOperator::Minus => match l.checked_sub(r) {
                        Some(v) => Ok(v),
                        None => Err(EvalFault::Overflow),
                    },
                    BinaryOperator::Mul => match l.checked_mul(r) {
                        Some(v) => Ok(v),
                        None => Err(EvalFault::Overflow),
                    },
                    BinaryOperator::Div => if r == 0 {
                        Err(EvalFault::DivisionByZero)
                    } else {
                        match l.checked_div(r) {
                            Some(v) => Ok(v),
                            None => Err(EvalFault::Overflow),
                        }
                    },
                }
            },
        }
    }
}

} // verus!
