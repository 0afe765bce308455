//! The operators of the language on values.

use super::semantics::{
    arithmetic, assigned, binary, flag, magnitude, quotient, remainder, unary, wrap,
};
use crate::ast::parser::{AssignmentKind, Operator};
use crate::error::{Failure, RuntimeError};
use crate::vm::symbol::{DataType, Value};
use vstd::prelude::*;

verus! {

/// The model of the outcome of an operation that gives a value.
pub open spec fn value_outcome(outcome: Result<DataType, RuntimeError>) -> Result<Value, Failure> {
    match outcome {
        Ok(value) => Ok(value@),
        Err(error) => Err(error@),
    }
}

/// The number that stands for a truth value.
pub fn truth(holds: bool) -> (value: DataType)
    ensures
        value@ == flag(holds),
{
    if holds {
        DataType::Number(1)
    } else {
        DataType::Number(0)
    }
}

/// A quotient of magnitudes is no larger than the dividend and not negative;
/// a remainder is smaller than the divisor, and the dividend itself where
/// that is smaller than the divisor.
proof fn division_bounds(x: int, d: int)
    requires
        x >= 0,
        d > 0,
    ensures
        0 <= x / d <= x,
        0 <= x % d < d,
        x < d ==> x % d == x,
{
    assert(0 <= x / d <= x) by (nonlinear_arith)
        requires
            x >= 0,
            d > 0,
    ;
    assert(0 <= x % d < d) by (nonlinear_arith)
        requires
            x >= 0,
            d > 0,
    ;
    assert(x < d ==> x % d == x) by (nonlinear_arith)
        requires
            x >= 0,
            d > 0,
    ;
}

/// `a / b`, rounded toward zero and wrapped round.
pub fn divide(a: i32, b: i32) -> (q: i32)
    requires
        b != 0,
    ensures
        q == wrap(quotient(a as int, b as int)),
{
    proof {
        division_bounds(magnitude(a as int), magnitude(b as int));
    }
    match a.checked_div(b) {
        Some(q) => q,
        None => i32::MIN,
    }
}

/// What is left of `a` after division by `b`, with the sign of `a`.
pub fn modulo(a: i32, b: i32) -> (r: i32)
    requires
        b != 0,
    ensures
        r == wrap(remainder(a as int, b as int)),
{
    proof {
        division_bounds(magnitude(a as int), magnitude(b as int));
    }
    match a.checked_rem(b) {
        Some(r) => r,
        None => 0,
    }
}

/// A binary operator applied to two numbers.
pub fn apply_arithmetic(op: Operator, a: i32, b: i32) -> (outcome: Result<DataType, RuntimeError>)
    ensures
        value_outcome(outcome) == arithmetic(op, a, b),
{
    match op {
        Operator::Add => Ok(DataType::Number(a.wrapping_add(b))),
        Operator::Sub => Ok(DataType::Number(a.wrapping_sub(b))),
        Operator::Mul => Ok(DataType::Number(a.wrapping_mul(b))),
        Operator::Div => if b == 0 {
            Err(RuntimeError::DivisionByZero)
        } else {
            Ok(DataType::Number(divide(a, b)))
        },
        Operator::Mod => if b == 0 {
            Err(RuntimeError::ModuloByZero)
        } else {
            Ok(DataType::Number(modulo(a, b)))
        },
        Operator::And => Ok(truth(a != 0 && b != 0)),
        Operator::Or => Ok(truth(a != 0 || b != 0)),
        Operator::Eq => Ok(truth(a == b)),
        Operator::Ne => Ok(truth(a != b)),
        Operator::Lt => Ok(truth(a < b)),
        Operator::Le => Ok(truth(a <= b)),
        Operator::Gt => Ok(truth(a > b)),
        Operator::Ge => Ok(truth(a >= b)),
        Operator::Not => Err(RuntimeError::TypeMismatch),
        Operator::Neg => Err(RuntimeError::TypeMismatch),
    }
}

/// A binary operator applied to two values.
pub fn apply_binary(op: Operator, left: &DataType, right: &DataType) -> (outcome: Result<
    DataType,
    RuntimeError,
>)
    ensures
        value_outcome(outcome) == binary(op, left@, right@),
{
    match (left, right) {
        (DataType::Number(a), DataType::Number(b)) => apply_arithmetic(op, *a, *b),
        _ => Err(RuntimeError::TypeMismatch),
    }
}

/// A unary operator applied to a value.
pub fn apply_unary(op: Operator, operand: &DataType) -> (outcome: Result<DataType, RuntimeError>)
    ensures
        value_outcome(outcome) == unary(op, operand@),
{
    match op {
        Operator::Not => match operand {
            DataType::Number(n) => Ok(truth(*n == 0)),
            DataType::Function(_, _, _) => Ok(truth(false)),
            DataType::Null() => Ok(truth(true)),
        },
        Operator::Neg => match operand {
            DataType::Number(n) => Ok(DataType::Number(0i32.wrapping_sub(*n))),
            _ => Err(RuntimeError::TypeMismatch),
        },
        _ => Err(RuntimeError::TypeMismatch),
    }
}

/// The value an assignment of `kind` gives a variable that holds `current`.
pub fn apply_assignment(kind: AssignmentKind, current: &DataType, value: DataType) -> (outcome:
    Result<DataType, RuntimeError>)
    ensures
        value_outcome(outcome) == assigned(kind, current@, value@),
{
    match kind {
        AssignmentKind::Assign => Ok(value),
        AssignmentKind::Add => apply_binary(Operator::Add, current, &value),
        AssignmentKind::Sub => apply_binary(Operator::Sub, current, &value),
        AssignmentKind::Mul => apply_binary(Operator::Mul, current, &value),
        AssignmentKind::Div => apply_binary(Operator::Div, current, &value),
        AssignmentKind::Mod => apply_binary(Operator::Mod, current, &value),
    }
}

} // verus!
