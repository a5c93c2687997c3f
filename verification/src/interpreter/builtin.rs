//! The native operator functions the interpreter dispatches to: arithmetic,
//! comparison, equality, logical connectives, and the unary operators.
//! Arithmetic on numbers wraps around on overflow; division by zero is a
//! runtime error.

use vstd::prelude::*;
use super::{RuntimeError, RuntimeErrorV, RuntimeValue, err_view};

verus! {

/// The view of an operator result: the error, if any, without its text.
pub open spec fn result_view(r: Result<RuntimeValue, RuntimeError>) -> Result<
    RuntimeValue,
    RuntimeErrorV,
> {
    match r {
        Ok(v) => Ok(v),
        Err(e) => Err(err_view(e)),
    }
}

pub open spec fn spec_add(left: RuntimeValue, right: RuntimeValue) -> Result<
    RuntimeValue,
    RuntimeErrorV,
> {
    match (left, right) {
        (RuntimeValue::Number(l), RuntimeValue::Number(r)) => Ok(
            RuntimeValue::Number(l.wrapping_add(r)),
        ),
        _ => Err(RuntimeErrorV::InvalidOperation),
    }
}

pub fn add(left: RuntimeValue, right: RuntimeValue) -> (r: Result<RuntimeValue, RuntimeError>)
    ensures
        result_view(r) == spec_add(left, right),
{
    if let (RuntimeValue::Number(l), RuntimeValue::Number(r)) = (left, right) {
        Ok(RuntimeValue::Number(l.wrapping_add(r)))
    } else {
        Err(RuntimeError::InvalidOperation)
    }
}

pub open spec fn spec_sub(left: RuntimeValue, right: RuntimeValue) -> Result<
    RuntimeValue,
    RuntimeErrorV,
> {
    match (left, right) {
        (RuntimeValue::Number(l), RuntimeValue::Number(r)) => Ok(
            RuntimeValue::Number(l.wrapping_sub(r)),
        ),
        _ => Err(RuntimeErrorV::InvalidOperation),
    }
}

pub fn sub(left: RuntimeValue, right: RuntimeValue) -> (r: Result<RuntimeValue, RuntimeError>)
    ensures
        result_view(r) == spec_sub(left, right),
{
    if let (RuntimeValue::Number(l), RuntimeValue::Number(r)) = (left, right) {
        Ok(RuntimeValue::Number(l.wrapping_sub(r)))
    } else {
        Err(RuntimeError::InvalidOperation)
    }
}

pub open spec fn spec_mul(left: RuntimeValue, right: RuntimeValue) -> Result<
    RuntimeValue,
    RuntimeErrorV,
> {
    match (left, right) {
        (RuntimeValue::Number(l), RuntimeValue::Number(r)) => Ok(
            RuntimeValue::Number(l.wrapping_mul(r)),
        ),
        _ => Err(RuntimeErrorV::InvalidOperation),
    }
}

pub fn mul(left: RuntimeValue, right: RuntimeValue) -> (r: Result<RuntimeValue, RuntimeError>)
    ensures
        result_view(r) == spec_mul(left, right),
{
    if let (RuntimeValue::Number(l), RuntimeValue::Number(r)) = (left, right) {
        Ok(RuntimeValue::Number(l.wrapping_mul(r)))
    } else {
        Err(RuntimeError::InvalidOperation)
    }
}

/// Truncated division, wrapping on the one overflowing case.
pub open spec fn spec_div_i64(l: i64, r: i64) -> i64
    recommends
        r != 0,
{
    match l.checked_div(r) {
        Some(q) => q,
        None => i64::MIN,
    }
}

/// Division is a runtime error exactly when the divisor is the number zero
/// (or an operand is not a number at all).
pub open spec fn spec_div(left: RuntimeValue, right: RuntimeValue) -> Result<
    RuntimeValue,
    RuntimeErrorV,
> {
    match (left, right) {
        (RuntimeValue::Number(l), RuntimeValue::Number(r)) => if r == 0 {
            Err(RuntimeErrorV::DivisionByZero)
        } else {
            Ok(RuntimeValue::Number(spec_div_i64(l, r)))
        },
        _ => Err(RuntimeErrorV::InvalidOperation),
    }
}

pub fn div(left: RuntimeValue, right: RuntimeValue) -> (r: Result<RuntimeValue, RuntimeError>)
    ensures
        result_view(r) == spec_div(left, right),
{
    if let (RuntimeValue::Number(l), RuntimeValue::Number(r)) = (left, right) {
        if r == 0 {
            Err(RuntimeError::DivisionByZero)
        } else {
            match l.checked_div(r) {
                Some(q) => Ok(RuntimeValue::Number(q)),
                None => Ok(RuntimeValue::Number(i64::MIN)),
            }
        }
    } else {
        Err(RuntimeError::InvalidOperation)
    }
}

/// Remainder of truncated division; a runtime error when the divisor is zero.
pub open spec fn spec_modulus(left: RuntimeValue, right: RuntimeValue) -> Result<
    RuntimeValue,
    RuntimeErrorV,
> {
    match (left, right) {
        (RuntimeValue::Number(l), RuntimeValue::Number(r)) => if r == 0 {
            Err(RuntimeErrorV::DivisionByZero)
        } else {
            Ok(
                RuntimeValue::Number(
                    l.wrapping_sub(spec_div_i64(l, r).wrapping_mul(r)),
                ),
            )
        },
        _ => Err(RuntimeErrorV::InvalidOperation),
    }
}

pub fn modulus(left: RuntimeValue, right: RuntimeValue) -> (r: Result<RuntimeValue, RuntimeError>)
    ensures
        result_view(r) == spec_modulus(left, right),
{
    if let (RuntimeValue::Number(l), RuntimeValue::Number(r)) = (left, right) {
        if r == 0 {
            Err(RuntimeError::DivisionByZero)
        } else {
            let q = match l.checked_div(r) {
                Some(q) => q,
                None => i64::MIN,
            };
            Ok(RuntimeValue::Number(l.wrapping_sub(q.wrapping_mul(r))))
        }
    } else {
        Err(RuntimeError::InvalidOperation)
    }
}

/// Equality is defined between two numbers or two booleans.
pub open spec fn spec_eq(left: RuntimeValue, right: RuntimeValue) -> Result<
    RuntimeValue,
    RuntimeErrorV,
> {
    match (left, right) {
        (RuntimeValue::Number(l), RuntimeValue::Number(r)) => Ok(RuntimeValue::Bool(l == r)),
        (RuntimeValue::Bool(l), RuntimeValue::Bool(r)) => Ok(RuntimeValue::Bool(l == r)),
        _ => Err(RuntimeErrorV::InvalidOperation),
    }
}

pub fn eq(left: RuntimeValue, right: RuntimeValue) -> (r: Result<RuntimeValue, RuntimeError>)
    ensures
        result_view(r) == spec_eq(left, right),
{
    match (left, right) {
        (RuntimeValue::Number(l), RuntimeValue::Number(r)) => Ok(RuntimeValue::Bool(l == r)),
        (RuntimeValue::Bool(l), RuntimeValue::Bool(r)) => Ok(RuntimeValue::Bool(l == r)),
        _ => Err(RuntimeError::InvalidOperation),
    }
}

pub open spec fn spec_gt(left: RuntimeValue, right: RuntimeValue) -> Result<
    RuntimeValue,
    RuntimeErrorV,
> {
    match (left, right) {
        (RuntimeValue::Number(l), RuntimeValue::Number(r)) => Ok(RuntimeValue::Bool(l > r)),
        _ => Err(RuntimeErrorV::InvalidOperation),
    }
}

pub fn gt(left: RuntimeValue, right: RuntimeValue) -> (r: Result<RuntimeValue, RuntimeError>)
    ensures
        result_view(r) == spec_gt(left, right),
{
    if let (RuntimeValue::Number(l), RuntimeValue::Number(r)) = (left, right) {
        Ok(RuntimeValue::Bool(l > r))
    } else {
        Err(RuntimeError::InvalidOperation)
    }
}

pub open spec fn spec_gt_eq(left: RuntimeValue, right: RuntimeValue) -> Result<
    RuntimeValue,
    RuntimeErrorV,
> {
    match (left, right) {
        (RuntimeValue::Number(l), RuntimeValue::Number(r)) => Ok(RuntimeValue::Bool(l >= r)),
        _ => Err(RuntimeErrorV::InvalidOperation),
    }
}

pub fn gt_eq(left: RuntimeValue, right: RuntimeValue) -> (r: Result<RuntimeValue, RuntimeError>)
    ensures
        result_view(r) == spec_gt_eq(left, right),
{
    if let (RuntimeValue::Number(l), RuntimeValue::Number(r)) = (left, right) {
        Ok(RuntimeValue::Bool(l >= r))
    } else {
        Err(RuntimeError::InvalidOperation)
    }
}

pub open spec fn spec_lt(left: RuntimeValue, right: RuntimeValue) -> Result<
    RuntimeValue,
    RuntimeErrorV,
> {
    match (left, right) {
        (RuntimeValue::Number(l), RuntimeValue::Number(r)) => Ok(RuntimeValue::Bool(l < r)),
        _ => Err(RuntimeErrorV::InvalidOperation),
    }
}

pub fn lt(left: RuntimeValue, right: RuntimeValue) -> (r: Result<RuntimeValue, RuntimeError>)
    ensures
        result_view(r) == spec_lt(left, right),
{
    if let (RuntimeValue::Number(l), RuntimeValue::Number(r)) = (left, right) {
        Ok(RuntimeValue::Bool(l < r))
    } else {
        Err(RuntimeError::InvalidOperation)
    }
}

pub open spec fn spec_lt_eq(left: RuntimeValue, right: RuntimeValue) -> Result<
    RuntimeValue,
    RuntimeErrorV,
> {
    match (left, right) {
        (RuntimeValue::Number(l), RuntimeValue::Number(r)) => Ok(RuntimeValue::Bool(l <= r)),
        _ => Err(RuntimeErrorV::InvalidOperation),
    }
}

pub fn lt_eq(left: RuntimeValue, right: RuntimeValue) -> (r: Result<RuntimeValue, RuntimeError>)
    ensures
        result_view(r) == spec_lt_eq(left, right),
{
    if let (RuntimeValue::Number(l), RuntimeValue::Number(r)) = (left, right) {
        Ok(RuntimeValue::Bool(l <= r))
    } else {
        Err(RuntimeError::InvalidOperation)
    }
}

/// Inequality is defined between two numbers or two booleans, like equality.
pub open spec fn spec_not_eq(left: RuntimeValue, right: RuntimeValue) -> Result<
    RuntimeValue,
    RuntimeErrorV,
> {
    match (left, right) {
        (RuntimeValue::Number(l), RuntimeValue::Number(r)) => Ok(RuntimeValue::Bool(l != r)),
        (RuntimeValue::Bool(l), RuntimeValue::Bool(r)) => Ok(RuntimeValue::Bool(l != r)),
        _ => Err(RuntimeErrorV::InvalidOperation),
    }
}

pub fn not_eq(left: RuntimeValue, right: RuntimeValue) -> (r: Result<RuntimeValue, RuntimeError>)
    ensures
        result_view(r) == spec_not_eq(left, right),
{
    match (left, right) {
        (RuntimeValue::Number(l), RuntimeValue::Number(r)) => Ok(RuntimeValue::Bool(l != r)),
        (RuntimeValue::Bool(l), RuntimeValue::Bool(r)) => Ok(RuntimeValue::Bool(l != r)),
        _ => Err(RuntimeError::InvalidOperation),
    }
}

pub open spec fn spec_and(left: RuntimeValue, right: RuntimeValue) -> Result<
    RuntimeValue,
    RuntimeErrorV,
> {
    match (left, right) {
        (RuntimeValue::Bool(l), RuntimeValue::Bool(r)) => Ok(RuntimeValue::Bool(l && r)),
        _ => Err(RuntimeErrorV::InvalidOperation),
    }
}

pub fn and(left: RuntimeValue, right: RuntimeValue) -> (r: Result<RuntimeValue, RuntimeError>)
    ensures
        result_view(r) == spec_and(left, right),
{
    if let (RuntimeValue::Bool(l), RuntimeValue::Bool(r)) = (left, right) {
        Ok(RuntimeValue::Bool(l && r))
    } else {
        Err(RuntimeError::InvalidOperation)
    }
}

pub open spec fn spec_or(left: RuntimeValue, right: RuntimeValue) -> Result<
    RuntimeValue,
    RuntimeErrorV,
> {
    match (left, right) {
        (RuntimeValue::Bool(l), RuntimeValue::Bool(r)) => Ok(RuntimeValue::Bool(l || r)),
        _ => Err(RuntimeErrorV::InvalidOperation),
    }
}

pub fn or(left: RuntimeValue, right: RuntimeValue) -> (r: Result<RuntimeValue, RuntimeError>)
    ensures
        result_view(r) == spec_or(left, right),
{
    if let (RuntimeValue::Bool(l), RuntimeValue::Bool(r)) = (left, right) {
        Ok(RuntimeValue::Bool(l || r))
    } else {
        Err(RuntimeError::InvalidOperation)
    }
}

pub open spec fn spec_negate(value: RuntimeValue) -> Result<RuntimeValue, RuntimeErrorV> {
    match value {
        RuntimeValue::Number(v) => Ok(RuntimeValue::Number((0i64).wrapping_sub(v))),
        _ => Err(RuntimeErrorV::InvalidOperation),
    }
}

pub fn negate(value: RuntimeValue) -> (r: Result<RuntimeValue, RuntimeError>)
    ensures
        result_view(r) == spec_negate(value),
{
    if let RuntimeValue::Number(v) = value {
        Ok(RuntimeValue::Number((0i64).wrapping_sub(v)))
    } else {
        Err(RuntimeError::InvalidOperation)
    }
}

pub open spec fn spec_not(value: RuntimeValue) -> Result<RuntimeValue, RuntimeErrorV> {
    match value {
        RuntimeValue::Bool(v) => Ok(RuntimeValue::Bool(!v)),
        _ => Err(RuntimeErrorV::InvalidOperation),
    }
}

pub fn not(value: RuntimeValue) -> (r: Result<RuntimeValue, RuntimeError>)
    ensures
        result_view(r) == spec_not(value),
{
    if let RuntimeValue::Bool(v) = value {
        Ok(RuntimeValue::Bool(!v))
    } else {
        Err(RuntimeError::InvalidOperation)
    }
}

/// The native function for a binary operator, applied.
pub open spec fn spec_binary_op(
    op: crate::ast::expression::BinaryOperator,
    left: RuntimeValue,
    right: RuntimeValue,
) -> Result<RuntimeValue, RuntimeErrorV> {
    match op {
        crate::ast::expression::BinaryOperator::Add => spec_add(left, right),
        crate::ast::expression::BinaryOperator::Subtract => spec_sub(left, right),
        crate::ast::expression::BinaryOperator::Multiply => spec_mul(left, right),
        crate::ast::expression::BinaryOperator::Divide => spec_div(left, right),
        crate::ast::expression::BinaryOperator::Modulus => spec_modulus(left, right),
        crate::ast::expression::BinaryOperator::Equal => spec_eq(left, right),
        crate::ast::expression::BinaryOperator::NotEqual => spec_not_eq(left, right),
        crate::ast::expression::BinaryOperator::LessThan => spec_lt(left, right),
        crate::ast::expression::BinaryOperator::GreaterThan => spec_gt(left, right),
        crate::ast::expression::BinaryOperator::LessThanOrEqual => spec_lt_eq(left, right),
        crate::ast::expression::BinaryOperator::GreaterThanOrEqual => spec_gt_eq(left, right),
        crate::ast::expression::BinaryOperator::And => spec_and(left, right),
        crate::ast::expression::BinaryOperator::Or => spec_or(left, right),
    }
}

/// The native function for a unary operator, applied.
pub open spec fn spec_unary_op(
    op: crate::ast::expression::UnaryOperator,
    value: RuntimeValue,
) -> Result<RuntimeValue, RuntimeErrorV> {
    match op {
        crate::ast::expression::UnaryOperator::Negate => spec_negate(value),
        crate::ast::expression::UnaryOperator::Not => spec_not(value),
    }
}


/// Dividing any number by the number zero is a division-by-zero fault at
/// runtime, never a value.
pub proof fn lemma_division_by_zero(left: RuntimeValue)
    requires
        left is Number,
    ensures
        spec_div(left, RuntimeValue::Number(0)) == Err::<RuntimeValue, RuntimeErrorV>(
            RuntimeErrorV::DivisionByZero,
        ),
{
}

} // verus!
