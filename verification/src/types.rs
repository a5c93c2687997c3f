//! Static types of the language and the operator-type table used by the
//! resolver's type inference.

use vstd::prelude::*;
use crate::ast::expression::{BinaryOperator, UnaryOperator};

verus! {

#[derive(Debug, Clone, Copy, PartialEq, Eq, Structural)]
pub enum Type {
    Int,
    Bool,
    Unresolved,
}

/// The result type of a binary operation, by operand types and operator:
/// arithmetic on two numbers is numeric, logical connectives on two booleans
/// are boolean, and equality and the relational comparisons of two same-typed
/// operands are boolean; combinations outside the table are `Unresolved`.
pub open spec fn spec_binary_operation_type(left: Type, right: Type, operator: BinaryOperator) -> Type {
    match operator {
        BinaryOperator::Add
        | BinaryOperator::Subtract
        | BinaryOperator::Multiply
        | BinaryOperator::Divide
        | BinaryOperator::Modulus => if left == Type::Int && right == Type::Int {
            Type::Int
        } else {
            Type::Unresolved
        },
        BinaryOperator::And | BinaryOperator::Or => if left == Type::Bool && right == Type::Bool {
            Type::Bool
        } else {
            Type::Unresolved
        },
        BinaryOperator::Equal
        | BinaryOperator::NotEqual
        | BinaryOperator::LessThan
        | BinaryOperator::GreaterThan
        | BinaryOperator::LessThanOrEqual
        | BinaryOperator::GreaterThanOrEqual => if left == right {
            Type::Bool
        } else {
            Type::Unresolved
        },
    }
}

/// The result type of a unary operation; combinations outside the table are
/// `Unresolved`.
pub open spec fn spec_unary_operation_type(operand: Type, operator: UnaryOperator) -> Type {
    match (operand, operator) {
        (Type::Int, UnaryOperator::Negate) => Type::Int,
        (Type::Bool, UnaryOperator::Not) => Type::Bool,
        _ => Type::Unresolved,
    }
}

pub fn resolve_binary_operation_type(left: &Type, right: &Type, operator: &BinaryOperator) -> (r:
    Type)
    ensures
        r == spec_binary_operation_type(*left, *right, *operator),
{
    match (left, right, operator) {
        (Type::Int, Type::Int, BinaryOperator::Add) => Type::Int,
        (Type::Int, Type::Int, BinaryOperator::Subtract) => Type::Int,
        (Type::Int, Type::Int, BinaryOperator::Multiply) => Type::Int,
        (Type::Int, Type::Int, BinaryOperator::Divide) => Type::Int,
        (Type::Int, Type::Int, BinaryOperator::Modulus) => Type::Int,
        (Type::Bool, Type::Bool, BinaryOperator::And) => Type::Bool,
        (Type::Bool, Type::Bool, BinaryOperator::Or) => Type::Bool,
        (
            _,
            _,
            BinaryOperator::Equal
            | BinaryOperator::NotEqual
            | BinaryOperator::LessThan
            | BinaryOperator::GreaterThan
            | BinaryOperator::LessThanOrEqual
            | BinaryOperator::GreaterThanOrEqual,
        ) => if left == right {
            Type::Bool
        } else {
            Type::Unresolved
        },
        _ => Type::Unresolved,
    }
}

pub fn resolve_unary_operation_type(operand: &Type, operator: &UnaryOperator) -> (r: Type)
    ensures
        r == spec_unary_operation_type(*operand, *operator),
{
    match (operand, operator) {
        (Type::Int, UnaryOperator::Negate) => Type::Int,
        (Type::Bool, UnaryOperator::Not) => Type::Bool,
        _ => Type::Unresolved,
    }
}

} // verus!
