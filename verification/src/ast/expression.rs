//! Expression nodes, binary and unary operators, and operator precedence.

use vstd::prelude::*;
use crate::lexer::{TextSpan, Token, TokenKind, token_span};

verus! {

#[derive(Debug, PartialEq)]
pub enum Expression {
    Number(i64, TextSpan),
    Boolean(bool, TextSpan),
    Variable(Token),
    BinaryOperation { left: Box<Expression>, operator: BinaryOperator, right: Box<Expression> },
    UnaryOperation { operator: UnaryOperator, operand: Box<Expression> },
    Grouped(Box<Expression>),
    FunctionCall(FunctionCallData),
}

#[derive(Debug, PartialEq)]
pub struct FunctionCallData {
    pub function_name: Token,
    pub arguments: Vec<Expression>,
}

/// The mathematical shape of an expression: identifiers as character
/// sequences, children as sequences, source positions dropped.
#[verifier::ext_equal]
pub enum ExpressionV {
    Number(i64),
    Boolean(bool),
    Variable(Seq<char>),
    Binary { left: Box<ExpressionV>, operator: BinaryOperator, right: Box<ExpressionV> },
    Unary { operator: UnaryOperator, operand: Box<ExpressionV> },
    Grouped(Box<ExpressionV>),
    Call { name: Seq<char>, arguments: Seq<ExpressionV> },
}

pub open spec fn expr_view(e: Expression) -> ExpressionV
    decreases e,
{
    match e {
        Expression::Number(v, _) => ExpressionV::Number(v),
        Expression::Boolean(v, _) => ExpressionV::Boolean(v),
        Expression::Variable(tok) => ExpressionV::Variable(tok.value@),
        Expression::BinaryOperation { left, operator, right } => ExpressionV::Binary {
            left: Box::new(expr_view(*left)),
            operator,
            right: Box::new(expr_view(*right)),
        },
        Expression::UnaryOperation { operator, operand } => ExpressionV::Unary {
            operator,
            operand: Box::new(expr_view(*operand)),
        },
        Expression::Grouped(inner) => ExpressionV::Grouped(Box::new(expr_view(*inner))),
        Expression::FunctionCall(data) => ExpressionV::Call {
            name: data.function_name.value@,
            arguments: exprs_view(data.arguments@),
        },
    }
}

pub open spec fn exprs_view(s: Seq<Expression>) -> Seq<ExpressionV>
    decreases s,
{
    if s.len() == 0 {
        Seq::empty()
    } else {
        exprs_view(s.subrange(0, s.len() - 1)).push(expr_view(s[s.len() - 1]))
    }
}

pub proof fn lemma_exprs_view_len(s: Seq<Expression>)
    ensures
        exprs_view(s).len() == s.len(),
        forall|i: int| 0 <= i < s.len() ==> exprs_view(s)[i] == expr_view(s[i]),
    decreases s,
{
    if s.len() > 0 {
        lemma_exprs_view_len(s.subrange(0, s.len() - 1));
        assert forall|i: int| 0 <= i < s.len() implies exprs_view(s)[i] == expr_view(s[i]) by {
            if i < s.len() - 1 {
                assert(s.subrange(0, s.len() - 1)[i] == s[i]);
            }
        }
    }
}

/// The source region an expression covers: a literal's stored span, a
/// variable or callee token's span, or the union of the children's spans.
pub open spec fn spec_span(e: Expression) -> TextSpan
    decreases e,
{
    match e {
        Expression::Number(_, span) => span,
        Expression::Boolean(_, span) => span,
        Expression::Variable(tok) => token_span(tok),
        Expression::BinaryOperation { left, right, .. } => TextSpan {
            start: spec_span(*left).start,
            end: spec_span(*right).end,
        },
        Expression::UnaryOperation { operand, .. } => spec_span(*operand),
        Expression::Grouped(inner) => spec_span(*inner),
        Expression::FunctionCall(data) => token_span(data.function_name),
    }
}

impl Expression {
    pub fn span(&self) -> (r: TextSpan)
        ensures
            r == spec_span(*self),
        decreases *self,
    {
        match self {
            Expression::Number(_, span) => *span,
            Expression::Boolean(_, span) => *span,
            Expression::Variable(token) => token.span(),
            Expression::BinaryOperation { left, right, .. } => (&**left).span().union(
                &(&**right).span(),
            ),
            Expression::UnaryOperation { operand, .. } => (&**operand).span(),
            Expression::Grouped(expression) => (&**expression).span(),
            Expression::FunctionCall(data) => data.function_name.span(),
        }
    }
}

#[derive(Debug, Clone, Copy, PartialEq, Eq, Hash, Structural)]
pub enum BinaryOperator {
    // Arithmetic operators
    Add,
    Subtract,
    Multiply,
    Divide,
    Modulus,
    // Comparison operators
    Equal,
    NotEqual,
    LessThan,
    GreaterThan,
    LessThanOrEqual,
    GreaterThanOrEqual,
    // Logical operators
    And,
    Or,
}

/// Precedence bands, low to high: logical or, logical and, comparisons,
/// additive, multiplicative.
pub open spec fn spec_precedence(op: BinaryOperator) -> u8 {
    match op {
        BinaryOperator::Or => 0u8,
        BinaryOperator::And => 1u8,
        BinaryOperator::Equal
        | BinaryOperator::NotEqual
        | BinaryOperator::LessThan
        | BinaryOperator::GreaterThan
        | BinaryOperator::LessThanOrEqual
        | BinaryOperator::GreaterThanOrEqual => 2u8,
        BinaryOperator::Add | BinaryOperator::Subtract => 3u8,
        BinaryOperator::Multiply | BinaryOperator::Divide | BinaryOperator::Modulus => 4u8,
    }
}

/// The binary operator a token stands for, if any.
pub open spec fn binary_operator_of(kind: TokenKind) -> Option<BinaryOperator> {
    match kind {
        TokenKind::Plus => Some(BinaryOperator::Add),
        TokenKind::Minus => Some(BinaryOperator::Subtract),
        TokenKind::Star => Some(BinaryOperator::Multiply),
        TokenKind::Slash => Some(BinaryOperator::Divide),
        TokenKind::Percent => Some(BinaryOperator::Modulus),
        TokenKind::EqualEqual => Some(BinaryOperator::Equal),
        TokenKind::NotEqual => Some(BinaryOperator::NotEqual),
        TokenKind::LessThan => Some(BinaryOperator::LessThan),
        TokenKind::GreaterThan => Some(BinaryOperator::GreaterThan),
        TokenKind::LessThanOrEqual => Some(BinaryOperator::LessThanOrEqual),
        TokenKind::GreaterThanOrEqual => Some(BinaryOperator::GreaterThanOrEqual),
        TokenKind::AndKeyword => Some(BinaryOperator::And),
        TokenKind::OrKeyword => Some(BinaryOperator::Or),
        _ => None,
    }
}

impl BinaryOperator {
    pub fn precedence(&self) -> (p: u8)
        ensures
            p == spec_precedence(*self),
    {
        match self {
            BinaryOperator::Or => 0,
            BinaryOperator::And => 1,
            BinaryOperator::Equal
            | BinaryOperator::NotEqual
            | BinaryOperator::LessThan
            | BinaryOperator::GreaterThan
            | BinaryOperator::LessThanOrEqual
            | BinaryOperator::GreaterThanOrEqual => 2,
            BinaryOperator::Add | BinaryOperator::Subtract => 3,
            BinaryOperator::Multiply | BinaryOperator::Divide | BinaryOperator::Modulus => 4,
        }
    }

    pub fn from_token_kind(kind: TokenKind) -> (r: Option<BinaryOperator>)
        ensures
            r == binary_operator_of(kind),
    {
        match kind {
            TokenKind::Plus => Some(BinaryOperator::Add),
            TokenKind::Minus => Some(BinaryOperator::Subtract),
            TokenKind::Star => Some(BinaryOperator::Multiply),
            TokenKind::Slash => Some(BinaryOperator::Divide),
            TokenKind::Percent => Some(BinaryOperator::Modulus),
            TokenKind::EqualEqual => Some(BinaryOperator::Equal),
            TokenKind::NotEqual => Some(BinaryOperator::NotEqual),
            TokenKind::LessThan => Some(BinaryOperator::LessThan),
            TokenKind::GreaterThan => Some(BinaryOperator::GreaterThan),
            TokenKind::LessThanOrEqual => Some(BinaryOperator::LessThanOrEqual),
            TokenKind::GreaterThanOrEqual => Some(BinaryOperator::GreaterThanOrEqual),
            TokenKind::AndKeyword => Some(BinaryOperator::And),
            TokenKind::OrKeyword => Some(BinaryOperator::Or),
            _ => None,
        }
    }
}

#[derive(Debug, Clone, Copy, PartialEq, Eq, Hash, Structural)]
pub enum UnaryOperator {
    Negate,
    Not,
}

/// The unary operator a token stands for, if any.
pub open spec fn unary_operator_of(kind: TokenKind) -> Option<UnaryOperator> {
    match kind {
        TokenKind::Minus => Some(UnaryOperator::Negate),
        TokenKind::NotKeyword | TokenKind::Bang => Some(UnaryOperator::Not),
        _ => None,
    }
}

impl UnaryOperator {
    pub fn from_token_kind(kind: TokenKind) -> (r: Option<UnaryOperator>)
        ensures
            r == unary_operator_of(kind),
    {
        match kind {
            TokenKind::Minus => Some(UnaryOperator::Negate),
            TokenKind::NotKeyword | TokenKind::Bang => Some(UnaryOperator::Not),
            _ => None,
        }
    }
}

} // verus!
