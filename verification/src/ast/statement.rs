//! Statement nodes.

use vstd::prelude::*;
use crate::lexer::{TextSpan, Token};
use super::expression::{Expression, FunctionCallData};

verus! {

#[derive(Debug)]
pub enum Statement {
    VariableDeclaration { name: Token, value: Expression },
    VariableAssignment { name: Token, value: Expression },
    IfStatement { if_then_branch: IfThenBranch, else_branch: Option<Box<Statement>> },
    BlockStatement { statements: Vec<Statement> },
    WhileStatement { condition: Expression, body: Box<Statement> },
    ForStatement {
        variable: Token,
        start: Expression,
        end: Expression,
        step: Option<Expression>,
        body: Box<Statement>,
    },
    FunctionDefinition { name: Token, arguments: Vec<Token>, body: Box<Statement> },
    FunctionCall(FunctionCallData),
    ReturnStatement { span: TextSpan, expression: Option<Expression> },
}

#[derive(Debug)]
pub struct IfThenBranch {
    pub condition: Expression,
    pub then_branch: Box<Statement>,
}

use super::expression::{ExpressionV, expr_view, exprs_view};

/// The mathematical shape of a statement: identifiers as character sequences,
/// children as sequences, source positions dropped.
#[verifier::ext_equal]
pub enum StatementV {
    Declaration { name: Seq<char>, value: ExpressionV },
    Assignment { name: Seq<char>, value: ExpressionV },
    If { condition: ExpressionV, then_branch: Box<StatementV>, else_branch: Option<Box<StatementV>> },
    Block(Seq<StatementV>),
    While { condition: ExpressionV, body: Box<StatementV> },
    For {
        variable: Seq<char>,
        start: ExpressionV,
        end: ExpressionV,
        step: Option<ExpressionV>,
        body: Box<StatementV>,
    },
    FunctionDefinition { name: Seq<char>, parameters: Seq<Seq<char>>, body: Box<StatementV> },
    Call { name: Seq<char>, arguments: Seq<ExpressionV> },
    Return(Option<ExpressionV>),
}

/// The parameter names a sequence of identifier tokens stands for.
pub open spec fn tokens_text(ts: Seq<Token>) -> Seq<Seq<char>> {
    Seq::new(ts.len(), |i: int| ts[i].value@)
}

pub open spec fn stmt_view(s: Statement) -> StatementV
    decreases s,
{
    match s {
        Statement::VariableDeclaration { name, value } => StatementV::Declaration {
            name: name.value@,
            value: expr_view(value),
        },
        Statement::VariableAssignment { name, value } => StatementV::Assignment {
            name: name.value@,
            value: expr_view(value),
        },
        Statement::IfStatement { if_then_branch, else_branch } => StatementV::If {
            condition: expr_view(if_then_branch.condition),
            then_branch: Box::new(stmt_view(*if_then_branch.then_branch)),
            else_branch: match else_branch {
                Some(b) => Some(Box::new(stmt_view(*b))),
                None => None,
            },
        },
        Statement::BlockStatement { statements } => StatementV::Block(stmts_view(statements@)),
        Statement::WhileStatement { condition, body } => StatementV::While {
            condition: expr_view(condition),
            body: Box::new(stmt_view(*body)),
        },
        Statement::ForStatement { variable, start, end, step, body } => StatementV::For {
            variable: variable.value@,
            start: expr_view(start),
            end: expr_view(end),
            step: match step {
                Some(e) => Some(expr_view(e)),
                None => None,
            },
            body: Box::new(stmt_view(*body)),
        },
        Statement::FunctionDefinition { name, arguments, body } => StatementV::FunctionDefinition {
            name: name.value@,
            parameters: tokens_text(arguments@),
            body: Box::new(stmt_view(*body)),
        },
        Statement::FunctionCall(data) => StatementV::Call {
            name: data.function_name.value@,
            arguments: exprs_view(data.arguments@),
        },
        Statement::ReturnStatement { span: _, expression } => StatementV::Return(
            match expression {
                Some(e) => Some(expr_view(e)),
                None => None,
            },
        ),
    }
}

pub open spec fn stmts_view(s: Seq<Statement>) -> Seq<StatementV>
    decreases s,
{
    if s.len() == 0 {
        Seq::empty()
    } else {
        stmts_view(s.subrange(0, s.len() - 1)).push(stmt_view(s[s.len() - 1]))
    }
}

pub proof fn lemma_stmts_view_len(s: Seq<Statement>)
    ensures
        stmts_view(s).len() == s.len(),
        forall|i: int| 0 <= i < s.len() ==> stmts_view(s)[i] == stmt_view(s[i]),
    decreases s,
{
    if s.len() > 0 {
        lemma_stmts_view_len(s.subrange(0, s.len() - 1));
        assert forall|i: int| 0 <= i < s.len() implies stmts_view(s)[i] == stmt_view(s[i]) by {
            if i < s.len() - 1 {
                assert(s.subrange(0, s.len() - 1)[i] == s[i]);
            }
        }
    }
}

} // verus!
