//! Abstract syntax tree: a program is an ordered list of statements. Nodes
//! are created by the parser and never mutated afterwards.

use vstd::prelude::*;
use crate::lexer::Token;

pub mod expression;
pub mod statement;

use statement::{Statement, stmt_view, stmts_view};
use expression::{Expression, FunctionCallData, expr_view, exprs_view};
use statement::IfThenBranch;

verus! {

#[derive(Debug)]
pub struct Ast {
    pub statements: Vec<Statement>,
}

impl Ast {
    pub fn new() -> (r: Ast)
        ensures
            r.statements@ == Seq::<Statement>::empty(),
    {
        Ast { statements: Vec::new() }
    }

    pub fn add_statement(&mut self, statement: Statement)
        ensures
            final(self).statements@ == old(self).statements@.push(statement),
    {
        self.statements.push(statement);
    }

    pub fn statements(&self) -> (r: &Vec<Statement>)
        ensures
            r@ == self.statements@,
    {
        &self.statements
    }
}

// ---------------------------------------------------------------------------
// Deep copies of AST values, exact by contract. The interpreter stores copies
// of function bodies, and the parser copies tokens into nodes and diagnostics.
// ---------------------------------------------------------------------------

pub proof fn lemma_exprs_view_push(s: Seq<Expression>, x: Expression)
    ensures
        exprs_view(s.push(x)) == exprs_view(s).push(expr_view(x)),
{
    assert(s.push(x).subrange(0, s.len() as int) =~= s);
    assert(s.push(x)[s.len() as int] == x);
}

pub proof fn lemma_stmts_view_push(s: Seq<Statement>, x: Statement)
    ensures
        stmts_view(s.push(x)) == stmts_view(s).push(stmt_view(x)),
{
    assert(s.push(x).subrange(0, s.len() as int) =~= s);
    assert(s.push(x)[s.len() as int] == x);
}

pub fn clone_expression(e: &Expression) -> (r: Expression)
    ensures
        expr_view(r) == expr_view(*e),
    decreases *e,
{
    match e {
        Expression::Number(v, span) => Expression::Number(*v, *span),
        Expression::Boolean(v, span) => Expression::Boolean(*v, *span),
        Expression::Variable(tok) => Expression::Variable(tok.clone()),
        Expression::BinaryOperation { left, operator, right } => Expression::BinaryOperation {
            left: Box::new(clone_expression(&**left)),
            operator: *operator,
            right: Box::new(clone_expression(&**right)),
        },
        Expression::UnaryOperation { operator, operand } => Expression::UnaryOperation {
            operator: *operator,
            operand: Box::new(clone_expression(&**operand)),
        },
        Expression::Grouped(inner) => Expression::Grouped(Box::new(clone_expression(&**inner))),
        Expression::FunctionCall(data) => Expression::FunctionCall(clone_function_call_data(data)),
    }
}

pub fn clone_expressions(v: &Vec<Expression>) -> (r: Vec<Expression>)
    ensures
        exprs_view(r@) == exprs_view(v@),
    decreases v@,
{
    let mut out: Vec<Expression> = Vec::new();
    let n = v.len();
    let mut i: usize = 0;
    proof {
        assert(v@.subrange(0, 0) =~= Seq::<Expression>::empty());
    }
    while i < n
        invariant
            n == v@.len(),
            i <= n,
            out@.len() == i,
            exprs_view(out@) == exprs_view(v@.subrange(0, i as int)),
        decreases n - i,
    {
        let ghost prev = out@;
        let c = clone_expression(&v[i]);
        proof {
            lemma_exprs_view_push(prev, c);
            lemma_exprs_view_push(v@.subrange(0, i as int), v@[i as int]);
            assert(v@.subrange(0, i + 1) =~= v@.subrange(0, i as int).push(v@[i as int]));
        }
        out.push(c);
        i = i + 1;
    }
    proof {
        assert(v@.subrange(0, n as int) =~= v@);
    }
    out
}

pub fn clone_function_call_data(d: &FunctionCallData) -> (r: FunctionCallData)
    ensures
        r.function_name == d.function_name,
        exprs_view(r.arguments@) == exprs_view(d.arguments@),
    decreases *d,
{
    FunctionCallData {
        function_name: d.function_name.clone(),
        arguments: clone_expressions(&d.arguments),
    }
}

pub fn clone_statement(s: &Statement) -> (r: Statement)
    ensures
        stmt_view(r) == stmt_view(*s),
    decreases *s,
{
    match s {
        Statement::VariableDeclaration { name, value } => Statement::VariableDeclaration {
            name: name.clone(),
            value: clone_expression(value),
        },
        Statement::VariableAssignment { name, value } => Statement::VariableAssignment {
            name: name.clone(),
            value: clone_expression(value),
        },
        Statement::IfStatement { if_then_branch, else_branch } => Statement::IfStatement {
            if_then_branch: IfThenBranch {
                condition: clone_expression(&if_then_branch.condition),
                then_branch: Box::new(clone_statement(&*if_then_branch.then_branch)),
            },
            else_branch: match else_branch {
                Some(b) => Some(Box::new(clone_statement(&**b))),
                None => None,
            },
        },
        Statement::BlockStatement { statements } => Statement::BlockStatement {
            statements: clone_statements(statements),
        },
        Statement::WhileStatement { condition, body } => Statement::WhileStatement {
            condition: clone_expression(condition),
            body: Box::new(clone_statement(&**body)),
        },
        Statement::ForStatement { variable, start, end, step, body } => Statement::ForStatement {
            variable: variable.clone(),
            start: clone_expression(start),
            end: clone_expression(end),
            step: match step {
                Some(e) => Some(clone_expression(e)),
                None => None,
            },
            body: Box::new(clone_statement(&**body)),
        },
        Statement::FunctionDefinition { name, arguments, body } => Statement::FunctionDefinition {
            name: name.clone(),
            arguments: clone_tokens(arguments),
            body: Box::new(clone_statement(&**body)),
        },
        Statement::FunctionCall(data) => Statement::FunctionCall(clone_function_call_data(data)),
        Statement::ReturnStatement { span, expression } => Statement::ReturnStatement {
            span: *span,
            expression: match expression {
                Some(e) => Some(clone_expression(e)),
                None => None,
            },
        },
    }
}

pub fn clone_statements(v: &Vec<Statement>) -> (r: Vec<Statement>)
    ensures
        stmts_view(r@) == stmts_view(v@),
    decreases v@,
{
    let mut out: Vec<Statement> = Vec::new();
    let n = v.len();
    let mut i: usize = 0;
    proof {
        assert(v@.subrange(0, 0) =~= Seq::<Statement>::empty());
    }
    while i < n
        invariant
            n == v@.len(),
            i <= n,
            out@.len() == i,
            stmts_view(out@) == stmts_view(v@.subrange(0, i as int)),
        decreases n - i,
    {
        let ghost prev = out@;
        let c = clone_statement(&v[i]);
        proof {
            lemma_stmts_view_push(prev, c);
            lemma_stmts_view_push(v@.subrange(0, i as int), v@[i as int]);
            assert(v@.subrange(0, i + 1) =~= v@.subrange(0, i as int).push(v@[i as int]));
        }
        out.push(c);
        i = i + 1;
    }
    proof {
        assert(v@.subrange(0, n as int) =~= v@);
    }
    out
}

pub fn clone_tokens(v: &Vec<Token>) -> (r: Vec<Token>)
    ensures
        r@ == v@,
{
    let mut out: Vec<Token> = Vec::new();
    let n = v.len();
    let mut i: usize = 0;
    proof {
        assert(out@ =~= v@.subrange(0, 0));
    }
    while i < n
        invariant
            n == v@.len(),
            i <= n,
            out@ == v@.subrange(0, i as int),
        decreases n - i,
    {
        out.push(v[i].clone());
        i = i + 1;
        proof {
            assert(out@ =~= v@.subrange(0, i as int));
        }
    }
    proof {
        assert(out@ =~= v@);
    }
    out
}

} // verus!
