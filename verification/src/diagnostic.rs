//! Structured compile-time diagnostics: an append-only collection of error
//! records, each bound to a source span. Turning them into text is left to
//! the host.

use vstd::prelude::*;
use crate::lexer::{TextSpan, Token, TokenKind, token_span};
use crate::ast::expression::{BinaryOperator, UnaryOperator};
use crate::types::Type;

verus! {

#[derive(Debug)]
pub enum DiagnosticError {
    UnexpectedToken { expected: Vec<TokenKind>, found: String },
    UnexpectedElseAfterEnd,
    UnexpectedEndToken,
    UnexpectedElseToken,
    VariableRedefinition { identifier: String },
    UndefinedVariable { identifier: String },
    FunctionArgumentsMismatch { function_name: String, expected: usize, found: usize },
    UndefinedFunction { function_name: String },
    ReturnOutsideFunction,
    VariableTypeMismatch { identifier: String, expected_type: Type, found_type: Type },
    ExpressionTypeMismatch { expected_type: Type, found_type: Type },
    IncompatibleBinaryOperation { left_type: Type, right_type: Type, operator: BinaryOperator },
    IncompatibleUnaryOperation { operand_type: Type, operator: UnaryOperator },
}

/// The mathematical shape of a diagnostic: names as character sequences,
/// source spans dropped.
#[verifier::ext_equal]
pub enum DiagnosticV {
    UnexpectedToken { expected: Seq<TokenKind>, found: Seq<char> },
    UnexpectedElseAfterEnd,
    UnexpectedEndToken,
    UnexpectedElseToken,
    VariableRedefinition { identifier: Seq<char> },
    UndefinedVariable { identifier: Seq<char> },
    FunctionArgumentsMismatch { function_name: Seq<char>, expected: nat, found: nat },
    UndefinedFunction { function_name: Seq<char> },
    ReturnOutsideFunction,
    VariableTypeMismatch { identifier: Seq<char>, expected_type: Type, found_type: Type },
    ExpressionTypeMismatch { expected_type: Type, found_type: Type },
    IncompatibleBinaryOperation { left_type: Type, right_type: Type, operator: BinaryOperator },
    IncompatibleUnaryOperation { operand_type: Type, operator: UnaryOperator },
}

pub open spec fn error_view(e: DiagnosticError) -> DiagnosticV {
    match e {
        DiagnosticError::UnexpectedToken { expected, found } => DiagnosticV::UnexpectedToken {
            expected: expected@,
            found: found@,
        },
        DiagnosticError::UnexpectedElseAfterEnd => DiagnosticV::UnexpectedElseAfterEnd,
        DiagnosticError::UnexpectedEndToken => DiagnosticV::UnexpectedEndToken,
        DiagnosticError::UnexpectedElseToken => DiagnosticV::UnexpectedElseToken,
        DiagnosticError::VariableRedefinition { identifier } => DiagnosticV::VariableRedefinition {
            identifier: identifier@,
        },
        DiagnosticError::UndefinedVariable { identifier } => DiagnosticV::UndefinedVariable {
            identifier: identifier@,
        },
        DiagnosticError::FunctionArgumentsMismatch { function_name, expected, found } =>
            DiagnosticV::FunctionArgumentsMismatch {
            function_name: function_name@,
            expected: expected as nat,
            found: found as nat,
        },
        DiagnosticError::UndefinedFunction { function_name } => DiagnosticV::UndefinedFunction {
            function_name: function_name@,
        },
        DiagnosticError::ReturnOutsideFunction => DiagnosticV::ReturnOutsideFunction,
        DiagnosticError::VariableTypeMismatch { identifier, expected_type, found_type } =>
            DiagnosticV::VariableTypeMismatch {
            identifier: identifier@,
            expected_type,
            found_type,
        },
        DiagnosticError::ExpressionTypeMismatch { expected_type, found_type } =>
            DiagnosticV::ExpressionTypeMismatch { expected_type, found_type },
        DiagnosticError::IncompatibleBinaryOperation { left_type, right_type, operator } =>
            DiagnosticV::IncompatibleBinaryOperation { left_type, right_type, operator },
        DiagnosticError::IncompatibleUnaryOperation { operand_type, operator } =>
            DiagnosticV::IncompatibleUnaryOperation { operand_type, operator },
    }
}

#[derive(Debug)]
pub struct Diagnostic {
    pub error: DiagnosticError,
    pub span: TextSpan,
}

pub open spec fn diag_view(d: Diagnostic) -> DiagnosticV {
    error_view(d.error)
}

impl Diagnostic {
    pub fn unexpected_token(expected: Vec<TokenKind>, found: Token) -> (r: Diagnostic)
        ensures
            diag_view(r) == (DiagnosticV::UnexpectedToken {
                expected: expected@,
                found: found.value@,
            }),
            r.span == token_span(found),
    {
        let span = found.span();
        Diagnostic {
            error: DiagnosticError::UnexpectedToken { expected, found: found.value },
            span,
        }
    }

    pub fn unexpected_else_after_end(span: TextSpan) -> (r: Diagnostic)
        ensures
            diag_view(r) == DiagnosticV::UnexpectedElseAfterEnd,
            r.span == span,
    {
        Diagnostic { error: DiagnosticError::UnexpectedElseAfterEnd, span }
    }

    pub fn unexpected_end_token(span: TextSpan) -> (r: Diagnostic)
        ensures
            diag_view(r) == DiagnosticV::UnexpectedEndToken,
            r.span == span,
    {
        Diagnostic { error: DiagnosticError::UnexpectedEndToken, span }
    }

    pub fn unexpected_else_token(span: TextSpan) -> (r: Diagnostic)
        ensures
            diag_view(r) == DiagnosticV::UnexpectedElseToken,
            r.span == span,
    {
        Diagnostic { error: DiagnosticError::UnexpectedElseToken, span }
    }

    pub fn variable_redefinition(variable: Token) -> (r: Diagnostic)
        ensures
            diag_view(r) == (DiagnosticV::VariableRedefinition { identifier: variable.value@ }),
            r.span == token_span(variable),
    {
        let span = variable.span();
        Diagnostic {
            error: DiagnosticError::VariableRedefinition { identifier: variable.value },
            span,
        }
    }

    pub fn undefined_variable(variable: Token) -> (r: Diagnostic)
        ensures
            diag_view(r) == (DiagnosticV::UndefinedVariable { identifier: variable.value@ }),
            r.span == token_span(variable),
    {
        let span = variable.span();
        Diagnostic { error: DiagnosticError::UndefinedVariable { identifier: variable.value }, span }
    }

    pub fn function_arguments_mismatch(function_name: Token, expected: usize, found: usize) -> (r:
        Diagnostic)
        ensures
            diag_view(r) == (DiagnosticV::FunctionArgumentsMismatch {
                function_name: function_name.value@,
                expected: expected as nat,
                found: found as nat,
            }),
            r.span == token_span(function_name),
    {
        let span = function_name.span();
        Diagnostic {
            error: DiagnosticError::FunctionArgumentsMismatch {
                function_name: function_name.value,
                expected,
                found,
            },
            span,
        }
    }

    pub fn undefined_function(function_name: Token) -> (r: Diagnostic)
        ensures
            diag_view(r) == (DiagnosticV::UndefinedFunction {
                function_name: function_name.value@,
            }),
            r.span == token_span(function_name),
    {
        let span = function_name.span();
        Diagnostic {
            error: DiagnosticError::UndefinedFunction { function_name: function_name.value },
            span,
        }
    }

    pub fn return_outside_function(span: TextSpan) -> (r: Diagnostic)
        ensures
            diag_view(r) == DiagnosticV::ReturnOutsideFunction,
            r.span == span,
    {
        Diagnostic { error: DiagnosticError::ReturnOutsideFunction, span }
    }

    pub fn variable_type_mismatch(variable: Token, expected_type: Type, found_type: Type) -> (r:
        Diagnostic)
        ensures
            diag_view(r) == (DiagnosticV::VariableTypeMismatch {
                identifier: variable.value@,
                expected_type,
                found_type,
            }),
            r.span == token_span(variable),
    {
        let span = variable.span();
        Diagnostic {
            error: DiagnosticError::VariableTypeMismatch {
                identifier: variable.value,
                expected_type,
                found_type,
            },
            span,
        }
    }

    pub fn expression_type_mismatch(expected_type: Type, found_type: Type, span: TextSpan) -> (r:
        Diagnostic)
        ensures
            diag_view(r) == (DiagnosticV::ExpressionTypeMismatch { expected_type, found_type }),
            r.span == span,
    {
        Diagnostic {
            error: DiagnosticError::ExpressionTypeMismatch { expected_type, found_type },
            span,
        }
    }

    pub fn incompatible_binary_operation(
        left_type: Type,
        right_type: Type,
        operator: BinaryOperator,
        span: TextSpan,
    ) -> (r: Diagnostic)
        ensures
            diag_view(r) == (DiagnosticV::IncompatibleBinaryOperation {
                left_type,
                right_type,
                operator,
            }),
            r.span == span,
    {
        Diagnostic {
            error: DiagnosticError::IncompatibleBinaryOperation { left_type, right_type, operator },
            span,
        }
    }

    pub fn incompatible_unary_operation(
        operand_type: Type,
        operator: UnaryOperator,
        span: TextSpan,
    ) -> (r: Diagnostic)
        ensures
            diag_view(r) == (DiagnosticV::IncompatibleUnaryOperation { operand_type, operator }),
            r.span == span,
    {
        Diagnostic { error: DiagnosticError::IncompatibleUnaryOperation { operand_type, operator }, span }
    }
}

/// The shapes of a sequence of diagnostics, in order.
pub open spec fn diags_view(s: Seq<Diagnostic>) -> Seq<DiagnosticV> {
    Seq::new(s.len(), |i: int| diag_view(s[i]))
}

pub proof fn lemma_diags_view_push(s: Seq<Diagnostic>, d: Diagnostic)
    ensures
        diags_view(s.push(d)) == diags_view(s).push(diag_view(d)),
{
    assert(diags_view(s.push(d)) =~= diags_view(s).push(diag_view(d)));
}

/// An ordered, append-only collection of diagnostics. All diagnostics are
/// errors, so the collection reports errors exactly when it is non-empty.
#[derive(Debug)]
pub struct Diagnostics {
    pub diagnostics: Vec<Diagnostic>,
}

impl Diagnostics {
    pub fn new() -> (r: Diagnostics)
        ensures
            r.diagnostics@.len() == 0,
    {
        Diagnostics { diagnostics: Vec::new() }
    }

    pub fn report(&mut self, diag: Diagnostic)
        ensures
            final(self).diagnostics@ == old(self).diagnostics@.push(diag),
    {
        self.diagnostics.push(diag);
    }

    pub fn has_errors(&self) -> (r: bool)
        ensures
            r == (self.diagnostics@.len() != 0),
    {
        self.diagnostics.len() != 0
    }
}

} // verus!
