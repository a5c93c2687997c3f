//! Parser: builds the abstract syntax tree from the token stream with one
//! token of lookahead. Expressions are parsed by precedence climbing; failed
//! statements are recovered from in panic mode, so one run reports every
//! independent defect.

use vstd::prelude::*;
use crate::BlockType;
use crate::ast::Ast;
use crate::ast::expression::{
    BinaryOperator, Expression, ExpressionV, FunctionCallData, UnaryOperator, binary_operator_of,
    expr_view, exprs_view, spec_precedence, spec_span, unary_operator_of,
};
use crate::ast::lemma_exprs_view_push;
use crate::ast::statement::{IfThenBranch, Statement, StatementV, stmt_view, stmts_view, tokens_text};
use crate::ast::lemma_stmts_view_push;
use crate::diagnostic::{Diagnostic, Diagnostics, DiagnosticV, diag_view, diags_view,
    lemma_diags_view_push};
use crate::lexer::{Token, TokenKind, TokenModel, digits_ok, is_digit_char, models_of, token_span,
    tokens_wf};

verus! {

#[derive(Debug, Clone, Copy, PartialEq, Eq, Structural)]
pub enum ErrorRecoveryState {
    RecoverFromBadBlock(BlockType),
}

/// Tokens that parsing can resynchronise on after an error: statement-starting
/// keywords and block terminators.
pub open spec fn is_recovery_point(k: TokenKind) -> bool {
    ||| k == TokenKind::LetKeyword
    ||| k == TokenKind::SetKeyword
    ||| k == TokenKind::IfKeyword
    ||| k == TokenKind::WhileKeyword
    ||| k == TokenKind::ForKeyword
    ||| k == TokenKind::EndKeyword
    ||| k == TokenKind::ElseKeyword
    ||| k == TokenKind::DefineKeyword
}

/// The numeric value of a digit string.
pub open spec fn num_value(s: Seq<char>) -> int
    decreases s.len(),
{
    if s.len() == 0 {
        0
    } else {
        num_value(s.subrange(0, s.len() - 1)) * 10 + (s[s.len() - 1] as u32 - 48)
    }
}

/// The numeric value of a digit string as a machine integer, stopping at the
/// largest representable value.
pub open spec fn sat_num_value(s: Seq<char>) -> i64 {
    if num_value(s) <= i64::MAX as int {
        num_value(s) as i64
    } else {
        i64::MAX
    }
}

proof fn lemma_num_value_nonneg(s: Seq<char>)
    requires
        forall|j: int| 0 <= j < s.len() ==> is_digit_char(#[trigger] s[j]),
    ensures
        num_value(s) >= 0,
    decreases s.len(),
{
    if s.len() > 0 {
        lemma_num_value_nonneg(s.subrange(0, s.len() - 1));
    }
}

// ---------------------------------------------------------------------------
// The grammar, as a mathematical parser over the shape of the token stream:
// the same one-token-lookahead dispatch, precedence climbing and panic-mode
// recovery the executable parser performs, returning the nodes it builds, the
// positions it stops at, the diagnostics it reports, and the recovery markers
// it leaves. Every executable parsing function is proved exactly equal to it.
// ---------------------------------------------------------------------------

/// An unexpected-token diagnostic naming the kinds that were acceptable.
pub open spec fn unexpected(expected: Seq<TokenKind>, m: TokenModel) -> DiagnosticV {
    DiagnosticV::UnexpectedToken { expected, found: m.text }
}

/// The kinds a statement may start with.
pub open spec fn recovery_point_kind_list() -> Seq<TokenKind> {
    seq![
        TokenKind::LetKeyword,
        TokenKind::SetKeyword,
        TokenKind::IfKeyword,
        TokenKind::WhileKeyword,
        TokenKind::ForKeyword,
        TokenKind::EndKeyword,
        TokenKind::ElseKeyword,
        TokenKind::DefineKeyword,
    ]
}

/// The kinds an expression's primary part may start with.
pub open spec fn literal_start_kind_list() -> Seq<TokenKind> {
    seq![TokenKind::Number, TokenKind::Identifier, TokenKind::TrueKeyword, TokenKind::FalseKeyword]
}

/// What parsing one expression yields: the node and the next position, or the
/// failure's diagnostic and the position the scan stopped at.
#[verifier::ext_equal]
pub enum PExpr {
    Parsed(ExpressionV, int),
    Failed(DiagnosticV, int),
}

/// What parsing an argument list yields.
#[verifier::ext_equal]
pub enum PArgs {
    Parsed(Seq<ExpressionV>, int),
    Failed(DiagnosticV, int),
}

/// What parsing a parameter list yields: the names, in order.
#[verifier::ext_equal]
pub enum PParams {
    Parsed(Seq<Seq<char>>, int),
    Failed(DiagnosticV, int),
}

/// What parsing one statement yields, with the recovery markers after it;
/// `NoMore` is the end of the stream.
#[verifier::ext_equal]
pub enum PStmt {
    Parsed(StatementV, int, Seq<ErrorRecoveryState>),
    NoMore(int, Seq<ErrorRecoveryState>),
    Failed(DiagnosticV, int, Seq<ErrorRecoveryState>),
}

/// What parsing a run of statements yields: the block's statements, in order.
#[verifier::ext_equal]
pub enum PBlock {
    Parsed(Seq<StatementV>, int, Seq<ErrorRecoveryState>),
    Failed(DiagnosticV, int, Seq<ErrorRecoveryState>),
}

pub open spec fn p_expr(ms: Seq<TokenModel>, pos: int) -> PExpr
    decreases ms.len() - pos, 4int,
{
    p_expr_prec(ms, pos, 0)
}

/// Precedence climbing: a unary step, then binary operators of precedence at
/// least `min_prec`, left-associatively.
pub open spec fn p_expr_prec(ms: Seq<TokenModel>, pos: int, min_prec: u8) -> PExpr
    decreases ms.len() - pos, 3int,
{
    match p_unary(ms, pos) {
        PExpr::Parsed(left, p1) => if p1 <= pos || p1 > ms.len() {
            PExpr::Parsed(left, p1)
        } else {
            p_binop_rest(ms, p1, left, min_prec)
        },
        f => f,
    }
}

pub open spec fn p_binop_rest(ms: Seq<TokenModel>, pos: int, left: ExpressionV, min_prec: u8) -> PExpr
    decreases ms.len() - pos, 3int,
{
    if 0 <= pos < ms.len() && binary_operator_of(ms[pos].kind) is Some {
        let op = binary_operator_of(ms[pos].kind)->Some_0;
        if spec_precedence(op) >= min_prec {
            match p_expr_prec(ms, pos + 1, if spec_precedence(op) < 255 {
                (spec_precedence(op) + 1) as u8
            } else {
                255u8
            }) {
                PExpr::Parsed(right, p2) => {
                    let combined = ExpressionV::Binary {
                        left: Box::new(left),
                        operator: op,
                        right: Box::new(right),
                    };
                    if p2 <= pos || p2 > ms.len() {
                        PExpr::Parsed(combined, p2)
                    } else {
                        p_binop_rest(ms, p2, combined, min_prec)
                    }
                },
                f => f,
            }
        } else {
            PExpr::Parsed(left, pos)
        }
    } else {
        PExpr::Parsed(left, pos)
    }
}

/// Unary prefixes bind tighter than any binary operator: a unary operator
/// applies to the unary expression right after it.
pub open spec fn p_unary(ms: Seq<TokenModel>, pos: int) -> PExpr
    decreases ms.len() - pos, 2int,
{
    if 0 <= pos < ms.len() && unary_operator_of(ms[pos].kind) is Some {
        match p_unary(ms, pos + 1) {
            PExpr::Parsed(operand, p1) => PExpr::Parsed(
                ExpressionV::Unary {
                    operator: unary_operator_of(ms[pos].kind)->Some_0,
                    operand: Box::new(operand),
                },
                p1,
            ),
            f => f,
        }
    } else {
        p_primary(ms, pos)
    }
}

pub open spec fn p_primary(ms: Seq<TokenModel>, pos: int) -> PExpr
    decreases ms.len() - pos, 1int,
{
    if 0 <= pos < ms.len() && ms[pos].kind == TokenKind::LeftParen {
        p_grouped(ms, pos)
    } else {
        p_literal(ms, pos)
    }
}

/// `(<expression>)`, resetting to the lowest precedence inside.
pub open spec fn p_grouped(ms: Seq<TokenModel>, pos: int) -> PExpr
    decreases ms.len() - pos, 0int,
{
    if !(0 <= pos < ms.len() && ms[pos].kind == TokenKind::LeftParen) {
        PExpr::Failed(unexpected(seq![TokenKind::LeftParen], ms[pos]), pos)
    } else {
        match p_expr(ms, pos + 1) {
            PExpr::Parsed(inner, p1) => if 0 <= p1 < ms.len() && ms[p1].kind
                == TokenKind::RightParen {
                PExpr::Parsed(ExpressionV::Grouped(Box::new(inner)), p1 + 1)
            } else {
                PExpr::Failed(unexpected(seq![TokenKind::RightParen], ms[p1]), p1)
            },
            f => f,
        }
    }
}

/// A literal, a variable, or a call: a `(` right after an identifier means a
/// call.
pub open spec fn p_literal(ms: Seq<TokenModel>, pos: int) -> PExpr
    decreases ms.len() - pos, 0int,
{
    if 0 <= pos < ms.len() && ms[pos].kind == TokenKind::Number {
        PExpr::Parsed(ExpressionV::Number(sat_num_value(ms[pos].text)), pos + 1)
    } else if 0 <= pos < ms.len() && ms[pos].kind == TokenKind::TrueKeyword {
        PExpr::Parsed(ExpressionV::Boolean(true), pos + 1)
    } else if 0 <= pos < ms.len() && ms[pos].kind == TokenKind::FalseKeyword {
        PExpr::Parsed(ExpressionV::Boolean(false), pos + 1)
    } else if 0 <= pos < ms.len() && ms[pos].kind == TokenKind::Identifier {
        if pos + 1 < ms.len() && ms[pos + 1].kind == TokenKind::LeftParen {
            match p_call_args(ms, pos + 1) {
                PArgs::Parsed(args, p1) => PExpr::Parsed(
                    ExpressionV::Call { name: ms[pos].text, arguments: args },
                    p1,
                ),
                PArgs::Failed(d, p1) => PExpr::Failed(d, p1),
            }
        } else {
            PExpr::Parsed(ExpressionV::Variable(ms[pos].text), pos + 1)
        }
    } else {
        PExpr::Failed(unexpected(literal_start_kind_list(), ms[pos]), pos)
    }
}

/// `(<expression>, ...)` after a callee name; may be empty.
pub open spec fn p_call_args(ms: Seq<TokenModel>, pos: int) -> PArgs
    decreases ms.len() - pos, 11int,
{
    if !(0 <= pos < ms.len() && ms[pos].kind == TokenKind::LeftParen) {
        PArgs::Failed(unexpected(seq![TokenKind::LeftParen], ms[pos]), pos)
    } else if pos + 1 < ms.len() && ms[pos + 1].kind == TokenKind::RightParen {
        PArgs::Parsed(Seq::empty(), pos + 2)
    } else {
        match p_args_list(ms, pos + 1) {
            PArgs::Parsed(args, p1) => if 0 <= p1 < ms.len() && ms[p1].kind
                == TokenKind::RightParen {
                PArgs::Parsed(args, p1 + 1)
            } else {
                PArgs::Failed(unexpected(seq![TokenKind::RightParen], ms[p1]), p1)
            },
            f => f,
        }
    }
}

pub open spec fn p_args_list(ms: Seq<TokenModel>, pos: int) -> PArgs
    decreases ms.len() - pos, 10int,
{
    match p_expr(ms, pos) {
        PExpr::Parsed(e, p1) => if p1 <= pos || p1 > ms.len() {
            PArgs::Parsed(seq![e], p1)
        } else {
            p_args_rest(ms, p1, seq![e])
        },
        PExpr::Failed(d, p1) => PArgs::Failed(d, p1),
    }
}

pub open spec fn p_args_rest(ms: Seq<TokenModel>, pos: int, acc: Seq<ExpressionV>) -> PArgs
    decreases ms.len() - pos, 10int,
{
    if 0 <= pos < ms.len() && ms[pos].kind == TokenKind::Comma {
        match p_expr(ms, pos + 1) {
            PExpr::Parsed(e, p1) => if p1 <= pos || p1 > ms.len() {
                PArgs::Parsed(acc.push(e), p1)
            } else {
                p_args_rest(ms, p1, acc.push(e))
            },
            PExpr::Failed(d, p1) => PArgs::Failed(d, p1),
        }
    } else {
        PArgs::Parsed(acc, pos)
    }
}

/// A non-empty comma-separated list of identifiers (declared parameters);
/// the list ends before the end-of-stream token.
pub open spec fn p_params(ms: Seq<TokenModel>, pos: int) -> PParams
    decreases ms.len() - pos, 12int,
{
    if 0 <= pos < ms.len() && ms[pos].kind == TokenKind::Identifier {
        p_params_rest(ms, pos + 1, seq![ms[pos].text])
    } else {
        PParams::Failed(unexpected(seq![TokenKind::Identifier], ms[pos]), pos)
    }
}

pub open spec fn p_params_rest(ms: Seq<TokenModel>, pos: int, acc: Seq<Seq<char>>) -> PParams
    decreases ms.len() - pos, 12int,
{
    if 0 <= pos < ms.len() && ms[pos].kind == TokenKind::Comma {
        if pos + 1 < ms.len() && ms[pos + 1].kind == TokenKind::Identifier {
            p_params_rest(ms, pos + 2, acc.push(ms[pos + 1].text))
        } else {
            PParams::Failed(unexpected(seq![TokenKind::Identifier], ms[pos + 1]), pos + 1)
        }
    } else {
        PParams::Parsed(acc, pos)
    }
}

/// One statement, dispatched on the current token's kind. At the end of the
/// stream there is no statement. A stray `else` closes a failed `if` block
/// silently when its recovery marker is pending, and is otherwise a
/// diagnostic (a different one right after an `end`); a stray `end` closes
/// any pending failed block silently, and is otherwise a diagnostic.
pub open spec fn p_stmt(ms: Seq<TokenModel>, pos: int, rec: Seq<ErrorRecoveryState>) -> PStmt
    decreases ms.len() - pos, 6int,
{
    if !(0 <= pos < ms.len()) || ms[pos].kind == TokenKind::EndOfFile {
        PStmt::NoMore(pos, rec)
    } else {
        let kind = ms[pos].kind;
        if kind == TokenKind::LetKeyword {
            p_declaration(ms, pos, rec)
        } else if kind == TokenKind::SetKeyword {
            p_assignment(ms, pos, rec)
        } else if kind == TokenKind::IfKeyword {
            match p_if(ms, pos, rec) {
                PStmt::Failed(d, p1, r1) => PStmt::Failed(
                    d,
                    p1,
                    r1.push(ErrorRecoveryState::RecoverFromBadBlock(BlockType::IfBlock)),
                ),
                ok => ok,
            }
        } else if kind == TokenKind::WhileKeyword {
            match p_while(ms, pos, rec) {
                PStmt::Failed(d, p1, r1) => PStmt::Failed(
                    d,
                    p1,
                    r1.push(ErrorRecoveryState::RecoverFromBadBlock(BlockType::WhileBlock)),
                ),
                ok => ok,
            }
        } else if kind == TokenKind::ForKeyword {
            match p_for(ms, pos, rec) {
                PStmt::Failed(d, p1, r1) => PStmt::Failed(
                    d,
                    p1,
                    r1.push(ErrorRecoveryState::RecoverFromBadBlock(BlockType::ForBlock)),
                ),
                ok => ok,
            }
        } else if kind == TokenKind::DefineKeyword {
            match p_def(ms, pos, rec) {
                PStmt::Failed(d, p1, r1) => PStmt::Failed(
                    d,
                    p1,
                    r1.push(ErrorRecoveryState::RecoverFromBadBlock(BlockType::FunctionBlock)),
                ),
                ok => ok,
            }
        } else if kind == TokenKind::Identifier {
            match p_call_args(ms, pos + 1) {
                PArgs::Parsed(args, p1) => PStmt::Parsed(
                    StatementV::Call { name: ms[pos].text, arguments: args },
                    p1,
                    rec,
                ),
                PArgs::Failed(d, p1) => PStmt::Failed(d, p1, rec),
            }
        } else if kind == TokenKind::ReturnKeyword {
            p_return(ms, pos, rec)
        } else if kind == TokenKind::ElseKeyword {
            if rec.len() > 0 && rec[rec.len() - 1] == ErrorRecoveryState::RecoverFromBadBlock(
                BlockType::IfBlock,
            ) {
                p_stmt(ms, pos + 1, rec)
            } else {
                let after_end = pos > 0 && ms[pos - 1].kind == TokenKind::EndKeyword;
                PStmt::Failed(
                    if after_end {
                        DiagnosticV::UnexpectedElseAfterEnd
                    } else {
                        DiagnosticV::UnexpectedElseToken
                    },
                    pos + 1,
                    rec.push(ErrorRecoveryState::RecoverFromBadBlock(BlockType::ElseBlock)),
                )
            }
        } else if kind == TokenKind::EndKeyword {
            if rec.len() > 0 {
                p_stmt(ms, pos + 1, rec.subrange(0, rec.len() - 1))
            } else {
                PStmt::Failed(DiagnosticV::UnexpectedEndToken, pos + 1, rec)
            }
        } else {
            PStmt::Failed(unexpected(recovery_point_kind_list(), ms[pos]), pos + 1, rec)
        }
    }
}

/// `let <identifier> be <expression>`
pub open spec fn p_declaration(ms: Seq<TokenModel>, pos: int, rec: Seq<ErrorRecoveryState>) -> PStmt
    decreases ms.len() - pos, 5int,
{
    if !(0 <= pos < ms.len() && ms[pos].kind == TokenKind::LetKeyword) {
        PStmt::Failed(unexpected(seq![TokenKind::LetKeyword], ms[pos]), pos, rec)
    } else if !(pos + 1 < ms.len() && ms[pos + 1].kind == TokenKind::Identifier) {
        PStmt::Failed(unexpected(seq![TokenKind::Identifier], ms[pos + 1]), pos + 1, rec)
    } else if !(pos + 2 < ms.len() && ms[pos + 2].kind == TokenKind::BeKeyword) {
        PStmt::Failed(unexpected(seq![TokenKind::BeKeyword], ms[pos + 2]), pos + 2, rec)
    } else {
        match p_expr(ms, pos + 3) {
            PExpr::Parsed(v, p1) => PStmt::Parsed(
                StatementV::Declaration { name: ms[pos + 1].text, value: v },
                p1,
                rec,
            ),
            PExpr::Failed(d, p1) => PStmt::Failed(d, p1, rec),
        }
    }
}

/// `set <identifier> to <expression>`
pub open spec fn p_assignment(ms: Seq<TokenModel>, pos: int, rec: Seq<ErrorRecoveryState>) -> PStmt
    decreases ms.len() - pos, 5int,
{
    if !(0 <= pos < ms.len() && ms[pos].kind == TokenKind::SetKeyword) {
        PStmt::Failed(unexpected(seq![TokenKind::SetKeyword], ms[pos]), pos, rec)
    } else if !(pos + 1 < ms.len() && ms[pos + 1].kind == TokenKind::Identifier) {
        PStmt::Failed(unexpected(seq![TokenKind::Identifier], ms[pos + 1]), pos + 1, rec)
    } else if !(pos + 2 < ms.len() && ms[pos + 2].kind == TokenKind::ToKeyword) {
        PStmt::Failed(unexpected(seq![TokenKind::ToKeyword], ms[pos + 2]), pos + 2, rec)
    } else {
        match p_expr(ms, pos + 3) {
            PExpr::Parsed(v, p1) => PStmt::Parsed(
                StatementV::Assignment { name: ms[pos + 1].text, value: v },
                p1,
                rec,
            ),
            PExpr::Failed(d, p1) => PStmt::Failed(d, p1, rec),
        }
    }
}

/// The condition and then-branch of an `if`: `if <condition> then <statements>`.
#[verifier::ext_equal]
pub enum PIfThen {
    Parsed(ExpressionV, Seq<StatementV>, int, Seq<ErrorRecoveryState>),
    Failed(DiagnosticV, int, Seq<ErrorRecoveryState>),
}

pub open spec fn p_if_then(ms: Seq<TokenModel>, pos: int, rec: Seq<ErrorRecoveryState>) -> PIfThen
    decreases ms.len() - pos, 4int,
{
    if !(0 <= pos < ms.len() && ms[pos].kind == TokenKind::IfKeyword) {
        PIfThen::Failed(unexpected(seq![TokenKind::IfKeyword], ms[pos]), pos, rec)
    } else {
        match p_expr(ms, pos + 1) {
            PExpr::Failed(d, p1) => PIfThen::Failed(d, p1, rec),
            PExpr::Parsed(cond, p1) => if !(pos <= p1 < ms.len() && ms[p1].kind
                == TokenKind::ThenKeyword) {
                PIfThen::Failed(unexpected(seq![TokenKind::ThenKeyword], ms[p1]), p1, rec)
            } else {
                match p_until(ms, p1 + 1, seq![TokenKind::ElseKeyword, TokenKind::EndKeyword], Seq::empty(), rec) {
                    PBlock::Failed(d, p2, r2) => PIfThen::Failed(d, p2, r2),
                    PBlock::Parsed(ss, p2, r2) => PIfThen::Parsed(cond, ss, p2, r2),
                }
            },
        }
    }
}

/// `if <condition> then <statements> [else ...] end`
pub open spec fn p_if(ms: Seq<TokenModel>, pos: int, rec: Seq<ErrorRecoveryState>) -> PStmt
    decreases ms.len() - pos, 5int,
{
    match p_if_then(ms, pos, rec) {
        PIfThen::Failed(d, p1, r1) => PStmt::Failed(d, p1, r1),
        PIfThen::Parsed(cond, ss, p2, r2) => if pos < p2 < ms.len() && ms[p2].kind
            == TokenKind::ElseKeyword {
            match p_else(ms, p2, r2) {
                PStmt::Parsed(eb, p3, r3) => PStmt::Parsed(
                    StatementV::If {
                        condition: cond,
                        then_branch: Box::new(StatementV::Block(ss)),
                        else_branch: Some(Box::new(eb)),
                    },
                    p3,
                    r3,
                ),
                other => other,
            }
        } else if 0 <= p2 < ms.len() && ms[p2].kind == TokenKind::EndKeyword {
            PStmt::Parsed(
                StatementV::If {
                    condition: cond,
                    then_branch: Box::new(StatementV::Block(ss)),
                    else_branch: None,
                },
                p2 + 1,
                r2,
            )
        } else {
            PStmt::Failed(unexpected(seq![TokenKind::EndKeyword], ms[p2]), p2, r2)
        },
    }
}

/// `else <statements> end`, or an `else if ...` chain.
pub open spec fn p_else(ms: Seq<TokenModel>, pos: int, rec: Seq<ErrorRecoveryState>) -> PStmt
    decreases ms.len() - pos, 4int,
{
    if !(0 <= pos < ms.len() && ms[pos].kind == TokenKind::ElseKeyword) {
        PStmt::Failed(unexpected(seq![TokenKind::ElseKeyword], ms[pos]), pos, rec)
    } else if pos + 1 < ms.len() && ms[pos + 1].kind == TokenKind::IfKeyword {
        p_if(ms, pos + 1, rec)
    } else {
        match p_until(ms, pos + 1, seq![TokenKind::EndKeyword], Seq::empty(), rec) {
            PBlock::Failed(d, p1, r1) => PStmt::Failed(d, p1, r1),
            PBlock::Parsed(ss, p1, r1) => if 0 <= p1 < ms.len() && ms[p1].kind
                == TokenKind::EndKeyword {
                PStmt::Parsed(StatementV::Block(ss), p1 + 1, r1)
            } else {
                PStmt::Failed(unexpected(seq![TokenKind::EndKeyword], ms[p1]), p1, r1)
            },
        }
    }
}

/// `while <condition> do <statements> end`
pub open spec fn p_while(ms: Seq<TokenModel>, pos: int, rec: Seq<ErrorRecoveryState>) -> PStmt
    decreases ms.len() - pos, 5int,
{
    if !(0 <= pos < ms.len() && ms[pos].kind == TokenKind::WhileKeyword) {
        PStmt::Failed(unexpected(seq![TokenKind::WhileKeyword], ms[pos]), pos, rec)
    } else {
        match p_expr(ms, pos + 1) {
            PExpr::Failed(d, p1) => PStmt::Failed(d, p1, rec),
            PExpr::Parsed(cond, p1) => if !(pos <= p1 < ms.len() && ms[p1].kind
                == TokenKind::DoKeyword) {
                PStmt::Failed(unexpected(seq![TokenKind::DoKeyword], ms[p1]), p1, rec)
            } else {
                match p_until(ms, p1 + 1, seq![TokenKind::EndKeyword], Seq::empty(), rec) {
                    PBlock::Failed(d, p2, r2) => PStmt::Failed(d, p2, r2),
                    PBlock::Parsed(ss, p2, r2) => if 0 <= p2 < ms.len() && ms[p2].kind
                        == TokenKind::EndKeyword {
                        PStmt::Parsed(
                            StatementV::While {
                                condition: cond,
                                body: Box::new(StatementV::Block(ss)),
                            },
                            p2 + 1,
                            r2,
                        )
                    } else {
                        PStmt::Failed(unexpected(seq![TokenKind::EndKeyword], ms[p2]), p2, r2)
                    },
                }
            },
        }
    }
}

/// `for <identifier> from <start> to <end> [step <step>] do <statements> end`
pub open spec fn p_for(ms: Seq<TokenModel>, pos: int, rec: Seq<ErrorRecoveryState>) -> PStmt
    decreases ms.len() - pos, 5int,
{
    if !(0 <= pos < ms.len() && ms[pos].kind == TokenKind::ForKeyword) {
        PStmt::Failed(unexpected(seq![TokenKind::ForKeyword], ms[pos]), pos, rec)
    } else if !(pos + 1 < ms.len() && ms[pos + 1].kind == TokenKind::Identifier) {
        PStmt::Failed(unexpected(seq![TokenKind::Identifier], ms[pos + 1]), pos + 1, rec)
    } else if !(pos + 2 < ms.len() && ms[pos + 2].kind == TokenKind::FromKeyword) {
        PStmt::Failed(unexpected(seq![TokenKind::FromKeyword], ms[pos + 2]), pos + 2, rec)
    } else {
        match p_expr(ms, pos + 3) {
            PExpr::Failed(d, p1) => PStmt::Failed(d, p1, rec),
            PExpr::Parsed(start, p1) => if !(pos <= p1 < ms.len() && ms[p1].kind
                == TokenKind::ToKeyword) {
                PStmt::Failed(unexpected(seq![TokenKind::ToKeyword], ms[p1]), p1, rec)
            } else {
                match p_expr(ms, p1 + 1) {
                    PExpr::Failed(d, p2) => PStmt::Failed(d, p2, rec),
                    PExpr::Parsed(end_e, p2) => if pos < p2 <= ms.len() {
                        p_for_tail(ms, pos, rec, ms[pos + 1].text, start, end_e, p2)
                    } else {
                        PStmt::Failed(unexpected(seq![TokenKind::DoKeyword], ms[p2]), p2, rec)
                    },
                }
            },
        }
    }
}

/// The optional step and the body of a `for` statement, from position `p2`.
pub open spec fn p_for_tail(
    ms: Seq<TokenModel>,
    pos: int,
    rec: Seq<ErrorRecoveryState>,
    variable: Seq<char>,
    start: ExpressionV,
    end_e: ExpressionV,
    p2: int,
) -> PStmt
    decreases ms.len() - p2, 13int,
{
    let stepres: PExpr = if 0 <= p2 < ms.len() && ms[p2].kind == TokenKind::StepKeyword {
        p_expr(ms, p2 + 1)
    } else {
        PExpr::Parsed(ExpressionV::Number(0), p2)
    };
    let has_step = 0 <= p2 < ms.len() && ms[p2].kind == TokenKind::StepKeyword;
    match stepres {
        PExpr::Failed(d, p3) => PStmt::Failed(d, p3, rec),
        PExpr::Parsed(step_e, p3) => if !(p2 <= p3 < ms.len() && ms[p3].kind
            == TokenKind::DoKeyword) {
            PStmt::Failed(unexpected(seq![TokenKind::DoKeyword], ms[p3]), p3, rec)
        } else {
            match p_until(ms, p3 + 1, seq![TokenKind::EndKeyword], Seq::empty(), rec) {
                PBlock::Failed(d, p4, r4) => PStmt::Failed(d, p4, r4),
                PBlock::Parsed(ss, p4, r4) => if 0 <= p4 < ms.len() && ms[p4].kind
                    == TokenKind::EndKeyword {
                    PStmt::Parsed(
                        StatementV::For {
                            variable,
                            start,
                            end: end_e,
                            step: if has_step {
                                Some(step_e)
                            } else {
                                None
                            },
                            body: Box::new(StatementV::Block(ss)),
                        },
                        p4 + 1,
                        r4,
                    )
                } else {
                    PStmt::Failed(unexpected(seq![TokenKind::EndKeyword], ms[p4]), p4, r4)
                },
            }
        },
    }
}

/// `define function <name> [with <parameters>] as <statements> end`
pub open spec fn p_def(ms: Seq<TokenModel>, pos: int, rec: Seq<ErrorRecoveryState>) -> PStmt
    decreases ms.len() - pos, 5int,
{
    if !(0 <= pos < ms.len() && ms[pos].kind == TokenKind::DefineKeyword) {
        PStmt::Failed(unexpected(seq![TokenKind::DefineKeyword], ms[pos]), pos, rec)
    } else if !(pos + 1 < ms.len() && ms[pos + 1].kind == TokenKind::FunctionKeyword) {
        PStmt::Failed(unexpected(seq![TokenKind::FunctionKeyword], ms[pos + 1]), pos + 1, rec)
    } else if !(pos + 2 < ms.len() && ms[pos + 2].kind == TokenKind::Identifier) {
        PStmt::Failed(unexpected(seq![TokenKind::Identifier], ms[pos + 2]), pos + 2, rec)
    } else {
        let paramres: PParams = if pos + 3 < ms.len() && ms[pos + 3].kind == TokenKind::WithKeyword {
            p_params(ms, pos + 4)
        } else {
            PParams::Parsed(Seq::empty(), pos + 3)
        };
        match paramres {
            PParams::Failed(d, p1) => PStmt::Failed(d, p1, rec),
            PParams::Parsed(params, p1) => if !(pos <= p1 < ms.len() && ms[p1].kind
                == TokenKind::AsKeyword) {
                PStmt::Failed(unexpected(seq![TokenKind::AsKeyword], ms[p1]), p1, rec)
            } else {
                match p_until(ms, p1 + 1, seq![TokenKind::EndKeyword], Seq::empty(), rec) {
                    PBlock::Failed(d, p2, r2) => PStmt::Failed(d, p2, r2),
                    PBlock::Parsed(ss, p2, r2) => if 0 <= p2 < ms.len() && ms[p2].kind
                        == TokenKind::EndKeyword {
                        PStmt::Parsed(
                            StatementV::FunctionDefinition {
                                name: ms[pos + 2].text,
                                parameters: params,
                                body: Box::new(StatementV::Block(ss)),
                            },
                            p2 + 1,
                            r2,
                        )
                    } else {
                        PStmt::Failed(unexpected(seq![TokenKind::EndKeyword], ms[p2]), p2, r2)
                    },
                }
            },
        }
    }
}

/// `return [(<expression>)]`
pub open spec fn p_return(ms: Seq<TokenModel>, pos: int, rec: Seq<ErrorRecoveryState>) -> PStmt
    decreases ms.len() - pos, 5int,
{
    if !(0 <= pos < ms.len() && ms[pos].kind == TokenKind::ReturnKeyword) {
        PStmt::Failed(unexpected(seq![TokenKind::ReturnKeyword], ms[pos]), pos, rec)
    } else if pos + 1 < ms.len() && ms[pos + 1].kind == TokenKind::LeftParen {
        match p_grouped(ms, pos + 1) {
            PExpr::Parsed(e, p1) => PStmt::Parsed(StatementV::Return(Some(e)), p1, rec),
            PExpr::Failed(d, p1) => PStmt::Failed(d, p1, rec),
        }
    } else {
        PStmt::Parsed(StatementV::Return(None), pos + 1, rec)
    }
}

/// Statements until one of `stops` (or the end of the stream) is next.
pub open spec fn p_until(
    ms: Seq<TokenModel>,
    pos: int,
    stops: Seq<TokenKind>,
    acc: Seq<StatementV>,
    rec: Seq<ErrorRecoveryState>,
) -> PBlock
    decreases ms.len() - pos, 12int,
{
    if 0 <= pos < ms.len() && stops.contains(ms[pos].kind) {
        PBlock::Parsed(acc, pos, rec)
    } else {
        match p_stmt(ms, pos, rec) {
            PStmt::NoMore(p1, r1) => PBlock::Parsed(acc, p1, r1),
            PStmt::Parsed(s, p1, r1) => if p1 <= pos || p1 > ms.len() {
                PBlock::Parsed(acc.push(s), p1, r1)
            } else {
                p_until(ms, p1, stops, acc.push(s), r1)
            },
            PStmt::Failed(d, p1, r1) => PBlock::Failed(d, p1, r1),
        }
    }
}

/// The first position at or after `pos` the parser can resynchronise on.
pub open spec fn recover_pos(ms: Seq<TokenModel>, pos: int) -> int
    decreases ms.len() - pos,
{
    if 0 <= pos < ms.len() && ms[pos].kind != TokenKind::EndOfFile && !is_recovery_point(
        ms[pos].kind,
    ) {
        recover_pos(ms, pos + 1)
    } else {
        pos
    }
}

/// The whole program: every statement-level failure is recorded and parsing
/// resumes at the next synchronisation point, so one run reports every
/// independent defect, in source order.
pub open spec fn p_all(
    ms: Seq<TokenModel>,
    pos: int,
    rec: Seq<ErrorRecoveryState>,
    stmts: Seq<StatementV>,
    diags: Seq<DiagnosticV>,
) -> (Seq<StatementV>, Seq<DiagnosticV>)
    decreases ms.len() - pos, 13int,
{
    match p_stmt(ms, pos, rec) {
        PStmt::NoMore(_, _) => (stmts, diags),
        PStmt::Parsed(s, p1, r1) => if p1 <= pos || p1 > ms.len() {
            (stmts.push(s), diags)
        } else {
            p_all(ms, p1, r1, stmts.push(s), diags)
        },
        PStmt::Failed(d, p1, r1) => {
            let p2 = recover_pos(ms, p1);
            if p2 <= pos || p2 > ms.len() {
                (stmts, diags.push(d))
            } else {
                p_all(ms, p2, r1, stmts, diags.push(d))
            }
        },
    }
}

/// What the whole token stream parses to: the program's statements and the
/// diagnostics reported, in source order.
pub open spec fn parse_program(ms: Seq<TokenModel>) -> (Seq<StatementV>, Seq<DiagnosticV>) {
    p_all(ms, 0, Seq::empty(), Seq::empty(), Seq::empty())
}

pub struct Parser {
    pub tokens: Vec<Token>,
    pub position: usize,
    pub recovery_states: Vec<ErrorRecoveryState>,
    pub consumed_tokens: Vec<TokenKind>,
}

impl Parser {
    pub open spec fn wf(&self) -> bool {
        &&& tokens_wf(self.tokens@)
        &&& self.position < self.tokens@.len()
        &&& self.consumed_tokens@ == Seq::new(
            self.position as nat,
            |i: int| self.tokens@[i].kind,
        )
    }

    /// The token stream is unchanged and the scan position has not moved back.
    pub open spec fn advanced_from(&self, pre: Parser) -> bool {
        &&& self.tokens@ == pre.tokens@
        &&& self.wf()
        &&& pre.position <= self.position
    }

    pub fn new(tokens: Vec<Token>) -> (r: Parser)
        requires
            tokens_wf(tokens@),
        ensures
            r.wf(),
            r.tokens@ == tokens@,
            r.position == 0,
            r.recovery_states@ == Seq::<ErrorRecoveryState>::empty(),
    {
        let r = Parser {
            tokens,
            position: 0,
            recovery_states: Vec::new(),
            consumed_tokens: Vec::new(),
        };
        proof {
            assert(r.consumed_tokens@ =~= Seq::new(0nat, |i: int| r.tokens@[i].kind));
            assert(r.recovery_states@ =~= Seq::<ErrorRecoveryState>::empty());
        }
        r
    }

    fn push_recovery_state(&mut self, recovery_state: ErrorRecoveryState)
        ensures
            final(self).tokens@ == old(self).tokens@,
            final(self).position == old(self).position,
            final(self).recovery_states@ == old(self).recovery_states@.push(recovery_state),
            final(self).consumed_tokens@ == old(self).consumed_tokens@,
    {
        self.recovery_states.push(recovery_state);
    }

    fn pop_recovery_state(&mut self) -> (r: Option<ErrorRecoveryState>)
        ensures
            final(self).tokens@ == old(self).tokens@,
            final(self).position == old(self).position,
            final(self).consumed_tokens@ == old(self).consumed_tokens@,
            ({
                let states = old(self).recovery_states@;
                if states.len() > 0 {
                    r == Some(states[states.len() - 1]) && final(self).recovery_states@ == states.subrange(
                        0,
                        states.len() - 1,
                    )
                } else {
                    r is None && final(self).recovery_states@ == states
                }
            }),
    {
        self.recovery_states.pop()
    }

    fn current_recovery_state(&self) -> (r: Option<&ErrorRecoveryState>)
        ensures
            ({
                let states = self.recovery_states@;
                if states.len() > 0 {
                    r matches Some(s) && *s == states[states.len() - 1]
                } else {
                    r is None
                }
            }),
    {
        self.recovery_states.last()
    }

    fn advance(&mut self) -> (t: Token)
        requires
            old(self).wf(),
            old(self).tokens@[old(self).position as int].kind != TokenKind::EndOfFile,
        ensures
            final(self).advanced_from(*old(self)),
            final(self).position == old(self).position + 1,
            t == old(self).tokens@[old(self).position as int],
            final(self).recovery_states@ == old(self).recovery_states@,
            final(self).consumed_tokens@ == old(self).consumed_tokens@.push(t.kind),
    {
        let n = self.tokens.len();
        let t = self.tokens[self.position].clone();
        proof {
            assert(self.tokens@[self.tokens@.len() - 1].kind == TokenKind::EndOfFile);
        }
        self.position = self.position + 1;
        self.consumed_tokens.push(t.kind);
        proof {
            assert(self.consumed_tokens@ =~= Seq::new(
                self.position as nat,
                |i: int| self.tokens@[i].kind,
            ));
        }
        t
    }

    fn peek(&self) -> (t: &Token)
        requires
            self.wf(),
        ensures
            *t == self.tokens@[self.position as int],
    {
        &self.tokens[self.position]
    }

    /// Consumes and returns the current token when its kind is acceptable;
    /// otherwise reports which token was found and which kinds were expected.
    fn expect(&mut self, expected_tokens: &[TokenKind]) -> (r: Result<Token, Diagnostic>)
        requires
            old(self).wf(),
        ensures
            final(self).advanced_from(*old(self)),
            final(self).recovery_states@ == old(self).recovery_states@,
            ({
                let cur = old(self).tokens@[old(self).position as int];
                match r {
                    Ok(t) => {
                        &&& expected_tokens@.contains(cur.kind)
                        &&& cur.kind != TokenKind::EndOfFile
                        &&& t == cur
                        &&& final(self).position == old(self).position + 1
                    },
                    Err(d) => {
                        &&& !(expected_tokens@.contains(cur.kind) && cur.kind
                            != TokenKind::EndOfFile)
                        &&& final(self).position == old(self).position
                        &&& diag_view(d) == (DiagnosticV::UnexpectedToken {
                            expected: expected_tokens@,
                            found: cur.value@,
                        })
                    },
                }
            }),
    {
        let kind = self.peek().kind;
        let mut found = false;
        let mut i: usize = 0;
        let n = expected_tokens.len();
        while i < n
            invariant
                n == expected_tokens@.len(),
                i <= n,
                found == exists|j: int| 0 <= j < i && expected_tokens@[j] == kind,
            decreases n - i,
        {
            if expected_tokens[i] == kind {
                found = true;
            }
            i = i + 1;
        }
        if found && kind != TokenKind::EndOfFile {
            Ok(self.advance())
        } else {
            let found_token = self.peek().clone();
            let expected = vstd::slice::slice_to_vec(expected_tokens);
            Err(Diagnostic::unexpected_token(expected, found_token))
        }
    }

    /// Panic-mode recovery: discards tokens until the end of the stream or a
    /// synchronisation point.
    fn recover(&mut self)
        requires
            old(self).wf(),
        ensures
            final(self).advanced_from(*old(self)),
            final(self).recovery_states@ == old(self).recovery_states@,
            final(self).position as int == recover_pos(
                models_of(old(self).tokens@),
                old(self).position as int,
            ),
    {
        let ghost ms = models_of(old(self).tokens@);
        loop
            invariant
                self.wf(),
                self.tokens@ == old(self).tokens@,
                ms == models_of(self.tokens@),
                old(self).position <= self.position,
                self.recovery_states@ == old(self).recovery_states@,
                recover_pos(ms, self.position as int) == recover_pos(
                    ms,
                    old(self).position as int,
                ),
            ensures
                self.wf(),
                self.tokens@ == old(self).tokens@,
                old(self).position <= self.position,
                self.recovery_states@ == old(self).recovery_states@,
                self.position as int == recover_pos(ms, old(self).position as int),
            decreases self.tokens@.len() - self.position,
        {
            let token_kind = self.peek().kind;
            if token_kind == TokenKind::EndOfFile || Self::is_recovery_end_point(token_kind) {
                break ;
            } else {
                self.advance();
            }
        }
    }

    fn is_recovery_end_point(k: TokenKind) -> (r: bool)
        ensures
            r == is_recovery_point(k),
    {
        k == TokenKind::LetKeyword || k == TokenKind::SetKeyword || k == TokenKind::IfKeyword || k
            == TokenKind::WhileKeyword || k == TokenKind::ForKeyword || k == TokenKind::EndKeyword
            || k == TokenKind::ElseKeyword || k == TokenKind::DefineKeyword
    }

    /// Parses the whole stream. Every statement-level failure is recorded and
    /// parsing resumes after recovery; the parse fails exactly when at least
    /// one diagnostic was reported.
    pub fn parse(self) -> (r: Result<Ast, Diagnostics>)
        requires
            self.wf(),
        ensures
            r matches Err(d) ==> d.diagnostics@.len() > 0,
            ({
                let r0 = p_all(
                    models_of(self.tokens@),
                    self.position as int,
                    self.recovery_states@,
                    Seq::empty(),
                    Seq::empty(),
                );
                match r {
                    Ok(ast) => r0.1.len() == 0 && stmts_view(ast.statements@) == r0.0,
                    Err(d) => r0.1.len() > 0 && diags_view(d.diagnostics@) == r0.1,
                }
            }),
    {
        let ghost ms = models_of(self.tokens@);
        let mut this = self;
        let mut ast = Ast::new();
        let mut diagnostic = Diagnostics::new();
        proof {
            assert(stmts_view(ast.statements@) =~= Seq::<StatementV>::empty());
            assert(diags_view(diagnostic.diagnostics@) =~= Seq::<DiagnosticV>::empty());
        }
        loop
            invariant_except_break
                p_all(ms, self.position as int, self.recovery_states@, Seq::empty(), Seq::empty())
                    == p_all(
                    ms,
                    this.position as int,
                    this.recovery_states@,
                    stmts_view(ast.statements@),
                    diags_view(diagnostic.diagnostics@),
                ),
            invariant
                this.wf(),
                this.tokens@ == self.tokens@,
                ms == models_of(this.tokens@),
            ensures
                p_all(ms, self.position as int, self.recovery_states@, Seq::empty(), Seq::empty())
                    == (stmts_view(ast.statements@), diags_view(diagnostic.diagnostics@)),
            decreases this.tokens@.len() - this.position,
        {
            let ghost pos_top = this.position as int;
            let ghost rec_top = this.recovery_states@;
            let ghost stmts_before = stmts_view(ast.statements@);
            let ghost diags_before = diags_view(diagnostic.diagnostics@);
            let stmt_result = this.parse_statement();
            match stmt_result {
                Ok(Some(stmt)) => {
                    proof {
                        lemma_stmts_view_push(ast.statements@, stmt);
                        assert(p_all(ms, pos_top, rec_top, stmts_before, diags_before) == p_all(
                            ms,
                            this.position as int,
                            this.recovery_states@,
                            stmts_before.push(stmt_view(stmt)),
                            diags_before,
                        ));
                    }
                    ast.add_statement(stmt);
                },
                Ok(None) => {
                    proof {
                        assert(p_all(ms, pos_top, rec_top, stmts_before, diags_before) == (
                        stmts_before,
                        diags_before,
                        ));
                    }
                    break ;
                },
                Err(diag) => {
                    let ghost pos_failed = this.position as int;
                    proof {
                        lemma_diags_view_push(diagnostic.diagnostics@, diag);
                    }
                    diagnostic.report(diag);
                    this.recover();
                    proof {
                        assert(this.position as int == recover_pos(ms, pos_failed));
                        assert(p_all(ms, pos_top, rec_top, stmts_before, diags_before) == p_all(
                            ms,
                            this.position as int,
                            this.recovery_states@,
                            stmts_before,
                            diags_before.push(diag_view(diag)),
                        ));
                    }
                },
            }
        }
        if diagnostic.has_errors() {
            return Err(diagnostic);
        }
        Ok(ast)
    }

    /// Dispatches on the current token to the statement parser for its kind.
    /// At the end of the stream there is no statement; an unusable token is a
    /// diagnostic.
    fn parse_statement(&mut self) -> (r: Result<Option<Statement>, Diagnostic>)
        requires
            old(self).wf(),
        ensures
            final(self).advanced_from(*old(self)),
            r matches Ok(s) && s is Some ==> final(self).position > old(self).position,
            r is Err ==> final(self).position > old(self).position,
            ({
                let r0 = p_stmt(
                    models_of(old(self).tokens@),
                    old(self).position as int,
                    old(self).recovery_states@,
                );
                match r {
                    Ok(Some(s)) => r0 == PStmt::Parsed(
                        stmt_view(s),
                        final(self).position as int,
                        final(self).recovery_states@,
                    ),
                    Ok(None) => r0 == PStmt::NoMore(
                        final(self).position as int,
                        final(self).recovery_states@,
                    ),
                    Err(d) => r0 == PStmt::Failed(
                        diag_view(d),
                        final(self).position as int,
                        final(self).recovery_states@,
                    ),
                }
            }),
        decreases old(self).tokens@.len() - old(self).position, 6int,
    {
        let next_token_kind = self.peek().kind;
        if next_token_kind == TokenKind::EndOfFile {
            return Ok(None);
        }
        match next_token_kind {
            TokenKind::LetKeyword => Ok(Some(self.parse_variable_declaration()?)),
            TokenKind::SetKeyword => Ok(Some(self.parse_variable_assignement()?)),
            TokenKind::IfKeyword => {
                let res = self.parse_if_statement();
                match res {
                    Ok(s) => Ok(Some(s)),
                    Err(diag) => {
                        self.push_recovery_state(
                            ErrorRecoveryState::RecoverFromBadBlock(BlockType::IfBlock),
                        );
                        Err(diag)
                    },
                }
            },
            TokenKind::WhileKeyword => {
                let res = self.parse_while_statement();
                match res {
                    Ok(s) => Ok(Some(s)),
                    Err(diag) => {
                        self.push_recovery_state(
                            ErrorRecoveryState::RecoverFromBadBlock(BlockType::WhileBlock),
                        );
                        Err(diag)
                    },
                }
            },
            TokenKind::ForKeyword => {
                let res = self.parse_for_statement();
                match res {
                    Ok(s) => Ok(Some(s)),
                    Err(diag) => {
                        self.push_recovery_state(
                            ErrorRecoveryState::RecoverFromBadBlock(BlockType::ForBlock),
                        );
                        Err(diag)
                    },
                }
            },
            TokenKind::DefineKeyword => {
                let res = self.parse_function_definition();
                match res {
                    Ok(s) => Ok(Some(s)),
                    Err(diag) => {
                        self.push_recovery_state(
                            ErrorRecoveryState::RecoverFromBadBlock(BlockType::FunctionBlock),
                        );
                        Err(diag)
                    },
                }
            },
            TokenKind::Identifier => {
                let data = self.parse_function_call()?;
                Ok(Some(Statement::FunctionCall(data)))
            },
            TokenKind::ReturnKeyword => Ok(Some(self.parse_return_statement()?)),
            TokenKind::ElseKeyword => {
                let in_bad_if = match self.current_recovery_state() {
                    Some(state) => *state == ErrorRecoveryState::RecoverFromBadBlock(
                        BlockType::IfBlock,
                    ),
                    None => false,
                };
                if in_bad_if {
                    // The `else` closes the failed `if` block: consume it silently.
                    self.advance();
                    self.parse_statement()
                } else {
                    let after_end = match self.consumed_tokens.last() {
                        Some(k) => *k == TokenKind::EndKeyword,
                        None => false,
                    };
                    self.push_recovery_state(
                        ErrorRecoveryState::RecoverFromBadBlock(BlockType::ElseBlock),
                    );
                    let tok = self.advance();
                    if after_end {
                        Err(Diagnostic::unexpected_else_after_end(tok.span()))
                    } else {
                        Err(Diagnostic::unexpected_else_token(tok.span()))
                    }
                }
            },
            TokenKind::EndKeyword => {
                let in_bad_block = match self.current_recovery_state() {
                    Some(_) => true,
                    None => false,
                };
                if in_bad_block {
                    // The `end` closes the failed block: consume it silently.
                    self.pop_recovery_state();
                    self.advance();
                    self.parse_statement()
                } else {
                    let tok = self.advance();
                    Err(Diagnostic::unexpected_end_token(tok.span()))
                }
            },
            _ => {
                let tok = self.advance();
                let expected = Self::recovery_point_kinds();
                Err(Diagnostic::unexpected_token(expected, tok))
            },
        }
    }

    /// Parses statements into a block until one of `stop_tokens` (or the end
    /// of the stream) is next.
    fn parse_statements_until(&mut self, stop_tokens: &[TokenKind]) -> (r: Result<
        Statement,
        Diagnostic,
    >)
        requires
            old(self).wf(),
        ensures
            final(self).advanced_from(*old(self)),
            ({
                let r0 = p_until(
                    models_of(old(self).tokens@),
                    old(self).position as int,
                    stop_tokens@,
                    Seq::empty(),
                    old(self).recovery_states@,
                );
                match r {
                    Ok(s) => stmt_view(s) matches StatementV::Block(ss) && r0 == PBlock::Parsed(
                        ss,
                        final(self).position as int,
                        final(self).recovery_states@,
                    ),
                    Err(d) => r0 == PBlock::Failed(
                        diag_view(d),
                        final(self).position as int,
                        final(self).recovery_states@,
                    ),
                }
            }),
        decreases old(self).tokens@.len() - old(self).position, 12int,
    {
        let ghost ms = models_of(old(self).tokens@);
        let mut statements: Vec<Statement> = Vec::new();
        proof {
            assert(stmts_view(statements@) =~= Seq::<StatementV>::empty());
        }
        loop
            invariant_except_break
                p_until(
                    ms,
                    old(self).position as int,
                    stop_tokens@,
                    Seq::empty(),
                    old(self).recovery_states@,
                ) == p_until(
                    ms,
                    self.position as int,
                    stop_tokens@,
                    stmts_view(statements@),
                    self.recovery_states@,
                ),
            invariant
                self.wf(),
                self.tokens@ == old(self).tokens@,
                ms == models_of(self.tokens@),
                old(self).position <= self.position,
            ensures
                self.wf(),
                self.tokens@ == old(self).tokens@,
                old(self).position <= self.position,
                p_until(
                    ms,
                    old(self).position as int,
                    stop_tokens@,
                    Seq::empty(),
                    old(self).recovery_states@,
                ) == PBlock::Parsed(
                    stmts_view(statements@),
                    self.position as int,
                    self.recovery_states@,
                ),
            decreases self.tokens@.len() - self.position,
        {
            let ghost pos_top = self.position as int;
            let ghost rec_top = self.recovery_states@;
            let ghost stmts_top = stmts_view(statements@);
            let kind = self.peek().kind;
            let mut stop = false;
            let mut i: usize = 0;
            let n = stop_tokens.len();
            while i < n
                invariant
                    i <= n,
                    n == stop_tokens@.len(),
                    stop == exists|j: int| 0 <= j < i && stop_tokens@[j] == kind,
                decreases n - i,
            {
                if stop_tokens[i] == kind {
                    stop = true;
                }
                i = i + 1;
            }
            proof {
                assert(stop == stop_tokens@.contains(kind));
            }
            if stop {
                break ;
            }
            let stmt_opt = match self.parse_statement() {
                Ok(o) => o,
                Err(d) => {
                    proof {
                        assert(p_until(ms, pos_top, stop_tokens@, stmts_top, rec_top)
                            == PBlock::Failed(
                            diag_view(d),
                            self.position as int,
                            self.recovery_states@,
                        ));
                    }
                    return Err(d);
                },
            };
            match stmt_opt {
                Some(stmt) => {
                    proof {
                        lemma_stmts_view_push(statements@, stmt);
                        assert(p_until(ms, pos_top, stop_tokens@, stmts_top, rec_top) == p_until(
                            ms,
                            self.position as int,
                            stop_tokens@,
                            stmts_top.push(stmt_view(stmt)),
                            self.recovery_states@,
                        ));
                    }
                    statements.push(stmt);
                },
                None => {
                    proof {
                        assert(p_until(ms, pos_top, stop_tokens@, stmts_top, rec_top)
                            == PBlock::Parsed(
                            stmts_top,
                            self.position as int,
                            self.recovery_states@,
                        ));
                    }
                    break ;
                },
            }
        }
        Ok(Statement::BlockStatement { statements })
    }

    /// Parses a non-empty list of tokens of one kind, separated by `separator`.
    fn parse_tokens_list(&mut self, target_token_type: TokenKind, separator: Option<TokenKind>) -> (r:
        Result<Vec<Token>, Diagnostic>)
        requires
            old(self).wf(),
            target_token_type == TokenKind::Identifier,
            separator == Some(TokenKind::Comma),
        ensures
            final(self).advanced_from(*old(self)),
            final(self).recovery_states@ == old(self).recovery_states@,
            r matches Ok(ts) ==> final(self).position > old(self).position && ts@.len() >= 1
                && (forall|i: int| 0 <= i < ts@.len() ==> (#[trigger] ts@[i].kind)
                == target_token_type),
            ({
                let r0 = p_params(models_of(old(self).tokens@), old(self).position as int);
                match r {
                    Ok(ts) => r0 == PParams::Parsed(
                        tokens_text(ts@),
                        final(self).position as int,
                    ),
                    Err(d) => r0 == PParams::Failed(diag_view(d), final(self).position as int),
                }
            }),
        decreases old(self).tokens@.len() - old(self).position, 12int,
    {
        let ghost ms = models_of(old(self).tokens@);
        let target: &[TokenKind] = &[target_token_type];
        proof {
            assert(target@ =~= seq![TokenKind::Identifier]);
        }
        let mut tokens: Vec<Token> = Vec::new();
        let first = self.expect(target)?;
        proof {
            assert(tokens_text(tokens@) =~= Seq::<Seq<char>>::empty());
        }
        tokens.push(first);
        proof {
            assert(tokens_text(tokens@) =~= seq![first.value@]);
        }
        loop
            invariant
                self.wf(),
                self.tokens@ == old(self).tokens@,
                ms == models_of(self.tokens@),
                old(self).position < self.position,
                self.recovery_states@ == old(self).recovery_states@,
                tokens@.len() >= 1,
                forall|i: int| 0 <= i < tokens@.len() ==> (#[trigger] tokens@[i].kind)
                    == TokenKind::Identifier,
                separator == Some(TokenKind::Comma),
                p_params(ms, old(self).position as int) == p_params_rest(
                    ms,
                    self.position as int,
                    tokens_text(tokens@),
                ),
            ensures
                self.wf(),
                self.tokens@ == old(self).tokens@,
                old(self).position < self.position,
                self.recovery_states@ == old(self).recovery_states@,
                tokens@.len() >= 1,
                forall|i: int| 0 <= i < tokens@.len() ==> (#[trigger] tokens@[i].kind)
                    == TokenKind::Identifier,
                p_params(ms, old(self).position as int) == PParams::Parsed(
                    tokens_text(tokens@),
                    self.position as int,
                ),
            decreases self.tokens@.len() - self.position,
        {
            match separator {
                Some(sep) => {
                    if self.peek().kind != sep {
                        break ;
                    }
                    proof {
                        assert(self.tokens@[self.tokens@.len() - 1].kind == TokenKind::EndOfFile);
                    }
                    self.advance();
                },
                None => {},
            }
            let target_again: &[TokenKind] = &[TokenKind::Identifier];
            proof {
                assert(target_again@ =~= seq![TokenKind::Identifier]);
            }
            let ghost before = tokens_text(tokens@);
            let next = self.expect(target_again)?;
            tokens.push(next);
            proof {
                assert(tokens_text(tokens@) =~= before.push(next.value@));
            }
        }
        Ok(tokens)
    }

    /// `let <identifier> be <expression>`
    fn parse_variable_declaration(&mut self) -> (r: Result<Statement, Diagnostic>)
        requires
            old(self).wf(),
        ensures
            final(self).advanced_from(*old(self)),
            r matches Ok(s) ==> final(self).position > old(self).position && (stmt_view(s) matches
                StatementV::Declaration { name, value } && name == old(self).tokens@[old(
                self,
            ).position + 1].value@),
            r is Err ==> final(self).position > old(self).position || old(self).tokens@[old(
                self,
            ).position as int].kind != TokenKind::LetKeyword,
            ({
                let r0 = p_declaration(
                    models_of(old(self).tokens@),
                    old(self).position as int,
                    old(self).recovery_states@,
                );
                match r {
                    Ok(s) => r0 == PStmt::Parsed(
                        stmt_view(s),
                        final(self).position as int,
                        final(self).recovery_states@,
                    ),
                    Err(d) => r0 == PStmt::Failed(
                        diag_view(d),
                        final(self).position as int,
                        final(self).recovery_states@,
                    ),
                }
            }),
        decreases old(self).tokens@.len() - old(self).position, 5int,
    {
        let kw: &[TokenKind] = &[TokenKind::LetKeyword];
        let ident: &[TokenKind] = &[TokenKind::Identifier];
        let be_kw: &[TokenKind] = &[TokenKind::BeKeyword];
        proof {
            assert(kw@ =~= seq![TokenKind::LetKeyword]);
            assert(ident@ =~= seq![TokenKind::Identifier]);
            assert(be_kw@ =~= seq![TokenKind::BeKeyword]);
        }
        self.expect(kw)?;
        let name_token = self.expect(ident)?;
        self.expect(be_kw)?;
        let value = self.parse_expression()?;
        Ok(Statement::VariableDeclaration { name: name_token, value })
    }

    /// `set <identifier> to <expression>`
    fn parse_variable_assignement(&mut self) -> (r: Result<Statement, Diagnostic>)
        requires
            old(self).wf(),
        ensures
            final(self).advanced_from(*old(self)),
            r matches Ok(s) ==> final(self).position > old(self).position && (stmt_view(s) matches
                StatementV::Assignment { name, value } && name == old(self).tokens@[old(
                self,
            ).position + 1].value@),
            r is Err ==> final(self).position > old(self).position || old(self).tokens@[old(
                self,
            ).position as int].kind != TokenKind::SetKeyword,
            ({
                let r0 = p_assignment(
                    models_of(old(self).tokens@),
                    old(self).position as int,
                    old(self).recovery_states@,
                );
                match r {
                    Ok(s) => r0 == PStmt::Parsed(
                        stmt_view(s),
                        final(self).position as int,
                        final(self).recovery_states@,
                    ),
                    Err(d) => r0 == PStmt::Failed(
                        diag_view(d),
                        final(self).position as int,
                        final(self).recovery_states@,
                    ),
                }
            }),
        decreases old(self).tokens@.len() - old(self).position, 5int,
    {
        let kw: &[TokenKind] = &[TokenKind::SetKeyword];
        let ident: &[TokenKind] = &[TokenKind::Identifier];
        let to_kw: &[TokenKind] = &[TokenKind::ToKeyword];
        proof {
            assert(kw@ =~= seq![TokenKind::SetKeyword]);
            assert(ident@ =~= seq![TokenKind::Identifier]);
            assert(to_kw@ =~= seq![TokenKind::ToKeyword]);
        }
        self.expect(kw)?;
        let name_token = self.expect(ident)?;
        self.expect(to_kw)?;
        let value = self.parse_expression()?;
        Ok(Statement::VariableAssignment { name: name_token, value })
    }

    /// `if <condition> then <statements> [else ...] end`
    fn parse_if_statement(&mut self) -> (r: Result<Statement, Diagnostic>)
        requires
            old(self).wf(),
        ensures
            final(self).advanced_from(*old(self)),
            r matches Ok(s) ==> final(self).position > old(self).position && (stmt_view(s) matches
                StatementV::If { .. }),
            r is Err ==> final(self).position > old(self).position || old(self).tokens@[old(
                self,
            ).position as int].kind != TokenKind::IfKeyword,
            ({
                let r0 = p_if(
                    models_of(old(self).tokens@),
                    old(self).position as int,
                    old(self).recovery_states@,
                );
                match r {
                    Ok(s) => r0 == PStmt::Parsed(
                        stmt_view(s),
                        final(self).position as int,
                        final(self).recovery_states@,
                    ),
                    Err(d) => r0 == PStmt::Failed(
                        diag_view(d),
                        final(self).position as int,
                        final(self).recovery_states@,
                    ),
                }
            }),
        decreases old(self).tokens@.len() - old(self).position, 5int,
    {
        let if_then_branch = self.parse_if_then_branch()?;
        let else_branch: Option<Box<Statement>> = if self.peek().kind == TokenKind::ElseKeyword {
            Some(Box::new(self.parse_else_branch()?))
        } else {
            let end_kw: &[TokenKind] = &[TokenKind::EndKeyword];
            proof {
                assert(end_kw@ =~= seq![TokenKind::EndKeyword]);
            }
            self.expect(end_kw)?;
            None
        };
        Ok(Statement::IfStatement { if_then_branch, else_branch })
    }

    fn parse_if_then_branch(&mut self) -> (r: Result<IfThenBranch, Diagnostic>)
        requires
            old(self).wf(),
        ensures
            final(self).advanced_from(*old(self)),
            r is Ok ==> final(self).position > old(self).position,
            r is Err ==> final(self).position > old(self).position || old(self).tokens@[old(
                self,
            ).position as int].kind != TokenKind::IfKeyword,
            ({
                let r0 = p_if_then(
                    models_of(old(self).tokens@),
                    old(self).position as int,
                    old(self).recovery_states@,
                );
                match r {
                    Ok(b) => stmt_view(*b.then_branch) matches StatementV::Block(ss) && r0
                        == PIfThen::Parsed(
                        expr_view(b.condition),
                        ss,
                        final(self).position as int,
                        final(self).recovery_states@,
                    ),
                    Err(d) => r0 == PIfThen::Failed(
                        diag_view(d),
                        final(self).position as int,
                        final(self).recovery_states@,
                    ),
                }
            }),
        decreases old(self).tokens@.len() - old(self).position, 4int,
    {
        let if_kw: &[TokenKind] = &[TokenKind::IfKeyword];
        let then_kw: &[TokenKind] = &[TokenKind::ThenKeyword];
        let stops: &[TokenKind] = &[TokenKind::ElseKeyword, TokenKind::EndKeyword];
        proof {
            assert(if_kw@ =~= seq![TokenKind::IfKeyword]);
            assert(then_kw@ =~= seq![TokenKind::ThenKeyword]);
            assert(stops@ =~= seq![TokenKind::ElseKeyword, TokenKind::EndKeyword]);
        }
        self.expect(if_kw)?;
        let condition = self.parse_expression()?;
        self.expect(then_kw)?;
        let then_branch = self.parse_statements_until(stops)?;
        Ok(IfThenBranch { condition, then_branch: Box::new(then_branch) })
    }

    /// `else <statements> end`, or `else if ...` chaining.
    fn parse_else_branch(&mut self) -> (r: Result<Statement, Diagnostic>)
        requires
            old(self).wf(),
        ensures
            final(self).advanced_from(*old(self)),
            ({
                let r0 = p_else(
                    models_of(old(self).tokens@),
                    old(self).position as int,
                    old(self).recovery_states@,
                );
                match r {
                    Ok(s) => r0 == PStmt::Parsed(
                        stmt_view(s),
                        final(self).position as int,
                        final(self).recovery_states@,
                    ),
                    Err(d) => r0 == PStmt::Failed(
                        diag_view(d),
                        final(self).position as int,
                        final(self).recovery_states@,
                    ),
                }
            }),
        decreases old(self).tokens@.len() - old(self).position, 5int,
    {
        let else_kw: &[TokenKind] = &[TokenKind::ElseKeyword];
        let end_kw: &[TokenKind] = &[TokenKind::EndKeyword];
        let stops: &[TokenKind] = &[TokenKind::EndKeyword];
        proof {
            assert(else_kw@ =~= seq![TokenKind::ElseKeyword]);
            assert(end_kw@ =~= seq![TokenKind::EndKeyword]);
            assert(stops@ =~= seq![TokenKind::EndKeyword]);
        }
        self.expect(else_kw)?;
        if self.peek().kind == TokenKind::IfKeyword {
            return self.parse_if_statement();
        }
        let else_branch = self.parse_statements_until(stops)?;
        self.expect(end_kw)?;
        Ok(else_branch)
    }

    /// `while <condition> do <statements> end`
    fn parse_while_statement(&mut self) -> (r: Result<Statement, Diagnostic>)
        requires
            old(self).wf(),
        ensures
            final(self).advanced_from(*old(self)),
            r matches Ok(s) ==> final(self).position > old(self).position && (stmt_view(s) matches
                StatementV::While { .. }),
            r is Err ==> final(self).position > old(self).position || old(self).tokens@[old(
                self,
            ).position as int].kind != TokenKind::WhileKeyword,
            ({
                let r0 = p_while(
                    models_of(old(self).tokens@),
                    old(self).position as int,
                    old(self).recovery_states@,
                );
                match r {
                    Ok(s) => r0 == PStmt::Parsed(
                        stmt_view(s),
                        final(self).position as int,
                        final(self).recovery_states@,
                    ),
                    Err(d) => r0 == PStmt::Failed(
                        diag_view(d),
                        final(self).position as int,
                        final(self).recovery_states@,
                    ),
                }
            }),
        decreases old(self).tokens@.len() - old(self).position, 5int,
    {
        let while_kw: &[TokenKind] = &[TokenKind::WhileKeyword];
        let do_kw: &[TokenKind] = &[TokenKind::DoKeyword];
        let end_kw: &[TokenKind] = &[TokenKind::EndKeyword];
        let stops: &[TokenKind] = &[TokenKind::EndKeyword];
        proof {
            assert(while_kw@ =~= seq![TokenKind::WhileKeyword]);
            assert(do_kw@ =~= seq![TokenKind::DoKeyword]);
            assert(end_kw@ =~= seq![TokenKind::EndKeyword]);
            assert(stops@ =~= seq![TokenKind::EndKeyword]);
        }
        self.expect(while_kw)?;
        let condition = self.parse_expression()?;
        self.expect(do_kw)?;
        let body = self.parse_statements_until(stops)?;
        self.expect(end_kw)?;
        Ok(Statement::WhileStatement { condition, body: Box::new(body) })
    }

    /// `for <identifier> from <start> to <end> [step <step>] do <statements> end`
    fn parse_for_statement(&mut self) -> (r: Result<Statement, Diagnostic>)
        requires
            old(self).wf(),
        ensures
            final(self).advanced_from(*old(self)),
            r matches Ok(s) ==> final(self).position > old(self).position && (stmt_view(s) matches
                StatementV::For { variable, .. } && variable == old(self).tokens@[old(
                self,
            ).position + 1].value@),
            r is Err ==> final(self).position > old(self).position || old(self).tokens@[old(
                self,
            ).position as int].kind != TokenKind::ForKeyword,
            ({
                let r0 = p_for(
                    models_of(old(self).tokens@),
                    old(self).position as int,
                    old(self).recovery_states@,
                );
                match r {
                    Ok(s) => r0 == PStmt::Parsed(
                        stmt_view(s),
                        final(self).position as int,
                        final(self).recovery_states@,
                    ),
                    Err(d) => r0 == PStmt::Failed(
                        diag_view(d),
                        final(self).position as int,
                        final(self).recovery_states@,
                    ),
                }
            }),
        decreases old(self).tokens@.len() - old(self).position, 5int,
    {
        let for_kw: &[TokenKind] = &[TokenKind::ForKeyword];
        let ident: &[TokenKind] = &[TokenKind::Identifier];
        let from_kw: &[TokenKind] = &[TokenKind::FromKeyword];
        let to_kw: &[TokenKind] = &[TokenKind::ToKeyword];
        let do_kw: &[TokenKind] = &[TokenKind::DoKeyword];
        let end_kw: &[TokenKind] = &[TokenKind::EndKeyword];
        let stops: &[TokenKind] = &[TokenKind::EndKeyword];
        proof {
            assert(for_kw@ =~= seq![TokenKind::ForKeyword]);
            assert(ident@ =~= seq![TokenKind::Identifier]);
            assert(from_kw@ =~= seq![TokenKind::FromKeyword]);
            assert(to_kw@ =~= seq![TokenKind::ToKeyword]);
            assert(do_kw@ =~= seq![TokenKind::DoKeyword]);
            assert(end_kw@ =~= seq![TokenKind::EndKeyword]);
            assert(stops@ =~= seq![TokenKind::EndKeyword]);
        }
        self.expect(for_kw)?;
        let variable = self.expect(ident)?;
        self.expect(from_kw)?;
        let start = self.parse_expression()?;
        self.expect(to_kw)?;
        let end = self.parse_expression()?;
        let step: Option<Expression> = if self.peek().kind == TokenKind::StepKeyword {
            proof {
                assert(self.tokens@[self.tokens@.len() - 1].kind == TokenKind::EndOfFile);
            }
            self.advance();
            Some(self.parse_expression()?)
        } else {
            None
        };
        self.expect(do_kw)?;
        let body = self.parse_statements_until(stops)?;
        self.expect(end_kw)?;
        Ok(Statement::ForStatement { variable, start, end, step, body: Box::new(body) })
    }

    /// `define function <name> [with <parameters>] as <statements> end`
    fn parse_function_definition(&mut self) -> (r: Result<Statement, Diagnostic>)
        requires
            old(self).wf(),
        ensures
            final(self).advanced_from(*old(self)),
            r matches Ok(s) ==> final(self).position > old(self).position && (stmt_view(s) matches
                StatementV::FunctionDefinition { name, .. } && name == old(self).tokens@[old(
                self,
            ).position + 2].value@),
            r is Err ==> final(self).position > old(self).position || old(self).tokens@[old(
                self,
            ).position as int].kind != TokenKind::DefineKeyword,
            ({
                let r0 = p_def(
                    models_of(old(self).tokens@),
                    old(self).position as int,
                    old(self).recovery_states@,
                );
                match r {
                    Ok(s) => r0 == PStmt::Parsed(
                        stmt_view(s),
                        final(self).position as int,
                        final(self).recovery_states@,
                    ),
                    Err(d) => r0 == PStmt::Failed(
                        diag_view(d),
                        final(self).position as int,
                        final(self).recovery_states@,
                    ),
                }
            }),
        decreases old(self).tokens@.len() - old(self).position, 5int,
    {
        let define_kw: &[TokenKind] = &[TokenKind::DefineKeyword];
        let function_kw: &[TokenKind] = &[TokenKind::FunctionKeyword];
        let ident: &[TokenKind] = &[TokenKind::Identifier];
        let as_kw: &[TokenKind] = &[TokenKind::AsKeyword];
        let end_kw: &[TokenKind] = &[TokenKind::EndKeyword];
        let stops: &[TokenKind] = &[TokenKind::EndKeyword];
        proof {
            assert(define_kw@ =~= seq![TokenKind::DefineKeyword]);
            assert(function_kw@ =~= seq![TokenKind::FunctionKeyword]);
            assert(ident@ =~= seq![TokenKind::Identifier]);
            assert(as_kw@ =~= seq![TokenKind::AsKeyword]);
            assert(end_kw@ =~= seq![TokenKind::EndKeyword]);
            assert(stops@ =~= seq![TokenKind::EndKeyword]);
        }
        self.expect(define_kw)?;
        self.expect(function_kw)?;
        let function_name = self.expect(ident)?;
        let arguments: Vec<Token> = if self.peek().kind == TokenKind::WithKeyword {
            proof {
                assert(self.tokens@[self.tokens@.len() - 1].kind == TokenKind::EndOfFile);
            }
            self.advance();
            self.parse_tokens_list(TokenKind::Identifier, Some(TokenKind::Comma))?
        } else {
            let none: Vec<Token> = Vec::new();
            proof {
                assert(tokens_text(none@) =~= Seq::<Seq<char>>::empty());
            }
            none
        };
        self.expect(as_kw)?;
        let body = self.parse_statements_until(stops)?;
        self.expect(end_kw)?;
        Ok(Statement::FunctionDefinition { name: function_name, arguments, body: Box::new(body) })
    }

    /// `<name>(<arguments>)` in statement position.
    fn parse_function_call(&mut self) -> (r: Result<FunctionCallData, Diagnostic>)
        requires
            old(self).wf(),
        ensures
            final(self).advanced_from(*old(self)),
            final(self).recovery_states@ == old(self).recovery_states@,
            r matches Ok(d) ==> final(self).position > old(self).position && d.function_name == old(
                self,
            ).tokens@[old(self).position as int],
            r is Err ==> final(self).position > old(self).position || old(self).tokens@[old(
                self,
            ).position as int].kind != TokenKind::Identifier,
            ({
                let ms = models_of(old(self).tokens@);
                let pos = old(self).position as int;
                if ms[pos].kind == TokenKind::Identifier {
                    match r {
                        Ok(d) => p_call_args(ms, pos + 1) == PArgs::Parsed(
                            exprs_view(d.arguments@),
                            final(self).position as int,
                        ) && d.function_name.value@ == ms[pos].text,
                        Err(d) => p_call_args(ms, pos + 1) == PArgs::Failed(
                            diag_view(d),
                            final(self).position as int,
                        ),
                    }
                } else {
                    r matches Err(d) && diag_view(d) == unexpected(
                        seq![TokenKind::Identifier],
                        ms[pos],
                    ) && final(self).position == old(self).position
                }
            }),
        decreases old(self).tokens@.len() - old(self).position, 5int,
    {
        let ident: &[TokenKind] = &[TokenKind::Identifier];
        proof {
            assert(ident@ =~= seq![TokenKind::Identifier]);
        }
        let function_name = self.expect(ident)?;
        let arguments = self.parse_function_call_arguments()?;
        Ok(FunctionCallData { function_name, arguments })
    }

    fn parse_function_call_arguments_list(&mut self) -> (r: Result<Vec<Expression>, Diagnostic>)
        requires
            old(self).wf(),
        ensures
            final(self).advanced_from(*old(self)),
            final(self).recovery_states@ == old(self).recovery_states@,
            ({
                let r0 = p_args_list(models_of(old(self).tokens@), old(self).position as int);
                match r {
                    Ok(args) => r0 == PArgs::Parsed(exprs_view(args@), final(self).position as int),
                    Err(d) => r0 == PArgs::Failed(diag_view(d), final(self).position as int),
                }
            }),
        decreases old(self).tokens@.len() - old(self).position, 10int,
    {
        let ghost ms = models_of(old(self).tokens@);
        let mut arguments: Vec<Expression> = Vec::new();
        let first = match self.parse_expression() {
            Ok(e) => e,
            Err(d) => {
                return Err(d);
            },
        };
        proof {
            lemma_exprs_view_push(arguments@, first);
            assert(exprs_view(arguments@) =~= Seq::<ExpressionV>::empty());
        }
        arguments.push(first);
        proof {
            assert(exprs_view(arguments@) =~= seq![expr_view(first)]);
        }
        loop
            invariant
                self.wf(),
                self.tokens@ == old(self).tokens@,
                ms == models_of(self.tokens@),
                old(self).position < self.position,
                self.recovery_states@ == old(self).recovery_states@,
                p_args_list(ms, old(self).position as int) == p_args_rest(
                    ms,
                    self.position as int,
                    exprs_view(arguments@),
                ),
            ensures
                self.wf(),
                self.tokens@ == old(self).tokens@,
                old(self).position < self.position,
                self.recovery_states@ == old(self).recovery_states@,
                p_args_list(ms, old(self).position as int) == PArgs::Parsed(
                    exprs_view(arguments@),
                    self.position as int,
                ),
            decreases self.tokens@.len() - self.position,
        {
            if self.peek().kind != TokenKind::Comma {
                break ;
            }
            proof {
                assert(self.tokens@[self.tokens@.len() - 1].kind == TokenKind::EndOfFile);
            }
            self.advance();
            let next = match self.parse_expression() {
                Ok(e) => e,
                Err(d) => {
                    return Err(d);
                },
            };
            proof {
                lemma_exprs_view_push(arguments@, next);
            }
            arguments.push(next);
        }
        Ok(arguments)
    }

    /// `(<expression>, ...)` after a callee name; may be empty.
    fn parse_function_call_arguments(&mut self) -> (r: Result<Vec<Expression>, Diagnostic>)
        requires
            old(self).wf(),
        ensures
            final(self).advanced_from(*old(self)),
            final(self).recovery_states@ == old(self).recovery_states@,
            r is Ok ==> final(self).position > old(self).position,
            ({
                let r0 = p_call_args(models_of(old(self).tokens@), old(self).position as int);
                match r {
                    Ok(args) => r0 == PArgs::Parsed(exprs_view(args@), final(self).position as int),
                    Err(d) => r0 == PArgs::Failed(diag_view(d), final(self).position as int),
                }
            }),
        decreases old(self).tokens@.len() - old(self).position, 11int,
    {
        self.expect(&[TokenKind::LeftParen])?;
        let arguments: Vec<Expression> = if self.peek().kind == TokenKind::RightParen {
            let empty: Vec<Expression> = Vec::new();
            proof {
                assert(exprs_view(empty@) =~= Seq::<ExpressionV>::empty());
            }
            empty
        } else {
            self.parse_function_call_arguments_list()?
        };
        self.expect(&[TokenKind::RightParen])?;
        Ok(arguments)
    }

    /// `return [(<expression>)]`
    fn parse_return_statement(&mut self) -> (r: Result<Statement, Diagnostic>)
        requires
            old(self).wf(),
        ensures
            final(self).advanced_from(*old(self)),
            r matches Ok(s) ==> final(self).position > old(self).position && (stmt_view(s) matches
                StatementV::Return(_)),
            r is Err ==> final(self).position > old(self).position || old(self).tokens@[old(
                self,
            ).position as int].kind != TokenKind::ReturnKeyword,
            ({
                let r0 = p_return(
                    models_of(old(self).tokens@),
                    old(self).position as int,
                    old(self).recovery_states@,
                );
                match r {
                    Ok(s) => r0 == PStmt::Parsed(
                        stmt_view(s),
                        final(self).position as int,
                        final(self).recovery_states@,
                    ),
                    Err(d) => r0 == PStmt::Failed(
                        diag_view(d),
                        final(self).position as int,
                        final(self).recovery_states@,
                    ),
                }
            }),
        decreases old(self).tokens@.len() - old(self).position, 5int,
    {
        let return_kw: &[TokenKind] = &[TokenKind::ReturnKeyword];
        proof {
            assert(return_kw@ =~= seq![TokenKind::ReturnKeyword]);
        }
        let return_token = self.expect(return_kw)?;
        let span = return_token.span();
        let expression: Option<Expression> = if self.peek().kind == TokenKind::LeftParen {
            Some(self.parse_grouped_expression()?)
        } else {
            None
        };
        Ok(Statement::ReturnStatement { span, expression })
    }

    fn parse_expression(&mut self) -> (r: Result<Expression, Diagnostic>)
        requires
            old(self).wf(),
        ensures
            final(self).advanced_from(*old(self)),
            final(self).recovery_states@ == old(self).recovery_states@,
            r is Ok ==> final(self).position > old(self).position,
            ({
                let r0 = p_expr(models_of(old(self).tokens@), old(self).position as int);
                match r {
                    Ok(e) => r0 == PExpr::Parsed(expr_view(e), final(self).position as int),
                    Err(d) => r0 == PExpr::Failed(diag_view(d), final(self).position as int),
                }
            }),
        decreases old(self).tokens@.len() - old(self).position, 4int,
    {
        self.parse_expression_with_precedence(0)
    }

    /// Precedence climbing: while the next token is a binary operator whose
    /// precedence is at least `min_precedence`, consume it and parse the right
    /// operand at one level higher, yielding left-associative trees.
    fn parse_expression_with_precedence(&mut self, min_precedence: u8) -> (r: Result<
        Expression,
        Diagnostic,
    >)
        requires
            old(self).wf(),
        ensures
            final(self).advanced_from(*old(self)),
            final(self).recovery_states@ == old(self).recovery_states@,
            r is Ok ==> final(self).position > old(self).position,
            ({
                let r0 = p_expr_prec(
                    models_of(old(self).tokens@),
                    old(self).position as int,
                    min_precedence,
                );
                match r {
                    Ok(e) => r0 == PExpr::Parsed(expr_view(e), final(self).position as int),
                    Err(d) => r0 == PExpr::Failed(diag_view(d), final(self).position as int),
                }
            }),
        decreases old(self).tokens@.len() - old(self).position, 3int,
    {
        let ghost ms = models_of(old(self).tokens@);
        let mut left = match self.parse_unary_expression() {
            Ok(e) => e,
            Err(d) => {
                return Err(d);
            },
        };
        loop
            invariant
                self.wf(),
                self.tokens@ == old(self).tokens@,
                ms == models_of(self.tokens@),
                old(self).position < self.position,
                self.recovery_states@ == old(self).recovery_states@,
                p_expr_prec(ms, old(self).position as int, min_precedence) == p_binop_rest(
                    ms,
                    self.position as int,
                    expr_view(left),
                    min_precedence,
                ),
            ensures
                self.wf(),
                self.tokens@ == old(self).tokens@,
                old(self).position < self.position,
                self.recovery_states@ == old(self).recovery_states@,
                p_expr_prec(ms, old(self).position as int, min_precedence) == PExpr::Parsed(
                    expr_view(left),
                    self.position as int,
                ),
            decreases self.tokens@.len() - self.position,
        {
            let op_opt = BinaryOperator::from_token_kind(self.peek().kind);
            match op_opt {
                Some(op) => {
                    let precedence = op.precedence();
                    if precedence < min_precedence {
                        break ;
                    }
                    proof {
                        assert(self.tokens@[self.tokens@.len() - 1].kind == TokenKind::EndOfFile);
                    }
                    self.advance();
                    let next_min_prec = if precedence < 255 {
                        precedence + 1
                    } else {
                        255
                    };
                    let right = match self.parse_expression_with_precedence(next_min_prec) {
                        Ok(e) => e,
                        Err(d) => {
                            return Err(d);
                        },
                    };
                    left = Expression::BinaryOperation {
                        left: Box::new(left),
                        operator: op,
                        right: Box::new(right),
                    };
                },
                None => {
                    break ;
                },
            }
        }
        Ok(left)
    }

    /// Unary prefixes bind tighter than any binary operator.
    fn parse_unary_expression(&mut self) -> (r: Result<Expression, Diagnostic>)
        requires
            old(self).wf(),
        ensures
            final(self).advanced_from(*old(self)),
            final(self).recovery_states@ == old(self).recovery_states@,
            r is Ok ==> final(self).position > old(self).position,
            ({
                let r0 = p_unary(models_of(old(self).tokens@), old(self).position as int);
                match r {
                    Ok(e) => r0 == PExpr::Parsed(expr_view(e), final(self).position as int),
                    Err(d) => r0 == PExpr::Failed(diag_view(d), final(self).position as int),
                }
            }),
        decreases old(self).tokens@.len() - old(self).position, 2int,
    {
        let op_opt = UnaryOperator::from_token_kind(self.peek().kind);
        match op_opt {
            Some(op) => {
                proof {
                    assert(self.tokens@[self.tokens@.len() - 1].kind == TokenKind::EndOfFile);
                }
                self.advance();
                let operand = self.parse_unary_expression()?;
                Ok(Expression::UnaryOperation { operator: op, operand: Box::new(operand) })
            },
            None => self.parse_primary_expression(),
        }
    }

    fn parse_primary_expression(&mut self) -> (r: Result<Expression, Diagnostic>)
        requires
            old(self).wf(),
        ensures
            final(self).advanced_from(*old(self)),
            final(self).recovery_states@ == old(self).recovery_states@,
            r is Ok ==> final(self).position > old(self).position,
            ({
                let r0 = p_primary(models_of(old(self).tokens@), old(self).position as int);
                match r {
                    Ok(e) => r0 == PExpr::Parsed(expr_view(e), final(self).position as int),
                    Err(d) => r0 == PExpr::Failed(diag_view(d), final(self).position as int),
                }
            }),
        decreases old(self).tokens@.len() - old(self).position, 1int,
    {
        if self.peek().kind == TokenKind::LeftParen {
            return self.parse_grouped_expression();
        }
        self.parse_literal_expression()
    }

    /// `(<expression>)`, resetting to the lowest precedence inside.
    fn parse_grouped_expression(&mut self) -> (r: Result<Expression, Diagnostic>)
        requires
            old(self).wf(),
        ensures
            final(self).advanced_from(*old(self)),
            final(self).recovery_states@ == old(self).recovery_states@,
            r is Ok ==> final(self).position > old(self).position,
            ({
                let r0 = p_grouped(models_of(old(self).tokens@), old(self).position as int);
                match r {
                    Ok(e) => r0 == PExpr::Parsed(expr_view(e), final(self).position as int),
                    Err(d) => r0 == PExpr::Failed(diag_view(d), final(self).position as int),
                }
            }),
        decreases old(self).tokens@.len() - old(self).position, 0int,
    {
        self.expect(&[TokenKind::LeftParen])?;
        let expr = self.parse_expression()?;
        self.expect(&[TokenKind::RightParen])?;
        Ok(Expression::Grouped(Box::new(expr)))
    }

    /// A number or boolean literal, a variable reference, or a function call;
    /// a following `(` after an identifier means a call.
    fn parse_literal_expression(&mut self) -> (r: Result<Expression, Diagnostic>)
        requires
            old(self).wf(),
        ensures
            final(self).advanced_from(*old(self)),
            final(self).recovery_states@ == old(self).recovery_states@,
            r is Ok ==> final(self).position > old(self).position,
            ({
                let r0 = p_literal(models_of(old(self).tokens@), old(self).position as int);
                match r {
                    Ok(e) => r0 == PExpr::Parsed(expr_view(e), final(self).position as int),
                    Err(d) => r0 == PExpr::Failed(diag_view(d), final(self).position as int),
                }
            }),
            ({
                let cur = old(self).tokens@[old(self).position as int];
                match r {
                    Ok(e) => match cur.kind {
                        TokenKind::Number | TokenKind::TrueKeyword | TokenKind::FalseKeyword =>
                            spec_span(e) == token_span(cur),
                        _ => true,
                    },
                    Err(_) => true,
                }
            }),
        decreases old(self).tokens@.len() - old(self).position, 0int,
    {
        let kind = self.peek().kind;
        match kind {
            TokenKind::Number => {
                proof {
                    assert(self.tokens@[self.tokens@.len() - 1].kind == TokenKind::EndOfFile);
                }
                let number_token = self.advance();
                let value = Self::parse_number_value(number_token.value.as_str());
                let span = number_token.span();
                Ok(Expression::Number(value, span))
            },
            TokenKind::TrueKeyword => {
                proof {
                    assert(self.tokens@[self.tokens@.len() - 1].kind == TokenKind::EndOfFile);
                }
                let token = self.advance();
                let span = token.span();
                Ok(Expression::Boolean(true, span))
            },
            TokenKind::FalseKeyword => {
                proof {
                    assert(self.tokens@[self.tokens@.len() - 1].kind == TokenKind::EndOfFile);
                }
                let token = self.advance();
                let span = token.span();
                Ok(Expression::Boolean(false, span))
            },
            TokenKind::Identifier => {
                proof {
                    assert(self.tokens@[self.tokens@.len() - 1].kind == TokenKind::EndOfFile);
                }
                let identifier_token = self.advance();
                if self.peek().kind != TokenKind::LeftParen {
                    Ok(Expression::Variable(identifier_token))
                } else {
                    let arguments = self.parse_function_call_arguments()?;
                    Ok(
                        Expression::FunctionCall(
                            FunctionCallData { function_name: identifier_token, arguments },
                        ),
                    )
                }
            },
            _ => {
                let next_token = self.peek().clone();
                let expected = Self::literal_start_kinds();
                Err(Diagnostic::unexpected_token(expected, next_token))
            },
        }
    }

    /// The kinds a statement may start with, for the unexpected-token report.
    fn recovery_point_kinds() -> (r: Vec<TokenKind>)
        ensures
            r@ =~= recovery_point_kind_list(),
    {
        let mut v: Vec<TokenKind> = Vec::new();
        v.push(TokenKind::LetKeyword);
        v.push(TokenKind::SetKeyword);
        v.push(TokenKind::IfKeyword);
        v.push(TokenKind::WhileKeyword);
        v.push(TokenKind::ForKeyword);
        v.push(TokenKind::EndKeyword);
        v.push(TokenKind::ElseKeyword);
        v.push(TokenKind::DefineKeyword);
        v
    }

    /// The kinds an expression may start its primary part with.
    fn literal_start_kinds() -> (r: Vec<TokenKind>)
        ensures
            r@ =~= seq![
                TokenKind::Number,
                TokenKind::Identifier,
                TokenKind::TrueKeyword,
                TokenKind::FalseKeyword,
            ],
    {
        let mut v: Vec<TokenKind> = Vec::new();
        v.push(TokenKind::Number);
        v.push(TokenKind::Identifier);
        v.push(TokenKind::TrueKeyword);
        v.push(TokenKind::FalseKeyword);
        v
    }

    /// The numeric value of a number token's digit string, stopping at the
    /// largest representable value.
    fn parse_number_value(s: &str) -> (r: i64)
        requires
            digits_ok(s@),
        ensures
            r == sat_num_value(s@),
    {
        let n = s.unicode_len();
        let mut acc: i64 = 0;
        let mut saturated = false;
        let mut i: usize = 0;
        proof {
            assert(s@.subrange(0, 0) =~= Seq::<char>::empty());
        }
        while i < n
            invariant
                digits_ok(s@),
                n == s@.len(),
                i <= n,
                !saturated ==> acc == num_value(s@.subrange(0, i as int)) && acc >= 0,
                saturated ==> num_value(s@.subrange(0, i as int)) > i64::MAX as int,
            decreases n - i,
        {
            let ghost prefix = s@.subrange(0, i as int);
            let c = s.get_char(i);
            let d = (c as u32 - 48) as i64;
            proof {
                assert(s@.subrange(0, i + 1).subrange(0, i as int) =~= prefix);
                assert(s@.subrange(0, i + 1)[i as int] == s@[i as int]);
                lemma_num_value_nonneg(s@.subrange(0, i + 1));
            }
            if saturated {
                proof {
                    assert(num_value(s@.subrange(0, i + 1)) == num_value(prefix) * 10 + (
                    s@[i as int] as u32 - 48));
                    assert(num_value(prefix) * 10 > i64::MAX as int) by (nonlinear_arith)
                        requires
                            num_value(prefix) > i64::MAX as int,
                    ;
                }
            } else {
                let step = acc.checked_mul(10);
                match step {
                    Some(m) => {
                        let sum = m.checked_add(d);
                        match sum {
                            Some(v) => {
                                acc = v;
                            },
                            None => {
                                saturated = true;
                            },
                        }
                    },
                    None => {
                        proof {
                            assert(acc * 10 + d > i64::MAX as int);
                        }
                        saturated = true;
                    },
                }
            }
            i = i + 1;
        }
        proof {
            assert(s@.subrange(0, n as int) =~= s@);
        }
        if saturated {
            i64::MAX
        } else {
            acc
        }
    }
}


// ---------------------------------------------------------------------------
// Laws of the grammar.
// ---------------------------------------------------------------------------

/// A token no expression can continue with: ends the operator-climbing loop
/// and cannot start a call's argument list.
pub open spec fn ends_expression(k: TokenKind) -> bool {
    binary_operator_of(k) is None && k != TokenKind::LeftParen
}

/// Multiplication binds tighter than addition: `a + b * c` parses so that the
/// multiplication subtree is the right child of the addition node.
pub proof fn lemma_multiplication_binds_tighter(ms: Seq<TokenModel>, pos: int)
    requires
        0 <= pos,
        pos + 5 < ms.len(),
        ms[pos].kind == TokenKind::Identifier,
        ms[pos + 1].kind == TokenKind::Plus,
        ms[pos + 2].kind == TokenKind::Identifier,
        ms[pos + 3].kind == TokenKind::Star,
        ms[pos + 4].kind == TokenKind::Identifier,
        ends_expression(ms[pos + 5].kind),
    ensures
        p_expr(ms, pos) == PExpr::Parsed(
            ExpressionV::Binary {
                left: Box::new(ExpressionV::Variable(ms[pos].text)),
                operator: BinaryOperator::Add,
                right: Box::new(
                    ExpressionV::Binary {
                        left: Box::new(ExpressionV::Variable(ms[pos + 2].text)),
                        operator: BinaryOperator::Multiply,
                        right: Box::new(ExpressionV::Variable(ms[pos + 4].text)),
                    },
                ),
            },
            pos + 5,
        ),
{
    let a = ExpressionV::Variable(ms[pos].text);
    let b = ExpressionV::Variable(ms[pos + 2].text);
    let c = ExpressionV::Variable(ms[pos + 4].text);
    assert(p_literal(ms, pos) == PExpr::Parsed(a, pos + 1));
    assert(p_primary(ms, pos) == PExpr::Parsed(a, pos + 1));
    assert(p_unary(ms, pos) == PExpr::Parsed(a, pos + 1));
    assert(p_literal(ms, pos + 2) == PExpr::Parsed(b, pos + 3));
    assert(p_primary(ms, pos + 2) == PExpr::Parsed(b, pos + 3));
    assert(p_unary(ms, pos + 2) == PExpr::Parsed(b, pos + 3));
    assert(p_literal(ms, pos + 4) == PExpr::Parsed(c, pos + 5));
    assert(p_primary(ms, pos + 4) == PExpr::Parsed(c, pos + 5));
    assert(p_unary(ms, pos + 4) == PExpr::Parsed(c, pos + 5));
    let bc = ExpressionV::Binary {
        left: Box::new(b),
        operator: BinaryOperator::Multiply,
        right: Box::new(c),
    };
    assert(p_binop_rest(ms, pos + 5, c, 5) == PExpr::Parsed(c, pos + 5));
    assert(p_expr_prec(ms, pos + 4, 5) == PExpr::Parsed(c, pos + 5));
    assert(p_binop_rest(ms, pos + 5, bc, 4) == PExpr::Parsed(bc, pos + 5));
    assert(p_binop_rest(ms, pos + 3, b, 4) == PExpr::Parsed(bc, pos + 5));
    assert(p_expr_prec(ms, pos + 2, 4) == PExpr::Parsed(bc, pos + 5));
    let abc = ExpressionV::Binary {
        left: Box::new(a),
        operator: BinaryOperator::Add,
        right: Box::new(bc),
    };
    assert(p_binop_rest(ms, pos + 5, abc, 0) == PExpr::Parsed(abc, pos + 5));
    assert(p_binop_rest(ms, pos + 1, a, 0) == PExpr::Parsed(abc, pos + 5));
    assert(p_expr_prec(ms, pos, 0) == PExpr::Parsed(abc, pos + 5));
}

/// Grouping overrides precedence: `(a + b) * c` parses with the addition
/// explicitly grouped as the left child of the multiplication node.
pub proof fn lemma_grouping_overrides_precedence(ms: Seq<TokenModel>, pos: int)
    requires
        0 <= pos,
        pos + 7 < ms.len(),
        ms[pos].kind == TokenKind::LeftParen,
        ms[pos + 1].kind == TokenKind::Identifier,
        ms[pos + 2].kind == TokenKind::Plus,
        ms[pos + 3].kind == TokenKind::Identifier,
        ms[pos + 4].kind == TokenKind::RightParen,
        ms[pos + 5].kind == TokenKind::Star,
        ms[pos + 6].kind == TokenKind::Identifier,
        ends_expression(ms[pos + 7].kind),
    ensures
        p_expr(ms, pos) == PExpr::Parsed(
            ExpressionV::Binary {
                left: Box::new(
                    ExpressionV::Grouped(
                        Box::new(
                            ExpressionV::Binary {
                                left: Box::new(ExpressionV::Variable(ms[pos + 1].text)),
                                operator: BinaryOperator::Add,
                                right: Box::new(ExpressionV::Variable(ms[pos + 3].text)),
                            },
                        ),
                    ),
                ),
                operator: BinaryOperator::Multiply,
                right: Box::new(ExpressionV::Variable(ms[pos + 6].text)),
            },
            pos + 7,
        ),
{
    let a = ExpressionV::Variable(ms[pos + 1].text);
    let b = ExpressionV::Variable(ms[pos + 3].text);
    let c = ExpressionV::Variable(ms[pos + 6].text);
    let ab = ExpressionV::Binary { left: Box::new(a), operator: BinaryOperator::Add, right: Box::new(b) };
    assert(p_literal(ms, pos + 1) == PExpr::Parsed(a, pos + 2));
    assert(p_primary(ms, pos + 1) == PExpr::Parsed(a, pos + 2));
    assert(p_unary(ms, pos + 1) == PExpr::Parsed(a, pos + 2));
    assert(p_literal(ms, pos + 3) == PExpr::Parsed(b, pos + 4));
    assert(p_primary(ms, pos + 3) == PExpr::Parsed(b, pos + 4));
    assert(p_unary(ms, pos + 3) == PExpr::Parsed(b, pos + 4));
    assert(p_binop_rest(ms, pos + 4, b, 4) == PExpr::Parsed(b, pos + 4));
    assert(p_expr_prec(ms, pos + 3, 4) == PExpr::Parsed(b, pos + 4));
    assert(p_binop_rest(ms, pos + 4, ab, 0) == PExpr::Parsed(ab, pos + 4));
    assert(p_binop_rest(ms, pos + 2, a, 0) == PExpr::Parsed(ab, pos + 4));
    assert(p_expr_prec(ms, pos + 1, 0) == PExpr::Parsed(ab, pos + 4));
    assert(p_expr(ms, pos + 1) == PExpr::Parsed(ab, pos + 4));
    let gab = ExpressionV::Grouped(Box::new(ab));
    assert(p_grouped(ms, pos) == PExpr::Parsed(gab, pos + 5));
    assert(p_primary(ms, pos) == PExpr::Parsed(gab, pos + 5));
    assert(p_unary(ms, pos) == PExpr::Parsed(gab, pos + 5));
    assert(p_literal(ms, pos + 6) == PExpr::Parsed(c, pos + 7));
    assert(p_primary(ms, pos + 6) == PExpr::Parsed(c, pos + 7));
    assert(p_unary(ms, pos + 6) == PExpr::Parsed(c, pos + 7));
    assert(p_binop_rest(ms, pos + 7, c, 5) == PExpr::Parsed(c, pos + 7));
    assert(p_expr_prec(ms, pos + 6, 5) == PExpr::Parsed(c, pos + 7));
    let gabc = ExpressionV::Binary {
        left: Box::new(gab),
        operator: BinaryOperator::Multiply,
        right: Box::new(c),
    };
    assert(p_binop_rest(ms, pos + 7, gabc, 0) == PExpr::Parsed(gabc, pos + 7));
    assert(p_binop_rest(ms, pos + 5, gab, 0) == PExpr::Parsed(gabc, pos + 7));
    assert(p_expr_prec(ms, pos, 0) == PExpr::Parsed(gabc, pos + 7));
}

/// Unary negation binds tighter than every binary operator: with any binary
/// operator between two number literals, a leading negation applies only to
/// the first literal, never to the whole binary expression.
pub proof fn lemma_unary_binds_tighter_than_binary(ms: Seq<TokenModel>, pos: int, k: TokenKind)
    requires
        0 <= pos,
        pos + 4 < ms.len(),
        binary_operator_of(k) is Some,
        ms[pos].kind == TokenKind::Minus,
        ms[pos + 1].kind == TokenKind::Number,
        ms[pos + 2].kind == k,
        ms[pos + 3].kind == TokenKind::Number,
        ends_expression(ms[pos + 4].kind),
    ensures
        p_expr(ms, pos) == PExpr::Parsed(
            ExpressionV::Binary {
                left: Box::new(
                    ExpressionV::Unary {
                        operator: UnaryOperator::Negate,
                        operand: Box::new(ExpressionV::Number(sat_num_value(ms[pos + 1].text))),
                    },
                ),
                operator: binary_operator_of(k)->Some_0,
                right: Box::new(ExpressionV::Number(sat_num_value(ms[pos + 3].text))),
            },
            pos + 4,
        ),
{
    let a = ExpressionV::Number(sat_num_value(ms[pos + 1].text));
    let b = ExpressionV::Number(sat_num_value(ms[pos + 3].text));
    let na = ExpressionV::Unary { operator: UnaryOperator::Negate, operand: Box::new(a) };
    let op = binary_operator_of(k)->Some_0;
    assert(p_literal(ms, pos + 1) == PExpr::Parsed(a, pos + 2));
    assert(p_primary(ms, pos + 1) == PExpr::Parsed(a, pos + 2));
    assert(p_unary(ms, pos + 1) == PExpr::Parsed(a, pos + 2));
    assert(p_unary(ms, pos) == PExpr::Parsed(na, pos + 2));
    let next_min: u8 = if spec_precedence(op) < 255 {
        (spec_precedence(op) + 1) as u8
    } else {
        255u8
    };
    assert(p_literal(ms, pos + 3) == PExpr::Parsed(b, pos + 4));
    assert(p_primary(ms, pos + 3) == PExpr::Parsed(b, pos + 4));
    assert(p_unary(ms, pos + 3) == PExpr::Parsed(b, pos + 4));
    assert(p_binop_rest(ms, pos + 4, b, next_min) == PExpr::Parsed(b, pos + 4));
    assert(p_expr_prec(ms, pos + 3, next_min) == PExpr::Parsed(b, pos + 4));
    let nab = ExpressionV::Binary { left: Box::new(na), operator: op, right: Box::new(b) };
    assert(p_binop_rest(ms, pos + 4, nab, 0) == PExpr::Parsed(nab, pos + 4));
    assert(spec_precedence(op) >= 0);
    assert(p_binop_rest(ms, pos + 2, na, 0) == PExpr::Parsed(nab, pos + 4));
    assert(p_expr_prec(ms, pos, 0) == PExpr::Parsed(nab, pos + 4));
}

} // verus!
