//! Resolver: a single pass of scope resolution and type inference over the
//! tree. Every detected error is recorded and the pass keeps going, so one
//! run reports every independent defect; resolution succeeds exactly when no
//! diagnostic was reported.

use vstd::prelude::*;
use crate::BlockType;
use crate::ast::Ast;
use crate::ast::expression::{Expression, ExpressionV, expr_view, exprs_view, lemma_exprs_view_len};
use crate::ast::statement::{Statement, StatementV, stmt_view, stmts_view, tokens_text};
use crate::ast::lemma_stmts_view_push;
use crate::ast::statement::lemma_stmts_view_len;
use crate::diagnostic::{Diagnostic, Diagnostics, DiagnosticV, diag_view, diags_view,
    lemma_diags_view_push};
use crate::lexer::{TextSpan, Token};
use crate::symbols_table::{FunctionSymbol, ScopeId, ScopeV, SymbolsTable, TableV, VariableSymbol,
    lookup_chain, params_text};
use crate::types::{Type, resolve_binary_operation_type, resolve_unary_operation_type,
    spec_binary_operation_type, spec_unary_operation_type};

verus! {

// ---------------------------------------------------------------------------
// What resolving an expression means: the inferred type, and the diagnostics
// reported, in order. Expressions read the table but never change it.
// ---------------------------------------------------------------------------

pub open spec fn resolve_expr(tv: TableV, cur: int, e: ExpressionV) -> (Type, Seq<DiagnosticV>)
    decreases e, 1int,
{
    match e {
        ExpressionV::Number(_) => (Type::Int, Seq::empty()),
        ExpressionV::Boolean(_) => (Type::Bool, Seq::empty()),
        ExpressionV::Variable(name) => match lookup_chain(tv.scopes, cur, name) {
            Some(t) => (t, Seq::empty()),
            None => (
                Type::Unresolved,
                seq![DiagnosticV::UndefinedVariable { identifier: name }],
            ),
        },
        ExpressionV::Binary { left, operator, right } => {
            let lt = resolve_expr(tv, cur, *left);
            let rt = resolve_expr(tv, cur, *right);
            let t = spec_binary_operation_type(lt.0, rt.0, operator);
            let extra: Seq<DiagnosticV> = if t == Type::Unresolved {
                seq![
                    DiagnosticV::IncompatibleBinaryOperation {
                        left_type: lt.0,
                        right_type: rt.0,
                        operator,
                    },
                ]
            } else {
                Seq::empty()
            };
            (t, lt.1 + rt.1 + extra)
        },
        ExpressionV::Unary { operator, operand } => {
            let ot = resolve_expr(tv, cur, *operand);
            let t = spec_unary_operation_type(ot.0, operator);
            let extra: Seq<DiagnosticV> = if t == Type::Unresolved {
                seq![DiagnosticV::IncompatibleUnaryOperation { operand_type: ot.0, operator }]
            } else {
                Seq::empty()
            };
            (t, ot.1 + extra)
        },
        ExpressionV::Grouped(inner) => resolve_expr(tv, cur, *inner),
        ExpressionV::Call { name, arguments } => (
            Type::Unresolved,
            resolve_call(tv, cur, name, arguments),
        ),
    }
}

/// Resolving a call: the callee must be a defined function called with as
/// many arguments as it declares parameters; every argument is still visited.
pub open spec fn resolve_call(tv: TableV, cur: int, name: Seq<char>, args: Seq<ExpressionV>) -> Seq<
    DiagnosticV,
>
    decreases args, 2int,
{
    let head: Seq<DiagnosticV> = if !tv.functions.contains_key(name) {
        seq![DiagnosticV::UndefinedFunction { function_name: name }]
    } else if tv.functions[name].len() != args.len() {
        seq![
            DiagnosticV::FunctionArgumentsMismatch {
                function_name: name,
                expected: tv.functions[name].len(),
                found: args.len(),
            },
        ]
    } else {
        Seq::empty()
    };
    head + resolve_exprs(tv, cur, args)
}

pub open spec fn resolve_exprs(tv: TableV, cur: int, args: Seq<ExpressionV>) -> Seq<DiagnosticV>
    decreases args, 0int,
{
    if args.len() == 0 {
        Seq::empty()
    } else {
        resolve_exprs(tv, cur, args.subrange(0, args.len() - 1)) + resolve_expr(
            tv,
            cur,
            args[args.len() - 1],
        ).1
    }
}

/// The table after binding `name` with type `t` in scope `cur`.
pub open spec fn table_with_var(tv: TableV, cur: int, name: Seq<char>, t: Type) -> TableV {
    TableV {
        scopes: tv.scopes.update(
            cur,
            ScopeV { vars: tv.scopes[cur].vars.insert(name, t), parent: tv.scopes[cur].parent },
        ),
        functions: tv.functions,
    }
}

/// Resolving a declaration: a name already bound in the current scope (not an
/// outer one) is a redefinition; the initializer is visited either way, and
/// the name is then bound with the initializer's type.
pub open spec fn resolve_declaration(tv: TableV, cur: int, name: Seq<char>, value: ExpressionV) -> (
    TableV,
    Seq<DiagnosticV>,
) {
    let head: Seq<DiagnosticV> = if tv.scopes[cur].vars.contains_key(name) {
        seq![DiagnosticV::VariableRedefinition { identifier: name }]
    } else {
        Seq::empty()
    };
    let vt = resolve_expr(tv, cur, value);
    (table_with_var(tv, cur, name, vt.0), head + vt.1)
}

/// Resolving an assignment: a name bound nowhere in the enclosing scope chain
/// is undefined; one bound with a different type than the assigned
/// expression's is a type mismatch.
pub open spec fn resolve_assignment(tv: TableV, cur: int, name: Seq<char>, value: ExpressionV) -> Seq<
    DiagnosticV,
> {
    let vt = resolve_expr(tv, cur, value);
    vt.1 + match lookup_chain(tv.scopes, cur, name) {
        Some(t) => if t != vt.0 {
            seq![
                DiagnosticV::VariableTypeMismatch {
                    identifier: name,
                    expected_type: t,
                    found_type: vt.0,
                },
            ]
        } else {
            Seq::empty()
        },
        None => seq![DiagnosticV::UndefinedVariable { identifier: name }],
    }
}

/// Resolving a `return`: legal only while a function-body block is on the
/// enclosing block stack.
pub open spec fn resolve_return(
    tv: TableV,
    cur: int,
    blocks: Seq<BlockType>,
    expression: Option<ExpressionV>,
) -> Seq<DiagnosticV> {
    if blocks.contains(BlockType::FunctionBlock) {
        match expression {
            Some(e) => resolve_expr(tv, cur, e).1,
            None => Seq::empty(),
        }
    } else {
        seq![DiagnosticV::ReturnOutsideFunction]
    }
}

/// The whole resolver state: the table, the current scope, the enclosing
/// block kinds, the block kind the last control statement set, and the
/// diagnostics reported so far.
#[verifier::ext_equal]
pub struct RState {
    pub table: TableV,
    pub cur: int,
    pub blocks: Seq<BlockType>,
    pub pending: Option<BlockType>,
    pub diags: Seq<DiagnosticV>,
}

/// The table after entering a fresh scope under `parent`.
pub open spec fn table_enter(tv: TableV, parent: int) -> TableV {
    TableV {
        scopes: tv.scopes.push(ScopeV { vars: Map::empty(), parent: Some(parent) }),
        functions: tv.functions,
    }
}

/// The table after binding each parameter, in declared order, with the
/// unresolved type.
pub open spec fn table_with_params(tv: TableV, cur: int, params: Seq<Seq<char>>) -> TableV
    decreases params,
{
    if params.len() == 0 {
        tv
    } else {
        table_with_var(
            table_with_params(tv, cur, params.subrange(0, params.len() - 1)),
            cur,
            params[params.len() - 1],
            Type::Unresolved,
        )
    }
}

pub proof fn lemma_table_with_params_push(tv: TableV, cur: int, params: Seq<Seq<char>>, p: Seq<char>)
    ensures
        table_with_params(tv, cur, params.push(p)) == table_with_var(
            table_with_params(tv, cur, params),
            cur,
            p,
            Type::Unresolved,
        ),
{
    assert(params.push(p).subrange(0, params.len() as int) =~= params);
    assert(params.push(p)[params.len() as int] == p);
}

/// What resolving one statement does to the whole state.
pub open spec fn resolve_stmt(st: RState, s: StatementV) -> RState
    decreases s, 3int,
{
    match s {
        StatementV::Declaration { name, value } => {
            let r = resolve_declaration(st.table, st.cur, name, value);
            RState { table: r.0, cur: st.cur, blocks: st.blocks, pending: st.pending, diags: st.diags + r.1 }
        },
        StatementV::Assignment { name, value } => RState {
            table: st.table,
            cur: st.cur,
            blocks: st.blocks,
            pending: st.pending,
            diags: st.diags + resolve_assignment(st.table, st.cur, name, value),
        },
        StatementV::Call { name, arguments } => RState {
            table: st.table,
            cur: st.cur,
            blocks: st.blocks,
            pending: st.pending,
            diags: st.diags + resolve_call(st.table, st.cur, name, arguments),
        },
        StatementV::Return(expression) => RState {
            table: st.table,
            cur: st.cur,
            blocks: st.blocks,
            pending: st.pending,
            diags: st.diags + resolve_return(st.table, st.cur, st.blocks, expression),
        },
        StatementV::If { condition, then_branch, else_branch } => {
            let c = resolve_expr(st.table, st.cur, condition);
            let extra: Seq<DiagnosticV> = if c.0 != Type::Bool {
                seq![
                    DiagnosticV::ExpressionTypeMismatch {
                        expected_type: Type::Bool,
                        found_type: c.0,
                    },
                ]
            } else {
                Seq::empty()
            };
            let st1 = RState {
                table: st.table,
                cur: st.cur,
                blocks: st.blocks,
                pending: Some(BlockType::IfBlock),
                diags: st.diags + c.1 + extra,
            };
            let st2 = resolve_stmt(st1, *then_branch);
            match else_branch {
                Some(eb) => resolve_stmt(
                    RState {
                        table: st2.table,
                        cur: st2.cur,
                        blocks: st2.blocks,
                        pending: Some(BlockType::ElseBlock),
                        diags: st2.diags,
                    },
                    *eb,
                ),
                None => st2,
            }
        },
        StatementV::While { condition, body } => {
            let c = resolve_expr(st.table, st.cur, condition);
            let extra: Seq<DiagnosticV> = if c.0 != Type::Bool {
                seq![
                    DiagnosticV::ExpressionTypeMismatch {
                        expected_type: Type::Bool,
                        found_type: c.0,
                    },
                ]
            } else {
                Seq::empty()
            };
            resolve_stmt(
                RState {
                    table: st.table,
                    cur: st.cur,
                    blocks: st.blocks,
                    pending: Some(BlockType::WhileBlock),
                    diags: st.diags + c.1 + extra,
                },
                *body,
            )
        },
        StatementV::For { variable, start, end, step, body } => {
            let r1 = resolve_expr(st.table, st.cur, start);
            let r2 = resolve_expr(st.table, st.cur, end);
            let mism: Seq<DiagnosticV> = if r1.0 != r2.0 {
                seq![
                    DiagnosticV::VariableTypeMismatch {
                        identifier: variable,
                        expected_type: r1.0,
                        found_type: r2.0,
                    },
                ]
            } else {
                Seq::empty()
            };
            let stepd: Seq<DiagnosticV> = match step {
                Some(se) => {
                    let r3 = resolve_expr(st.table, st.cur, se);
                    let m2: Seq<DiagnosticV> = if r3.0 != r1.0 {
                        seq![
                            DiagnosticV::VariableTypeMismatch {
                                identifier: variable,
                                expected_type: r1.0,
                                found_type: r3.0,
                            },
                        ]
                    } else {
                        Seq::empty()
                    };
                    let m3: Seq<DiagnosticV> = if r2.0 != r3.0 {
                        seq![
                            DiagnosticV::ExpressionTypeMismatch {
                                expected_type: r2.0,
                                found_type: r3.0,
                            },
                        ]
                    } else {
                        Seq::empty()
                    };
                    r3.1 + m2 + m3
                },
                None => Seq::empty(),
            };
            let new_cur = st.table.scopes.len() as int;
            let tbl = table_with_var(table_enter(st.table, st.cur), new_cur, variable, r1.0);
            let stb = resolve_stmt(
                RState {
                    table: tbl,
                    cur: new_cur,
                    blocks: st.blocks,
                    pending: Some(BlockType::ForBlock),
                    diags: st.diags + r1.1 + r2.1 + mism + stepd,
                },
                *body,
            );
            RState { table: stb.table, cur: st.cur, blocks: stb.blocks, pending: stb.pending, diags: stb.diags }
        },
        StatementV::Block(ss) => {
            let new_cur = st.table.scopes.len() as int;
            let blocks2 = match st.pending {
                Some(bt) => st.blocks.push(bt),
                None => st.blocks,
            };
            let st1 = RState {
                table: table_enter(st.table, st.cur),
                cur: new_cur,
                blocks: blocks2,
                pending: None,
                diags: st.diags,
            };
            let st2 = resolve_stmts(st1, ss);
            RState {
                table: st2.table,
                cur: st.cur,
                blocks: if st2.blocks.len() > 0 {
                    st2.blocks.subrange(0, st2.blocks.len() - 1)
                } else {
                    st2.blocks
                },
                pending: st2.pending,
                diags: st2.diags,
            }
        },
        StatementV::FunctionDefinition { name, parameters, body } => {
            let tbl1 = TableV {
                scopes: st.table.scopes,
                functions: st.table.functions.insert(name, parameters),
            };
            let new_cur = tbl1.scopes.len() as int;
            let tbl2 = table_with_params(table_enter(tbl1, st.cur), new_cur, parameters);
            let stb = resolve_stmt(
                RState {
                    table: tbl2,
                    cur: new_cur,
                    blocks: st.blocks,
                    pending: Some(BlockType::FunctionBlock),
                    diags: st.diags,
                },
                *body,
            );
            RState { table: stb.table, cur: st.cur, blocks: stb.blocks, pending: stb.pending, diags: stb.diags }
        },
    }
}

/// Statements of a block, in order.
pub open spec fn resolve_stmts(st: RState, ss: Seq<StatementV>) -> RState
    decreases ss, 4int,
{
    if ss.len() == 0 {
        st
    } else {
        resolve_stmts(resolve_stmt(st, ss[0]), ss.subrange(1, ss.len() as int))
    }
}

/// The state a fresh resolver starts from: one empty global scope, no
/// functions, nothing reported.
pub open spec fn initial_rstate() -> RState {
    RState {
        table: TableV {
            scopes: seq![ScopeV { vars: Map::empty(), parent: None }],
            functions: Map::empty(),
        },
        cur: 0,
        blocks: Seq::empty(),
        pending: None,
        diags: Seq::empty(),
    }
}

/// What resolving a whole program means, from a fresh resolver.
pub open spec fn resolve_program(ss: Seq<StatementV>) -> RState {
    resolve_stmts(initial_rstate(), ss)
}

// ---------------------------------------------------------------------------
// The resolver itself.
// ---------------------------------------------------------------------------

pub struct Resolver {
    pub symbols_table: SymbolsTable,
    pub current_scope_id: ScopeId,
    pub diagnostics: Diagnostics,
    pub block_type_stack: Vec<BlockType>,
    pub current_block_type: Option<BlockType>,
}

impl Resolver {
    /// The whole state, as the model sees it.
    pub open spec fn rstate(&self) -> RState {
        RState {
            table: self.symbols_table@,
            cur: self.current_scope_id.0 as int,
            blocks: self.block_type_stack@,
            pending: self.current_block_type,
            diags: diags_view(self.diagnostics.diagnostics@),
        }
    }

    pub open spec fn wf(&self) -> bool {
        &&& self.symbols_table.wf()
        &&& self.current_scope_id.0 < self.symbols_table@.scopes.len()
    }

    /// What every resolution step preserves: the table stays well-formed, the
    /// current scope is restored, scopes are never removed and never change
    /// parents, and diagnostics are only appended.
    pub open spec fn frame(pre: Resolver, post: Resolver) -> bool {
        &&& post.wf()
        &&& post.current_scope_id == pre.current_scope_id
        &&& post.symbols_table@.scopes.len() >= pre.symbols_table@.scopes.len()
        &&& forall|i: int|
            0 <= i < pre.symbols_table@.scopes.len() ==> (#[trigger] post.symbols_table@.scopes[i]).parent
                == pre.symbols_table@.scopes[i].parent
        &&& pre.diagnostics.diagnostics@.len() <= post.diagnostics.diagnostics@.len()
    }

    pub fn new() -> (r: Resolver)
        ensures
            r.wf(),
            r.current_scope_id == ScopeId(0usize),
            r.diagnostics.diagnostics@.len() == 0,
            r.rstate() == initial_rstate(),
    {
        let r = Resolver {
            symbols_table: SymbolsTable::new(),
            current_scope_id: ScopeId(0),
            diagnostics: Diagnostics::new(),
            block_type_stack: Vec::new(),
            current_block_type: None,
        };
        proof {
            assert(r.symbols_table@.scopes =~= initial_rstate().table.scopes);
            assert(r.rstate().blocks =~= initial_rstate().blocks);
            assert(r.rstate().diags =~= initial_rstate().diags);
            assert(r.rstate() =~= initial_rstate());
        }
        r
    }

    /// Resolves a whole program: either the populated symbol table, or the
    /// collected diagnostics (exactly when at least one was reported).
    pub fn resolve(self, ast: &Ast) -> (r: Result<SymbolsTable, Diagnostics>)
        requires
            self.wf(),
        ensures
            r matches Ok(t) ==> t.wf(),
            r matches Err(d) ==> d.diagnostics@.len() > 0,
            ({
                let m = resolve_stmts(self.rstate(), stmts_view(ast.statements@));
                match r {
                    Ok(t) => m.diags.len() == 0 && t@ == m.table,
                    Err(d) => m.diags.len() > 0 && diags_view(d.diagnostics@) == m.diags,
                }
            }),
    {
        let ghost st0 = self.rstate();
        let ghost vs = stmts_view(ast.statements@);
        proof {
            lemma_stmts_view_len(ast.statements@);
            assert(vs.subrange(0, vs.len() as int) =~= vs);
        }
        let mut this = self;
        let n = ast.statements.len();
        let mut i: usize = 0;
        while i < n
            invariant
                this.wf(),
                n == ast.statements@.len(),
                i <= n,
                vs == stmts_view(ast.statements@),
                vs.len() == n,
                forall|k: int| 0 <= k < n ==> vs[k] == stmt_view(ast.statements@[k]),
                resolve_stmts(st0, vs) == resolve_stmts(
                    this.rstate(),
                    vs.subrange(i as int, n as int),
                ),
            decreases n - i,
        {
            proof {
                assert(vs.subrange(i as int, n as int)[0] == vs[i as int]);
                assert(vs.subrange(i as int, n as int).subrange(1, n - i) =~= vs.subrange(
                    i + 1,
                    n as int,
                ));
            }
            this.visit_statement(&ast.statements[i]);
            i = i + 1;
        }
        proof {
            assert(vs.subrange(n as int, n as int).len() == 0);
        }
        if this.diagnostics.has_errors() {
            Err(this.diagnostics)
        } else {
            Ok(this.symbols_table)
        }
    }

    fn enter_scope(&mut self)
        requires
            old(self).wf(),
        ensures
            final(self).wf(),
            final(self).symbols_table@.scopes.len() == old(self).symbols_table@.scopes.len() + 1,
            forall|i: int|
                0 <= i < old(self).symbols_table@.scopes.len() ==> (
                #[trigger] final(self).symbols_table@.scopes[i]) == old(self).symbols_table@.scopes[i],
            final(self).current_scope_id.0 == old(self).symbols_table@.scopes.len(),
            final(self).symbols_table@.scopes[final(self).current_scope_id.0 as int] == (ScopeV {
                vars: Map::<Seq<char>, Type>::empty(),
                parent: Some(old(self).current_scope_id.0 as int),
            }),
            final(self).symbols_table@.functions == old(self).symbols_table@.functions,
            final(self).diagnostics == old(self).diagnostics,
            final(self).block_type_stack == old(self).block_type_stack,
            final(self).current_block_type == old(self).current_block_type,
    {
        self.current_scope_id = self.symbols_table.enter_scope(self.current_scope_id);
    }

    fn exit_scope(&mut self)
        requires
            old(self).wf(),
            old(self).current_scope_id.0 >= 1,
        ensures
            final(self).wf(),
            final(self).symbols_table == old(self).symbols_table,
            Some(final(self).current_scope_id.0 as int) == old(self).symbols_table@.scopes[old(
                self,
            ).current_scope_id.0 as int].parent,
            final(self).diagnostics == old(self).diagnostics,
            final(self).block_type_stack == old(self).block_type_stack,
            final(self).current_block_type == old(self).current_block_type,
    {
        self.current_scope_id = self.symbols_table.exit_scope(self.current_scope_id);
    }

    fn is_inside_block(&self, block_type: BlockType) -> (r: bool)
        ensures
            r == self.block_type_stack@.contains(block_type),
    {
        let n = self.block_type_stack.len();
        let mut i: usize = 0;
        let mut found = false;
        while i < n
            invariant
                n == self.block_type_stack@.len(),
                i <= n,
                found == exists|j: int| 0 <= j < i && self.block_type_stack@[j] == block_type,
            decreases n - i,
        {
            if self.block_type_stack[i] == block_type {
                found = true;
            }
            i = i + 1;
        }
        found
    }

    /// Scope entry for a block; if the statement that introduced the block
    /// set a pending block kind, it goes onto the block-kind stack.
    fn block_statement_on_enter(&mut self)
        requires
            old(self).wf(),
        ensures
            final(self).wf(),
            final(self).current_scope_id.0 >= 1,
            final(self).current_scope_id.0 == old(self).symbols_table@.scopes.len(),
            final(self).symbols_table@ == table_enter(
                old(self).symbols_table@,
                old(self).current_scope_id.0 as int,
            ),
            final(self).block_type_stack@ == match old(self).current_block_type {
                Some(bt) => old(self).block_type_stack@.push(bt),
                None => old(self).block_type_stack@,
            },
            final(self).current_block_type is None,
            final(self).diagnostics == old(self).diagnostics,
    {
        self.enter_scope();
        proof {
            assert(self.symbols_table@.scopes =~= table_enter(
                old(self).symbols_table@,
                old(self).current_scope_id.0 as int,
            ).scopes);
        }
        match self.current_block_type {
            Some(block_type) => {
                self.current_block_type = None;
                self.block_type_stack.push(block_type);
            },
            None => {},
        }
    }

    /// Scope exit for a block, popping the block kind pushed on entry.
    fn block_statement_on_exit(&mut self)
        requires
            old(self).wf(),
            old(self).current_scope_id.0 >= 1,
        ensures
            final(self).wf(),
            final(self).symbols_table == old(self).symbols_table,
            Some(final(self).current_scope_id.0 as int) == old(self).symbols_table@.scopes[old(
                self,
            ).current_scope_id.0 as int].parent,
            final(self).block_type_stack@ == if old(self).block_type_stack@.len() > 0 {
                old(self).block_type_stack@.subrange(0, old(self).block_type_stack@.len() - 1)
            } else {
                old(self).block_type_stack@
            },
            final(self).current_block_type == old(self).current_block_type,
            final(self).diagnostics == old(self).diagnostics,
    {
        self.exit_scope();
        self.block_type_stack.pop();
    }

    /// Infers the type of an expression, reporting every defect inside it.
    fn visit_expression(&mut self, e: &Expression) -> (t: Type)
        requires
            old(self).wf(),
        ensures
            Self::frame(*old(self), *final(self)),
            final(self).symbols_table == old(self).symbols_table,
            final(self).block_type_stack == old(self).block_type_stack,
            final(self).current_block_type == old(self).current_block_type,
            ({
                let res = resolve_expr(
                    old(self).symbols_table@,
                    old(self).current_scope_id.0 as int,
                    expr_view(*e),
                );
                t == res.0 && diags_view(final(self).diagnostics.diagnostics@) == diags_view(
                    old(self).diagnostics.diagnostics@,
                ) + res.1
            }),
        decreases *e, 1int,
    {
        let ghost dv0 = diags_view(self.diagnostics.diagnostics@);
        match e {
            Expression::Number(_, _) => {
                proof {
                    assert(dv0 + Seq::<DiagnosticV>::empty() =~= dv0);
                }
                Type::Int
            },
            Expression::Boolean(_, _) => {
                proof {
                    assert(dv0 + Seq::<DiagnosticV>::empty() =~= dv0);
                }
                Type::Bool
            },
            Expression::Variable(name) => {
                let found: Option<Type> = match self.symbols_table.lookup_variable(
                    name.value.as_str(),
                    self.current_scope_id,
                ) {
                    Some(sym) => Some(sym.sym_type),
                    None => None,
                };
                match found {
                    Some(t) => {
                        proof {
                            assert(dv0 + Seq::<DiagnosticV>::empty() =~= dv0);
                        }
                        t
                    },
                    None => {
                        let diag = Diagnostic::undefined_variable(name.clone());
                        proof {
                            lemma_diags_view_push(self.diagnostics.diagnostics@, diag);
                            assert(dv0.push(diag_view(diag)) =~= dv0 + seq![diag_view(diag)]);
                        }
                        self.diagnostics.report(diag);
                        Type::Unresolved
                    },
                }
            },
            Expression::BinaryOperation { left, operator, right } => {
                let lt = self.visit_expression(&**left);
                let ghost d1 = resolve_expr(
                    old(self).symbols_table@,
                    old(self).current_scope_id.0 as int,
                    expr_view(**left),
                ).1;
                let rt = self.visit_expression(&**right);
                let ghost d2 = resolve_expr(
                    old(self).symbols_table@,
                    old(self).current_scope_id.0 as int,
                    expr_view(**right),
                ).1;
                let t = resolve_binary_operation_type(&lt, &rt, operator);
                if t == Type::Unresolved {
                    let span = (&**left).span().union(&(&**right).span());
                    let diag = Diagnostic::incompatible_binary_operation(lt, rt, *operator, span);
                    proof {
                        lemma_diags_view_push(self.diagnostics.diagnostics@, diag);
                    }
                    self.diagnostics.report(diag);
                    proof {
                        assert(diags_view(self.diagnostics.diagnostics@) =~= dv0 + (d1 + d2 + seq![
                            diag_view(diag),
                        ]));
                    }
                } else {
                    proof {
                        assert(d1 + d2 + Seq::<DiagnosticV>::empty() =~= d1 + d2);
                        assert(diags_view(self.diagnostics.diagnostics@) =~= dv0 + (d1 + d2));
                    }
                }
                t
            },
            Expression::UnaryOperation { operator, operand } => {
                let ot = self.visit_expression(&**operand);
                let ghost d1 = resolve_expr(
                    old(self).symbols_table@,
                    old(self).current_scope_id.0 as int,
                    expr_view(**operand),
                ).1;
                let t = resolve_unary_operation_type(&ot, operator);
                if t == Type::Unresolved {
                    let span = (&**operand).span();
                    let diag = Diagnostic::incompatible_unary_operation(ot, *operator, span);
                    proof {
                        lemma_diags_view_push(self.diagnostics.diagnostics@, diag);
                    }
                    self.diagnostics.report(diag);
                    proof {
                        assert(diags_view(self.diagnostics.diagnostics@) =~= dv0 + (d1 + seq![
                            diag_view(diag),
                        ]));
                    }
                } else {
                    proof {
                        assert(d1 + Seq::<DiagnosticV>::empty() =~= d1);
                    }
                }
                t
            },
            Expression::Grouped(inner) => self.visit_expression(&**inner),
            Expression::FunctionCall(data) => {
                self.visit_function_call(&data.function_name, &data.arguments);
                Type::Unresolved
            },
        }
    }

    /// Checks that the callee is defined and the argument count matches its
    /// declared parameter count, then visits every argument.
    fn visit_function_call(&mut self, function_name: &Token, arguments: &Vec<Expression>)
        requires
            old(self).wf(),
        ensures
            Self::frame(*old(self), *final(self)),
            final(self).symbols_table == old(self).symbols_table,
            final(self).block_type_stack == old(self).block_type_stack,
            final(self).current_block_type == old(self).current_block_type,
            diags_view(final(self).diagnostics.diagnostics@) == diags_view(
                old(self).diagnostics.diagnostics@,
            ) + resolve_call(
                old(self).symbols_table@,
                old(self).current_scope_id.0 as int,
                function_name.value@,
                exprs_view(arguments@),
            ),
        decreases arguments@, 2int,
    {
        let ghost tv = old(self).symbols_table@;
        let ghost cur = old(self).current_scope_id.0 as int;
        let ghost dv0 = diags_view(old(self).diagnostics.diagnostics@);
        let ghost vs = exprs_view(arguments@);
        proof {
            lemma_exprs_view_len(arguments@);
        }
        let params: Option<usize> = match self.symbols_table.lookup_function(
            function_name.value.as_str(),
        ) {
            Some(sym) => Some(sym.parameters.len()),
            None => None,
        };
        match params {
            Some(expected) => {
                if expected != arguments.len() {
                    let diag = Diagnostic::function_arguments_mismatch(
                        function_name.clone(),
                        expected,
                        arguments.len(),
                    );
                    proof {
                        lemma_diags_view_push(self.diagnostics.diagnostics@, diag);
                    }
                    self.diagnostics.report(diag);
                }
            },
            None => {
                let diag = Diagnostic::undefined_function(function_name.clone());
                proof {
                    lemma_diags_view_push(self.diagnostics.diagnostics@, diag);
                }
                self.diagnostics.report(diag);
            },
        }
        let ghost head = diags_view(self.diagnostics.diagnostics@).subrange(
            dv0.len() as int,
            diags_view(self.diagnostics.diagnostics@).len() as int,
        );
        proof {
            assert(diags_view(self.diagnostics.diagnostics@) =~= dv0 + head);
            assert(resolve_exprs(tv, cur, vs.subrange(0, 0)) =~= Seq::<DiagnosticV>::empty());
            assert(dv0 + head + Seq::<DiagnosticV>::empty() =~= dv0 + head);
        }
        let n = arguments.len();
        let mut i: usize = 0;
        while i < n
            invariant
                self.wf(),
                n == arguments@.len(),
                i <= n,
                vs == exprs_view(arguments@),
                vs.len() == n,
                forall|j: int| 0 <= j < n ==> vs[j] == expr_view(arguments@[j]),
                tv == self.symbols_table@,
                self.symbols_table == old(self).symbols_table,
                self.current_scope_id == old(self).current_scope_id,
                cur == self.current_scope_id.0 as int,
                self.block_type_stack == old(self).block_type_stack,
                self.current_block_type == old(self).current_block_type,
                old(self).diagnostics.diagnostics@.len() <= self.diagnostics.diagnostics@.len(),
                dv0 == diags_view(old(self).diagnostics.diagnostics@),
                diags_view(self.diagnostics.diagnostics@) == dv0 + head + resolve_exprs(
                    tv,
                    cur,
                    vs.subrange(0, i as int),
                ),
            decreases n - i,
        {
            self.visit_expression(&arguments[i]);
            proof {
                assert(vs.subrange(0, i + 1).subrange(0, i as int) =~= vs.subrange(0, i as int));
                assert(vs.subrange(0, i + 1)[i as int] == vs[i as int]);
                assert(diags_view(self.diagnostics.diagnostics@) =~= dv0 + head + resolve_exprs(
                    tv,
                    cur,
                    vs.subrange(0, i + 1),
                ));
            }
            i = i + 1;
        }
        proof {
            assert(vs.subrange(0, n as int) =~= vs);
            assert(dv0 + head + resolve_exprs(tv, cur, vs) =~= dv0 + (head + resolve_exprs(
                tv,
                cur,
                vs,
            )));
            assert(head + resolve_exprs(tv, cur, vs) =~= resolve_call(
                tv,
                cur,
                function_name.value@,
                vs,
            ));
        }
    }

    /// Declares a variable: a redefinition in the same scope is reported, the
    /// initializer is visited, and the name is bound to the initializer's type.
    fn visit_variable_declaration(&mut self, name: &Token, value: &Expression)
        requires
            old(self).wf(),
        ensures
            Self::frame(*old(self), *final(self)),
            final(self).block_type_stack == old(self).block_type_stack,
            final(self).current_block_type == old(self).current_block_type,
            ({
                let res = resolve_declaration(
                    old(self).symbols_table@,
                    old(self).current_scope_id.0 as int,
                    name.value@,
                    expr_view(*value),
                );
                final(self).symbols_table@ == res.0 && diags_view(
                    final(self).diagnostics.diagnostics@,
                ) == diags_view(old(self).diagnostics.diagnostics@) + res.1
            }),
        decreases *value, 2int,
    {
        let ghost tv = old(self).symbols_table@;
        let ghost cur = old(self).current_scope_id.0 as int;
        let ghost dv0 = diags_view(old(self).diagnostics.diagnostics@);
        let dup = self.symbols_table.lookup_variable_in_scope_only(
            name.value.as_str(),
            self.current_scope_id,
        ).is_some();
        if dup {
            let diag = Diagnostic::variable_redefinition(name.clone());
            proof {
                lemma_diags_view_push(self.diagnostics.diagnostics@, diag);
                assert(dv0.push(diag_view(diag)) =~= dv0 + seq![diag_view(diag)]);
            }
            self.diagnostics.report(diag);
        }
        let ghost head = if tv.scopes[cur].vars.contains_key(name.value@) {
            seq![DiagnosticV::VariableRedefinition { identifier: name.value@ }]
        } else {
            Seq::<DiagnosticV>::empty()
        };
        proof {
            assert(diags_view(self.diagnostics.diagnostics@) =~= dv0 + head);
        }
        let vt = self.visit_expression(value);
        self.symbols_table.define_variable(
            VariableSymbol { identifier: name.value.clone(), sym_type: vt },
            self.current_scope_id,
        );
        proof {
            let res = resolve_declaration(tv, cur, name.value@, expr_view(*value));
            assert(self.symbols_table@.scopes =~= res.0.scopes);
            assert(self.symbols_table@ =~= res.0);
            assert(dv0 + head + resolve_expr(tv, cur, expr_view(*value)).1 =~= dv0 + res.1);
        }
    }

    /// Assigns to a variable: the value is visited, then the name must be
    /// bound somewhere in the scope chain, with the value's type.
    fn visit_variable_assignement(&mut self, name: &Token, value: &Expression)
        requires
            old(self).wf(),
        ensures
            Self::frame(*old(self), *final(self)),
            final(self).symbols_table == old(self).symbols_table,
            final(self).block_type_stack == old(self).block_type_stack,
            final(self).current_block_type == old(self).current_block_type,
            diags_view(final(self).diagnostics.diagnostics@) == diags_view(
                old(self).diagnostics.diagnostics@,
            ) + resolve_assignment(
                old(self).symbols_table@,
                old(self).current_scope_id.0 as int,
                name.value@,
                expr_view(*value),
            ),
        decreases *value, 2int,
    {
        let ghost tv = old(self).symbols_table@;
        let ghost cur = old(self).current_scope_id.0 as int;
        let ghost dv0 = diags_view(old(self).diagnostics.diagnostics@);
        let vt = self.visit_expression(value);
        let ghost d1 = resolve_expr(tv, cur, expr_view(*value)).1;
        let found: Option<Type> = match self.symbols_table.lookup_variable(
            name.value.as_str(),
            self.current_scope_id,
        ) {
            Some(sym) => Some(sym.sym_type),
            None => None,
        };
        match found {
            Some(t) => {
                if t != vt {
                    let diag = Diagnostic::variable_type_mismatch(name.clone(), t, vt);
                    proof {
                        lemma_diags_view_push(self.diagnostics.diagnostics@, diag);
                    }
                    self.diagnostics.report(diag);
                    proof {
                        assert(diags_view(self.diagnostics.diagnostics@) =~= dv0 + (d1 + seq![
                            diag_view(diag),
                        ]));
                    }
                } else {
                    proof {
                        assert(d1 + Seq::<DiagnosticV>::empty() =~= d1);
                    }
                }
            },
            None => {
                let diag = Diagnostic::undefined_variable(name.clone());
                proof {
                    lemma_diags_view_push(self.diagnostics.diagnostics@, diag);
                }
                self.diagnostics.report(diag);
                proof {
                    assert(diags_view(self.diagnostics.diagnostics@) =~= dv0 + (d1 + seq![
                        diag_view(diag),
                    ]));
                }
            },
        }
    }

    /// `return` is legal only inside a function body; its value, if present,
    /// is visited.
    fn visit_return_statement(&mut self, span: TextSpan, expression: &Option<Expression>)
        requires
            old(self).wf(),
        ensures
            Self::frame(*old(self), *final(self)),
            final(self).symbols_table == old(self).symbols_table,
            final(self).block_type_stack == old(self).block_type_stack,
            final(self).current_block_type == old(self).current_block_type,
            diags_view(final(self).diagnostics.diagnostics@) == diags_view(
                old(self).diagnostics.diagnostics@,
            ) + resolve_return(
                old(self).symbols_table@,
                old(self).current_scope_id.0 as int,
                old(self).block_type_stack@,
                match *expression {
                    Some(e) => Some(expr_view(e)),
                    None => None,
                },
            ),
        decreases *expression, 2int,
    {
        let ghost dv0 = diags_view(old(self).diagnostics.diagnostics@);
        if self.is_inside_block(BlockType::FunctionBlock) {
            match expression {
                Some(expr) => {
                    self.visit_expression(expr);
                },
                None => {
                    proof {
                        assert(dv0 + Seq::<DiagnosticV>::empty() =~= dv0);
                    }
                },
            }
        } else {
            let diag = Diagnostic::return_outside_function(span);
            proof {
                lemma_diags_view_push(self.diagnostics.diagnostics@, diag);
                assert(dv0.push(diag_view(diag)) =~= dv0 + seq![diag_view(diag)]);
            }
            self.diagnostics.report(diag);
        }
    }

    /// Resolves the statements of a block, in order.
    fn visit_block_statements(&mut self, statements: &Vec<Statement>)
        requires
            old(self).wf(),
        ensures
            Self::frame(*old(self), *final(self)),
            final(self).rstate() == resolve_stmts(old(self).rstate(), stmts_view(statements@)),
        decreases statements@, 4int,
    {
        let ghost st0 = old(self).rstate();
        let ghost vs = stmts_view(statements@);
        proof {
            lemma_stmts_view_len(statements@);
            assert(vs.subrange(0, vs.len() as int) =~= vs);
        }
        let n = statements.len();
        let mut i: usize = 0;
        while i < n
            invariant
                self.wf(),
                n == statements@.len(),
                i <= n,
                vs == stmts_view(statements@),
                vs.len() == n,
                forall|k: int| 0 <= k < n ==> vs[k] == stmt_view(statements@[k]),
                Self::frame(*old(self), *self),
                st0 == old(self).rstate(),
                resolve_stmts(st0, vs) == resolve_stmts(
                    self.rstate(),
                    vs.subrange(i as int, n as int),
                ),
            decreases n - i,
        {
            proof {
                assert(vs.subrange(i as int, n as int)[0] == vs[i as int]);
                assert(vs.subrange(i as int, n as int).subrange(1, n - i) =~= vs.subrange(
                    i + 1,
                    n as int,
                ));
            }
            self.visit_statement(&statements[i]);
            i = i + 1;
        }
        proof {
            assert(vs.subrange(n as int, n as int).len() == 0);
        }
    }

    /// Resolves one statement: exact for declarations, assignments, calls and
    /// `return`; control-flow statements resolve their conditions and bounds,
    /// then their bodies in fresh scopes.
    #[verifier::rlimit(100)]
    fn visit_statement(&mut self, s: &Statement)
        requires
            old(self).wf(),
        ensures
            Self::frame(*old(self), *final(self)),
            final(self).rstate() == resolve_stmt(old(self).rstate(), stmt_view(*s)),
        decreases *s, 3int,
    {
        let ghost st0 = old(self).rstate();
        match s {
            Statement::VariableDeclaration { name, value } => {
                self.visit_variable_declaration(name, value);
                proof {
                    assert(self.rstate() =~~= resolve_stmt(st0, stmt_view(*s)));
                }
            },
            Statement::VariableAssignment { name, value } => {
                self.visit_variable_assignement(name, value);
                proof {
                    assert(self.rstate() =~~= resolve_stmt(st0, stmt_view(*s)));
                }
            },
            Statement::IfStatement { if_then_branch, else_branch } => {
                self.current_block_type = Some(BlockType::IfBlock);
                let t = self.visit_expression(&if_then_branch.condition);
                if t != Type::Bool {
                    let span = if_then_branch.condition.span();
                    let diag = Diagnostic::expression_type_mismatch(Type::Bool, t, span);
                    proof {
                        lemma_diags_view_push(self.diagnostics.diagnostics@, diag);
                    }
                    self.diagnostics.report(diag);
                }
                proof {
                    let c = resolve_expr(st0.table, st0.cur, expr_view(if_then_branch.condition));
                    let extra: Seq<DiagnosticV> = if c.0 != Type::Bool {
                        seq![
                            DiagnosticV::ExpressionTypeMismatch {
                                expected_type: Type::Bool,
                                found_type: c.0,
                            },
                        ]
                    } else {
                        Seq::empty()
                    };
                    assert(self.rstate() =~~= (RState {
                        table: st0.table,
                        cur: st0.cur,
                        blocks: st0.blocks,
                        pending: Some(BlockType::IfBlock),
                        diags: st0.diags + c.1 + extra,
                    }));
                }
                let ghost st1 = self.rstate();
                self.visit_statement(&*if_then_branch.then_branch);
                match else_branch {
                    Some(eb) => {
                        self.current_block_type = Some(BlockType::ElseBlock);
                        let ghost st2 = self.rstate();
                        self.visit_statement(&**eb);
                        proof {
                            assert(self.rstate() =~~= resolve_stmt(st0, stmt_view(*s)));
                        }
                    },
                    None => {
                        proof {
                            assert(self.rstate() =~~= resolve_stmt(st0, stmt_view(*s)));
                        }
                    },
                }
            },
            Statement::BlockStatement { statements } => {
                self.block_statement_on_enter();
                proof {
                    assert(self.rstate() =~~= (RState {
                        table: table_enter(st0.table, st0.cur),
                        cur: st0.table.scopes.len() as int,
                        blocks: match st0.pending {
                            Some(bt) => st0.blocks.push(bt),
                            None => st0.blocks,
                        },
                        pending: None,
                        diags: st0.diags,
                    }));
                }
                self.visit_block_statements(statements);
                self.block_statement_on_exit();
                proof {
                    assert(self.rstate() =~~= resolve_stmt(st0, stmt_view(*s)));
                }
            },
            Statement::WhileStatement { condition, body } => {
                self.current_block_type = Some(BlockType::WhileBlock);
                let t = self.visit_expression(condition);
                if t != Type::Bool {
                    let span = condition.span();
                    let diag = Diagnostic::expression_type_mismatch(Type::Bool, t, span);
                    proof {
                        lemma_diags_view_push(self.diagnostics.diagnostics@, diag);
                    }
                    self.diagnostics.report(diag);
                }
                proof {
                    let c = resolve_expr(st0.table, st0.cur, expr_view(*condition));
                    let extra: Seq<DiagnosticV> = if c.0 != Type::Bool {
                        seq![
                            DiagnosticV::ExpressionTypeMismatch {
                                expected_type: Type::Bool,
                                found_type: c.0,
                            },
                        ]
                    } else {
                        Seq::empty()
                    };
                    assert(self.rstate() =~~= (RState {
                        table: st0.table,
                        cur: st0.cur,
                        blocks: st0.blocks,
                        pending: Some(BlockType::WhileBlock),
                        diags: st0.diags + c.1 + extra,
                    }));
                }
                self.visit_statement(&**body);
                proof {
                    assert(self.rstate() =~~= resolve_stmt(st0, stmt_view(*s)));
                }
            },
            Statement::ForStatement { variable, start, end, step, body } => {
                self.current_block_type = Some(BlockType::ForBlock);
                let start_type = self.visit_expression(start);
                let end_type = self.visit_expression(end);
                if start_type != end_type {
                    let diag = Diagnostic::variable_type_mismatch(
                        variable.clone(),
                        start_type,
                        end_type,
                    );
                    proof {
                        lemma_diags_view_push(self.diagnostics.diagnostics@, diag);
                    }
                    self.diagnostics.report(diag);
                }
                match step {
                    Some(step_expr) => {
                        let step_type = self.visit_expression(step_expr);
                        if step_type != start_type {
                            let diag = Diagnostic::variable_type_mismatch(
                                variable.clone(),
                                start_type,
                                step_type,
                            );
                            proof {
                                lemma_diags_view_push(self.diagnostics.diagnostics@, diag);
                            }
                            self.diagnostics.report(diag);
                        }
                        if end_type != step_type {
                            let span = step_expr.span();
                            let diag = Diagnostic::expression_type_mismatch(
                                end_type,
                                step_type,
                                span,
                            );
                            proof {
                                lemma_diags_view_push(self.diagnostics.diagnostics@, diag);
                            }
                            self.diagnostics.report(diag);
                        }
                    },
                    None => {},
                }
                self.enter_scope();
                self.symbols_table.define_variable(
                    VariableSymbol { identifier: variable.value.clone(), sym_type: start_type },
                    self.current_scope_id,
                );
                proof {
                    let r1 = resolve_expr(st0.table, st0.cur, expr_view(*start));
                    let r2 = resolve_expr(st0.table, st0.cur, expr_view(*end));
                    let mism: Seq<DiagnosticV> = if r1.0 != r2.0 {
                        seq![
                            DiagnosticV::VariableTypeMismatch {
                                identifier: variable.value@,
                                expected_type: r1.0,
                                found_type: r2.0,
                            },
                        ]
                    } else {
                        Seq::empty()
                    };
                    let stepd: Seq<DiagnosticV> = match stmt_view(*s) {
                        StatementV::For { step: Some(se), .. } => {
                            let r3 = resolve_expr(st0.table, st0.cur, se);
                            let m2: Seq<DiagnosticV> = if r3.0 != r1.0 {
                                seq![
                                    DiagnosticV::VariableTypeMismatch {
                                        identifier: variable.value@,
                                        expected_type: r1.0,
                                        found_type: r3.0,
                                    },
                                ]
                            } else {
                                Seq::empty()
                            };
                            let m3: Seq<DiagnosticV> = if r2.0 != r3.0 {
                                seq![
                                    DiagnosticV::ExpressionTypeMismatch {
                                        expected_type: r2.0,
                                        found_type: r3.0,
                                    },
                                ]
                            } else {
                                Seq::empty()
                            };
                            r3.1 + m2 + m3
                        },
                        _ => Seq::empty(),
                    };
                    let new_cur = st0.table.scopes.len() as int;
                    assert(self.symbols_table@ =~~= table_with_var(
                        table_enter(st0.table, st0.cur),
                        new_cur,
                        variable.value@,
                        r1.0,
                    ));
                    assert(self.rstate() =~~= (RState {
                        table: table_with_var(
                            table_enter(st0.table, st0.cur),
                            new_cur,
                            variable.value@,
                            r1.0,
                        ),
                        cur: new_cur,
                        blocks: st0.blocks,
                        pending: Some(BlockType::ForBlock),
                        diags: st0.diags + r1.1 + r2.1 + mism + stepd,
                    }));
                }
                self.visit_statement(&**body);
                self.exit_scope();
                proof {
                    assert(self.rstate() =~~= resolve_stmt(st0, stmt_view(*s)));
                }
            },
            Statement::FunctionDefinition { name, arguments, body } => {
                let ghost names = tokens_text(arguments@);
                let mut parameters: Vec<String> = Vec::new();
                let n = arguments.len();
                let mut i: usize = 0;
                while i < n
                    invariant
                        n == arguments@.len(),
                        i <= n,
                        parameters@.len() == i,
                        forall|t: int|
                            0 <= t < i ==> (#[trigger] parameters@[t])@ == arguments@[t].value@,
                    decreases n - i,
                {
                    parameters.push(arguments[i].value.clone());
                    i = i + 1;
                }
                proof {
                    assert(params_text(parameters@) =~= names);
                }
                self.symbols_table.define_function(
                    FunctionSymbol { identifier: name.value.clone(), parameters },
                );
                self.enter_scope();
                self.current_block_type = Some(BlockType::FunctionBlock);
                let ghost tbl1 = TableV {
                    scopes: st0.table.scopes,
                    functions: st0.table.functions.insert(name.value@, names),
                };
                let ghost new_cur = st0.table.scopes.len() as int;
                proof {
                    assert(self.symbols_table@ =~~= table_enter(tbl1, st0.cur));
                    assert(names.subrange(0, 0) =~= Seq::<Seq<char>>::empty());
                }
                let ghost snap = *self;
                let m = arguments.len();
                let mut j: usize = 0;
                while j < m
                    invariant
                        self.wf(),
                        m == arguments@.len(),
                        j <= m,
                        names == tokens_text(arguments@),
                        names.len() == m,
                        self.current_scope_id == snap.current_scope_id,
                        self.current_scope_id.0 as int == new_cur,
                        self.symbols_table@ == table_with_params(
                            table_enter(tbl1, st0.cur),
                            new_cur,
                            names.subrange(0, j as int),
                        ),
                        self.symbols_table@.scopes.len() == snap.symbols_table@.scopes.len(),
                        forall|k: int|
                            0 <= k < snap.symbols_table@.scopes.len() ==> (
                            #[trigger] self.symbols_table@.scopes[k]).parent
                                == snap.symbols_table@.scopes[k].parent,
                        self.diagnostics == snap.diagnostics,
                        self.block_type_stack == snap.block_type_stack,
                        self.current_block_type == snap.current_block_type,
                    decreases m - j,
                {
                    proof {
                        lemma_table_with_params_push(
                            table_enter(tbl1, st0.cur),
                            new_cur,
                            names.subrange(0, j as int),
                            names[j as int],
                        );
                        assert(names.subrange(0, j as int).push(names[j as int]) =~= names.subrange(
                            0,
                            j + 1,
                        ));
                    }
                    self.symbols_table.define_variable(
                        VariableSymbol {
                            identifier: arguments[j].value.clone(),
                            sym_type: Type::Unresolved,
                        },
                        self.current_scope_id,
                    );
                    proof {
                        assert(self.symbols_table@ =~~= table_with_params(
                            table_enter(tbl1, st0.cur),
                            new_cur,
                            names.subrange(0, j + 1),
                        ));
                    }
                    j = j + 1;
                }
                proof {
                    assert(names.subrange(0, m as int) =~= names);
                    assert(self.rstate() =~~= (RState {
                        table: table_with_params(table_enter(tbl1, st0.cur), new_cur, names),
                        cur: new_cur,
                        blocks: st0.blocks,
                        pending: Some(BlockType::FunctionBlock),
                        diags: st0.diags,
                    }));
                }
                let ghost pre_body = self.rstate();
                self.visit_statement(&**body);
                let ghost st_body = self.rstate();
                proof {
                    assert(self.symbols_table@.scopes[new_cur].parent == Some(st0.cur));
                }
                self.exit_scope();
                proof {
                    assert(self.current_scope_id.0 as int == st0.cur);
                    assert(self.rstate() =~~= (RState {
                        table: st_body.table,
                        cur: st0.cur,
                        blocks: st_body.blocks,
                        pending: st_body.pending,
                        diags: st_body.diags,
                    }));
                    assert(self.rstate() =~~= resolve_stmt(st0, stmt_view(*s)));
                }
            },
            Statement::FunctionCall(data) => {
                self.visit_function_call(&data.function_name, &data.arguments);
                proof {
                    assert(self.rstate() =~~= resolve_stmt(st0, stmt_view(*s)));
                }
            },
            Statement::ReturnStatement { span, expression } => {
                let sp = *span;
                self.visit_return_statement(sp, expression);
                proof {
                    assert(self.rstate() =~~= resolve_stmt(st0, stmt_view(*s)));
                }
            },
        }
    }
}


// ---------------------------------------------------------------------------
// Laws of resolution.
// ---------------------------------------------------------------------------

/// The diagnostics an expression can produce: expressions never declare, so
/// they never report a redefinition, and never a misplaced `return`.
pub open spec fn is_expression_diag(d: DiagnosticV) -> bool {
    ||| d matches DiagnosticV::UndefinedVariable { .. }
    ||| d matches DiagnosticV::UndefinedFunction { .. }
    ||| d matches DiagnosticV::FunctionArgumentsMismatch { .. }
    ||| d matches DiagnosticV::IncompatibleBinaryOperation { .. }
    ||| d matches DiagnosticV::IncompatibleUnaryOperation { .. }
}

pub proof fn lemma_expr_diags_are_expression_diags(tv: TableV, cur: int, e: ExpressionV)
    ensures
        forall|i: int|
            0 <= i < resolve_expr(tv, cur, e).1.len() ==> is_expression_diag(
                #[trigger] resolve_expr(tv, cur, e).1[i],
            ),
    decreases e, 1int,
{
    let d = resolve_expr(tv, cur, e).1;
    match e {
        ExpressionV::Binary { left, operator, right } => {
            lemma_expr_diags_are_expression_diags(tv, cur, *left);
            lemma_expr_diags_are_expression_diags(tv, cur, *right);
            let d1 = resolve_expr(tv, cur, *left).1;
            let d2 = resolve_expr(tv, cur, *right).1;
            assert forall|i: int| 0 <= i < d.len() implies is_expression_diag(#[trigger] d[i]) by {
                if i < d1.len() {
                    assert(d[i] == d1[i]);
                } else if i < d1.len() + d2.len() {
                    assert(d[i] == d2[i - d1.len()]);
                }
            }
        },
        ExpressionV::Unary { operator, operand } => {
            lemma_expr_diags_are_expression_diags(tv, cur, *operand);
            let d1 = resolve_expr(tv, cur, *operand).1;
            assert forall|i: int| 0 <= i < d.len() implies is_expression_diag(#[trigger] d[i]) by {
                if i < d1.len() {
                    assert(d[i] == d1[i]);
                }
            }
        },
        ExpressionV::Grouped(inner) => {
            lemma_expr_diags_are_expression_diags(tv, cur, *inner);
            assert forall|i: int| 0 <= i < d.len() implies is_expression_diag(#[trigger] d[i]) by {
                assert(d[i] == resolve_expr(tv, cur, *inner).1[i]);
            }
        },
        ExpressionV::Call { name, arguments } => {
            lemma_call_diags_are_expression_diags(tv, cur, name, arguments);
            assert forall|i: int| 0 <= i < d.len() implies is_expression_diag(#[trigger] d[i]) by {
                assert(d[i] == resolve_call(tv, cur, name, arguments)[i]);
            }
        },
        _ => {},
    }
}

pub proof fn lemma_call_diags_are_expression_diags(
    tv: TableV,
    cur: int,
    name: Seq<char>,
    args: Seq<ExpressionV>,
)
    ensures
        forall|i: int|
            0 <= i < resolve_call(tv, cur, name, args).len() ==> is_expression_diag(
                #[trigger] resolve_call(tv, cur, name, args)[i],
            ),
    decreases args, 2int,
{
    lemma_exprs_diags_are_expression_diags(tv, cur, args);
    let d = resolve_call(tv, cur, name, args);
    let tail = resolve_exprs(tv, cur, args);
    assert forall|i: int| 0 <= i < d.len() implies is_expression_diag(#[trigger] d[i]) by {
        if i >= d.len() - tail.len() {
            assert(d[i] == tail[i - (d.len() - tail.len())]);
        }
    }
}

pub proof fn lemma_exprs_diags_are_expression_diags(
    tv: TableV,
    cur: int,
    args: Seq<ExpressionV>,
)
    ensures
        forall|i: int|
            0 <= i < resolve_exprs(tv, cur, args).len() ==> is_expression_diag(
                #[trigger] resolve_exprs(tv, cur, args)[i],
            ),
    decreases args, 0int,
{
    if args.len() > 0 {
        lemma_exprs_diags_are_expression_diags(tv, cur, args.subrange(0, args.len() - 1));
        lemma_expr_diags_are_expression_diags(tv, cur, args[args.len() - 1]);
        let d = resolve_exprs(tv, cur, args);
        let d1 = resolve_exprs(tv, cur, args.subrange(0, args.len() - 1));
        let d2 = resolve_expr(tv, cur, args[args.len() - 1]).1;
        assert forall|i: int| 0 <= i < d.len() implies is_expression_diag(#[trigger] d[i]) by {
            if i < d1.len() {
                assert(d[i] == d1[i]);
            } else {
                assert(d[i] == d2[i - d1.len()]);
            }
        }
    }
}

/// Declaring a name already bound in the current scope is an error: the
/// redefinition diagnostic for that name is reported first.
pub proof fn lemma_redeclaration_in_same_scope_reported(
    tv: TableV,
    cur: int,
    name: Seq<char>,
    value: ExpressionV,
)
    requires
        0 <= cur < tv.scopes.len(),
        tv.scopes[cur].vars.contains_key(name),
    ensures
        resolve_declaration(tv, cur, name, value).1.len() >= 1,
        resolve_declaration(tv, cur, name, value).1[0] == (DiagnosticV::VariableRedefinition {
            identifier: name,
        }),
{
}

/// Declaring a name bound only in an enclosing scope (shadowing) is not an
/// error: no redefinition diagnostic is reported at all.
pub proof fn lemma_shadowing_not_reported(tv: TableV, cur: int, name: Seq<char>, value: ExpressionV)
    requires
        0 <= cur < tv.scopes.len(),
        !tv.scopes[cur].vars.contains_key(name),
    ensures
        forall|i: int|
            0 <= i < resolve_declaration(tv, cur, name, value).1.len() ==> !((
            #[trigger] resolve_declaration(tv, cur, name, value).1[i]) matches
                DiagnosticV::VariableRedefinition { .. }),
{
    lemma_expr_diags_are_expression_diags(tv, cur, value);
    let d = resolve_declaration(tv, cur, name, value).1;
    let vd = resolve_expr(tv, cur, value).1;
    assert(d =~= vd);
}

/// Assigning to a name never declared anywhere in the enclosing scope chain
/// is an undefined-variable error for that name.
pub proof fn lemma_assign_undeclared_reported(
    tv: TableV,
    cur: int,
    name: Seq<char>,
    value: ExpressionV,
)
    requires
        lookup_chain(tv.scopes, cur, name) is None,
    ensures
        ({
            let d = resolve_assignment(tv, cur, name, value);
            d.len() >= 1 && d[d.len() - 1] == (DiagnosticV::UndefinedVariable { identifier: name })
        }),
{
}

/// A call of a defined function with the wrong number of arguments is flagged
/// with the declared and supplied counts, reported before the arguments'
/// diagnostics. A resolution that reported anything makes compilation fail,
/// so the call is never executed.
pub proof fn lemma_call_arity_mismatch_reported(
    tv: TableV,
    cur: int,
    name: Seq<char>,
    args: Seq<ExpressionV>,
)
    requires
        tv.functions.contains_key(name),
        tv.functions[name].len() != args.len(),
    ensures
        resolve_call(tv, cur, name, args).len() >= 1,
        resolve_call(tv, cur, name, args)[0] == (DiagnosticV::FunctionArgumentsMismatch {
            function_name: name,
            expected: tv.functions[name].len(),
            found: args.len(),
        }),
{
}

/// `return` outside any function body is exactly one return-outside-function
/// diagnostic.
pub proof fn lemma_return_outside_function_reported(
    tv: TableV,
    cur: int,
    blocks: Seq<BlockType>,
    expression: Option<ExpressionV>,
)
    requires
        !blocks.contains(BlockType::FunctionBlock),
    ensures
        resolve_return(tv, cur, blocks, expression) == seq![DiagnosticV::ReturnOutsideFunction],
{
}

/// `return` inside a function body never reports a return-outside-function
/// diagnostic.
pub proof fn lemma_return_inside_function_not_flagged(
    tv: TableV,
    cur: int,
    blocks: Seq<BlockType>,
    expression: Option<ExpressionV>,
)
    requires
        blocks.contains(BlockType::FunctionBlock),
    ensures
        forall|i: int|
            0 <= i < resolve_return(tv, cur, blocks, expression).len() ==> (
            #[trigger] resolve_return(tv, cur, blocks, expression)[i])
                != DiagnosticV::ReturnOutsideFunction,
{
    match expression {
        Some(e) => {
            lemma_expr_diags_are_expression_diags(tv, cur, e);
        },
        None => {},
    }
}

} // verus!
