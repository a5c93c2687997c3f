//! Interpreter: executes statements for effect and expressions for value
//! against a runtime scope stack (innermost scope last). Function definitions
//! are pre-scanned into a flat table, so forward references and recursion
//! resolve independent of textual order. `return` is carried as a completion
//! signal that short-circuits blocks and loops and becomes the call's result.
//!
//! Execution is measured in fuel: one unit per loop iteration and per function
//! call. A run that exhausts its fuel ends with a distinguished interruption
//! rather than an answer, and can be retried with more fuel; everything else
//! matches the reference evaluation exactly, at every fuel.

use vstd::prelude::*;
use crate::ast::Ast;
use crate::ast::clone_statement;
use crate::ast::expression::{Expression, ExpressionV, expr_view, exprs_view, lemma_exprs_view_len};
use crate::ast::statement::{Statement, StatementV, stmt_view, stmts_view, lemma_stmts_view_len,
    tokens_text};
use crate::lexer::Token;
use crate::symbols_table::params_text;

pub mod builtin;

verus! {

#[derive(Clone, Copy, Debug, PartialEq, Eq, Structural)]
pub enum RuntimeValue {
    Number(i64),
    Bool(bool),
}

#[derive(Debug, PartialEq, Eq)]
pub enum RuntimeError {
    VariableNotFound(String),
    InvalidOperation,
    DivisionByZero,
    InvalidCondition,
}

/// The mathematical shape of a runtime error: the name as characters.
#[verifier::ext_equal]
pub enum RuntimeErrorV {
    VariableNotFound(Seq<char>),
    InvalidOperation,
    DivisionByZero,
    InvalidCondition,
}

pub open spec fn err_view(e: RuntimeError) -> RuntimeErrorV {
    match e {
        RuntimeError::VariableNotFound(name) => RuntimeErrorV::VariableNotFound(name@),
        RuntimeError::InvalidOperation => RuntimeErrorV::InvalidOperation,
        RuntimeError::DivisionByZero => RuntimeErrorV::DivisionByZero,
        RuntimeError::InvalidCondition => RuntimeErrorV::InvalidCondition,
    }
}

/// How a statement finished: normally, or by an executed `return` whose value
/// is forwarded out of the enclosing call.
#[derive(Debug)]
pub enum Completion {
    Normal,
    Return(Option<RuntimeValue>),
}

/// Why execution stopped without a completion: a runtime fault, or the fuel
/// budget ran out (retry with more fuel).
#[derive(Debug)]
pub enum Halt {
    Fault(RuntimeError),
    OutOfFuel,
}

// ---------------------------------------------------------------------------
// Runtime scopes: name-to-value bindings, innermost scope last on the stack.
// ---------------------------------------------------------------------------

pub struct RuntimeScope {
    pub variables: Vec<(String, RuntimeValue)>,
}

/// The bindings a list of entries amounts to: the newest entry wins.
pub open spec fn bindings_view(s: Seq<(String, RuntimeValue)>) -> Map<Seq<char>, RuntimeValue>
    decreases s,
{
    if s.len() == 0 {
        Map::empty()
    } else {
        bindings_view(s.subrange(0, s.len() - 1)).insert(s[s.len() - 1].0@, s[s.len() - 1].1)
    }
}

pub proof fn lemma_bindings_view_push(s: Seq<(String, RuntimeValue)>, x: (String, RuntimeValue))
    ensures
        bindings_view(s.push(x)) == bindings_view(s).insert(x.0@, x.1),
{
    assert(s.push(x).subrange(0, s.len() as int) =~= s);
    assert(s.push(x)[s.len() as int] == x);
}

pub open spec fn lookup_bindings(s: Seq<(String, RuntimeValue)>, name: Seq<char>) -> Option<
    RuntimeValue,
>
    decreases s,
{
    if s.len() == 0 {
        None
    } else if s[s.len() - 1].0@ == name {
        Some(s[s.len() - 1].1)
    } else {
        lookup_bindings(s.subrange(0, s.len() - 1), name)
    }
}

pub proof fn lemma_lookup_bindings_view(s: Seq<(String, RuntimeValue)>, name: Seq<char>)
    ensures
        match lookup_bindings(s, name) {
            Some(v) => bindings_view(s).contains_key(name) && bindings_view(s)[name] == v,
            None => !bindings_view(s).contains_key(name),
        },
    decreases s,
{
    if s.len() > 0 {
        lemma_lookup_bindings_view(s.subrange(0, s.len() - 1), name);
    }
}

impl View for RuntimeScope {
    type V = Map<Seq<char>, RuntimeValue>;

    open spec fn view(&self) -> Map<Seq<char>, RuntimeValue> {
        bindings_view(self.variables@)
    }
}

impl RuntimeScope {
    pub fn new() -> (r: RuntimeScope)
        ensures
            r@ == Map::<Seq<char>, RuntimeValue>::empty(),
    {
        let r = RuntimeScope { variables: Vec::new() };
        proof {
            assert(r.variables@ =~= Seq::<(String, RuntimeValue)>::empty());
        }
        r
    }

    /// Binds `name` to `value` in this scope, shadowing any older binding.
    pub fn set_variable(&mut self, name: String, value: RuntimeValue)
        ensures
            final(self)@ == old(self)@.insert(name@, value),
    {
        proof {
            lemma_bindings_view_push(self.variables@, (name, value));
        }
        self.variables.push((name, value));
    }

    pub fn get_variable(&self, name: &str) -> (r: Option<&RuntimeValue>)
        ensures
            match r {
                Some(v) => self@.contains_key(name@) && *v == self@[name@],
                None => !self@.contains_key(name@),
            },
    {
        let ghost vs = self.variables@;
        proof {
            lemma_lookup_bindings_view(vs, name@);
            assert(vs.subrange(0, vs.len() as int) =~= vs);
        }
        let mut j: usize = self.variables.len();
        loop
            invariant
                j <= vs.len(),
                vs == self.variables@,
                lookup_bindings(vs.subrange(0, j as int), name@) == lookup_bindings(vs, name@),
            ensures
                j <= vs.len(),
                vs == self.variables@,
                ({
                    let found = lookup_bindings(vs, name@);
                    if j == 0 {
                        found is None
                    } else {
                        found == Some(vs[j - 1].1) && vs[j - 1].0@ == name@
                    }
                }),
            decreases j,
        {
            if j == 0 {
                break ;
            }
            proof {
                assert(vs.subrange(0, j as int)[j - 1] == vs[j - 1]);
            }
            if crate::str_eq(self.variables[j - 1].0.as_str(), name) {
                break ;
            }
            proof {
                assert(vs.subrange(0, j as int).subrange(0, j - 1) =~= vs.subrange(0, j - 1));
            }
            j = j - 1;
        }
        if j == 0 {
            None
        } else {
            Some(&self.variables[j - 1].1)
        }
    }
}

// ---------------------------------------------------------------------------
// The runtime environment: the stack of scope bindings, and its operations.
// ---------------------------------------------------------------------------

pub open spec fn env_view(scopes: Seq<RuntimeScope>) -> Seq<Map<Seq<char>, RuntimeValue>> {
    Seq::new(scopes.len(), |i: int| scopes[i]@)
}

/// The nearest binding of `name`, walking the scope stack outward-in.
pub open spec fn env_lookup(env: Seq<Map<Seq<char>, RuntimeValue>>, name: Seq<char>) -> Option<
    RuntimeValue,
>
    decreases env,
{
    if env.len() == 0 {
        None
    } else if env[env.len() - 1].contains_key(name) {
        Some(env[env.len() - 1][name])
    } else {
        env_lookup(env.subrange(0, env.len() - 1), name)
    }
}

/// Binds `name` in the innermost scope.
pub open spec fn env_declare(
    env: Seq<Map<Seq<char>, RuntimeValue>>,
    name: Seq<char>,
    value: RuntimeValue,
) -> Seq<Map<Seq<char>, RuntimeValue>> {
    env.update(env.len() - 1, env[env.len() - 1].insert(name, value))
}

/// Overwrites the nearest binding of `name`; assignment never creates one.
pub open spec fn env_assign(
    env: Seq<Map<Seq<char>, RuntimeValue>>,
    name: Seq<char>,
    value: RuntimeValue,
) -> Option<Seq<Map<Seq<char>, RuntimeValue>>>
    decreases env,
{
    if env.len() == 0 {
        None
    } else if env[env.len() - 1].contains_key(name) {
        Some(env.update(env.len() - 1, env[env.len() - 1].insert(name, value)))
    } else {
        match env_assign(env.subrange(0, env.len() - 1), name, value) {
            Some(e2) => Some(e2.push(env[env.len() - 1])),
            None => None,
        }
    }
}

pub proof fn lemma_env_lookup_at(env: Seq<Map<Seq<char>, RuntimeValue>>, j: int, name: Seq<char>)
    requires
        0 <= j < env.len(),
        env[j].contains_key(name),
        forall|k: int| j < k < env.len() ==> !(#[trigger] env[k]).contains_key(name),
    ensures
        env_lookup(env, name) == Some(env[j][name]),
    decreases env.len(),
{
    if j == env.len() - 1 {
    } else {
        lemma_env_lookup_at(env.subrange(0, env.len() - 1), j, name);
        assert(env.subrange(0, env.len() - 1)[j] == env[j]);
    }
}

pub proof fn lemma_env_lookup_none(env: Seq<Map<Seq<char>, RuntimeValue>>, name: Seq<char>)
    requires
        forall|k: int| 0 <= k < env.len() ==> !(#[trigger] env[k]).contains_key(name),
    ensures
        env_lookup(env, name) is None,
    decreases env.len(),
{
    if env.len() > 0 {
        lemma_env_lookup_none(env.subrange(0, env.len() - 1), name);
    }
}

pub proof fn lemma_env_assign_at(
    env: Seq<Map<Seq<char>, RuntimeValue>>,
    j: int,
    name: Seq<char>,
    value: RuntimeValue,
)
    requires
        0 <= j < env.len(),
        env[j].contains_key(name),
        forall|k: int| j < k < env.len() ==> !(#[trigger] env[k]).contains_key(name),
    ensures
        env_assign(env, name, value) == Some(env.update(j, env[j].insert(name, value))),
    decreases env.len(),
{
    if j == env.len() - 1 {
    } else {
        let prefix = env.subrange(0, env.len() - 1);
        lemma_env_assign_at(prefix, j, name, value);
        assert(prefix[j] == env[j]);
        assert(prefix.update(j, env[j].insert(name, value)).push(env[env.len() - 1]) =~= env.update(
            j,
            env[j].insert(name, value),
        ));
    }
}

pub proof fn lemma_env_assign_none(
    env: Seq<Map<Seq<char>, RuntimeValue>>,
    name: Seq<char>,
    value: RuntimeValue,
)
    requires
        forall|k: int| 0 <= k < env.len() ==> !(#[trigger] env[k]).contains_key(name),
    ensures
        env_assign(env, name, value) is None,
    decreases env.len(),
{
    if env.len() > 0 {
        lemma_env_assign_none(env.subrange(0, env.len() - 1), name, value);
    }
}

/// Declaring a name and then assigning to it succeeds: the nearest enclosing
/// binding is the one the assignment overwrites.
pub proof fn lemma_declare_then_assign(
    env: Seq<Map<Seq<char>, RuntimeValue>>,
    name: Seq<char>,
    first: RuntimeValue,
    second: RuntimeValue,
)
    requires
        env.len() >= 1,
    ensures
        env_assign(env_declare(env, name, first), name, second) == Some(
            env_declare(env_declare(env, name, first), name, second),
        ),
{
    let e2 = env_declare(env, name, first);
    lemma_env_assign_at(e2, e2.len() - 1, name, second);
}

// ---------------------------------------------------------------------------
// The function table: name to declared parameters and body, last wins.
// ---------------------------------------------------------------------------

pub struct FunctionInfo {
    pub parameters: Vec<String>,
    pub body: Statement,
}

/// The mathematical shape of a function table entry.
#[verifier::ext_equal]
pub struct FunctionInfoV {
    pub parameters: Seq<Seq<char>>,
    pub body: StatementV,
}

pub open spec fn fi_view(f: FunctionInfo) -> FunctionInfoV {
    FunctionInfoV { parameters: params_text(f.parameters@), body: stmt_view(f.body) }
}

pub open spec fn funcs_map(fs: Seq<(String, FunctionInfo)>) -> Map<Seq<char>, FunctionInfoV>
    decreases fs,
{
    if fs.len() == 0 {
        Map::empty()
    } else {
        funcs_map(fs.subrange(0, fs.len() - 1)).insert(
            fs[fs.len() - 1].0@,
            fi_view(fs[fs.len() - 1].1),
        )
    }
}

pub proof fn lemma_funcs_map_push(fs: Seq<(String, FunctionInfo)>, x: (String, FunctionInfo))
    ensures
        funcs_map(fs.push(x)) == funcs_map(fs).insert(x.0@, fi_view(x.1)),
{
    assert(fs.push(x).subrange(0, fs.len() as int) =~= fs);
    assert(fs.push(x)[fs.len() as int] == x);
}

pub open spec fn lookup_funcs_map(fs: Seq<(String, FunctionInfo)>, name: Seq<char>) -> Option<
    FunctionInfoV,
>
    decreases fs,
{
    if fs.len() == 0 {
        None
    } else if fs[fs.len() - 1].0@ == name {
        Some(fi_view(fs[fs.len() - 1].1))
    } else {
        lookup_funcs_map(fs.subrange(0, fs.len() - 1), name)
    }
}

pub proof fn lemma_lookup_funcs_map(fs: Seq<(String, FunctionInfo)>, name: Seq<char>)
    ensures
        match lookup_funcs_map(fs, name) {
            Some(fi) => funcs_map(fs).contains_key(name) && funcs_map(fs)[name] == fi,
            None => !funcs_map(fs).contains_key(name),
        },
    decreases fs,
{
    if fs.len() > 0 {
        lemma_lookup_funcs_map(fs.subrange(0, fs.len() - 1), name);
    }
}

/// The function table a program's top-level statements build, in order: a
/// later definition of the same name wins.
pub open spec fn collect_funcs(stmts: Seq<StatementV>) -> Map<Seq<char>, FunctionInfoV>
    decreases stmts,
{
    if stmts.len() == 0 {
        Map::empty()
    } else {
        let rest = collect_funcs(stmts.subrange(0, stmts.len() - 1));
        match stmts[stmts.len() - 1] {
            StatementV::FunctionDefinition { name, parameters, body } => rest.insert(
                name,
                FunctionInfoV { parameters, body: *body },
            ),
            _ => rest,
        }
    }
}

// ---------------------------------------------------------------------------
// Structural sizes of the view types, the second component of the evaluation
// measure (the first is fuel).
// ---------------------------------------------------------------------------

pub open spec fn expr_size(e: ExpressionV) -> nat
    decreases e,
{
    match e {
        ExpressionV::Number(_) => 1,
        ExpressionV::Boolean(_) => 1,
        ExpressionV::Variable(_) => 1,
        ExpressionV::Binary { left, operator, right } => 1 + expr_size(*left) + expr_size(*right),
        ExpressionV::Unary { operator, operand } => 1 + expr_size(*operand),
        ExpressionV::Grouped(inner) => 1 + expr_size(*inner),
        ExpressionV::Call { name, arguments } => 1 + exprs_size(arguments),
    }
}

pub open spec fn exprs_size(args: Seq<ExpressionV>) -> nat
    decreases args,
{
    if args.len() == 0 {
        0
    } else {
        1 + expr_size(args[0]) + exprs_size(args.subrange(1, args.len() as int))
    }
}

pub open spec fn stmt_size(s: StatementV) -> nat
    decreases s,
{
    match s {
        StatementV::Declaration { name, value } => 1 + expr_size(value),
        StatementV::Assignment { name, value } => 1 + expr_size(value),
        StatementV::If { condition, then_branch, else_branch } => 1 + expr_size(condition)
            + stmt_size(*then_branch) + match else_branch {
            Some(eb) => stmt_size(*eb),
            None => 0,
        },
        StatementV::Block(ss) => 1 + stmts_size(ss),
        StatementV::While { condition, body } => 1 + expr_size(condition) + stmt_size(*body),
        StatementV::For { variable, start, end, step, body } => 1 + expr_size(start) + expr_size(
            end,
        ) + (match step {
            Some(se) => expr_size(se),
            None => 0,
        }) + stmt_size(*body),
        StatementV::FunctionDefinition { name, parameters, body } => 1 + stmt_size(*body),
        StatementV::Call { name, arguments } => 1 + exprs_size(arguments),
        StatementV::Return(expression) => 1 + match expression {
            Some(e) => expr_size(e),
            None => 0,
        },
    }
}

pub open spec fn stmts_size(ss: Seq<StatementV>) -> nat
    decreases ss,
{
    if ss.len() == 0 {
        0
    } else {
        1 + stmt_size(ss[0]) + stmts_size(ss.subrange(1, ss.len() as int))
    }
}

// ---------------------------------------------------------------------------
// The reference evaluation: big-step, fuel-measured. One unit of fuel pays
// for one loop iteration or one function call; everything structural is free.
// ---------------------------------------------------------------------------

/// What evaluating an expression yields: the environment after any calls made
/// inside it and the value, or a fault, or fuel exhaustion.
#[verifier::ext_equal]
pub enum EvalExpr {
    Value(Seq<Map<Seq<char>, RuntimeValue>>, RuntimeValue),
    Fault(RuntimeErrorV),
    OutOfFuel,
}

/// What executing a statement yields: the environment after it and how it
/// completed, or a fault, or fuel exhaustion.
#[verifier::ext_equal]
pub enum EvalStmt {
    Done(Seq<Map<Seq<char>, RuntimeValue>>, Completion),
    Fault(RuntimeErrorV),
    OutOfFuel,
}

/// What a function call yields: the caller's environment after the call and
/// the returned value, if the body executed a `return` with one.
#[verifier::ext_equal]
pub enum EvalCall {
    Done(Seq<Map<Seq<char>, RuntimeValue>>, Option<RuntimeValue>),
    Fault(RuntimeErrorV),
    OutOfFuel,
}

pub open spec fn eval_expr(
    f: Map<Seq<char>, FunctionInfoV>,
    env: Seq<Map<Seq<char>, RuntimeValue>>,
    e: ExpressionV,
    fuel: nat,
) -> EvalExpr
    decreases fuel, expr_size(e), 1int,
{
    match e {
        ExpressionV::Number(v) => EvalExpr::Value(env, RuntimeValue::Number(v)),
        ExpressionV::Boolean(b) => EvalExpr::Value(env, RuntimeValue::Bool(b)),
        ExpressionV::Variable(name) => match env_lookup(env, name) {
            Some(v) => EvalExpr::Value(env, v),
            None => EvalExpr::Fault(RuntimeErrorV::VariableNotFound(name)),
        },
        ExpressionV::Binary { left, operator, right } => match eval_expr(f, env, *left, fuel) {
            EvalExpr::Value(env1, lv) => match eval_expr(f, env1, *right, fuel) {
                EvalExpr::Value(env2, rv) => match builtin::spec_binary_op(operator, lv, rv) {
                    Ok(v) => EvalExpr::Value(env2, v),
                    Err(er) => EvalExpr::Fault(er),
                },
                other => other,
            },
            other => other,
        },
        ExpressionV::Unary { operator, operand } => match eval_expr(f, env, *operand, fuel) {
            EvalExpr::Value(env1, v) => match builtin::spec_unary_op(operator, v) {
                Ok(v2) => EvalExpr::Value(env1, v2),
                Err(er) => EvalExpr::Fault(er),
            },
            other => other,
        },
        ExpressionV::Grouped(inner) => eval_expr(f, env, *inner, fuel),
        ExpressionV::Call { name, arguments } => if !f.contains_key(name) {
            EvalExpr::Fault(RuntimeErrorV::VariableNotFound(name))
        } else {
            match eval_call(f, env, f[name], arguments, fuel) {
                EvalCall::Done(env2, Some(v)) => EvalExpr::Value(env2, v),
                EvalCall::Done(_, None) => EvalExpr::Fault(RuntimeErrorV::InvalidOperation),
                EvalCall::Fault(er) => EvalExpr::Fault(er),
                EvalCall::OutOfFuel => EvalExpr::OutOfFuel,
            }
        },
    }
}

/// A call pushes a fresh scope, binds each parameter to its evaluated
/// argument in declared order, runs the body (one unit of fuel), pops the
/// scope, and unwraps an executed `return` into the call's result.
pub open spec fn eval_call(
    f: Map<Seq<char>, FunctionInfoV>,
    env: Seq<Map<Seq<char>, RuntimeValue>>,
    info: FunctionInfoV,
    args: Seq<ExpressionV>,
    fuel: nat,
) -> EvalCall
    decreases fuel, exprs_size(args), 3int,
{
    match eval_bind_args(f, env.push(Map::empty()), info.parameters, args, fuel) {
        EvalCall::Done(env2, _) => {
            if fuel == 0 {
                EvalCall::OutOfFuel
            } else {
                match eval_stmt(f, env2, info.body, (fuel - 1) as nat) {
                    EvalStmt::Done(env3, c) => EvalCall::Done(
                        env3.subrange(0, env3.len() - 1),
                        match c {
                            Completion::Return(v) => v,
                            Completion::Normal => None,
                        },
                    ),
                    EvalStmt::Fault(er) => EvalCall::Fault(er),
                    EvalStmt::OutOfFuel => EvalCall::OutOfFuel,
                }
            }
        },
        other => other,
    }
}

/// Binds parameters to evaluated arguments pairwise, in order, stopping at
/// the shorter list; each argument is evaluated in the environment left by
/// the previous one, with the new scope already pushed.
pub open spec fn eval_bind_args(
    f: Map<Seq<char>, FunctionInfoV>,
    env: Seq<Map<Seq<char>, RuntimeValue>>,
    params: Seq<Seq<char>>,
    args: Seq<ExpressionV>,
    fuel: nat,
) -> EvalCall
    decreases fuel, exprs_size(args), 2int,
{
    if params.len() == 0 || args.len() == 0 {
        EvalCall::Done(env, None)
    } else {
        match eval_expr(f, env, args[0], fuel) {
            EvalExpr::Value(env1, v) => eval_bind_args(
                f,
                env_declare(env1, params[0], v),
                params.subrange(1, params.len() as int),
                args.subrange(1, args.len() as int),
                fuel,
            ),
            EvalExpr::Fault(er) => EvalCall::Fault(er),
            EvalExpr::OutOfFuel => EvalCall::OutOfFuel,
        }
    }
}

/// Statements of a block, in order; a `return` completion short-circuits.
pub open spec fn eval_stmts(
    f: Map<Seq<char>, FunctionInfoV>,
    env: Seq<Map<Seq<char>, RuntimeValue>>,
    ss: Seq<StatementV>,
    fuel: nat,
) -> EvalStmt
    decreases fuel, stmts_size(ss), 5int,
{
    if ss.len() == 0 {
        EvalStmt::Done(env, Completion::Normal)
    } else {
        match eval_stmt(f, env, ss[0], fuel) {
            EvalStmt::Done(env1, Completion::Normal) => eval_stmts(
                f,
                env1,
                ss.subrange(1, ss.len() as int),
                fuel,
            ),
            EvalStmt::Done(env1, ret) => EvalStmt::Done(env1, ret),
            other => other,
        }
    }
}

pub open spec fn eval_stmt(
    f: Map<Seq<char>, FunctionInfoV>,
    env: Seq<Map<Seq<char>, RuntimeValue>>,
    s: StatementV,
    fuel: nat,
) -> EvalStmt
    decreases fuel, stmt_size(s), 4int,
{
    match s {
        StatementV::Declaration { name, value } => match eval_expr(f, env, value, fuel) {
            EvalExpr::Value(env1, v) => EvalStmt::Done(
                env_declare(env1, name, v),
                Completion::Normal,
            ),
            EvalExpr::Fault(er) => EvalStmt::Fault(er),
            EvalExpr::OutOfFuel => EvalStmt::OutOfFuel,
        },
        StatementV::Assignment { name, value } => match eval_expr(f, env, value, fuel) {
            EvalExpr::Value(env1, v) => match env_assign(env1, name, v) {
                Some(env2) => EvalStmt::Done(env2, Completion::Normal),
                None => EvalStmt::Fault(RuntimeErrorV::VariableNotFound(name)),
            },
            EvalExpr::Fault(er) => EvalStmt::Fault(er),
            EvalExpr::OutOfFuel => EvalStmt::OutOfFuel,
        },
        StatementV::If { condition, then_branch, else_branch } => match eval_expr(
            f,
            env,
            condition,
            fuel,
        ) {
            EvalExpr::Value(env1, RuntimeValue::Bool(b)) => if b {
                eval_stmt(f, env1, *then_branch, fuel)
            } else {
                match else_branch {
                    Some(eb) => eval_stmt(f, env1, *eb, fuel),
                    None => EvalStmt::Done(env1, Completion::Normal),
                }
            },
            EvalExpr::Value(_, _) => EvalStmt::Fault(RuntimeErrorV::InvalidCondition),
            EvalExpr::Fault(er) => EvalStmt::Fault(er),
            EvalExpr::OutOfFuel => EvalStmt::OutOfFuel,
        },
        StatementV::Block(ss) => match eval_stmts(f, env.push(Map::empty()), ss, fuel) {
            EvalStmt::Done(env1, c) => EvalStmt::Done(env1.subrange(0, env1.len() - 1), c),
            other => other,
        },
        StatementV::While { condition, body } => match eval_expr(f, env, condition, fuel) {
            EvalExpr::Value(env1, RuntimeValue::Bool(b)) => if !b {
                EvalStmt::Done(env1, Completion::Normal)
            } else {
                match eval_stmt(f, env1, *body, fuel) {
                    EvalStmt::Done(env2, Completion::Normal) => if fuel == 0 {
                        EvalStmt::OutOfFuel
                    } else {
                        eval_stmt(f, env2, s, (fuel - 1) as nat)
                    },
                    EvalStmt::Done(env2, ret) => EvalStmt::Done(env2, ret),
                    other => other,
                }
            },
            EvalExpr::Value(_, _) => EvalStmt::Fault(RuntimeErrorV::InvalidCondition),
            EvalExpr::Fault(er) => EvalStmt::Fault(er),
            EvalExpr::OutOfFuel => EvalStmt::OutOfFuel,
        },
        StatementV::For { variable, start, end, step, body } => match eval_expr(
            f,
            env,
            start,
            fuel,
        ) {
            EvalExpr::Value(env1, sv) => match eval_expr(f, env1, end, fuel) {
                EvalExpr::Value(env2, ev) => {
                    let stepres = match step {
                        Some(se) => eval_expr(f, env2, se, fuel),
                        None => EvalExpr::Value(env2, RuntimeValue::Number(1)),
                    };
                    match stepres {
                        EvalExpr::Value(env3, pv) => {
                            let env4 = env_declare(env3.push(Map::empty()), variable, sv);
                            match eval_for_loop(f, env4, variable, ev, pv, *body, fuel) {
                                EvalStmt::Done(env5, c) => EvalStmt::Done(
                                    env5.subrange(0, env5.len() - 1),
                                    c,
                                ),
                                other => other,
                            }
                        },
                        EvalExpr::Fault(er) => EvalStmt::Fault(er),
                        EvalExpr::OutOfFuel => EvalStmt::OutOfFuel,
                    }
                },
                EvalExpr::Fault(er) => EvalStmt::Fault(er),
                EvalExpr::OutOfFuel => EvalStmt::OutOfFuel,
            },
            EvalExpr::Fault(er) => EvalStmt::Fault(er),
            EvalExpr::OutOfFuel => EvalStmt::OutOfFuel,
        },
        StatementV::FunctionDefinition { .. } => EvalStmt::Done(env, Completion::Normal),
        StatementV::Call { name, arguments } => if !f.contains_key(name) {
            EvalStmt::Done(env, Completion::Normal)
        } else {
            match eval_call(f, env, f[name], arguments, fuel) {
                EvalCall::Done(env2, _) => EvalStmt::Done(env2, Completion::Normal),
                EvalCall::Fault(er) => EvalStmt::Fault(er),
                EvalCall::OutOfFuel => EvalStmt::OutOfFuel,
            }
        },
        StatementV::Return(expression) => match expression {
            None => EvalStmt::Done(env, Completion::Return(None)),
            Some(e) => match eval_expr(f, env, e, fuel) {
                EvalExpr::Value(env1, v) => EvalStmt::Done(env1, Completion::Return(Some(v))),
                EvalExpr::Fault(er) => EvalStmt::Fault(er),
                EvalExpr::OutOfFuel => EvalStmt::OutOfFuel,
            },
        },
    }
}

/// One round of a counted loop: the loop stops once the induction variable
/// exceeds the end bound (the range is inclusive of the bound); after the
/// body, the variable advances by the step through the ordinary assignment
/// path. Each round costs one unit of fuel.
pub open spec fn eval_for_loop(
    f: Map<Seq<char>, FunctionInfoV>,
    env: Seq<Map<Seq<char>, RuntimeValue>>,
    variable: Seq<char>,
    end_v: RuntimeValue,
    step_v: RuntimeValue,
    body: StatementV,
    fuel: nat,
) -> EvalStmt
    decreases fuel, stmt_size(body), 5int,
{
    match env_lookup(env, variable) {
        None => EvalStmt::Fault(RuntimeErrorV::VariableNotFound(variable)),
        Some(cur) => match builtin::spec_gt(cur, end_v) {
            Err(er) => EvalStmt::Fault(er),
            Ok(RuntimeValue::Bool(true)) => EvalStmt::Done(env, Completion::Normal),
            Ok(_) => match eval_stmt(f, env, body, fuel) {
                EvalStmt::Done(env1, Completion::Normal) => match env_lookup(env1, variable) {
                    None => EvalStmt::Fault(RuntimeErrorV::VariableNotFound(variable)),
                    Some(c2) => match builtin::spec_add(c2, step_v) {
                        Err(er) => EvalStmt::Fault(er),
                        Ok(nv) => match env_assign(env1, variable, nv) {
                            None => EvalStmt::Fault(RuntimeErrorV::VariableNotFound(variable)),
                            Some(env2) => if fuel == 0 {
                                EvalStmt::OutOfFuel
                            } else {
                                eval_for_loop(f, env2, variable, end_v, step_v, body, (fuel
                                    - 1) as nat)
                            },
                        },
                    },
                },
                EvalStmt::Done(env1, ret) => EvalStmt::Done(env1, ret),
                other => other,
            },
        },
    }
}


pub proof fn lemma_stmts_size_element(ss: Seq<StatementV>, i: int)
    requires
        0 <= i < ss.len(),
    ensures
        stmts_size(ss) > stmt_size(ss[i]),
    decreases ss,
{
    if i > 0 {
        lemma_stmts_size_element(ss.subrange(1, ss.len() as int), i - 1);
        assert(ss.subrange(1, ss.len() as int)[i - 1] == ss[i]);
    }
}

pub proof fn lemma_exprs_size_element(args: Seq<ExpressionV>, i: int)
    requires
        0 <= i < args.len(),
    ensures
        exprs_size(args) > expr_size(args[i]),
    decreases args,
{
    if i > 0 {
        lemma_exprs_size_element(args.subrange(1, args.len() as int), i - 1);
        assert(args.subrange(1, args.len() as int)[i - 1] == args[i]);
    }
}

// ---------------------------------------------------------------------------
// The interpreter itself.
// ---------------------------------------------------------------------------

pub struct Interpreter {
    pub scopes: Vec<RuntimeScope>,
    pub functions: Vec<(String, FunctionInfo)>,
}

impl Interpreter {
    /// The runtime environment: the stack of scope bindings.
    pub open spec fn env(&self) -> Seq<Map<Seq<char>, RuntimeValue>> {
        env_view(self.scopes@)
    }

    /// The function table.
    pub open spec fn fmap(&self) -> Map<Seq<char>, FunctionInfoV> {
        funcs_map(self.functions@)
    }

    /// The global scope always exists.
    pub open spec fn wf(&self) -> bool {
        self.scopes@.len() >= 1
    }

    pub fn new() -> (r: Interpreter)
        ensures
            r.wf(),
            r.env() =~= seq![Map::<Seq<char>, RuntimeValue>::empty()],
            r.fmap() == Map::<Seq<char>, FunctionInfoV>::empty(),
    {
        let mut scopes: Vec<RuntimeScope> = Vec::new();
        scopes.push(RuntimeScope::new());
        let r = Interpreter { scopes, functions: Vec::new() };
        proof {
            assert(r.env() =~= seq![Map::<Seq<char>, RuntimeValue>::empty()]);
            assert(r.functions@ =~= Seq::<(String, FunctionInfo)>::empty());
        }
        r
    }

    pub fn push_scope(&mut self)
        ensures
            final(self).env() == old(self).env().push(Map::<Seq<char>, RuntimeValue>::empty()),
            final(self).functions == old(self).functions,
            final(self).wf(),
            final(self).scopes@.len() == old(self).scopes@.len() + 1,
    {
        self.scopes.push(RuntimeScope::new());
        proof {
            assert(self.env() =~= old(self).env().push(Map::<Seq<char>, RuntimeValue>::empty()));
        }
    }

    pub fn pop_scope(&mut self)
        requires
            old(self).scopes@.len() >= 2,
        ensures
            final(self).env() == old(self).env().subrange(0, old(self).env().len() - 1),
            final(self).functions == old(self).functions,
            final(self).wf(),
            final(self).scopes@.len() == old(self).scopes@.len() - 1,
    {
        self.scopes.pop();
        proof {
            assert(self.env() =~= old(self).env().subrange(0, old(self).env().len() - 1));
        }
    }

    /// Binds `name` in the innermost runtime scope.
    pub fn register_variable(&mut self, name: String, value: RuntimeValue)
        requires
            old(self).wf(),
        ensures
            final(self).env() == env_declare(old(self).env(), name@, value),
            final(self).functions == old(self).functions,
            final(self).wf(),
            final(self).scopes@.len() == old(self).scopes@.len(),
    {
        let last = self.scopes.len() - 1;
        let ghost oldenv = self.env();
        self.scopes[last].set_variable(name, value);
        proof {
            assert(self.env() =~= env_declare(oldenv, name@, value));
        }
    }

    /// Walks the scope stack outward-in and overwrites the nearest binding of
    /// `name`; a name not bound anywhere is a runtime error.
    pub fn set_variable_value(&mut self, name: &str, value: RuntimeValue) -> (r: Result<
        (),
        RuntimeError,
    >)
        requires
            old(self).wf(),
        ensures
            final(self).functions == old(self).functions,
            final(self).wf(),
            final(self).scopes@.len() == old(self).scopes@.len(),
            match env_assign(old(self).env(), name@, value) {
                Some(e2) => r is Ok && final(self).env() == e2,
                None => {
                    &&& r matches Err(er) && err_view(er) == RuntimeErrorV::VariableNotFound(name@)
                    &&& final(self).env() == old(self).env()
                },
            },
    {
        let ghost env0 = self.env();
        let n = self.scopes.len();
        let mut j: usize = n;
        loop
            invariant
                self == old(self),
                n == self.scopes@.len(),
                j <= n,
                forall|k: int| j <= k < n ==> !(#[trigger] env_view(self.scopes@)[k]).contains_key(
                    name@,
                ),
            ensures
                self == old(self),
                j <= n,
                n == self.scopes@.len(),
                forall|k: int| j <= k < n ==> !(#[trigger] env_view(self.scopes@)[k]).contains_key(
                    name@,
                ),
                j > 0 ==> env_view(self.scopes@)[j - 1].contains_key(name@),
            decreases j,
        {
            if j == 0 {
                break ;
            }
            let present = self.scopes[j - 1].get_variable(name).is_some();
            if present {
                break ;
            }
            j = j - 1;
        }
        if j == 0 {
            proof {
                lemma_env_assign_none(env0, name@, value);
            }
            Err(RuntimeError::VariableNotFound(name.to_owned()))
        } else {
            proof {
                lemma_env_assign_at(env0, j - 1, name@, value);
            }
            self.scopes[j - 1].set_variable(name.to_owned(), value);
            proof {
                assert(self.env() =~= env0.update(j - 1, env0[j - 1].insert(name@, value)));
            }
            Ok(())
        }
    }

    /// The nearest binding of `name`, walking the scope stack outward-in.
    pub fn get_variable(&self, name: &str) -> (r: Option<&RuntimeValue>)
        ensures
            match r {
                Some(v) => env_lookup(self.env(), name@) == Some(*v),
                None => env_lookup(self.env(), name@) is None,
            },
    {
        let n = self.scopes.len();
        let mut j: usize = n;
        loop
            invariant
                n == self.scopes@.len(),
                j <= n,
                forall|k: int| j <= k < n ==> !(#[trigger] env_view(self.scopes@)[k]).contains_key(
                    name@,
                ),
            ensures
                j <= n,
                n == self.scopes@.len(),
                forall|k: int| j <= k < n ==> !(#[trigger] env_view(self.scopes@)[k]).contains_key(
                    name@,
                ),
                j > 0 ==> env_view(self.scopes@)[j - 1].contains_key(name@),
            decreases j,
        {
            if j == 0 {
                break ;
            }
            let present = self.scopes[j - 1].get_variable(name).is_some();
            if present {
                break ;
            }
            j = j - 1;
        }
        if j == 0 {
            proof {
                lemma_env_lookup_none(self.env(), name@);
            }
            None
        } else {
            proof {
                lemma_env_lookup_at(self.env(), j - 1, name@);
            }
            self.scopes[j - 1].get_variable(name)
        }
    }

    /// Pre-scans the program's top-level statements into the function table,
    /// in order, so a later definition of a name wins.
    pub fn collect_functions(&mut self, ast: &Ast)
        requires
            old(self).wf(),
            old(self).functions@.len() == 0,
        ensures
            final(self).wf(),
            final(self).scopes == old(self).scopes,
            final(self).fmap() == collect_funcs(stmts_view(ast.statements@)),
    {
        let ghost vs = stmts_view(ast.statements@);
        proof {
            lemma_stmts_view_len(ast.statements@);
            assert(vs.subrange(0, 0) =~= Seq::<StatementV>::empty());
            assert(funcs_map(self.functions@) =~= collect_funcs(vs.subrange(0, 0)));
        }
        let n = ast.statements.len();
        let mut i: usize = 0;
        while i < n
            invariant
                self.wf(),
                self.scopes == old(self).scopes,
                n == ast.statements@.len(),
                i <= n,
                vs == stmts_view(ast.statements@),
                vs.len() == n,
                forall|k: int| 0 <= k < n ==> vs[k] == stmt_view(ast.statements@[k]),
                funcs_map(self.functions@) == collect_funcs(vs.subrange(0, i as int)),
            decreases n - i,
        {
            proof {
                assert(vs.subrange(0, i + 1).subrange(0, i as int) =~= vs.subrange(0, i as int));
                assert(vs.subrange(0, i + 1)[i as int] == vs[i as int]);
            }
            match &ast.statements[i] {
                Statement::FunctionDefinition { name, arguments, body } => {
                    let mut parameters: Vec<String> = Vec::new();
                    let m = arguments.len();
                    let mut k: usize = 0;
                    while k < m
                        invariant
                            m == arguments@.len(),
                            k <= m,
                            parameters@.len() == k,
                            forall|t: int| 0 <= t < k ==> (#[trigger] parameters@[t])@
                                == arguments@[t].value@,
                        decreases m - k,
                    {
                        parameters.push(arguments[k].value.clone());
                        k = k + 1;
                    }
                    proof {
                        assert(params_text(parameters@) =~= tokens_text(arguments@));
                    }
                    let info = FunctionInfo { parameters, body: clone_statement(&**body) };
                    let entry_name = name.value.clone();
                    proof {
                        lemma_funcs_map_push(self.functions@, (entry_name, info));
                    }
                    self.functions.push((entry_name, info));
                },
                _ => {},
            }
            i = i + 1;
        }
        proof {
            assert(vs.subrange(0, n as int) =~= vs);
        }
    }

    /// A copy of a function table entry, with the same shape.
    fn clone_function_info(f: &FunctionInfo) -> (r: FunctionInfo)
        ensures
            fi_view(r) == fi_view(*f),
    {
        let mut parameters: Vec<String> = Vec::new();
        let m = f.parameters.len();
        let mut k: usize = 0;
        while k < m
            invariant
                m == f.parameters@.len(),
                k <= m,
                parameters@.len() == k,
                forall|t: int| 0 <= t < k ==> (#[trigger] parameters@[t]) == f.parameters@[t],
            decreases m - k,
        {
            parameters.push(f.parameters[k].clone());
            k = k + 1;
        }
        proof {
            assert(parameters@ =~= f.parameters@);
        }
        FunctionInfo { parameters, body: clone_statement(&f.body) }
    }

    /// The defined function of that name, if any, as a copy.
    fn find_function(&self, name: &str) -> (r: Option<FunctionInfo>)
        ensures
            match r {
                Some(info) => self.fmap().contains_key(name@) && fi_view(info) == self.fmap()[
                    name@
                ],
                None => !self.fmap().contains_key(name@),
            },
    {
        let ghost fs = self.functions@;
        proof {
            lemma_lookup_funcs_map(fs, name@);
            assert(fs.subrange(0, fs.len() as int) =~= fs);
        }
        let mut j: usize = self.functions.len();
        loop
            invariant
                j <= fs.len(),
                fs == self.functions@,
                lookup_funcs_map(fs.subrange(0, j as int), name@) == lookup_funcs_map(fs, name@),
            ensures
                j <= fs.len(),
                fs == self.functions@,
                ({
                    let found = lookup_funcs_map(fs, name@);
                    if j == 0 {
                        found is None
                    } else {
                        found == Some(fi_view(fs[j - 1].1)) && fs[j - 1].0@ == name@
                    }
                }),
            decreases j,
        {
            if j == 0 {
                break ;
            }
            proof {
                assert(fs.subrange(0, j as int)[j - 1] == fs[j - 1]);
            }
            if crate::str_eq(self.functions[j - 1].0.as_str(), name) {
                break ;
            }
            proof {
                assert(fs.subrange(0, j as int).subrange(0, j - 1) =~= fs.subrange(0, j - 1));
            }
            j = j - 1;
        }
        if j == 0 {
            None
        } else {
            Some(Self::clone_function_info(&self.functions[j - 1].1))
        }
    }
}


impl Interpreter {
    /// The native function for a binary operator, applied to two values.
    pub fn apply_binary_operator(
        op: &crate::ast::expression::BinaryOperator,
        left: RuntimeValue,
        right: RuntimeValue,
    ) -> (r: Result<RuntimeValue, RuntimeError>)
        ensures
            builtin::result_view(r) == builtin::spec_binary_op(*op, left, right),
    {
        match op {
            crate::ast::expression::BinaryOperator::Add => builtin::add(left, right),
            crate::ast::expression::BinaryOperator::Subtract => builtin::sub(left, right),
            crate::ast::expression::BinaryOperator::Multiply => builtin::mul(left, right),
            crate::ast::expression::BinaryOperator::Divide => builtin::div(left, right),
            crate::ast::expression::BinaryOperator::Modulus => builtin::modulus(left, right),
            crate::ast::expression::BinaryOperator::Equal => builtin::eq(left, right),
            crate::ast::expression::BinaryOperator::NotEqual => builtin::not_eq(left, right),
            crate::ast::expression::BinaryOperator::LessThan => builtin::lt(left, right),
            crate::ast::expression::BinaryOperator::GreaterThan => builtin::gt(left, right),
            crate::ast::expression::BinaryOperator::LessThanOrEqual => builtin::lt_eq(left, right),
            crate::ast::expression::BinaryOperator::GreaterThanOrEqual => builtin::gt_eq(
                left,
                right,
            ),
            crate::ast::expression::BinaryOperator::And => builtin::and(left, right),
            crate::ast::expression::BinaryOperator::Or => builtin::or(left, right),
        }
    }

    /// The native function for a unary operator, applied to a value.
    pub fn apply_unary_operator(
        op: &crate::ast::expression::UnaryOperator,
        value: RuntimeValue,
    ) -> (r: Result<RuntimeValue, RuntimeError>)
        ensures
            builtin::result_view(r) == builtin::spec_unary_op(*op, value),
    {
        match op {
            crate::ast::expression::UnaryOperator::Negate => builtin::negate(value),
            crate::ast::expression::UnaryOperator::Not => builtin::not(value),
        }
    }

    /// Evaluates an expression for its value; calls made inside it may change
    /// the environment. Matches the reference evaluation exactly.
    pub fn visit_expression(&mut self, e: &Expression, fuel: u64) -> (r: Result<RuntimeValue, Halt>)
        requires
            old(self).wf(),
        ensures
            final(self).wf(),
            final(self).functions == old(self).functions,
            r is Ok ==> final(self).scopes@.len() == old(self).scopes@.len(),
            ({
                let res = eval_expr(
                    old(self).fmap(),
                    old(self).env(),
                    expr_view(*e),
                    fuel as nat,
                );
                match r {
                    Ok(v) => res == EvalExpr::Value(final(self).env(), v),
                    Err(h) => match h {
                        Halt::Fault(er) => res == EvalExpr::Fault(err_view(er)),
                        Halt::OutOfFuel => res == EvalExpr::OutOfFuel,
                    },
                }
            }),
        decreases fuel, expr_size(expr_view(*e)), 1int,
    {
        match e {
            Expression::Number(v, _) => Ok(RuntimeValue::Number(*v)),
            Expression::Boolean(b, _) => Ok(RuntimeValue::Bool(*b)),
            Expression::Variable(tok) => {
                let found: Option<RuntimeValue> = match self.get_variable(tok.value.as_str()) {
                    Some(v) => Some(*v),
                    None => None,
                };
                match found {
                    Some(v) => Ok(v),
                    None => Err(Halt::Fault(RuntimeError::VariableNotFound(tok.value.clone()))),
                }
            },
            Expression::BinaryOperation { left, operator, right } => {
                let lv = match self.visit_expression(&**left, fuel) {
                    Ok(v) => v,
                    Err(h) => {
                        return Err(h);
                    },
                };
                let rv = match self.visit_expression(&**right, fuel) {
                    Ok(v) => v,
                    Err(h) => {
                        return Err(h);
                    },
                };
                match Self::apply_binary_operator(operator, lv, rv) {
                    Ok(v) => Ok(v),
                    Err(er) => Err(Halt::Fault(er)),
                }
            },
            Expression::UnaryOperation { operator, operand } => {
                let ov = match self.visit_expression(&**operand, fuel) {
                    Ok(v) => v,
                    Err(h) => {
                        return Err(h);
                    },
                };
                match Self::apply_unary_operator(operator, ov) {
                    Ok(v) => Ok(v),
                    Err(er) => Err(Halt::Fault(er)),
                }
            },
            Expression::Grouped(inner) => self.visit_expression(&**inner, fuel),
            Expression::FunctionCall(data) => {
                let info_opt = self.find_function(data.function_name.value.as_str());
                match info_opt {
                    None => Err(
                        Halt::Fault(
                            RuntimeError::VariableNotFound(data.function_name.value.clone()),
                        ),
                    ),
                    Some(info) => {
                        proof {
                            lemma_exprs_view_len(data.arguments@);
                        }
                        match self.call_function(info, &data.arguments, fuel) {
                            Err(h) => Err(h),
                            Ok(Some(v)) => Ok(v),
                            Ok(None) => Err(Halt::Fault(RuntimeError::InvalidOperation)),
                        }
                    },
                }
            },
        }
    }

    /// Calls a function: a fresh scope, parameters bound to evaluated
    /// arguments in declared order, the body run on one unit of fuel, the
    /// scope popped, and an executed `return` unwrapped into the result.
    pub fn call_function(
        &mut self,
        function_info: FunctionInfo,
        arguments: &Vec<Expression>,
        fuel: u64,
    ) -> (r: Result<Option<RuntimeValue>, Halt>)
        requires
            old(self).wf(),
        ensures
            final(self).wf(),
            final(self).functions == old(self).functions,
            r is Ok ==> final(self).scopes@.len() == old(self).scopes@.len(),
            ({
                let res = eval_call(
                    old(self).fmap(),
                    old(self).env(),
                    fi_view(function_info),
                    exprs_view(arguments@),
                    fuel as nat,
                );
                match r {
                    Ok(v) => res == EvalCall::Done(final(self).env(), v),
                    Err(h) => match h {
                        Halt::Fault(er) => res == EvalCall::Fault(err_view(er)),
                        Halt::OutOfFuel => res == EvalCall::OutOfFuel,
                    },
                }
            }),
        decreases fuel, exprs_size(exprs_view(arguments@)), 3int,
    {
        let ghost fm = old(self).fmap();
        let ghost env_call = old(self).env();
        let ghost argsv = exprs_view(arguments@);
        let ghost paramsv = params_text(function_info.parameters@);
        proof {
            lemma_exprs_view_len(arguments@);
        }
        self.push_scope();
        let total = if function_info.parameters.len() < arguments.len() {
            function_info.parameters.len()
        } else {
            arguments.len()
        };
        proof {
            assert(paramsv.subrange(0, paramsv.len() as int) =~= paramsv);
            assert(argsv.subrange(0, argsv.len() as int) =~= argsv);
        }
        let mut i: usize = 0;
        while i < total
            invariant
                self.wf(),
                self.functions == old(self).functions,
                fm == self.fmap(),
                fm == old(self).fmap(),
                env_call == old(self).env(),
                self.scopes@.len() == old(self).scopes@.len() + 1,
                total <= arguments@.len(),
                total <= function_info.parameters@.len(),
                i <= total,
                argsv == exprs_view(arguments@),
                argsv.len() == arguments@.len(),
                forall|k: int| 0 <= k < argsv.len() ==> argsv[k] == expr_view(arguments@[k]),
                paramsv == params_text(function_info.parameters@),
                paramsv.len() == function_info.parameters@.len(),
                paramsv.len() == total || argsv.len() == total,
                eval_bind_args(
                    fm,
                    env_call.push(Map::<Seq<char>, RuntimeValue>::empty()),
                    paramsv,
                    argsv,
                    fuel as nat,
                ) == eval_bind_args(
                    fm,
                    self.env(),
                    paramsv.subrange(i as int, paramsv.len() as int),
                    argsv.subrange(i as int, argsv.len() as int),
                    fuel as nat,
                ),
            decreases total - i,
        {
            let ghost env_top = self.env();
            proof {
                lemma_exprs_size_element(argsv, i as int);
                assert(paramsv.subrange(i as int, paramsv.len() as int)[0] == paramsv[i as int]);
                assert(argsv.subrange(i as int, argsv.len() as int)[0] == argsv[i as int]);
                assert(eval_bind_args(
                    fm,
                    env_call.push(Map::<Seq<char>, RuntimeValue>::empty()),
                    paramsv,
                    argsv,
                    fuel as nat,
                ) == eval_bind_args(
                    fm,
                    env_top,
                    paramsv.subrange(i as int, paramsv.len() as int),
                    argsv.subrange(i as int, argsv.len() as int),
                    fuel as nat,
                ));
            }
            let v = match self.visit_expression(&arguments[i], fuel) {
                Ok(v) => v,
                Err(h) => {
                    proof {
                        assert(eval_expr(fm, env_top, argsv[i as int], fuel as nat) == match h {
                            Halt::Fault(er) => EvalExpr::Fault(err_view(er)),
                            Halt::OutOfFuel => EvalExpr::OutOfFuel,
                        });
                        assert(eval_bind_args(
                            fm,
                            env_top,
                            paramsv.subrange(i as int, paramsv.len() as int),
                            argsv.subrange(i as int, argsv.len() as int),
                            fuel as nat,
                        ) == match h {
                            Halt::Fault(er) => EvalCall::Fault(err_view(er)),
                            Halt::OutOfFuel => EvalCall::OutOfFuel,
                        });
                        assert(eval_call(fm, env_call, fi_view(function_info), argsv, fuel as nat)
                            == match h {
                            Halt::Fault(er) => EvalCall::Fault(err_view(er)),
                            Halt::OutOfFuel => EvalCall::OutOfFuel,
                        });
                    }
                    return Err(h);
                },
            };
            self.register_variable(function_info.parameters[i].clone(), v);
            proof {
                assert(paramsv.subrange(i as int, paramsv.len() as int).subrange(
                    1,
                    paramsv.len() - i,
                ) =~= paramsv.subrange(i + 1, paramsv.len() as int));
                assert(argsv.subrange(i as int, argsv.len() as int).subrange(1, argsv.len() - i)
                    =~= argsv.subrange(i + 1, argsv.len() as int));
            }
            i = i + 1;
        }
        let ghost env_bound = self.env();
        proof {
            assert(eval_bind_args(
                fm,
                env_bound,
                paramsv.subrange(total as int, paramsv.len() as int),
                argsv.subrange(total as int, argsv.len() as int),
                fuel as nat,
            ) == EvalCall::Done(env_bound, None::<RuntimeValue>));
            assert(eval_bind_args(
                fm,
                env_call.push(Map::<Seq<char>, RuntimeValue>::empty()),
                paramsv,
                argsv,
                fuel as nat,
            ) == EvalCall::Done(env_bound, None::<RuntimeValue>));
        }
        if fuel == 0 {
            proof {
                assert(eval_call(fm, env_call, fi_view(function_info), argsv, fuel as nat)
                    == EvalCall::OutOfFuel);
            }
            return Err(Halt::OutOfFuel);
        }
        let c = match self.visit_statement(&function_info.body, fuel - 1) {
            Ok(c) => c,
            Err(h) => {
                proof {
                    assert(stmt_view(function_info.body) == fi_view(function_info).body);
                    assert(eval_stmt(fm, env_bound, fi_view(function_info).body, (fuel
                        - 1) as nat) == match h {
                        Halt::Fault(er) => EvalStmt::Fault(err_view(er)),
                        Halt::OutOfFuel => EvalStmt::OutOfFuel,
                    });
                    assert(eval_call(fm, env_call, fi_view(function_info), argsv, fuel as nat)
                        == match h {
                        Halt::Fault(er) => EvalCall::Fault(err_view(er)),
                        Halt::OutOfFuel => EvalCall::OutOfFuel,
                    });
                }
                return Err(h);
            },
        };
        proof {
            assert(stmt_view(function_info.body) == fi_view(function_info).body);
            assert(eval_stmt(fm, env_bound, fi_view(function_info).body, (fuel - 1) as nat)
                == EvalStmt::Done(self.env(), c));
            assert(eval_call(fm, env_call, fi_view(function_info), argsv, fuel as nat)
                == EvalCall::Done(
                self.env().subrange(0, self.env().len() - 1),
                match c {
                    Completion::Return(v) => v,
                    Completion::Normal => None,
                },
            ));
        }
        self.pop_scope();
        Ok(
            match c {
                Completion::Return(v) => v,
                Completion::Normal => None,
            },
        )
    }

    /// Executes the statements of a block, in order; an executed `return`
    /// short-circuits the rest.
    pub fn visit_statements(&mut self, statements: &Vec<Statement>, fuel: u64) -> (r: Result<
        Completion,
        Halt,
    >)
        requires
            old(self).wf(),
        ensures
            final(self).wf(),
            final(self).functions == old(self).functions,
            r is Ok ==> final(self).scopes@.len() == old(self).scopes@.len(),
            ({
                let res = eval_stmts(
                    old(self).fmap(),
                    old(self).env(),
                    stmts_view(statements@),
                    fuel as nat,
                );
                match r {
                    Ok(c) => res == EvalStmt::Done(final(self).env(), c),
                    Err(h) => match h {
                        Halt::Fault(er) => res == EvalStmt::Fault(err_view(er)),
                        Halt::OutOfFuel => res == EvalStmt::OutOfFuel,
                    },
                }
            }),
        decreases fuel, stmts_size(stmts_view(statements@)), 5int,
    {
        let ghost fm = old(self).fmap();
        let ghost env0 = old(self).env();
        let ghost vs = stmts_view(statements@);
        proof {
            lemma_stmts_view_len(statements@);
            assert(vs.subrange(0, vs.len() as int) =~= vs);
        }
        let n = statements.len();
        let mut i: usize = 0;
        while i < n
            invariant
                self.wf(),
                self.functions == old(self).functions,
                fm == self.fmap(),
                fm == old(self).fmap(),
                env0 == old(self).env(),
                self.scopes@.len() == old(self).scopes@.len(),
                n == statements@.len(),
                i <= n,
                vs == stmts_view(statements@),
                vs.len() == n,
                forall|k: int| 0 <= k < n ==> vs[k] == stmt_view(statements@[k]),
                eval_stmts(fm, env0, vs, fuel as nat) == eval_stmts(
                    fm,
                    self.env(),
                    vs.subrange(i as int, n as int),
                    fuel as nat,
                ),
            decreases n - i,
        {
            let ghost env_top = self.env();
            proof {
                lemma_stmts_size_element(vs, i as int);
                assert(vs.subrange(i as int, n as int)[0] == vs[i as int]);
                assert(eval_stmts(fm, env0, vs, fuel as nat) == eval_stmts(
                    fm,
                    env_top,
                    vs.subrange(i as int, n as int),
                    fuel as nat,
                ));
            }
            let c = match self.visit_statement(&statements[i], fuel) {
                Ok(c) => c,
                Err(h) => {
                    proof {
                        assert(eval_stmt(fm, env_top, vs[i as int], fuel as nat) == match h {
                            Halt::Fault(er) => EvalStmt::Fault(err_view(er)),
                            Halt::OutOfFuel => EvalStmt::OutOfFuel,
                        });
                        assert(eval_stmts(fm, env_top, vs.subrange(i as int, n as int), fuel as nat)
                            == match h {
                            Halt::Fault(er) => EvalStmt::Fault(err_view(er)),
                            Halt::OutOfFuel => EvalStmt::OutOfFuel,
                        });
                        assert(eval_stmts(fm, env0, vs, fuel as nat) == match h {
                            Halt::Fault(er) => EvalStmt::Fault(err_view(er)),
                            Halt::OutOfFuel => EvalStmt::OutOfFuel,
                        });
                    }
                    return Err(h);
                },
            };
            proof {
                assert(eval_stmt(fm, env_top, vs[i as int], fuel as nat) == EvalStmt::Done(
                    self.env(),
                    c,
                ));
            }
            match c {
                Completion::Normal => {
                    proof {
                        assert(vs.subrange(i as int, n as int).subrange(1, n - i) =~= vs.subrange(
                            i + 1,
                            n as int,
                        ));
                    }
                    i = i + 1;
                },
                Completion::Return(v) => {
                    proof {
                        assert(eval_stmts(fm, env_top, vs.subrange(i as int, n as int), fuel as nat)
                            == EvalStmt::Done(self.env(), c));
                        assert(eval_stmts(fm, env0, vs, fuel as nat) == EvalStmt::Done(
                            self.env(),
                            c,
                        ));
                    }
                    return Ok(Completion::Return(v));
                },
            }
        }
        proof {
            assert(vs.subrange(n as int, n as int).len() == 0);
        }
        Ok(Completion::Normal)
    }

    /// `while`: the condition is re-evaluated before every iteration and must
    /// be a boolean; a `return` completion of the body short-circuits the
    /// loop. Each iteration costs one unit of fuel.
    pub fn visit_while_statement(&mut self, condition: &Expression, body: &Statement, fuel: u64) -> (r:
        Result<Completion, Halt>)
        requires
            old(self).wf(),
        ensures
            final(self).wf(),
            final(self).functions == old(self).functions,
            r is Ok ==> final(self).scopes@.len() == old(self).scopes@.len(),
            ({
                let sv = StatementV::While {
                    condition: expr_view(*condition),
                    body: Box::new(stmt_view(*body)),
                };
                let res = eval_stmt(old(self).fmap(), old(self).env(), sv, fuel as nat);
                match r {
                    Ok(c) => res == EvalStmt::Done(final(self).env(), c),
                    Err(h) => match h {
                        Halt::Fault(er) => res == EvalStmt::Fault(err_view(er)),
                        Halt::OutOfFuel => res == EvalStmt::OutOfFuel,
                    },
                }
            }),
        decreases fuel, 1 + expr_size(expr_view(*condition)) + stmt_size(stmt_view(*body)), 3int,
    {
        let ghost fm = old(self).fmap();
        let ghost sv = StatementV::While {
            condition: expr_view(*condition),
            body: Box::new(stmt_view(*body)),
        };
        let mut fuel_left = fuel;
        loop
            invariant
                self.wf(),
                self.functions == old(self).functions,
                fm == self.fmap(),
                self.scopes@.len() == old(self).scopes@.len(),
                fuel_left <= fuel,
                sv == (StatementV::While {
                    condition: expr_view(*condition),
                    body: Box::new(stmt_view(*body)),
                }),
                eval_stmt(fm, old(self).env(), sv, fuel as nat) == eval_stmt(
                    fm,
                    self.env(),
                    sv,
                    fuel_left as nat,
                ),
            decreases fuel_left,
        {
            let ghost env_top = self.env();
            let cv = match self.visit_expression(condition, fuel_left) {
                Ok(v) => v,
                Err(h) => {
                    proof {
                        assert(eval_stmt(fm, env_top, sv, fuel_left as nat) == match h {
                            Halt::Fault(er) => EvalStmt::Fault(err_view(er)),
                            Halt::OutOfFuel => EvalStmt::OutOfFuel,
                        });
                    }
                    return Err(h);
                },
            };
            match cv {
                RuntimeValue::Bool(b) => {
                    if !b {
                        proof {
                            assert(eval_stmt(fm, env_top, sv, fuel_left as nat) == EvalStmt::Done(
                                self.env(),
                                Completion::Normal,
                            ));
                        }
                        return Ok(Completion::Normal);
                    }
                    let ghost env_cond = self.env();
                    let c = match self.visit_statement(body, fuel_left) {
                        Ok(c) => c,
                        Err(h) => {
                            proof {
                                assert(eval_stmt(fm, env_top, sv, fuel_left as nat) == match h {
                                    Halt::Fault(er) => EvalStmt::Fault(err_view(er)),
                                    Halt::OutOfFuel => EvalStmt::OutOfFuel,
                                });
                            }
                            return Err(h);
                        },
                    };
                    match c {
                        Completion::Normal => {
                            if fuel_left == 0 {
                                proof {
                                    assert(eval_stmt(fm, env_top, sv, fuel_left as nat)
                                        == EvalStmt::OutOfFuel);
                                }
                                return Err(Halt::OutOfFuel);
                            }
                            proof {
                                assert(eval_stmt(fm, env_top, sv, fuel_left as nat) == eval_stmt(
                                    fm,
                                    self.env(),
                                    sv,
                                    (fuel_left - 1) as nat,
                                ));
                            }
                            fuel_left = fuel_left - 1;
                        },
                        Completion::Return(v) => {
                            proof {
                                assert(eval_stmt(fm, env_top, sv, fuel_left as nat)
                                    == EvalStmt::Done(self.env(), c));
                            }
                            return Ok(Completion::Return(v));
                        },
                    }
                },
                RuntimeValue::Number(_) => {
                    proof {
                        assert(eval_stmt(fm, env_top, sv, fuel_left as nat) == EvalStmt::Fault(
                            RuntimeErrorV::InvalidCondition,
                        ));
                    }
                    return Err(Halt::Fault(RuntimeError::InvalidCondition));
                },
            }
        }
    }

    /// `for`: start, end and step (the numeric unit when absent) are evaluated
    /// once; one scope holding the induction variable lives for the whole
    /// loop; the loop stops once the variable exceeds the end bound, so the
    /// range includes the bound. Each round costs one unit of fuel.
    pub fn visit_for_statement(
        &mut self,
        variable: &Token,
        start: &Expression,
        end: &Expression,
        step: &Option<Expression>,
        body: &Statement,
        fuel: u64,
    ) -> (r: Result<Completion, Halt>)
        requires
            old(self).wf(),
        ensures
            final(self).wf(),
            final(self).functions == old(self).functions,
            r is Ok ==> final(self).scopes@.len() == old(self).scopes@.len(),
            ({
                let sv = StatementV::For {
                    variable: variable.value@,
                    start: expr_view(*start),
                    end: expr_view(*end),
                    step: match step {
                        Some(se) => Some(expr_view(*se)),
                        None => None,
                    },
                    body: Box::new(stmt_view(*body)),
                };
                let res = eval_stmt(old(self).fmap(), old(self).env(), sv, fuel as nat);
                match r {
                    Ok(c) => res == EvalStmt::Done(final(self).env(), c),
                    Err(h) => match h {
                        Halt::Fault(er) => res == EvalStmt::Fault(err_view(er)),
                        Halt::OutOfFuel => res == EvalStmt::OutOfFuel,
                    },
                }
            }),
        decreases fuel,
            1 + expr_size(expr_view(*start)) + expr_size(expr_view(*end)) + (match step {
                Some(se) => expr_size(expr_view(*se)),
                None => 0nat,
            }) + stmt_size(stmt_view(*body)),
            3int,
    {
        let ghost fm = old(self).fmap();
        let ghost sv = StatementV::For {
            variable: variable.value@,
            start: expr_view(*start),
            end: expr_view(*end),
            step: match step {
                Some(se) => Some(expr_view(*se)),
                None => None,
            },
            body: Box::new(stmt_view(*body)),
        };
        let ghost bodyv = stmt_view(*body);
        let sv_val = match self.visit_expression(start, fuel) {
            Ok(v) => v,
            Err(h) => {
                return Err(h);
            },
        };
        let ev_val = match self.visit_expression(end, fuel) {
            Ok(v) => v,
            Err(h) => {
                return Err(h);
            },
        };
        let pv_val = match step {
            Some(se) => match self.visit_expression(se, fuel) {
                Ok(v) => v,
                Err(h) => {
                    return Err(h);
                },
            },
            None => RuntimeValue::Number(1),
        };
        self.push_scope();
        self.register_variable(variable.value.clone(), sv_val);
        let ghost env4 = self.env();
        proof {
            assert(eval_stmt(fm, old(self).env(), sv, fuel as nat) == (match eval_for_loop(
                fm,
                env4,
                variable.value@,
                ev_val,
                pv_val,
                bodyv,
                fuel as nat,
            ) {
                EvalStmt::Done(env5, c) => EvalStmt::Done(env5.subrange(0, env5.len() - 1), c),
                other => other,
            }));
        }
        let mut fuel_left = fuel;
        loop
            invariant
                self.wf(),
                self.functions == old(self).functions,
                fm == self.fmap(),
                old(self).scopes@.len() >= 1,
                self.scopes@.len() == old(self).scopes@.len() + 1,
                fuel_left <= fuel,
                sv == (StatementV::For {
                    variable: variable.value@,
                    start: expr_view(*start),
                    end: expr_view(*end),
                    step: match step {
                        Some(se) => Some(expr_view(*se)),
                        None => None,
                    },
                    body: Box::new(stmt_view(*body)),
                }),
                fm == old(self).fmap(),
                bodyv == stmt_view(*body),
                eval_stmt(fm, old(self).env(), sv, fuel as nat) == (match eval_for_loop(
                    fm,
                    env4,
                    variable.value@,
                    ev_val,
                    pv_val,
                    bodyv,
                    fuel as nat,
                ) {
                    EvalStmt::Done(env5, c) => EvalStmt::Done(env5.subrange(0, env5.len() - 1), c),
                    other => other,
                }),
                eval_for_loop(fm, env4, variable.value@, ev_val, pv_val, bodyv, fuel as nat)
                    == eval_for_loop(
                    fm,
                    self.env(),
                    variable.value@,
                    ev_val,
                    pv_val,
                    bodyv,
                    fuel_left as nat,
                ),
            ensures
                self.wf(),
                self.functions == old(self).functions,
                self.scopes@.len() == old(self).scopes@.len() + 1,
                eval_stmt(fm, old(self).env(), sv, fuel as nat) == EvalStmt::Done(
                    self.env().subrange(0, self.env().len() - 1),
                    Completion::Normal,
                ),
            decreases fuel_left,
        {
            let ghost env_top = self.env();
            let cur: RuntimeValue = match self.get_variable(variable.value.as_str()) {
                Some(v) => *v,
                None => {
                    proof {
                        assert(eval_for_loop(
                            fm,
                            env_top,
                            variable.value@,
                            ev_val,
                            pv_val,
                            bodyv,
                            fuel_left as nat,
                        ) == EvalStmt::Fault(RuntimeErrorV::VariableNotFound(variable.value@)));
                        assert(eval_stmt(fm, old(self).env(), sv, fuel as nat) == EvalStmt::Fault(RuntimeErrorV::VariableNotFound(variable.value@)));
                    }
                    return Err(Halt::Fault(RuntimeError::VariableNotFound(variable.value.clone())));
                },
            };
            match builtin::gt(cur, ev_val) {
                Err(er) => {
                    proof {
                        assert(eval_for_loop(
                            fm,
                            env_top,
                            variable.value@,
                            ev_val,
                            pv_val,
                            bodyv,
                            fuel_left as nat,
                        ) == EvalStmt::Fault(err_view(er)));
                        assert(eval_stmt(fm, old(self).env(), sv, fuel as nat) == EvalStmt::Fault(err_view(er)));
                    }
                    return Err(Halt::Fault(er));
                },
                Ok(RuntimeValue::Bool(exit)) => {
                    if exit {
                        proof {
                            assert(eval_for_loop(
                                fm,
                                env_top,
                                variable.value@,
                                ev_val,
                                pv_val,
                                bodyv,
                                fuel_left as nat,
                            ) == EvalStmt::Done(self.env(), Completion::Normal));
                        }
                        break ;
                    }
                },
                Ok(RuntimeValue::Number(_)) => {},
            }
            let c = match self.visit_statement(body, fuel_left) {
                Ok(c) => c,
                Err(h) => {
                    proof {
                        assert(eval_for_loop(
                            fm,
                            env_top,
                            variable.value@,
                            ev_val,
                            pv_val,
                            bodyv,
                            fuel_left as nat,
                        ) == match h {
                            Halt::Fault(er) => EvalStmt::Fault(err_view(er)),
                            Halt::OutOfFuel => EvalStmt::OutOfFuel,
                        });
                        assert(eval_stmt(fm, old(self).env(), sv, fuel as nat) == match h {
                            Halt::Fault(er) => EvalStmt::Fault(err_view(er)),
                            Halt::OutOfFuel => EvalStmt::OutOfFuel,
                        });
                    }
                    return Err(h);
                },
            };
            match c {
                Completion::Return(v) => {
                    proof {
                        assert(eval_for_loop(
                            fm,
                            env_top,
                            variable.value@,
                            ev_val,
                            pv_val,
                            bodyv,
                            fuel_left as nat,
                        ) == EvalStmt::Done(self.env(), c));
                        assert(eval_stmt(fm, old(self).env(), sv, fuel as nat) == EvalStmt::Done(self.env().subrange(0, self.env().len() - 1), c));
                    }
                    self.pop_scope();
                    return Ok(Completion::Return(v));
                },
                Completion::Normal => {
                    let ghost env_body = self.env();
                    let cur2: RuntimeValue = match self.get_variable(variable.value.as_str()) {
                        Some(v) => *v,
                        None => {
                            proof {
                                assert(eval_for_loop(
                                    fm,
                                    env_top,
                                    variable.value@,
                                    ev_val,
                                    pv_val,
                                    bodyv,
                                    fuel_left as nat,
                                ) == EvalStmt::Fault(
                                    RuntimeErrorV::VariableNotFound(variable.value@),
                                ));
                                assert(eval_stmt(fm, old(self).env(), sv, fuel as nat)
                                    == EvalStmt::Fault(
                                    RuntimeErrorV::VariableNotFound(variable.value@),
                                ));
                            }
                            return Err(
                                Halt::Fault(RuntimeError::VariableNotFound(variable.value.clone())),
                            );
                        },
                    };
                    let nv = match builtin::add(cur2, pv_val) {
                        Ok(v) => v,
                        Err(er) => {
                            proof {
                                assert(eval_for_loop(
                                    fm,
                                    env_top,
                                    variable.value@,
                                    ev_val,
                                    pv_val,
                                    bodyv,
                                    fuel_left as nat,
                                ) == EvalStmt::Fault(err_view(er)));
                                assert(eval_stmt(fm, old(self).env(), sv, fuel as nat)
                                    == EvalStmt::Fault(err_view(er)));
                            }
                            return Err(Halt::Fault(er));
                        },
                    };
                    match self.set_variable_value(variable.value.as_str(), nv) {
                        Ok(()) => {},
                        Err(er) => {
                            proof {
                                assert(eval_for_loop(
                                    fm,
                                    env_top,
                                    variable.value@,
                                    ev_val,
                                    pv_val,
                                    bodyv,
                                    fuel_left as nat,
                                ) == EvalStmt::Fault(err_view(er)));
                                assert(eval_stmt(fm, old(self).env(), sv, fuel as nat)
                                    == EvalStmt::Fault(err_view(er)));
                            }
                            return Err(Halt::Fault(er));
                        },
                    }
                    if fuel_left == 0 {
                        proof {
                            assert(eval_for_loop(
                                fm,
                                env_top,
                                variable.value@,
                                ev_val,
                                pv_val,
                                bodyv,
                                fuel_left as nat,
                            ) == EvalStmt::OutOfFuel);
                            assert(eval_stmt(fm, old(self).env(), sv, fuel as nat)
                                == EvalStmt::OutOfFuel);
                        }
                        return Err(Halt::OutOfFuel);
                    }
                    proof {
                        assert(eval_for_loop(
                            fm,
                            env_top,
                            variable.value@,
                            ev_val,
                            pv_val,
                            bodyv,
                            fuel_left as nat,
                        ) == eval_for_loop(
                            fm,
                            self.env(),
                            variable.value@,
                            ev_val,
                            pv_val,
                            bodyv,
                            (fuel_left - 1) as nat,
                        ));
                    }
                    fuel_left = fuel_left - 1;
                },
            }
        }
        self.pop_scope();
        Ok(Completion::Normal)
    }

    /// Executes one statement. Matches the reference evaluation exactly, at
    /// every fuel.
    pub fn visit_statement(&mut self, s: &Statement, fuel: u64) -> (r: Result<Completion, Halt>)
        requires
            old(self).wf(),
        ensures
            final(self).wf(),
            final(self).functions == old(self).functions,
            r is Ok ==> final(self).scopes@.len() == old(self).scopes@.len(),
            ({
                let res = eval_stmt(old(self).fmap(), old(self).env(), stmt_view(*s), fuel as nat);
                match r {
                    Ok(c) => res == EvalStmt::Done(final(self).env(), c),
                    Err(h) => match h {
                        Halt::Fault(er) => res == EvalStmt::Fault(err_view(er)),
                        Halt::OutOfFuel => res == EvalStmt::OutOfFuel,
                    },
                }
            }),
        decreases fuel, stmt_size(stmt_view(*s)), 4int,
    {
        match s {
            Statement::VariableDeclaration { name, value } => {
                let v = match self.visit_expression(value, fuel) {
                    Ok(v) => v,
                    Err(h) => {
                        return Err(h);
                    },
                };
                self.register_variable(name.value.clone(), v);
                Ok(Completion::Normal)
            },
            Statement::VariableAssignment { name, value } => {
                let v = match self.visit_expression(value, fuel) {
                    Ok(v) => v,
                    Err(h) => {
                        return Err(h);
                    },
                };
                match self.set_variable_value(name.value.as_str(), v) {
                    Ok(()) => Ok(Completion::Normal),
                    Err(er) => Err(Halt::Fault(er)),
                }
            },
            Statement::IfStatement { if_then_branch, else_branch } => {
                let cv = match self.visit_expression(&if_then_branch.condition, fuel) {
                    Ok(v) => v,
                    Err(h) => {
                        return Err(h);
                    },
                };
                match cv {
                    RuntimeValue::Bool(b) => {
                        if b {
                            self.visit_statement(&*if_then_branch.then_branch, fuel)
                        } else {
                            match else_branch {
                                Some(eb) => self.visit_statement(&**eb, fuel),
                                None => Ok(Completion::Normal),
                            }
                        }
                    },
                    RuntimeValue::Number(_) => Err(Halt::Fault(RuntimeError::InvalidCondition)),
                }
            },
            Statement::BlockStatement { statements } => {
                self.push_scope();
                let c = match self.visit_statements(statements, fuel) {
                    Ok(c) => c,
                    Err(h) => {
                        return Err(h);
                    },
                };
                self.pop_scope();
                Ok(c)
            },
            Statement::WhileStatement { condition, body } => {
                self.visit_while_statement(condition, &**body, fuel)
            },
            Statement::ForStatement { variable, start, end, step, body } => {
                self.visit_for_statement(variable, start, end, step, &**body, fuel)
            },
            Statement::FunctionDefinition { .. } => Ok(Completion::Normal),
            Statement::FunctionCall(data) => {
                proof {
                    lemma_exprs_view_len(data.arguments@);
                }
                let info_opt = self.find_function(data.function_name.value.as_str());
                match info_opt {
                    None => Ok(Completion::Normal),
                    Some(info) => {
                        match self.call_function(info, &data.arguments, fuel) {
                            Ok(_) => Ok(Completion::Normal),
                            Err(h) => Err(h),
                        }
                    },
                }
            },
            Statement::ReturnStatement { span: _, expression } => {
                match expression {
                    None => Ok(Completion::Return(None)),
                    Some(expr) => {
                        let v = match self.visit_expression(expr, fuel) {
                            Ok(v) => v,
                            Err(h) => {
                                return Err(h);
                            },
                        };
                        Ok(Completion::Return(Some(v)))
                    },
                }
            },
        }
    }

    /// Runs a whole program against a fresh global scope, with the already
    /// collected function table, on the given fuel budget.
    pub fn interpret(&mut self, ast: &Ast, fuel: u64) -> (r: Result<(), Halt>)
        ensures
            final(self).functions == old(self).functions,
            final(self).wf(),
            ({
                let res = eval_stmts(
                    old(self).fmap(),
                    seq![Map::<Seq<char>, RuntimeValue>::empty()],
                    stmts_view(ast.statements@),
                    fuel as nat,
                );
                match r {
                    Ok(()) => res matches EvalStmt::Done(env, _) && env == final(self).env(),
                    Err(h) => match h {
                        Halt::Fault(er) => res == EvalStmt::Fault(err_view(er)),
                        Halt::OutOfFuel => res == EvalStmt::OutOfFuel,
                    },
                }
            }),
    {
        let mut fresh: Vec<RuntimeScope> = Vec::new();
        fresh.push(RuntimeScope::new());
        self.scopes = fresh;
        proof {
            assert(self.env() =~= seq![Map::<Seq<char>, RuntimeValue>::empty()]);
        }
        match self.visit_statements(&ast.statements, fuel) {
            Ok(_) => Ok(()),
            Err(h) => Err(h),
        }
    }
}


// ---------------------------------------------------------------------------
// Laws of evaluation.
// ---------------------------------------------------------------------------

/// The counted loop's range includes its end bound: the loop completes as
/// soon as the induction variable exceeds the bound, and not before.
pub proof fn lemma_for_loop_inclusive_bound(
    f: Map<Seq<char>, FunctionInfoV>,
    env: Seq<Map<Seq<char>, RuntimeValue>>,
    variable: Seq<char>,
    end_v: i64,
    step_v: RuntimeValue,
    body: StatementV,
    fuel: nat,
    cur: i64,
)
    requires
        env_lookup(env, variable) == Some(RuntimeValue::Number(cur)),
        cur > end_v,
    ensures
        eval_for_loop(f, env, variable, RuntimeValue::Number(end_v), step_v, body, fuel)
            == EvalStmt::Done(env, Completion::Normal),
{
}

/// The fuel budget decides only how far evaluation gets, never what it
/// computes: a result other than fuel exhaustion is the same at every larger
/// budget. (One lemma per evaluation form.)
pub proof fn lemma_more_fuel_expr(
    f: Map<Seq<char>, FunctionInfoV>,
    env: Seq<Map<Seq<char>, RuntimeValue>>,
    e: ExpressionV,
    fuel1: nat,
    fuel2: nat,
)
    requires
        fuel1 <= fuel2,
        eval_expr(f, env, e, fuel1) != EvalExpr::OutOfFuel,
    ensures
        eval_expr(f, env, e, fuel2) == eval_expr(f, env, e, fuel1),
    decreases fuel1, expr_size(e), 1int,
{
    match e {
        ExpressionV::Binary { left, operator, right } => {
            lemma_more_fuel_expr(f, env, *left, fuel1, fuel2);
            match eval_expr(f, env, *left, fuel1) {
                EvalExpr::Value(env1, _) => {
                    lemma_more_fuel_expr(f, env1, *right, fuel1, fuel2);
                },
                _ => {},
            }
        },
        ExpressionV::Unary { operator, operand } => {
            lemma_more_fuel_expr(f, env, *operand, fuel1, fuel2);
        },
        ExpressionV::Grouped(inner) => {
            lemma_more_fuel_expr(f, env, *inner, fuel1, fuel2);
        },
        ExpressionV::Call { name, arguments } => {
            if f.contains_key(name) {
                lemma_more_fuel_call(f, env, f[name], arguments, fuel1, fuel2);
            }
        },
        _ => {},
    }
}

pub proof fn lemma_more_fuel_call(
    f: Map<Seq<char>, FunctionInfoV>,
    env: Seq<Map<Seq<char>, RuntimeValue>>,
    info: FunctionInfoV,
    args: Seq<ExpressionV>,
    fuel1: nat,
    fuel2: nat,
)
    requires
        fuel1 <= fuel2,
        eval_call(f, env, info, args, fuel1) != EvalCall::OutOfFuel,
    ensures
        eval_call(f, env, info, args, fuel2) == eval_call(f, env, info, args, fuel1),
    decreases fuel1, exprs_size(args), 3int,
{
    lemma_more_fuel_bind_args(f, env.push(Map::empty()), info.parameters, args, fuel1, fuel2);
    match eval_bind_args(f, env.push(Map::empty()), info.parameters, args, fuel1) {
        EvalCall::Done(env2, _) => {
            lemma_more_fuel_stmt(f, env2, info.body, (fuel1 - 1) as nat, (fuel2 - 1) as nat);
        },
        _ => {},
    }
}

pub proof fn lemma_more_fuel_bind_args(
    f: Map<Seq<char>, FunctionInfoV>,
    env: Seq<Map<Seq<char>, RuntimeValue>>,
    params: Seq<Seq<char>>,
    args: Seq<ExpressionV>,
    fuel1: nat,
    fuel2: nat,
)
    requires
        fuel1 <= fuel2,
        eval_bind_args(f, env, params, args, fuel1) != EvalCall::OutOfFuel,
    ensures
        eval_bind_args(f, env, params, args, fuel2) == eval_bind_args(f, env, params, args, fuel1),
    decreases fuel1, exprs_size(args), 2int,
{
    if params.len() != 0 && args.len() != 0 {
        lemma_more_fuel_expr(f, env, args[0], fuel1, fuel2);
        match eval_expr(f, env, args[0], fuel1) {
            EvalExpr::Value(env1, v) => {
                lemma_more_fuel_bind_args(
                    f,
                    env_declare(env1, params[0], v),
                    params.subrange(1, params.len() as int),
                    args.subrange(1, args.len() as int),
                    fuel1,
                    fuel2,
                );
            },
            _ => {},
        }
    }
}

pub proof fn lemma_more_fuel_stmts(
    f: Map<Seq<char>, FunctionInfoV>,
    env: Seq<Map<Seq<char>, RuntimeValue>>,
    ss: Seq<StatementV>,
    fuel1: nat,
    fuel2: nat,
)
    requires
        fuel1 <= fuel2,
        eval_stmts(f, env, ss, fuel1) != EvalStmt::OutOfFuel,
    ensures
        eval_stmts(f, env, ss, fuel2) == eval_stmts(f, env, ss, fuel1),
    decreases fuel1, stmts_size(ss), 5int,
{
    if ss.len() != 0 {
        lemma_more_fuel_stmt(f, env, ss[0], fuel1, fuel2);
        match eval_stmt(f, env, ss[0], fuel1) {
            EvalStmt::Done(env1, Completion::Normal) => {
                lemma_more_fuel_stmts(f, env1, ss.subrange(1, ss.len() as int), fuel1, fuel2);
            },
            _ => {},
        }
    }
}

pub proof fn lemma_more_fuel_stmt(
    f: Map<Seq<char>, FunctionInfoV>,
    env: Seq<Map<Seq<char>, RuntimeValue>>,
    s: StatementV,
    fuel1: nat,
    fuel2: nat,
)
    requires
        fuel1 <= fuel2,
        eval_stmt(f, env, s, fuel1) != EvalStmt::OutOfFuel,
    ensures
        eval_stmt(f, env, s, fuel2) == eval_stmt(f, env, s, fuel1),
    decreases fuel1, stmt_size(s), 4int,
{
    match s {
        StatementV::Declaration { name, value } => {
            lemma_more_fuel_expr(f, env, value, fuel1, fuel2);
        },
        StatementV::Assignment { name, value } => {
            lemma_more_fuel_expr(f, env, value, fuel1, fuel2);
        },
        StatementV::If { condition, then_branch, else_branch } => {
            lemma_more_fuel_expr(f, env, condition, fuel1, fuel2);
            match eval_expr(f, env, condition, fuel1) {
                EvalExpr::Value(env1, RuntimeValue::Bool(b)) => {
                    if b {
                        lemma_more_fuel_stmt(f, env1, *then_branch, fuel1, fuel2);
                    } else {
                        match else_branch {
                            Some(eb) => {
                                lemma_more_fuel_stmt(f, env1, *eb, fuel1, fuel2);
                            },
                            None => {},
                        }
                    }
                },
                _ => {},
            }
        },
        StatementV::Block(ss) => {
            lemma_more_fuel_stmts(f, env.push(Map::empty()), ss, fuel1, fuel2);
        },
        StatementV::While { condition, body } => {
            lemma_more_fuel_expr(f, env, condition, fuel1, fuel2);
            match eval_expr(f, env, condition, fuel1) {
                EvalExpr::Value(env1, RuntimeValue::Bool(b)) => {
                    if b {
                        lemma_more_fuel_stmt(f, env1, *body, fuel1, fuel2);
                        match eval_stmt(f, env1, *body, fuel1) {
                            EvalStmt::Done(env2, Completion::Normal) => {
                                lemma_more_fuel_stmt(
                                    f,
                                    env2,
                                    s,
                                    (fuel1 - 1) as nat,
                                    (fuel2 - 1) as nat,
                                );
                            },
                            _ => {},
                        }
                    }
                },
                _ => {},
            }
        },
        StatementV::For { variable, start, end, step, body } => {
            lemma_more_fuel_expr(f, env, start, fuel1, fuel2);
            match eval_expr(f, env, start, fuel1) {
                EvalExpr::Value(env1, sv) => {
                    lemma_more_fuel_expr(f, env1, end, fuel1, fuel2);
                    match eval_expr(f, env1, end, fuel1) {
                        EvalExpr::Value(env2, ev) => {
                            let stepres = match step {
                                Some(se) => eval_expr(f, env2, se, fuel1),
                                None => EvalExpr::Value(env2, RuntimeValue::Number(1)),
                            };
                            match step {
                                Some(se) => {
                                    lemma_more_fuel_expr(f, env2, se, fuel1, fuel2);
                                },
                                None => {},
                            }
                            match stepres {
                                EvalExpr::Value(env3, pv) => {
                                    lemma_more_fuel_for_loop(
                                        f,
                                        env_declare(env3.push(Map::empty()), variable, sv),
                                        variable,
                                        ev,
                                        pv,
                                        *body,
                                        fuel1,
                                        fuel2,
                                    );
                                },
                                _ => {},
                            }
                        },
                        _ => {},
                    }
                },
                _ => {},
            }
        },
        StatementV::Call { name, arguments } => {
            if f.contains_key(name) {
                lemma_more_fuel_call(f, env, f[name], arguments, fuel1, fuel2);
            }
        },
        StatementV::Return(expression) => {
            match expression {
                Some(e) => {
                    lemma_more_fuel_expr(f, env, e, fuel1, fuel2);
                },
                None => {},
            }
        },
        _ => {},
    }
}

pub proof fn lemma_more_fuel_for_loop(
    f: Map<Seq<char>, FunctionInfoV>,
    env: Seq<Map<Seq<char>, RuntimeValue>>,
    variable: Seq<char>,
    end_v: RuntimeValue,
    step_v: RuntimeValue,
    body: StatementV,
    fuel1: nat,
    fuel2: nat,
)
    requires
        fuel1 <= fuel2,
        eval_for_loop(f, env, variable, end_v, step_v, body, fuel1) != EvalStmt::OutOfFuel,
    ensures
        eval_for_loop(f, env, variable, end_v, step_v, body, fuel2) == eval_for_loop(
            f,
            env,
            variable,
            end_v,
            step_v,
            body,
            fuel1,
        ),
    decreases fuel1, stmt_size(body), 5int,
{
    match env_lookup(env, variable) {
        Some(cur) => match builtin::spec_gt(cur, end_v) {
            Ok(RuntimeValue::Bool(true)) => {},
            Ok(_) => {
                lemma_more_fuel_stmt(f, env, body, fuel1, fuel2);
                match eval_stmt(f, env, body, fuel1) {
                    EvalStmt::Done(env1, Completion::Normal) => match env_lookup(env1, variable) {
                        Some(c2) => match builtin::spec_add(c2, step_v) {
                            Ok(nv) => match env_assign(env1, variable, nv) {
                                Some(env2) => {
                                    lemma_more_fuel_for_loop(
                                        f,
                                        env2,
                                        variable,
                                        end_v,
                                        step_v,
                                        body,
                                        (fuel1 - 1) as nat,
                                        (fuel2 - 1) as nat,
                                    );
                                },
                                None => {},
                            },
                            Err(_) => {},
                        },
                        None => {},
                    },
                    _ => {},
                }
            },
            Err(_) => {},
        },
        None => {},
    }
}

} // verus!
