//! Scope-tree symbol table: scopes live in a growable array addressed by
//! integer handles, each holding its variable bindings and a link to its
//! parent. Functions live in a single flat, global namespace.

use vstd::prelude::*;
use crate::types::Type;

verus! {

pub struct VariableSymbol {
    pub identifier: String,
    pub sym_type: Type,
}

pub struct FunctionSymbol {
    pub identifier: String,
    pub parameters: Vec<String>,
}

#[derive(Debug, Clone, Copy, PartialEq, Eq, Structural)]
pub struct ScopeId(pub usize);

pub struct Scope {
    pub variables: Vec<VariableSymbol>,
    pub parent: Option<ScopeId>,
}

/// The bindings a list of variable symbols amounts to: later entries win.
pub open spec fn vars_view(s: Seq<VariableSymbol>) -> Map<Seq<char>, Type>
    decreases s,
{
    if s.len() == 0 {
        Map::empty()
    } else {
        vars_view(s.subrange(0, s.len() - 1)).insert(
            s[s.len() - 1].identifier@,
            s[s.len() - 1].sym_type,
        )
    }
}

pub proof fn lemma_vars_view_push(s: Seq<VariableSymbol>, x: VariableSymbol)
    ensures
        vars_view(s.push(x)) == vars_view(s).insert(x.identifier@, x.sym_type),
{
    assert(s.push(x).subrange(0, s.len() as int) =~= s);
    assert(s.push(x)[s.len() as int] == x);
}

/// Scanning a scope's entries from the newest to the oldest.
pub open spec fn lookup_vars(s: Seq<VariableSymbol>, name: Seq<char>) -> Option<Type>
    decreases s,
{
    if s.len() == 0 {
        None
    } else if s[s.len() - 1].identifier@ == name {
        Some(s[s.len() - 1].sym_type)
    } else {
        lookup_vars(s.subrange(0, s.len() - 1), name)
    }
}

pub proof fn lemma_lookup_vars_view(s: Seq<VariableSymbol>, name: Seq<char>)
    ensures
        match lookup_vars(s, name) {
            Some(t) => vars_view(s).contains_key(name) && vars_view(s)[name] == t,
            None => !vars_view(s).contains_key(name),
        },
    decreases s,
{
    if s.len() > 0 {
        lemma_lookup_vars_view(s.subrange(0, s.len() - 1), name);
    }
}

/// The parameter names of a function's declared parameter list.
pub open spec fn params_text(v: Seq<String>) -> Seq<Seq<char>> {
    Seq::new(v.len(), |i: int| v[i]@)
}

/// The flat function namespace a list of function symbols amounts to: later
/// definitions win.
pub open spec fn funcs_view(s: Seq<FunctionSymbol>) -> Map<Seq<char>, Seq<Seq<char>>>
    decreases s,
{
    if s.len() == 0 {
        Map::empty()
    } else {
        funcs_view(s.subrange(0, s.len() - 1)).insert(
            s[s.len() - 1].identifier@,
            params_text(s[s.len() - 1].parameters@),
        )
    }
}

pub proof fn lemma_funcs_view_push(s: Seq<FunctionSymbol>, x: FunctionSymbol)
    ensures
        funcs_view(s.push(x)) == funcs_view(s).insert(x.identifier@, params_text(x.parameters@)),
{
    assert(s.push(x).subrange(0, s.len() as int) =~= s);
    assert(s.push(x)[s.len() as int] == x);
}

pub open spec fn lookup_funcs(s: Seq<FunctionSymbol>, name: Seq<char>) -> Option<Seq<Seq<char>>>
    decreases s,
{
    if s.len() == 0 {
        None
    } else if s[s.len() - 1].identifier@ == name {
        Some(params_text(s[s.len() - 1].parameters@))
    } else {
        lookup_funcs(s.subrange(0, s.len() - 1), name)
    }
}

pub proof fn lemma_lookup_funcs_view(s: Seq<FunctionSymbol>, name: Seq<char>)
    ensures
        match lookup_funcs(s, name) {
            Some(ps) => funcs_view(s).contains_key(name) && funcs_view(s)[name] == ps,
            None => !funcs_view(s).contains_key(name),
        },
    decreases s,
{
    if s.len() > 0 {
        lemma_lookup_funcs_view(s.subrange(0, s.len() - 1), name);
    }
}

/// The mathematical shape of one scope.
#[verifier::ext_equal]
pub struct ScopeV {
    pub vars: Map<Seq<char>, Type>,
    pub parent: Option<int>,
}

pub open spec fn scope_view(s: Scope) -> ScopeV {
    ScopeV {
        vars: vars_view(s.variables@),
        parent: match s.parent {
            Some(p) => Some(p.0 as int),
            None => None,
        },
    }
}

pub open spec fn scopes_view(s: Seq<Scope>) -> Seq<ScopeV> {
    Seq::new(s.len(), |i: int| scope_view(s[i]))
}

/// The mathematical shape of the whole table.
#[verifier::ext_equal]
pub struct TableV {
    pub scopes: Seq<ScopeV>,
    pub functions: Map<Seq<char>, Seq<Seq<char>>>,
}

pub open spec fn table_wf(t: TableV) -> bool {
    &&& t.scopes.len() >= 1
    &&& t.scopes[0].parent is None
    &&& forall|i: int|
        1 <= i < t.scopes.len() ==> ((#[trigger] t.scopes[i].parent) matches Some(p) && 0 <= p < i)
}

/// Walking the parent chain outward from scope `id`, the nearest binding of
/// `name`, if any.
pub open spec fn lookup_chain(scopes: Seq<ScopeV>, id: int, name: Seq<char>) -> Option<Type>
    decreases id,
{
    if 0 <= id < scopes.len() {
        if scopes[id].vars.contains_key(name) {
            Some(scopes[id].vars[name])
        } else {
            match scopes[id].parent {
                Some(p) => if 0 <= p < id {
                    lookup_chain(scopes, p, name)
                } else {
                    None
                },
                None => None,
            }
        }
    } else {
        None
    }
}

pub struct SymbolsTable {
    pub scopes: Vec<Scope>,
    pub functions: Vec<FunctionSymbol>,
}

impl SymbolsTable {
    pub open spec fn view(&self) -> TableV {
        TableV { scopes: scopes_view(self.scopes@), functions: funcs_view(self.functions@) }
    }

    pub open spec fn wf(&self) -> bool {
        table_wf(self@)
    }

    /// A fresh table holding only the immutable global scope.
    pub fn new() -> (r: SymbolsTable)
        ensures
            r.wf(),
            r@.scopes.len() == 1,
            r@.scopes[0].vars == Map::<Seq<char>, Type>::empty(),
            r@.scopes[0].parent is None,
            r@.functions == Map::<Seq<char>, Seq<Seq<char>>>::empty(),
    {
        let mut scopes: Vec<Scope> = Vec::new();
        scopes.push(Scope { variables: Vec::new(), parent: None });
        let r = SymbolsTable { scopes, functions: Vec::new() };
        proof {
            assert(r.scopes@[0].variables@ =~= Seq::<VariableSymbol>::empty());
            assert(r@.scopes =~= Seq::<ScopeV>::empty().push(scope_view(r.scopes@[0])));
        }
        r
    }

    /// Creates a new scope whose parent is `current_scope_id`.
    pub fn enter_scope(&mut self, current_scope_id: ScopeId) -> (r: ScopeId)
        requires
            old(self).wf(),
            current_scope_id.0 < old(self)@.scopes.len(),
        ensures
            final(self).wf(),
            r.0 == old(self)@.scopes.len(),
            final(self)@.scopes.len() == old(self)@.scopes.len() + 1,
            forall|i: int|
                0 <= i < old(self)@.scopes.len() ==> final(self)@.scopes[i] == old(self)@.scopes[i],
            final(self)@.scopes[r.0 as int] == (ScopeV {
                vars: Map::<Seq<char>, Type>::empty(),
                parent: Some(current_scope_id.0 as int),
            }),
            final(self)@.functions == old(self)@.functions,
    {
        let id = self.scopes.len();
        let new_scope = Scope { variables: Vec::new(), parent: Some(current_scope_id) };
        self.scopes.push(new_scope);
        proof {
            assert(self.scopes@[id as int].variables@ =~= Seq::<VariableSymbol>::empty());
            let oldv = old(self)@.scopes;
            let newv = self@.scopes;
            assert forall|i: int|
                1 <= i < newv.len() implies ((#[trigger] newv[i].parent) matches Some(p) && 0 <= p
                < i) by {
                if i < oldv.len() {
                    assert(self.scopes@[i] == old(self).scopes@[i]);
                    assert(newv[i] == oldv[i]);
                } else {
                    assert(newv[i] == scope_view(self.scopes@[id as int]));
                }
            }
        }
        ScopeId(id)
    }

    /// The parent of `current_scope_id`; the global scope cannot be exited.
    pub fn exit_scope(&self, current_scope_id: ScopeId) -> (r: ScopeId)
        requires
            self.wf(),
            1 <= current_scope_id.0 < self@.scopes.len(),
        ensures
            self@.scopes[current_scope_id.0 as int].parent == Some(r.0 as int),
            r.0 < current_scope_id.0,
    {
        let parent = self.scopes[current_scope_id.0].parent;
        match parent {
            Some(p) => p,
            None => {
                proof {
                    assert(false);
                }
                ScopeId(0)
            },
        }
    }

    /// Binds `symbol` in the given scope, overwriting any existing binding of
    /// the same name there.
    pub fn define_variable(&mut self, symbol: VariableSymbol, current_scope_id: ScopeId)
        requires
            old(self).wf(),
            current_scope_id.0 < old(self)@.scopes.len(),
        ensures
            final(self).wf(),
            final(self)@.scopes.len() == old(self)@.scopes.len(),
            forall|i: int|
                0 <= i < old(self)@.scopes.len() && i != current_scope_id.0
                    ==> final(self)@.scopes[i] == old(self)@.scopes[i],
            final(self)@.scopes[current_scope_id.0 as int].parent == old(self)@.scopes[
                current_scope_id.0 as int
            ].parent,
            final(self)@.scopes[current_scope_id.0 as int].vars == old(self)@.scopes[
                current_scope_id.0 as int
            ].vars.insert(symbol.identifier@, symbol.sym_type),
            final(self)@.functions == old(self)@.functions,
    {
        let ghost oldvars = self.scopes@[current_scope_id.0 as int].variables@;
        self.scopes[current_scope_id.0].variables.push(symbol);
        proof {
            lemma_vars_view_push(oldvars, symbol);
            assert forall|i: int|
                0 <= i < old(self)@.scopes.len() && i != current_scope_id.0 implies self@.scopes[i]
                == old(self)@.scopes[i] by {
                assert(self.scopes@[i] == old(self).scopes@[i]);
            }
        }
    }

    /// Registers a function in the flat global namespace; a later definition
    /// of the same name wins.
    pub fn define_function(&mut self, symbol: FunctionSymbol)
        requires
            old(self).wf(),
        ensures
            final(self).wf(),
            final(self)@.scopes == old(self)@.scopes,
            final(self)@.functions == old(self)@.functions.insert(
                symbol.identifier@,
                params_text(symbol.parameters@),
            ),
    {
        let ghost oldfuncs = self.functions@;
        let ghost oldscopes = self.scopes@;
        proof {
            lemma_funcs_view_push(oldfuncs, symbol);
        }
        self.functions.push(symbol);
        proof {
            assert(scopes_view(self.scopes@) =~= scopes_view(oldscopes));
        }
    }

    /// The binding of `identifier` in exactly the given scope, not its parents.
    pub fn lookup_variable_in_scope_only(&self, identifier: &str, current_scope_id: ScopeId) -> (r:
        Option<&VariableSymbol>)
        requires
            self.wf(),
            current_scope_id.0 < self@.scopes.len(),
        ensures
            ({
                let vars = self@.scopes[current_scope_id.0 as int].vars;
                match r {
                    Some(sym) => vars.contains_key(identifier@) && sym.identifier@ == identifier@
                        && sym.sym_type == vars[identifier@],
                    None => !vars.contains_key(identifier@),
                }
            }),
    {
        let scope = &self.scopes[current_scope_id.0];
        scope.lookup(identifier)
    }

    /// The parameter list of the function named `identifier`, if defined.
    pub fn lookup_function(&self, identifier: &str) -> (r: Option<&FunctionSymbol>)
        ensures
            match r {
                Some(sym) => self@.functions.contains_key(identifier@) && sym.identifier@
                    == identifier@ && params_text(sym.parameters@) == self@.functions[identifier@],
                None => !self@.functions.contains_key(identifier@),
            },
    {
        let ghost fs = self.functions@;
        proof {
            lemma_lookup_funcs_view(fs, identifier@);
        }
        let mut j: usize = self.functions.len();
        proof {
            assert(fs.subrange(0, fs.len() as int) =~= fs);
        }
        loop
            invariant
                j <= fs.len(),
                fs == self.functions@,
                lookup_funcs(fs.subrange(0, j as int), identifier@) == lookup_funcs(fs, identifier@),
            ensures
                j <= fs.len(),
                fs == self.functions@,
                ({
                    let found = lookup_funcs(fs, identifier@);
                    if j == 0 {
                        found is None
                    } else {
                        found == Some(params_text(fs[j - 1].parameters@)) && fs[j
                            - 1].identifier@ == identifier@
                    }
                }),
            decreases j,
        {
            proof {
                assert(fs.subrange(0, fs.len() as int) =~= fs);
            }
            if j == 0 {
                break ;
            }
            let cand = &self.functions[j - 1];
            proof {
                assert(fs.subrange(0, j as int)[j - 1] == fs[j - 1]);
            }
            if crate::str_eq(cand.identifier.as_str(), identifier) {
                break ;
            }
            proof {
                assert(fs.subrange(0, j as int).subrange(0, j - 1) =~= fs.subrange(0, j - 1));
            }
            j = j - 1;
        }
        if j == 0 {
            None
        } else {
            Some(&self.functions[j - 1])
        }
    }

    /// Walks the parent chain outward from `current_scope_id` and returns the
    /// nearest enclosing binding of `identifier`, or nothing.
    pub fn lookup_variable(&self, identifier: &str, current_scope_id: ScopeId) -> (r: Option<
        &VariableSymbol,
    >)
        requires
            self.wf(),
            current_scope_id.0 < self@.scopes.len(),
        ensures
            match r {
                Some(sym) => lookup_chain(self@.scopes, current_scope_id.0 as int, identifier@)
                    == Some(sym.sym_type) && sym.identifier@ == identifier@,
                None => lookup_chain(self@.scopes, current_scope_id.0 as int, identifier@) is None,
            },
    {
        let mut cur = current_scope_id;
        loop
            invariant
                self.wf(),
                cur.0 < self@.scopes.len(),
                lookup_chain(self@.scopes, cur.0 as int, identifier@) == lookup_chain(
                    self@.scopes,
                    current_scope_id.0 as int,
                    identifier@,
                ),
            ensures
                self.wf(),
                cur.0 < self@.scopes.len(),
                ({
                    let found = lookup_chain(self@.scopes, current_scope_id.0 as int, identifier@);
                    let vars = self@.scopes[cur.0 as int].vars;
                    if vars.contains_key(identifier@) {
                        found == Some(vars[identifier@])
                    } else {
                        found is None
                    }
                }),
            decreases cur.0,
        {
            let scope = &self.scopes[cur.0];
            let hit = scope.lookup(identifier);
            if hit.is_some() {
                break ;
            }
            match scope.parent {
                Some(p) => {
                    cur = p;
                },
                None => {
                    break ;
                },
            }
        }
        let scope = &self.scopes[cur.0];
        scope.lookup(identifier)
    }
}

impl Scope {
    /// The binding of `identifier` in this scope: the newest matching entry.
    pub fn lookup(&self, identifier: &str) -> (r: Option<&VariableSymbol>)
        ensures
            match r {
                Some(sym) => vars_view(self.variables@).contains_key(identifier@)
                    && sym.identifier@ == identifier@ && sym.sym_type == vars_view(
                    self.variables@,
                )[identifier@],
                None => !vars_view(self.variables@).contains_key(identifier@),
            },
    {
        let ghost vs = self.variables@;
        proof {
            lemma_lookup_vars_view(vs, identifier@);
        }
        let mut j: usize = self.variables.len();
        proof {
            assert(vs.subrange(0, vs.len() as int) =~= vs);
        }
        loop
            invariant
                j <= vs.len(),
                vs == self.variables@,
                lookup_vars(vs.subrange(0, j as int), identifier@) == lookup_vars(vs, identifier@),
            ensures
                j <= vs.len(),
                vs == self.variables@,
                ({
                    let found = lookup_vars(vs, identifier@);
                    if j == 0 {
                        found is None
                    } else {
                        found == Some(vs[j - 1].sym_type) && vs[j - 1].identifier@ == identifier@
                    }
                }),
            decreases j,
        {
            proof {
                assert(vs.subrange(0, vs.len() as int) =~= vs);
            }
            if j == 0 {
                break ;
            }
            let cand = &self.variables[j - 1];
            proof {
                assert(vs.subrange(0, j as int)[j - 1] == vs[j - 1]);
            }
            if crate::str_eq(cand.identifier.as_str(), identifier) {
                break ;
            }
            proof {
                assert(vs.subrange(0, j as int).subrange(0, j - 1) =~= vs.subrange(0, j - 1));
            }
            j = j - 1;
        }
        if j == 0 {
            None
        } else {
            Some(&self.variables[j - 1])
        }
    }
}

} // verus!
