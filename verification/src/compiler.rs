//! The compilation pipeline: lexing, parsing, and resolution, each run to
//! completion before the next stage begins. A resolver run is never attempted
//! on a program that failed to parse.

use vstd::prelude::*;
use crate::ast::Ast;
use crate::ast::statement::stmts_view;
use crate::diagnostic::{Diagnostics, diags_view};
use crate::lexer::{lex_all, tokenize};
use crate::parser::{Parser, p_all};
use crate::resolver::{Resolver, initial_rstate, resolve_stmts};
use crate::symbols_table::SymbolsTable;

verus! {

/// What a successful compilation yields: the tree and the populated symbols.
pub struct CompilationUnit {
    pub ast: Ast,
    pub symbols_table: SymbolsTable,
}

/// Source text, consumed entirely before parsing begins.
pub struct SourceCode {
    pub code: String,
}

impl SourceCode {
    pub fn from_string(code: String) -> (r: SourceCode)
        ensures
            r.code@ == code@,
    {
        SourceCode { code }
    }

    pub fn as_str(&self) -> (r: &str)
        ensures
            r@ == self.code@,
    {
        self.code.as_str()
    }
}

pub struct Compiler {}

impl Compiler {
    pub fn new() -> (r: Compiler) {
        Compiler {  }
    }

    /// Runs the pipeline on the source text: the lexed token stream is parsed
    /// by the grammar, and a program that parsed without a diagnostic is
    /// resolved from a fresh resolver. Compilation fails exactly when a stage
    /// reported at least one diagnostic, carrying that stage's diagnostics,
    /// and a failed compilation is never executed.
    pub fn compile(&self, source_code: &SourceCode) -> (r: Result<CompilationUnit, Diagnostics>)
        ensures
            r matches Ok(unit) ==> unit.symbols_table.wf(),
            r matches Err(d) ==> d.diagnostics@.len() > 0,
            ({
                let ms = lex_all(source_code.code@, 0, false);
                let p = p_all(ms, 0, Seq::empty(), Seq::empty(), Seq::empty());
                let m = resolve_stmts(initial_rstate(), p.0);
                match r {
                    Ok(unit) => p.1.len() == 0 && stmts_view(unit.ast.statements@) == p.0
                        && m.diags.len() == 0 && unit.symbols_table@ == m.table,
                    Err(d) => diags_view(d.diagnostics@) == if p.1.len() > 0 {
                        p.1
                    } else {
                        m.diags
                    },
                }
            }),
    {
        let tokens = tokenize(source_code.as_str());
        let parser = Parser::new(tokens);
        let ast = match parser.parse() {
            Ok(ast) => ast,
            Err(d) => {
                return Err(d);
            },
        };
        let symbols_table = match Resolver::new().resolve(&ast) {
            Ok(t) => t,
            Err(d) => {
                return Err(d);
            },
        };
        Ok(CompilationUnit { ast, symbols_table })
    }
}

} // verus!
