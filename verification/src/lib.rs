//! Front end and execution engine for a small imperative scripting language:
//! a lexer, a precedence-climbing parser with panic-mode error recovery, a
//! scope-aware resolver with type inference, and a tree-walking interpreter.

use vstd::prelude::*;

pub mod ast;
pub mod compiler;
pub mod diagnostic;
pub mod interpreter;
pub mod lexer;
pub mod parser;
pub mod resolver;
pub mod symbols_table;
pub mod types;

verus! {

use vstd::string::StrSliceExecFns;

/// Character-sequence equality of two string slices.
pub fn str_eq(a: &str, b: &str) -> (r: bool)
    ensures
        r == (a@ == b@),
{
    let na = a.unicode_len();
    let nb = b.unicode_len();
    if na != nb {
        return false;
    }
    let mut i: usize = 0;
    while i < na
        invariant
            na == a@.len(),
            na == b@.len(),
            i <= na,
            forall|j: int| 0 <= j < i ==> a@[j] == b@[j],
        decreases na - i,
    {
        if a.get_char(i) != b.get_char(i) {
            return false;
        }
        i = i + 1;
    }
    proof {
        assert(a@ =~= b@);
    }
    true
}

/// Relies on `Iterator::collect` for `String`: the collected string holds
/// exactly the given characters, in order.
#[verifier::external_body]
pub fn string_from_chars(v: &Vec<char>) -> (s: String)
    ensures
        s@ == v@,
{
    v.iter().collect()
}

/// The kind of syntactic block the parser or resolver is currently inside.
#[derive(Debug, Clone, Copy, PartialEq, Eq, Structural)]
pub enum BlockType {
    IfBlock,
    WhileBlock,
    ForBlock,
    ElseBlock,
    FunctionBlock,
}

} // verus!
