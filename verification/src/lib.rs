//! A minimal stack-based, array-oriented language core: a lexer, a formatter
//! that rewrites ASCII mnemonics into symbolic glyphs, a compiler that resolves
//! names to builtin operations, and an evaluator that runs a compiled program
//! against a value stack with rank-polymorphic, broadcasting array semantics.

pub mod compile;
pub mod eval;
pub mod formatter;
pub mod host;
pub mod laws;
pub mod value;
pub mod prim;
pub mod render;
pub mod token;

use vstd::prelude::*;

verus! {

/// The version of this interpreter core, a process-wide constant.
pub fn core_version() -> (r: &'static str)
    ensures
        r@ == "0.1.0"@,
{
    "0.1.0"
}

} // verus!
