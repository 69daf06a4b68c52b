//! An in-memory interprocedural call graph for AL workspaces: a syntax
//! extractor over a concrete-syntax model, an index of definitions, call
//! sites and variable scopes with file-scoped incremental removal,
//! receiver-type resolution, dependency-version selection, and the
//! code-quality analysis and language-server query logic on top.

use vstd::prelude::*;

pub mod intern;
pub mod strutil;
pub mod keymap;
pub mod versions;
pub mod resolver;
pub mod graph;
pub mod parser;
pub mod syntax;
pub mod extract;
pub mod analysis;
pub mod indexer;
pub mod handlers;
pub mod protocol;
pub mod laws;
pub mod varvec;

verus! {

/// Builds the 64-bit map key of a qualified name from its two symbol indices.
pub open spec fn spec_qkey(object: u32, procedure: u32) -> u64 {
    ((object as int) * 0x1_0000_0000 + procedure as int) as u64
}

pub fn qkey(object: u32, procedure: u32) -> (r: u64)
    ensures
        r == spec_qkey(object, procedure),
{
    (object as u64) * 0x1_0000_0000u64 + procedure as u64
}

} // verus!
