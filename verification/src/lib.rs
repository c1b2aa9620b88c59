//! A module loader for a statically typed, purely functional language.
//!
//! Given a root source file, the loader discovers, parses, canonicalizes,
//! constrains and type-solves the transitive closure of imported modules.
//! The heart of the crate is a dependency-driven coordinator state machine:
//! every module advances through staged states (header parsed, constrained,
//! solved) with per-stage barriers on its imports, and the coordinator alone
//! decides which task may run next.  Parsing, canonicalization and constraint
//! solving themselves are external collaborators; the coordinator consumes
//! their results as messages and produces tasks.
//!
//! The crate also contains the editor's line-indexed view of a source buffer
//! (`CodeLines`).

use vstd::prelude::*;

pub mod code_lines;
pub mod collections;
pub mod coordinator;
pub mod header;
pub mod ids;
pub mod interns;
pub mod loader;
pub mod maps;
pub mod msg;
pub mod parsed;
pub mod state;
pub mod ui;

verus! {

/// Number of worker threads for a machine with `cpu_count` CPUs: one CPU is
/// reserved for the coordinator thread, but at least one worker always runs.
pub fn num_workers(cpu_count: usize) -> (n: usize)
    ensures
        n == if cpu_count >= 2 { (cpu_count - 1) as int } else { 1int },
        n >= 1,
{
    if cpu_count >= 2 {
        cpu_count - 1
    } else {
        1
    }
}

} // verus!
