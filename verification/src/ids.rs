//! Dense integer identifiers for interned names, and source regions.

use vstd::prelude::*;

verus! {

/// Identifier of an interned module name, issued densely by `ModuleIds`.
#[derive(Clone, Copy, PartialEq, Eq, Structural, Debug)]
pub struct ModuleId(pub usize);

/// Per-module identifier of an interned local name, issued densely by
/// `IdentIds`.
#[derive(Clone, Copy, PartialEq, Eq, Structural, Debug)]
pub struct IdentId(pub usize);

/// The global name of a declared or exposed value: the pair of the module it
/// lives in and its local identifier there.
#[derive(Clone, Copy, PartialEq, Eq, Structural, Debug)]
pub struct Symbol {
    pub module_id: ModuleId,
    pub ident_id: IdentId,
}

impl Symbol {
    pub fn new(module_id: ModuleId, ident_id: IdentId) -> (s: Symbol)
        ensures
            s == (Symbol { module_id, ident_id }),
    {
        Symbol { module_id, ident_id }
    }
}

/// A source region, carried through diagnostics and scope entries unchanged.
#[derive(Clone, Copy, PartialEq, Eq, Structural, Debug)]
pub struct Region {
    pub start_line: u32,
    pub start_col: u32,
    pub end_line: u32,
    pub end_col: u32,
}

impl Region {
    pub fn zero() -> (r: Region)
        ensures
            r == (Region { start_line: 0, start_col: 0, end_line: 0, end_col: 0 }),
    {
        Region { start_line: 0, start_col: 0, end_line: 0, end_col: 0 }
    }
}

} // verus!
