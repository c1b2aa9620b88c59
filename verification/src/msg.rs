//! Messages from worker tasks to the coordinator, the tasks the coordinator
//! hands out, and the payloads the external collaborators (canonicalizer and
//! constraint solver) produce.  The loader never looks inside a payload; it
//! carries each one through unchanged.

use vstd::prelude::*;
use crate::collections::ModuleIdSet;
use crate::header::ModuleHeader;
use crate::ids::{ModuleId, Symbol};
use crate::interns::{IdentIds, ModuleIds};
use crate::maps::IdMap;

verus! {

/// An opaque declaration produced by the canonicalizer.
#[derive(Clone, Copy, PartialEq, Eq, Structural, Debug)]
pub struct Declaration(pub u64);

/// An opaque canonicalization problem, collected but never fatal.
#[derive(Clone, Copy, PartialEq, Eq, Structural, Debug)]
pub struct Problem(pub u64);

/// An opaque type error reported by the solver, collected but never fatal.
#[derive(Clone, Copy, PartialEq, Eq, Structural, Debug)]
pub struct TypeError(pub u64);

/// An opaque type variable.
#[derive(Clone, Copy, PartialEq, Eq, Structural, Debug)]
pub struct Variable(pub u64);

/// A module's solved type schemes, opaque to the loader.
#[derive(Clone, Copy, PartialEq, Eq, Structural, Debug)]
pub struct SolvedTypes(pub u64);

/// A module's type aliases, opaque to the loader.
#[derive(Clone, Copy, PartialEq, Eq, Structural, Debug)]
pub struct Aliases(pub u64);

/// An opaque typing constraint emitted by the canonicalizer.
#[derive(Clone, Copy, PartialEq, Eq, Structural, Debug)]
pub struct Constraint(pub u64);

/// The generator of fresh type variables: all it carries is the next free
/// variable.
#[derive(Clone, Copy, PartialEq, Eq, Structural, Debug)]
pub struct VarStore(pub u64);

/// An opaque substitution environment produced by unification.
#[derive(Clone, Copy, PartialEq, Eq, Structural, Debug)]
pub struct Subs(pub u64);

/// A substitution environment that unification has finished with.
#[derive(Clone, Copy, PartialEq, Eq, Structural, Debug)]
pub struct Solved(pub Subs);

/// Which flavour of the standard library the load runs against.
#[derive(Clone, Copy, PartialEq, Eq, Structural, Debug)]
pub enum Mode {
    Standard,
    Uniqueness,
}

/// What the standard library provider hands the loader.
#[derive(Clone, Copy, PartialEq, Eq, Structural, Debug)]
pub struct StdLib {
    pub mode: Mode,
}

/// A module as the canonicalizer returns it.
#[derive(Debug)]
pub struct Module {
    pub module_id: ModuleId,
    pub exposed_vars_by_symbol: Vec<(Symbol, Variable)>,
    /// The modules whose values this module's body actually references.
    pub references: ModuleIdSet,
    pub aliases: Aliases,
    pub rigid_variables: Vec<Variable>,
}

/// A module as the solver returns it.
#[derive(Debug)]
pub struct SolvedModule {
    pub problems: Vec<TypeError>,
    pub exposed_vars_by_symbol: Vec<(Symbol, Variable)>,
    pub solved_types: SolvedTypes,
    pub aliases: Aliases,
}

/// A module's published types, as dependents may constrain their imports
/// against them.
#[derive(Clone, Copy, PartialEq, Eq, Structural, Debug)]
pub enum ExposedModuleTypes {
    Invalid,
    Valid { solved_types: SolvedTypes, aliases: Aliases },
}

/// What one message from a worker to the coordinator carries.
#[derive(Debug)]
pub enum Msg {
    Header(ModuleHeader),
    Constrained {
        module: Module,
        declarations: Vec<Declaration>,
        imported_modules: ModuleIdSet,
        src: String,
        constraint: Constraint,
        ident_ids: IdentIds,
        problems: Vec<Problem>,
        var_store: VarStore,
    },
    Solved {
        src: String,
        module_id: ModuleId,
        solved_module: SolvedModule,
        solved_subs: Solved,
    },
    Finished {
        solved: Solved,
        exposed_vars_by_symbol: Vec<(Symbol, Variable)>,
        src: String,
    },
}

/// The import-derived inputs of a solve, gathered by the coordinator so the
/// solve task needs no access to coordinator state: for every imported
/// module that is referenced and already solved, its published types; and
/// the imported modules nothing references.
#[derive(Debug)]
pub struct ConstrainableImports {
    pub imported_types: Vec<(ModuleId, ExposedModuleTypes)>,
    pub unused_imports: Vec<ModuleId>,
}

/// One unit of work handed to the worker pool.
#[derive(Debug)]
pub enum BuildTask {
    /// Read and parse a module's header, by module name.
    LoadModule { module_name: String },
    /// Parse a module's definitions, canonicalize and constrain them.
    /// Carries snapshots of the shared tables so the worker needs no locks:
    /// the module-id table, and each direct dependency's ident table.
    ParseAndConstrain {
        header: ModuleHeader,
        mode: Mode,
        module_ids: ModuleIds,
        dep_idents: IdMap<IdentIds>,
        exposed_symbols: crate::collections::SymbolSet,
    },
    /// Wrap a module's constraint with its import and builtin constraints
    /// and solve it.
    Solve {
        module: Module,
        src: String,
        constraint: Constraint,
        var_store: VarStore,
        imported_modules: ModuleIdSet,
        imports: ConstrainableImports,
        mode: Mode,
    },
}

/// What the coordinator returns to the entry point when the root module's
/// solve arrives: the solved substitutions, the root's exposed variables,
/// and the root's source text.
#[derive(Debug)]
pub struct FinishedLoad {
    pub solved: Solved,
    pub exposed_vars_by_symbol: Vec<(Symbol, Variable)>,
    pub src: String,
}

} // verus!
