//! The coordinator's state: per-module stages, the two dependency barriers
//! with their listener indexes, and the accumulated results of a load.

use vstd::prelude::*;
use crate::collections::{distinct, ModuleIdSet, SymbolSet};
use crate::header::{header_wf, ModuleHeader};
use crate::ids::{ModuleId, Symbol};
use crate::interns::{IdentIds, ModuleIds};
use crate::maps::IdMap;
use crate::msg::{
    BuildTask, ConstrainableImports, ExposedModuleTypes, Mode, Module, Problem, TypeError,
    VarStore,
};

verus! {

/// A module whose constraint is ready but whose dependencies are not all
/// solved yet: everything its solve task will need, parked.
#[derive(Debug)]
pub struct UnsolvedModule {
    pub module: Module,
    pub src: String,
    pub imported_modules: ModuleIdSet,
    pub constraint: crate::msg::Constraint,
    pub var_store: VarStore,
}

/// The coordinator's single-owner state.  A module's stage can be read off
/// the maps: its id enters `loading_started` when its load is enqueued,
/// `headers_parsed` when its header message is processed,
/// `waiting_for_solve` when its parse-and-constrain task is built,
/// `constrained_ident_ids` (and `declarations_by_id`) when its constraint
/// arrives, and `exposed_types` when it is solved (the root instead
/// finishes the load).
#[derive(Debug)]
pub struct State {
    pub root_id: ModuleId,
    pub src_dir: String,
    pub stdlib_mode: Mode,
    pub exposed_types: IdMap<ExposedModuleTypes>,
    pub can_problems: Vec<Problem>,
    pub type_problems: Vec<TypeError>,
    pub headers_parsed: ModuleIdSet,
    pub loading_started: ModuleIdSet,
    pub constrained_ident_ids: IdMap<IdentIds>,
    pub module_ids: ModuleIds,
    pub ident_ids_by_module: IdMap<IdentIds>,
    pub declarations_by_id: IdMap<Vec<crate::msg::Declaration>>,
    pub exposed_symbols_by_module: IdMap<SymbolSet>,
    pub waiting_for_headers: IdMap<ModuleIdSet>,
    pub header_listeners: IdMap<Vec<ModuleId>>,
    pub unparsed_modules: IdMap<ModuleHeader>,
    pub waiting_for_solve: IdMap<ModuleIdSet>,
    pub solve_listeners: IdMap<Vec<ModuleId>>,
    pub unsolved_modules: IdMap<UnsolvedModule>,
}

/// Every container is well formed, and parked entries are filed under their
/// own module id.
pub open spec fn inv_containers(s: State) -> bool {
    &&& s.module_ids.wf()
    &&& s.ident_ids_by_module.wf()
    &&& s.exposed_types.wf()
    &&& s.constrained_ident_ids.wf()
    &&& s.declarations_by_id.wf()
    &&& s.exposed_symbols_by_module.wf()
    &&& s.waiting_for_headers.wf()
    &&& s.header_listeners.wf()
    &&& s.unparsed_modules.wf()
    &&& s.waiting_for_solve.wf()
    &&& s.solve_listeners.wf()
    &&& s.unsolved_modules.wf()
    &&& s.headers_parsed.wf()
    &&& s.loading_started.wf()
    &&& forall|m: ModuleId|
        #[trigger] s.waiting_for_headers.contains_key(m) ==> s.waiting_for_headers.spec_get(
            m,
        ).wf()
    &&& forall|m: ModuleId|
        #[trigger] s.waiting_for_solve.contains_key(m) ==> s.waiting_for_solve.spec_get(m).wf()
    &&& forall|m: ModuleId|
        #[trigger] s.exposed_symbols_by_module.contains_key(m)
            ==> s.exposed_symbols_by_module.spec_get(m).wf()
    &&& forall|m: ModuleId|
        #[trigger] s.unparsed_modules.contains_key(m) ==> header_wf(
            s.unparsed_modules.spec_get(m),
        ) && s.unparsed_modules.spec_get(m).module_id == m
    &&& forall|m: ModuleId|
        #[trigger] s.unsolved_modules.contains_key(m) ==> s.unsolved_modules.spec_get(
            m,
        ).imported_modules.wf() && s.unsolved_modules.spec_get(m).module.module_id == m
}

/// Stages only ever advance, and each stage presupposes the one before it.
pub open spec fn inv_phases(s: State) -> bool {
    &&& forall|x: ModuleId| s.headers_parsed.has(x) ==> s.loading_started.has(x)
    &&& forall|x: ModuleId| s.waiting_for_solve.contains_key(x) ==> s.headers_parsed.has(x)
    &&& forall|x: ModuleId|
        s.constrained_ident_ids.contains_key(x) ==> s.waiting_for_solve.contains_key(x)
    &&& forall|x: ModuleId|
        s.declarations_by_id.contains_key(x) <==> s.constrained_ident_ids.contains_key(x)
    &&& forall|x: ModuleId| s.headers_parsed.has(x) ==> s.ident_ids_by_module.contains_key(x)
}

/// The header-barrier condition of one parked module `m`: its own header
/// arrived, its exposed symbols are recorded, it is not yet past the
/// barrier, it waits on at least one id, every id it waits on has not
/// arrived and carries `m` as a listener, and every dependency is either
/// already parsed or still waited on.
pub open spec fn header_barrier_at(s: State, m: ModuleId) -> bool {
    &&& s.headers_parsed.has(m)
    &&& s.exposed_symbols_by_module.contains_key(m)
    &&& !s.waiting_for_solve.contains_key(m)
    &&& s.waiting_for_headers.spec_get(m).spec_len() > 0
    &&& forall|d: ModuleId|
        #[trigger] s.waiting_for_headers.spec_get(m).has(d) ==> !s.headers_parsed.has(d)
            && s.header_listeners.contains_key(d) && s.header_listeners.spec_get(d)@.contains(m)
    &&& forall|n: Seq<char>|
        #[trigger] s.unparsed_modules.spec_get(m).deps_by_name.has_name(n)
            ==> s.headers_parsed.has(s.unparsed_modules.spec_get(m).deps_by_name.spec_get(n))
            || s.waiting_for_headers.spec_get(m).has(
            s.unparsed_modules.spec_get(m).deps_by_name.spec_get(n),
        )
}

/// The header barrier, for every parked module.
pub open spec fn inv_header_barrier(s: State) -> bool {
    &&& forall|m: ModuleId|
        s.unparsed_modules.contains_key(m) <==> s.waiting_for_headers.contains_key(m)
    &&& forall|m: ModuleId|
        #[trigger] s.unparsed_modules.contains_key(m) ==> header_barrier_at(s, m)
}

/// The listener entries of one header-barrier key `d`: no listener twice,
/// and each entry points back at a parked module waiting on `d`.
pub open spec fn header_listeners_at(s: State, d: ModuleId) -> bool {
    &&& distinct(s.header_listeners.spec_get(d)@)
    &&& forall|k: int|
        0 <= k < s.header_listeners.spec_get(d)@.len() ==> {
            &&& s.unparsed_modules.contains_key(#[trigger] s.header_listeners.spec_get(d)@[k])
            &&& s.waiting_for_headers.contains_key(s.header_listeners.spec_get(d)@[k])
            &&& s.waiting_for_headers.spec_get(s.header_listeners.spec_get(d)@[k]).has(d)
        }
}

/// The reverse index of the header barrier: every listener entry points
/// back at a parked module that is in fact waiting on the entry's key.
pub open spec fn inv_header_listeners(s: State) -> bool {
    forall|d: ModuleId| #[trigger] s.header_listeners.contains_key(d) ==> header_listeners_at(s, d)
}

/// The solve-barrier condition of one parked module `m`: it is constrained,
/// waits on at least one unsolved id, every id it waits on is unpublished
/// and carries `m` as a listener, and every import is either published or
/// still waited on.
pub open spec fn solve_barrier_at(s: State, m: ModuleId) -> bool {
    &&& s.waiting_for_solve.contains_key(m)
    &&& s.constrained_ident_ids.contains_key(m)
    &&& s.waiting_for_solve.spec_get(m).spec_len() > 0
    &&& forall|d: ModuleId|
        #[trigger] s.waiting_for_solve.spec_get(m).has(d) ==> !s.exposed_types.contains_key(d)
            && s.solve_listeners.contains_key(d) && s.solve_listeners.spec_get(d)@.contains(m)
    &&& forall|d: ModuleId|
        #[trigger] s.unsolved_modules.spec_get(m).imported_modules.has(d)
            ==> s.exposed_types.contains_key(d) || s.waiting_for_solve.spec_get(m).has(d)
}

/// The solve barrier, for every parked module.
pub open spec fn inv_solve_barrier(s: State) -> bool {
    forall|m: ModuleId| #[trigger] s.unsolved_modules.contains_key(m) ==> solve_barrier_at(s, m)
}

/// The listener entries of one solve-barrier key `d`: no listener twice,
/// and each entry points back at a parked module waiting on `d`.
pub open spec fn solve_listeners_at(s: State, d: ModuleId) -> bool {
    &&& distinct(s.solve_listeners.spec_get(d)@)
    &&& forall|k: int|
        0 <= k < s.solve_listeners.spec_get(d)@.len() ==> {
            &&& s.unsolved_modules.contains_key(#[trigger] s.solve_listeners.spec_get(d)@[k])
            &&& s.waiting_for_solve.contains_key(s.solve_listeners.spec_get(d)@[k])
            &&& s.waiting_for_solve.spec_get(s.solve_listeners.spec_get(d)@[k]).has(d)
        }
}

/// The reverse index of the solve barrier.
pub open spec fn inv_solve_listeners(s: State) -> bool {
    forall|d: ModuleId| #[trigger] s.solve_listeners.contains_key(d) ==> solve_listeners_at(s, d)
}

/// The coordinator's invariant, held before and after every message.
pub open spec fn inv(s: State) -> bool {
    &&& inv_containers(s)
    &&& inv_phases(s)
    &&& inv_header_barrier(s)
    &&& inv_header_listeners(s)
    &&& inv_solve_barrier(s)
    &&& inv_solve_listeners(s)
}

/// What must hold of a message for the coordinator to process it; the
/// driver establishes it for every message a task produces.
pub open spec fn msg_ok(s: State, msg: crate::msg::Msg) -> bool {
    match msg {
        crate::msg::Msg::Header(h) => {
            &&& header_wf(h)
            &&& !s.headers_parsed.has(h.module_id)
            &&& s.loading_started.has(h.module_id)
            &&& s.ident_ids_by_module.contains_key(h.module_id)
            &&& forall|n: Seq<char>|
                #[trigger] h.deps_by_name.has_name(n) ==> h.deps_by_name.spec_get(n).0
                    < s.module_ids.names@.len() && s.module_ids.names@[
                    h.deps_by_name.spec_get(n).0 as int
                ]@ == n
        },
        crate::msg::Msg::Constrained { module, imported_modules, .. } => {
            &&& s.waiting_for_solve.contains_key(module.module_id)
            &&& !s.constrained_ident_ids.contains_key(module.module_id)
            &&& imported_modules.wf()
            &&& module.references.wf()
            &&& forall|d: ModuleId|
                #[trigger] imported_modules.has(d) ==> s.waiting_for_solve.spec_get(
                    module.module_id,
                ).has(d) || s.exposed_types.contains_key(d)
        },
        crate::msg::Msg::Solved { module_id, .. } => {
            &&& s.constrained_ident_ids.contains_key(module_id)
            &&& !s.exposed_types.contains_key(module_id)
        },
        crate::msg::Msg::Finished { .. } => false,
    }
}

/// Whether some pair in `ps` is keyed by module `d`.
pub open spec fn pairs_contain(ps: Seq<(ModuleId, ExposedModuleTypes)>, d: ModuleId) -> bool {
    exists|k: int| 0 <= k < ps.len() && (#[trigger] ps[k]).0 == d
}

/// The members of `waiting` whose module is not yet published in
/// `exposed`: what a module still has to wait for.
pub fn still_waiting(waiting: &ModuleIdSet, exposed: &IdMap<ExposedModuleTypes>) -> (r:
    ModuleIdSet)
    ensures
        r.wf(),
        forall|x: ModuleId| r.has(x) <==> waiting.has(x) && !exposed.contains_key(x),
{
    let mut r = ModuleIdSet::new();
    let n = waiting.len();
    let mut i: usize = 0;
    while i < n
        invariant
            0 <= i <= n,
            n == waiting.spec_len(),
            r.wf(),
            forall|x: ModuleId|
                r.has(x) <==> (exists|k: int| 0 <= k < i && waiting.elems@[k] == x)
                    && !exposed.contains_key(x),
        decreases n - i,
    {
        let d = waiting.index(i);
        if !exposed.contains(d) {
            r.insert(d);
        }
        proof {
            assert forall|x: ModuleId|
                r.has(x) <==> (exists|k: int| 0 <= k < i + 1 && waiting.elems@[k] == x)
                    && !exposed.contains_key(x) by {
                if x == d && !exposed.contains_key(x) {
                    assert(waiting.elems@[i as int] == x);
                }
            }
        }
        i += 1;
    }
    proof {
        assert forall|x: ModuleId|
            r.has(x) <==> waiting.has(x) && !exposed.contains_key(x) by {
            assert((exists|k: int| 0 <= k < n && waiting.elems@[k] == x) == waiting.has(x));
        }
    }
    r
}

/// The set of symbols a header exposes.
pub fn symbols_of(exposes: &Vec<Symbol>) -> (r: SymbolSet)
    ensures
        r.wf(),
        forall|x: Symbol| r.has(x) <==> exposes@.contains(x),
{
    let mut r = SymbolSet::new();
    let mut i: usize = 0;
    while i < exposes.len()
        invariant
            0 <= i <= exposes@.len(),
            r.wf(),
            forall|x: Symbol| r.has(x) <==> exists|k: int| 0 <= k < i && exposes@[k] == x,
        decreases exposes@.len() - i,
    {
        let s = exposes[i];
        r.insert(s);
        proof {
            assert forall|x: Symbol|
                r.has(x) <==> exists|k: int| 0 <= k < i + 1 && exposes@[k] == x by {
                if x == s {
                    assert(exposes@[i as int] == x);
                }
            }
        }
        i += 1;
    }
    r
}

/// Gathers the published types of every imported module the body
/// references, and the imported modules it never references.  Run by the
/// coordinator, which owns `exposed_types`, so the solve task needs neither
/// a lock nor a clone of the whole map.
pub fn pre_constrain_imports(
    references: &ModuleIdSet,
    imported_modules: &ModuleIdSet,
    exposed_types: &IdMap<ExposedModuleTypes>,
) -> (r: ConstrainableImports)
    requires
        exposed_types.wf(),
        forall|d: ModuleId| imported_modules.has(d) ==> exposed_types.contains_key(d),
    ensures
        forall|k: int|
            0 <= k < r.imported_types@.len() ==> imported_modules.has(
                (#[trigger] r.imported_types@[k]).0,
            ) && references.has(r.imported_types@[k].0) && r.imported_types@[k].1
                == exposed_types.spec_get(r.imported_types@[k].0),
        forall|d: ModuleId|
            imported_modules.has(d) && references.has(d) ==> pairs_contain(r.imported_types@, d),
        forall|k: int|
            0 <= k < r.unused_imports@.len() ==> imported_modules.has(
                #[trigger] r.unused_imports@[k],
            ) && !references.has(r.unused_imports@[k]),
        forall|d: ModuleId|
            imported_modules.has(d) && !references.has(d) ==> r.unused_imports@.contains(d),
{
    let mut imported_types: Vec<(ModuleId, ExposedModuleTypes)> = Vec::new();
    let mut unused_imports: Vec<ModuleId> = Vec::new();
    let n = imported_modules.len();
    let mut i: usize = 0;
    while i < n
        invariant
            0 <= i <= n,
            n == imported_modules.spec_len(),
            exposed_types.wf(),
            forall|d: ModuleId| imported_modules.has(d) ==> exposed_types.contains_key(d),
            forall|k: int|
                0 <= k < imported_types@.len() ==> imported_modules.has(
                    (#[trigger] imported_types@[k]).0,
                ) && references.has(imported_types@[k].0) && imported_types@[k].1
                    == exposed_types.spec_get(imported_types@[k].0),
            forall|k: int|
                0 <= k < i && references.has(#[trigger] imported_modules.elems@[k]) ==> exists|
                    j: int,
                |
                    0 <= j < imported_types@.len() && imported_types@[j].0
                        == imported_modules.elems@[k],
            forall|k: int|
                0 <= k < unused_imports@.len() ==> imported_modules.has(
                    #[trigger] unused_imports@[k],
                ) && !references.has(unused_imports@[k]),
            forall|k: int|
                0 <= k < i && !references.has(#[trigger] imported_modules.elems@[k])
                    ==> unused_imports@.contains(imported_modules.elems@[k]),
        decreases n - i,
    {
        let d = imported_modules.index(i);
        let ghost pre_imp = imported_types@;
        let ghost pre_unused = unused_imports@;
        if references.contains(d) {
            let t = match exposed_types.get(d) {
                Some(t) => *t,
                None => ExposedModuleTypes::Invalid,
            };
            imported_types.push((d, t));
        } else {
            unused_imports.push(d);
        }
        proof {
            assert forall|k: int|
                0 <= k < i + 1 && references.has(
                    #[trigger] imported_modules.elems@[k],
                ) implies exists|j: int|
                0 <= j < imported_types@.len() && imported_types@[j].0
                    == imported_modules.elems@[k] by {
                if k < i {
                    let j = choose|j: int|
                        0 <= j < pre_imp.len() && pre_imp[j].0 == imported_modules.elems@[k];
                    assert(imported_types@[j].0 == imported_modules.elems@[k]);
                } else {
                    assert(imported_types@[imported_types@.len() - 1].0 == d);
                }
            }
            assert forall|k: int|
                0 <= k < i + 1 && !references.has(
                    #[trigger] imported_modules.elems@[k],
                ) implies unused_imports@.contains(imported_modules.elems@[k]) by {
                if k < i {
                    let j = choose|j: int|
                        0 <= j < pre_unused.len() && pre_unused[j] == imported_modules.elems@[k];
                    assert(unused_imports@[j] == imported_modules.elems@[k]);
                } else {
                    assert(unused_imports@[unused_imports@.len() - 1] == d);
                }
            }
        }
        i += 1;
    }
    proof {
        assert forall|d: ModuleId|
            imported_modules.has(d) && references.has(d) implies pairs_contain(
            imported_types@,
            d,
        ) by {
            let k = choose|k: int|
                0 <= k < imported_modules.elems@.len() && imported_modules.elems@[k] == d;
            assert(references.has(imported_modules.elems@[k]));
            let j = choose|j: int|
                0 <= j < imported_types@.len() && imported_types@[j].0
                    == imported_modules.elems@[k];
            assert(0 <= j < imported_types@.len() && imported_types@[j].0 == d);
        }
        assert forall|d: ModuleId|
            imported_modules.has(d) && !references.has(d) implies unused_imports@.contains(d) by {
            let k = choose|k: int|
                0 <= k < imported_modules.elems@.len() && imported_modules.elems@[k] == d;
            assert(!references.has(imported_modules.elems@[k]));
        }
    }
    ConstrainableImports { imported_types, unused_imports }
}

} // verus!
