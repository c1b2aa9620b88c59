//! The coordinator's transition function: one consumed message mutates the
//! state, may unblock parked modules, and hands back the tasks to enqueue,
//! or the finished load when the root's solve arrives.

use vstd::prelude::*;
use crate::collections::ModuleIdSet;
use crate::header::{header_wf, ModuleHeader};
use crate::ids::ModuleId;
use crate::interns::{IdentIds, ModuleIds};
use crate::maps::IdMap;
use crate::msg::{
    BuildTask, ExposedModuleTypes, FinishedLoad, Mode, Msg, SolvedModule,
};
use crate::state::{
    inv, inv_containers, inv_header_barrier, inv_header_listeners, inv_phases, inv_solve_barrier,
    inv_solve_listeners, msg_ok, pre_constrain_imports, still_waiting, symbols_of, State,
    UnsolvedModule,
};

verus! {

/// The waiting set holds exactly the imported modules that are not yet
/// published.
pub open spec fn needed_set_ok(
    w: ModuleIdSet,
    imports: ModuleIdSet,
    exposed: IdMap<ExposedModuleTypes>,
) -> bool {
    forall|d: ModuleId| w.has(d) <==> imports.has(d) && !exposed.contains_key(d)
}

/// Whether `t` loads the module named `n`.
pub open spec fn is_load_for(t: BuildTask, n: Seq<char>) -> bool {
    t is LoadModule && t->LoadModule_module_name@ == n
}

/// Whether `t` parses and constrains module `m`.
pub open spec fn is_pnc_for(t: BuildTask, m: ModuleId) -> bool {
    t is ParseAndConstrain && t->ParseAndConstrain_header.module_id == m
}

/// Whether `t` solves module `m`.
pub open spec fn is_solve_for(t: BuildTask, m: ModuleId) -> bool {
    t is Solve && t->Solve_module.module_id == m
}

/// What holds of every task the coordinator hands out, judged against the
/// state right after the message that produced it.
pub open spec fn task_ok(s: State, t: BuildTask) -> bool {
    match t {
        BuildTask::LoadModule { module_name } => {
            &&& s.module_ids.has_name(module_name@)
            &&& s.loading_started.has(
                ModuleId(s.module_ids.spec_id_of(module_name@) as usize),
            )
            &&& !s.headers_parsed.has(ModuleId(s.module_ids.spec_id_of(module_name@) as usize))
        },
        BuildTask::ParseAndConstrain { header, dep_idents, .. } => {
            &&& header_wf(header)
            &&& s.headers_parsed.has(header.module_id)
            &&& s.waiting_for_solve.contains_key(header.module_id)
            &&& s.waiting_for_solve.spec_get(header.module_id).wf()
            &&& !s.constrained_ident_ids.contains_key(header.module_id)
            &&& !s.exposed_symbols_by_module.contains_key(header.module_id)
            &&& !s.unparsed_modules.contains_key(header.module_id)
            // The coordinator waits for every dependency header before
            // it lets a module go to parsing.
            &&& forall|n: Seq<char>|
                #[trigger] header.deps_by_name.has_name(n) ==> s.headers_parsed.has(
                    header.deps_by_name.spec_get(n),
                )
            &&& forall|d: ModuleId|
                #[trigger] header.imported_modules.has(d) ==> s.waiting_for_solve.spec_get(
                    header.module_id,
                ).has(d) || s.exposed_types.contains_key(d)
            &&& forall|d: ModuleId|
                #[trigger] s.waiting_for_solve.spec_get(header.module_id).has(d)
                    ==> header.imported_modules.has(d)
            &&& dep_idents.wf()
            &&& forall|n: Seq<char>|
                #[trigger] header.deps_by_name.has_name(n) ==> dep_idents.contains_key(
                    header.deps_by_name.spec_get(n),
                )
        },
        BuildTask::Solve { module, imported_modules, .. } => {
            &&& s.constrained_ident_ids.contains_key(module.module_id)
            &&& !s.unsolved_modules.contains_key(module.module_id)
            &&& imported_modules.wf()
            // The coordinator waits for every import's published types
            // before it lets a module go to solving.
            &&& forall|d: ModuleId|
                #[trigger] imported_modules.has(d) ==> s.exposed_types.contains_key(d)
        },
    }
}

/// Two tasks in flight never address the same module with the same kind of
/// work.
pub open spec fn task_distinct_pair(a: BuildTask, b: BuildTask) -> bool {
    match (a, b) {
        (BuildTask::LoadModule { module_name: n1 }, BuildTask::LoadModule { module_name: n2 }) => {
            n1@ != n2@
        },
        (
            BuildTask::ParseAndConstrain { header: h1, .. },
            BuildTask::ParseAndConstrain { header: h2, .. },
        ) => h1.module_id != h2.module_id,
        (BuildTask::Solve { module: m1, .. }, BuildTask::Solve { module: m2, .. }) => {
            m1.module_id != m2.module_id
        },
        _ => true,
    }
}

pub open spec fn tasks_ok(s: State, tasks: Seq<BuildTask>) -> bool {
    &&& forall|i: int| 0 <= i < tasks.len() ==> task_ok(s, #[trigger] tasks[i])
    &&& forall|i: int, j: int|
        0 <= i < j < tasks.len() ==> task_distinct_pair(#[trigger] tasks[i], #[trigger] tasks[j])
}

/// Builds the parse-and-constrain task for a module whose dependency
/// headers have all arrived: snapshots the module-id table and each
/// dependency's ident table (so canonicalization runs without locks), and
/// registers in `waiting_for_solve` the dependencies that still have to be
/// solved before this module can be.
pub fn build_parse_and_constrain_task(
    header: ModuleHeader,
    mode: Mode,
    module_ids: &ModuleIds,
    ident_ids_by_module: &IdMap<IdentIds>,
    exposed_types: &IdMap<ExposedModuleTypes>,
    exposed_symbols: crate::collections::SymbolSet,
    waiting_for_solve: &mut IdMap<ModuleIdSet>,
) -> (t: BuildTask)
    requires
        module_ids.wf(),
        ident_ids_by_module.wf(),
        exposed_types.wf(),
        old(waiting_for_solve).wf(),
        header_wf(header),
        forall|n: Seq<char>|
            #[trigger] header.deps_by_name.has_name(n) ==> ident_ids_by_module.contains_key(
                header.deps_by_name.spec_get(n),
            ),
    ensures
        final(waiting_for_solve).wf(),
        forall|x: ModuleId|
            final(waiting_for_solve).contains_key(x) <==> old(waiting_for_solve).contains_key(x)
                || x == header.module_id,
        forall|x: ModuleId|
            old(waiting_for_solve).contains_key(x) && x != header.module_id
                ==> final(waiting_for_solve).spec_get(x) == old(waiting_for_solve).spec_get(x),
        final(waiting_for_solve).spec_get(header.module_id).wf(),
        needed_set_ok(
            final(waiting_for_solve).spec_get(header.module_id),
            header.imported_modules,
            *exposed_types,
        ),
        (t matches BuildTask::ParseAndConstrain {
            header: h2,
            mode: m2,
            module_ids: mi,
            dep_idents: di,
            exposed_symbols: es,
        } && {
            &&& h2 == header
            &&& m2 == mode
            &&& es == exposed_symbols
            &&& mi.names@ == module_ids.names@
            &&& di.wf()
            &&& forall|d: ModuleId|
                #[trigger] di.contains_key(d) ==> ident_ids_by_module.contains_key(d)
                    && di.spec_get(d).names@ == ident_ids_by_module.spec_get(d).names@
            &&& forall|n: Seq<char>|
                #[trigger] header.deps_by_name.has_name(n) ==> di.contains_key(
                    header.deps_by_name.spec_get(n),
                )
        }),
{
    let mut dep_idents: IdMap<IdentIds> = IdMap::new();
    let nd = header.deps_by_name.len();
    let mut i: usize = 0;
    while i < nd
        invariant
            0 <= i <= nd,
            nd == header.deps_by_name.spec_len(),
            header_wf(header),
            module_ids.wf(),
            ident_ids_by_module.wf(),
            forall|n: Seq<char>|
                #[trigger] header.deps_by_name.has_name(n) ==> ident_ids_by_module.contains_key(
                    header.deps_by_name.spec_get(n),
                ),
            dep_idents.wf(),
            forall|d: ModuleId|
                #[trigger] dep_idents.contains_key(d) ==> ident_ids_by_module.contains_key(d)
                    && dep_idents.spec_get(d).names@ == ident_ids_by_module.spec_get(d).names@,
            forall|k: int|
                0 <= k < i ==> dep_idents.contains_key(#[trigger] header.deps_by_name.vals@[k]),
        decreases nd - i,
    {
        let dep_id = *header.deps_by_name.val_at(i);
        match ident_ids_by_module.get(dep_id) {
            Some(tbl) => {
                let snapshot = tbl.duplicate();
                dep_idents.insert(dep_id, snapshot);
            },
            None => {
                // The dependency's header was processed, so its ident
                // table exists; this branch cannot be reached.
            },
        }
        i += 1;
    }
    proof {
        assert forall|n: Seq<char>| #[trigger]
            header.deps_by_name.has_name(n) implies dep_idents.contains_key(
            header.deps_by_name.spec_get(n),
        ) by {
            let k = choose|k: int|
                0 <= k < header.deps_by_name.keys@.len() && header.deps_by_name.keys@[k]@ == n;
            header.deps_by_name.lemma_name_idx(n, k);
            assert(header.deps_by_name.vals@[k] == header.deps_by_name.spec_get(n));
            assert(dep_idents.contains_key(header.deps_by_name.vals@[k]));
        }
    }
    let solve_needed = still_waiting(&header.imported_modules, exposed_types);
    waiting_for_solve.insert(header.module_id, solve_needed);
    let module_ids_snapshot = module_ids.duplicate();
    BuildTask::ParseAndConstrain {
        header,
        mode,
        module_ids: module_ids_snapshot,
        dep_idents,
        exposed_symbols,
    }
}

/// Whether every dependency `m` was waiting on (in `pre`) is already
/// published: then `m` can be solved at once.
pub open spec fn ready_to_solve(pre: State, m: ModuleId) -> bool {
    forall|d: ModuleId|
        #[trigger] pre.waiting_for_solve.spec_get(m).has(d) ==> pre.exposed_types.contains_key(d)
}

/// What processing `Constrained` for module `m` does to the state: the
/// canonicalization problems are collected, the final ident table and the
/// declarations are recorded (each exactly once), the waiting set is
/// trimmed to the still-unpublished dependencies, and the module either
/// goes straight to a solve task or parks in `unsolved_modules`.
pub open spec fn constrained_post(
    pre: State,
    post: State,
    module_id: ModuleId,
    declarations: Vec<crate::msg::Declaration>,
    ident_ids: IdentIds,
    problems: Vec<crate::msg::Problem>,
    tasks: Seq<BuildTask>,
) -> bool {
    &&& post.can_problems@ == pre.can_problems@ + problems@
    &&& forall|x: ModuleId|
        post.constrained_ident_ids.contains_key(x) <==> pre.constrained_ident_ids.contains_key(x)
            || x == module_id
    &&& post.constrained_ident_ids.spec_get(module_id) == ident_ids
    &&& forall|x: ModuleId|
        pre.constrained_ident_ids.contains_key(x) && x != module_id
            ==> post.constrained_ident_ids.spec_get(x) == pre.constrained_ident_ids.spec_get(x)
    &&& forall|x: ModuleId|
        post.declarations_by_id.contains_key(x) <==> pre.declarations_by_id.contains_key(x) || x
            == module_id
    &&& post.declarations_by_id.spec_get(module_id) == declarations
    &&& forall|x: ModuleId|
        pre.declarations_by_id.contains_key(x) && x != module_id
            ==> post.declarations_by_id.spec_get(x) == pre.declarations_by_id.spec_get(x)
    &&& forall|x: ModuleId|
        post.waiting_for_solve.contains_key(x) <==> pre.waiting_for_solve.contains_key(x)
    &&& forall|x: ModuleId|
        pre.waiting_for_solve.contains_key(x) && x != module_id
            ==> post.waiting_for_solve.spec_get(x) == pre.waiting_for_solve.spec_get(x)
    &&& forall|d: ModuleId|
        post.waiting_for_solve.spec_get(module_id).has(d) <==> pre.waiting_for_solve.spec_get(
            module_id,
        ).has(d) && !pre.exposed_types.contains_key(d)
    &&& (ready_to_solve(pre, module_id) ==> tasks.len() == 1 && is_solve_for(tasks[0], module_id)
        && !post.unsolved_modules.contains_key(module_id))
    &&& (!ready_to_solve(pre, module_id) ==> tasks.len() == 0)
    &&& forall|x: ModuleId|
        post.unsolved_modules.contains_key(x) <==> pre.unsolved_modules.contains_key(x) || (x
            == module_id && !ready_to_solve(pre, module_id))
    &&& post.headers_parsed == pre.headers_parsed
    &&& post.loading_started == pre.loading_started
    &&& post.exposed_types == pre.exposed_types
    &&& post.exposed_symbols_by_module == pre.exposed_symbols_by_module
    &&& post.unparsed_modules == pre.unparsed_modules
    &&& post.waiting_for_headers == pre.waiting_for_headers
    &&& post.header_listeners == pre.header_listeners
    &&& post.module_ids == pre.module_ids
    &&& post.ident_ids_by_module == pre.ident_ids_by_module
    &&& post.type_problems == pre.type_problems
    &&& post.root_id == pre.root_id
    &&& post.src_dir == pre.src_dir
    &&& post.stdlib_mode == pre.stdlib_mode
}

/// Processes `Msg::Constrained`: records the module's results, and either
/// enqueues its solve task at once (all dependencies published) or parks it
/// behind the solve barrier.
fn update_constrained(
    state: &mut State,
    module: crate::msg::Module,
    declarations: Vec<crate::msg::Declaration>,
    imported_modules: ModuleIdSet,
    src: String,
    constraint: crate::msg::Constraint,
    ident_ids: IdentIds,
    problems: Vec<crate::msg::Problem>,
    var_store: crate::msg::VarStore,
) -> (tasks: Vec<BuildTask>)
    requires
        inv(*old(state)),
        msg_ok(
            *old(state),
            Msg::Constrained {
                module,
                declarations,
                imported_modules,
                src,
                constraint,
                ident_ids,
                problems,
                var_store,
            },
        ),
    ensures
        inv(*final(state)),
        tasks_ok(*final(state), tasks@),
        constrained_post(
            *old(state),
            *final(state),
            module.module_id,
            declarations,
            ident_ids,
            problems,
            tasks@,
        ),
{
    let module_id = module.module_id;
    let ghost pre = *state;

    let mut incoming_problems = problems;
    state.can_problems.append(&mut incoming_problems);

    state.constrained_ident_ids.insert(module_id, ident_ids);

    let waiting0 = match state.waiting_for_solve.remove(module_id) {
        Some(w) => w,
        None => ModuleIdSet::new(),
    };
    // Dependencies may have been solved while this module was being
    // constrained; they no longer need to be waited for.
    let waiting = still_waiting(&waiting0, &state.exposed_types);
    state.waiting_for_solve.insert(module_id, waiting.duplicate());

    state.declarations_by_id.insert(module_id, declarations);

    let mut tasks: Vec<BuildTask> = Vec::new();
    if waiting.is_empty() {
        proof {
            assert forall|d: ModuleId| #[trigger]
                imported_modules.has(d) implies state.exposed_types.contains_key(d) by {
                assert(!waiting.has(d));
            }
        }
        let imports = pre_constrain_imports(
            &module.references,
            &imported_modules,
            &state.exposed_types,
        );
        // Unused imports ride along in the task; they are reported by the
        // solve step and do not block it.
        tasks.push(
            BuildTask::Solve {
                module,
                src,
                constraint,
                var_store,
                imported_modules,
                imports,
                mode: state.stdlib_mode,
            },
        );
    } else {
        // Park the module, then register it with every dependency it still
        // waits on.
        state.unsolved_modules.insert(
            module_id,
            UnsolvedModule { module, src, imported_modules, constraint, var_store },
        );
        let ghost snap = *state;
        let n = waiting.len();
        let mut k: usize = 0;
        while k < n
            invariant
                0 <= k <= n,
                n == waiting.spec_len(),
                waiting.wf(),
                inv_containers(*state),
                inv_phases(*state),
                inv_header_barrier(*state),
                inv_header_listeners(*state),
                forall|x: ModuleId|
                    #[trigger] state.unsolved_modules.contains_key(x) && x != module_id
                        ==> crate::state::solve_barrier_at(*state, x),
                forall|d: ModuleId|
                    #[trigger] state.solve_listeners.contains_key(d)
                        ==> crate::state::solve_listeners_at(*state, d),
                // the parked module's partial barrier
                state.unsolved_modules.contains_key(module_id),
                state.unsolved_modules.spec_get(module_id) == snap.unsolved_modules.spec_get(
                    module_id,
                ),
                state.waiting_for_solve.contains_key(module_id),
                state.constrained_ident_ids.contains_key(module_id),
                state.waiting_for_solve.spec_get(module_id).spec_len() > 0,
                forall|d: ModuleId|
                    state.waiting_for_solve.spec_get(module_id).has(d) <==> waiting.has(d),
                forall|d: ModuleId|
                    #[trigger] waiting.has(d) ==> !state.exposed_types.contains_key(d),
                forall|j: int|
                    0 <= j < k ==> state.solve_listeners.contains_key(
                        #[trigger] waiting.elems@[j],
                    ) && state.solve_listeners.spec_get(waiting.elems@[j])@.contains(module_id),
                forall|d: ModuleId|
                    #[trigger] state.solve_listeners.contains_key(d)
                        && state.solve_listeners.spec_get(d)@.contains(module_id) ==> exists|
                        j: int,
                    |
                        0 <= j < k && waiting.elems@[j] == d,
                // fields this loop never touches
                state.can_problems == snap.can_problems,
                state.constrained_ident_ids == snap.constrained_ident_ids,
                state.declarations_by_id == snap.declarations_by_id,
                state.waiting_for_solve == snap.waiting_for_solve,
                state.unsolved_modules == snap.unsolved_modules,
                state.headers_parsed == snap.headers_parsed,
                state.loading_started == snap.loading_started,
                state.exposed_types == snap.exposed_types,
                state.exposed_symbols_by_module == snap.exposed_symbols_by_module,
                state.unparsed_modules == snap.unparsed_modules,
                state.waiting_for_headers == snap.waiting_for_headers,
                state.header_listeners == snap.header_listeners,
                state.module_ids == snap.module_ids,
                state.ident_ids_by_module == snap.ident_ids_by_module,
                state.type_problems == snap.type_problems,
                state.root_id == snap.root_id,
                state.src_dir == snap.src_dir,
                state.stdlib_mode == snap.stdlib_mode,
            decreases n - k,
        {
            let d = waiting.index(k);
            let ghost st0 = *state;
            let ghost pre_l = state.solve_listeners;
            let mut listeners = match state.solve_listeners.remove(d) {
                Some(l) => l,
                None => Vec::new(),
            };
            let ghost l0 = listeners@;
            proof {
                if pre_l.contains_key(d) && l0.contains(module_id) {
                    let j = choose|j: int| 0 <= j < k && waiting.elems@[j] == d;
                    assert(waiting.elems@[j] == waiting.elems@[k as int]);
                    assert(false);
                }
                crate::collections::lemma_push_keeps_distinct(l0, module_id);
                crate::collections::lemma_push_contains(l0, module_id);
            }
            listeners.push(module_id);
            state.solve_listeners.insert(d, listeners);
            proof {
                assert forall|d2: ModuleId| #[trigger]
                    state.solve_listeners.contains_key(
                        d2,
                    ) implies crate::state::solve_listeners_at(*state, d2) by {
                    if d2 == d {
                        assert(state.solve_listeners.spec_get(d)@ == l0.push(module_id));
                        assert forall|j: int|
                            0 <= j < state.solve_listeners.spec_get(d)@.len() implies {
                            &&& state.unsolved_modules.contains_key(
                                #[trigger] state.solve_listeners.spec_get(d)@[j],
                            )
                            &&& state.waiting_for_solve.contains_key(
                                state.solve_listeners.spec_get(d)@[j],
                            )
                            &&& state.waiting_for_solve.spec_get(
                                state.solve_listeners.spec_get(d)@[j],
                            ).has(d)
                        } by {
                            if j < l0.len() {
                                assert(state.solve_listeners.spec_get(d)@[j] == l0[j]);
                                assert(pre_l.contains_key(d));
                                assert(crate::state::solve_listeners_at(st0, d));
                                assert(pre_l.spec_get(d)@[j] == l0[j]);
                            } else {
                                assert(state.solve_listeners.spec_get(d)@[j] == module_id);
                                assert(waiting.has(waiting.elems@[k as int]));
                            }
                        }
                    } else {
                        assert(pre_l.contains_key(d2));
                        assert(state.solve_listeners.spec_get(d2) == pre_l.spec_get(d2));
                        assert(crate::state::solve_listeners_at(st0, d2));
                    }
                }
                assert forall|j: int|
                    0 <= j < k + 1 implies state.solve_listeners.contains_key(
                    #[trigger] waiting.elems@[j],
                ) && state.solve_listeners.spec_get(waiting.elems@[j])@.contains(module_id) by {
                    if j < k {
                        assert(waiting.elems@[j] != d);
                        assert(state.solve_listeners.spec_get(waiting.elems@[j]) == pre_l.spec_get(
                            waiting.elems@[j],
                        ));
                    } else {
                        assert(state.solve_listeners.spec_get(d)@.last() == module_id);
                    }
                }
                assert forall|d2: ModuleId| #[trigger]
                    state.solve_listeners.contains_key(d2) && state.solve_listeners.spec_get(
                        d2,
                    )@.contains(module_id) implies exists|j: int|
                    0 <= j < k + 1 && waiting.elems@[j] == d2 by {
                    if d2 == d {
                        assert(waiting.elems@[k as int] == d2);
                    } else {
                        assert(state.solve_listeners.spec_get(d2) == pre_l.spec_get(d2));
                        let j = choose|j: int| 0 <= j < k && waiting.elems@[j] == d2;
                        assert(0 <= j < k + 1 && waiting.elems@[j] == d2);
                    }
                }
            }
            k += 1;
        }
        proof {
            assert(crate::state::solve_barrier_at(*state, module_id)) by {
                assert forall|d: ModuleId| #[trigger]
                    state.waiting_for_solve.spec_get(module_id).has(
                        d,
                    ) implies !state.exposed_types.contains_key(d)
                    && state.solve_listeners.contains_key(d) && state.solve_listeners.spec_get(
                    d,
                )@.contains(module_id) by {
                    let j = choose|j: int|
                        0 <= j < waiting.elems@.len() && waiting.elems@[j] == d;
                    assert(state.solve_listeners.contains_key(waiting.elems@[j]));
                }
                assert forall|d: ModuleId| #[trigger]
                    state.unsolved_modules.spec_get(module_id).imported_modules.has(
                        d,
                    ) implies state.exposed_types.contains_key(d)
                    || state.waiting_for_solve.spec_get(module_id).has(d) by {
                    assert(imported_modules.has(d));
                    if !pre.exposed_types.contains_key(d) {
                        assert(pre.waiting_for_solve.spec_get(module_id).has(d));
                    }
                }
            }
        }
    }
    tasks
}

/// How much listener-notification work is left under key `d`: the length of
/// the entry, plus one for the entry itself.
pub open spec fn pending_in(m: IdMap<Vec<ModuleId>>, d: ModuleId) -> nat {
    if m.contains_key(d) {
        m.spec_get(d)@.len() + 1
    } else {
        0
    }
}

/// What processing `Solved` for module `m` does to the state: the type
/// errors are collected; the root's solve finishes the load with nothing
/// else touched, while any other module's types are published exactly once
/// and every parked dependent stops waiting for `m` (those left waiting for
/// nothing are released as solve tasks).
pub open spec fn solved_post(
    pre: State,
    post: State,
    module_id: ModuleId,
    solved_module: SolvedModule,
    solved_subs: crate::msg::Solved,
    src: String,
    tasks: Seq<BuildTask>,
    finished: Option<FinishedLoad>,
) -> bool {
    &&& post.type_problems@ == pre.type_problems@ + solved_module.problems@
    &&& (module_id == pre.root_id ==> {
        &&& (finished matches Some(f) && f.solved == solved_subs && f.exposed_vars_by_symbol
            == solved_module.exposed_vars_by_symbol && f.src == src)
        &&& tasks.len() == 0
        &&& post.exposed_types == pre.exposed_types
        &&& post.unsolved_modules == pre.unsolved_modules
        &&& post.waiting_for_solve == pre.waiting_for_solve
        &&& post.solve_listeners == pre.solve_listeners
    })
    &&& (module_id != pre.root_id ==> {
        &&& finished is None
        &&& forall|x: ModuleId|
            post.exposed_types.contains_key(x) <==> pre.exposed_types.contains_key(x) || x
                == module_id
        &&& post.exposed_types.spec_get(module_id) == (ExposedModuleTypes::Valid {
            solved_types: solved_module.solved_types,
            aliases: solved_module.aliases,
        })
        &&& forall|x: ModuleId|
            pre.exposed_types.contains_key(x) && x != module_id ==> post.exposed_types.spec_get(
                x,
            ) == pre.exposed_types.spec_get(x)
        &&& forall|x: ModuleId|
            post.unsolved_modules.contains_key(x) ==> pre.unsolved_modules.contains_key(x)
        &&& forall|x: ModuleId|
            post.waiting_for_solve.contains_key(x) <==> pre.waiting_for_solve.contains_key(x)
        &&& forall|x: ModuleId|
            pre.waiting_for_solve.contains_key(x) && !pre.unsolved_modules.contains_key(x)
                ==> post.waiting_for_solve.spec_get(x) == pre.waiting_for_solve.spec_get(x)
        // a dependent that was only waiting for this module is released
        // with its solve task; one waiting for more stays parked
        &&& forall|x: ModuleId|
            pre.unsolved_modules.contains_key(x) && (forall|d: ModuleId|
                pre.waiting_for_solve.spec_get(x).has(d) ==> d == module_id) ==> has_solve_task(
                tasks,
                x,
            ) && !post.unsolved_modules.contains_key(x)
        &&& forall|x: ModuleId, d: ModuleId|
            pre.unsolved_modules.contains_key(x) && pre.waiting_for_solve.spec_get(x).has(d) && d
                != module_id ==> post.unsolved_modules.contains_key(x)
                && post.waiting_for_solve.spec_get(x).has(d)
    })
    &&& post.can_problems == pre.can_problems
    &&& post.headers_parsed == pre.headers_parsed
    &&& post.loading_started == pre.loading_started
    &&& post.constrained_ident_ids == pre.constrained_ident_ids
    &&& post.declarations_by_id == pre.declarations_by_id
    &&& post.exposed_symbols_by_module == pre.exposed_symbols_by_module
    &&& post.unparsed_modules == pre.unparsed_modules
    &&& post.waiting_for_headers == pre.waiting_for_headers
    &&& post.header_listeners == pre.header_listeners
    &&& post.module_ids == pre.module_ids
    &&& post.ident_ids_by_module == pre.ident_ids_by_module
    &&& post.root_id == pre.root_id
    &&& post.src_dir == pre.src_dir
    &&& post.stdlib_mode == pre.stdlib_mode
}

/// Processes `Msg::Solved`: collects the type errors; for the root, hands
/// back the finished load; for any other module, publishes its types and
/// releases every dependent that was only waiting for it.
fn update_solved(
    state: &mut State,
    src: String,
    module_id: ModuleId,
    solved_module: SolvedModule,
    solved_subs: crate::msg::Solved,
) -> (r: (Vec<BuildTask>, Option<FinishedLoad>))
    requires
        inv(*old(state)),
        msg_ok(
            *old(state),
            Msg::Solved { src, module_id, solved_module, solved_subs },
        ),
    ensures
        inv(*final(state)),
        tasks_ok(*final(state), r.0@),
        solved_post(
            *old(state),
            *final(state),
            module_id,
            solved_module,
            solved_subs,
            src,
            r.0@,
            r.1,
        ),
{
    let ghost pre = *state;
    let SolvedModule { problems, exposed_vars_by_symbol, solved_types, aliases } = solved_module;
    let mut incoming = problems;
    state.type_problems.append(&mut incoming);

    let mut tasks: Vec<BuildTask> = Vec::new();
    if module_id == state.root_id {
        let finished = FinishedLoad { solved: solved_subs, exposed_vars_by_symbol, src };
        return (tasks, Some(finished));
    }
    state.exposed_types.insert(
        module_id,
        ExposedModuleTypes::Valid { solved_types, aliases },
    );
    let ghost snap = *state;
    proof {
        assert forall|x: ModuleId|
            pre.unsolved_modules.contains_key(x) && (forall|d: ModuleId|
                pre.waiting_for_solve.spec_get(x).has(d) ==> d
                    == module_id) implies state.solve_listeners.contains_key(module_id)
            && state.solve_listeners.spec_get(module_id)@.contains(x) by {
            assert(crate::state::solve_barrier_at(pre, x));
            let w = pre.waiting_for_solve.spec_get(x);
            assert(w.has(w.elems@[0]));
            assert(w.elems@[0] == module_id);
            assert(w.has(module_id));
        }
    }

    // Notify every module that was waiting for this one to be solved.
    while state.solve_listeners.contains(module_id)
        invariant
            inv_containers(*state),
            inv_phases(*state),
            inv_header_barrier(*state),
            inv_header_listeners(*state),
            forall|d2: ModuleId|
                #[trigger] state.solve_listeners.contains_key(d2)
                    ==> crate::state::solve_listeners_at(*state, d2),
            // relaxed solve barrier: a parked module may still wait on
            // `module_id` while its notification is pending
            forall|m: ModuleId|
                #[trigger] state.unsolved_modules.contains_key(m) ==> {
                    &&& state.waiting_for_solve.contains_key(m)
                    &&& state.constrained_ident_ids.contains_key(m)
                    &&& state.waiting_for_solve.spec_get(m).spec_len() > 0
                    &&& forall|d: ModuleId|
                        #[trigger] state.waiting_for_solve.spec_get(m).has(d)
                            ==> state.solve_listeners.contains_key(d)
                            && state.solve_listeners.spec_get(d)@.contains(m) && (d != module_id
                            ==> !state.exposed_types.contains_key(d))
                    &&& forall|d: ModuleId|
                        #[trigger] state.unsolved_modules.spec_get(m).imported_modules.has(d)
                            ==> state.exposed_types.contains_key(d)
                            || state.waiting_for_solve.spec_get(m).has(d)
                },
            // accumulated tasks stay valid
            forall|i: int| 0 <= i < tasks@.len() ==> task_ok(*state, #[trigger] tasks@[i]),
            forall|i: int, j: int|
                0 <= i < j < tasks@.len() ==> task_distinct_pair(
                    #[trigger] tasks@[i],
                    #[trigger] tasks@[j],
                ),
            // what the loop never touches
            state.exposed_types == snap.exposed_types,
            state.exposed_types.contains_key(module_id),
            state.can_problems == snap.can_problems,
            state.type_problems == snap.type_problems,
            state.constrained_ident_ids == snap.constrained_ident_ids,
            state.declarations_by_id == snap.declarations_by_id,
            state.headers_parsed == snap.headers_parsed,
            state.loading_started == snap.loading_started,
            state.exposed_symbols_by_module == snap.exposed_symbols_by_module,
            state.unparsed_modules == snap.unparsed_modules,
            state.waiting_for_headers == snap.waiting_for_headers,
            state.header_listeners == snap.header_listeners,
            state.module_ids == snap.module_ids,
            state.ident_ids_by_module == snap.ident_ids_by_module,
            state.root_id == snap.root_id,
            state.src_dir == snap.src_dir,
            state.stdlib_mode == snap.stdlib_mode,
            forall|x: ModuleId|
                state.unsolved_modules.contains_key(x) ==> pre.unsolved_modules.contains_key(x),
            forall|x: ModuleId|
                state.waiting_for_solve.contains_key(x) <==> pre.waiting_for_solve.contains_key(
                    x,
                ),
            forall|x: ModuleId|
                pre.waiting_for_solve.contains_key(x) && !pre.unsolved_modules.contains_key(x)
                    ==> state.waiting_for_solve.spec_get(x) == pre.waiting_for_solve.spec_get(x),
            forall|x: ModuleId|
                pre.unsolved_modules.contains_key(x) && (forall|d: ModuleId|
                    pre.waiting_for_solve.spec_get(x).has(d) ==> d == module_id) ==> (
                state.solve_listeners.contains_key(module_id)
                    && state.solve_listeners.spec_get(module_id)@.contains(x)) || (has_solve_task(
                    tasks@,
                    x,
                ) && !state.unsolved_modules.contains_key(x)),
            forall|x: ModuleId, d: ModuleId|
                pre.unsolved_modules.contains_key(x) && pre.waiting_for_solve.spec_get(x).has(d)
                    && d != module_id ==> state.unsolved_modules.contains_key(x)
                    && state.waiting_for_solve.spec_get(x).has(d),
            forall|x: ModuleId, d: ModuleId|
                pre.waiting_for_solve.contains_key(x) && state.waiting_for_solve.spec_get(x).has(
                    d,
                ) ==> pre.waiting_for_solve.spec_get(x).has(d),
        decreases pending_in(state.solve_listeners, module_id),
    {
        let ghost st0 = *state;
        let ghost tasks0 = tasks@;
        let mut pending = match state.solve_listeners.remove(module_id) {
            Some(l) => l,
            None => Vec::new(),
        };
        let ghost pending0 = pending@;
        if pending.len() == 0 {
            // An empty entry carries no listeners; drop it.
            proof {
                assert forall|m: ModuleId, d: ModuleId|
                    state.unsolved_modules.contains_key(m) && #[trigger] state.waiting_for_solve.spec_get(
                        m,
                    ).has(d) implies #[trigger] state.solve_listeners.contains_key(d)
                    && state.solve_listeners.spec_get(d)@.contains(m) && (d != module_id
                    ==> !state.exposed_types.contains_key(d)) by {
                    assert(st0.unsolved_modules.contains_key(m));
                    assert(st0.waiting_for_solve.spec_get(m).has(d));
                    if d == module_id {
                        assert(st0.solve_listeners.spec_get(module_id)@.contains(m));
                        assert(false);
                    } else {
                        assert(state.solve_listeners.spec_get(d) == st0.solve_listeners.spec_get(
                            d,
                        ));
                    }
                }
                assert forall|x: ModuleId|
                    pre.unsolved_modules.contains_key(x) && (forall|d: ModuleId|
                        pre.waiting_for_solve.spec_get(x).has(d) ==> d == module_id) implies (
                    state.solve_listeners.contains_key(module_id)
                        && state.solve_listeners.spec_get(module_id)@.contains(x)) || (
                    has_solve_task(tasks@, x) && !state.unsolved_modules.contains_key(x)) by {
                    if st0.solve_listeners.contains_key(module_id)
                        && st0.solve_listeners.spec_get(module_id)@.contains(x) {
                        assert(pending0.contains(x));
                        let k = choose|k: int| 0 <= k < pending0.len() && pending0[k] == x;
                        assert(false);
                    }
                }
            }
        } else {
            proof {
                crate::collections::lemma_remove_distinct(pending0, 0);
            }
            let listener_id = pending.remove(0);
            if pending.len() > 0 {
                state.solve_listeners.insert(module_id, pending);
            }
            proof {
                assert(crate::state::solve_listeners_at(st0, module_id));
                assert(st0.unsolved_modules.contains_key(listener_id));
                assert(st0.waiting_for_solve.spec_get(listener_id).has(module_id));
                assert forall|d2: ModuleId| #[trigger]
                    state.solve_listeners.contains_key(
                        d2,
                    ) implies crate::state::solve_listeners_at(*state, d2) by {
                    if d2 == module_id {
                        assert(state.solve_listeners.spec_get(d2)@ == pending0.remove(0));
                        assert forall|k: int|
                            0 <= k < state.solve_listeners.spec_get(d2)@.len() implies {
                            &&& state.unsolved_modules.contains_key(
                                #[trigger] state.solve_listeners.spec_get(d2)@[k],
                            )
                            &&& state.waiting_for_solve.contains_key(
                                state.solve_listeners.spec_get(d2)@[k],
                            )
                            &&& state.waiting_for_solve.spec_get(
                                state.solve_listeners.spec_get(d2)@[k],
                            ).has(d2)
                        } by {
                            assert(state.solve_listeners.spec_get(d2)@[k] == pending0[k + 1]);
                        }
                    } else {
                        assert(st0.solve_listeners.contains_key(d2));
                        assert(state.solve_listeners.spec_get(d2) == st0.solve_listeners.spec_get(
                            d2,
                        ));
                        assert(crate::state::solve_listeners_at(st0, d2));
                    }
                }
            }
            // This listener no longer waits for `module_id`.
            let mut waiting = match state.waiting_for_solve.remove(listener_id) {
                Some(w) => w,
                None => ModuleIdSet::new(),
            };
            waiting.remove(module_id);
            if waiting.is_empty() {
                // Released: every dependency it waited on is published.
                state.waiting_for_solve.insert(listener_id, waiting);
                let unsolved_opt = state.unsolved_modules.remove(listener_id);
                let parked = match unsolved_opt {
                    Some(p) => p,
                    None => {
                        // The listener invariant put it behind the barrier;
                        // this branch cannot be reached.
                        UnsolvedModule {
                            module: crate::msg::Module {
                                module_id: listener_id,
                                exposed_vars_by_symbol: Vec::new(),
                                references: ModuleIdSet::new(),
                                aliases: crate::msg::Aliases(0),
                                rigid_variables: Vec::new(),
                            },
                            src: String::new(),
                            imported_modules: ModuleIdSet::new(),
                            constraint: crate::msg::Constraint(0),
                            var_store: crate::msg::VarStore(0),
                        }
                    },
                };
                let UnsolvedModule {
                    module,
                    src: parked_src,
                    imported_modules,
                    constraint,
                    var_store,
                } = parked;
                proof {
                    assert forall|d: ModuleId| #[trigger]
                        imported_modules.has(d) implies state.exposed_types.contains_key(d) by {
                        assert(st0.unsolved_modules.spec_get(listener_id).imported_modules.has(d));
                        if !state.exposed_types.contains_key(d) {
                            assert(st0.waiting_for_solve.spec_get(listener_id).has(d));
                            assert(d != module_id);
                        }
                    }
                }
                let imports = pre_constrain_imports(
                    &module.references,
                    &imported_modules,
                    &state.exposed_types,
                );
                let ghost mid = module.module_id;
                tasks.push(
                    BuildTask::Solve {
                        module,
                        src: parked_src,
                        constraint,
                        var_store,
                        imported_modules,
                        imports,
                        mode: state.stdlib_mode,
                    },
                );
                proof {
                    assert(mid == listener_id);
                    assert forall|d2: ModuleId| #[trigger]
                        state.solve_listeners.contains_key(
                            d2,
                        ) implies crate::state::solve_listeners_at(*state, d2) by {
                        assert forall|k: int|
                            0 <= k < state.solve_listeners.spec_get(d2)@.len() implies {
                            &&& state.unsolved_modules.contains_key(
                                #[trigger] state.solve_listeners.spec_get(d2)@[k],
                            )
                            &&& state.waiting_for_solve.contains_key(
                                state.solve_listeners.spec_get(d2)@[k],
                            )
                            &&& state.waiting_for_solve.spec_get(
                                state.solve_listeners.spec_get(d2)@[k],
                            ).has(d2)
                        } by {
                            let member = state.solve_listeners.spec_get(d2)@[k];
                            if member == listener_id {
                                // The released module cannot still be
                                // registered anywhere: it waited only on
                                // `module_id`, whose entry no longer lists
                                // it.
                                assert(st0.waiting_for_solve.spec_get(listener_id).has(d2));
                                assert(d2 == module_id);
                                if state.solve_listeners.contains_key(module_id) {
                                    assert(state.solve_listeners.spec_get(module_id)@
                                        == pending0.remove(0));
                                    assert(pending0[k + 1] == listener_id);
                                    assert(pending0[0] == listener_id);
                                    assert(false);
                                }
                            }
                        }
                    }
                }
            } else {
                state.waiting_for_solve.insert(listener_id, waiting);
            }
            proof {
                assert forall|x: ModuleId, d: ModuleId|
                    pre.waiting_for_solve.contains_key(x) && state.waiting_for_solve.spec_get(
                        x,
                    ).has(d) implies pre.waiting_for_solve.spec_get(x).has(d) by {
                    if x != listener_id {
                        assert(state.waiting_for_solve.spec_get(x) == st0.waiting_for_solve.spec_get(
                            x,
                        ));
                    }
                }
                assert forall|x: ModuleId, d: ModuleId|
                    pre.unsolved_modules.contains_key(x) && pre.waiting_for_solve.spec_get(x).has(
                        d,
                    ) && d != module_id implies state.unsolved_modules.contains_key(x)
                    && state.waiting_for_solve.spec_get(x).has(d) by {
                    assert(st0.unsolved_modules.contains_key(x));
                    assert(st0.waiting_for_solve.spec_get(x).has(d));
                    if x != listener_id {
                        assert(state.waiting_for_solve.spec_get(x) == st0.waiting_for_solve.spec_get(
                            x,
                        ));
                    }
                }
                assert forall|x: ModuleId|
                    pre.unsolved_modules.contains_key(x) && (forall|d: ModuleId|
                        pre.waiting_for_solve.spec_get(x).has(d) ==> d == module_id) implies (
                    state.solve_listeners.contains_key(module_id)
                        && state.solve_listeners.spec_get(module_id)@.contains(x)) || (
                    has_solve_task(tasks@, x) && !state.unsolved_modules.contains_key(x)) by {
                    if x == listener_id {
                        if state.unsolved_modules.contains_key(listener_id) {
                            // still parked: it waits on something other
                            // than the module just solved, so it was no
                            // lone waiter
                            let w2 = state.waiting_for_solve.spec_get(listener_id);
                            assert(w2.has(w2.elems@[0]));
                            assert(w2.elems@[0] != module_id);
                            assert(pre.waiting_for_solve.spec_get(listener_id).has(
                                w2.elems@[0],
                            ));
                            assert(false);
                        } else {
                            assert(is_solve_for(tasks@[tasks@.len() - 1], listener_id));
                        }
                    } else {
                        if st0.solve_listeners.contains_key(module_id)
                            && st0.solve_listeners.spec_get(module_id)@.contains(x) {
                            assert(pending0[0] == listener_id);
                            assert(pending0.remove(0).contains(x));
                            assert(state.solve_listeners.contains_key(module_id));
                            assert(state.solve_listeners.spec_get(module_id)@.contains(x));
                        } else {
                            assert(has_solve_task(tasks0, x)
                                && !st0.unsolved_modules.contains_key(x));
                            let i = choose|i: int|
                                0 <= i < tasks0.len() && is_solve_for(#[trigger] tasks0[i], x);
                            assert(is_solve_for(tasks@[i], x));
                        }
                    }
                }
            }
        }
    }
    proof {
        assert(crate::state::inv_solve_barrier(*state)) by {
            assert forall|m: ModuleId| #[trigger]
                state.unsolved_modules.contains_key(m) implies crate::state::solve_barrier_at(
                *state,
                m,
            ) by {
                assert forall|d: ModuleId| #[trigger]
                    state.waiting_for_solve.spec_get(m).has(
                        d,
                    ) implies !state.exposed_types.contains_key(d)
                    && state.solve_listeners.contains_key(d) && state.solve_listeners.spec_get(
                    d,
                )@.contains(m) by {
                    assert(d != module_id);
                }
            }
        }
    }
    (tasks, None)
}

/// Whether some task in `tasks` loads the module named `n`.
pub open spec fn has_load_task(tasks: Seq<BuildTask>, n: Seq<char>) -> bool {
    exists|i: int| 0 <= i < tasks.len() && is_load_for(#[trigger] tasks[i], n)
}

/// Whether some task in `tasks` parses and constrains module `m`.
pub open spec fn has_pnc_task(tasks: Seq<BuildTask>, m: ModuleId) -> bool {
    exists|i: int| 0 <= i < tasks.len() && is_pnc_for(#[trigger] tasks[i], m)
}

/// Whether some task in `tasks` solves module `m`.
pub open spec fn has_solve_task(tasks: Seq<BuildTask>, m: ModuleId) -> bool {
    exists|i: int| 0 <= i < tasks.len() && is_solve_for(#[trigger] tasks[i], m)
}

/// Whether every dependency of header `h` has its header processed in `s`.
pub open spec fn all_deps_parsed(s: State, h: ModuleHeader) -> bool {
    forall|n: Seq<char>|
        #[trigger] h.deps_by_name.has_name(n) ==> s.headers_parsed.has(h.deps_by_name.spec_get(n))
}

/// Whenever `tasks` parses and constrains the module of header `h`, the
/// task carries exactly the symbols `h` exposes.
pub open spec fn pnc_symbols_match(tasks: Seq<BuildTask>, h: ModuleHeader) -> bool {
    forall|i: int|
        0 <= i < tasks.len() && is_pnc_for(#[trigger] tasks[i], h.module_id) ==> forall|
            x: crate::ids::Symbol,
        |
            (#[trigger] tasks[i]->ParseAndConstrain_exposed_symbols.has(x)) <==> h.exposes@.contains(
                x,
            )
}

/// What processing `Header(h)` does to the state: `h`'s module counts as
/// parsed; every not-yet-started dependency is marked started and gets a
/// load task; dependents that only waited for `h` are released as
/// parse-and-constrain tasks; and `h`'s module itself either goes straight
/// to a parse-and-constrain task (all dependency headers already in) or
/// parks behind the header barrier.
pub open spec fn header_post(
    pre: State,
    post: State,
    h: ModuleHeader,
    tasks: Seq<BuildTask>,
) -> bool {
    &&& forall|x: ModuleId| post.headers_parsed.has(x) <==> pre.headers_parsed.has(x) || x == h.module_id
    &&& forall|x: ModuleId|
        post.loading_started.has(x) <==> pre.loading_started.has(x) || h.imported_modules.has(x)
    &&& forall|n: Seq<char>|
        #[trigger] h.deps_by_name.has_name(n) && !pre.loading_started.has(
            h.deps_by_name.spec_get(n),
        ) ==> has_load_task(tasks, n)
    &&& forall|i: int|
        0 <= i < tasks.len() && (#[trigger] tasks[i]) is LoadModule ==> h.deps_by_name.has_name(
            tasks[i]->LoadModule_module_name@,
        ) && !pre.loading_started.has(
            h.deps_by_name.spec_get(tasks[i]->LoadModule_module_name@),
        )
    &&& (all_deps_parsed(post, h) ==> has_pnc_task(tasks, h.module_id)
        && !post.unparsed_modules.contains_key(h.module_id)
        && !post.exposed_symbols_by_module.contains_key(h.module_id)
        && post.waiting_for_solve.contains_key(h.module_id))
    &&& (!all_deps_parsed(post, h) ==> post.unparsed_modules.contains_key(h.module_id)
        && post.unparsed_modules.spec_get(h.module_id) == h
        && post.exposed_symbols_by_module.contains_key(h.module_id) && (forall|
        x: crate::ids::Symbol,
    |
        post.exposed_symbols_by_module.spec_get(h.module_id).has(x) <==> h.exposes@.contains(x))
        && !has_pnc_task(tasks, h.module_id))
    &&& pnc_symbols_match(tasks, h)
    &&& post.can_problems == pre.can_problems
    &&& post.type_problems == pre.type_problems
    &&& post.exposed_types == pre.exposed_types
    &&& post.declarations_by_id == pre.declarations_by_id
    &&& post.constrained_ident_ids == pre.constrained_ident_ids
    &&& post.unsolved_modules == pre.unsolved_modules
    &&& post.solve_listeners == pre.solve_listeners
    &&& post.module_ids == pre.module_ids
    &&& post.ident_ids_by_module == pre.ident_ids_by_module
    &&& post.root_id == pre.root_id
    &&& post.src_dir == pre.src_dir
    &&& post.stdlib_mode == pre.stdlib_mode
    &&& forall|x: ModuleId|
        pre.waiting_for_solve.contains_key(x) ==> post.waiting_for_solve.contains_key(x)
    &&& forall|x: ModuleId|
        pre.waiting_for_solve.contains_key(x) && x != h.module_id
            && !pre.unparsed_modules.contains_key(x) ==> post.waiting_for_solve.spec_get(x)
            == pre.waiting_for_solve.spec_get(x)
    &&& forall|x: ModuleId|
        post.exposed_symbols_by_module.contains_key(x) ==> pre.exposed_symbols_by_module.contains_key(
            x,
        ) || x == h.module_id
    &&& forall|x: ModuleId|
        post.unparsed_modules.contains_key(x) ==> pre.unparsed_modules.contains_key(x) || x
            == h.module_id
    // a dependent that was only waiting for this header is released with
    // its parse-and-constrain task; one waiting for more stays parked
    &&& forall|x: ModuleId|
        pre.unparsed_modules.contains_key(x) && (forall|d: ModuleId|
            pre.waiting_for_headers.spec_get(x).has(d) ==> d == h.module_id) ==> has_pnc_task(
            tasks,
            x,
        ) && !post.unparsed_modules.contains_key(x)
    &&& forall|x: ModuleId, d: ModuleId|
        pre.unparsed_modules.contains_key(x) && pre.waiting_for_headers.spec_get(x).has(d) && d
            != h.module_id ==> post.unparsed_modules.contains_key(x)
            && post.waiting_for_headers.spec_get(x).has(d)
}

/// Processes `Msg::Header`: records the header's arrival, releases the
/// dependents that only waited for it, starts loading its unseen
/// dependencies, and sends the module itself onward or parks it.
#[verifier::rlimit(100)]
fn update_header(state: &mut State, header: ModuleHeader) -> (tasks: Vec<BuildTask>)
    requires
        inv(*old(state)),
        msg_ok(*old(state), Msg::Header(header)),
    ensures
        inv(*final(state)),
        tasks_ok(*final(state), tasks@),
        header_post(*old(state), *final(state), header, tasks@),
{
    let ghost pre = *state;
    let home = header.module_id;
    let mut tasks: Vec<BuildTask> = Vec::new();

    state.headers_parsed.insert(home);

    // The dependencies whose headers have not arrived yet.
    let mut headers_needed = ModuleIdSet::new();
    let ndeps = header.deps_by_name.len();
    let mut k: usize = 0;
    while k < ndeps
        invariant
            0 <= k <= ndeps,
            ndeps == header.deps_by_name.spec_len(),
            header_wf(header),
            header.deps_by_name.wf(),
            state.headers_parsed.wf(),
            headers_needed.wf(),
            forall|x: ModuleId|
                headers_needed.has(x) ==> header.imported_modules.has(x)
                    && !state.headers_parsed.has(x),
            forall|j: int|
                0 <= j < k ==> state.headers_parsed.has(
                    #[trigger] header.deps_by_name.vals@[j],
                ) || headers_needed.has(header.deps_by_name.vals@[j]),
        decreases ndeps - k,
    {
        let dep_id = *header.deps_by_name.val_at(k);
        if !state.headers_parsed.contains(dep_id) {
            headers_needed.insert(dep_id);
        }
        k += 1;
    }
    proof {
        assert forall|n: Seq<char>| #[trigger]
            header.deps_by_name.has_name(n) implies state.headers_parsed.has(
            header.deps_by_name.spec_get(n),
        ) || headers_needed.has(header.deps_by_name.spec_get(n)) by {
            let j = choose|j: int|
                0 <= j < header.deps_by_name.keys@.len() && header.deps_by_name.keys@[j]@ == n;
            header.deps_by_name.lemma_name_idx(n, j);
            assert(state.headers_parsed.has(header.deps_by_name.vals@[j])
                || headers_needed.has(header.deps_by_name.vals@[j]));
        }
    }

    let exposed_symbols = symbols_of(&header.exposes);
    state.exposed_symbols_by_module.insert(home, exposed_symbols);

    let ghost snap = *state;
    proof {
        assert forall|x: ModuleId|
            pre.unparsed_modules.contains_key(x) && (forall|d: ModuleId|
                pre.waiting_for_headers.spec_get(x).has(d) ==> d
                    == home) implies state.header_listeners.contains_key(home)
            && state.header_listeners.spec_get(home)@.contains(x) by {
            assert(crate::state::header_barrier_at(pre, x));
            let w = pre.waiting_for_headers.spec_get(x);
            assert(w.has(w.elems@[0]));
            assert(w.elems@[0] == home);
            assert(w.has(home));
        }
    }

    // Notify every module that was waiting for this header.
    while state.header_listeners.contains(home)
        invariant
            inv_containers(*state),
            inv_phases(*state),
            inv_solve_barrier(*state),
            inv_solve_listeners(*state),
            header_wf(header),
            home == header.module_id,
            !pre.headers_parsed.has(home),
            state.headers_parsed.has(home),
            !pre.unparsed_modules.contains_key(home),
            !state.unparsed_modules.contains_key(home),
            !pre.waiting_for_solve.contains_key(home),
            state.exposed_symbols_by_module.contains_key(home),
            forall|x: crate::ids::Symbol|
                state.exposed_symbols_by_module.spec_get(home).has(x) <==> header.exposes@.contains(
                    x,
                ),
            forall|d2: ModuleId|
                #[trigger] state.header_listeners.contains_key(d2)
                    ==> crate::state::header_listeners_at(*state, d2),
            // relaxed header barrier: a parked module may still wait on
            // `home` while its notification is pending
            forall|m: ModuleId|
                #[trigger] state.unparsed_modules.contains_key(m) ==> {
                    &&& state.headers_parsed.has(m)
                    &&& state.exposed_symbols_by_module.contains_key(m)
                    &&& !state.waiting_for_solve.contains_key(m)
                    &&& state.waiting_for_headers.spec_get(m).spec_len() > 0
                    &&& forall|d: ModuleId|
                        #[trigger] state.waiting_for_headers.spec_get(m).has(d)
                            ==> state.header_listeners.contains_key(d)
                            && state.header_listeners.spec_get(d)@.contains(m) && (d != home
                            ==> !state.headers_parsed.has(d))
                    &&& forall|n: Seq<char>|
                        #[trigger] state.unparsed_modules.spec_get(m).deps_by_name.has_name(n)
                            ==> state.headers_parsed.has(
                            state.unparsed_modules.spec_get(m).deps_by_name.spec_get(n),
                        ) || state.waiting_for_headers.spec_get(m).has(
                            state.unparsed_modules.spec_get(m).deps_by_name.spec_get(n),
                        )
                },
            forall|m: ModuleId|
                state.unparsed_modules.contains_key(m) <==> state.waiting_for_headers.contains_key(
                    m,
                ),
            // accumulated tasks stay valid
            forall|i: int| 0 <= i < tasks@.len() ==> task_ok(*state, #[trigger] tasks@[i]),
            forall|i: int, j: int|
                0 <= i < j < tasks@.len() ==> task_distinct_pair(
                    #[trigger] tasks@[i],
                    #[trigger] tasks@[j],
                ),
            forall|i: int|
                0 <= i < tasks@.len() ==> (#[trigger] tasks@[i]) is ParseAndConstrain
                    && tasks@[i]->ParseAndConstrain_header.module_id != home,
            forall|x: ModuleId|
                state.waiting_for_solve.contains_key(x) ==> pre.waiting_for_solve.contains_key(x)
                    || pre.unparsed_modules.contains_key(x),
            // what the loop never touches
            state.headers_parsed == snap.headers_parsed,
            state.loading_started == snap.loading_started,
            state.exposed_types == snap.exposed_types,
            state.can_problems == snap.can_problems,
            state.type_problems == snap.type_problems,
            state.constrained_ident_ids == snap.constrained_ident_ids,
            state.declarations_by_id == snap.declarations_by_id,
            state.unsolved_modules == snap.unsolved_modules,
            state.solve_listeners == snap.solve_listeners,
            state.module_ids == snap.module_ids,
            state.ident_ids_by_module == snap.ident_ids_by_module,
            state.root_id == snap.root_id,
            state.src_dir == snap.src_dir,
            state.stdlib_mode == snap.stdlib_mode,
            forall|x: ModuleId|
                state.unparsed_modules.contains_key(x) ==> pre.unparsed_modules.contains_key(x),
            forall|x: ModuleId|
                state.exposed_symbols_by_module.contains_key(x)
                    ==> pre.exposed_symbols_by_module.contains_key(x) || x == home,
            forall|x: ModuleId|
                pre.waiting_for_solve.contains_key(x) ==> state.waiting_for_solve.contains_key(x),
            forall|x: ModuleId|
                pre.waiting_for_solve.contains_key(x) && !pre.unparsed_modules.contains_key(x)
                    ==> state.waiting_for_solve.spec_get(x) == pre.waiting_for_solve.spec_get(x),
            forall|x: ModuleId|
                pre.unparsed_modules.contains_key(x) && (forall|d: ModuleId|
                    pre.waiting_for_headers.spec_get(x).has(d) ==> d == home) ==> (
                state.header_listeners.contains_key(home)
                    && state.header_listeners.spec_get(home)@.contains(x)) || (has_pnc_task(
                    tasks@,
                    x,
                ) && !state.unparsed_modules.contains_key(x)),
            forall|x: ModuleId, d: ModuleId|
                pre.unparsed_modules.contains_key(x) && pre.waiting_for_headers.spec_get(x).has(
                    d,
                ) && d != home ==> state.unparsed_modules.contains_key(x)
                    && state.waiting_for_headers.spec_get(x).has(d),
            forall|x: ModuleId|
                state.waiting_for_headers.contains_key(x) ==> pre.waiting_for_headers.contains_key(
                    x,
                ),
            forall|x: ModuleId, d: ModuleId|
                pre.waiting_for_headers.contains_key(x) && state.waiting_for_headers.contains_key(
                    x,
                ) && state.waiting_for_headers.spec_get(x).has(d)
                    ==> pre.waiting_for_headers.spec_get(x).has(d),
        decreases pending_in(state.header_listeners, home),
    {
        let ghost st0 = *state;
        let ghost tasks_st0 = tasks@;
        let mut pending = match state.header_listeners.remove(home) {
            Some(l) => l,
            None => Vec::new(),
        };
        let ghost pending0 = pending@;
        if pending.len() == 0 {
            // An empty entry carries no listeners; drop it.
            proof {
                assert forall|m: ModuleId, d: ModuleId|
                    state.unparsed_modules.contains_key(m)
                        && #[trigger] state.waiting_for_headers.spec_get(m).has(
                        d,
                    ) implies #[trigger] state.header_listeners.contains_key(d)
                    && state.header_listeners.spec_get(d)@.contains(m) && (d != home
                    ==> !state.headers_parsed.has(d)) by {
                    assert(st0.unparsed_modules.contains_key(m));
                    assert(st0.waiting_for_headers.spec_get(m).has(d));
                    if d == home {
                        assert(st0.header_listeners.spec_get(home)@.contains(m));
                        assert(false);
                    } else {
                        assert(state.header_listeners.spec_get(d) == st0.header_listeners.spec_get(
                            d,
                        ));
                    }
                }
                assert forall|x: ModuleId|
                    pre.unparsed_modules.contains_key(x) && (forall|d: ModuleId|
                        pre.waiting_for_headers.spec_get(x).has(d) ==> d == home) implies (
                    state.header_listeners.contains_key(home)
                        && state.header_listeners.spec_get(home)@.contains(x)) || (has_pnc_task(
                        tasks@,
                        x,
                    ) && !state.unparsed_modules.contains_key(x)) by {
                    if st0.header_listeners.contains_key(home)
                        && st0.header_listeners.spec_get(home)@.contains(x) {
                        assert(pending0.contains(x));
                        let k = choose|k: int| 0 <= k < pending0.len() && pending0[k] == x;
                        assert(false);
                    }
                }
            }
        } else {
            proof {
                crate::collections::lemma_remove_distinct(pending0, 0);
            }
            let listener_id = pending.remove(0);
            if pending.len() > 0 {
                state.header_listeners.insert(home, pending);
            }
            proof {
                assert(crate::state::header_listeners_at(st0, home));
                assert(st0.unparsed_modules.contains_key(listener_id));
                assert(st0.waiting_for_headers.spec_get(listener_id).has(home));
                assert forall|d2: ModuleId| #[trigger]
                    state.header_listeners.contains_key(
                        d2,
                    ) implies crate::state::header_listeners_at(*state, d2) by {
                    if d2 == home {
                        assert(state.header_listeners.spec_get(d2)@ == pending0.remove(0));
                        assert forall|j: int|
                            0 <= j < state.header_listeners.spec_get(d2)@.len() implies {
                            &&& state.unparsed_modules.contains_key(
                                #[trigger] state.header_listeners.spec_get(d2)@[j],
                            )
                            &&& state.waiting_for_headers.contains_key(
                                state.header_listeners.spec_get(d2)@[j],
                            )
                            &&& state.waiting_for_headers.spec_get(
                                state.header_listeners.spec_get(d2)@[j],
                            ).has(d2)
                        } by {
                            assert(state.header_listeners.spec_get(d2)@[j] == pending0[j + 1]);
                        }
                    } else {
                        assert(st0.header_listeners.contains_key(d2));
                        assert(state.header_listeners.spec_get(d2)
                            == st0.header_listeners.spec_get(d2));
                        assert(crate::state::header_listeners_at(st0, d2));
                    }
                }
            }
            // This listener no longer waits for `home`'s header.
            let mut waiting = match state.waiting_for_headers.remove(listener_id) {
                Some(w) => w,
                None => ModuleIdSet::new(),
            };
            waiting.remove(home);
            if waiting.is_empty() {
                // Released: all its dependency headers have arrived, so it
                // can be parsed and constrained.
                let parked_opt = state.unparsed_modules.remove(listener_id);
                let parked_header = match parked_opt {
                    Some(p) => p,
                    None => {
                        // The listener invariant parked it; this branch
                        // cannot be reached.
                        header_placeholder(listener_id)
                    },
                };
                let exp_opt = state.exposed_symbols_by_module.remove(listener_id);
                let exp_syms = match exp_opt {
                    Some(e) => e,
                    None => crate::collections::SymbolSet { elems: Vec::new() },
                };
                proof {
                    assert forall|n: Seq<char>| #[trigger]
                        parked_header.deps_by_name.has_name(n) implies state.headers_parsed.has(
                        parked_header.deps_by_name.spec_get(n),
                    ) by {
                        let dd = parked_header.deps_by_name.spec_get(n);
                        assert(st0.unparsed_modules.spec_get(listener_id) == parked_header);
                        if !st0.headers_parsed.has(dd) {
                            assert(st0.waiting_for_headers.spec_get(listener_id).has(dd));
                            assert(dd == home);
                        }
                    }
                    assert forall|n: Seq<char>| #[trigger]
                        parked_header.deps_by_name.has_name(
                            n,
                        ) implies state.ident_ids_by_module.contains_key(
                        parked_header.deps_by_name.spec_get(n),
                    ) by {
                        assert(state.headers_parsed.has(parked_header.deps_by_name.spec_get(n)));
                    }
                }
                let mode = state.stdlib_mode;
                let ghost tasks_before = tasks@;
                let ghost ph = parked_header;
                let ghost ets = state.exposed_types;
                let task = build_parse_and_constrain_task(
                    parked_header,
                    mode,
                    &state.module_ids,
                    &state.ident_ids_by_module,
                    &state.exposed_types,
                    exp_syms,
                    &mut state.waiting_for_solve,
                );
                proof {
                    assert(task is ParseAndConstrain);
                    assert(task->ParseAndConstrain_header == parked_header);
                    assert(parked_header.module_id == listener_id);
                    assert(state.waiting_for_solve.contains_key(listener_id));
                    assert(state.exposed_types == ets);
                    assert(needed_set_ok(
                        state.waiting_for_solve.spec_get(listener_id),
                        ph.imported_modules,
                        state.exposed_types,
                    ));
                    assert(task_ok(*state, task));
                }
                tasks.push(task);
                proof {
                    assert forall|i: int|
                        0 <= i < tasks@.len() implies task_ok(*state, #[trigger] tasks@[i]) by {
                        if i < tasks_before.len() {
                            assert(tasks@[i] == tasks_before[i]);
                            assert(task_ok(st0, tasks_before[i]));
                            assert(tasks_before[i]->ParseAndConstrain_header.module_id
                                != listener_id);
                            assert(st0.waiting_for_solve.contains_key(
                                tasks_before[i]->ParseAndConstrain_header.module_id,
                            ));
                            assert(state.waiting_for_solve.spec_get(
                                tasks_before[i]->ParseAndConstrain_header.module_id,
                            ) == st0.waiting_for_solve.spec_get(
                                tasks_before[i]->ParseAndConstrain_header.module_id,
                            ));
                        } else {
                            assert(tasks@[i] == task);
                            assert(!state.constrained_ident_ids.contains_key(listener_id)) by {
                                if state.constrained_ident_ids.contains_key(listener_id) {
                                    assert(st0.waiting_for_solve.contains_key(listener_id));
                                }
                            }
                        }
                    }
                    assert forall|d2: ModuleId| #[trigger]
                        state.header_listeners.contains_key(
                            d2,
                        ) implies crate::state::header_listeners_at(*state, d2) by {
                        assert forall|j: int|
                            0 <= j < state.header_listeners.spec_get(d2)@.len() implies {
                            &&& state.unparsed_modules.contains_key(
                                #[trigger] state.header_listeners.spec_get(d2)@[j],
                            )
                            &&& state.waiting_for_headers.contains_key(
                                state.header_listeners.spec_get(d2)@[j],
                            )
                            &&& state.waiting_for_headers.spec_get(
                                state.header_listeners.spec_get(d2)@[j],
                            ).has(d2)
                        } by {
                            let member = state.header_listeners.spec_get(d2)@[j];
                            if member == listener_id {
                                assert(st0.waiting_for_headers.spec_get(listener_id).has(d2));
                                assert(d2 == home);
                                if state.header_listeners.contains_key(home) {
                                    assert(state.header_listeners.spec_get(home)@
                                        == pending0.remove(0));
                                    assert(pending0[j + 1] == listener_id);
                                    assert(pending0[0] == listener_id);
                                    assert(false);
                                }
                            }
                        }
                    }
                }
            } else {
                state.waiting_for_headers.insert(listener_id, waiting);
            }
            proof {
                assert forall|x: ModuleId, d: ModuleId|
                    pre.waiting_for_headers.contains_key(x)
                        && state.waiting_for_headers.contains_key(x)
                        && state.waiting_for_headers.spec_get(x).has(
                        d,
                    ) implies pre.waiting_for_headers.spec_get(x).has(d) by {
                    if x != listener_id {
                        assert(state.waiting_for_headers.spec_get(x)
                            == st0.waiting_for_headers.spec_get(x));
                    }
                }
                assert forall|x: ModuleId, d: ModuleId|
                    pre.unparsed_modules.contains_key(x) && pre.waiting_for_headers.spec_get(
                        x,
                    ).has(d) && d != home implies state.unparsed_modules.contains_key(x)
                    && state.waiting_for_headers.spec_get(x).has(d) by {
                    assert(st0.unparsed_modules.contains_key(x));
                    assert(st0.waiting_for_headers.spec_get(x).has(d));
                    if x != listener_id {
                        assert(state.waiting_for_headers.spec_get(x)
                            == st0.waiting_for_headers.spec_get(x));
                    }
                }
                assert forall|x: ModuleId|
                    pre.unparsed_modules.contains_key(x) && (forall|d: ModuleId|
                        pre.waiting_for_headers.spec_get(x).has(d) ==> d == home) implies (
                    state.header_listeners.contains_key(home)
                        && state.header_listeners.spec_get(home)@.contains(x)) || (has_pnc_task(
                        tasks@,
                        x,
                    ) && !state.unparsed_modules.contains_key(x)) by {
                    if x == listener_id {
                        if state.unparsed_modules.contains_key(listener_id) {
                            // still parked: it waits on another header, so
                            // it was no lone waiter
                            let w2 = state.waiting_for_headers.spec_get(listener_id);
                            assert(w2.has(w2.elems@[0]));
                            assert(w2.elems@[0] != home);
                            assert(st0.waiting_for_headers.contains_key(listener_id));
                            assert(st0.waiting_for_headers.spec_get(listener_id).has(
                                w2.elems@[0],
                            ));
                            assert(pre.waiting_for_headers.spec_get(listener_id).has(
                                w2.elems@[0],
                            ));
                            assert(false);
                        } else {
                            assert(is_pnc_for(tasks@[tasks@.len() - 1], listener_id));
                        }
                    } else {
                        if st0.header_listeners.contains_key(home)
                            && st0.header_listeners.spec_get(home)@.contains(x) {
                            assert(pending0[0] == listener_id);
                            assert(pending0.remove(0).contains(x));
                            assert(state.header_listeners.contains_key(home));
                            assert(state.header_listeners.spec_get(home)@.contains(x));
                        } else {
                            assert(has_pnc_task(tasks_st0, x)
                                && !st0.unparsed_modules.contains_key(x));
                            let i = choose|i: int|
                                0 <= i < tasks_st0.len() && is_pnc_for(
                                    #[trigger] tasks_st0[i],
                                    x,
                                );
                            assert(is_pnc_for(tasks@[i], x));
                        }
                    }
                }
            }
        }
    }

    // Start loading any dependency that nothing has begun loading yet.
    let ghost snap2 = *state;
    let mut k2: usize = 0;
    while k2 < ndeps
        invariant
            0 <= k2 <= ndeps,
            ndeps == header.deps_by_name.spec_len(),
            header_wf(header),
            msg_ok(pre, Msg::Header(header)),
            state.module_ids == pre.module_ids,
            inv_containers(*state),
            inv_phases(*state),
            inv_solve_barrier(*state),
            inv_solve_listeners(*state),
            inv_header_barrier(*state),
            forall|d2: ModuleId|
                #[trigger] state.header_listeners.contains_key(d2)
                    ==> crate::state::header_listeners_at(*state, d2),
            state.loading_started.wf(),
            forall|x: ModuleId|
                state.loading_started.has(x) ==> snap2.loading_started.has(x) || (exists|j: int|
                    0 <= j < k2 && #[trigger] header.deps_by_name.vals@[j] == x),
            forall|x: ModuleId| snap2.loading_started.has(x) ==> state.loading_started.has(x),
            forall|j: int|
                0 <= j < k2 ==> state.loading_started.has(
                    #[trigger] header.deps_by_name.vals@[j],
                ),
            forall|i: int| 0 <= i < tasks@.len() ==> task_ok(*state, #[trigger] tasks@[i]),
            forall|i: int, j: int|
                0 <= i < j < tasks@.len() ==> task_distinct_pair(
                    #[trigger] tasks@[i],
                    #[trigger] tasks@[j],
                ),
            forall|i: int|
                0 <= i < tasks@.len() ==> ((#[trigger] tasks@[i]) is ParseAndConstrain
                    && tasks@[i]->ParseAndConstrain_header.module_id != home) || (tasks@[i]
                    is LoadModule && header.deps_by_name.has_name(
                    tasks@[i]->LoadModule_module_name@,
                ) && !snap2.loading_started.has(
                    header.deps_by_name.spec_get(tasks@[i]->LoadModule_module_name@),
                )),
            forall|n: Seq<char>|
                #[trigger] header.deps_by_name.has_name(n) && !snap2.loading_started.has(
                    header.deps_by_name.spec_get(n),
                ) && (exists|j: int|
                    0 <= j < k2 && (#[trigger] header.deps_by_name.keys@[j])@ == n)
                    ==> has_load_task(tasks@, n),
            // everything but loading_started and tasks is untouched here
            state.headers_parsed == snap2.headers_parsed,
            state.exposed_types == snap2.exposed_types,
            state.can_problems == snap2.can_problems,
            state.type_problems == snap2.type_problems,
            state.constrained_ident_ids == snap2.constrained_ident_ids,
            state.declarations_by_id == snap2.declarations_by_id,
            state.unsolved_modules == snap2.unsolved_modules,
            state.solve_listeners == snap2.solve_listeners,
            state.unparsed_modules == snap2.unparsed_modules,
            state.waiting_for_headers == snap2.waiting_for_headers,
            state.header_listeners == snap2.header_listeners,
            state.waiting_for_solve == snap2.waiting_for_solve,
            state.exposed_symbols_by_module == snap2.exposed_symbols_by_module,
            state.ident_ids_by_module == snap2.ident_ids_by_module,
            state.root_id == snap2.root_id,
            state.src_dir == snap2.src_dir,
            state.stdlib_mode == snap2.stdlib_mode,
            forall|x: ModuleId|
                pre.unparsed_modules.contains_key(x) && (forall|d: ModuleId|
                    pre.waiting_for_headers.spec_get(x).has(d) ==> d == home) ==> has_pnc_task(
                    tasks@,
                    x,
                ) && !state.unparsed_modules.contains_key(x),
            forall|x: ModuleId, d: ModuleId|
                pre.unparsed_modules.contains_key(x) && pre.waiting_for_headers.spec_get(x).has(
                    d,
                ) && d != home ==> state.unparsed_modules.contains_key(x)
                    && state.waiting_for_headers.spec_get(x).has(d),
        decreases ndeps - k2,
    {
        let ghost st0 = *state;
        let ghost tasks0 = tasks@;
        let dep_name = header.deps_by_name.key_at(k2);
        let dep_id = *header.deps_by_name.val_at(k2);
        if !state.loading_started.contains(dep_id) {
            let dep_name_owned = dep_name.clone();
            state.loading_started.insert(dep_id);
            proof {
                assert(header.deps_by_name.has_name(dep_name_owned@));
                assert(header.deps_by_name.spec_get(dep_name_owned@) == dep_id);
                assert(state.module_ids.names@[dep_id.0 as int]@ == dep_name_owned@);
                state.module_ids.lemma_id_of(dep_name_owned@, dep_id.0 as int);
                assert(!state.headers_parsed.has(dep_id)) by {
                    if state.headers_parsed.has(dep_id) {
                        assert(st0.headers_parsed.has(dep_id));
                        assert(st0.loading_started.has(dep_id));
                    }
                }
            }
            tasks.push(BuildTask::LoadModule { module_name: dep_name_owned });
            proof {
                assert forall|i: int, j: int|
                    0 <= i < j < tasks@.len() implies task_distinct_pair(
                    #[trigger] tasks@[i],
                    #[trigger] tasks@[j],
                ) by {
                    if j == tasks@.len() - 1 && tasks@[i] is LoadModule {
                        assert(!snap2.loading_started.has(
                            header.deps_by_name.spec_get(tasks@[i]->LoadModule_module_name@),
                        ));
                        if tasks@[i]->LoadModule_module_name@
                            == tasks@[j]->LoadModule_module_name@ {
                            assert(st0.loading_started.has(dep_id));
                            assert(false);
                        }
                    }
                }
            }
        }
        proof {
            assert forall|x: ModuleId|
                pre.unparsed_modules.contains_key(x) && (forall|d: ModuleId|
                    pre.waiting_for_headers.spec_get(x).has(d) ==> d == home) implies has_pnc_task(
                tasks@,
                x,
            ) by {
                assert(has_pnc_task(tasks0, x));
                let i = choose|i: int|
                    0 <= i < tasks0.len() && is_pnc_for(#[trigger] tasks0[i], x);
                assert(is_pnc_for(tasks@[i], x));
            }
            assert(forall|x: ModuleId|
                state.loading_started.has(x) <==> st0.loading_started.has(x) || x == dep_id);
            assert forall|x: ModuleId|
                state.loading_started.has(x) implies snap2.loading_started.has(x) || (exists|
                j: int,
            |
                0 <= j < k2 + 1 && #[trigger] header.deps_by_name.vals@[j] == x) by {
                if !snap2.loading_started.has(x) {
                    if x == dep_id {
                        assert(header.deps_by_name.vals@[k2 as int] == x);
                    } else {
                        assert(st0.loading_started.has(x));
                        let j = choose|j: int|
                            0 <= j < k2 && #[trigger] header.deps_by_name.vals@[j] == x;
                        assert(0 <= j < k2 + 1 && header.deps_by_name.vals@[j] == x);
                    }
                }
            }
            assert forall|j: int|
                0 <= j < k2 + 1 implies state.loading_started.has(
                #[trigger] header.deps_by_name.vals@[j],
            ) by {
                if j < k2 {
                    assert(st0.loading_started.has(header.deps_by_name.vals@[j]));
                } else {
                    assert(header.deps_by_name.vals@[j] == dep_id);
                }
            }
            assert forall|n: Seq<char>|
                #[trigger] header.deps_by_name.has_name(n) && !snap2.loading_started.has(
                    header.deps_by_name.spec_get(n),
                ) && (exists|j: int|
                    0 <= j < k2 + 1 && (#[trigger] header.deps_by_name.keys@[j])@
                        == n) implies has_load_task(tasks@, n) by {
                let j = choose|j: int|
                    0 <= j < k2 + 1 && (#[trigger] header.deps_by_name.keys@[j])@ == n;
                if j < k2 {
                    assert(has_load_task(tasks0, n));
                    let i = choose|i: int| 0 <= i < tasks0.len() && is_load_for(tasks0[i], n);
                    assert(is_load_for(tasks@[i], n));
                } else {
                    header.deps_by_name.lemma_name_idx(n, j);
                    assert(header.deps_by_name.spec_get(n) == dep_id);
                    if st0.loading_started.has(dep_id) {
                        let jj = choose|jj: int|
                            0 <= jj < k2 && #[trigger] header.deps_by_name.vals@[jj] == dep_id;
                        header.deps_by_name.lemma_name_idx(header.deps_by_name.keys@[jj]@, jj);
                        assert(header.deps_by_name.has_name(header.deps_by_name.keys@[jj]@));
                        assert(pre.module_ids.names@[dep_id.0 as int]@
                            == header.deps_by_name.keys@[jj]@);
                        assert(header.deps_by_name.keys@[jj]@ == header.deps_by_name.keys@[j]@);
                        assert(false);
                    }
                    assert(is_load_for(tasks@[tasks@.len() - 1], n));
                }
            }
        }
        k2 += 1;
    }
    proof {
        assert forall|x: ModuleId|
            state.loading_started.has(x) <==> snap2.loading_started.has(x)
                || header.imported_modules.has(x) by {
            if header.imported_modules.has(x) {
                let n = choose|n: Seq<char>|
                    #[trigger] header.deps_by_name.has_name(n) && header.deps_by_name.spec_get(n)
                        == x;
                let j = choose|j: int|
                    0 <= j < header.deps_by_name.keys@.len() && header.deps_by_name.keys@[j]@ == n;
                header.deps_by_name.lemma_name_idx(n, j);
                assert(header.deps_by_name.vals@[j] == x);
                assert(state.loading_started.has(header.deps_by_name.vals@[j]));
            }
            if state.loading_started.has(x) && !snap2.loading_started.has(x) {
                let j = choose|j: int|
                    0 <= j < ndeps && #[trigger] header.deps_by_name.vals@[j] == x;
                header.deps_by_name.lemma_name_idx(header.deps_by_name.keys@[j]@, j);
                assert(header.deps_by_name.has_name(header.deps_by_name.keys@[j]@)
                    && header.deps_by_name.spec_get(header.deps_by_name.keys@[j]@) == x);
            }
        }
        assert forall|n: Seq<char>|
            #[trigger] header.deps_by_name.has_name(n) && !snap2.loading_started.has(
                header.deps_by_name.spec_get(n),
            ) implies has_load_task(tasks@, n) by {
            let j = choose|j: int|
                0 <= j < header.deps_by_name.keys@.len() && header.deps_by_name.keys@[j]@ == n;
            assert(0 <= j < header.deps_by_name.spec_len()
                && header.deps_by_name.keys@[j]@ == n);
        }
    }

    proof {
        assert(snap2.loading_started == pre.loading_started);
        assert(snap.loading_started == pre.loading_started);
    }
    if headers_needed.is_empty() {
        // All dependency headers are in: parse and constrain right away.
        let exp_opt = state.exposed_symbols_by_module.remove(home);
        let exp_syms = match exp_opt {
            Some(e) => e,
            None => crate::collections::SymbolSet { elems: Vec::new() },
        };
        proof {
            assert forall|n: Seq<char>| #[trigger]
                header.deps_by_name.has_name(n) implies state.headers_parsed.has(
                header.deps_by_name.spec_get(n),
            ) && state.ident_ids_by_module.contains_key(header.deps_by_name.spec_get(n)) by {
                assert(!headers_needed.has(header.deps_by_name.spec_get(n)));
            }
            assert(!state.constrained_ident_ids.contains_key(home)) by {
                if state.constrained_ident_ids.contains_key(home) {
                    assert(state.waiting_for_solve.contains_key(home));
                    assert(pre.waiting_for_solve.contains_key(home)
                        || pre.unparsed_modules.contains_key(home));
                }
            }
            assert(all_deps_parsed(*state, header));
        }
        let mode = state.stdlib_mode;
        let task = build_parse_and_constrain_task(
            header,
            mode,
            &state.module_ids,
            &state.ident_ids_by_module,
            &state.exposed_types,
            exp_syms,
            &mut state.waiting_for_solve,
        );
        let ghost tasks_d = tasks@;
        tasks.push(task);
        proof {
            assert(is_pnc_for(tasks@[tasks@.len() - 1], header.module_id));
            assert(has_pnc_task(tasks@, header.module_id));
            assert forall|x: ModuleId|
                pre.unparsed_modules.contains_key(x) && (forall|d: ModuleId|
                    pre.waiting_for_headers.spec_get(x).has(d) ==> d
                        == home) implies has_pnc_task(tasks@, x) by {
                assert(has_pnc_task(tasks_d, x));
                let i = choose|i: int|
                    0 <= i < tasks_d.len() && is_pnc_for(#[trigger] tasks_d[i], x);
                assert(is_pnc_for(tasks@[i], x));
            }
        }
        tasks
    } else {
        // Wait for the missing headers: park the header and register as a
        // listener on every one of them.
        state.unparsed_modules.insert(home, header);
        state.waiting_for_headers.insert(home, headers_needed.duplicate());
        proof {
            assert forall|x: ModuleId|
                pre.unparsed_modules.contains_key(x) implies x != home by {
                assert(crate::state::header_barrier_at(pre, x));
            }
        }
        let ghost snap3 = *state;
        let n3 = headers_needed.len();
        let mut k3: usize = 0;
        while k3 < n3
            invariant
                0 <= k3 <= n3,
                n3 == headers_needed.spec_len(),
                headers_needed.wf(),
                home == header.module_id,
                inv_containers(*state),
                inv_phases(*state),
                inv_solve_barrier(*state),
                inv_solve_listeners(*state),
                forall|x: ModuleId|
                    #[trigger] state.unparsed_modules.contains_key(x) && x != home
                        ==> crate::state::header_barrier_at(*state, x),
                forall|d2: ModuleId|
                    #[trigger] state.header_listeners.contains_key(d2)
                        ==> crate::state::header_listeners_at(*state, d2),
                forall|m: ModuleId|
                    state.unparsed_modules.contains_key(m)
                        <==> state.waiting_for_headers.contains_key(m),
                // the parked module's partial barrier
                state.unparsed_modules.contains_key(home),
                state.unparsed_modules.spec_get(home) == snap3.unparsed_modules.spec_get(home),
                state.headers_parsed.has(home),
                state.exposed_symbols_by_module.contains_key(home),
                !state.waiting_for_solve.contains_key(home),
                state.waiting_for_headers.contains_key(home),
                state.waiting_for_headers.spec_get(home).spec_len() > 0,
                forall|d: ModuleId|
                    state.waiting_for_headers.spec_get(home).has(d) <==> headers_needed.has(d),
                forall|d: ModuleId|
                    #[trigger] headers_needed.has(d) ==> !state.headers_parsed.has(d),
                forall|j: int|
                    0 <= j < k3 ==> state.header_listeners.contains_key(
                        #[trigger] headers_needed.elems@[j],
                    ) && state.header_listeners.spec_get(headers_needed.elems@[j])@.contains(home),
                forall|d: ModuleId|
                    #[trigger] state.header_listeners.contains_key(d)
                        && state.header_listeners.spec_get(d)@.contains(home) ==> exists|j: int|
                        0 <= j < k3 && headers_needed.elems@[j] == d,
                // what this loop never touches
                state.headers_parsed == snap3.headers_parsed,
                state.loading_started == snap3.loading_started,
                state.exposed_types == snap3.exposed_types,
                state.can_problems == snap3.can_problems,
                state.type_problems == snap3.type_problems,
                state.constrained_ident_ids == snap3.constrained_ident_ids,
                state.declarations_by_id == snap3.declarations_by_id,
                state.unsolved_modules == snap3.unsolved_modules,
                state.solve_listeners == snap3.solve_listeners,
                state.module_ids == snap3.module_ids,
                state.ident_ids_by_module == snap3.ident_ids_by_module,
                state.unparsed_modules == snap3.unparsed_modules,
                state.waiting_for_headers == snap3.waiting_for_headers,
                state.waiting_for_solve == snap3.waiting_for_solve,
                state.exposed_symbols_by_module == snap3.exposed_symbols_by_module,
                state.root_id == snap3.root_id,
                state.src_dir == snap3.src_dir,
                state.stdlib_mode == snap3.stdlib_mode,
                forall|i: int| 0 <= i < tasks@.len() ==> task_ok(*state, #[trigger] tasks@[i]),
                forall|i: int, j: int|
                    0 <= i < j < tasks@.len() ==> task_distinct_pair(
                        #[trigger] tasks@[i],
                        #[trigger] tasks@[j],
                    ),
                forall|i: int|
                    0 <= i < tasks@.len() ==> !is_pnc_for(#[trigger] tasks@[i], home),
                forall|x: ModuleId|
                    pre.unparsed_modules.contains_key(x) && (forall|d: ModuleId|
                        pre.waiting_for_headers.spec_get(x).has(d) ==> d == home)
                        ==> has_pnc_task(tasks@, x) && !state.unparsed_modules.contains_key(x),
                forall|x: ModuleId, d: ModuleId|
                    pre.unparsed_modules.contains_key(x) && pre.waiting_for_headers.spec_get(
                        x,
                    ).has(d) && d != home ==> state.unparsed_modules.contains_key(x)
                        && state.waiting_for_headers.spec_get(x).has(d),
            decreases n3 - k3,
        {
            let d = headers_needed.index(k3);
            let ghost st0 = *state;
            let ghost pre_l = state.header_listeners;
            let mut listeners = match state.header_listeners.remove(d) {
                Some(l) => l,
                None => Vec::new(),
            };
            let ghost l0 = listeners@;
            proof {
                if pre_l.contains_key(d) && l0.contains(home) {
                    let j = choose|j: int| 0 <= j < k3 && headers_needed.elems@[j] == d;
                    assert(headers_needed.elems@[j] == headers_needed.elems@[k3 as int]);
                    assert(false);
                }
                crate::collections::lemma_push_keeps_distinct(l0, home);
                crate::collections::lemma_push_contains(l0, home);
            }
            listeners.push(home);
            state.header_listeners.insert(d, listeners);
            proof {
                assert forall|d2: ModuleId| #[trigger]
                    state.header_listeners.contains_key(
                        d2,
                    ) implies crate::state::header_listeners_at(*state, d2) by {
                    if d2 == d {
                        assert(state.header_listeners.spec_get(d)@ == l0.push(home));
                        assert forall|j: int|
                            0 <= j < state.header_listeners.spec_get(d)@.len() implies {
                            &&& state.unparsed_modules.contains_key(
                                #[trigger] state.header_listeners.spec_get(d)@[j],
                            )
                            &&& state.waiting_for_headers.contains_key(
                                state.header_listeners.spec_get(d)@[j],
                            )
                            &&& state.waiting_for_headers.spec_get(
                                state.header_listeners.spec_get(d)@[j],
                            ).has(d)
                        } by {
                            if j < l0.len() {
                                assert(state.header_listeners.spec_get(d)@[j] == l0[j]);
                                assert(pre_l.contains_key(d));
                                assert(crate::state::header_listeners_at(st0, d));
                                assert(pre_l.spec_get(d)@[j] == l0[j]);
                            } else {
                                assert(state.header_listeners.spec_get(d)@[j] == home);
                                assert(headers_needed.has(headers_needed.elems@[k3 as int]));
                            }
                        }
                    } else {
                        assert(pre_l.contains_key(d2));
                        assert(state.header_listeners.spec_get(d2) == pre_l.spec_get(d2));
                        assert(crate::state::header_listeners_at(st0, d2));
                    }
                }
                assert forall|j: int|
                    0 <= j < k3 + 1 implies state.header_listeners.contains_key(
                    #[trigger] headers_needed.elems@[j],
                ) && state.header_listeners.spec_get(headers_needed.elems@[j])@.contains(home) by {
                    if j < k3 {
                        assert(headers_needed.elems@[j] != d);
                        assert(state.header_listeners.spec_get(headers_needed.elems@[j])
                            == pre_l.spec_get(headers_needed.elems@[j]));
                    } else {
                        assert(state.header_listeners.spec_get(d)@.last() == home);
                    }
                }
                assert forall|d2: ModuleId| #[trigger]
                    state.header_listeners.contains_key(d2) && state.header_listeners.spec_get(
                        d2,
                    )@.contains(home) implies exists|j: int|
                    0 <= j < k3 + 1 && headers_needed.elems@[j] == d2 by {
                    if d2 == d {
                        assert(headers_needed.elems@[k3 as int] == d2);
                    } else {
                        assert(state.header_listeners.spec_get(d2) == pre_l.spec_get(d2));
                        let j = choose|j: int| 0 <= j < k3 && headers_needed.elems@[j] == d2;
                        assert(0 <= j < k3 + 1 && headers_needed.elems@[j] == d2);
                    }
                }
            }
            k3 += 1;
        }
        proof {
            assert(!all_deps_parsed(*state, header)) by {
                let x = headers_needed.elems@[0];
                assert(headers_needed.has(x));
                assert(header.imported_modules.has(x));
                let n = choose|n: Seq<char>|
                    #[trigger] header.deps_by_name.has_name(n) && header.deps_by_name.spec_get(n)
                        == x;
                assert(!state.headers_parsed.has(x));
            }
            assert(crate::state::header_barrier_at(*state, home)) by {
                assert forall|d: ModuleId| #[trigger]
                    state.waiting_for_headers.spec_get(home).has(
                        d,
                    ) implies !state.headers_parsed.has(d) && state.header_listeners.contains_key(
                    d,
                ) && state.header_listeners.spec_get(d)@.contains(home) by {
                    assert(headers_needed.has(d));
                    assert(!state.headers_parsed.has(d));
                    let j = choose|j: int|
                        0 <= j < headers_needed.elems@.len() && headers_needed.elems@[j] == d;
                    assert(state.header_listeners.contains_key(headers_needed.elems@[j]));
                    assert(state.header_listeners.spec_get(
                        headers_needed.elems@[j],
                    )@.contains(home));
                }
                assert forall|n: Seq<char>| #[trigger]
                    state.unparsed_modules.spec_get(home).deps_by_name.has_name(
                        n,
                    ) implies state.headers_parsed.has(
                    state.unparsed_modules.spec_get(home).deps_by_name.spec_get(n),
                ) || state.waiting_for_headers.spec_get(home).has(
                    state.unparsed_modules.spec_get(home).deps_by_name.spec_get(n),
                ) by {
                    assert(state.unparsed_modules.spec_get(home) == header);
                }
            }
        }
        tasks
    }
}

/// Consumes one message and steps the coordinator: the state is mutated,
/// the returned tasks are to be enqueued on the worker pool, and when the
/// root module's solve arrives the finished load is returned instead of
/// any tasks.  `Finished` itself never reaches this function; the receive
/// loop intercepts it.
pub fn update(state: &mut State, msg: Msg) -> (r: (Vec<BuildTask>, Option<FinishedLoad>))
    requires
        inv(*old(state)),
        msg_ok(*old(state), msg),
    ensures
        inv(*final(state)),
        tasks_ok(*final(state), r.0@),
        match msg {
            Msg::Header(h) => header_post(*old(state), *final(state), h, r.0@) && r.1 is None,
            Msg::Constrained { module, declarations, ident_ids, problems, .. } => {
                constrained_post(
                    *old(state),
                    *final(state),
                    module.module_id,
                    declarations,
                    ident_ids,
                    problems,
                    r.0@,
                ) && r.1 is None
            },
            Msg::Solved { src, module_id, solved_module, solved_subs } => {
                solved_post(
                    *old(state),
                    *final(state),
                    module_id,
                    solved_module,
                    solved_subs,
                    src,
                    r.0@,
                    r.1,
                )
            },
            Msg::Finished { .. } => false,
        },
{
    match msg {
        Msg::Header(header) => (update_header(state, header), None),
        Msg::Constrained {
            module,
            declarations,
            imported_modules,
            src,
            constraint,
            ident_ids,
            problems,
            var_store,
        } => {
            let tasks = update_constrained(
                state,
                module,
                declarations,
                imported_modules,
                src,
                constraint,
                ident_ids,
                problems,
                var_store,
            );
            (tasks, None)
        },
        Msg::Solved { src, module_id, solved_module, solved_subs } => {
            update_solved(state, src, module_id, solved_module, solved_subs)
        },
        Msg::Finished { .. } => (Vec::new(), None),
    }
}

/// A dependency's header is always processed before a dependent's
/// parse-and-constrain task exists: any such task the coordinator has
/// handed out names only dependencies whose headers have arrived.
pub proof fn lemma_headers_precede_canonicalization(
    s: State,
    tasks: Seq<BuildTask>,
    i: int,
    n: Seq<char>,
)
    requires
        tasks_ok(s, tasks),
        0 <= i < tasks.len(),
        tasks[i] is ParseAndConstrain,
        tasks[i]->ParseAndConstrain_header.deps_by_name.has_name(n),
    ensures
        s.headers_parsed.has(tasks[i]->ParseAndConstrain_header.deps_by_name.spec_get(n)),
{
    assert(task_ok(s, tasks[i]));
}

/// A dependency's types are always published before a dependent's solve
/// task exists: any solve task the coordinator has handed out imports only
/// modules whose types stand in `exposed_types`.
pub proof fn lemma_solving_waits_for_imports(
    s: State,
    tasks: Seq<BuildTask>,
    i: int,
    d: ModuleId,
)
    requires
        tasks_ok(s, tasks),
        0 <= i < tasks.len(),
        tasks[i] is Solve,
        tasks[i]->Solve_imported_modules.has(d),
    ensures
        s.exposed_types.contains_key(d),
{
    assert(task_ok(s, tasks[i]));
}

/// A module with no imports is never parked: processing its header hands
/// out its parse-and-constrain task at once.
pub proof fn lemma_no_imports_never_parked(
    pre: State,
    post: State,
    h: ModuleHeader,
    tasks: Seq<BuildTask>,
)
    requires
        header_post(pre, post, h, tasks),
        h.deps_by_name.spec_len() == 0,
    ensures
        has_pnc_task(tasks, h.module_id),
        !post.unparsed_modules.contains_key(h.module_id),
{
    assert forall|n: Seq<char>| !(#[trigger] h.deps_by_name.has_name(n)) by {
        if h.deps_by_name.has_name(n) {
            let k = choose|k: int|
                0 <= k < h.deps_by_name.keys@.len() && h.deps_by_name.keys@[k]@ == n;
            assert(0 <= k < 0);
            assert(false);
        }
    }
    assert(all_deps_parsed(post, h));
}

/// A module with an empty exposes list contributes no symbols: whether the
/// module went straight to its parse-and-constrain task or parked, the
/// symbol set recorded for it is empty.
pub proof fn lemma_empty_exposes_no_symbols(
    pre: State,
    post: State,
    h: ModuleHeader,
    tasks: Seq<BuildTask>,
)
    requires
        header_post(pre, post, h, tasks),
        h.exposes@.len() == 0,
    ensures
        post.exposed_symbols_by_module.contains_key(h.module_id) ==> forall|x: crate::ids::Symbol|
            !post.exposed_symbols_by_module.spec_get(h.module_id).has(x),
        forall|i: int|
            0 <= i < tasks.len() && is_pnc_for(#[trigger] tasks[i], h.module_id) ==> forall|
                x: crate::ids::Symbol,
            | !tasks[i]->ParseAndConstrain_exposed_symbols.has(x),
{
    assert forall|x: crate::ids::Symbol| !h.exposes@.contains(x) by {
        if h.exposes@.contains(x) {
            let k = choose|k: int| 0 <= k < h.exposes@.len() && h.exposes@[k] == x;
            assert(0 <= k < 0);
            assert(false);
        }
    }
    if all_deps_parsed(post, h) {
        assert(!post.unparsed_modules.contains_key(h.module_id));
        assert(!post.exposed_symbols_by_module.contains_key(h.module_id));
    } else {
        assert forall|x: crate::ids::Symbol|
            !post.exposed_symbols_by_module.spec_get(h.module_id).has(x) by {
            assert(!h.exposes@.contains(x));
        }
    }
}

/// A header that stands in on a branch the barrier invariants rule out.
fn header_placeholder(module_id: ModuleId) -> (h: ModuleHeader)
    ensures
        h.module_id == module_id,
{
    ModuleHeader {
        module_id,
        module_name: String::new(),
        exposed_ident_ids: IdentIds::new(),
        deps_by_name: crate::maps::NameMap::new(),
        imported_modules: ModuleIdSet::new(),
        exposes: Vec::new(),
        exposed_imports: crate::maps::NameMap::new(),
        src_bytes: Vec::new(),
    }
}

} // verus!
