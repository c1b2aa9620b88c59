//! The loader's entry point: given a root file, drive the coordinator over
//! the transitive closure of imports until the root is solved or a fatal
//! problem surfaces.
//!
//! The external collaborators — filesystem, parser, canonicalizer and
//! constraint solver — are represented by a `SourceTree`: for every file,
//! the outcome each collaborator would produce for it.  The driver performs
//! their steps by reading those outcomes; everything it decides in between
//! is the verified coordination logic.

use vstd::prelude::*;
use vstd::string::*;
use crate::collections::ModuleIdSet;
use crate::coordinator::update;
use crate::header::{assemble_header, header_wf, ModuleHeader};
use crate::ids::{ModuleId, Symbol};
use crate::interns::{IdentIds, Interns, ModuleIds};
use crate::maps::IdMap;
use crate::msg::{
    Aliases, Constraint, Declaration, ExposedModuleTypes, FinishedLoad, Module, Msg, Problem,
    Solved, SolvedModule, SolvedTypes, StdLib, Subs, TypeError, VarStore, Variable,
};
use crate::parsed::{
    module_filename, spec_module_filename, ExposesEntry, ImportsEntry, Located, ParsedModule,
};
use crate::state::{inv, msg_ok, State};

verus! {

/// The kind of I/O failure a file read produced.
#[derive(Clone, Copy, PartialEq, Eq, Structural, Debug)]
pub enum IoErrorKind {
    NotFound,
    PermissionDenied,
    Other,
}

/// An opaque parse failure, carried through unchanged.
#[derive(Clone, Copy, PartialEq, Eq, Structural, Debug)]
pub struct Fail(pub u64);

/// A fatal problem that aborts the load.
#[derive(Debug)]
pub enum LoadingProblem {
    FileProblem { filename: String, error: IoErrorKind },
    ParsingFailed { filename: String, fail: Fail },
    MsgChannelDied,
    ErrJoiningWorkerThreads,
    TriedToImportAppModule,
}

/// A build-level problem reported about a path.
#[derive(Debug)]
pub enum BuildProblem<'a> {
    FileNotFound(&'a str),
}

/// What a finished load hands back: the root's id, the merged intern
/// tables, the root's solved substitutions, the collected non-fatal
/// problems, every module's declarations, the root's exposed variables,
/// and the root's source text.
#[derive(Debug)]
pub struct LoadedModule {
    pub module_id: ModuleId,
    pub interns: Interns,
    pub solved: Solved,
    pub can_problems: Vec<Problem>,
    pub type_problems: Vec<TypeError>,
    pub declarations_by_id: IdMap<Vec<Declaration>>,
    pub exposed_vars_by_symbol: Vec<(Symbol, Variable)>,
    pub src: String,
}

/// What the canonicalizer produces for one module's definitions.
#[derive(Debug)]
pub struct CanOutcome {
    pub declarations: Vec<Declaration>,
    pub problems: Vec<Problem>,
    pub constraint: Constraint,
    pub var_store: VarStore,
    /// Names of the imported modules the body actually references.
    pub referenced_modules: Vec<String>,
    /// The values this module exposes, by local name, with their type
    /// variables.
    pub exposed_vars: Vec<(String, Variable)>,
    pub rigid_variables: Vec<Variable>,
    pub aliases: Aliases,
}

/// What the solver produces for one module.
#[derive(Debug)]
pub struct SolveOutcome {
    pub problems: Vec<TypeError>,
    pub solved_types: SolvedTypes,
    pub aliases: Aliases,
    pub subs: Subs,
}

/// One file of the source tree, together with the outcome every external
/// collaborator produces for it.
#[derive(Debug)]
pub struct SourceFile {
    pub filename: String,
    pub src: String,
    pub header: Result<ParsedModule, Fail>,
    pub defs: Result<CanOutcome, Fail>,
    pub solve: SolveOutcome,
}

/// The source tree a load runs against.
#[derive(Debug)]
pub struct SourceTree {
    pub files: Vec<SourceFile>,
}

/// Whether the tree holds a file under the name reading `fname`.
pub open spec fn tree_has_file(tree: SourceTree, fname: Seq<char>) -> bool {
    exists|i: int| 0 <= i < tree.files@.len() && (#[trigger] tree.files@[i]).filename@ == fname
}

/// Whether the tree holds a file under `fname` whose header parses to an
/// `App`.
pub open spec fn tree_file_is_app(tree: SourceTree, fname: Seq<char>) -> bool {
    exists|i: int|
        0 <= i < tree.files@.len() && (#[trigger] tree.files@[i]).filename@ == fname
            && (tree.files@[i].header matches Ok(p) && p is App)
}

/// The position of the first file filed under `fname`, or a negative
/// value when no file is.
pub open spec fn first_file(files: Seq<SourceFile>, fname: Seq<char>) -> int
    decreases files.len(),
{
    if files.len() == 0 {
        -1
    } else if files[0].filename@ == fname {
        0
    } else if first_file(files.drop_first(), fname) < 0 {
        -1
    } else {
        1 + first_file(files.drop_first(), fname)
    }
}

pub proof fn lemma_first_file_at(files: Seq<SourceFile>, fname: Seq<char>, i: int)
    requires
        0 <= i < files.len(),
        files[i].filename@ == fname,
        forall|j: int| 0 <= j < i ==> (#[trigger] files[j]).filename@ != fname,
    ensures
        first_file(files, fname) == i,
    decreases i,
{
    if files[0].filename@ == fname {
        if i > 0 {
            assert(files[0].filename@ != fname);
        }
    } else {
        let d = files.drop_first();
        assert(d[i - 1] == files[i]);
        assert forall|j: int| 0 <= j < i - 1 implies (#[trigger] d[j]).filename@ != fname by {
            assert(d[j] == files[j + 1]);
        }
        lemma_first_file_at(d, fname, i - 1);
    }
}

pub proof fn lemma_first_file_none(files: Seq<SourceFile>, fname: Seq<char>)
    requires
        forall|j: int| 0 <= j < files.len() ==> (#[trigger] files[j]).filename@ != fname,
    ensures
        first_file(files, fname) < 0,
    decreases files.len(),
{
    if files.len() > 0 {
        let d = files.drop_first();
        assert forall|j: int| 0 <= j < d.len() implies (#[trigger] d[j]).filename@ != fname by {
            assert(d[j] == files[j + 1]);
        }
        lemma_first_file_none(d, fname);
    }
}

/// The first file filed under `fname`, if any.
fn find_file<'a>(tree: &'a SourceTree, fname: &String) -> (r: Option<&'a SourceFile>)
    ensures
        r is Some <==> tree_has_file(*tree, fname@),
        r is Some <==> first_file(tree.files@, fname@) >= 0,
        r matches Some(f) ==> {
            &&& 0 <= first_file(tree.files@, fname@) < tree.files@.len()
            &&& *f == tree.files@[first_file(tree.files@, fname@)]
            &&& f.filename@ == fname@
        },
{
    let mut i: usize = 0;
    while i < tree.files.len()
        invariant
            0 <= i <= tree.files@.len(),
            forall|j: int| 0 <= j < i ==> (#[trigger] tree.files@[j]).filename@ != fname@,
        decreases tree.files@.len() - i,
    {
        if tree.files[i].filename.eq(fname) {
            proof {
                lemma_first_file_at(tree.files@, fname@, i as int);
            }
            return Some(&tree.files[i]);
        }
        i += 1;
    }
    proof {
        lemma_first_file_none(tree.files@, fname@);
        if tree_has_file(*tree, fname@) {
            let w = choose|w: int|
                0 <= w < tree.files@.len() && tree.files@[w].filename@ == fname@;
            assert(tree.files@[w].filename@ != fname@);
        }
    }
    None
}

/// The module name a parsed header declares.
pub open spec fn declared_name(p: ParsedModule) -> Seq<char> {
    match p {
        ParsedModule::Interface { name, .. } => name@,
        ParsedModule::App { name, .. } => name@,
    }
}

/// An equal, independently owned vector of copyable payloads.
fn dup_copy_vec<T: Copy>(v: &Vec<T>) -> (r: Vec<T>)
    ensures
        r@ == v@,
{
    let mut r: Vec<T> = Vec::new();
    let mut i: usize = 0;
    while i < v.len()
        invariant
            0 <= i <= v@.len(),
            r@ =~= v@.subrange(0, i as int),
        decreases v@.len() - i,
    {
        r.push(v[i]);
        i += 1;
    }
    proof {
        assert(r@ =~= v@);
    }
    r
}

/// Accepts or rejects a parsed header by its shape: an `Interface` loads
/// anywhere, an `App` only as the root of the load; importing an `App`
/// module is the fatal `TriedToImportAppModule`.
fn accept_header<'a>(parsed: &'a ParsedModule, is_root: bool) -> (r: Result<
    (&'a String, &'a Vec<Located<ExposesEntry>>, &'a Vec<Located<ImportsEntry>>),
    LoadingProblem,
>)
    ensures
        (*parsed matches ParsedModule::Interface { name, exposes, imports } ==> (r matches Ok(t)
            && t.0@ == name@ && t.1@ == exposes@ && t.2@ == imports@)),
        (*parsed matches ParsedModule::App { name, provides, imports } ==> {
            &&& is_root ==> (r matches Ok(t) && t.0@ == name@ && t.1@ == provides@ && t.2@
                == imports@)
            &&& !is_root ==> (r matches Err(p) && p is TriedToImportAppModule)
        }),
{
    match parsed {
        ParsedModule::Interface { name, exposes, imports } => Ok((name, exposes, imports)),
        ParsedModule::App { name, provides, imports } => {
            if is_root {
                Ok((name, provides, imports))
            } else {
                Err(LoadingProblem::TriedToImportAppModule)
            }
        },
    }
}

/// Loads one module by its file: reads the file from the tree, parses its
/// header, checks the header's shape against the module's position in the
/// load, and interns everything into the shared tables.
fn load_filename(
    module_ids: &mut ModuleIds,
    ident_ids_by_module: &mut IdMap<IdentIds>,
    filename: &String,
    tree: &SourceTree,
    is_root: bool,
) -> (r: Result<ModuleHeader, LoadingProblem>)
    requires
        old(module_ids).wf(),
        old(ident_ids_by_module).wf(),
    ensures
        final(module_ids).wf(),
        final(ident_ids_by_module).wf(),
        forall|x: ModuleId|
            old(ident_ids_by_module).contains_key(x) ==> final(ident_ids_by_module).contains_key(
                x,
            ),
        old(module_ids).names@.len() <= final(module_ids).names@.len(),
        forall|i: int|
            0 <= i < old(module_ids).names@.len() ==> final(module_ids).names@[i] == old(
                module_ids,
            ).names@[i],
        // the outcome is decided, both ways, by the file found under the
        // name: absent means exactly a not-found problem, a failing header
        // exactly a parse failure with that failure value, a misplaced App
        // exactly the import-an-App problem, and anything else succeeds
        (first_file(tree.files@, filename@) < 0 ==> (r matches Err(e) && e matches
            LoadingProblem::FileProblem { filename: f, error } && f@ == filename@
            && error is NotFound)),
        (first_file(tree.files@, filename@) >= 0 ==> {
            let file = tree.files@[first_file(tree.files@, filename@)];
            &&& (file.header matches Err(fl) ==> (r matches Err(e) && (e matches
                LoadingProblem::ParsingFailed { filename: f, fail } && f@ == filename@ && fail
                == fl)))
            &&& (file.header matches Ok(p) ==> {
                &&& (p is App && !is_root ==> (r matches Err(e)
                    && e is TriedToImportAppModule))
                &&& (p is Interface || is_root ==> (r matches Ok(h) && h.module_name@
                    == declared_name(p)))
            })
        }),
        r matches Ok(h) ==> tree_has_file(*tree, filename@),
        r matches Ok(h) ==> {
            &&& header_wf(h)
            &&& final(ident_ids_by_module).contains_key(h.module_id)
            &&& h.module_id.0 < final(module_ids).names@.len()
            &&& final(module_ids).names@[h.module_id.0 as int]@ == h.module_name@
            &&& forall|n: Seq<char>|
                #[trigger] h.deps_by_name.has_name(n) ==> h.deps_by_name.spec_get(n).0
                    < final(module_ids).names@.len() && final(module_ids).names@[
                    h.deps_by_name.spec_get(n).0 as int
                ]@ == n
        },
        r matches Err(e) ==> {
            &&& *final(module_ids) == *old(module_ids)
            &&& *final(ident_ids_by_module) == *old(ident_ids_by_module)
            &&& match e {
                LoadingProblem::FileProblem { filename: f, error } => f@ == filename@
                    && !tree_has_file(*tree, filename@) && error is NotFound,
                LoadingProblem::ParsingFailed { filename: f, .. } => f@ == filename@
                    && tree_has_file(*tree, filename@),
                LoadingProblem::TriedToImportAppModule => !is_root && tree_file_is_app(
                    *tree,
                    filename@,
                ),
                _ => false,
            }
        },
{
    let file = match find_file(tree, filename) {
        Some(f) => f,
        None => {
            return Err(
                LoadingProblem::FileProblem {
                    filename: filename.clone(),
                    error: IoErrorKind::NotFound,
                },
            );
        },
    };
    let parsed = match &file.header {
        Ok(p) => p,
        Err(fail) => {
            return Err(LoadingProblem::ParsingFailed { filename: filename.clone(), fail: *fail });
        },
    };
    let (name, exposes, imports) = match accept_header(parsed, is_root) {
        Ok(t) => t,
        Err(p) => {
            proof {
                assert(*parsed is App);
                let i = choose|i: int|
                    0 <= i < tree.files@.len() && tree.files@[i] == *file;
                assert(tree.files@[i].filename@ == filename@);
                assert(tree.files@[i].header matches Ok(q) && q is App);
                assert(tree_file_is_app(*tree, filename@));
            }
            return Err(p);
        },
    };
    let src_bytes = file.src.as_str().as_bytes_vec();
    let header = assemble_header(
        module_ids,
        ident_ids_by_module,
        name,
        exposes,
        imports,
        src_bytes,
    );
    Ok(header)
}

/// Whether every member of `imported` is either still waited on or already
/// published.
fn imports_covered(
    imported: &ModuleIdSet,
    waiting: &ModuleIdSet,
    exposed: &IdMap<ExposedModuleTypes>,
) -> (r: bool)
    ensures
        r == (forall|d: ModuleId|
            #[trigger] imported.has(d) ==> waiting.has(d) || exposed.contains_key(d)),
{
    let n = imported.len();
    let mut i: usize = 0;
    while i < n
        invariant
            0 <= i <= n,
            n == imported.spec_len(),
            forall|j: int|
                0 <= j < i ==> waiting.has(#[trigger] imported.elems@[j]) || exposed.contains_key(
                    imported.elems@[j],
                ),
        decreases n - i,
    {
        let d = imported.index(i);
        if !waiting.contains(d) && !exposed.contains(d) {
            proof {
                assert(imported.has(d));
            }
            return false;
        }
        i += 1;
    }
    proof {
        assert forall|d: ModuleId| #[trigger]
            imported.has(d) implies waiting.has(d) || exposed.contains_key(d) by {
            let j = choose|j: int|
                0 <= j < imported.elems@.len() && imported.elems@[j] == d;
            assert(waiting.has(imported.elems@[j]) || exposed.contains_key(imported.elems@[j]));
        }
    }
    true
}

/// Loads the module tree rooted at `filename`: parses every header as it
/// is discovered, canonicalizes and constrains each module once all its
/// dependency headers are in, solves it once all its dependencies are
/// solved, and finishes when the root is solved.  `exposed_types` seeds
/// the published types (for modules solved before this load began).
///
/// A missing file is always reported under the name the module resolves
/// to, no matter which module's import pulled it in.
pub fn load(
    stdlib: &StdLib,
    src_dir: String,
    filename: String,
    exposed_types: IdMap<ExposedModuleTypes>,
    tree: &SourceTree,
) -> (r: Result<LoadedModule, LoadingProblem>)
    requires
        exposed_types.wf(),
    ensures
        // a finished load hands back a well-formed product whose root parts
        // come from the root module's own file: the interns name the root,
        // its declarations were recorded, and the solved substitutions and
        // source text are the ones its file holds
        r matches Ok(lm) ==> {
            &&& lm.interns.module_ids.wf()
            &&& lm.module_id.0 < lm.interns.module_ids.names@.len()
            &&& lm.declarations_by_id.wf()
            &&& lm.declarations_by_id.contains_key(lm.module_id)
            &&& ({
                let ff = first_file(
                    tree.files@,
                    spec_module_filename(
                        src_dir@,
                        lm.interns.module_ids.names@[lm.module_id.0 as int]@,
                    ),
                );
                &&& 0 <= ff < tree.files@.len()
                &&& lm.solved == Solved(tree.files@[ff].solve.subs)
                &&& lm.src@ == tree.files@[ff].src@
            })
        },
        // the root file decides the first step, both ways
        (first_file(tree.files@, filename@) < 0 ==> (r matches Err(e) && e matches
            LoadingProblem::FileProblem { filename: f, error } && f@ == filename@
            && error is NotFound)),
        (first_file(tree.files@, filename@) >= 0 ==> (tree.files@[
            first_file(tree.files@, filename@)
        ].header matches Err(fl) ==> (r matches Err(e) && (e matches
            LoadingProblem::ParsingFailed { filename: f, fail } && f@ == filename@ && fail
            == fl)))),
        (r matches Err(e) ==> (e matches LoadingProblem::FileProblem { filename: f, error } ==> {
            &&& !tree_has_file(*tree, f@)
            &&& error is NotFound
            &&& f@ == filename@ || (exists|n: Seq<char>|
                f@ == spec_module_filename(src_dir@, n))
        })),
        (r matches Err(e) ==> (e matches LoadingProblem::ParsingFailed { filename: f, .. }
            ==> tree_has_file(*tree, f@))),
        (r matches Err(e) ==> (e is TriedToImportAppModule ==> exists|n: Seq<char>|
            tree_file_is_app(*tree, n))),
        // coordination can only die after the root file was read
        (r matches Err(e) ==> (e is MsgChannelDied ==> tree_has_file(*tree, filename@))),
        (r matches Err(e) ==> !(e is ErrJoiningWorkerThreads)),
{
    let ghost sd = src_dir@;
    let mut module_ids = ModuleIds::new();
    let mut ident_ids_by_module: IdMap<IdentIds> = IdMap::new();

    // The root module is loaded synchronously: nothing can proceed until
    // its id is known.
    let root_header = match load_filename(
        &mut module_ids,
        &mut ident_ids_by_module,
        &filename,
        tree,
        true,
    ) {
        Ok(h) => h,
        Err(e) => {
            return Err(e);
        },
    };
    let root_id = root_header.module_id;
    proof {
        assert(tree_has_file(*tree, filename@));
    }

    let mut loading_started = ModuleIdSet::new();
    loading_started.insert(root_id);

    let mut state = State {
        root_id,
        src_dir,
        stdlib_mode: stdlib.mode,
        exposed_types,
        can_problems: Vec::new(),
        type_problems: Vec::new(),
        headers_parsed: ModuleIdSet::new(),
        loading_started,
        constrained_ident_ids: IdMap::new(),
        module_ids,
        ident_ids_by_module,
        declarations_by_id: IdMap::new(),
        exposed_symbols_by_module: IdMap::new(),
        waiting_for_headers: IdMap::new(),
        header_listeners: IdMap::new(),
        unparsed_modules: IdMap::new(),
        waiting_for_solve: IdMap::new(),
        solve_listeners: IdMap::new(),
        unsolved_modules: IdMap::new(),
    };
    proof {
        assert(inv(state));
        assert(msg_ok(state, Msg::Header(root_header)));
    }
    let (mut tasks, _) = update(&mut state, Msg::Header(root_header));

    // The coordinator's receive loop, sequentialized: take the next task,
    // perform its collaborator steps against the tree, and feed the
    // resulting message back in.  The step budget only bounds the loop for
    // the termination checker; exhausting it reports the channel as dead,
    // as the threaded loader would if its channel closed early.
    let mut budget: usize = usize::MAX;
    while tasks.len() > 0
        invariant
            inv(state),
            sd == src_dir@,
            state.src_dir@ == sd,
            state.root_id.0 < state.module_ids.spec_len(),
            tree_has_file(*tree, filename@),
            first_file(tree.files@, filename@) >= 0,
            tree.files@[first_file(tree.files@, filename@)].header is Ok,
        decreases budget,
    {
        if budget == 0 {
            return Err(LoadingProblem::MsgChannelDied);
        }
        budget = budget - 1;
        // Like a worker's own queue, the most recently enqueued task runs
        // first.
        let task = match tasks.pop() {
            Some(t) => t,
            None => {
                return Err(LoadingProblem::MsgChannelDied);
            },
        };
        match task {
            crate::msg::BuildTask::LoadModule { module_name } => {
                let fname = module_filename(state.src_dir.as_str(), module_name.as_str());
                let header = match load_filename(
                    &mut state.module_ids,
                    &mut state.ident_ids_by_module,
                    &fname,
                    tree,
                    false,
                ) {
                    Ok(h) => h,
                    Err(e) => {
                        proof {
                            assert(fname@ == spec_module_filename(sd, module_name@));
                        }
                        return Err(e);
                    },
                };
                // A header for a module whose header already arrived, or
                // that nothing started loading, means the file declares a
                // name it is not filed under; the coordination fails.
                if state.headers_parsed.contains(header.module_id) {
                    return Err(LoadingProblem::MsgChannelDied);
                }
                if !state.loading_started.contains(header.module_id) {
                    return Err(LoadingProblem::MsgChannelDied);
                }
                let (mut more, _) = update(&mut state, Msg::Header(header));
                tasks.append(&mut more);
            },
            crate::msg::BuildTask::ParseAndConstrain {
                header,
                mode: _,
                module_ids: _,
                dep_idents: _,
                exposed_symbols: _,
            } => {
                // The snapshots travel to the canonicalizer; its outcome
                // is read from the tree.
                let fname = module_filename(state.src_dir.as_str(), header.module_name.as_str());
                let file = match find_file(tree, &fname) {
                    Some(f) => f,
                    None => {
                        proof {
                            assert(fname@ == spec_module_filename(sd, header.module_name@));
                        }
                        return Err(
                            LoadingProblem::FileProblem {
                                filename: fname,
                                error: IoErrorKind::NotFound,
                            },
                        );
                    },
                };
                let can = match &file.defs {
                    Ok(c) => c,
                    Err(fail) => {
                        return Err(
                            LoadingProblem::ParsingFailed { filename: fname, fail: *fail },
                        );
                    },
                };
                let ModuleHeader {
                    module_id,
                    module_name: _,
                    exposed_ident_ids,
                    deps_by_name,
                    imported_modules,
                    exposes: _,
                    exposed_imports: _,
                    src_bytes: _,
                } = header;
                let mut final_idents = exposed_ident_ids;
                let mut exposed_vars_by_symbol: Vec<(Symbol, Variable)> = Vec::new();
                let mut k: usize = 0;
                while k < can.exposed_vars.len()
                    decreases can.exposed_vars@.len() - k,
                {
                    let ident = can.exposed_vars[k].0.clone();
                    let var = can.exposed_vars[k].1;
                    let iid = final_idents.get_or_insert(&ident);
                    exposed_vars_by_symbol.push((Symbol::new(module_id, iid), var));
                    k += 1;
                }
                if !deps_by_name.check_wf() {
                    return Err(LoadingProblem::MsgChannelDied);
                }
                let mut references = ModuleIdSet::new();
                let mut k2: usize = 0;
                while k2 < can.referenced_modules.len()
                    invariant
                        references.wf(),
                        deps_by_name.wf(),
                    decreases can.referenced_modules@.len() - k2,
                {
                    match deps_by_name.get(&can.referenced_modules[k2]) {
                        Some(d) => {
                            let dep = *d;
                            references.insert(dep);
                        },
                        None => {},
                    }
                    k2 += 1;
                }
                let module = Module {
                    module_id,
                    exposed_vars_by_symbol,
                    references,
                    aliases: can.aliases,
                    rigid_variables: dup_copy_vec(&can.rigid_variables),
                };
                // The coordination preconditions; a tree whose files
                // declare mismatched module names can break them, which
                // fails the load.
                if !imported_modules.is_distinct() {
                    return Err(LoadingProblem::MsgChannelDied);
                }
                if state.constrained_ident_ids.contains(module_id) {
                    return Err(LoadingProblem::MsgChannelDied);
                }
                let covered: bool = match state.waiting_for_solve.get(module_id) {
                    Some(w) => imports_covered(&imported_modules, w, &state.exposed_types),
                    None => false,
                };
                if !covered {
                    return Err(LoadingProblem::MsgChannelDied);
                }
                let msg = Msg::Constrained {
                    module,
                    declarations: dup_copy_vec(&can.declarations),
                    imported_modules,
                    src: file.src.clone(),
                    constraint: can.constraint,
                    ident_ids: final_idents,
                    problems: dup_copy_vec(&can.problems),
                    var_store: can.var_store,
                };
                let (mut more, _) = update(&mut state, msg);
                tasks.append(&mut more);
            },
            crate::msg::BuildTask::Solve {
                module,
                src,
                constraint: _,
                var_store: _,
                imported_modules: _,
                imports: _,
                mode: _,
            } => {
                // The constraint, variable store and import types travel
                // to the solver; its outcome is read from the tree.
                let module_id = module.module_id;
                // A module must be solved at most once, and only after it
                // was constrained; anything else means the coordination
                // was broken by misdeclared files.
                if state.exposed_types.contains(module_id) {
                    return Err(LoadingProblem::MsgChannelDied);
                }
                if !state.constrained_ident_ids.contains(module_id) {
                    return Err(LoadingProblem::MsgChannelDied);
                }
                let name = match state.module_ids.name_of(module_id) {
                    Some(n) => n.clone(),
                    None => {
                        return Err(LoadingProblem::MsgChannelDied);
                    },
                };
                let fname = module_filename(state.src_dir.as_str(), name.as_str());
                let file = match find_file(tree, &fname) {
                    Some(f) => f,
                    None => {
                        return Err(LoadingProblem::MsgChannelDied);
                    },
                };
                let solved_module = SolvedModule {
                    problems: dup_copy_vec(&file.solve.problems),
                    exposed_vars_by_symbol: dup_copy_vec(&module.exposed_vars_by_symbol),
                    solved_types: file.solve.solved_types,
                    aliases: file.solve.aliases,
                };
                // The source text the task carries is the file's own; the
                // file's copy is the one the contract names.
                let _ = src;
                let msg = Msg::Solved {
                    src: file.src.clone(),
                    module_id,
                    solved_module,
                    solved_subs: Solved(file.solve.subs),
                };
                let (mut more, finished) = update(&mut state, msg);
                tasks.append(&mut more);
                if let Some(f) = finished {
                    proof {
                        assert(module_id == state.root_id);
                        assert(state.declarations_by_id.contains_key(module_id));
                    }
                    let FinishedLoad { solved, exposed_vars_by_symbol, src: final_src } = f;
                    let State {
                        root_id: rid,
                        can_problems,
                        type_problems,
                        constrained_ident_ids,
                        module_ids: final_module_ids,
                        declarations_by_id,
                        ..
                    } = state;
                    return Ok(
                        LoadedModule {
                            module_id: rid,
                            interns: Interns {
                                module_ids: final_module_ids,
                                all_ident_ids: constrained_ident_ids,
                            },
                            solved,
                            can_problems,
                            type_problems,
                            declarations_by_id,
                            exposed_vars_by_symbol,
                            src: final_src,
                        },
                    );
                }
            },
        }
    }
    // Every task ran, yet the root never finished solving: the modules
    // left are deadlocked on one another (a cyclic source tree), which the
    // threaded loader reports as its channel dying.
    Err(LoadingProblem::MsgChannelDied)
}

} // verus!
