use module_loader::ids::{IdentId, ModuleId, Symbol};
use module_loader::loader::{
    load, CanOutcome, Fail, IoErrorKind, LoadedModule, LoadingProblem, SolveOutcome, SourceFile,
    SourceTree,
};
use module_loader::maps::IdMap;
use module_loader::msg::{
    Aliases, Constraint, Declaration, ExposedModuleTypes, Mode, Solved, SolvedTypes, StdLib, Subs,
    VarStore, Variable,
};
use module_loader::parsed::{ExposesEntry, ImportsEntry, Located, ParsedModule};
use module_loader::ids::Region;

fn loc_exposes(name: &str) -> Located<ExposesEntry> {
    Located { region: Region::zero(), value: ExposesEntry::Ident(name.to_string()) }
}

fn loc_import(module: &str, idents: &[&str]) -> Located<ImportsEntry> {
    let entries: Vec<ExposesEntry> =
        idents.iter().map(|s| ExposesEntry::Ident(s.to_string())).collect();
    Located {
        region: Region::zero(),
        value: ImportsEntry::Module(module.to_string(), entries),
    }
}

fn filename_of(name: &str) -> String {
    format!("src/{}.roc", name.replace('.', "/"))
}

fn solve_outcome(tag: u64) -> SolveOutcome {
    SolveOutcome {
        problems: vec![],
        solved_types: SolvedTypes(tag),
        aliases: Aliases(tag),
        subs: Subs(tag),
    }
}

fn can_outcome(tag: u64, exposes: &[&str], imports: &[(&str, &[&str])]) -> CanOutcome {
    CanOutcome {
        declarations: vec![Declaration(tag)],
        problems: vec![],
        constraint: Constraint(tag),
        var_store: VarStore(tag),
        referenced_modules: imports.iter().map(|(m, _)| m.to_string()).collect(),
        exposed_vars: exposes
            .iter()
            .enumerate()
            .map(|(i, e)| (e.to_string(), Variable(tag * 100 + i as u64)))
            .collect(),
        rigid_variables: vec![],
        aliases: Aliases(tag),
    }
}

fn interface_file(
    name: &str,
    exposes: &[&str],
    imports: &[(&str, &[&str])],
    tag: u64,
) -> SourceFile {
    SourceFile {
        filename: filename_of(name),
        src: format!("{} source", name),
        header: Ok(ParsedModule::Interface {
            name: name.to_string(),
            exposes: exposes.iter().map(|e| loc_exposes(e)).collect(),
            imports: imports.iter().map(|(m, ids)| loc_import(m, ids)).collect(),
        }),
        defs: Ok(can_outcome(tag, exposes, imports)),
        solve: solve_outcome(tag),
    }
}

fn app_file(name: &str, provides: &[&str], imports: &[(&str, &[&str])], tag: u64) -> SourceFile {
    SourceFile {
        filename: filename_of(name),
        src: format!("{} source", name),
        header: Ok(ParsedModule::App {
            name: name.to_string(),
            provides: provides.iter().map(|e| loc_exposes(e)).collect(),
            imports: imports.iter().map(|(m, ids)| loc_import(m, ids)).collect(),
        }),
        defs: Ok(can_outcome(tag, provides, imports)),
        solve: solve_outcome(tag),
    }
}

fn run(files: Vec<SourceFile>, root: &str) -> Result<LoadedModule, LoadingProblem> {
    let stdlib = StdLib { mode: Mode::Standard };
    let exposed: IdMap<ExposedModuleTypes> = IdMap::new();
    load(
        &stdlib,
        "src".to_string(),
        filename_of(root),
        exposed,
        &SourceTree { files },
    )
}

#[test]
fn leaf_only() {
    let lm = run(vec![interface_file("Main", &["main"], &[], 42)], "Main").unwrap();
    assert_eq!(lm.can_problems, vec![]);
    assert_eq!(lm.type_problems, vec![]);
    assert_eq!(lm.solved, Solved(Subs(42)));
    assert_eq!(
        lm.exposed_vars_by_symbol,
        vec![(
            Symbol { module_id: lm.module_id, ident_id: IdentId(0) },
            Variable(4200)
        )]
    );
    assert_eq!(lm.src, "Main source".to_string());
    assert_eq!(
        lm.declarations_by_id.get(lm.module_id),
        Some(&vec![Declaration(42)])
    );
}

#[test]
fn linear_chain() {
    let files = vec![
        interface_file("A", &["a"], &[("B", &["b"])], 1),
        interface_file("B", &["b"], &[("C", &["c"])], 2),
        interface_file("C", &["c"], &[], 3),
    ];
    let lm = run(files, "A").unwrap();
    assert_eq!(lm.interns.module_ids.names, vec!["A", "B", "C"]);
    assert_eq!(lm.module_id, ModuleId(0));
    assert_eq!(lm.declarations_by_id.get(ModuleId(0)), Some(&vec![Declaration(1)]));
    assert_eq!(lm.declarations_by_id.get(ModuleId(1)), Some(&vec![Declaration(2)]));
    assert_eq!(lm.declarations_by_id.get(ModuleId(2)), Some(&vec![Declaration(3)]));
    assert_eq!(lm.solved, Solved(Subs(1)));
    // The coordinator constrained C strictly before B, and B before A:
    // declarations are recorded in constraining order.
    assert_eq!(
        lm.declarations_by_id.keys,
        vec![ModuleId(2), ModuleId(1), ModuleId(0)]
    );
}

#[test]
fn diamond() {
    let files = vec![
        interface_file("A", &["a"], &[("B", &["b"]), ("C", &["c"])], 1),
        interface_file("B", &["b"], &[("D", &["d"])], 2),
        interface_file("C", &["c"], &[("D", &["d"])], 3),
        interface_file("D", &["d"], &[], 4),
    ];
    let lm = run(files, "A").unwrap();
    // D is parsed, canonicalized and solved once: one entry under its id,
    // and four modules in all.
    assert_eq!(lm.declarations_by_id.len(), 4);
    let d_id = ModuleId(
        lm.interns
            .module_ids
            .names
            .iter()
            .position(|n| n == "D")
            .unwrap(),
    );
    assert_eq!(lm.declarations_by_id.get(d_id), Some(&vec![Declaration(4)]));
    assert_eq!(lm.solved, Solved(Subs(1)));
}

#[test]
fn missing_file() {
    let files = vec![interface_file("Main", &["main"], &[("Nope", &[])], 1)];
    let err = run(files, "Main").unwrap_err();
    match err {
        LoadingProblem::FileProblem { filename, error } => {
            assert_eq!(filename, "src/Nope.roc".to_string());
            assert_eq!(error, IoErrorKind::NotFound);
        }
        other => panic!("expected FileProblem, got {:?}", other),
    }
}

#[test]
fn missing_file_transitive() {
    // The missing file is reported under its own name, no matter which
    // ancestor pulled it in.
    let files = vec![
        interface_file("A", &["a"], &[("B", &[])], 1),
        interface_file("B", &["b"], &[("Gone.Deep", &[])], 2),
    ];
    let err = run(files, "A").unwrap_err();
    match err {
        LoadingProblem::FileProblem { filename, .. } => {
            assert_eq!(filename, "src/Gone/Deep.roc".to_string());
        }
        other => panic!("expected FileProblem, got {:?}", other),
    }
}

#[test]
fn non_root_app() {
    let files = vec![
        interface_file("A", &["a"], &[("B", &["b"])], 1),
        app_file("B", &["b"], &[], 2),
    ];
    let err = run(files, "A").unwrap_err();
    assert!(matches!(err, LoadingProblem::TriedToImportAppModule));
}

#[test]
fn root_app_accepted() {
    let files = vec![app_file("Main", &["main"], &[], 9)];
    let lm = run(files, "Main").unwrap();
    assert_eq!(lm.solved, Solved(Subs(9)));
}

#[test]
fn defs_parse_error() {
    let mut b = interface_file("B", &["b"], &[], 2);
    b.defs = Err(Fail(7));
    let files = vec![interface_file("A", &["a"], &[("B", &["b"])], 1), b];
    let err = run(files, "A").unwrap_err();
    match err {
        LoadingProblem::ParsingFailed { filename, fail } => {
            assert_eq!(filename, "src/B.roc".to_string());
            assert_eq!(fail, Fail(7));
        }
        other => panic!("expected ParsingFailed, got {:?}", other),
    }
}

#[test]
fn header_parse_error() {
    let mut main = interface_file("Main", &["main"], &[], 1);
    main.header = Err(Fail(3));
    let err = run(vec![main], "Main").unwrap_err();
    match err {
        LoadingProblem::ParsingFailed { filename, fail } => {
            assert_eq!(filename, "src/Main.roc".to_string());
            assert_eq!(fail, Fail(3));
        }
        other => panic!("expected ParsingFailed, got {:?}", other),
    }
}

#[test]
fn empty_exposes_contributes_nothing() {
    let files = vec![
        interface_file("A", &["a"], &[("B", &[])], 1),
        interface_file("B", &[], &[], 2),
    ];
    let lm = run(files, "A").unwrap();
    // A's own exposed value is unaffected by B exposing nothing.
    assert_eq!(lm.exposed_vars_by_symbol.len(), 1);
    assert_eq!(lm.exposed_vars_by_symbol[0].1, Variable(100));
    assert_eq!(lm.declarations_by_id.len(), 2);
}

#[test]
fn cyclic_imports_deadlock() {
    // The language forbids cycles; a cyclic tree deadlocks the barriers
    // and the load reports the channel as dead rather than diverging.
    let files = vec![
        interface_file("A", &["a"], &[("B", &[])], 1),
        interface_file("B", &["b"], &[("A", &[])], 2),
    ];
    let err = run(files, "A").unwrap_err();
    assert!(matches!(err, LoadingProblem::MsgChannelDied));
}

fn three_module_tree() -> Vec<SourceFile> {
    vec![
        interface_file("A", &["a"], &[("B", &["b"])], 5),
        interface_file("B", &["b"], &[("C", &["c"])], 6),
        interface_file("C", &["c"], &[], 7),
    ]
}

#[test]
fn loading_twice_is_identical() {
    let first = run(three_module_tree(), "A").unwrap();
    let second = run(three_module_tree(), "A").unwrap();
    assert_eq!(first.module_id, second.module_id);
    assert_eq!(first.interns.module_ids.names, second.interns.module_ids.names);
    assert_eq!(first.solved, second.solved);
    assert_eq!(first.can_problems, second.can_problems);
    assert_eq!(first.type_problems, second.type_problems);
    assert_eq!(first.exposed_vars_by_symbol, second.exposed_vars_by_symbol);
    assert_eq!(first.declarations_by_id.len(), second.declarations_by_id.len());
    for id in 0..first.declarations_by_id.len() {
        assert_eq!(
            first.declarations_by_id.get(ModuleId(id)),
            second.declarations_by_id.get(ModuleId(id))
        );
    }
    assert_eq!(first.src, second.src);
}

#[test]
fn import_scope_reuses_dep_ident_ids() {
    // A imports `b` from B before B's own header arrives; B must reuse the
    // ident id A created for `b` when it exposes it itself.
    let files = vec![
        interface_file("A", &["a"], &[("B", &["b"])], 1),
        interface_file("B", &["b"], &[], 2),
    ];
    let lm = run(files, "A").unwrap();
    let b_id = ModuleId(
        lm.interns
            .module_ids
            .names
            .iter()
            .position(|n| n == "B")
            .unwrap(),
    );
    let b_idents = lm.interns.all_ident_ids.get(b_id).unwrap();
    assert_eq!(b_idents.names, vec!["b"]);
}

#[test]
fn preseeded_types_for_other_modules_are_harmless() {
    // Types published before the load began, for modules this load never
    // touches, do not disturb it.
    let mut exposed: IdMap<ExposedModuleTypes> = IdMap::new();
    exposed.insert(
        ModuleId(9),
        ExposedModuleTypes::Valid { solved_types: SolvedTypes(99), aliases: Aliases(99) },
    );
    let files = vec![
        interface_file("A", &["a"], &[("B", &["b"])], 1),
        interface_file("B", &["b"], &[], 2),
    ];
    let stdlib = StdLib { mode: Mode::Standard };
    let lm = load(
        &stdlib,
        "src".to_string(),
        filename_of("A"),
        exposed,
        &SourceTree { files },
    )
    .unwrap();
    assert_eq!(lm.solved, Solved(Subs(1)));
    assert_eq!(lm.declarations_by_id.len(), 2);
}

#[test]
fn republishing_a_preseeded_module_fails() {
    // A module may be solved at most once: a load that would publish types
    // for a module whose types were already seeded fails rather than
    // publish twice.
    let mut exposed: IdMap<ExposedModuleTypes> = IdMap::new();
    exposed.insert(
        ModuleId(1),
        ExposedModuleTypes::Valid { solved_types: SolvedTypes(99), aliases: Aliases(99) },
    );
    let files = vec![
        interface_file("A", &["a"], &[("B", &["b"])], 1),
        interface_file("B", &["b"], &[], 2),
    ];
    let stdlib = StdLib { mode: Mode::Standard };
    let err = load(
        &stdlib,
        "src".to_string(),
        filename_of("A"),
        exposed,
        &SourceTree { files },
    )
    .unwrap_err();
    assert!(matches!(err, LoadingProblem::MsgChannelDied));
}
