use module_loader::collections::{ModuleIdSet, SymbolSet};
use module_loader::ids::{IdentId, ModuleId, Symbol};
use module_loader::interns::{IdentIds, ModuleIds};
use module_loader::maps::{IdMap, NameMap};
use module_loader::num_workers;
use module_loader::parsed::{module_filename, exposed_from_import, ident_from_exposed};
use module_loader::parsed::{ExposesEntry, ImportsEntry};
use module_loader::coordinator::build_parse_and_constrain_task;
use module_loader::header::assemble_header;
use module_loader::ids::Region;
use module_loader::msg::{BuildTask, ExposedModuleTypes, Mode};

#[test]
fn module_ids_are_dense_and_stable() {
    let mut t = ModuleIds::new();
    let a = t.get_or_insert(&"A".to_string());
    let b = t.get_or_insert(&"B".to_string());
    let a_again = t.get_or_insert(&"A".to_string());
    assert_eq!(a, ModuleId(0));
    assert_eq!(b, ModuleId(1));
    assert_eq!(a_again, a);
    assert_eq!(t.len(), 2);
    assert_eq!(t.name_of(a).unwrap(), "A");
    assert_eq!(t.name_of(b).unwrap(), "B");
    assert!(t.name_of(ModuleId(2)).is_none());
}

#[test]
fn module_ids_bijection_on_observed_names() {
    // Distinct names get distinct ids, and each id leads back to its name.
    let mut t = ModuleIds::new();
    let names = ["Main", "Foo", "Foo.Bar", "Baz"];
    let ids: Vec<ModuleId> = names.iter().map(|n| t.get_or_insert(&n.to_string())).collect();
    for i in 0..ids.len() {
        for j in 0..ids.len() {
            assert_eq!(ids[i] == ids[j], i == j);
        }
        assert_eq!(t.name_of(ids[i]).unwrap(), names[i]);
    }
}

#[test]
fn ident_ids_add_and_reuse() {
    let mut t = IdentIds::new();
    let x = t.add("x".to_string());
    let y = t.add("y".to_string());
    assert_eq!(x, IdentId(0));
    assert_eq!(y, IdentId(1));
    assert_eq!(t.get_or_insert(&"x".to_string()), IdentId(0));
    assert_eq!(t.get_or_insert(&"z".to_string()), IdentId(2));
    assert_eq!(t.len(), 3);
}

#[test]
fn module_filename_maps_dots_to_directories() {
    assert_eq!(
        module_filename("src", "Foo.Bar.Baz"),
        "src/Foo/Bar/Baz.roc".to_string()
    );
    assert_eq!(module_filename("src", "Main"), "src/Main.roc".to_string());
}

#[test]
fn import_entries_unwrap_whitespace() {
    let entry = ImportsEntry::SpaceBefore(Box::new(ImportsEntry::Module(
        "Foo".to_string(),
        vec![
            ExposesEntry::SpaceAfter(Box::new(ExposesEntry::Ident("bar".to_string()))),
            ExposesEntry::Ident("baz".to_string()),
        ],
    )));
    let (name, exposed) = exposed_from_import(&entry);
    assert_eq!(name, "Foo".to_string());
    assert_eq!(exposed, vec!["bar".to_string(), "baz".to_string()]);
    let e = ExposesEntry::SpaceBefore(Box::new(ExposesEntry::Ident("q".to_string())));
    assert_eq!(ident_from_exposed(&e), "q".to_string());
}

#[test]
fn module_id_set_behaves_like_a_set() {
    let mut s = ModuleIdSet::new();
    assert!(s.is_empty());
    s.insert(ModuleId(3));
    s.insert(ModuleId(5));
    s.insert(ModuleId(3));
    assert_eq!(s.len(), 2);
    assert!(s.contains(ModuleId(3)));
    s.remove(ModuleId(3));
    assert!(!s.contains(ModuleId(3)));
    assert!(s.contains(ModuleId(5)));
    assert!(s.is_distinct());
}

#[test]
fn symbol_set_deduplicates() {
    let mut s = SymbolSet::new();
    let sym = Symbol { module_id: ModuleId(1), ident_id: IdentId(2) };
    s.insert(sym);
    s.insert(sym);
    assert_eq!(s.len(), 1);
    assert!(s.contains(sym));
}

#[test]
fn id_map_insert_get_remove() {
    let mut m: IdMap<u64> = IdMap::new();
    m.insert(ModuleId(1), 10);
    m.insert(ModuleId(2), 20);
    m.insert(ModuleId(1), 11);
    assert_eq!(m.len(), 2);
    assert_eq!(m.get(ModuleId(1)), Some(&11));
    assert_eq!(m.get(ModuleId(3)), None);
    assert_eq!(m.remove(ModuleId(1)), Some(11));
    assert_eq!(m.get(ModuleId(1)), None);
    assert!(m.contains(ModuleId(2)));
}

#[test]
fn name_map_insert_get() {
    let mut m: NameMap<ModuleId> = NameMap::new();
    m.insert("Foo".to_string(), ModuleId(7));
    m.insert("Bar".to_string(), ModuleId(8));
    assert_eq!(m.get(&"Foo".to_string()), Some(&ModuleId(7)));
    assert_eq!(m.get(&"Missing".to_string()), None);
    assert_eq!(m.len(), 2);
    assert!(m.check_wf());
}

#[test]
fn worker_count_reserves_one_cpu() {
    assert_eq!(num_workers(1), 1);
    assert_eq!(num_workers(2), 1);
    assert_eq!(num_workers(8), 7);
}

fn exp_entry(name: &str) -> module_loader::parsed::Located<ExposesEntry> {
    module_loader::parsed::Located {
        region: Region::zero(),
        value: ExposesEntry::Ident(name.to_string()),
    }
}

fn imp_entry(module: &str, idents: &[&str]) -> module_loader::parsed::Located<ImportsEntry> {
    let entries: Vec<ExposesEntry> =
        idents.iter().map(|s| ExposesEntry::Ident(s.to_string())).collect();
    module_loader::parsed::Located {
        region: Region::zero(),
        value: ImportsEntry::Module(module.to_string(), entries),
    }
}

#[test]
fn parse_and_constrain_task_snapshots_dep_idents() {
    // The task built for a module carries a snapshot of the module-id
    // table and of each direct dependency's ident table, exactly as they
    // stand when the task is built.
    let mut mids = ModuleIds::new();
    let mut iibm: IdMap<IdentIds> = IdMap::new();
    let a_hdr = assemble_header(
        &mut mids,
        &mut iibm,
        &"A".to_string(),
        &vec![exp_entry("a")],
        &vec![imp_entry("B", &["b"])],
        vec![],
    );
    let b_hdr = assemble_header(
        &mut mids,
        &mut iibm,
        &"B".to_string(),
        &vec![exp_entry("b")],
        &vec![],
        vec![],
    );
    let b_id = b_hdr.module_id;
    let exposed: IdMap<ExposedModuleTypes> = IdMap::new();
    let mut waiting: IdMap<ModuleIdSet> = IdMap::new();
    let task = build_parse_and_constrain_task(
        a_hdr,
        Mode::Standard,
        &mids,
        &iibm,
        &exposed,
        SymbolSet::new(),
        &mut waiting,
    );
    match task {
        BuildTask::ParseAndConstrain { module_ids, dep_idents, header, .. } => {
            assert_eq!(module_ids.names, mids.names);
            assert_eq!(
                dep_idents.get(b_id).unwrap().names,
                iibm.get(b_id).unwrap().names
            );
            // B still waits to be solved before A can be.
            assert!(waiting.get(header.module_id).unwrap().contains(b_id));
        }
        other => panic!("expected a parse-and-constrain task, got {:?}", other),
    }
}
