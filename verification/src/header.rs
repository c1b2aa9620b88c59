//! Header assembly: interning a parsed header's names and seeding the
//! module's scope, producing the `ModuleHeader` the coordinator consumes.

use vstd::prelude::*;
use crate::collections::ModuleIdSet;
use crate::ids::{ModuleId, Region, Symbol};
use crate::interns::{IdentIds, ModuleIds};
use crate::maps::{IdMap, NameMap};
use crate::parsed::{
    exposed_from_import, ident_from_exposed, spec_ident_of, spec_import_idents, spec_import_name,
    ExposesEntry, ImportsEntry, Located,
};

verus! {

/// Everything known about a module once its header is parsed and interned:
/// its id and name, its ident table seeded with its exposed names, its
/// direct imports (by name and as a set of ids), the symbols it exposes,
/// the scope seeded from its imports, and the source bytes that follow the
/// header.
#[derive(Debug)]
pub struct ModuleHeader {
    pub module_id: ModuleId,
    pub module_name: String,
    pub exposed_ident_ids: IdentIds,
    pub deps_by_name: NameMap<ModuleId>,
    pub imported_modules: ModuleIdSet,
    pub exposes: Vec<Symbol>,
    pub exposed_imports: NameMap<(Symbol, Region)>,
    pub src_bytes: Vec<u8>,
}

/// A header whose parts fit together: dependency names map to ids tied to
/// the shared table, the imported-module set is exactly the dependency ids,
/// and every scope entry points at an imported module.
pub open spec fn header_wf(h: ModuleHeader) -> bool {
    &&& h.deps_by_name.wf()
    &&& h.imported_modules.wf()
    &&& h.exposed_imports.wf()
    &&& forall|x: ModuleId|
        h.imported_modules.has(x) <==> exists|n: Seq<char>|
            #[trigger] h.deps_by_name.has_name(n) && h.deps_by_name.spec_get(n) == x
}

/// Whether `entry`, recorded in the scope for the name reading `n`, came
/// from an import entry: some import exposes `n`, names the module the
/// entry's symbol lives in, and contributed its region.
pub open spec fn scope_entry_core(
    entry: (Symbol, Region),
    n: Seq<char>,
    imports: Seq<Located<ImportsEntry>>,
    upto: int,
    mids: ModuleIds,
) -> bool {
    exists|k: int|
        0 <= k < upto && #[trigger] spec_import_idents(imports[k].value).contains(n)
            && entry.0.module_id.0 < mids.names@.len() && mids.names@[
            entry.0.module_id.0 as int
        ]@ == spec_import_name(imports[k].value) && entry.1 == imports[k].region
}

/// Whether the entry's ident id is issued in `tbl` as the first entry
/// reading `n`.
pub open spec fn entry_in_table(entry: (Symbol, Region), n: Seq<char>, tbl: IdentIds) -> bool {
    &&& entry.0.ident_id.0 < tbl.names@.len()
    &&& tbl.names@[entry.0.ident_id.0 as int]@ == n
    &&& forall|j: int| 0 <= j < entry.0.ident_id.0 ==> tbl.names@[j]@ != n
}

/// A scope entry fully accounted for: it came from an import, and its
/// ident id is issued in its own dependency's shared table — as the first
/// entry reading the name, so the dependency reuses the same id (and hence
/// yields the same symbol) when it exposes the name itself.
pub open spec fn scope_entry_ok(
    entry: (Symbol, Region),
    n: Seq<char>,
    imports: Seq<Located<ImportsEntry>>,
    upto: int,
    mids: ModuleIds,
    tables: IdMap<IdentIds>,
) -> bool {
    &&& scope_entry_core(entry, n, imports, upto, mids)
    &&& tables.contains_key(entry.0.module_id)
    &&& entry_in_table(entry, n, tables.spec_get(entry.0.module_id))
}

/// Interns a parsed header against the shared tables and assembles the
/// module's header: issues the module's id, makes sure it owns an ident
/// table, interns every dependency, seeds the scope with the identifiers
/// exposed from imports (issuing the ident ids in the dependency's own
/// table, so the dependency reuses them when it arrives), and issues ident
/// ids for the module's own exposed names.
pub fn assemble_header(
    module_ids: &mut ModuleIds,
    ident_ids_by_module: &mut IdMap<IdentIds>,
    declared_name: &String,
    exposes: &Vec<Located<ExposesEntry>>,
    imports: &Vec<Located<ImportsEntry>>,
    src_bytes: Vec<u8>,
) -> (h: ModuleHeader)
    requires
        old(module_ids).wf(),
        old(ident_ids_by_module).wf(),
    ensures
        final(module_ids).wf(),
        old(module_ids).names@.len() <= final(module_ids).names@.len(),
        forall|i: int|
            0 <= i < old(module_ids).names@.len() ==> final(module_ids).names@[i] == old(
                module_ids,
            ).names@[i],
        final(ident_ids_by_module).wf(),
        forall|x: ModuleId|
            old(ident_ids_by_module).contains_key(x) ==> final(ident_ids_by_module).contains_key(
                x,
            ),
        final(ident_ids_by_module).contains_key(h.module_id),
        h.module_id.0 < final(module_ids).names@.len(),
        final(module_ids).names@[h.module_id.0 as int]@ == declared_name@,
        h.module_name@ == declared_name@,
        header_wf(h),
        forall|i: int|
            0 <= i < imports@.len() ==> h.deps_by_name.has_name(
                spec_import_name(#[trigger] imports@[i].value),
            ),
        forall|n: Seq<char>|
            #[trigger] h.deps_by_name.has_name(n) ==> exists|i: int|
                0 <= i < imports@.len() && n == spec_import_name(imports@[i].value),
        forall|n: Seq<char>|
            #[trigger] h.deps_by_name.has_name(n) ==> h.deps_by_name.spec_get(n).0
                < final(module_ids).names@.len() && final(module_ids).names@[
                h.deps_by_name.spec_get(n).0 as int
            ]@ == n,
        h.exposes@.len() == exposes@.len(),
        forall|i: int|
            0 <= i < exposes@.len() ==> (#[trigger] h.exposes@[i]).module_id == h.module_id
                && h.exposes@[i].ident_id.0 < h.exposed_ident_ids.names@.len()
                && h.exposed_ident_ids.names@[h.exposes@[i].ident_id.0 as int]@ == spec_ident_of(
                exposes@[i].value,
            ) && (forall|j: int|
                0 <= j < h.exposes@[i].ident_id.0 ==> h.exposed_ident_ids.names@[j]@
                    != spec_ident_of(exposes@[i].value)),
        // the same exposed name always yields the same symbol
        forall|i: int, k: int|
            #![trigger h.exposes@[i], h.exposes@[k]]
            0 <= i < exposes@.len() && 0 <= k < exposes@.len() && spec_ident_of(exposes@[i].value)
                == spec_ident_of(exposes@[k].value) ==> h.exposes@[i] == h.exposes@[k],
        forall|n: Seq<char>|
            #[trigger] h.exposed_imports.has_name(n) ==> exists|i: int, j: int|
                0 <= i < imports@.len() && 0 <= j < spec_import_idents(imports@[i].value).len()
                    && n == spec_import_idents(imports@[i].value)[j],
        forall|i: int, j: int|
            0 <= i < imports@.len() && 0 <= j < spec_import_idents(imports@[i].value).len()
                ==> h.exposed_imports.has_name(
                #[trigger] spec_import_idents(imports@[i].value)[j],
            ),
        forall|n: Seq<char>|
            #[trigger] h.exposed_imports.has_name(n) ==> h.imported_modules.has(
                h.exposed_imports.spec_get(n).0.module_id,
            ),
        // every scope entry carries the region of an import exposing the
        // name, and an ident id issued in the dependency's own table as
        // the first entry reading the name
        forall|n: Seq<char>|
            #[trigger] h.exposed_imports.has_name(n) ==> scope_entry_ok(
                h.exposed_imports.spec_get(n),
                n,
                imports@,
                imports@.len() as int,
                *final(module_ids),
                *final(ident_ids_by_module),
            ),
        h.src_bytes@ == src_bytes@,
{
    let home: ModuleId = module_ids.get_or_insert(declared_name);

    // Make sure this module owns an entry in the shared ident tables.
    let home_tbl_opt = ident_ids_by_module.remove(home);
    let home_tbl = match home_tbl_opt {
        Some(t) => t,
        None => IdentIds::new(),
    };
    ident_ids_by_module.insert(home, home_tbl);

    let mut deps_by_name: NameMap<ModuleId> = NameMap::new();
    let mut imported_modules: ModuleIdSet = ModuleIdSet::new();
    let mut scope: NameMap<(Symbol, Region)> = NameMap::new();

    let mut i: usize = 0;
    while i < imports.len()
        invariant
            0 <= i <= imports@.len(),
            module_ids.wf(),
            ident_ids_by_module.wf(),
            old(module_ids).names@.len() <= module_ids.names@.len(),
            forall|k: int|
                0 <= k < old(module_ids).names@.len() ==> module_ids.names@[k] == old(
                    module_ids,
                ).names@[k],
            forall|x: ModuleId|
                old(ident_ids_by_module).contains_key(x) ==> ident_ids_by_module.contains_key(x),
            ident_ids_by_module.contains_key(home),
            home.0 < module_ids.names@.len(),
            module_ids.names@[home.0 as int]@ == declared_name@,
            deps_by_name.wf(),
            imported_modules.wf(),
            scope.wf(),
            forall|k: int|
                0 <= k < i ==> deps_by_name.has_name(
                    spec_import_name(#[trigger] imports@[k].value),
                ),
            forall|n: Seq<char>|
                #[trigger] deps_by_name.has_name(n) ==> exists|k: int|
                    0 <= k < i && n == spec_import_name(imports@[k].value),
            forall|n: Seq<char>|
                #[trigger] deps_by_name.has_name(n) ==> deps_by_name.spec_get(n).0
                    < module_ids.names@.len() && module_ids.names@[
                    deps_by_name.spec_get(n).0 as int
                ]@ == n,
            forall|x: ModuleId|
                imported_modules.has(x) <==> exists|n: Seq<char>|
                    #[trigger] deps_by_name.has_name(n) && deps_by_name.spec_get(n) == x,
            forall|n: Seq<char>|
                #[trigger] scope.has_name(n) ==> exists|k: int, j: int|
                    0 <= k < i && 0 <= j < spec_import_idents(imports@[k].value).len() && n
                        == spec_import_idents(imports@[k].value)[j],
            forall|k: int, j: int|
                0 <= k < i && 0 <= j < spec_import_idents(imports@[k].value).len()
                    ==> scope.has_name(#[trigger] spec_import_idents(imports@[k].value)[j]),
            forall|n: Seq<char>|
                #[trigger] scope.has_name(n) ==> imported_modules.has(
                    scope.spec_get(n).0.module_id,
                ),
            forall|n: Seq<char>|
                #[trigger] scope.has_name(n) ==> scope_entry_ok(
                    scope.spec_get(n),
                    n,
                    imports@,
                    i as int,
                    *module_ids,
                    *ident_ids_by_module,
                ),
        decreases imports@.len() - i,
    {
        let ghost ob_mids = *module_ids;
        let ghost ob_map = *ident_ids_by_module;
        let (module_name, exposed_idents) = exposed_from_import(&imports[i].value);
        let region = imports[i].region;

        let dep_id = module_ids.get_or_insert(&module_name);
        deps_by_name.insert(module_name, dep_id);
        imported_modules.insert(dep_id);

        // Issue the exposed identifiers in the dependency's own table, so
        // the dependency reuses the same ids when its header arrives.
        let dep_tbl_opt = ident_ids_by_module.remove(dep_id);
        let mut dep_tbl = match dep_tbl_opt {
            Some(t) => t,
            None => IdentIds::new(),
        };
        proof {
            assert forall|n: Seq<char>| #[trigger] scope.has_name(n) implies {
                let entry = scope.spec_get(n);
                &&& scope_entry_core(entry, n, imports@, i + 1 as int, *module_ids)
                &&& (entry.0.module_id == dep_id ==> entry_in_table(entry, n, dep_tbl))
                &&& (entry.0.module_id != dep_id ==> ident_ids_by_module.contains_key(
                    entry.0.module_id,
                ) && entry_in_table(entry, n, ident_ids_by_module.spec_get(entry.0.module_id)))
            } by {
                let entry = scope.spec_get(n);
                assert(scope_entry_ok(entry, n, imports@, i as int, ob_mids, ob_map));
                let k = choose|k: int|
                    0 <= k < i && #[trigger] spec_import_idents(imports@[k].value).contains(n)
                        && entry.0.module_id.0 < ob_mids.names@.len() && ob_mids.names@[
                        entry.0.module_id.0 as int
                    ]@ == spec_import_name(imports@[k].value) && entry.1 == imports@[k].region;
                assert(module_ids.names@[entry.0.module_id.0 as int] == ob_mids.names@[
                    entry.0.module_id.0 as int
                ]);
                assert(scope_entry_core(entry, n, imports@, i + 1 as int, *module_ids));
            }
        }
        let mut j: usize = 0;
        while j < exposed_idents.len()
            invariant
                0 <= j <= exposed_idents@.len(),
                crate::parsed::name_views(exposed_idents@) == spec_import_idents(
                    imports@[i as int].value,
                ),
                i < imports@.len(),
                region == imports@[i as int].region,
                dep_id.0 < module_ids.names@.len(),
                module_ids.names@[dep_id.0 as int]@ == spec_import_name(imports@[i as int].value),
                scope.wf(),
                forall|n: Seq<char>|
                    #[trigger] scope.has_name(n) ==> {
                        let entry = scope.spec_get(n);
                        &&& scope_entry_core(entry, n, imports@, i + 1 as int, *module_ids)
                        &&& (entry.0.module_id == dep_id ==> entry_in_table(entry, n, dep_tbl))
                        &&& (entry.0.module_id != dep_id ==> ident_ids_by_module.contains_key(
                            entry.0.module_id,
                        ) && entry_in_table(
                            entry,
                            n,
                            ident_ids_by_module.spec_get(entry.0.module_id),
                        ))
                    },
                forall|n: Seq<char>|
                    #[trigger] scope.has_name(n) ==> (exists|k: int, jj: int|
                        0 <= k < i && 0 <= jj < spec_import_idents(imports@[k].value).len() && n
                            == spec_import_idents(imports@[k].value)[jj]) || (exists|jj: int|
                        0 <= jj < j && n == spec_import_idents(imports@[i as int].value)[jj]),
                forall|k: int, jj: int|
                    0 <= k < i && 0 <= jj < spec_import_idents(imports@[k].value).len()
                        ==> scope.has_name(#[trigger] spec_import_idents(imports@[k].value)[jj]),
                forall|jj: int|
                    0 <= jj < j ==> scope.has_name(
                        spec_import_idents(imports@[i as int].value)[jj],
                    ),
                forall|n: Seq<char>|
                    #[trigger] scope.has_name(n) ==> imported_modules.has(
                        scope.spec_get(n).0.module_id,
                    ) || scope.spec_get(n).0.module_id == dep_id,
            decreases exposed_idents@.len() - j,
        {
            let ghost scope0 = scope;
            let ghost dep_tbl0 = dep_tbl;
            let ident = exposed_idents[j].clone();
            proof {
                assert(crate::parsed::name_views(exposed_idents@)[j as int]
                    == exposed_idents@[j as int]@);
                assert(ident@ == spec_import_idents(imports@[i as int].value)[j as int]);
            }
            let ident_id = dep_tbl.get_or_insert(&ident);
            scope.insert(ident, (Symbol::new(dep_id, ident_id), region));
            proof {
                assert(forall|jj: int|
                    0 <= jj < dep_tbl0.names@.len() ==> dep_tbl.names@[jj]
                        == dep_tbl0.names@[jj]);
                assert forall|n: Seq<char>| #[trigger] scope.has_name(n) implies {
                    let entry = scope.spec_get(n);
                    &&& scope_entry_core(entry, n, imports@, i + 1 as int, *module_ids)
                    &&& (entry.0.module_id == dep_id ==> entry_in_table(entry, n, dep_tbl))
                    &&& (entry.0.module_id != dep_id ==> ident_ids_by_module.contains_key(
                        entry.0.module_id,
                    ) && entry_in_table(entry, n, ident_ids_by_module.spec_get(entry.0.module_id)))
                } by {
                    if n == ident@ {
                        assert(scope.spec_get(n) == (
                            Symbol { module_id: dep_id, ident_id },
                            region,
                        ));
                        assert(spec_import_idents(imports@[i as int].value).contains(n)) by {
                            assert(spec_import_idents(imports@[i as int].value)[j as int] == n);
                        }
                        assert(scope_entry_core(
                            scope.spec_get(n),
                            n,
                            imports@,
                            i + 1 as int,
                            *module_ids,
                        )) by {
                            assert(0 <= i < i + 1 && spec_import_idents(
                                imports@[i as int].value,
                            ).contains(n));
                        }
                    } else {
                        assert(scope0.has_name(n));
                        assert(scope.spec_get(n) == scope0.spec_get(n));
                    }
                }
            }
            proof {
                assert forall|n: Seq<char>| #[trigger]
                    scope.has_name(n) implies (exists|k: int, jj: int|
                    0 <= k < i && 0 <= jj < spec_import_idents(imports@[k].value).len() && n
                        == spec_import_idents(imports@[k].value)[jj]) || (exists|jj: int|
                    0 <= jj < j + 1 && n == spec_import_idents(imports@[i as int].value)[jj]) by {
                    if n == spec_import_idents(imports@[i as int].value)[j as int] {
                        assert(0 <= j < j + 1 && n == spec_import_idents(
                            imports@[i as int].value,
                        )[j as int]);
                    } else {
                        assert(scope0.has_name(n));
                        if exists|jj: int|
                            0 <= jj < j && n == spec_import_idents(imports@[i as int].value)[jj] {
                            let jj = choose|jj: int|
                                0 <= jj < j && n == spec_import_idents(
                                    imports@[i as int].value,
                                )[jj];
                            assert(0 <= jj < j + 1 && n == spec_import_idents(
                                imports@[i as int].value,
                            )[jj]);
                        }
                    }
                }
            }
            j += 1;
        }
        ident_ids_by_module.insert(dep_id, dep_tbl);
        proof {
            assert forall|n: Seq<char>| #[trigger]
                scope.has_name(n) implies imported_modules.has(scope.spec_get(n).0.module_id) by {
                assert(imported_modules.has(dep_id));
            }
            assert forall|n: Seq<char>| #[trigger] scope.has_name(n) implies scope_entry_ok(
                scope.spec_get(n),
                n,
                imports@,
                i + 1 as int,
                *module_ids,
                *ident_ids_by_module,
            ) by {
                let entry = scope.spec_get(n);
                if entry.0.module_id == dep_id {
                    assert(ident_ids_by_module.spec_get(dep_id) == dep_tbl);
                }
            }
        }
        i += 1;
    }

    // Issue ident ids for all names this module itself exposes; an id may
    // already exist if a dependent imported the name earlier.
    let ghost map_outer = *ident_ids_by_module;
    let home_tbl_opt = ident_ids_by_module.remove(home);
    let mut home_tbl = match home_tbl_opt {
        Some(t) => t,
        None => IdentIds::new(),
    };
    let ghost home_tbl_start = home_tbl;
    let mut exposed_syms: Vec<Symbol> = Vec::new();
    let mut e: usize = 0;
    while e < exposes.len()
        invariant
            0 <= e <= exposes@.len(),
            exposed_syms@.len() == e,
            home_tbl_start.names@.len() <= home_tbl.names@.len(),
            forall|jj: int|
                0 <= jj < home_tbl_start.names@.len() ==> home_tbl.names@[jj]
                    == home_tbl_start.names@[jj],
            forall|k: int|
                0 <= k < e ==> (#[trigger] exposed_syms@[k]).module_id == home
                    && exposed_syms@[k].ident_id.0 < home_tbl.names@.len()
                    && home_tbl.names@[exposed_syms@[k].ident_id.0 as int]@ == spec_ident_of(
                    exposes@[k].value,
                ) && (forall|j: int|
                    0 <= j < exposed_syms@[k].ident_id.0 ==> home_tbl.names@[j]@
                        != spec_ident_of(exposes@[k].value)),
        decreases exposes@.len() - e,
    {
        let ghost home_tbl0 = home_tbl;
        let ident = ident_from_exposed(&exposes[e].value);
        let ident_id = home_tbl.get_or_insert(&ident);
        exposed_syms.push(Symbol::new(home, ident_id));
        proof {
            assert(forall|jj: int|
                0 <= jj < home_tbl0.names@.len() ==> home_tbl.names@[jj]
                    == home_tbl0.names@[jj]);
        }
        e += 1;
    }
    let exposed_ident_ids = home_tbl.duplicate();
    proof {
        assert forall|i2: int, k2: int|
            #![trigger exposed_syms@[i2], exposed_syms@[k2]]
            0 <= i2 < exposes@.len() && 0 <= k2 < exposes@.len() && spec_ident_of(
                exposes@[i2].value,
            ) == spec_ident_of(exposes@[k2].value) implies exposed_syms@[i2]
            == exposed_syms@[k2] by {
            let a = exposed_syms@[i2].ident_id.0 as int;
            let b = exposed_syms@[k2].ident_id.0 as int;
            if a < b {
                assert(home_tbl.names@[a]@ == spec_ident_of(exposes@[i2].value));
                assert(home_tbl.names@[a]@ != spec_ident_of(exposes@[k2].value));
                assert(false);
            } else if b < a {
                assert(home_tbl.names@[b]@ == spec_ident_of(exposes@[k2].value));
                assert(home_tbl.names@[b]@ != spec_ident_of(exposes@[i2].value));
                assert(false);
            }
        }
    }
    let ghost home_tbl_fin = home_tbl;
    ident_ids_by_module.insert(home, home_tbl);
    proof {
        assert forall|n: Seq<char>| #[trigger] scope.has_name(n) implies scope_entry_ok(
            scope.spec_get(n),
            n,
            imports@,
            imports@.len() as int,
            *module_ids,
            *ident_ids_by_module,
        ) by {
            let entry = scope.spec_get(n);
            assert(scope_entry_ok(
                entry,
                n,
                imports@,
                imports@.len() as int,
                *module_ids,
                map_outer,
            ));
            if entry.0.module_id == home {
                assert(map_outer.spec_get(home) == home_tbl_start);
                assert(ident_ids_by_module.spec_get(home) == home_tbl_fin);
                assert(entry_in_table(entry, n, home_tbl_fin)) by {
                    assert(entry.0.ident_id.0 < home_tbl_start.names@.len());
                    assert(home_tbl_fin.names@[entry.0.ident_id.0 as int]
                        == home_tbl_start.names@[entry.0.ident_id.0 as int]);
                    assert forall|j: int|
                        0 <= j < entry.0.ident_id.0 implies home_tbl_fin.names@[j]@ != n by {
                        assert(home_tbl_fin.names@[j] == home_tbl_start.names@[j]);
                    }
                }
            } else {
                assert(ident_ids_by_module.contains_key(entry.0.module_id));
                assert(ident_ids_by_module.spec_get(entry.0.module_id) == map_outer.spec_get(
                    entry.0.module_id,
                ));
            }
        }
    }

    ModuleHeader {
        module_id: home,
        module_name: declared_name.clone(),
        exposed_ident_ids,
        deps_by_name,
        imported_modules,
        exposes: exposed_syms,
        exposed_imports: scope,
        src_bytes,
    }
}

} // verus!
