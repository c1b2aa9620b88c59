//! Intern tables: module names to dense `ModuleId`s, local names to dense
//! `IdentId`s, and the merged `Interns` a finished load returns.

use vstd::prelude::*;
use vstd::string::*;
use crate::ids::{IdentId, ModuleId};
use crate::maps::{contains_name, distinct_names, IdMap};

verus! {

/// The shared table assigning a dense `ModuleId` to every module name
/// observed during a load.  Ids are indices into `names`, issued in
/// insertion order; a name is never interned twice.
#[derive(Debug)]
pub struct ModuleIds {
    pub names: Vec<String>,
}

impl ModuleIds {
    pub open spec fn wf(self) -> bool {
        distinct_names(self.names@)
    }

    pub open spec fn has_name(self, n: Seq<char>) -> bool {
        contains_name(self.names@, n)
    }

    /// The id the name reading `n` was issued; meaningful only when
    /// `has_name(n)`.
    pub open spec fn spec_id_of(self, n: Seq<char>) -> int {
        choose|i: int| 0 <= i < self.names@.len() && self.names@[i]@ == n
    }

    pub open spec fn spec_len(self) -> nat {
        self.names@.len()
    }

    pub proof fn lemma_id_of(self, n: Seq<char>, i: int)
        requires
            self.wf(),
            0 <= i < self.names@.len(),
            self.names@[i]@ == n,
        ensures
            self.spec_id_of(n) == i,
            self.has_name(n),
    {
        assert(exists|j: int| 0 <= j < self.names@.len() && self.names@[j]@ == n);
        let k = self.spec_id_of(n);
        if k < i {
            assert(self.names@[k]@ != self.names@[i]@);
        } else if k > i {
            assert(self.names@[i]@ != self.names@[k]@);
        }
    }

    /// Issued ids name each interned name exactly once: distinct names get
    /// distinct ids, and every issued id leads back to the one name it was
    /// issued for.
    pub proof fn lemma_bijective(self)
        requires
            self.wf(),
        ensures
            forall|a: Seq<char>, b: Seq<char>|
                self.has_name(a) && self.has_name(b) && self.spec_id_of(a) == self.spec_id_of(b)
                    ==> a == b,
            forall|i: int|
                0 <= i < self.names@.len() ==> self.has_name(#[trigger] self.names@[i]@)
                    && self.spec_id_of(self.names@[i]@) == i,
    {
        assert forall|a: Seq<char>, b: Seq<char>|
            self.has_name(a) && self.has_name(b) && self.spec_id_of(a) == self.spec_id_of(
                b,
            ) implies a == b by {
            let ka = choose|i: int| 0 <= i < self.names@.len() && self.names@[i]@ == a;
            let kb = choose|i: int| 0 <= i < self.names@.len() && self.names@[i]@ == b;
            self.lemma_id_of(a, ka);
            self.lemma_id_of(b, kb);
        }
        assert forall|i: int|
            0 <= i < self.names@.len() implies self.has_name(#[trigger] self.names@[i]@)
            && self.spec_id_of(self.names@[i]@) == i by {
            self.lemma_id_of(self.names@[i]@, i);
        }
    }

    pub fn new() -> (m: ModuleIds)
        ensures
            m.wf(),
            forall|n: Seq<char>| !m.has_name(n),
            m.spec_len() == 0,
    {
        ModuleIds { names: Vec::new() }
    }

    pub fn len(&self) -> (n: usize)
        ensures
            n == self.spec_len(),
    {
        self.names.len()
    }

    /// The id of `name`, interning it first if it has not been seen.
    /// An already interned name keeps the id it was issued.
    pub fn get_or_insert(&mut self, name: &String) -> (id: ModuleId)
        requires
            old(self).wf(),
        ensures
            final(self).wf(),
            forall|n: Seq<char>| final(self).has_name(n) <==> old(self).has_name(n) || n == name@,
            id.0 < final(self).spec_len(),
            final(self).names@[id.0 as int]@ == name@,
            final(self).spec_id_of(name@) == id.0 as int,
            old(self).has_name(name@) ==> final(self).names@ == old(self).names@ && id.0 as int
                == old(self).spec_id_of(name@),
            !old(self).has_name(name@) ==> final(self).names@ == old(self).names@.push(*name)
                && id.0 as int == old(self).spec_len(),
    {
        let mut i: usize = 0;
        while i < self.names.len()
            invariant
                *old(self) == *self,
                self.wf(),
                0 <= i <= self.names@.len(),
                forall|j: int| 0 <= j < i ==> self.names@[j]@ != name@,
            decreases self.names@.len() - i,
        {
            if self.names[i].eq(name) {
                proof {
                    self.lemma_id_of(name@, i as int);
                }
                return ModuleId(i);
            }
            i += 1;
        }
        proof {
            assert forall|a: int, b: int|
                #![trigger self.names@.push(*name)[a], self.names@.push(*name)[b]]
                0 <= a < b < self.names@.push(*name).len() implies self.names@.push(*name)[a]@
                != self.names@.push(*name)[b]@ by {
                if b < self.names@.len() {
                    assert(self.names@.push(*name)[a] == self.names@[a]);
                    assert(self.names@.push(*name)[b] == self.names@[b]);
                } else {
                    assert(self.names@.push(*name)[b] == *name);
                    assert(self.names@.push(*name)[a] == self.names@[a]);
                }
            }
        }
        let n = self.names.len();
        self.names.push(name.clone());
        proof {
            self.lemma_id_of(name@, n as int);
            assert forall|x: Seq<char>|
                self.has_name(x) <==> old(self).has_name(x) || x == name@ by {
                if self.has_name(x) {
                    let k = choose|k: int| 0 <= k < self.names@.len() && self.names@[k]@ == x;
                    if k < n {
                        assert(old(self).names@[k]@ == x);
                    }
                }
                if old(self).has_name(x) {
                    let k = choose|k: int|
                        0 <= k < old(self).names@.len() && old(self).names@[k]@ == x;
                    assert(self.names@[k]@ == x);
                }
            }
        }
        ModuleId(n)
    }

    /// The name an id was issued for.
    pub fn name_of(&self, id: ModuleId) -> (r: Option<&String>)
        ensures
            r is Some <==> id.0 < self.spec_len(),
            r matches Some(s) ==> s@ == self.names@[id.0 as int]@,
    {
        if id.0 < self.names.len() {
            Some(&self.names[id.0])
        } else {
            None
        }
    }

    /// An equal, independently owned table.
    pub fn duplicate(&self) -> (m: ModuleIds)
        ensures
            m.names@ == self.names@,
    {
        let mut names: Vec<String> = Vec::new();
        let mut i: usize = 0;
        while i < self.names.len()
            invariant
                0 <= i <= self.names@.len(),
                names@ =~= self.names@.subrange(0, i as int),
            decreases self.names@.len() - i,
        {
            names.push(self.names[i].clone());
            i += 1;
        }
        proof {
            assert(names@ =~= self.names@);
        }
        ModuleIds { names }
    }
}

/// One module's table of interned local names.  `add` always issues a fresh
/// id; `get_or_insert` reuses the id of the first entry reading the same.
#[derive(Debug)]
pub struct IdentIds {
    pub names: Vec<String>,
}

impl IdentIds {
    pub open spec fn has_name(self, n: Seq<char>) -> bool {
        contains_name(self.names@, n)
    }

    pub open spec fn spec_len(self) -> nat {
        self.names@.len()
    }

    pub fn new() -> (m: IdentIds)
        ensures
            m.names@ == Seq::<String>::empty(),
    {
        IdentIds { names: Vec::new() }
    }

    pub fn len(&self) -> (n: usize)
        ensures
            n == self.spec_len(),
    {
        self.names.len()
    }

    /// Issues a fresh id for `name`, even if it was seen before.
    pub fn add(&mut self, name: String) -> (id: IdentId)
        ensures
            final(self).names@ == old(self).names@.push(name),
            id.0 == old(self).spec_len(),
    {
        let n = self.names.len();
        self.names.push(name);
        IdentId(n)
    }

    /// The id of the first entry reading as `name`, interning `name` if no
    /// entry does.
    pub fn get_or_insert(&mut self, name: &String) -> (id: IdentId)
        ensures
            id.0 < final(self).spec_len(),
            final(self).names@[id.0 as int]@ == name@,
            forall|j: int| 0 <= j < id.0 ==> final(self).names@[j]@ != name@,
            old(self).has_name(name@) ==> final(self).names@ == old(self).names@,
            !old(self).has_name(name@) ==> final(self).names@ == old(self).names@.push(*name)
                && id.0 == old(self).spec_len(),
    {
        let mut i: usize = 0;
        while i < self.names.len()
            invariant
                *old(self) == *self,
                0 <= i <= self.names@.len(),
                forall|j: int| 0 <= j < i ==> self.names@[j]@ != name@,
            decreases self.names@.len() - i,
        {
            if self.names[i].eq(name) {
                return IdentId(i);
            }
            i += 1;
        }
        let n = self.names.len();
        self.names.push(name.clone());
        IdentId(n)
    }

    /// The name an id was issued for.
    pub fn name_of(&self, id: IdentId) -> (r: Option<&String>)
        ensures
            r is Some <==> id.0 < self.spec_len(),
            r matches Some(s) ==> s@ == self.names@[id.0 as int]@,
    {
        if id.0 < self.names.len() {
            Some(&self.names[id.0])
        } else {
            None
        }
    }

    /// An equal, independently owned table.
    pub fn duplicate(&self) -> (m: IdentIds)
        ensures
            m.names@ == self.names@,
    {
        let mut names: Vec<String> = Vec::new();
        let mut i: usize = 0;
        while i < self.names.len()
            invariant
                0 <= i <= self.names@.len(),
                names@ =~= self.names@.subrange(0, i as int),
            decreases self.names@.len() - i,
        {
            names.push(self.names[i].clone());
            i += 1;
        }
        proof {
            assert(names@ =~= self.names@);
        }
        IdentIds { names }
    }
}

/// The merged intern tables a finished load hands back: every module name
/// with its id, and every module's final ident table.
#[derive(Debug)]
pub struct Interns {
    pub module_ids: ModuleIds,
    pub all_ident_ids: IdMap<IdentIds>,
}

} // verus!
