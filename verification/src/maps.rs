//! Association maps with exact contracts: one keyed by `ModuleId`, one keyed
//! by name.  Keys are kept distinct; lookups and updates are specified
//! against the unique position of a key.

use vstd::prelude::*;
use crate::collections::{distinct, lemma_push_contains, lemma_push_keeps_distinct,
    lemma_remove_distinct};
use crate::ids::ModuleId;

verus! {

/// A map from module ids to values, kept as parallel vectors with distinct
/// keys.
#[derive(Debug)]
pub struct IdMap<V> {
    pub keys: Vec<ModuleId>,
    pub vals: Vec<V>,
}

impl<V> IdMap<V> {
    pub open spec fn wf(self) -> bool {
        distinct(self.keys@) && self.keys@.len() == self.vals@.len()
    }

    pub open spec fn contains_key(self, id: ModuleId) -> bool {
        self.keys@.contains(id)
    }

    pub open spec fn key_idx(self, id: ModuleId) -> int {
        choose|i: int| 0 <= i < self.keys@.len() && self.keys@[i] == id
    }

    /// The value at `id`; meaningful only when `contains_key(id)`.
    pub open spec fn spec_get(self, id: ModuleId) -> V {
        self.vals@[self.key_idx(id)]
    }

    pub open spec fn spec_len(self) -> nat {
        self.keys@.len()
    }

    pub proof fn lemma_key_idx(self, id: ModuleId, i: int)
        requires
            self.wf(),
            0 <= i < self.keys@.len(),
            self.keys@[i] == id,
        ensures
            self.key_idx(id) == i,
            self.contains_key(id),
    {
        assert(exists|j: int| 0 <= j < self.keys@.len() && self.keys@[j] == id);
        let k = self.key_idx(id);
        if k < i {
            assert(self.keys@[k] != self.keys@[i]);
        } else if k > i {
            assert(self.keys@[i] != self.keys@[k]);
        }
    }

    pub fn new() -> (m: IdMap<V>)
        ensures
            m.wf(),
            forall|x: ModuleId| !m.contains_key(x),
            m.spec_len() == 0,
    {
        IdMap { keys: Vec::new(), vals: Vec::new() }
    }

    pub fn len(&self) -> (n: usize)
        ensures
            n == self.spec_len(),
    {
        self.keys.len()
    }

    pub fn contains(&self, id: ModuleId) -> (r: bool)
        ensures
            r == self.contains_key(id),
    {
        let mut i: usize = 0;
        while i < self.keys.len()
            invariant
                0 <= i <= self.keys@.len(),
                forall|j: int| 0 <= j < i ==> self.keys@[j] != id,
            decreases self.keys@.len() - i,
        {
            if self.keys[i] == id {
                return true;
            }
            i += 1;
        }
        false
    }

    pub fn get(&self, id: ModuleId) -> (r: Option<&V>)
        requires
            self.wf(),
        ensures
            r is Some <==> self.contains_key(id),
            r matches Some(v) ==> *v == self.spec_get(id),
    {
        let mut i: usize = 0;
        while i < self.keys.len()
            invariant
                self.wf(),
                0 <= i <= self.keys@.len(),
                forall|j: int| 0 <= j < i ==> self.keys@[j] != id,
            decreases self.keys@.len() - i,
        {
            if self.keys[i] == id {
                proof {
                    self.lemma_key_idx(id, i as int);
                }
                return Some(&self.vals[i]);
            }
            i += 1;
        }
        None
    }

    /// Maps `id` to `v`; an existing entry is replaced.
    pub fn insert(&mut self, id: ModuleId, v: V)
        requires
            old(self).wf(),
        ensures
            final(self).wf(),
            forall|x: ModuleId|
                final(self).contains_key(x) <==> old(self).contains_key(x) || x == id,
            final(self).spec_get(id) == v,
            forall|x: ModuleId|
                old(self).contains_key(x) && x != id ==> final(self).spec_get(x) == old(
                    self,
                ).spec_get(x),
            final(self).spec_len() == old(self).spec_len() + (if old(self).contains_key(id) {
                0int
            } else {
                1int
            }),
    {
        let ghost pre = *self;
        let mut i: usize = 0;
        while i < self.keys.len()
            invariant
                *old(self) == *self,
                self.wf(),
                0 <= i <= self.keys@.len(),
                forall|j: int| 0 <= j < i ==> self.keys@[j] != id,
            decreases self.keys@.len() - i,
        {
            if self.keys[i] == id {
                proof {
                    old(self).lemma_key_idx(id, i as int);
                }
                self.vals[i] = v;
                proof {
                    self.lemma_key_idx(id, i as int);
                    assert forall|x: ModuleId|
                        old(self).contains_key(x) && x != id implies self.spec_get(x) == old(
                        self,
                    ).spec_get(x) by {
                        let k = choose|k: int|
                            0 <= k < old(self).keys@.len() && old(self).keys@[k] == x;
                        old(self).lemma_key_idx(x, k);
                        self.lemma_key_idx(x, k);
                        assert(k != i);
                    }
                }
                return ;
            }
            i += 1;
        }
        proof {
            lemma_push_keeps_distinct(self.keys@, id);
            lemma_push_contains(self.keys@, id);
        }
        let ghost n = self.keys@.len();
        self.keys.push(id);
        self.vals.push(v);
        proof {
            self.lemma_key_idx(id, n as int);
            assert forall|x: ModuleId|
                old(self).contains_key(x) && x != id implies self.spec_get(x) == old(
                self,
            ).spec_get(x) by {
                let k = choose|k: int| 0 <= k < old(self).keys@.len() && old(self).keys@[k] == x;
                old(self).lemma_key_idx(x, k);
                self.lemma_key_idx(x, k);
            }
        }
    }

    /// Takes the entry at `id` out of the map.
    pub fn remove(&mut self, id: ModuleId) -> (r: Option<V>)
        requires
            old(self).wf(),
        ensures
            final(self).wf(),
            r is Some <==> old(self).contains_key(id),
            r matches Some(v) ==> v == old(self).spec_get(id),
            forall|x: ModuleId|
                final(self).contains_key(x) <==> old(self).contains_key(x) && x != id,
            forall|x: ModuleId|
                old(self).contains_key(x) && x != id ==> final(self).spec_get(x) == old(
                    self,
                ).spec_get(x) && final(self).contains_key(x),
    {
        let mut i: usize = 0;
        while i < self.keys.len()
            invariant
                *old(self) == *self,
                self.wf(),
                0 <= i <= self.keys@.len(),
                forall|j: int| 0 <= j < i ==> self.keys@[j] != id,
            decreases self.keys@.len() - i,
        {
            if self.keys[i] == id {
                proof {
                    old(self).lemma_key_idx(id, i as int);
                    lemma_remove_distinct(self.keys@, i as int);
                }
                let v = self.vals.remove(i);
                self.keys.remove(i);
                proof {
                    assert forall|x: ModuleId|
                        old(self).contains_key(x) && x != id implies self.spec_get(x) == old(
                        self,
                    ).spec_get(x) && self.contains_key(x) by {
                        let k = choose|k: int|
                            0 <= k < old(self).keys@.len() && old(self).keys@[k] == x;
                        old(self).lemma_key_idx(x, k);
                        if k < i {
                            assert(self.keys@[k] == x);
                            self.lemma_key_idx(x, k);
                        } else {
                            assert(k != i);
                            assert(self.keys@[k - 1] == x);
                            self.lemma_key_idx(x, k - 1);
                        }
                    }
                }
                return Some(v);
            }
            i += 1;
        }
        None
    }
}

/// Whether no two names in `s` read the same.
pub open spec fn distinct_names(s: Seq<String>) -> bool {
    forall|i: int, j: int|
        #![trigger s[i], s[j]]
        0 <= i < j < s.len() ==> s[i]@ != s[j]@
}

/// Whether some entry of `s` reads as `n`.
pub open spec fn contains_name(s: Seq<String>, n: Seq<char>) -> bool {
    exists|i: int| 0 <= i < s.len() && s[i]@ == n
}

/// A map from names to values, kept as parallel vectors whose keys read
/// pairwise differently.
#[derive(Debug)]
pub struct NameMap<V> {
    pub keys: Vec<String>,
    pub vals: Vec<V>,
}

impl<V> NameMap<V> {
    pub open spec fn wf(self) -> bool {
        distinct_names(self.keys@) && self.keys@.len() == self.vals@.len()
    }

    pub open spec fn has_name(self, n: Seq<char>) -> bool {
        contains_name(self.keys@, n)
    }

    pub open spec fn name_idx(self, n: Seq<char>) -> int {
        choose|i: int| 0 <= i < self.keys@.len() && self.keys@[i]@ == n
    }

    /// The value under the name reading `n`; meaningful only when
    /// `has_name(n)`.
    pub open spec fn spec_get(self, n: Seq<char>) -> V {
        self.vals@[self.name_idx(n)]
    }

    pub open spec fn spec_len(self) -> nat {
        self.keys@.len()
    }

    pub proof fn lemma_name_idx(self, n: Seq<char>, i: int)
        requires
            self.wf(),
            0 <= i < self.keys@.len(),
            self.keys@[i]@ == n,
        ensures
            self.name_idx(n) == i,
            self.has_name(n),
    {
        assert(exists|j: int| 0 <= j < self.keys@.len() && self.keys@[j]@ == n);
        let k = self.name_idx(n);
        if k < i {
            assert(self.keys@[k]@ != self.keys@[i]@);
        } else if k > i {
            assert(self.keys@[i]@ != self.keys@[k]@);
        }
    }

    pub fn new() -> (m: NameMap<V>)
        ensures
            m.wf(),
            forall|n: Seq<char>| !m.has_name(n),
            m.spec_len() == 0,
    {
        NameMap { keys: Vec::new(), vals: Vec::new() }
    }

    pub fn len(&self) -> (n: usize)
        ensures
            n == self.spec_len(),
    {
        self.keys.len()
    }

    pub fn get(&self, name: &String) -> (r: Option<&V>)
        requires
            self.wf(),
        ensures
            r is Some <==> self.has_name(name@),
            r matches Some(v) ==> *v == self.spec_get(name@),
    {
        let mut i: usize = 0;
        while i < self.keys.len()
            invariant
                self.wf(),
                0 <= i <= self.keys@.len(),
                forall|j: int| 0 <= j < i ==> self.keys@[j]@ != name@,
            decreases self.keys@.len() - i,
        {
            if self.keys[i].eq(name) {
                proof {
                    self.lemma_name_idx(name@, i as int);
                }
                return Some(&self.vals[i]);
            }
            i += 1;
        }
        None
    }

    /// Maps the name to `v`; an entry reading the same is replaced.
    pub fn insert(&mut self, name: String, v: V)
        requires
            old(self).wf(),
        ensures
            final(self).wf(),
            forall|n: Seq<char>| final(self).has_name(n) <==> old(self).has_name(n) || n == name@,
            final(self).spec_get(name@) == v,
            forall|n: Seq<char>|
                old(self).has_name(n) && n != name@ ==> final(self).spec_get(n) == old(
                    self,
                ).spec_get(n),
            final(self).spec_len() == old(self).spec_len() + (if old(self).has_name(name@) {
                0int
            } else {
                1int
            }),
    {
        let mut i: usize = 0;
        while i < self.keys.len()
            invariant
                *old(self) == *self,
                self.wf(),
                0 <= i <= self.keys@.len(),
                forall|j: int| 0 <= j < i ==> self.keys@[j]@ != name@,
            decreases self.keys@.len() - i,
        {
            if self.keys[i].eq(&name) {
                proof {
                    old(self).lemma_name_idx(name@, i as int);
                }
                self.vals[i] = v;
                proof {
                    self.lemma_name_idx(name@, i as int);
                    assert forall|n: Seq<char>|
                        self.has_name(n) <==> old(self).has_name(n) || n == name@ by {
                        if self.has_name(n) {
                            let k = choose|k: int|
                                0 <= k < self.keys@.len() && self.keys@[k]@ == n;
                            assert(old(self).keys@[k]@ == n);
                        }
                        if old(self).has_name(n) {
                            let k = choose|k: int|
                                0 <= k < old(self).keys@.len() && old(self).keys@[k]@ == n;
                            assert(self.keys@[k]@ == n);
                        }
                    }
                    assert forall|n: Seq<char>|
                        old(self).has_name(n) && n != name@ implies self.spec_get(n) == old(
                        self,
                    ).spec_get(n) by {
                        let k = choose|k: int|
                            0 <= k < old(self).keys@.len() && old(self).keys@[k]@ == n;
                        old(self).lemma_name_idx(n, k);
                        self.lemma_name_idx(n, k);
                        assert(k != i);
                    }
                }
                return ;
            }
            i += 1;
        }
        proof {
            assert forall|a: int, b: int|
                #![trigger self.keys@.push(name)[a], self.keys@.push(name)[b]]
                0 <= a < b < self.keys@.push(name).len() implies self.keys@.push(name)[a]@
                != self.keys@.push(name)[b]@ by {
                if b < self.keys@.len() {
                    assert(self.keys@.push(name)[a] == self.keys@[a]);
                    assert(self.keys@.push(name)[b] == self.keys@[b]);
                } else {
                    assert(self.keys@.push(name)[b] == name);
                    assert(self.keys@.push(name)[a] == self.keys@[a]);
                }
            }
        }
        let ghost n0 = self.keys@.len();
        self.keys.push(name);
        self.vals.push(v);
        proof {
            self.lemma_name_idx(self.keys@[n0 as int]@, n0 as int);
            assert forall|n: Seq<char>|
                self.has_name(n) <==> old(self).has_name(n) || n == self.keys@[n0 as int]@ by {
                if self.has_name(n) {
                    let k = choose|k: int| 0 <= k < self.keys@.len() && self.keys@[k]@ == n;
                    if k < n0 {
                        assert(old(self).keys@[k]@ == n);
                    }
                }
                if old(self).has_name(n) {
                    let k = choose|k: int|
                        0 <= k < old(self).keys@.len() && old(self).keys@[k]@ == n;
                    assert(self.keys@[k]@ == n);
                }
            }
            assert forall|n: Seq<char>|
                old(self).has_name(n) && n != self.keys@[n0 as int]@ implies self.spec_get(n)
                == old(self).spec_get(n) by {
                let k = choose|k: int| 0 <= k < old(self).keys@.len() && old(self).keys@[k]@ == n;
                old(self).lemma_name_idx(n, k);
                self.lemma_name_idx(n, k);
            }
        }
    }

    /// Whether the map is well formed; a map handed in from outside can be
    /// checked before its well-formedness is relied on.
    pub fn check_wf(&self) -> (r: bool)
        ensures
            r == self.wf(),
    {
        if self.keys.len() != self.vals.len() {
            return false;
        }
        let mut i: usize = 0;
        while i < self.keys.len()
            invariant
                0 <= i <= self.keys@.len(),
                self.keys@.len() == self.vals@.len(),
                forall|a: int, b: int|
                    #![trigger self.keys@[a], self.keys@[b]]
                    0 <= a < b < i ==> self.keys@[a]@ != self.keys@[b]@,
            decreases self.keys@.len() - i,
        {
            let mut j: usize = 0;
            while j < i
                invariant
                    0 <= j <= i < self.keys@.len(),
                    self.keys@.len() == self.vals@.len(),
                    forall|a: int, b: int|
                        #![trigger self.keys@[a], self.keys@[b]]
                        0 <= a < b < i ==> self.keys@[a]@ != self.keys@[b]@,
                    forall|a: int| 0 <= a < j ==> self.keys@[a]@ != self.keys@[i as int]@,
                decreases i - j,
            {
                if self.keys[j].eq(&self.keys[i]) {
                    proof {
                        assert(!distinct_names(self.keys@));
                    }
                    return false;
                }
                j += 1;
            }
            i += 1;
        }
        true
    }

    pub fn key_at(&self, i: usize) -> (k: &String)
        requires
            self.wf(),
            i < self.spec_len(),
        ensures
            k@ == self.keys@[i as int]@,
            self.has_name(k@),
            self.name_idx(k@) == i,
    {
        proof {
            self.lemma_name_idx(self.keys@[i as int]@, i as int);
        }
        &self.keys[i]
    }

    pub fn val_at(&self, i: usize) -> (v: &V)
        requires
            self.wf(),
            i < self.spec_len(),
        ensures
            *v == self.vals@[i as int],
            *v == self.spec_get(self.keys@[i as int]@),
            self.has_name(self.keys@[i as int]@),
    {
        proof {
            self.lemma_name_idx(self.keys@[i as int]@, i as int);
        }
        &self.vals[i]
    }
}

} // verus!
