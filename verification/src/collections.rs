//! Small verified collections the coordinator state is built from: a set of
//! module ids, a set of symbols, and association maps keyed by module id or
//! by name.

use vstd::prelude::*;
use crate::ids::{ModuleId, Symbol};

verus! {

/// No element occurs twice.
pub open spec fn distinct<T>(s: Seq<T>) -> bool {
    forall|i: int, j: int|
        #![trigger s[i], s[j]]
        0 <= i < j < s.len() ==> s[i] != s[j]
}

pub proof fn lemma_push_keeps_distinct<T>(s: Seq<T>, x: T)
    requires
        distinct(s),
        !s.contains(x),
    ensures
        distinct(s.push(x)),
{
    assert forall|i: int, j: int|
        #![trigger s.push(x)[i], s.push(x)[j]]
        0 <= i < j < s.push(x).len() implies s.push(x)[i] != s.push(x)[j] by {
        if j < s.len() {
            assert(s.push(x)[i] == s[i]);
            assert(s.push(x)[j] == s[j]);
        } else {
            assert(s.push(x)[j] == x);
            assert(s.push(x)[i] == s[i]);
            assert(s.contains(s[i]));
        }
    }
}

pub proof fn lemma_push_contains<T>(s: Seq<T>, x: T)
    ensures
        forall|y: T| s.push(x).contains(y) <==> s.contains(y) || y == x,
{
    assert forall|y: T| s.push(x).contains(y) <==> s.contains(y) || y == x by {
        if s.push(x).contains(y) {
            let k = choose|k: int| 0 <= k < s.push(x).len() && s.push(x)[k] == y;
            if k < s.len() {
                assert(s[k] == y);
            }
        }
        if s.contains(y) {
            let k = choose|k: int| 0 <= k < s.len() && s[k] == y;
            assert(s.push(x)[k] == y);
        }
        if y == x {
            assert(s.push(x)[s.len() as int] == y);
        }
    }
}

pub proof fn lemma_remove_distinct<T>(s: Seq<T>, i: int)
    requires
        distinct(s),
        0 <= i < s.len(),
    ensures
        distinct(s.remove(i)),
        forall|x: T| s.remove(i).contains(x) <==> s.contains(x) && x != s[i],
{
    let r = s.remove(i);
    assert forall|a: int, b: int|
        #![trigger r[a], r[b]]
        0 <= a < b < r.len() implies r[a] != r[b] by {
        let pa: int = if a < i {
            a
        } else {
            a + 1
        };
        let pb: int = if b < i {
            b
        } else {
            b + 1
        };
        assert(r[a] == s[pa]);
        assert(r[b] == s[pb]);
        assert(s[pa] != s[pb]);
    }
    assert forall|x: T| r.contains(x) implies s.contains(x) && x != s[i] by {
        let k = choose|k: int| 0 <= k < r.len() && r[k] == x;
        let pk: int = if k < i {
            k
        } else {
            k + 1
        };
        assert(r[k] == s[pk]);
        assert(s.contains(x));
        if pk < i {
            assert(s[pk] != s[i]);
        } else {
            assert(s[i] != s[pk]);
        }
    }
    assert forall|x: T| s.contains(x) && x != s[i] implies r.contains(x) by {
        let k = choose|k: int| 0 <= k < s.len() && s[k] == x;
        if k < i {
            assert(r[k] == x);
        } else {
            assert(r[k - 1] == x);
        }
    }
}

/// A set of module ids, kept as a vector without duplicates.
#[derive(Debug)]
pub struct ModuleIdSet {
    pub elems: Vec<ModuleId>,
}

impl ModuleIdSet {
    pub open spec fn wf(self) -> bool {
        distinct(self.elems@)
    }

    pub open spec fn has(self, id: ModuleId) -> bool {
        self.elems@.contains(id)
    }

    pub open spec fn spec_len(self) -> nat {
        self.elems@.len()
    }

    pub fn new() -> (s: ModuleIdSet)
        ensures
            s.wf(),
            forall|x: ModuleId| !s.has(x),
            s.spec_len() == 0,
    {
        ModuleIdSet { elems: Vec::new() }
    }

    pub fn contains(&self, id: ModuleId) -> (r: bool)
        ensures
            r == self.has(id),
    {
        let mut i: usize = 0;
        while i < self.elems.len()
            invariant
                0 <= i <= self.elems@.len(),
                forall|j: int| 0 <= j < i ==> self.elems@[j] != id,
            decreases self.elems@.len() - i,
        {
            if self.elems[i] == id {
                return true;
            }
            i += 1;
        }
        false
    }

    /// Adds `id`; a member already present is not duplicated.
    pub fn insert(&mut self, id: ModuleId)
        requires
            old(self).wf(),
        ensures
            final(self).wf(),
            forall|x: ModuleId| final(self).has(x) <==> old(self).has(x) || x == id,
            final(self).spec_len() == old(self).spec_len() + (if old(self).has(id) {
                0int
            } else {
                1int
            }),
    {
        if !self.contains(id) {
            proof {
                lemma_push_keeps_distinct(self.elems@, id);
                lemma_push_contains(self.elems@, id);
            }
            self.elems.push(id);
        }
    }

    /// Removes `id` if present.
    pub fn remove(&mut self, id: ModuleId)
        requires
            old(self).wf(),
        ensures
            final(self).wf(),
            forall|x: ModuleId| final(self).has(x) <==> old(self).has(x) && x != id,
            final(self).spec_len() == old(self).spec_len() - (if old(self).has(id) {
                1int
            } else {
                0int
            }),
    {
        let mut i: usize = 0;
        while i < self.elems.len()
            invariant
                *old(self) == *self,
                self.wf(),
                0 <= i <= self.elems@.len(),
                forall|j: int| 0 <= j < i ==> self.elems@[j] != id,
            decreases self.elems@.len() - i,
        {
            if self.elems[i] == id {
                proof {
                    lemma_remove_distinct(self.elems@, i as int);
                    assert(self.elems@.contains(id));
                }
                self.elems.remove(i);
                return ;
            }
            i += 1;
        }
    }

    pub fn is_empty(&self) -> (r: bool)
        requires
            self.wf(),
        ensures
            r <==> (forall|x: ModuleId| !self.has(x)),
            r == (self.spec_len() == 0),
    {
        let r = self.elems.len() == 0;
        proof {
            if !r {
                assert(self.has(self.elems@[0]));
            }
        }
        r
    }

    pub fn len(&self) -> (n: usize)
        ensures
            n == self.spec_len(),
    {
        self.elems.len()
    }

    pub fn index(&self, i: usize) -> (id: ModuleId)
        requires
            i < self.spec_len(),
        ensures
            id == self.elems@[i as int],
            self.has(id),
    {
        self.elems[i]
    }

    /// Whether no id occurs twice; a set handed in from outside can be
    /// checked before its well-formedness is relied on.
    pub fn is_distinct(&self) -> (r: bool)
        ensures
            r == self.wf(),
    {
        let mut i: usize = 0;
        while i < self.elems.len()
            invariant
                0 <= i <= self.elems@.len(),
                forall|a: int, b: int|
                    #![trigger self.elems@[a], self.elems@[b]]
                    0 <= a < b < i ==> self.elems@[a] != self.elems@[b],
            decreases self.elems@.len() - i,
        {
            let mut j: usize = 0;
            while j < i
                invariant
                    0 <= j <= i < self.elems@.len(),
                    forall|a: int, b: int|
                        #![trigger self.elems@[a], self.elems@[b]]
                        0 <= a < b < i ==> self.elems@[a] != self.elems@[b],
                    forall|a: int| 0 <= a < j ==> self.elems@[a] != self.elems@[i as int],
                decreases i - j,
            {
                if self.elems[j] == self.elems[i] {
                    proof {
                        assert(!self.wf());
                    }
                    return false;
                }
                j += 1;
            }
            i += 1;
        }
        true
    }

    /// An equal, independently owned set.
    pub fn duplicate(&self) -> (s: ModuleIdSet)
        ensures
            s.elems@ == self.elems@,
    {
        let mut elems: Vec<ModuleId> = Vec::new();
        let mut i: usize = 0;
        while i < self.elems.len()
            invariant
                0 <= i <= self.elems@.len(),
                elems@ =~= self.elems@.subrange(0, i as int),
            decreases self.elems@.len() - i,
        {
            elems.push(self.elems[i]);
            i += 1;
        }
        proof {
            assert(elems@ =~= self.elems@);
        }
        ModuleIdSet { elems }
    }
}

/// A set of symbols, kept as a vector without duplicates.
#[derive(Debug)]
pub struct SymbolSet {
    pub elems: Vec<Symbol>,
}

impl SymbolSet {
    pub open spec fn wf(self) -> bool {
        distinct(self.elems@)
    }

    pub open spec fn has(self, s: Symbol) -> bool {
        self.elems@.contains(s)
    }

    pub open spec fn spec_len(self) -> nat {
        self.elems@.len()
    }

    pub fn new() -> (s: SymbolSet)
        ensures
            s.wf(),
            forall|x: Symbol| !s.has(x),
            s.spec_len() == 0,
    {
        SymbolSet { elems: Vec::new() }
    }

    pub fn contains(&self, sym: Symbol) -> (r: bool)
        ensures
            r == self.has(sym),
    {
        let mut i: usize = 0;
        while i < self.elems.len()
            invariant
                0 <= i <= self.elems@.len(),
                forall|j: int| 0 <= j < i ==> self.elems@[j] != sym,
            decreases self.elems@.len() - i,
        {
            if self.elems[i] == sym {
                return true;
            }
            i += 1;
        }
        false
    }

    /// Adds `sym`; a member already present is not duplicated.
    pub fn insert(&mut self, sym: Symbol)
        requires
            old(self).wf(),
        ensures
            final(self).wf(),
            forall|x: Symbol| final(self).has(x) <==> old(self).has(x) || x == sym,
            final(self).spec_len() == old(self).spec_len() + (if old(self).has(sym) {
                0int
            } else {
                1int
            }),
    {
        if !self.contains(sym) {
            proof {
                lemma_push_keeps_distinct(self.elems@, sym);
                lemma_push_contains(self.elems@, sym);
            }
            self.elems.push(sym);
        }
    }

    pub fn len(&self) -> (n: usize)
        ensures
            n == self.spec_len(),
    {
        self.elems.len()
    }

    pub fn index(&self, i: usize) -> (s: Symbol)
        requires
            i < self.spec_len(),
        ensures
            s == self.elems@[i as int],
            self.has(s),
    {
        self.elems[i]
    }

    /// An equal, independently owned set.
    pub fn duplicate(&self) -> (s: SymbolSet)
        ensures
            s.elems@ == self.elems@,
    {
        let mut elems: Vec<Symbol> = Vec::new();
        let mut i: usize = 0;
        while i < self.elems.len()
            invariant
                0 <= i <= self.elems@.len(),
                elems@ =~= self.elems@.subrange(0, i as int),
            decreases self.elems@.len() - i,
        {
            elems.push(self.elems[i]);
            i += 1;
        }
        proof {
            assert(elems@ =~= self.elems@);
        }
        SymbolSet { elems }
    }
}

} // verus!
