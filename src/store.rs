use vstd::prelude::*;

use crate::cell::{idle_cell, AliasingCell, ExtractError};
use crate::value::{TypeKey, Value};

verus! {

/// The value stored under `k`, if any.
pub open spec fn lookup(m: Map<TypeKey, AliasingCell>, k: TypeKey) -> Option<Value> {
    if m.dom().contains(k) {
        Some(m[k].value)
    } else {
        None
    }
}

/// A mapping from a type's identity to one guarded value of that type.
///
/// Each entry is keyed by the type its value was built from, so a key can
/// only ever map to a value of that type.
#[derive(Debug)]
pub struct TypeKeyedStore {
    pub entries: Vec<AliasingCell>,
}

impl TypeKeyedStore {
    /// No two entries hold values of the same type.
    pub open spec fn wf(&self) -> bool {
        forall|i: int, j: int|
            0 <= i < self.entries@.len() && 0 <= j < self.entries@.len()
                && #[trigger] self.entries@[i].value.key() == #[trigger] self.entries@[j].value.key()
                ==> i == j
    }

    pub open spec fn has(&self, k: TypeKey) -> bool {
        exists|i: int| 0 <= i < self.entries@.len() && #[trigger] self.entries@[i].value.key() == k
    }

    pub open spec fn view(&self) -> Map<TypeKey, AliasingCell> {
        Map::new(
            |k: TypeKey| self.has(k),
            |k: TypeKey|
                self.entries@[choose|i: int|
                    0 <= i < self.entries@.len() && #[trigger] self.entries@[i].value.key() == k],
        )
    }

    /// Every entry is without a live guard.
    pub open spec fn is_idle(&self) -> bool {
        forall|k: TypeKey| #[trigger] self.view().dom().contains(k) ==> self.view()[k].is_idle()
    }

    pub proof fn lemma_entry(&self, i: int)
        requires
            self.wf(),
            0 <= i < self.entries@.len(),
        ensures
            self.view().dom().contains(self.entries@[i].value.key()),
            self.view()[self.entries@[i].value.key()] == self.entries@[i],
    {
        let k = self.entries@[i].value.key();
        assert(self.has(k));
        let j = choose|j: int| 0 <= j < self.entries@.len() && #[trigger] self.entries@[j].value.key() == k;
        assert(self.entries@[j].value.key() == self.entries@[i].value.key());
    }

    pub fn new() -> (r: Self)
        ensures
            r.wf(),
            r.view() == Map::<TypeKey, AliasingCell>::empty(),
    {
        let r = TypeKeyedStore { entries: Vec::new() };
        assert(r.view() =~= Map::<TypeKey, AliasingCell>::empty());
        r
    }

    /// The index of the entry of type `k`.
    pub fn find(&self, k: TypeKey) -> (r: Option<usize>)
        requires
            self.wf(),
        ensures
            r is None <==> !self.view().dom().contains(k),
            r matches Some(i) ==> i < self.entries@.len() && self.entries@[i as int].value.key() == k
                && self.view()[k] == self.entries@[i as int],
    {
        let mut i: usize = 0;
        while i < self.entries.len()
            invariant
                self.wf(),
                i <= self.entries@.len(),
                forall|j: int| 0 <= j < i ==> #[trigger] self.entries@[j].value.key() != k,
            decreases self.entries@.len() - i,
        {
            if self.entries[i].value.type_key() == k {
                proof {
                    self.lemma_entry(i as int);
                }
                return Some(i);
            }
            i = i + 1;
        }
        None
    }

    /// Changing one entry into a cell holding a value of the same type
    /// changes the view at that type only.
    pub proof fn lemma_update(before: Self, after: Self, i: int)
        requires
            before.wf(),
            0 <= i < before.entries@.len(),
            after.entries@ == before.entries@.update(i, after.entries@[i]),
            after.entries@[i].value.key() == before.entries@[i].value.key(),
        ensures
            after.wf(),
            after.view() == before.view().insert(after.entries@[i].value.key(), after.entries@[i]),
    {
        let k = after.entries@[i].value.key();
        assert(forall|j: int| 0 <= j < after.entries@.len() ==> #[trigger] after.entries@[j].value.key()
            == before.entries@[j].value.key());
        after.lemma_entry(i);
        assert forall|k2: TypeKey| #[trigger] after.view().dom().contains(k2) && k2 != k
            implies after.view()[k2] == before.view()[k2] by {
            let j = choose|j: int| 0 <= j < after.entries@.len() && #[trigger] after.entries@[j].value.key() == k2;
            after.lemma_entry(j);
            before.lemma_entry(j);
        }
        assert forall|k2: TypeKey| #[trigger] before.view().dom().contains(k2)
            implies after.view().dom().contains(k2) by {
            let j = choose|j: int| 0 <= j < before.entries@.len() && #[trigger] before.entries@[j].value.key() == k2;
            after.lemma_entry(j);
        }
        assert(after.view() =~= before.view().insert(k, after.entries@[i]));
    }

    /// Stores `v` under its type, replacing any earlier value of that type.
    pub fn insert(&mut self, v: Value)
        requires
            old(self).wf(),
        ensures
            final(self).wf(),
            final(self).view() == old(self).view().insert(v.key(), idle_cell(v)),
    {
        let k = v.type_key();
        match self.find(k) {
            Some(i) => {
                let ghost before = *self;
                self.entries.set(i, AliasingCell::new(v));
                proof {
                    Self::lemma_update(before, *self, i as int);
                }
            },
            None => {
                let ghost k = v.key();
                self.entries.push(AliasingCell::new(v));
                proof {
                    let n = self.entries@.len() - 1;
                    assert forall|a: int, b: int|
                        0 <= a < self.entries@.len() && 0 <= b < self.entries@.len()
                            && #[trigger] self.entries@[a].value.key() == #[trigger] self.entries@[b].value.key()
                        implies a == b by {
                        if a < n && b == n {
                            old(self).lemma_entry(a);
                        }
                        if b < n && a == n {
                            old(self).lemma_entry(b);
                        }
                    }
                    self.lemma_entry(n);
                    assert forall|k2: TypeKey| #[trigger] self.view().dom().contains(k2) && k2 != k
                        implies old(self).view().dom().contains(k2) && self.view()[k2] == old(self).view()[k2] by {
                        let j = choose|j: int| 0 <= j < self.entries@.len() && #[trigger] self.entries@[j].value.key() == k2;
                        self.lemma_entry(j);
                        old(self).lemma_entry(j);
                    }
                    assert forall|k2: TypeKey| #[trigger] old(self).view().dom().contains(k2)
                        implies self.view().dom().contains(k2) by {
                        let j = choose|j: int| 0 <= j < old(self).entries@.len() && #[trigger] old(self).entries@[j].value.key() == k2;
                        self.lemma_entry(j);
                    }
                    assert(self.view() =~= old(self).view().insert(k, idle_cell(v)));
                }
            },
        }
    }

    /// A copy of the value stored under `k`, if any.
    pub fn get(&self, k: TypeKey) -> (r: Option<Value>)
        requires
            self.wf(),
        ensures
            r == lookup(self.view(), k),
    {
        match self.find(k) {
            Some(i) => Some(self.entries[i].value.duplicate()),
            None => None,
        }
    }

    /// A copy of the value stored under `k`, or `MissingResource` naming `k`.
    pub fn get_checked(&self, k: TypeKey) -> (r: Result<Value, ExtractError>)
        requires
            self.wf(),
        ensures
            r == match lookup(self.view(), k) {
                Some(v) => Ok::<Value, ExtractError>(v),
                None => Err(ExtractError::MissingResource(k)),
            },
    {
        match self.get(k) {
            Some(v) => Ok(v),
            None => Err(ExtractError::MissingResource(k)),
        }
    }
}

} // verus!
