//! A set of replay keys: each key is a row of values. Modeled as a
//! mathematical set of key models; the carrier vector holds no duplicates.

use vstd::prelude::*;

use crate::data::{clone_row, row_eq, DataType, DataValue};

verus! {

/// A finite set of keys, each an ordered list of values.
#[derive(Debug)]
pub struct KeySet {
    pub elems: Vec<Vec<DataType>>,
}

impl View for KeySet {
    type V = Set<Seq<DataValue>>;

    open spec fn view(&self) -> Set<Seq<DataValue>> {
        self.elems.deep_view().to_set()
    }
}

impl KeySet {
    /// The carrier holds each key once.
    pub open spec fn wf(&self) -> bool {
        forall|i: int, j: int|
            0 <= i < j < self.elems.deep_view().len()
                ==> self.elems.deep_view()[i] != self.elems.deep_view()[j]
    }

    /// The empty key set.
    pub fn new() -> (r: KeySet)
        ensures
            r@ == Set::<Seq<DataValue>>::empty(),
            r.wf(),
    {
        let r = KeySet { elems: Vec::new() };
        proof {
            assert(r@ =~= Set::<Seq<DataValue>>::empty());
        }
        r
    }

    /// How many keys the set holds.
    pub fn len(&self) -> (r: usize)
        ensures
            r == self.elems.deep_view().len(),
            self.wf() ==> r == self@.len(),
    {
        proof {
            if self.wf() {
                self.elems.deep_view().unique_seq_to_set();
            }
        }
        self.elems.len()
    }

    /// The key at a carrier position, for walking the set.
    pub fn at(&self, i: usize) -> (r: &Vec<DataType>)
        requires
            i < self.elems.deep_view().len(),
        ensures
            r.deep_view() == self.elems.deep_view()[i as int],
            self@.contains(r.deep_view()),
    {
        &self.elems[i]
    }

    /// Whether the set holds the given key.
    pub fn contains(&self, key: &Vec<DataType>) -> (r: bool)
        ensures
            r == self@.contains(key.deep_view()),
    {
        let n = self.elems.len();
        let mut i: usize = 0;
        while i < n
            invariant
                n == self.elems@.len(),
                0 <= i <= n,
                forall|j: int| 0 <= j < i ==> self.elems.deep_view()[j] != key.deep_view(),
            decreases n - i,
        {
            if row_eq(&self.elems[i], key) {
                proof {
                    assert(self.elems.deep_view()[i as int] == key.deep_view());
                    assert(self.elems.deep_view().contains(key.deep_view()));
                }
                return true;
            }
            i += 1;
        }
        proof {
            assert(forall|j: int|
                0 <= j < self.elems.deep_view().len()
                    ==> self.elems.deep_view()[j] != key.deep_view());
        }
        false
    }

    /// Adds a key; the set absorbs a key it already holds.
    pub fn insert(&mut self, key: Vec<DataType>)
        requires
            old(self).wf(),
        ensures
            final(self)@ == old(self)@.insert(key.deep_view()),
            final(self).wf(),
    {
        let ghost kv = key.deep_view();
        if !self.contains(&key) {
            let ghost pre = self.elems.deep_view();
            self.elems.push(key);
            proof {
                assert(self.elems.deep_view() =~= pre.push(kv));
                pre.lemma_push_to_set_commute(kv);
                assert(self@ =~= old(self)@.insert(kv));
            }
        } else {
            proof {
                assert(self@ =~= old(self)@.insert(kv));
            }
        }
    }

    /// An owned copy of the set.
    pub fn copy(&self) -> (r: KeySet)
        ensures
            r@ == self@,
            r.elems.deep_view() == self.elems.deep_view(),
            self.wf() ==> r.wf(),
    {
        let mut out: Vec<Vec<DataType>> = Vec::new();
        let n = self.elems.len();
        let mut i: usize = 0;
        while i < n
            invariant
                n == self.elems@.len(),
                0 <= i <= n,
                out@.len() == i,
                forall|j: int| 0 <= j < i ==> out.deep_view()[j] == self.elems.deep_view()[j],
            decreases n - i,
        {
            let row = clone_row(&self.elems[i]);
            let ghost prev = out.deep_view();
            let ghost rv = row.deep_view();
            out.push(row);
            proof {
                assert(out.deep_view() =~= prev.push(rv));
                assert(rv == self.elems.deep_view()[i as int]);
            }
            i += 1;
        }
        proof {
            assert(out.deep_view() =~= self.elems.deep_view());
        }
        KeySet { elems: out }
    }

    /// Whether every key of this set also stands in `other`.
    pub fn is_subset_of(&self, other: &KeySet) -> (r: bool)
        ensures
            r == self@.subset_of(other@),
    {
        let n = self.elems.len();
        let mut i: usize = 0;
        while i < n
            invariant
                n == self.elems@.len(),
                0 <= i <= n,
                forall|j: int| 0 <= j < i ==> other@.contains(self.elems.deep_view()[j]),
            decreases n - i,
        {
            if !other.contains(&self.elems[i]) {
                proof {
                    assert(self.elems.deep_view()[i as int] == self.elems@[i as int].deep_view());
                    assert(self@.contains(self.elems.deep_view()[i as int]));
                }
                return false;
            }
            i += 1;
        }
        true
    }
}

} // verus!
