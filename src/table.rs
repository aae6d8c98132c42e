//! A table keyed by byte strings, each key held once, in insertion order.
use vstd::prelude::*;
use crate::keyexpr::bytes_equal;

verus! {

pub struct KeyTable<V> {
    entries: Vec<(Vec<u8>, V)>,
    map: Ghost<Map<Seq<u8>, V>>,
}

impl<V> View for KeyTable<V> {
    type V = Map<Seq<u8>, V>;

    closed spec fn view(&self) -> Map<Seq<u8>, V> {
        self.map@
    }
}

impl<V> KeyTable<V> {
    /// The keys, in the order in which they were first inserted.
    pub closed spec fn keys_seq(&self) -> Seq<Seq<u8>> {
        self.entries@.map_values(|e: (Vec<u8>, V)| e.0@)
    }

    /// The values, in the order of `keys_seq`.
    pub closed spec fn values_seq(&self) -> Seq<V> {
        self.entries@.map_values(|e: (Vec<u8>, V)| e.1)
    }

    pub closed spec fn wf(&self) -> bool {
        &&& forall|i: int, j: int|
            0 <= i < j < self.entries@.len() ==> #[trigger] self.entries@[i].0@
                != #[trigger] self.entries@[j].0@
        &&& forall|i: int|
            0 <= i < self.entries@.len() ==> self.map@.contains_key(#[trigger] self.entries@[i].0@)
                && self.map@[self.entries@[i].0@] == self.entries@[i].1
        &&& forall|k: Seq<u8>|
            #[trigger] self.map@.contains_key(k) ==> exists|i: int|
                0 <= i < self.entries@.len() && #[trigger] self.entries@[i].0@ == k
    }

    /// What well-formedness gives a reader of the entries.
    pub proof fn lemma_entries(&self)
        requires
            self.wf(),
        ensures
            self.keys_seq().len() == self.values_seq().len(),
            self.keys_seq().no_duplicates(),
            forall|i: int|
                0 <= i < self.keys_seq().len() ==> self@.contains_key(#[trigger] self.keys_seq()[i])
                    && self@[self.keys_seq()[i]] == self.values_seq()[i],
            forall|k: Seq<u8>|
                #[trigger] self@.contains_key(k) ==> exists|i: int|
                    0 <= i < self.keys_seq().len() && #[trigger] self.keys_seq()[i] == k,
    {
        assert forall|k: Seq<u8>| #[trigger] self@.contains_key(k) implies exists|i: int|
            0 <= i < self.keys_seq().len() && #[trigger] self.keys_seq()[i] == k by {
            let i = choose|i: int| 0 <= i < self.entries@.len() && #[trigger] self.entries@[i].0@ == k;
            assert(self.keys_seq()[i] == k);
        }
        assert forall|i: int, j: int|
            0 <= i < self.keys_seq().len() && 0 <= j < self.keys_seq().len() && i != j implies
            self.keys_seq()[i] != self.keys_seq()[j] by {
            if i < j {
                assert(self.entries@[i].0@ != self.entries@[j].0@);
            } else {
                assert(self.entries@[j].0@ != self.entries@[i].0@);
            }
        }
    }

    pub fn new() -> (r: Self)
        ensures
            r.wf(),
            r@ == Map::<Seq<u8>, V>::empty(),
    {
        KeyTable { entries: Vec::new(), map: Ghost(Map::empty()) }
    }

    pub fn len(&self) -> (r: usize)
        ensures
            r == self.keys_seq().len(),
    {
        self.entries.len()
    }

    pub fn key(&self, i: usize) -> (r: &Vec<u8>)
        requires
            i < self.keys_seq().len(),
        ensures
            r@ == self.keys_seq()[i as int],
    {
        &self.entries[i].0
    }

    pub fn value(&self, i: usize) -> (r: &V)
        requires
            i < self.keys_seq().len(),
        ensures
            *r == self.values_seq()[i as int],
    {
        &self.entries[i].1
    }

    fn find(&self, k: &[u8]) -> (r: Option<usize>)
        requires
            self.wf(),
        ensures
            r matches Some(i) ==> i < self.entries@.len() && self.entries@[i as int].0@ == k@,
            r is None ==> !self@.contains_key(k@),
    {
        let mut i: usize = 0;
        while i < self.entries.len()
            invariant
                self.wf(),
                i <= self.entries@.len(),
                forall|j: int| 0 <= j < i ==> self.entries@[j].0@ != k@,
            decreases self.entries@.len() - i,
        {
            if bytes_equal(self.entries[i].0.as_slice(), k) {
                return Some(i);
            }
            i = i + 1;
        }
        None
    }

    /// The value held for `k`, if any.
    pub fn get(&self, k: &[u8]) -> (r: Option<&V>)
        requires
            self.wf(),
        ensures
            r matches Some(v) ==> self@.contains_key(k@) && self@[k@] == *v,
            r is None ==> !self@.contains_key(k@),
    {
        match self.find(k) {
            Some(i) => Some(&self.entries[i].1),
            None => None,
        }
    }

    /// Sets the value of `k`; a new key goes last.
    pub fn insert(&mut self, k: Vec<u8>, v: V)
        requires
            old(self).wf(),
        ensures
            final(self).wf(),
            final(self)@ == old(self)@.insert(k@, v),
    {
        let ghost m = self.map@.insert(k@, v);
        let ghost kv = k@;
        let ghost before = self.entries@;
        match self.find(k.as_slice()) {
            Some(i) => {
                self.entries.set(i, (k, v));
                self.map = Ghost(m);
                assert forall|k2: Seq<u8>| #[trigger] self.map@.contains_key(k2) implies exists|j: int|
                    0 <= j < self.entries@.len() && #[trigger] self.entries@[j].0@ == k2 by {
                    if k2 == kv {
                        assert(self.entries@[i as int].0@ == k2);
                    } else {
                        let j = choose|j: int| 0 <= j < before.len() && #[trigger] before[j].0@ == k2;
                        assert(self.entries@[j].0@ == k2);
                    }
                }
            },
            None => {
                self.entries.push((k, v));
                self.map = Ghost(m);
                assert forall|k2: Seq<u8>| #[trigger] self.map@.contains_key(k2) implies exists|j: int|
                    0 <= j < self.entries@.len() && #[trigger] self.entries@[j].0@ == k2 by {
                    if k2 == kv {
                        assert(self.entries@[before.len() as int].0@ == k2);
                    } else {
                        let j = choose|j: int| 0 <= j < before.len() && #[trigger] before[j].0@ == k2;
                        assert(self.entries@[j].0@ == k2);
                    }
                }
            },
        }
    }
}

} // verus!
