//! The data-info store: per-key metadata (last-write timestamp, content
//! encoding, and whether the key is deleted), independent of the content.
use vstd::prelude::*;
use vstd::slice::slice_to_vec;
use crate::table::KeyTable;
use crate::timestamp::Timestamp;

verus! {

/// The metadata of one key; a record with `deleted` set is a tombstone.
#[derive(Debug)]
pub struct DataInfo {
    pub timestamp: Timestamp,
    pub encoding: Vec<u8>,
    pub deleted: bool,
}

pub ghost struct InfoView {
    pub timestamp: Timestamp,
    pub encoding: Seq<u8>,
    pub deleted: bool,
}

impl View for DataInfo {
    type V = InfoView;

    open spec fn view(&self) -> InfoView {
        InfoView { timestamp: self.timestamp, encoding: self.encoding@, deleted: self.deleted }
    }
}

/// The record that a write leaves.
pub open spec fn live_info(timestamp: Timestamp, encoding: Seq<u8>) -> InfoView {
    InfoView { timestamp, encoding, deleted: false }
}

/// The record that a delete leaves.
pub open spec fn tombstone(timestamp: Timestamp) -> InfoView {
    InfoView { timestamp, encoding: Seq::empty(), deleted: true }
}

pub struct DataInfoStore {
    table: KeyTable<DataInfo>,
}

impl View for DataInfoStore {
    type V = Map<Seq<u8>, InfoView>;

    closed spec fn view(&self) -> Map<Seq<u8>, InfoView> {
        self.table@.map_values(|d: DataInfo| d@)
    }
}

/// Whether `r` lists each tombstone of `m` once, with its timestamp, and
/// nothing else.
pub open spec fn lists_tombstones(r: Seq<(Vec<u8>, Timestamp)>, m: Map<Seq<u8>, InfoView>) -> bool {
    &&& r.map_values(|e: (Vec<u8>, Timestamp)| e.0@).no_duplicates()
    &&& forall|i: int|
        0 <= i < r.len() ==> m.contains_key(#[trigger] r[i].0@) && m[r[i].0@].deleted
            && m[r[i].0@].timestamp == r[i].1
    &&& forall|k: Seq<u8>|
        #[trigger] m.contains_key(k) && m[k].deleted ==> exists|i: int|
            0 <= i < r.len() && #[trigger] r[i].0@ == k
}

impl DataInfoStore {
    pub closed spec fn wf(&self) -> bool {
        self.table.wf()
    }

    pub fn new() -> (r: DataInfoStore)
        ensures
            r.wf(),
            r@ == Map::<Seq<u8>, InfoView>::empty(),
    {
        let r = DataInfoStore { table: KeyTable::new() };
        assert(r@ =~= Map::<Seq<u8>, InfoView>::empty());
        r
    }

    /// The record of `key`, if there is one.
    pub fn get(&self, key: &[u8]) -> (r: Option<&DataInfo>)
        requires
            self.wf(),
        ensures
            r matches Some(d) ==> self@.contains_key(key@) && self@[key@] == d@,
            r is None ==> !self@.contains_key(key@),
    {
        self.table.get(key)
    }

    /// Makes `key` live, written at `timestamp` with `encoding`.
    pub fn put(&mut self, key: &[u8], timestamp: Timestamp, encoding: &[u8])
        requires
            old(self).wf(),
        ensures
            final(self).wf(),
            final(self)@ == old(self)@.insert(key@, live_info(timestamp, encoding@)),
    {
        let d = DataInfo { timestamp, encoding: slice_to_vec(encoding), deleted: false };
        self.table.insert(slice_to_vec(key), d);
        assert(self@ =~= old(self)@.insert(key@, live_info(timestamp, encoding@)));
    }

    /// Records that `key` was deleted at `timestamp`.
    pub fn mark_deleted(&mut self, key: &[u8], timestamp: Timestamp)
        requires
            old(self).wf(),
        ensures
            final(self).wf(),
            final(self)@ == old(self)@.insert(key@, tombstone(timestamp)),
    {
        let d = DataInfo { timestamp, encoding: Vec::new(), deleted: true };
        assert(d@.encoding =~= Seq::<u8>::empty());
        self.table.insert(slice_to_vec(key), d);
        assert(self@ =~= old(self)@.insert(key@, tombstone(timestamp)));
    }

    /// Every tombstone, with its deletion timestamp.
    pub fn list_deleted(&self) -> (r: Vec<(Vec<u8>, Timestamp)>)
        requires
            self.wf(),
        ensures
            lists_tombstones(r@, self@),
    {
        proof {
            self.table.lemma_entries();
        }
        let ghost keys = self.table.keys_seq();
        let ghost vals = self.table.values_seq();
        let mut r: Vec<(Vec<u8>, Timestamp)> = Vec::new();
        let ghost mut src: Seq<int> = Seq::empty();
        let mut i: usize = 0;
        while i < self.table.len()
            invariant
                self.wf(),
                keys == self.table.keys_seq(),
                vals == self.table.values_seq(),
                keys.len() == vals.len(),
                keys.no_duplicates(),
                forall|j: int|
                    0 <= j < keys.len() ==> self.table@.contains_key(#[trigger] keys[j])
                        && self.table@[keys[j]] == vals[j],
                i <= keys.len(),
                src.len() == r@.len(),
                forall|j: int, l: int| 0 <= j < l < src.len() ==> #[trigger] src[j] < #[trigger] src[l],
                forall|j: int|
                    0 <= j < r@.len() ==> 0 <= #[trigger] src[j] < i && keys[src[j]] == r@[j].0@
                        && vals[src[j]].deleted && vals[src[j]].timestamp == r@[j].1,
                forall|x: int|
                    0 <= x < i && (#[trigger] vals[x]).deleted ==> exists|j: int|
                        0 <= j < r@.len() && #[trigger] r@[j].0@ == keys[x],
            decreases keys.len() - i,
        {
            let d = self.table.value(i);
            if d.deleted {
                let k = slice_to_vec(self.table.key(i).as_slice());
                let ghost before = r@;
                r.push((k, d.timestamp));
                proof {
                    src = src.push(i as int);
                    assert forall|x: int| 0 <= x < i + 1 && (#[trigger] vals[x]).deleted implies exists|j: int|
                        0 <= j < r@.len() && #[trigger] r@[j].0@ == keys[x] by {
                        if x == i {
                            assert(r@[before.len() as int].0@ == keys[x]);
                        } else {
                            let j = choose|j: int| 0 <= j < before.len() && #[trigger] before[j].0@ == keys[x];
                            assert(r@[j] == before[j]);
                        }
                    }
                }
            }
            i = i + 1;
        }
        proof {
            let rk = r@.map_values(|e: (Vec<u8>, Timestamp)| e.0@);
            assert forall|a: int, b: int| 0 <= a < rk.len() && 0 <= b < rk.len() && a != b
                implies rk[a] != rk[b] by {
                assert(rk[a] == keys[src[a]]);
                assert(rk[b] == keys[src[b]]);
                if a < b {
                    assert(src[a] < src[b]);
                } else {
                    assert(src[b] < src[a]);
                }
            }
            assert(rk.no_duplicates());
            assert forall|j: int| 0 <= j < r@.len() implies self@.contains_key(#[trigger] r@[j].0@)
                && self@[r@[j].0@].deleted && self@[r@[j].0@].timestamp == r@[j].1 by {
                assert(self.table@.contains_key(keys[src[j]]));
            }
        }
        proof {
            assert forall|k: Seq<u8>| #[trigger] self@.contains_key(k) && self@[k].deleted implies exists|j: int|
                0 <= j < r@.len() && #[trigger] r@[j].0@ == k by {
                let x = choose|x: int| 0 <= x < keys.len() && #[trigger] keys[x] == k;
                assert(vals[x].deleted);
            }
        }
        r
    }
}

} // verus!
