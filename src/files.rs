//! The files manager: reads, writes, deletes and wildcard enumeration over
//! the content of a storage and its data-info store, with stale operations
//! rejected by timestamp.
use vstd::prelude::*;
use vstd::slice::slice_to_vec;
use crate::data_info::{DataInfoStore, InfoView, live_info, lists_tombstones, tombstone};
use crate::keyexpr::{key_matches, ke_matches};
use crate::table::KeyTable;
use crate::timestamp::Timestamp;

verus! {

/// What becomes of a storage's directory when it is closed.
#[derive(Clone, Copy, Debug, PartialEq, Eq, Structural)]
pub enum OnClosure {
    DeleteAll,
    DoNothing,
}

/// The state of a storage: the metadata of every key ever written or
/// deleted, and the content of every live key.
pub ghost struct StoreView {
    pub infos: Map<Seq<u8>, InfoView>,
    pub contents: Map<Seq<u8>, Seq<u8>>,
}

/// Whether an operation at `ts` on `k` comes too late: the key's record is
/// at least as recent.
pub open spec fn stale(s: StoreView, k: Seq<u8>, ts: Timestamp) -> bool {
    s.infos.contains_key(k) && !s.infos[k].timestamp.precedes(ts)
}

pub open spec fn after_write(
    s: StoreView,
    k: Seq<u8>,
    payload: Seq<u8>,
    encoding: Seq<u8>,
    ts: Timestamp,
) -> StoreView {
    StoreView {
        infos: s.infos.insert(k, live_info(ts, encoding)),
        contents: s.contents.insert(k, payload),
    }
}

pub open spec fn after_delete(s: StoreView, k: Seq<u8>, ts: Timestamp) -> StoreView {
    StoreView { infos: s.infos.insert(k, tombstone(ts)), contents: s.contents.remove(k) }
}

/// Content, encoding and timestamp of a live key.
pub open spec fn read_of(s: StoreView, k: Seq<u8>) -> Option<(Seq<u8>, Seq<u8>, Timestamp)> {
    if s.contents.contains_key(k) && s.infos.contains_key(k) {
        Some((s.contents[k], s.infos[k].encoding, s.infos[k].timestamp))
    } else {
        None
    }
}

/// A live key matched by `pattern`.
pub open spec fn live_match(s: StoreView, pattern: Seq<u8>, k: Seq<u8>) -> bool {
    s.contents.contains_key(k) && ke_matches(pattern, k)
}

pub open spec fn key_views(r: Seq<Vec<u8>>) -> Seq<Seq<u8>> {
    r.map_values(|v: Vec<u8>| v@)
}

/// Whether `r` lists each live key matched by `pattern` once, and nothing
/// else.
pub open spec fn lists_matches(r: Seq<Vec<u8>>, s: StoreView, pattern: Seq<u8>) -> bool {
    &&& key_views(r).no_duplicates()
    &&& forall|i: int| 0 <= i < r.len() ==> live_match(s, pattern, #[trigger] r[i]@)
    &&& forall|k: Seq<u8>|
        #[trigger] live_match(s, pattern, k) ==> exists|i: int| 0 <= i < r.len() && #[trigger] r[i]@ == k
}

pub struct FilesMgr {
    base_dir: Vec<u8>,
    follow_links: bool,
    keep_mime: bool,
    on_closure: OnClosure,
    data_info: DataInfoStore,
    files: KeyTable<Option<Vec<u8>>>,
}

impl View for FilesMgr {
    type V = StoreView;

    closed spec fn view(&self) -> StoreView {
        StoreView {
            infos: self.data_info@,
            contents: Map::new(
                |k: Seq<u8>| self.files@.contains_key(k) && self.files@[k] is Some,
                |k: Seq<u8>| self.files@[k]->0@,
            ),
        }
    }
}

impl FilesMgr {
    /// Content exists exactly for the keys whose record is not a tombstone.
    pub closed spec fn wf(&self) -> bool {
        &&& self.data_info.wf()
        &&& self.files.wf()
        &&& forall|k: Seq<u8>|
            #[trigger] self.files@.contains_key(k) && self.files@[k] is Some <==> self.data_info@.contains_key(k)
                && !self.data_info@[k].deleted
    }

    pub closed spec fn spec_base_dir(&self) -> Seq<u8> {
        self.base_dir@
    }

    pub closed spec fn spec_follow_links(&self) -> bool {
        self.follow_links
    }

    pub closed spec fn spec_keep_mime(&self) -> bool {
        self.keep_mime
    }

    pub closed spec fn spec_on_closure(&self) -> OnClosure {
        self.on_closure
    }

    pub proof fn lemma_wf(&self)
        requires
            self.wf(),
        ensures
            forall|k: Seq<u8>|
                #[trigger] self@.contents.contains_key(k) <==> self@.infos.contains_key(k)
                    && !self@.infos[k].deleted,
    {
    }

    /// An empty storage rooted at `base_dir`.
    pub fn new(base_dir: Vec<u8>, follow_links: bool, keep_mime: bool, on_closure: OnClosure) -> (r: FilesMgr)
        ensures
            r.wf(),
            r@.infos == Map::<Seq<u8>, InfoView>::empty(),
            r@.contents == Map::<Seq<u8>, Seq<u8>>::empty(),
            r.spec_base_dir() == base_dir@,
            r.spec_follow_links() == follow_links,
            r.spec_keep_mime() == keep_mime,
            r.spec_on_closure() == on_closure,
    {
        let r = FilesMgr {
            base_dir,
            follow_links,
            keep_mime,
            on_closure,
            data_info: DataInfoStore::new(),
            files: KeyTable::new(),
        };
        assert(r@.contents =~= Map::<Seq<u8>, Seq<u8>>::empty());
        r
    }

    pub fn base_dir(&self) -> (r: &Vec<u8>)
        ensures
            r@ == self.spec_base_dir(),
    {
        &self.base_dir
    }

    pub fn follow_links(&self) -> (r: bool)
        ensures
            r == self.spec_follow_links(),
    {
        self.follow_links
    }

    pub fn keep_mime(&self) -> (r: bool)
        ensures
            r == self.spec_keep_mime(),
    {
        self.keep_mime
    }

    pub fn on_closure(&self) -> (r: OnClosure)
        ensures
            r == self.spec_on_closure(),
    {
        self.on_closure
    }

    /// The timestamp recorded for `key`, live or deleted.
    pub fn get_timestamp(&self, key: &[u8]) -> (r: Option<Timestamp>)
        requires
            self.wf(),
        ensures
            r matches Some(t) ==> self@.infos.contains_key(key@) && self@.infos[key@].timestamp == t,
            r is None ==> !self@.infos.contains_key(key@),
    {
        match self.data_info.get(key) {
            Some(d) => Some(d.timestamp),
            None => None,
        }
    }

    /// Content, encoding and timestamp of `key`, or `None` where it is not
    /// live.
    pub fn read_file(&self, key: &[u8]) -> (r: Option<(Vec<u8>, Vec<u8>, Timestamp)>)
        requires
            self.wf(),
        ensures
            r matches Some(v) ==> read_of(self@, key@) == Some((v.0@, v.1@, v.2)),
            r is None ==> read_of(self@, key@) is None,
    {
        match self.files.get(key) {
            Some(Some(content)) => match self.data_info.get(key) {
                Some(d) => Some(
                    (
                        slice_to_vec(content.as_slice()),
                        slice_to_vec(d.encoding.as_slice()),
                        d.timestamp,
                    ),
                ),
                None => None,
            },
            _ => None,
        }
    }

    /// Writes `payload` as the content of `key`, unless the operation is
    /// stale; returns whether it was applied.
    pub fn write_file(&mut self, key: &[u8], payload: &[u8], encoding: &[u8], ts: Timestamp) -> (applied: bool)
        requires
            old(self).wf(),
        ensures
            final(self).wf(),
            applied == !stale(old(self)@, key@, ts),
            applied ==> final(self)@ == after_write(old(self)@, key@, payload@, encoding@, ts),
            !applied ==> final(self)@ == old(self)@,
            final(self).spec_base_dir() == old(self).spec_base_dir(),
            final(self).spec_follow_links() == old(self).spec_follow_links(),
            final(self).spec_keep_mime() == old(self).spec_keep_mime(),
            final(self).spec_on_closure() == old(self).spec_on_closure(),
    {
        if let Some(d) = self.data_info.get(key) {
            if !d.timestamp.is_before(&ts) {
                return false;
            }
        }
        self.files.insert(slice_to_vec(key), Some(slice_to_vec(payload)));
        self.data_info.put(key, ts, encoding);
        assert(self@.contents =~= old(self)@.contents.insert(key@, payload@));
        assert(self@.infos =~= old(self)@.infos.insert(key@, live_info(ts, encoding@)));
        true
    }

    /// Removes the content of `key`, if any, and leaves a tombstone, unless
    /// the operation is stale; returns whether it was applied.
    pub fn delete_file(&mut self, key: &[u8], ts: Timestamp) -> (applied: bool)
        requires
            old(self).wf(),
        ensures
            final(self).wf(),
            applied == !stale(old(self)@, key@, ts),
            applied ==> final(self)@ == after_delete(old(self)@, key@, ts),
            !applied ==> final(self)@ == old(self)@,
            final(self).spec_base_dir() == old(self).spec_base_dir(),
            final(self).spec_follow_links() == old(self).spec_follow_links(),
            final(self).spec_keep_mime() == old(self).spec_keep_mime(),
            final(self).spec_on_closure() == old(self).spec_on_closure(),
    {
        if let Some(d) = self.data_info.get(key) {
            if !d.timestamp.is_before(&ts) {
                return false;
            }
        }
        self.files.insert(slice_to_vec(key), None);
        self.data_info.mark_deleted(key, ts);
        assert(self@.contents =~= old(self)@.contents.remove(key@));
        assert(self@.infos =~= old(self)@.infos.insert(key@, tombstone(ts)));
        true
    }

    /// Takes in content found in the directory for a key that has no record
    /// (a file placed there out of band), with metadata derived from the
    /// file; a key with a record is left as it is. Returns whether the
    /// content was taken in.
    pub fn adopt_file(&mut self, key: &[u8], payload: &[u8], encoding: &[u8], ts: Timestamp) -> (adopted: bool)
        requires
            old(self).wf(),
        ensures
            final(self).wf(),
            adopted == !old(self)@.infos.contains_key(key@),
            adopted ==> final(self)@ == after_write(old(self)@, key@, payload@, encoding@, ts),
            !adopted ==> final(self)@ == old(self)@,
            final(self).spec_base_dir() == old(self).spec_base_dir(),
            final(self).spec_follow_links() == old(self).spec_follow_links(),
            final(self).spec_keep_mime() == old(self).spec_keep_mime(),
            final(self).spec_on_closure() == old(self).spec_on_closure(),
    {
        if self.data_info.get(key).is_some() {
            return false;
        }
        self.write_file(key, payload, encoding, ts)
    }

    /// Every live key that `pattern` matches, each once.
    pub fn matching_files(&self, pattern: &[u8]) -> (r: Vec<Vec<u8>>)
        requires
            self.wf(),
        ensures
            lists_matches(r@, self@, pattern@),
    {
        proof {
            self.files.lemma_entries();
        }
        let ghost keys = self.files.keys_seq();
        let ghost vals = self.files.values_seq();
        let mut r: Vec<Vec<u8>> = Vec::new();
        let ghost mut src: Seq<int> = Seq::empty();
        let mut i: usize = 0;
        while i < self.files.len()
            invariant
                self.wf(),
                keys == self.files.keys_seq(),
                vals == self.files.values_seq(),
                keys.len() == vals.len(),
                keys.no_duplicates(),
                forall|j: int|
                    0 <= j < keys.len() ==> self.files@.contains_key(#[trigger] keys[j])
                        && self.files@[keys[j]] == vals[j],
                i <= keys.len(),
                src.len() == r@.len(),
                forall|j: int, l: int| 0 <= j < l < src.len() ==> #[trigger] src[j] < #[trigger] src[l],
                forall|j: int|
                    0 <= j < r@.len() ==> 0 <= #[trigger] src[j] < i && keys[src[j]] == r@[j]@
                        && vals[src[j]] is Some && ke_matches(pattern@, r@[j]@),
                forall|x: int|
                    0 <= x < i && (#[trigger] vals[x]) is Some && ke_matches(pattern@, keys[x]) ==> exists|j: int|
                        0 <= j < r@.len() && #[trigger] r@[j]@ == keys[x],
            decreases keys.len() - i,
        {
            let v = self.files.value(i);
            let k = self.files.key(i);
            if v.is_some() && key_matches(pattern, k.as_slice()) {
                let ghost before = r@;
                r.push(slice_to_vec(k.as_slice()));
                proof {
                    src = src.push(i as int);
                    assert forall|x: int| 0 <= x < i + 1 && (#[trigger] vals[x]) is Some && ke_matches(pattern@, keys[x])
                        implies exists|j: int| 0 <= j < r@.len() && #[trigger] r@[j]@ == keys[x] by {
                        if x == i {
                            assert(r@[before.len() as int]@ == keys[x]);
                        } else {
                            let j = choose|j: int| 0 <= j < before.len() && #[trigger] before[j]@ == keys[x];
                            assert(r@[j] == before[j]);
                        }
                    }
                }
            }
            i = i + 1;
        }
        proof {
            let rk = key_views(r@);
            assert forall|a: int, b: int| 0 <= a < rk.len() && 0 <= b < rk.len() && a != b
                implies rk[a] != rk[b] by {
                assert(rk[a] == keys[src[a]]);
                assert(rk[b] == keys[src[b]]);
                if a < b {
                    assert(src[a] < src[b]);
                } else {
                    assert(src[b] < src[a]);
                }
            }
            assert(rk.no_duplicates());
            assert forall|j: int| 0 <= j < r@.len() implies live_match(self@, pattern@, #[trigger] r@[j]@) by {
                assert(self.files@.contains_key(keys[src[j]]));
            }
            assert forall|k: Seq<u8>| #[trigger] live_match(self@, pattern@, k) implies exists|j: int|
                0 <= j < r@.len() && #[trigger] r@[j]@ == k by {
                let x = choose|x: int| 0 <= x < keys.len() && #[trigger] keys[x] == k;
                assert(vals[x] is Some);
            }
        }
        r
    }

    /// Every tombstone, with its deletion timestamp.
    pub fn get_deleted_entries(&self) -> (r: Vec<(Vec<u8>, Timestamp)>)
        requires
            self.wf(),
        ensures
            lists_tombstones(r@, self@.infos),
    {
        self.data_info.list_deleted()
    }
}

} // verus!
