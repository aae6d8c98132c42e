//! A storage as the publish/subscribe layer sees it: samples (puts and
//! deletes) come in, queries are answered, and the whole state can be
//! enumerated for synchronisation.
use vstd::prelude::*;
use crate::data_info::lists_tombstones;
use crate::files::{FilesMgr, StoreView, after_delete, after_write, key_views, lists_matches, live_match, read_of, stale};
use crate::keyexpr::{contains_wildcard, has_wildcard, is_valid_key, lemma_double_star_matches_all, valid_key};
use crate::timestamp::Timestamp;

verus! {

#[derive(Clone, Copy, Debug, PartialEq, Eq, Structural)]
pub enum SampleKind {
    Put,
    Delete,
}

/// A put or delete of one key, at a timestamp.
#[derive(Debug)]
pub struct Sample {
    pub kind: SampleKind,
    pub key: Vec<u8>,
    pub payload: Vec<u8>,
    pub encoding: Vec<u8>,
    pub timestamp: Timestamp,
}

/// What an accepted sample did.
#[derive(Clone, Copy, Debug, PartialEq, Eq, Structural)]
pub enum StorageInsertionResult {
    Inserted,
    Deleted,
    Outdated,
}

/// Why a sample was refused; a refused sample has no effect.
#[derive(Clone, Copy, Debug, PartialEq, Eq, Structural)]
pub enum StorageError {
    ReadOnlyViolation,
    InvalidKey,
}

/// One answer to a query.
#[derive(Debug)]
pub struct Reply {
    pub key: Vec<u8>,
    pub payload: Vec<u8>,
    pub encoding: Vec<u8>,
    pub timestamp: Timestamp,
}

/// What a sample on `key` returns.
pub open spec fn sample_outcome(
    s: StoreView,
    read_only: bool,
    key: Seq<u8>,
    kind: SampleKind,
    ts: Timestamp,
) -> Result<StorageInsertionResult, StorageError> {
    if read_only {
        Err(StorageError::ReadOnlyViolation)
    } else if !valid_key(key) {
        Err(StorageError::InvalidKey)
    } else if stale(s, key, ts) {
        Ok(StorageInsertionResult::Outdated)
    } else {
        match kind {
            SampleKind::Put => Ok(StorageInsertionResult::Inserted),
            SampleKind::Delete => Ok(StorageInsertionResult::Deleted),
        }
    }
}

/// The state that a sample on `key` leaves.
pub open spec fn sample_effect(
    s: StoreView,
    read_only: bool,
    key: Seq<u8>,
    kind: SampleKind,
    payload: Seq<u8>,
    encoding: Seq<u8>,
    ts: Timestamp,
) -> StoreView {
    match sample_outcome(s, read_only, key, kind, ts) {
        Ok(StorageInsertionResult::Inserted) => after_write(s, key, payload, encoding, ts),
        Ok(StorageInsertionResult::Deleted) => after_delete(s, key, ts),
        _ => s,
    }
}

/// Whether `r` answers the query `ke`: with wildcards, each matched live key
/// once; without, the one live key `ke` if it is live.
pub open spec fn answers(r: Seq<Reply>, s: StoreView, ke: Seq<u8>) -> bool {
    &&& forall|i: int|
        0 <= i < r.len() ==> read_of(s, (#[trigger] r[i]).key@) == Some(
            (r[i].payload@, r[i].encoding@, r[i].timestamp),
        )
    &&& if has_wildcard(ke) {
        &&& r.map_values(|x: Reply| x.key@).no_duplicates()
        &&& forall|i: int| 0 <= i < r.len() ==> live_match(s, ke, #[trigger] r[i].key@)
        &&& forall|k: Seq<u8>|
            #[trigger] live_match(s, ke, k) ==> exists|i: int|
                0 <= i < r.len() && #[trigger] r[i].key@ == k
    } else {
        &&& r.len() == if read_of(s, ke) is Some { 1int } else { 0int }
        &&& r.len() == 1 ==> r[0].key@ == ke
    }
}

/// Whether `r` lists every key that has a record once, with the timestamp
/// of that record: live keys first, then tombstones.
pub open spec fn lists_entries(r: Seq<(Vec<u8>, Timestamp)>, s: StoreView) -> bool {
    &&& r.map_values(|e: (Vec<u8>, Timestamp)| e.0@).no_duplicates()
    &&& forall|i: int|
        0 <= i < r.len() ==> s.infos.contains_key(#[trigger] r[i].0@) && s.infos[r[i].0@].timestamp
            == r[i].1
    &&& forall|k: Seq<u8>|
        #[trigger] s.infos.contains_key(k) ==> exists|i: int| 0 <= i < r.len() && #[trigger] r[i].0@ == k
}

pub struct FileSystemStorage {
    files_mgr: FilesMgr,
    read_only: bool,
}

impl View for FileSystemStorage {
    type V = StoreView;

    closed spec fn view(&self) -> StoreView {
        self.files_mgr@
    }
}

impl FileSystemStorage {
    pub closed spec fn wf(&self) -> bool {
        self.files_mgr.wf()
    }

    pub closed spec fn spec_read_only(&self) -> bool {
        self.read_only
    }

    pub closed spec fn spec_files_mgr(&self) -> FilesMgr {
        self.files_mgr
    }

    pub fn new(files_mgr: FilesMgr, read_only: bool) -> (r: FileSystemStorage)
        requires
            files_mgr.wf(),
        ensures
            r.wf(),
            r@ == files_mgr@,
            r.spec_read_only() == read_only,
            r.spec_files_mgr() == files_mgr,
    {
        FileSystemStorage { files_mgr, read_only }
    }

    pub fn read_only(&self) -> (r: bool)
        ensures
            r == self.spec_read_only(),
    {
        self.read_only
    }

    pub fn files_mgr(&self) -> (r: &FilesMgr)
        ensures
            *r == self.spec_files_mgr(),
            r@ == self@,
    {
        &self.files_mgr
    }

    /// Applies a put or a delete, unless the storage is read-only, the key
    /// is not a structured key, or the sample is stale.
    pub fn on_sample(&mut self, sample: &Sample) -> (r: Result<StorageInsertionResult, StorageError>)
        requires
            old(self).wf(),
        ensures
            final(self).wf(),
            final(self).spec_read_only() == old(self).spec_read_only(),
            r == sample_outcome(
                old(self)@,
                old(self).spec_read_only(),
                sample.key@,
                sample.kind,
                sample.timestamp,
            ),
            final(self)@ == sample_effect(
                old(self)@,
                old(self).spec_read_only(),
                sample.key@,
                sample.kind,
                sample.payload@,
                sample.encoding@,
                sample.timestamp,
            ),
    {
        if self.read_only {
            return Err(StorageError::ReadOnlyViolation);
        }
        let key = sample.key.as_slice();
        if !is_valid_key(key) {
            return Err(StorageError::InvalidKey);
        }
        match sample.kind {
            SampleKind::Put => {
                if self.files_mgr.write_file(key, sample.payload.as_slice(), sample.encoding.as_slice(), sample.timestamp) {
                    Ok(StorageInsertionResult::Inserted)
                } else {
                    Ok(StorageInsertionResult::Outdated)
                }
            },
            SampleKind::Delete => {
                if self.files_mgr.delete_file(key, sample.timestamp) {
                    Ok(StorageInsertionResult::Deleted)
                } else {
                    Ok(StorageInsertionResult::Outdated)
                }
            },
        }
    }

    /// Takes in a file found in the directory for a structured key that has
    /// no record; returns whether it was taken in. Read-only storages take
    /// such files in too: nothing is written.
    pub fn adopt_file(&mut self, key: &[u8], payload: &[u8], encoding: &[u8], ts: Timestamp) -> (adopted: bool)
        requires
            old(self).wf(),
        ensures
            final(self).wf(),
            final(self).spec_read_only() == old(self).spec_read_only(),
            adopted == (valid_key(key@) && !old(self)@.infos.contains_key(key@)),
            adopted ==> final(self)@ == after_write(old(self)@, key@, payload@, encoding@, ts),
            !adopted ==> final(self)@ == old(self)@,
    {
        if !is_valid_key(key) {
            return false;
        }
        self.files_mgr.adopt_file(key, payload, encoding, ts)
    }

    /// The replies to a query on the key expression `ke`.
    pub fn on_query(&self, ke: &[u8]) -> (r: Vec<Reply>)
        requires
            self.wf(),
        ensures
            answers(r@, self@, ke@),
    {
        let mut r: Vec<Reply> = Vec::new();
        if contains_wildcard(ke) {
            let keys = self.files_mgr.matching_files(ke);
            let ghost s = self@;
            let mut i: usize = 0;
            while i < keys.len()
                invariant
                    self.wf(),
                    s == self@,
                    lists_matches(keys@, s, ke@),
                    i <= keys@.len(),
                    r@.len() == i,
                    forall|j: int| 0 <= j < i ==> (#[trigger] r@[j]).key@ == keys@[j]@,
                    forall|j: int|
                        0 <= j < r@.len() ==> read_of(s, (#[trigger] r@[j]).key@) == Some(
                            (r@[j].payload@, r@[j].encoding@, r@[j].timestamp),
                        ),
                decreases keys@.len() - i,
            {
                let k = keys[i].as_slice();
                proof {
                    self.files_mgr.lemma_wf();
                    assert(live_match(s, ke@, keys@[i as int]@));
                }
                match self.files_mgr.read_file(k) {
                    Some((payload, encoding, timestamp)) => {
                        r.push(Reply { key: vstd::slice::slice_to_vec(k), payload, encoding, timestamp });
                    },
                    None => {
                        assert(false);
                    },
                }
                i = i + 1;
            }
            proof {
                assert(r@.map_values(|x: Reply| x.key@) =~= key_views(keys@));
                assert forall|k: Seq<u8>| #[trigger] live_match(s, ke@, k) implies exists|j: int|
                    0 <= j < r@.len() && #[trigger] r@[j].key@ == k by {
                    let j = choose|j: int| 0 <= j < keys@.len() && #[trigger] keys@[j]@ == k;
                    assert(r@[j].key@ == k);
                }
                assert forall|j: int| 0 <= j < r@.len() implies live_match(s, ke@, #[trigger] r@[j].key@) by {
                    assert(live_match(s, ke@, keys@[j]@));
                }
            }
        } else {
            match self.files_mgr.read_file(ke) {
                Some((payload, encoding, timestamp)) => {
                    r.push(Reply { key: vstd::slice::slice_to_vec(ke), payload, encoding, timestamp });
                },
                None => {},
            }
        }
        r
    }

    /// Every key that has a record: each live key with the timestamp of its
    /// content, then each tombstone with its deletion timestamp.
    pub fn get_all_entries(&self) -> (r: Vec<(Vec<u8>, Timestamp)>)
        requires
            self.wf(),
        ensures
            lists_entries(r@, self@),
    {
        let ghost s = self@;
        let all: Vec<u8> = vec![0x2Au8, 0x2Au8];
        assert(all@ =~= seq![0x2Au8, 0x2Au8]);
        let keys = self.files_mgr.matching_files(all.as_slice());
        proof {
            self.files_mgr.lemma_wf();
        }
        let mut r: Vec<(Vec<u8>, Timestamp)> = Vec::new();
        let mut i: usize = 0;
        while i < keys.len()
            invariant
                self.wf(),
                s == self@,
                lists_matches(keys@, s, all@),
                forall|k: Seq<u8>|
                    #[trigger] s.contents.contains_key(k) <==> s.infos.contains_key(k) && !s.infos[k].deleted,
                i <= keys@.len(),
                r@.len() == i,
                forall|j: int|
                    0 <= j < i ==> (#[trigger] r@[j]).0@ == keys@[j]@ && s.contents.contains_key(r@[j].0@)
                        && s.infos.contains_key(r@[j].0@) && s.infos[r@[j].0@].timestamp == r@[j].1,
            decreases keys@.len() - i,
        {
            let k = keys[i].as_slice();
            assert(live_match(s, all@, keys@[i as int]@));
            match self.files_mgr.read_file(k) {
                Some((_payload, _encoding, timestamp)) => {
                    r.push((vstd::slice::slice_to_vec(k), timestamp));
                },
                None => {
                    assert(false);
                },
            }
            i = i + 1;
        }
        let ghost live = r@;
        let mut deleted = self.files_mgr.get_deleted_entries();
        let ghost dels = deleted@;
        r.append(&mut deleted);
        proof {
            let rk = r@.map_values(|e: (Vec<u8>, Timestamp)| e.0@);
            let dk = dels.map_values(|e: (Vec<u8>, Timestamp)| e.0@);
            assert forall|a: int, b: int| 0 <= a < rk.len() && 0 <= b < rk.len() && a != b
                implies rk[a] != rk[b] by {
                if a < live.len() && b < live.len() {
                    assert(rk[a] == key_views(keys@)[a]);
                    assert(rk[b] == key_views(keys@)[b]);
                } else if a >= live.len() && b >= live.len() {
                    assert(rk[a] == dk[a - live.len()]);
                    assert(rk[b] == dk[b - live.len()]);
                } else if a < live.len() {
                    assert(r@[b] == dels[b - live.len()]);
                    assert(s.infos[r@[b].0@].deleted);
                    assert(r@[a] == live[a]);
                } else {
                    assert(r@[a] == dels[a - live.len()]);
                    assert(s.infos[r@[a].0@].deleted);
                    assert(r@[b] == live[b]);
                }
            }
            assert forall|j: int| 0 <= j < r@.len() implies s.infos.contains_key(#[trigger] r@[j].0@)
                && s.infos[r@[j].0@].timestamp == r@[j].1 by {
                if j < live.len() {
                    assert(r@[j] == live[j]);
                } else {
                    assert(r@[j] == dels[j - live.len()]);
                }
            }
            assert forall|k: Seq<u8>| #[trigger] s.infos.contains_key(k) implies exists|j: int|
                0 <= j < r@.len() && #[trigger] r@[j].0@ == k by {
                if s.infos[k].deleted {
                    let x = choose|x: int| 0 <= x < dels.len() && #[trigger] dels[x].0@ == k;
                    assert(r@[live.len() + x] == dels[x]);
                } else {
                    lemma_double_star_matches_all(k);
                    assert(live_match(s, all@, k));
                    let x = choose|x: int| 0 <= x < keys@.len() && #[trigger] keys@[x]@ == k;
                    assert(r@[x] == live[x]);
                }
            }
        }
        r
    }
}

} // verus!
