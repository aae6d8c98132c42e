//! The storage's ordering, tombstone, round-trip, enumeration and read-only
//! guarantees, stated over the effects of samples and proved.
use vstd::prelude::*;
use crate::data_info::tombstone;
use crate::files::{StoreView, read_of, stale};
use crate::keyexpr::valid_key;
use crate::storage::{SampleKind, StorageError, StorageInsertionResult, lists_entries, sample_effect, sample_outcome};
use crate::timestamp::Timestamp;

verus! {

/// Of two puts on one key stamped `t1` before `t2`, the older one has no
/// effect once the newer is in, and both arrival orders leave the same
/// state.
pub proof fn lemma_ordering(
    s: StoreView,
    k: Seq<u8>,
    p1: Seq<u8>,
    e1: Seq<u8>,
    t1: Timestamp,
    p2: Seq<u8>,
    e2: Seq<u8>,
    t2: Timestamp,
)
    requires
        valid_key(k),
        t1.precedes(t2),
    ensures
        ({
            let s2 = sample_effect(s, false, k, SampleKind::Put, p2, e2, t2);
            sample_effect(s2, false, k, SampleKind::Put, p1, e1, t1) == s2
        }),
        sample_effect(
            sample_effect(s, false, k, SampleKind::Put, p1, e1, t1),
            false,
            k,
            SampleKind::Put,
            p2,
            e2,
            t2,
        ) == sample_effect(
            sample_effect(s, false, k, SampleKind::Put, p2, e2, t2),
            false,
            k,
            SampleKind::Put,
            p1,
            e1,
            t1,
        ),
        !stale(s, k, t2) ==> read_of(
            sample_effect(
                sample_effect(s, false, k, SampleKind::Put, p1, e1, t1),
                false,
                k,
                SampleKind::Put,
                p2,
                e2,
                t2,
            ),
            k,
        ) == Some((p2, e2, t2)),
{
    let s1 = sample_effect(s, false, k, SampleKind::Put, p1, e1, t1);
    let s12 = sample_effect(s1, false, k, SampleKind::Put, p2, e2, t2);
    let s2 = sample_effect(s, false, k, SampleKind::Put, p2, e2, t2);
    if !stale(s, k, t2) {
        assert(!stale(s1, k, t2));
        assert(s12.infos =~= s2.infos);
        assert(s12.contents =~= s2.contents);
    }
}

/// A put stamped no later than an accepted delete is refused and changes
/// nothing; one stamped later is accepted and makes the key live again.
pub proof fn lemma_tombstone_supremacy(
    s: StoreView,
    k: Seq<u8>,
    t: Timestamp,
    p: Seq<u8>,
    e: Seq<u8>,
    t2: Timestamp,
)
    requires
        valid_key(k),
        !stale(s, k, t),
    ensures
        ({
            let s1 = sample_effect(s, false, k, SampleKind::Delete, Seq::empty(), Seq::empty(), t);
            &&& !t.precedes(t2) ==> sample_outcome(s1, false, k, SampleKind::Put, t2) == Ok::<
                StorageInsertionResult,
                StorageError,
            >(StorageInsertionResult::Outdated)
            &&& !t.precedes(t2) ==> sample_effect(s1, false, k, SampleKind::Put, p, e, t2) == s1
            &&& t.precedes(t2) ==> sample_outcome(s1, false, k, SampleKind::Put, t2) == Ok::<
                StorageInsertionResult,
                StorageError,
            >(StorageInsertionResult::Inserted)
            &&& t.precedes(t2) ==> !sample_effect(s1, false, k, SampleKind::Put, p, e, t2).infos[k].deleted
            &&& t.precedes(t2) ==> read_of(sample_effect(s1, false, k, SampleKind::Put, p, e, t2), k)
                == Some((p, e, t2))
        }),
{
}

/// Reading a key after an accepted put gives back exactly the put's content,
/// encoding and timestamp.
pub proof fn lemma_round_trip(s: StoreView, k: Seq<u8>, b: Seq<u8>, e: Seq<u8>, t: Timestamp)
    requires
        valid_key(k),
        !stale(s, k, t),
    ensures
        sample_outcome(s, false, k, SampleKind::Put, t) == Ok::<StorageInsertionResult, StorageError>(
            StorageInsertionResult::Inserted,
        ),
        read_of(sample_effect(s, false, k, SampleKind::Put, b, e, t), k) == Some((b, e, t)),
{
}

/// After puts on `a` and `b` and a delete of `c`, all accepted, a full
/// enumeration holds `a` and `b` as live keys and `c` as a tombstone, each
/// with the timestamp of its last operation and each once.
pub proof fn lemma_enumeration_complete(
    s: StoreView,
    a: Seq<u8>,
    ta: Timestamp,
    pa: Seq<u8>,
    ea: Seq<u8>,
    b: Seq<u8>,
    tb: Timestamp,
    pb: Seq<u8>,
    eb: Seq<u8>,
    c: Seq<u8>,
    tc: Timestamp,
    r: Seq<(Vec<u8>, Timestamp)>,
)
    requires
        valid_key(a),
        valid_key(b),
        valid_key(c),
        a != b,
        a != c,
        b != c,
        !stale(s, a, ta),
        !stale(s, b, tb),
        !stale(s, c, tc),
        lists_entries(
            r,
            sample_effect(
                sample_effect(
                    sample_effect(s, false, a, SampleKind::Put, pa, ea, ta),
                    false,
                    b,
                    SampleKind::Put,
                    pb,
                    eb,
                    tb,
                ),
                false,
                c,
                SampleKind::Delete,
                Seq::empty(),
                Seq::empty(),
                tc,
            ),
        ),
    ensures
        r.map_values(|e: (Vec<u8>, Timestamp)| e.0@).no_duplicates(),
        exists|i: int| 0 <= i < r.len() && #[trigger] r[i].0@ == a && r[i].1 == ta,
        exists|i: int| 0 <= i < r.len() && #[trigger] r[i].0@ == b && r[i].1 == tb,
        exists|i: int| 0 <= i < r.len() && #[trigger] r[i].0@ == c && r[i].1 == tc,
        ({
            let s3 = sample_effect(
                sample_effect(
                    sample_effect(s, false, a, SampleKind::Put, pa, ea, ta),
                    false,
                    b,
                    SampleKind::Put,
                    pb,
                    eb,
                    tb,
                ),
                false,
                c,
                SampleKind::Delete,
                Seq::empty(),
                Seq::empty(),
                tc,
            );
            &&& read_of(s3, a) == Some((pa, ea, ta))
            &&& read_of(s3, b) == Some((pb, eb, tb))
            &&& read_of(s3, c) is None
            &&& s3.infos[c] == tombstone(tc)
        }),
{
    let s1 = sample_effect(s, false, a, SampleKind::Put, pa, ea, ta);
    let s2 = sample_effect(s1, false, b, SampleKind::Put, pb, eb, tb);
    let s3 = sample_effect(s2, false, c, SampleKind::Delete, Seq::empty(), Seq::empty(), tc);
    assert(s1.infos[b] == s.infos[b]);
    assert(s2.infos.contains_key(c) == s.infos.contains_key(c));
    assert(s2.infos[c] == s.infos[c]);
    assert(s3.infos.contains_key(a));
    assert(s3.infos.contains_key(b));
    assert(s3.infos.contains_key(c));
}

/// Deleting a key that has no record succeeds and leaves a tombstone.
pub proof fn lemma_idempotent_delete(s: StoreView, k: Seq<u8>, t: Timestamp)
    requires
        valid_key(k),
        !s.infos.contains_key(k),
    ensures
        sample_outcome(s, false, k, SampleKind::Delete, t) == Ok::<StorageInsertionResult, StorageError>(
            StorageInsertionResult::Deleted,
        ),
        sample_effect(s, false, k, SampleKind::Delete, Seq::empty(), Seq::empty(), t).infos[k]
            == tombstone(t),
        read_of(sample_effect(s, false, k, SampleKind::Delete, Seq::empty(), Seq::empty(), t), k) is None,
{
}

/// A read-only storage refuses every sample and is left as it was.
pub proof fn lemma_read_only(
    s: StoreView,
    k: Seq<u8>,
    kind: SampleKind,
    p: Seq<u8>,
    e: Seq<u8>,
    t: Timestamp,
)
    ensures
        sample_outcome(s, true, k, kind, t) == Err::<StorageInsertionResult, StorageError>(
            StorageError::ReadOnlyViolation,
        ),
        sample_effect(s, true, k, kind, p, e, t) == s,
{
}

} // verus!
