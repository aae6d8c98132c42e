//! Structured keys and key expressions: splitting into segments, validity,
//! and the wildcard matcher (`*` for one segment, `**` for any number).
use vstd::prelude::*;

verus! {

pub open spec fn is_wild_byte(b: u8) -> bool {
    b == 0x2Au8 || b == 0x3Fu8 || b == 0x24u8
}

/// A structured key: non-empty segments separated by `/`, and no `*`, `?`
/// or `$` anywhere.
pub open spec fn valid_key(k: Seq<u8>) -> bool {
    &&& k.len() > 0
    &&& k[0] != 0x2Fu8
    &&& k[k.len() - 1] != 0x2Fu8
    &&& forall|i: int| 0 <= i < k.len() ==> !is_wild_byte(#[trigger] k[i])
    &&& forall|i: int| 0 <= i < k.len() - 1 && #[trigger] k[i] == 0x2Fu8 ==> k[i + 1] != 0x2Fu8
}

/// The segments that are complete, and the one being read, after `k`.
pub open spec fn split_state(k: Seq<u8>) -> (Seq<Seq<u8>>, Seq<u8>)
    decreases k.len(),
{
    if k.len() == 0 {
        (Seq::empty(), Seq::empty())
    } else {
        let (done, cur) = split_state(k.drop_last());
        if k.last() == 0x2Fu8 {
            (done.push(cur), Seq::empty())
        } else {
            (done, cur.push(k.last()))
        }
    }
}

/// The `/`-separated segments of `k`.
pub open spec fn segments(k: Seq<u8>) -> Seq<Seq<u8>> {
    split_state(k).0.push(split_state(k).1)
}

pub open spec fn views(v: Seq<Vec<u8>>) -> Seq<Seq<u8>> {
    v.map_values(|x: Vec<u8>| x@)
}

/// Whether one segment of a pattern admits one segment of a key.
pub open spec fn segment_matches(p: Seq<u8>, s: Seq<u8>) -> bool {
    p == seq![0x2Au8] || p == s
}

pub open spec fn is_double_star(p: Seq<u8>) -> bool {
    p == seq![0x2Au8, 0x2Au8]
}

/// Whether the pattern segments from `i` on match the key segments from `j`
/// on.
pub open spec fn matches_from(pat: Seq<Seq<u8>>, key: Seq<Seq<u8>>, i: int, j: int) -> bool
    recommends
        0 <= i <= pat.len(),
        0 <= j <= key.len(),
    decreases pat.len() - i + key.len() - j,
{
    if i >= pat.len() || j > key.len() || i < 0 || j < 0 {
        i == pat.len() && j == key.len()
    } else if is_double_star(pat[i]) {
        matches_from(pat, key, i + 1, j) || (j < key.len() && matches_from(pat, key, i, j + 1))
    } else {
        j < key.len() && segment_matches(pat[i], key[j]) && matches_from(pat, key, i + 1, j + 1)
    }
}

/// Whether the key expression `pattern` matches the key `key`.
pub open spec fn ke_matches(pattern: Seq<u8>, key: Seq<u8>) -> bool {
    matches_from(segments(pattern), segments(key), 0, 0)
}

/// Whether `pattern` holds a wildcard.
pub open spec fn has_wildcard(pattern: Seq<u8>) -> bool {
    exists|i: int| 0 <= i < pattern.len() && pattern[i] == 0x2Au8
}

proof fn lemma_double_star_from(pat: Seq<Seq<u8>>, key: Seq<Seq<u8>>, j: int)
    requires
        pat.len() == 1,
        is_double_star(pat[0]),
        0 <= j <= key.len(),
    ensures
        matches_from(pat, key, 0, j),
    decreases key.len() - j,
{
    if j < key.len() {
        lemma_double_star_from(pat, key, j + 1);
    }
    assert(matches_from(pat, key, 1, key.len() as int));
}

/// The key expression `**` matches every key.
pub proof fn lemma_double_star_matches_all(key: Seq<u8>)
    ensures
        ke_matches(seq![0x2Au8, 0x2Au8], key),
{
    let p = seq![0x2Au8, 0x2Au8];
    assert(p.drop_last() =~= seq![0x2Au8]);
    assert(p.drop_last().drop_last() =~= Seq::<u8>::empty());
    assert(split_state(Seq::<u8>::empty()) == (Seq::<Seq<u8>>::empty(), Seq::<u8>::empty()));
    assert(split_state(seq![0x2Au8]).1 =~= seq![0x2Au8]);
    assert(split_state(p).1 =~= p);
    assert(segments(p) =~= seq![p]);
    lemma_double_star_from(segments(p), segments(key), 0);
}

pub fn bytes_equal(a: &[u8], b: &[u8]) -> (r: bool)
    ensures
        r == (a@ == b@),
{
    if a.len() != b.len() {
        return false;
    }
    let mut i: usize = 0;
    while i < a.len()
        invariant
            a@.len() == b@.len(),
            i <= a@.len(),
            forall|j: int| 0 <= j < i ==> a@[j] == b@[j],
        decreases a@.len() - i,
    {
        if a[i] != b[i] {
            return false;
        }
        i = i + 1;
    }
    assert(a@ =~= b@);
    true
}

/// Whether `k` is a structured key.
pub fn is_valid_key(k: &[u8]) -> (r: bool)
    ensures
        r == valid_key(k@),
{
    let n = k.len();
    if n == 0 || k[0] == 0x2Fu8 || k[n - 1] == 0x2Fu8 {
        return false;
    }
    let mut i: usize = 0;
    while i < n
        invariant
            n == k@.len(),
            n > 0,
            i <= n,
            forall|j: int| 0 <= j < i ==> !is_wild_byte(#[trigger] k@[j]),
            forall|j: int| 0 <= j < i && j < n - 1 && #[trigger] k@[j] == 0x2Fu8 ==> k@[j + 1] != 0x2Fu8,
        decreases n - i,
    {
        let b = k[i];
        if b == 0x2Au8 || b == 0x3Fu8 || b == 0x24u8 {
            return false;
        }
        if b == 0x2Fu8 && i + 1 < n && k[i + 1] == 0x2Fu8 {
            return false;
        }
        i = i + 1;
    }
    true
}

/// Whether `pattern` holds a `*`.
pub fn contains_wildcard(pattern: &[u8]) -> (r: bool)
    ensures
        r == has_wildcard(pattern@),
{
    let mut i: usize = 0;
    while i < pattern.len()
        invariant
            i <= pattern@.len(),
            forall|j: int| 0 <= j < i ==> pattern@[j] != 0x2Au8,
        decreases pattern@.len() - i,
    {
        if pattern[i] == 0x2Au8 {
            return true;
        }
        i = i + 1;
    }
    false
}

/// The `/`-separated segments of `k`.
pub fn split_segments(k: &[u8]) -> (r: Vec<Vec<u8>>)
    ensures
        views(r@) == segments(k@),
{
    let mut done: Vec<Vec<u8>> = Vec::new();
    let mut cur: Vec<u8> = Vec::new();
    let mut i: usize = 0;
    assert(k@.take(0) =~= Seq::<u8>::empty());
    assert(views(done@) =~= Seq::<Seq<u8>>::empty());
    while i < k.len()
        invariant
            i <= k@.len(),
            split_state(k@.take(i as int)) == (views(done@), cur@),
        decreases k@.len() - i,
    {
        assert(k@.take(i + 1).drop_last() =~= k@.take(i as int));
        let b = k[i];
        if b == 0x2Fu8 {
            let ghost before = views(done@);
            let seg = cur;
            done.push(seg);
            cur = Vec::new();
            assert(views(done@) =~= before.push(seg@));
        } else {
            cur.push(b);
        }
        i = i + 1;
    }
    assert(k@.take(i as int) =~= k@);
    let ghost before = views(done@);
    done.push(cur);
    assert(views(done@) =~= before.push(split_state(k@).1));
    done
}

fn is_star_segment(p: &Vec<u8>) -> (r: bool)
    ensures
        r == (p@ == seq![0x2Au8]),
{
    let r = p.len() == 1 && p[0] == 0x2Au8;
    if r {
        assert(p@ =~= seq![0x2Au8]);
    }
    r
}

fn is_double_star_segment(p: &Vec<u8>) -> (r: bool)
    ensures
        r == is_double_star(p@),
{
    let r = p.len() == 2 && p[0] == 0x2Au8 && p[1] == 0x2Au8;
    if r {
        assert(p@ =~= seq![0x2Au8, 0x2Au8]);
    }
    r
}

fn match_segments_from(pat: &Vec<Vec<u8>>, key: &Vec<Vec<u8>>, i: usize, j: usize) -> (r: bool)
    requires
        i <= pat@.len(),
        j <= key@.len(),
    ensures
        r == matches_from(views(pat@), views(key@), i as int, j as int),
    decreases pat@.len() - i + key@.len() - j,
{
    let ghost p = views(pat@);
    let ghost k = views(key@);
    if i == pat.len() {
        return j == key.len();
    }
    assert(p[i as int] == pat@[i as int]@);
    if is_double_star_segment(&pat[i]) {
        if match_segments_from(pat, key, i + 1, j) {
            return true;
        }
        j < key.len() && match_segments_from(pat, key, i, j + 1)
    } else {
        if j == key.len() {
            return false;
        }
        assert(k[j as int] == key@[j as int]@);
        let seg_ok = is_star_segment(&pat[i]) || bytes_equal(pat[i].as_slice(), key[j].as_slice());
        seg_ok && match_segments_from(pat, key, i + 1, j + 1)
    }
}

/// Whether the key expression `pattern` matches the key `key`.
pub fn key_matches(pattern: &[u8], key: &[u8]) -> (r: bool)
    ensures
        r == ke_matches(pattern@, key@),
{
    let p = split_segments(pattern);
    let k = split_segments(key);
    match_segments_from(&p, &k, 0, 0)
}

} // verus!
