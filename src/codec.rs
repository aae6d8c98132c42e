//! The key codec: a reversible, injective mapping between structured keys and
//! file-system-safe relative paths, both as UTF-8 bytes.
//!
//! Each byte that a host file system reserves or that could give a path a
//! special meaning is written as `%` followed by two upper-case hex digits;
//! `/` stays the segment separator. Since `.` is always escaped, no encoded
//! path has a `.` or `..` component or a hidden entry, so names that begin
//! with `.` are free for the engine's own files.
use vstd::prelude::*;

verus! {

/// Bytes that never appear as themselves in an encoded path.
pub open spec fn reserved(b: u8) -> bool {
    b == 0x25u8 || b == 0x5Cu8 || b == 0x3Au8 || b == 0x2Eu8 || b == 0x3Cu8 || b == 0x3Eu8
        || b == 0x22u8 || b == 0x7Cu8
}

/// The upper-case hex digit of a value below 16.
pub open spec fn hex_digit(n: u8) -> u8 {
    if n < 10 {
        (0x30 + n) as u8
    } else {
        (0x41 + n - 10) as u8
    }
}

/// The value of an upper-case hex digit.
pub open spec fn hex_value(c: u8) -> Option<u8> {
    if 0x30 <= c && c <= 0x39 {
        Some((c - 0x30) as u8)
    } else if 0x41 <= c && c <= 0x46 {
        Some((c - 0x41 + 10) as u8)
    } else {
        None
    }
}

/// How one byte of a key is written in a path.
pub open spec fn escape(b: u8) -> Seq<u8> {
    if reserved(b) {
        seq![0x25u8, hex_digit(b / 16), hex_digit(b % 16)]
    } else {
        seq![b]
    }
}

/// The reserved byte that `%` followed by `h` and `l` stands for, if any.
pub open spec fn unescape(h: u8, l: u8) -> Option<u8> {
    match (hex_value(h), hex_value(l)) {
        (Some(a), Some(b)) => if reserved((a * 16 + b) as u8) {
            Some((a * 16 + b) as u8)
        } else {
            None
        },
        _ => None,
    }
}

/// The path of a key.
pub open spec fn encode_path(s: Seq<u8>) -> Seq<u8>
    decreases s.len(),
{
    if s.len() == 0 {
        Seq::empty()
    } else {
        escape(s[0]) + encode_path(s.drop_first())
    }
}

/// `o` with `a` put in front of its content.
pub open spec fn prefixed(a: Seq<u8>, o: Option<Seq<u8>>) -> Option<Seq<u8>> {
    match o {
        Some(r) => Some(a + r),
        None => None,
    }
}

/// The key that a path stands for; `None` where the path is not one that
/// `encode_path` produces.
pub open spec fn decode_path(p: Seq<u8>) -> Option<Seq<u8>>
    decreases p.len(),
{
    if p.len() == 0 {
        Some(Seq::empty())
    } else if p[0] == 0x25u8 {
        if p.len() < 3 {
            None
        } else {
            match unescape(p[1], p[2]) {
                Some(b) => prefixed(seq![b], decode_path(p.skip(3))),
                None => None,
            }
        }
    } else if reserved(p[0]) {
        None
    } else {
        prefixed(seq![p[0]], decode_path(p.drop_first()))
    }
}

proof fn lemma_unescape_escape(b: u8)
    requires
        reserved(b),
    ensures
        unescape(hex_digit(b / 16), hex_digit(b % 16)) == Some(b),
        escape(b)[0] == 0x25u8,
{
}

/// Decoding undoes encoding.
pub proof fn lemma_decode_encode(s: Seq<u8>)
    ensures
        decode_path(encode_path(s)) == Some(s),
    decreases s.len(),
{
    if s.len() > 0 {
        let b = s[0];
        let rest = encode_path(s.drop_first());
        lemma_decode_encode(s.drop_first());
        let p = escape(b) + rest;
        assert(encode_path(s) == p);
        if reserved(b) {
            lemma_unescape_escape(b);
            assert(p.skip(3) =~= rest);
        } else {
            assert(p.drop_first() =~= rest);
        }
        assert(seq![b] + s.drop_first() =~= s);
    }
}

/// A path that decodes is the encoding of what it decodes to.
pub proof fn lemma_encode_decode(p: Seq<u8>)
    requires
        decode_path(p) is Some,
    ensures
        encode_path(decode_path(p)->0) == p,
    decreases p.len(),
{
    if p.len() > 0 {
        let s = decode_path(p)->0;
        if p[0] == 0x25u8 {
            let b = unescape(p[1], p[2])->0;
            lemma_encode_decode(p.skip(3));
            let t = decode_path(p.skip(3))->0;
            assert(s == seq![b] + t);
            assert(s.drop_first() =~= t);
            assert(hex_value(p[1]) is Some && hex_value(p[2]) is Some);
            assert(escape(b) =~= p.take(3));
            assert(p =~= p.take(3) + p.skip(3));
        } else {
            lemma_encode_decode(p.drop_first());
            let t = decode_path(p.drop_first())->0;
            assert(s.drop_first() =~= t);
            assert(p =~= seq![p[0]] + p.drop_first());
        }
    }
}

/// Distinct keys never share a path.
pub proof fn lemma_encode_injective(a: Seq<u8>, b: Seq<u8>)
    requires
        encode_path(a) == encode_path(b),
    ensures
        a == b,
{
    lemma_decode_encode(a);
    lemma_decode_encode(b);
}

fn is_reserved(b: u8) -> (r: bool)
    ensures
        r == reserved(b),
{
    b == 0x25u8 || b == 0x5Cu8 || b == 0x3Au8 || b == 0x2Eu8 || b == 0x3Cu8 || b == 0x3Eu8
        || b == 0x22u8 || b == 0x7Cu8
}

fn hex_digit_of(n: u8) -> (r: u8)
    requires
        n < 16,
    ensures
        r == hex_digit(n),
{
    if n < 10 {
        0x30 + n
    } else {
        0x41 + n - 10
    }
}

fn hex_value_of(c: u8) -> (r: Option<u8>)
    ensures
        r == hex_value(c),
{
    if 0x30 <= c && c <= 0x39 {
        Some(c - 0x30)
    } else if 0x41 <= c && c <= 0x46 {
        Some(c - 0x41 + 10)
    } else {
        None
    }
}

fn unescape_pair(h: u8, l: u8) -> (r: Option<u8>)
    ensures
        r == unescape(h, l),
{
    match (hex_value_of(h), hex_value_of(l)) {
        (Some(a), Some(b)) => {
            let v: u8 = a * 16 + b;
            if is_reserved(v) {
                Some(v)
            } else {
                None
            }
        },
        _ => None,
    }
}

/// The relative path under which the content of `key` is stored.
pub fn encode_key(key: &[u8]) -> (r: Vec<u8>)
    ensures
        r@ == encode_path(key@),
{
    let mut r: Vec<u8> = Vec::new();
    let mut i: usize = 0;
    assert(key@.skip(0) =~= key@);
    assert(r@ + encode_path(key@) =~= encode_path(key@));
    while i < key.len()
        invariant
            i <= key@.len(),
            encode_path(key@) == r@ + encode_path(key@.skip(i as int)),
        decreases key@.len() - i,
    {
        let b = key[i];
        assert(key@.skip(i as int).drop_first() =~= key@.skip(i + 1));
        let ghost before = r@;
        if is_reserved(b) {
            r.push(0x25u8);
            r.push(hex_digit_of(b / 16));
            r.push(hex_digit_of(b % 16));
        } else {
            r.push(b);
        }
        assert(r@ =~= before + escape(b));
        assert(before + (escape(b) + encode_path(key@.skip(i + 1))) =~= r@ + encode_path(
            key@.skip(i + 1),
        ));
        i = i + 1;
    }
    assert(key@.skip(i as int) =~= Seq::<u8>::empty());
    assert(r@ + Seq::<u8>::empty() =~= r@);
    r
}

/// The key that a relative path stands for, or `None` where the path is not
/// the encoding of any key.
pub fn decode_key(path: &[u8]) -> (r: Option<Vec<u8>>)
    ensures
        r matches Some(k) ==> decode_path(path@) == Some(k@),
        r is None ==> decode_path(path@) is None,
{
    let mut r: Vec<u8> = Vec::new();
    let mut i: usize = 0;
    assert(path@.skip(0) =~= path@);
    proof {
        match decode_path(path@) {
            Some(t) => assert(r@ + t =~= t),
            None => {},
        }
    }
    while i < path.len()
        invariant
            i <= path@.len(),
            decode_path(path@) == prefixed(r@, decode_path(path@.skip(i as int))),
        decreases path@.len() - i,
    {
        let rest = Ghost(path@.skip(i as int));
        let b = path[i];
        if b == 0x25u8 {
            if path.len() - i < 3 {
                return None;
            }
            match unescape_pair(path[i + 1], path[i + 2]) {
                Some(c) => {
                    assert(rest@.skip(3) =~= path@.skip(i + 3));
                    let ghost before = r@;
                    r.push(c);
                    assert(r@ =~= before + seq![c]);
                    proof {
                        match decode_path(path@.skip(i + 3)) {
                            Some(t) => assert(before + (seq![c] + t) =~= r@ + t),
                            None => {},
                        }
                    }
                    i = i + 3;
                },
                None => {
                    return None;
                },
            }
        } else if is_reserved(b) {
            return None;
        } else {
            assert(rest@.drop_first() =~= path@.skip(i + 1));
            let ghost before = r@;
            r.push(b);
            assert(r@ =~= before + seq![b]);
            proof {
                match decode_path(path@.skip(i + 1)) {
                    Some(t) => assert(before + (seq![b] + t) =~= r@ + t),
                    None => {},
                }
            }
            i = i + 1;
        }
    }
    assert(path@.skip(i as int) =~= Seq::<u8>::empty());
    assert(r@ + Seq::<u8>::empty() =~= r@);
    Some(r)
}

} // verus!
