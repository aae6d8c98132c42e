use zbackend_fs::codec::{decode_key, encode_key};
use zbackend_fs::keyexpr::{contains_wildcard, is_valid_key, key_matches, split_segments};

#[test]
fn encode_escapes_reserved_bytes() {
    assert_eq!(encode_key(b"a.b:c"), b"a%2Eb%3Ac".to_vec());
    assert_eq!(encode_key(b"x/100%/y"), b"x/100%25/y".to_vec());
    assert_eq!(encode_key(b"plain/key"), b"plain/key".to_vec());
    assert_eq!(encode_key(b".."), b"%2E%2E".to_vec());
}

#[test]
fn decode_inverts_encode() {
    for k in ["a.b:c", "x/100%/y", "w\\in<d>ows|\"q\"", "caf\u{e9}/..", ""] {
        assert_eq!(decode_key(&encode_key(k.as_bytes())), Some(k.as_bytes().to_vec()));
    }
}

#[test]
fn decode_rejects_foreign_paths() {
    assert_eq!(decode_key(b"a.b"), None);
    assert_eq!(decode_key(b"a%2"), None);
    assert_eq!(decode_key(b"%41"), None);
    assert_eq!(decode_key(b"%2e"), None);
    assert_eq!(decode_key(b"ok/%2E"), Some(b"ok/.".to_vec()));
}

#[test]
fn key_validity() {
    assert!(is_valid_key(b"a/b/c"));
    assert!(!is_valid_key(b""));
    assert!(!is_valid_key(b"/a"));
    assert!(!is_valid_key(b"a/"));
    assert!(!is_valid_key(b"a//b"));
    assert!(!is_valid_key(b"a/*"));
    assert!(!is_valid_key(b"a?"));
    assert!(!is_valid_key(b"$a"));
}

#[test]
fn segments_and_wildcards() {
    assert_eq!(split_segments(b"a/bc/d"), vec![b"a".to_vec(), b"bc".to_vec(), b"d".to_vec()]);
    assert_eq!(split_segments(b""), vec![Vec::<u8>::new()]);
    assert!(contains_wildcard(b"a/*"));
    assert!(!contains_wildcard(b"a/b"));
}

#[test]
fn matcher_semantics() {
    assert!(key_matches(b"a/*", b"a/b"));
    assert!(!key_matches(b"a/*", b"a/b/c"));
    assert!(key_matches(b"a/**", b"a"));
    assert!(key_matches(b"a/**", b"a/b/c"));
    assert!(key_matches(b"**/c", b"a/b/c"));
    assert!(!key_matches(b"**/c", b"a/b/d"));
    assert!(key_matches(b"a/**/d", b"a/b/c/d"));
    assert!(key_matches(b"**", b"x/y/z"));
    assert!(!key_matches(b"a/b", b"a/c"));
}
