//! Identifier generation, validation, sharding, and path resolution.

use mgp::ident::{check_identifier, generate_normal_id, u32_le_bytes, u64_le_bytes};
use mgp::paths::{bytes_eq, check_plain_component, resolve_under};
use mgp::shard::{chunk_path, render_path};

#[test]
fn generated_identifiers_are_valid_and_fixed_length() {
    let id = generate_normal_id();
    assert_eq!(id.len(), 38);
    assert!(check_identifier(&id));
    for b in &id {
        let ok = (b'A'..=b'Z').contains(b)
            || (b'a'..=b'z').contains(b)
            || (b'0'..=b'9').contains(b)
            || *b == b'-'
            || *b == b'_';
        assert!(ok, "byte {b} outside the URL-safe alphabet");
    }
}

#[test]
fn generated_identifiers_differ() {
    let one = generate_normal_id();
    let two = generate_normal_id();
    assert_ne!(one, two);
}

#[test]
fn check_identifier_accepts_and_rejects() {
    assert!(check_identifier(&b"ab3xY9_kLmZpQ7r".to_vec()));
    assert!(check_identifier(&b"A-_093mmm".to_vec()));
    assert!(!check_identifier(&b"short".to_vec()));
    assert!(!check_identifier(&b"has.dot.in.it".to_vec()));
    assert!(!check_identifier(&b"has/slash/in".to_vec()));
    assert!(!check_identifier(&b"has space in".to_vec()));
    assert!(!check_identifier(&Vec::new()));
}

#[test]
fn little_endian_bytes_are_exact() {
    assert_eq!(
        u64_le_bytes(0x0102030405060708),
        vec![8, 7, 6, 5, 4, 3, 2, 1]
    );
    assert_eq!(u64_le_bytes(0), vec![0; 8]);
    assert_eq!(u32_le_bytes(0xDEADBEEF), vec![0xEF, 0xBE, 0xAD, 0xDE]);
}

#[test]
fn identifier_shards_to_nested_path() {
    let id = b"ab3xY9_kLmZpQ7r".to_vec();
    let (components, fname) = chunk_path(&id);
    assert_eq!(fname, id);
    assert_eq!(
        components,
        vec![
            b"ab3".to_vec(),
            b"xY9".to_vec(),
            b"_kL".to_vec(),
            b"ab3xY9_kLmZpQ7r".to_vec(),
        ]
    );
    let rendered = render_path(&components);
    assert_eq!(rendered, b"ab3/xY9/_kL/ab3xY9_kLmZpQ7r".to_vec());
}

#[test]
fn generated_identifier_shards_cleanly() {
    let id = generate_normal_id();
    let (components, fname) = chunk_path(&id);
    assert_eq!(components.len(), 4);
    assert_eq!(components[3], fname);
    assert_eq!(&id[0..3], &components[0][..]);
}

#[test]
fn resolution_keeps_descendants_and_refuses_escapes() {
    let root = vec![b"srv".to_vec(), b"store".to_vec()];
    let ok = resolve_under(&root, &vec![b"a".to_vec(), b"b".to_vec()]).unwrap();
    assert_eq!(
        ok,
        vec![b"srv".to_vec(), b"store".to_vec(), b"a".to_vec(), b"b".to_vec()]
    );
    let normalized = resolve_under(
        &root,
        &vec![b"a".to_vec(), b"..".to_vec(), b"b".to_vec(), b".".to_vec()],
    )
    .unwrap();
    assert_eq!(normalized, vec![b"srv".to_vec(), b"store".to_vec(), b"b".to_vec()]);
    assert!(resolve_under(&root, &vec![b"..".to_vec()]).is_none());
    assert!(resolve_under(&root, &vec![b"a".to_vec(), b"..".to_vec(), b"..".to_vec()]).is_none());
    assert!(resolve_under(&root, &vec![b"a/b".to_vec()]).is_none());
    assert!(resolve_under(&root, &vec![Vec::new()]).is_none());
}

#[test]
fn plain_components_and_byte_equality() {
    assert!(check_plain_component(&b"shard".to_vec()));
    assert!(check_plain_component(&b"a.b".to_vec()));
    assert!(!check_plain_component(&b".".to_vec()));
    assert!(!check_plain_component(&b"..".to_vec()));
    assert!(!check_plain_component(&b"a/b".to_vec()));
    assert!(!check_plain_component(&Vec::new()));
    assert!(bytes_eq(&b"same".to_vec(), &b"same".to_vec()));
    assert!(!bytes_eq(&b"same".to_vec(), &b"sane".to_vec()));
    assert!(!bytes_eq(&b"same".to_vec(), &b"samey".to_vec()));
}
