//! The store: round trips, collisions, locking, and traversal defense.

use mgp::ident::check_identifier;
use mgp::store::{FSError, FileStore};

fn new_store() -> FileStore {
    FileStore::new(vec![b"fileStore".to_vec()])
}

#[test]
fn write_then_read_round_trips() {
    let mut store = new_store();
    let id = b"abcdefghijk".to_vec();
    let payload = b"some opaque blob \x00\xff bytes".to_vec();
    let written = store.write(&id, payload.clone()).unwrap();
    assert_eq!(written, id);
    let back = store.read(&id).unwrap();
    assert_eq!(back, payload);
}

#[test]
fn empty_payload_round_trips() {
    let mut store = new_store();
    let id = b"zzzzzzzzz".to_vec();
    store.write(&id, Vec::new()).unwrap();
    assert_eq!(store.read(&id).unwrap(), Vec::<u8>::new());
}

#[test]
fn second_write_collides_and_overwrites_nothing() {
    let mut store = new_store();
    let id = b"abcdefghijk".to_vec();
    store.write(&id, b"first".to_vec()).unwrap();
    let second = store.write(&id, b"second".to_vec());
    assert!(matches!(second, Err(FSError::NameCollision(n)) if n == id));
    assert_eq!(store.read(&id).unwrap(), b"first".to_vec());
}

#[test]
fn many_writers_one_winner() {
    let mut store = new_store();
    let id = b"abcdefghijk".to_vec();
    let payloads: Vec<Vec<u8>> = vec![b"one".to_vec(), b"two".to_vec(), b"three".to_vec()];
    let mut successes = 0;
    for p in &payloads {
        if store.write(&id, p.clone()).is_ok() {
            successes += 1;
        }
    }
    assert_eq!(successes, 1);
    assert_eq!(store.read(&id).unwrap(), b"one".to_vec());
}

#[test]
fn writer_in_flight_rejects_second_writer() {
    let mut store = new_store();
    let id = b"abcdefghijk".to_vec();
    assert!(store.lock_for_write(&id));
    assert!(!store.lock_for_write(&id));
    let blocked = store.write(&id, b"late".to_vec());
    assert!(matches!(blocked, Err(FSError::NameCollision(_))));
    store.finish_write(&id);
    assert!(store.write(&id, b"winner".to_vec()).is_ok());
    assert_eq!(store.read(&id).unwrap(), b"winner".to_vec());
}

#[test]
fn lock_releases_only_its_own_identifier() {
    let mut store = new_store();
    let one = b"aaaaaaaaa".to_vec();
    let two = b"bbbbbbbbb".to_vec();
    assert!(store.lock_for_write(&one));
    assert!(store.lock_for_write(&two));
    store.finish_write(&one);
    assert!(!store.lock_for_write(&two));
    assert!(store.lock_for_write(&one));
}

#[test]
fn dotted_identifier_is_traversal() {
    let mut store = new_store();
    let id = b"../../etc/passwd".to_vec();
    assert!(!check_identifier(&id));
    let w = store.write(&id, b"x".to_vec());
    assert!(matches!(w, Err(FSError::DirectoryTraversal(n)) if n == id));
    let r = store.read(&id);
    assert!(matches!(r, Err(FSError::DirectoryTraversal(_))));
}

#[test]
fn absolute_path_identifier_is_traversal() {
    let mut store = new_store();
    let id = b"/etc/hostname".to_vec();
    assert!(matches!(
        store.write(&id, b"x".to_vec()),
        Err(FSError::DirectoryTraversal(_))
    ));
}

#[test]
fn embedded_separator_is_traversal() {
    let mut store = new_store();
    let id = b"abc/defghijk".to_vec();
    assert!(matches!(store.read(&id), Err(FSError::DirectoryTraversal(_))));
}

#[test]
fn too_short_identifier_is_rejected() {
    let mut store = new_store();
    let id = b"abc".to_vec();
    assert!(matches!(
        store.write(&id, b"x".to_vec()),
        Err(FSError::DirectoryTraversal(_))
    ));
}

#[test]
fn absent_identifier_is_not_found() {
    let store = new_store();
    let id = b"notstored123".to_vec();
    assert!(matches!(store.read(&id), Err(FSError::NotFound(n)) if n == id));
}

#[test]
fn removal_frees_the_identifier_for_a_new_write() {
    let mut store = new_store();
    let id = b"abcdefghijk".to_vec();
    store.write(&id, b"old".to_vec()).unwrap();
    store.remove(&id).unwrap();
    assert!(matches!(store.read(&id), Err(FSError::NotFound(_))));
    store.write(&id, b"new".to_vec()).unwrap();
    assert_eq!(store.read(&id).unwrap(), b"new".to_vec());
}

#[test]
fn removal_of_absent_or_unsafe_identifiers_is_rejected() {
    let mut store = new_store();
    assert!(matches!(
        store.remove(&b"notstored123".to_vec()),
        Err(FSError::NotFound(_))
    ));
    assert!(matches!(
        store.remove(&b"../../etc/passwd".to_vec()),
        Err(FSError::DirectoryTraversal(_))
    ));
}

#[test]
fn removal_leaves_other_entries_alone() {
    let mut store = new_store();
    let one = b"aaaaaaaaa".to_vec();
    let two = b"bbbbbbbbb".to_vec();
    store.write(&one, b"1".to_vec()).unwrap();
    store.write(&two, b"2".to_vec()).unwrap();
    store.remove(&one).unwrap();
    assert_eq!(store.read(&two).unwrap(), b"2".to_vec());
}

#[test]
fn rejection_messages_read_as_always() {
    let e = FSError::NameCollision(b"abc".to_vec());
    assert_eq!(e.message(), "The file identifier `abc` is already in use");
    let e = FSError::NotFound(b"xyz".to_vec());
    assert_eq!(e.message(), "The file identifier `xyz` was not found");
    let e = FSError::DirectoryTraversal(b"../../etc".to_vec());
    assert_eq!(
        e.message(),
        "The file identifier `../../etc` points to a file located outside the base path"
    );
    let e = FSError::IsSymlink(b"link".to_vec());
    assert_eq!(e.message(), "The file identifier `link` points to a symbolic link");
}

#[test]
fn distinct_identifiers_are_independent() {
    let mut store = new_store();
    let one = b"aaaaaaaaa".to_vec();
    let two = b"bbbbbbbbb".to_vec();
    store.write(&one, b"1".to_vec()).unwrap();
    store.write(&two, b"2".to_vec()).unwrap();
    assert_eq!(store.read(&one).unwrap(), b"1".to_vec());
    assert_eq!(store.read(&two).unwrap(), b"2".to_vec());
}
