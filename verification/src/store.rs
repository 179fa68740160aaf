//! The blob store: write-once, read-many storage of opaque byte payloads
//! keyed by opaque identifiers, with a per-identifier lock table.
//!
//! The store models the on-disk tree as a map from identifier to payload:
//! the disk mirror around the library performs the actual file I/O with the
//! sharded, safely resolved paths this crate computes, and keeps the same
//! create-only discipline. Writes never overwrite: an occupied identifier
//! is a collision. An identifier held by an in-flight writer rejects a
//! second writer behind it.

use vstd::prelude::*;
use vstd::string::StringExecFns;

use crate::ident::{check_identifier, valid_identifier, BYTE_BACKSLASH, BYTE_DOT, BYTE_SLASH};
use crate::paths::{bytes_eq, plain_component};
use crate::shard::copy_bytes;

verus! {

/// Errors the store surfaces. Each carries the identifier text it was
/// raised for. All are rejections of a single request, never fatal.
#[derive(Debug, Clone, PartialEq, Eq)]
pub enum FSError {
    /// The identifier is already occupied (or a writer holds it): writes
    /// are create-only and never overwrite.
    NameCollision(Vec<u8>),
    /// No blob is stored under the identifier.
    NotFound(Vec<u8>),
    /// The identifier would name a path outside the store's root.
    DirectoryTraversal(Vec<u8>),
    /// The resolved path is a symbolic link. Only the disk mirror around
    /// the library can detect this; the in-memory model never raises it.
    IsSymlink(Vec<u8>),
}

/// The identifier's bytes as characters, one character per byte, for the
/// message texts.
pub open spec fn name_chars(n: Seq<u8>) -> Seq<char> {
    n.map_values(|b: u8| b as char)
}

/// The client-facing text of each rejection, word for word.
pub open spec fn message_spec(e: FSError) -> Seq<char> {
    match e {
        FSError::NameCollision(n) => "The file identifier `"@ + name_chars(n@)
            + "` is already in use"@,
        FSError::NotFound(n) => "The file identifier `"@ + name_chars(n@) + "` was not found"@,
        FSError::DirectoryTraversal(n) => "The file identifier `"@ + name_chars(n@)
            + "` points to a file located outside the base path"@,
        FSError::IsSymlink(n) => "The file identifier `"@ + name_chars(n@)
            + "` points to a symbolic link"@,
    }
}

/// Relies on `std::string::String::push`: appends exactly the one
/// character.
#[verifier::external_body]
fn push_char(s: &mut String, c: char)
    ensures
        final(s)@ == old(s)@.push(c),
{
    s.push(c);
}

/// Appends the identifier's bytes to the text, one character per byte.
fn append_name(s: &mut String, n: &Vec<u8>)
    ensures
        final(s)@ == old(s)@ + name_chars(n@),
{
    proof {
        assert(s@ =~= old(s)@ + name_chars(n@).take(0));
    }
    let mut i: usize = 0;
    while i < n.len()
        invariant
            0 <= i <= n@.len(),
            s@ == old(s)@ + name_chars(n@).take(i as int),
        decreases n@.len() - i,
    {
        push_char(s, n[i] as char);
        i += 1;
        proof {
            assert(s@ =~= old(s)@ + name_chars(n@).take(i as int));
        }
    }
    proof {
        assert(name_chars(n@).take(n@.len() as int) =~= name_chars(n@));
    }
}

impl FSError {
    /// The client-facing message, exactly [`message_spec`]; the display
    /// layer around the library hands it out verbatim.
    pub fn message(&self) -> (r: String)
        ensures
            r@ == message_spec(*self),
    {
        match self {
            FSError::NameCollision(n) => {
                let mut s = String::from_str("The file identifier `");
                append_name(&mut s, n);
                s.append("` is already in use");
                s
            },
            FSError::NotFound(n) => {
                let mut s = String::from_str("The file identifier `");
                append_name(&mut s, n);
                s.append("` was not found");
                s
            },
            FSError::DirectoryTraversal(n) => {
                let mut s = String::from_str("The file identifier `");
                append_name(&mut s, n);
                s.append("` points to a file located outside the base path");
                s
            },
            FSError::IsSymlink(n) => {
                let mut s = String::from_str("The file identifier `");
                append_name(&mut s, n);
                s.append("` points to a symbolic link");
                s
            },
        }
    }
}

/// The views of an association list's entries.
pub open spec fn entry_views(s: Seq<(Vec<u8>, Vec<u8>)>) -> Seq<(Seq<u8>, Seq<u8>)> {
    s.map_values(|p: (Vec<u8>, Vec<u8>)| (p.0@, p.1@))
}

/// The map an association list denotes; later entries would win, though the
/// store keeps keys unique.
pub open spec fn assoc_to_map(s: Seq<(Seq<u8>, Seq<u8>)>) -> Map<Seq<u8>, Seq<u8>>
    decreases s.len(),
{
    if s.len() == 0 {
        Map::empty()
    } else {
        assoc_to_map(s.drop_last()).insert(s.last().0, s.last().1)
    }
}

/// No two entries share a key.
pub open spec fn unique_keys(s: Seq<(Seq<u8>, Seq<u8>)>) -> bool {
    forall|i: int, j: int| 0 <= i < j < s.len() ==> (#[trigger] s[i]).0 != (#[trigger] s[j]).0
}

/// A key is in the denoted map exactly when some entry carries it.
pub proof fn lemma_assoc_contains(s: Seq<(Seq<u8>, Seq<u8>)>, k: Seq<u8>)
    ensures
        assoc_to_map(s).contains_key(k) <==> exists|i: int|
            0 <= i < s.len() && (#[trigger] s[i]).0 == k,
    decreases s.len(),
{
    if s.len() > 0 {
        lemma_assoc_contains(s.drop_last(), k);
        if s.last().0 == k {
            assert((s[s.len() - 1]).0 == k);
        } else {
            if assoc_to_map(s).contains_key(k) {
                let i = choose|i: int| 0 <= i < s.drop_last().len() && (#[trigger] s.drop_last()[i]).0 == k;
                assert((s[i]).0 == k);
            }
            if exists|i: int| 0 <= i < s.len() && (#[trigger] s[i]).0 == k {
                let i = choose|i: int| 0 <= i < s.len() && (#[trigger] s[i]).0 == k;
                assert(i < s.len() - 1);
                assert((s.drop_last()[i]).0 == k);
            }
        }
    }
}

/// With unique keys, the denoted map sends an entry's key to that entry's
/// value.
pub proof fn lemma_assoc_value(s: Seq<(Seq<u8>, Seq<u8>)>, i: int)
    requires
        unique_keys(s),
        0 <= i < s.len(),
    ensures
        assoc_to_map(s).contains_key(s[i].0),
        assoc_to_map(s)[s[i].0] == s[i].1,
    decreases s.len(),
{
    if i == s.len() - 1 {
    } else {
        assert(s[i].0 != s.last().0);
        assert(s.drop_last()[i] == s[i]);
        lemma_assoc_value(s.drop_last(), i);
    }
}

/// A pure, safe interface to store and retrieve opaque blobs. It guards
/// against path traversal by validating every identifier it is handed, and
/// serializes writers to one identifier through its lock table. It does not
/// inspect blob contents at all.
pub struct FileStore {
    base_path: Vec<Vec<u8>>,
    files: Vec<(Vec<u8>, Vec<u8>)>,
    locks: Vec<Vec<u8>>,
}

impl FileStore {
    /// The entries held, as views.
    pub closed spec fn entries(self) -> Seq<(Seq<u8>, Seq<u8>)> {
        entry_views(self.files@)
    }

    /// What the store holds: identifier to payload.
    pub closed spec fn contents(self) -> Map<Seq<u8>, Seq<u8>> {
        assoc_to_map(self.entries())
    }

    /// An identifier some writer currently holds.
    pub closed spec fn locked(self, id: Seq<u8>) -> bool {
        exists|i: int| 0 <= i < self.locks@.len() && (#[trigger] self.locks@[i])@ == id
    }

    /// The root directory all blobs live under, as path components.
    pub closed spec fn root(self) -> Seq<Seq<u8>> {
        self.base_path@.map_values(|v: Vec<u8>| v@)
    }

    /// Well-formed store: unique, valid identifiers as keys; no duplicate
    /// lock entries; a root of plain path components.
    pub closed spec fn wf(self) -> bool {
        &&& unique_keys(self.entries())
        &&& forall|i: int|
            0 <= i < self.entries().len() ==> valid_identifier((#[trigger] self.entries()[i]).0)
        &&& forall|i: int, j: int|
            0 <= i < j < self.locks@.len() ==> (#[trigger] self.locks@[i])@ != (
            #[trigger] self.locks@[j])@
        &&& forall|i: int| 0 <= i < self.base_path@.len() ==> plain_component((#[trigger] self.base_path@[i])@)
    }

    /// Create a store rooted at the given directory path. All reads and
    /// writes are jailed to that root. The caller establishes that the
    /// root's components are plain names; the disk mirror also checks that
    /// the directory exists, which no model can.
    pub fn new(base_path: Vec<Vec<u8>>) -> (r: FileStore)
        requires
            forall|i: int|
                0 <= i < base_path@.len() ==> plain_component((#[trigger] base_path@[i])@),
        ensures
            r.wf(),
            r.contents() == Map::<Seq<u8>, Seq<u8>>::empty(),
            forall|k: Seq<u8>| !r.locked(k),
            r.root() == base_path@.map_values(|v: Vec<u8>| v@),
    {
        let r = FileStore { base_path, files: Vec::new(), locks: Vec::new() };
        proof {
            assert(r.entries() =~= Seq::<(Seq<u8>, Seq<u8>)>::empty());
        }
        r
    }

    /// The index of the entry holding `id`, if one does.
    fn find_entry(&self, id: &Vec<u8>) -> (r: Option<usize>)
        ensures
            match r {
                Some(i) => 0 <= i < self.entries().len() && self.entries()[i as int].0 == id@,
                None => forall|i: int|
                    0 <= i < self.entries().len() ==> (#[trigger] self.entries()[i]).0 != id@,
            },
    {
        let mut i: usize = 0;
        while i < self.files.len()
            invariant
                0 <= i <= self.files@.len(),
                forall|j: int| 0 <= j < i ==> (#[trigger] self.entries()[j]).0 != id@,
            decreases self.files@.len() - i,
        {
            if bytes_eq(&self.files[i].0, id) {
                return Some(i);
            }
            i += 1;
        }
        None
    }

    /// Whether some writer holds `id`.
    fn find_lock(&self, id: &Vec<u8>) -> (r: Option<usize>)
        ensures
            match r {
                Some(i) => 0 <= i < self.locks@.len() && self.locks@[i as int]@ == id@,
                None => !self.locked(id@),
            },
    {
        let mut i: usize = 0;
        while i < self.locks.len()
            invariant
                0 <= i <= self.locks@.len(),
                forall|j: int| 0 <= j < i ==> (#[trigger] self.locks@[j])@ != id@,
            decreases self.locks@.len() - i,
        {
            if bytes_eq(&self.locks[i], id) {
                return Some(i);
            }
            i += 1;
        }
        None
    }

    /// Write a blob under an identifier. Create-only: an occupied
    /// identifier, or one a concurrent writer holds, is a collision and
    /// nothing changes. An identifier that is not a single safe path
    /// segment is refused as traversal. On success the store maps the
    /// identifier to the payload and returns the identifier unchanged.
    pub fn write(&mut self, normalized_id: &Vec<u8>, payload: Vec<u8>) -> (r: Result<
        Vec<u8>,
        FSError,
    >)
        requires
            old(self).wf(),
        ensures
            final(self).wf(),
            final(self).root() == old(self).root(),
            forall|k: Seq<u8>| final(self).locked(k) == old(self).locked(k),
            !valid_identifier(normalized_id@) ==> (r matches Err(FSError::DirectoryTraversal(n))
                && n@ == normalized_id@) && final(self).contents() == old(self).contents(),
            valid_identifier(normalized_id@) && (old(self).locked(normalized_id@) || old(
                self,
            ).contents().contains_key(normalized_id@)) ==> (r matches Err(FSError::NameCollision(n))
                && n@ == normalized_id@) && final(self).contents() == old(self).contents(),
            valid_identifier(normalized_id@) && !old(self).locked(normalized_id@) && !old(
                self,
            ).contents().contains_key(normalized_id@) ==> (r matches Ok(f) && f@ == normalized_id@)
                && final(self).contents() == old(self).contents().insert(
                normalized_id@,
                payload@,
            ),
    {
        if !check_identifier(normalized_id) {
            return Err(FSError::DirectoryTraversal(copy_bytes(normalized_id)));
        }
        if let Some(_) = self.find_lock(normalized_id) {
            return Err(FSError::NameCollision(copy_bytes(normalized_id)));
        }
        match self.find_entry(normalized_id) {
            Some(i) => {
                proof {
                    lemma_assoc_value(self.entries(), i as int);
                }
                Err(FSError::NameCollision(copy_bytes(normalized_id)))
            },
            None => {
                proof {
                    lemma_assoc_contains(self.entries(), normalized_id@);
                }
                let ghost old_entries = self.entries();
                self.files.push((copy_bytes(normalized_id), payload));
                proof {
                    assert(self.entries() =~= old_entries.push((normalized_id@, payload@)));
                    assert(self.entries().drop_last() =~= old_entries);
                    assert(self.locks@ == old(self).locks@);
                    assert forall|k: Seq<u8>| self.locked(k) == old(self).locked(k) by {
                        if self.locked(k) {
                            let i = choose|i: int|
                                0 <= i < self.locks@.len() && (#[trigger] self.locks@[i])@ == k;
                            assert(old(self).locks@[i]@ == k);
                        }
                        if old(self).locked(k) {
                            let i = choose|i: int|
                                0 <= i < old(self).locks@.len() && (#[trigger] old(
                                    self,
                                ).locks@[i])@ == k;
                            assert(self.locks@[i]@ == k);
                        }
                    }
                }
                Ok(copy_bytes(normalized_id))
            },
        }
    }

    /// Retrieve the blob stored under an identifier. An identifier that is
    /// not a single safe path segment is refused as traversal; an
    /// unoccupied one is not found; otherwise the stored payload comes
    /// back, bytes for bytes. The contents never hold a partial payload —
    /// a write lands atomically or not at all — so a read concurrent with
    /// an in-flight write sees the store from before that write; the disk
    /// mirror keeps the same guarantee by sharing the write lock table.
    pub fn read(&self, normalized_id: &Vec<u8>) -> (r: Result<Vec<u8>, FSError>)
        requires
            self.wf(),
        ensures
            !valid_identifier(normalized_id@) ==> (r matches Err(FSError::DirectoryTraversal(n))
                && n@ == normalized_id@),
            valid_identifier(normalized_id@) && !self.contents().contains_key(normalized_id@) ==> (
            r matches Err(FSError::NotFound(n)) && n@ == normalized_id@),
            self.contents().contains_key(normalized_id@) && valid_identifier(normalized_id@) ==> (
            r matches Ok(v) && v@ == self.contents()[normalized_id@]),
    {
        if !check_identifier(normalized_id) {
            return Err(FSError::DirectoryTraversal(copy_bytes(normalized_id)));
        }
        match self.find_entry(normalized_id) {
            Some(i) => {
                proof {
                    lemma_assoc_value(self.entries(), i as int);
                }
                Ok(copy_bytes(&self.files[i].1))
            },
            None => {
                proof {
                    lemma_assoc_contains(self.entries(), normalized_id@);
                }
                Err(FSError::NotFound(copy_bytes(normalized_id)))
            },
        }
    }

    /// Remove the blob stored under an identifier. An identifier that is
    /// not a single safe path segment is refused as traversal; an
    /// unoccupied one is not found; otherwise the store simply no longer
    /// maps the identifier, and every other entry is untouched.
    pub fn remove(&mut self, normalized_id: &Vec<u8>) -> (r: Result<(), FSError>)
        requires
            old(self).wf(),
        ensures
            final(self).wf(),
            final(self).root() == old(self).root(),
            forall|k: Seq<u8>| final(self).locked(k) == old(self).locked(k),
            !valid_identifier(normalized_id@) ==> (r matches Err(FSError::DirectoryTraversal(n))
                && n@ == normalized_id@) && final(self).contents() == old(self).contents(),
            valid_identifier(normalized_id@) && !old(self).contents().contains_key(normalized_id@)
                ==> (r matches Err(FSError::NotFound(n)) && n@ == normalized_id@)
                && final(self).contents() == old(self).contents(),
            valid_identifier(normalized_id@) && old(self).contents().contains_key(normalized_id@)
                ==> r is Ok && final(self).contents() == old(self).contents().remove(
                normalized_id@,
            ),
    {
        if !check_identifier(normalized_id) {
            return Err(FSError::DirectoryTraversal(copy_bytes(normalized_id)));
        }
        match self.find_entry(normalized_id) {
            None => {
                proof {
                    lemma_assoc_contains(self.entries(), normalized_id@);
                }
                Err(FSError::NotFound(copy_bytes(normalized_id)))
            },
            Some(i) => {
                let ghost e1 = self.entries();
                let ghost k = normalized_id@;
                proof {
                    lemma_assoc_value(e1, i as int);
                }
                let _ = self.files.swap_remove(i);
                proof {
                    let e2 = self.entries();
                    let n = e1.len() as int;
                    assert(e2 =~= entry_views(
                        old(self).files@.update(i as int, old(self).files@.last()).drop_last(),
                    ));
                    assert(e2.len() == n - 1);
                    assert(forall|j: int|
                        0 <= j < n - 1 && j != i ==> e2[j] == e1[j]);
                    assert(i < n - 1 ==> e2[i as int] == e1[n - 1]);
                    assert forall|j: int, l: int| 0 <= j < l < e2.len() implies (
                    #[trigger] e2[j]).0 != (#[trigger] e2[l]).0 by {
                        let sj: int = if j == i && i < n - 1 {
                            n - 1
                        } else {
                            j
                        };
                        let sl: int = if l == i && i < n - 1 {
                            n - 1
                        } else {
                            l
                        };
                        assert(e2[j] == e1[sj]);
                        assert(e2[l] == e1[sl]);
                        assert(sj != sl);
                    }
                    assert forall|j: int| 0 <= j < e2.len() implies valid_identifier(
                        (#[trigger] e2[j]).0,
                    ) && (e2[j]).0 != k by {
                        let sj: int = if j == i && i < n - 1 {
                            n - 1
                        } else {
                            j
                        };
                        assert(e2[j] == e1[sj]);
                        assert(sj != i);
                    }
                    assert forall|x: Seq<u8>| assoc_to_map(e2).contains_key(x) == (assoc_to_map(
                        e1,
                    ).contains_key(x) && x != k) by {
                        lemma_assoc_contains(e2, x);
                        lemma_assoc_contains(e1, x);
                        if assoc_to_map(e2).contains_key(x) {
                            let j = choose|j: int| 0 <= j < e2.len() && (#[trigger] e2[j]).0 == x;
                            let sj: int = if j == i && i < n - 1 {
                                n - 1
                            } else {
                                j
                            };
                            assert(e1[sj].0 == x);
                            assert(x != k);
                        } else if assoc_to_map(e1).contains_key(x) && x != k {
                            let m = choose|m: int| 0 <= m < e1.len() && (#[trigger] e1[m]).0 == x;
                            assert(m != i);
                            if m == n - 1 {
                                assert(i < n - 1);
                                assert(e2[i as int].0 == x);
                            } else {
                                assert(e2[m].0 == x);
                            }
                            assert(false);
                        }
                    }
                    assert forall|x: Seq<u8>| assoc_to_map(e2).contains_key(x) implies assoc_to_map(
                        e2,
                    )[x] == assoc_to_map(e1)[x] by {
                        lemma_assoc_contains(e2, x);
                        let j = choose|j: int| 0 <= j < e2.len() && (#[trigger] e2[j]).0 == x;
                        let sj: int = if j == i && i < n - 1 {
                            n - 1
                        } else {
                            j
                        };
                        lemma_assoc_value(e2, j);
                        lemma_assoc_value(e1, sj);
                        assert(e2[j] == e1[sj]);
                    }
                    assert(assoc_to_map(e2) =~= assoc_to_map(e1).remove(k));
                    assert(self.locks@ == old(self).locks@);
                    assert forall|x: Seq<u8>| self.locked(x) == old(self).locked(x) by {
                        if self.locked(x) {
                            let j = choose|j: int|
                                0 <= j < self.locks@.len() && (#[trigger] self.locks@[j])@ == x;
                            assert(old(self).locks@[j]@ == x);
                        }
                        if old(self).locked(x) {
                            let j = choose|j: int|
                                0 <= j < old(self).locks@.len() && (#[trigger] old(
                                    self,
                                ).locks@[j])@ == x;
                            assert(self.locks@[j]@ == x);
                        }
                    }
                }
                Ok(())
            },
        }
    }

    /// Take the per-identifier write lock. Returns whether this caller won
    /// it; a holder keeps it either way.
    pub fn lock_for_write(&mut self, normalized_id: &Vec<u8>) -> (r: bool)
        requires
            old(self).wf(),
        ensures
            final(self).wf(),
            final(self).contents() == old(self).contents(),
            final(self).root() == old(self).root(),
            r == !old(self).locked(normalized_id@),
            final(self).locked(normalized_id@),
            forall|k: Seq<u8>|
                k != normalized_id@ ==> final(self).locked(k) == old(self).locked(k),
    {
        match self.find_lock(normalized_id) {
            Some(_) => false,
            None => {
                let ghost old_locks = self.locks@;
                self.locks.push(copy_bytes(normalized_id));
                proof {
                    assert(self.locks@[self.locks@.len() - 1]@ == normalized_id@);
                    assert(forall|k: Seq<u8>|
                        k != normalized_id@ && old(self).locked(k) ==> self.locked(k)) by {
                        assert forall|k: Seq<u8>|
                            k != normalized_id@ && old(self).locked(k) implies self.locked(
                            k,
                        ) by {
                            let i = choose|i: int|
                                0 <= i < old_locks.len() && (#[trigger] old_locks[i])@ == k;
                            assert(self.locks@[i]@ == k);
                        }
                    }
                }
                true
            },
        }
    }

    /// Release the per-identifier write lock, if held. Only the identifier
    /// handed in is released; every other holder keeps its lock.
    pub fn finish_write(&mut self, normalized_id: &Vec<u8>)
        requires
            old(self).wf(),
        ensures
            final(self).wf(),
            final(self).contents() == old(self).contents(),
            final(self).root() == old(self).root(),
            !final(self).locked(normalized_id@),
            forall|k: Seq<u8>|
                k != normalized_id@ ==> final(self).locked(k) == old(self).locked(k),
    {
        match self.find_lock(normalized_id) {
            None => {
            },
            Some(i) => {
                let ghost l = self.locks@;
                let _ = self.locks.swap_remove(i);
                proof {
                    let m = self.locks@;
                    assert(m =~= l.update(i as int, l.last()).drop_last());
                    assert forall|j: int| 0 <= j < m.len() implies (#[trigger] m[j])@ != normalized_id@ by {
                        if j == i && i < l.len() - 1 {
                            assert(m[j] == l[l.len() - 1]);
                            assert(l[l.len() - 1]@ != normalized_id@ || l.len() - 1 == i);
                        } else {
                            assert(m[j] == l[j]);
                        }
                    }
                    assert forall|k: Seq<u8>|
                        k != normalized_id@ && old(self).locked(k) implies self.locked(k) by {
                        let j = choose|j: int| 0 <= j < l.len() && (#[trigger] l[j])@ == k;
                        if j == l.len() - 1 {
                            assert(j != i);
                            assert(m[i as int] == l[l.len() - 1]);
                            assert(m[i as int]@ == k);
                        } else if j != i {
                            assert(m[j] == l[j]);
                            assert(m[j]@ == k);
                        }
                    }
                    assert forall|k: Seq<u8>| self.locked(k) implies old(self).locked(k) by {
                        let j = choose|j: int| 0 <= j < m.len() && (#[trigger] m[j])@ == k;
                        if j == i && i < l.len() - 1 {
                            assert(l[l.len() - 1]@ == k);
                        } else {
                            assert(l[j]@ == k);
                        }
                    }
                }
            },
        }
    }
}

/// What one serialized, create-only write does to the store's contents:
/// an occupied identifier is left alone, a free one receives the payload.
/// This is exactly what [`FileStore::write`]'s contract says `contents()`
/// becomes for a valid, unlocked identifier; a locked or invalid one also
/// leaves the map unchanged.
pub open spec fn write_step(m: Map<Seq<u8>, Seq<u8>>, id: Seq<u8>, p: Seq<u8>) -> Map<
    Seq<u8>,
    Seq<u8>,
> {
    if m.contains_key(id) {
        m
    } else {
        m.insert(id, p)
    }
}

/// The store's contents after a run of serialized writes to one
/// identifier, one per payload, in order.
pub open spec fn apply_writes(m: Map<Seq<u8>, Seq<u8>>, id: Seq<u8>, ps: Seq<Seq<u8>>) -> Map<
    Seq<u8>,
    Seq<u8>,
>
    decreases ps.len(),
{
    if ps.len() == 0 {
        m
    } else {
        apply_writes(write_step(m, id, ps[0]), id, ps.drop_first())
    }
}

/// How many of a run of serialized writes to one identifier succeed.
pub open spec fn count_successes(m: Map<Seq<u8>, Seq<u8>>, id: Seq<u8>, ps: Seq<Seq<u8>>) -> nat
    decreases ps.len(),
{
    if ps.len() == 0 {
        0
    } else {
        (if m.contains_key(id) {
            0nat
        } else {
            1nat
        }) + count_successes(write_step(m, id, ps[0]), id, ps.drop_first())
    }
}

/// A stored blob is never overwritten: however many writes target an
/// occupied identifier, every one is rejected and the contents stay as
/// they were.
pub proof fn lemma_occupied_identifier_never_overwritten(
    m: Map<Seq<u8>, Seq<u8>>,
    id: Seq<u8>,
    ps: Seq<Seq<u8>>,
)
    requires
        m.contains_key(id),
    ensures
        apply_writes(m, id, ps) == m,
        count_successes(m, id, ps) == 0,
    decreases ps.len(),
{
    if ps.len() > 0 {
        lemma_occupied_identifier_never_overwritten(m, id, ps.drop_first());
    }
}

/// Writers to one identifier have exactly one winner: of any serialized
/// run of writes to a free identifier, the first succeeds, every later one
/// observes a collision, and the stored payload is the winner's, exactly.
pub proof fn lemma_single_winner(m: Map<Seq<u8>, Seq<u8>>, id: Seq<u8>, ps: Seq<Seq<u8>>)
    requires
        !m.contains_key(id),
        ps.len() >= 1,
    ensures
        count_successes(m, id, ps) == 1,
        apply_writes(m, id, ps) == m.insert(id, ps[0]),
{
    let m1 = m.insert(id, ps[0]);
    lemma_occupied_identifier_never_overwritten(m1, id, ps.drop_first());
}

/// Round trip: after a successful write of payload `p` under identifier
/// `id`, the contents map `id` to `p`, so a read of `id` — whose contract
/// returns exactly `contents()[id]` — yields bytes identical to `p`.
pub proof fn lemma_round_trip(m: Map<Seq<u8>, Seq<u8>>, id: Seq<u8>, p: Seq<u8>)
    ensures
        m.insert(id, p).contains_key(id),
        m.insert(id, p)[id] == p,
{
}

/// An identifier holding a separator or a dot — `..`, an absolute path, or
/// any embedded slash — is not a valid identifier, so `write` and `read`
/// reject it as traversal without touching the store.
pub proof fn lemma_crafted_identifier_rejected(id: Seq<u8>)
    requires
        exists|i: int|
            0 <= i < id.len() && ((#[trigger] id[i]) == BYTE_SLASH || id[i] == BYTE_BACKSLASH
                || id[i] == BYTE_DOT),
    ensures
        !valid_identifier(id),
{
    let i = choose|i: int|
        0 <= i < id.len() && ((#[trigger] id[i]) == BYTE_SLASH || id[i] == BYTE_BACKSLASH || id[i]
            == BYTE_DOT);
    assert(!crate::ident::is_url_safe_byte(id[i]));
}

} // verus!
