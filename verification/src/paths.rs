//! Lexical path resolution under a fixed root.
//!
//! Paths are modeled as sequences of byte-string components. The resolver
//! normalizes `.` and `..` components and refuses any path that would climb
//! above the root, which is the lexical half of the traversal defense; the
//! checks that need the disk (existence, symbolic links) belong to the
//! unverified layer around the library.

use vstd::prelude::*;

use crate::ident::{is_url_safe_byte, valid_identifier, BYTE_BACKSLASH, BYTE_DOT, BYTE_SLASH};
use crate::shard::{copy_bytes, shard_components};

verus! {

/// The current-directory component, `.`.
pub open spec fn cur_dir() -> Seq<u8> {
    seq![BYTE_DOT]
}

/// The parent-directory component, `..`.
pub open spec fn parent_dir() -> Seq<u8> {
    seq![BYTE_DOT, BYTE_DOT]
}

/// A component that names a plain directory or file: non-empty, not `.` or
/// `..`, and free of separators and NUL bytes.
pub open spec fn plain_component(c: Seq<u8>) -> bool {
    c.len() > 0 && c != cur_dir() && c != parent_dir() && forall|i: int|
        0 <= i < c.len() ==> c[i] != BYTE_SLASH && c[i] != BYTE_BACKSLASH && c[i] != 0
}

/// Lexical normalization of a relative path against an accumulator of
/// components already inside the root: `.` is dropped, `..` pops one
/// component and fails if there is none left to pop (the path would climb
/// above the root), and anything that is not a plain component fails.
pub open spec fn normalize_from(acc: Seq<Seq<u8>>, rel: Seq<Seq<u8>>) -> Option<Seq<Seq<u8>>>
    decreases rel.len(),
{
    if rel.len() == 0 {
        Some(acc)
    } else {
        let c = rel[0];
        if c == cur_dir() {
            normalize_from(acc, rel.drop_first())
        } else if c == parent_dir() {
            if acc.len() == 0 {
                None
            } else {
                normalize_from(acc.drop_last(), rel.drop_first())
            }
        } else if plain_component(c) {
            normalize_from(acc.push(c), rel.drop_first())
        } else {
            None
        }
    }
}

/// What a relative path resolves to under a root: the root's components
/// followed by the normalized relative components, or nothing when the path
/// is malformed or escapes the root.
pub open spec fn resolved_under(root: Seq<Seq<u8>>, rel: Seq<Seq<u8>>) -> Option<Seq<Seq<u8>>> {
    match normalize_from(Seq::empty(), rel) {
        Some(tail) => Some(root + tail),
        None => None,
    }
}

/// One sequence is a prefix of another.
pub open spec fn seq_prefix<A>(a: Seq<A>, b: Seq<A>) -> bool {
    a.len() <= b.len() && b.subrange(0, a.len() as int) == a
}

/// Whatever a relative path resolves to under a root is a descendant of
/// that root: resolution can never escape it.
pub proof fn lemma_resolved_stays_under_root(root: Seq<Seq<u8>>, rel: Seq<Seq<u8>>)
    ensures
        resolved_under(root, rel) matches Some(p) ==> seq_prefix(root, p),
{
    if let Some(p) = resolved_under(root, rel) {
        assert(p.subrange(0, root.len() as int) =~= root);
    }
}

/// A valid identifier's sharded path is made of plain components, so it
/// resolves under any root without normalization, to a strict descendant
/// of the root: the traversal defense never gets in the way of the store's
/// own paths.
pub proof fn lemma_sharded_path_resolves(root: Seq<Seq<u8>>, id: Seq<u8>)
    requires
        valid_identifier(id),
    ensures
        resolved_under(root, shard_components(id)) == Some(root + shard_components(id)),
        seq_prefix(root, root + shard_components(id)),
{
    let cs = shard_components(id);
    assert forall|k: int| 0 <= k < cs.len() implies plain_component(#[trigger] cs[k]) by {
        let c = cs[k];
        assert(forall|i: int| 0 <= i < c.len() ==> is_url_safe_byte(#[trigger] c[i]));
        assert(c.len() >= 3);
        assert(c != cur_dir() && c != parent_dir());
    }
    let e = Seq::<Seq<u8>>::empty();
    let rel1 = cs.drop_first();
    let rel2 = rel1.drop_first();
    let rel3 = rel2.drop_first();
    let rel4 = rel3.drop_first();
    assert(rel1 =~= seq![cs[1], cs[2], cs[3]]);
    assert(rel2 =~= seq![cs[2], cs[3]]);
    assert(rel3 =~= seq![cs[3]]);
    assert(rel4 =~= Seq::<Seq<u8>>::empty());
    let a1 = e.push(cs[0]);
    let a2 = a1.push(cs[1]);
    let a3 = a2.push(cs[2]);
    let a4 = a3.push(cs[3]);
    assert(normalize_from(e, cs) == normalize_from(a1, rel1));
    assert(normalize_from(a1, rel1) == normalize_from(a2, rel2));
    assert(normalize_from(a2, rel2) == normalize_from(a3, rel3));
    assert(normalize_from(a3, rel3) == normalize_from(a4, rel4));
    assert(normalize_from(a4, rel4) == Some(a4));
    assert(a4 =~= cs);
    lemma_resolved_stays_under_root(root, cs);
}

/// Compares two byte strings.
pub fn bytes_eq(a: &Vec<u8>, b: &Vec<u8>) -> (r: bool)
    ensures
        r == (a@ == b@),
{
    if a.len() != b.len() {
        assert(a@ != b@);
        return false;
    }
    let mut i: usize = 0;
    while i < a.len()
        invariant
            0 <= i <= a@.len(),
            a@.len() == b@.len(),
            forall|j: int| 0 <= j < i ==> a@[j] == b@[j],
        decreases a@.len() - i,
    {
        if a[i] != b[i] {
            return false;
        }
        i += 1;
    }
    proof {
        assert(a@ =~= b@);
    }
    true
}

/// Checks a component against [`plain_component`].
pub fn check_plain_component(c: &Vec<u8>) -> (r: bool)
    ensures
        r == plain_component(c@),
{
    if c.len() == 0 {
        return false;
    }
    if c.len() == 1 && c[0] == BYTE_DOT {
        assert(c@ =~= cur_dir());
        return false;
    }
    if c.len() == 2 && c[0] == BYTE_DOT && c[1] == BYTE_DOT {
        assert(c@ =~= parent_dir());
        return false;
    }
    let mut i: usize = 0;
    while i < c.len()
        invariant
            0 <= i <= c@.len(),
            forall|j: int| 0 <= j < i ==> c@[j] != BYTE_SLASH && c@[j] != BYTE_BACKSLASH && c@[j]
                != 0,
        decreases c@.len() - i,
    {
        let b = c[i];
        if b == BYTE_SLASH || b == BYTE_BACKSLASH || b == 0 {
            return false;
        }
        i += 1;
    }
    proof {
        if c@ == cur_dir() {
            assert(c@.len() == 1 && c@[0] == BYTE_DOT);
            assert(false);
        }
        if c@ == parent_dir() {
            assert(c@.len() == 2 && c@[0] == BYTE_DOT && c@[1] == BYTE_DOT);
            assert(false);
        }
    }
    true
}

/// Resolves a relative path under a root, lexically: normalizes `.` and
/// `..`, refuses malformed components, and refuses any path that would
/// climb above the root. The result, when there is one, is always the root
/// followed by the normalized components.
pub fn resolve_under(root: &Vec<Vec<u8>>, rel: &Vec<Vec<u8>>) -> (r: Option<Vec<Vec<u8>>>)
    ensures
        match r {
            Some(p) => resolved_under(
                root@.map_values(|v: Vec<u8>| v@),
                rel@.map_values(|v: Vec<u8>| v@),
            ) == Some(p@.map_values(|v: Vec<u8>| v@)),
            None => resolved_under(
                root@.map_values(|v: Vec<u8>| v@),
                rel@.map_values(|v: Vec<u8>| v@),
            ) is None,
        },
{
    let ghost rel_s = rel@.map_values(|v: Vec<u8>| v@);
    let mut acc: Vec<Vec<u8>> = Vec::new();
    let mut i: usize = 0;
    proof {
        assert(rel_s.subrange(0, rel_s.len() as int) =~= rel_s);
        assert(acc@.map_values(|v: Vec<u8>| v@) =~= Seq::<Seq<u8>>::empty());
    }
    while i < rel.len()
        invariant
            0 <= i <= rel@.len(),
            rel_s == rel@.map_values(|v: Vec<u8>| v@),
            normalize_from(
                acc@.map_values(|v: Vec<u8>| v@),
                rel_s.subrange(i as int, rel_s.len() as int),
            ) == normalize_from(Seq::<Seq<u8>>::empty(), rel_s),
        decreases rel@.len() - i,
    {
        let ghost acc_before = acc@.map_values(|v: Vec<u8>| v@);
        let ghost suffix = rel_s.subrange(i as int, rel_s.len() as int);
        proof {
            assert(suffix[0] == rel_s[i as int]);
            assert(suffix.drop_first() =~= rel_s.subrange(i as int + 1, rel_s.len() as int));
        }
        let c = &rel[i];
        if c.len() == 1 && c[0] == BYTE_DOT {
            proof {
                assert(c@ =~= cur_dir());
            }
        } else if c.len() == 2 && c[0] == BYTE_DOT && c[1] == BYTE_DOT {
            proof {
                assert(c@ =~= parent_dir());
            }
            if acc.len() == 0 {
                return None;
            }
            let _ = acc.pop();
            proof {
                assert(acc@.map_values(|v: Vec<u8>| v@) =~= acc_before.drop_last());
            }
        } else if check_plain_component(c) {
            proof {
                assert(c@ != cur_dir() && c@ != parent_dir());
            }
            acc.push(copy_bytes(&rel[i]));
            proof {
                assert(acc@.map_values(|v: Vec<u8>| v@) =~= acc_before.push(c@));
            }
        } else {
            proof {
                assert(c@ != cur_dir() && c@ != parent_dir());
            }
            return None;
        }
        i += 1;
    }
    proof {
        assert(rel_s.subrange(rel_s.len() as int, rel_s.len() as int) =~= Seq::<Seq<u8>>::empty());
    }
    let ghost root_s = root@.map_values(|v: Vec<u8>| v@);
    let ghost acc_final = acc@.map_values(|v: Vec<u8>| v@);
    let mut result: Vec<Vec<u8>> = Vec::new();
    let mut k: usize = 0;
    while k < root.len()
        invariant
            0 <= k <= root@.len(),
            root_s == root@.map_values(|v: Vec<u8>| v@),
            result@.len() == k,
            forall|j: int| 0 <= j < k ==> result@[j]@ == root_s[j],
        decreases root@.len() - k,
    {
        result.push(copy_bytes(&root[k]));
        k += 1;
    }
    let mut k2: usize = 0;
    while k2 < acc.len()
        invariant
            0 <= k2 <= acc@.len(),
            root_s == root@.map_values(|v: Vec<u8>| v@),
            acc_final == acc@.map_values(|v: Vec<u8>| v@),
            result@.len() == root_s.len() + k2,
            forall|j: int| 0 <= j < root_s.len() ==> result@[j]@ == root_s[j],
            forall|j: int| 0 <= j < k2 ==> result@[root_s.len() + j]@ == acc_final[j],
        decreases acc@.len() - k2,
    {
        result.push(copy_bytes(&acc[k2]));
        k2 += 1;
    }
    proof {
        assert(result@.map_values(|v: Vec<u8>| v@) =~= root_s + acc_final);
    }
    Some(result)
}

} // verus!
