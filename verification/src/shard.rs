//! Directory sharding: maps an identifier to a nested relative path so that
//! no single directory accumulates every stored blob.

use vstd::prelude::*;

use crate::ident::{BYTE_SLASH, SHARD_PREFIX_LEN};

verus! {

/// The relative path an identifier is stored under: its first nine bytes cut
/// into three directory names of three bytes each, with the full identifier
/// as the final component.
pub open spec fn shard_components(id: Seq<u8>) -> Seq<Seq<u8>>
    recommends
        id.len() >= SHARD_PREFIX_LEN,
{
    seq![id.subrange(0, 3), id.subrange(3, 6), id.subrange(6, 9), id]
}

/// Copies the bytes of `v` from `start` (inclusive) to `end` (exclusive).
pub fn sub_bytes(v: &Vec<u8>, start: usize, end: usize) -> (r: Vec<u8>)
    requires
        start <= end <= v@.len(),
    ensures
        r@ == v@.subrange(start as int, end as int),
{
    let mut r: Vec<u8> = Vec::new();
    let mut i: usize = start;
    while i < end
        invariant
            start <= i <= end <= v@.len(),
            r@ == v@.subrange(start as int, i as int),
        decreases end - i,
    {
        r.push(v[i]);
        i += 1;
        proof {
            assert(r@ =~= v@.subrange(start as int, i as int));
        }
    }
    r
}

/// Copies a byte string.
pub fn copy_bytes(v: &Vec<u8>) -> (r: Vec<u8>)
    ensures
        r@ == v@,
{
    let r = sub_bytes(v, 0, v.len());
    proof {
        assert(v@.subrange(0, v@.len() as int) =~= v@);
    }
    r
}

/// Cuts an identifier into the relative path it is stored under, returning
/// the path's components together with the file's name (the identifier
/// itself, unchanged).
///
/// The identifier must be long enough to shard; the store refuses shorter
/// ones before this point.
pub fn chunk_path(normalized_id: &Vec<u8>) -> (r: (Vec<Vec<u8>>, Vec<u8>))
    requires
        normalized_id@.len() >= SHARD_PREFIX_LEN,
    ensures
        r.0@.map_values(|v: Vec<u8>| v@) == shard_components(normalized_id@),
        r.1@ == normalized_id@,
{
    let mut components: Vec<Vec<u8>> = Vec::new();
    components.push(sub_bytes(normalized_id, 0, 3));
    components.push(sub_bytes(normalized_id, 3, 6));
    components.push(sub_bytes(normalized_id, 6, 9));
    components.push(sub_bytes(normalized_id, 0, normalized_id.len()));
    let fname = sub_bytes(normalized_id, 0, normalized_id.len());
    proof {
        assert(normalized_id@.subrange(0, normalized_id@.len() as int) =~= normalized_id@);
        assert(components@.map_values(|v: Vec<u8>| v@) =~= shard_components(normalized_id@));
    }
    (components, fname)
}

/// Joins path components with `/` separators, as the path is written out.
pub open spec fn joined_path(cs: Seq<Seq<u8>>) -> Seq<u8>
    decreases cs.len(),
{
    if cs.len() == 0 {
        Seq::empty()
    } else if cs.len() == 1 {
        cs[0]
    } else {
        cs[0] + seq![BYTE_SLASH] + joined_path(cs.subrange(1, cs.len() as int))
    }
}

/// Renders path components as a single `/`-separated byte string.
pub fn render_path(cs: &Vec<Vec<u8>>) -> (r: Vec<u8>)
    ensures
        r@ == joined_path(cs@.map_values(|v: Vec<u8>| v@)),
{
    let ghost spec_cs = cs@.map_values(|v: Vec<u8>| v@);
    let ghost n = spec_cs.len() as int;
    let mut r: Vec<u8> = Vec::new();
    let mut i: usize = 0;
    proof {
        assert(spec_cs.subrange(0, n) =~= spec_cs);
    }
    while i < cs.len()
        invariant
            0 <= i <= cs@.len(),
            spec_cs == cs@.map_values(|v: Vec<u8>| v@),
            n == spec_cs.len() as int,
            r@ + joined_path(spec_cs.subrange(i as int, n)) == joined_path(spec_cs),
        decreases cs@.len() - i,
    {
        let ghost r_start = r@;
        let c = &cs[i];
        let mut j: usize = 0;
        while j < c.len()
            invariant
                0 <= j <= c@.len(),
                c@ == spec_cs[i as int],
                0 <= i < spec_cs.len(),
                r@ == r_start + c@.subrange(0, j as int),
            decreases c@.len() - j,
        {
            r.push(c[j]);
            j += 1;
            proof {
                assert(r@ =~= r_start + c@.subrange(0, j as int));
            }
        }
        proof {
            assert(c@.subrange(0, c@.len() as int) =~= c@);
        }
        if i + 1 < cs.len() {
            r.push(BYTE_SLASH);
            proof {
                let suffix = spec_cs.subrange(i as int, n);
                assert(suffix.len() > 1);
                assert(suffix[0] == spec_cs[i as int]);
                assert(suffix.subrange(1, suffix.len() as int) =~= spec_cs.subrange(
                    i as int + 1,
                    n,
                ));
                assert(r@ =~= r_start + suffix[0] + seq![BYTE_SLASH]);
            }
        } else {
            proof {
                let suffix = spec_cs.subrange(i as int, n);
                assert(suffix.len() == 1);
                assert(suffix[0] == spec_cs[i as int]);
                assert(joined_path(spec_cs.subrange(i as int + 1, n)) =~= Seq::<u8>::empty());
                assert(r@ + joined_path(spec_cs.subrange(i as int + 1, n)) =~= r@);
            }
        }
        i += 1;
    }
    proof {
        assert(joined_path(spec_cs.subrange(n, n)) =~= Seq::<u8>::empty());
        assert(r@ + joined_path(spec_cs.subrange(n, n)) =~= r@);
    }
    r
}

} // verus!
