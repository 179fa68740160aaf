//! Opaque blob identifiers: the URL-safe alphabet they are drawn from,
//! validation of untrusted identifier text, and generation of fresh ones.

use base64::Engine;
use rand::Rng;
use vstd::prelude::*;

verus! {

/// Shortest identifier the store accepts: the sharder consumes this many
/// leading bytes to form the three directory levels.
pub const SHARD_PREFIX_LEN: usize = 9;

/// ASCII `A`.
pub const BYTE_UPPER_A: u8 = 65;
/// ASCII `Z`.
pub const BYTE_UPPER_Z: u8 = 90;
/// ASCII `a`.
pub const BYTE_LOWER_A: u8 = 97;
/// ASCII `z`.
pub const BYTE_LOWER_Z: u8 = 122;
/// ASCII `0`.
pub const BYTE_ZERO: u8 = 48;
/// ASCII `9`.
pub const BYTE_NINE: u8 = 57;
/// ASCII `-`.
pub const BYTE_DASH: u8 = 45;
/// ASCII `_`.
pub const BYTE_UNDERSCORE: u8 = 95;
/// ASCII `.`.
pub const BYTE_DOT: u8 = 46;
/// ASCII `/`.
pub const BYTE_SLASH: u8 = 47;
/// ASCII `\`.
pub const BYTE_BACKSLASH: u8 = 92;

/// The bytes an identifier may contain: the URL-safe base64 alphabet.
/// None of these is a path separator, a dot, or a NUL, which is what makes
/// a valid identifier a single, traversal-free path segment.
pub open spec fn is_url_safe_byte(b: u8) -> bool {
    (BYTE_UPPER_A <= b && b <= BYTE_UPPER_Z)
        || (BYTE_LOWER_A <= b && b <= BYTE_LOWER_Z)
        || (BYTE_ZERO <= b && b <= BYTE_NINE)
        || b == BYTE_DASH
        || b == BYTE_UNDERSCORE
}

/// An identifier the store will touch: long enough to shard, and made of
/// URL-safe bytes only.
pub open spec fn valid_identifier(s: Seq<u8>) -> bool {
    s.len() >= SHARD_PREFIX_LEN && forall|i: int| 0 <= i < s.len() ==> is_url_safe_byte(s[i])
}

/// Checks untrusted identifier text against [`valid_identifier`].
pub fn check_identifier(id: &Vec<u8>) -> (r: bool)
    ensures
        r == valid_identifier(id@),
{
    if id.len() < SHARD_PREFIX_LEN {
        return false;
    }
    let mut i: usize = 0;
    while i < id.len()
        invariant
            0 <= i <= id.len(),
            forall|j: int| 0 <= j < i ==> is_url_safe_byte(id@[j]),
        decreases id.len() - i,
    {
        let b = id[i];
        let ok = (BYTE_UPPER_A <= b && b <= BYTE_UPPER_Z) || (BYTE_LOWER_A <= b && b
            <= BYTE_LOWER_Z) || (BYTE_ZERO <= b && b <= BYTE_NINE) || b == BYTE_DASH || b
            == BYTE_UNDERSCORE;
        if !ok {
            return false;
        }
        i += 1;
    }
    true
}

/// Length of a base64 encoding without padding: four output bytes for every
/// three input bytes, plus two or three for a trailing partial group.
pub open spec fn b64_nopad_len(n: nat) -> nat {
    (n / 3) * 4 + (if n % 3 == 0 {
        0nat
    } else {
        n % 3 + 1
    })
}

/// The URL-safe base64 alphabet's symbol for a six-bit value: the upper
/// and lower case letters, the digits, `-` and `_`, in that order.
pub open spec fn b64_symbol(v: int) -> u8 {
    if v < 26 {
        (BYTE_UPPER_A + v) as u8
    } else if v < 52 {
        (BYTE_LOWER_A + (v - 26)) as u8
    } else if v < 62 {
        (BYTE_ZERO + (v - 52)) as u8
    } else if v == 62 {
        BYTE_DASH
    } else {
        BYTE_UNDERSCORE
    }
}

/// The URL-safe, unpadded base64 encoding: each three input bytes become
/// four symbols of six bits each, most significant bits first; a trailing
/// one or two bytes become two or three symbols, their spare low bits
/// zero.
pub open spec fn b64_url_nopad(b: Seq<u8>) -> Seq<u8>
    decreases b.len(),
{
    if b.len() == 0 {
        Seq::empty()
    } else if b.len() == 1 {
        seq![b64_symbol(b[0] as int / 4), b64_symbol((b[0] as int % 4) * 16)]
    } else if b.len() == 2 {
        seq![
            b64_symbol(b[0] as int / 4),
            b64_symbol((b[0] as int % 4) * 16 + b[1] as int / 16),
            b64_symbol((b[1] as int % 16) * 4),
        ]
    } else {
        seq![
            b64_symbol(b[0] as int / 4),
            b64_symbol((b[0] as int % 4) * 16 + b[1] as int / 16),
            b64_symbol((b[1] as int % 16) * 4 + b[2] as int / 64),
            b64_symbol(b[2] as int % 64),
        ] + b64_url_nopad(b.skip(3))
    }
}

/// Every six-bit value's symbol is a URL-safe byte.
pub proof fn lemma_b64_symbol_url_safe(v: int)
    requires
        0 <= v < 64,
    ensures
        is_url_safe_byte(b64_symbol(v)),
{
}

/// The encoding's length follows the unpadded formula, and every byte of
/// it is URL-safe.
pub proof fn lemma_b64_url_nopad_props(b: Seq<u8>)
    ensures
        b64_url_nopad(b).len() == b64_nopad_len(b.len()),
        forall|i: int| 0 <= i < b64_url_nopad(b).len() ==> is_url_safe_byte(#[trigger] b64_url_nopad(b)[i]),
    decreases b.len(),
{
    if b.len() == 0 {
    } else if b.len() == 1 {
        lemma_b64_symbol_url_safe(b[0] as int / 4);
        lemma_b64_symbol_url_safe((b[0] as int % 4) * 16);
    } else if b.len() == 2 {
        lemma_b64_symbol_url_safe(b[0] as int / 4);
        lemma_b64_symbol_url_safe((b[0] as int % 4) * 16 + b[1] as int / 16);
        lemma_b64_symbol_url_safe((b[1] as int % 16) * 4);
    } else {
        lemma_b64_url_nopad_props(b.skip(3));
        lemma_b64_symbol_url_safe(b[0] as int / 4);
        lemma_b64_symbol_url_safe((b[0] as int % 4) * 16 + b[1] as int / 16);
        lemma_b64_symbol_url_safe((b[1] as int % 16) * 4 + b[2] as int / 64);
        lemma_b64_symbol_url_safe(b[2] as int % 64);
        assert(b.skip(3).len() == b.len() - 3);
        assert(b64_nopad_len(b.len()) == b64_nopad_len((b.len() - 3) as nat) + 4);
        assert forall|i: int|
            0 <= i < b64_url_nopad(b).len() implies is_url_safe_byte(
            #[trigger] b64_url_nopad(b)[i],
        ) by {
            if i >= 4 {
                assert(b64_url_nopad(b)[i] == b64_url_nopad(b.skip(3))[i - 4]);
            }
        }
    }
}

/// Relies on `base64::engine::general_purpose::URL_SAFE_NO_PAD.encode`:
/// it writes exactly the URL-safe, unpadded base64 encoding of its input.
#[verifier::external_body]
fn b64_url_encode(data: &Vec<u8>) -> (r: Vec<u8>)
    ensures
        r@ == b64_url_nopad(data@),
{
    base64::engine::general_purpose::URL_SAFE_NO_PAD.encode(data).into_bytes()
}

/// Relies on `uuid::Uuid::new_v4` and `Uuid::as_bytes`: a fresh random
/// identifier of exactly sixteen bytes; nothing is promised of their values.
#[verifier::external_body]
fn random_uuid_bytes() -> (r: Vec<u8>)
    ensures
        r@.len() == 16,
{
    uuid::Uuid::new_v4().as_bytes().to_vec()
}

/// Relies on `rand::thread_rng` and `Rng::gen`: a random 32-bit value;
/// nothing can be promised of it.
#[verifier::external_body]
fn random_u32() -> u32 {
    rand::thread_rng().gen()
}

/// Relies on `std::time::SystemTime::now` and `duration_since`: the seconds
/// since the Unix epoch; nothing can be promised of the value. A clock
/// reading before the epoch is a broken-invariant state of the machine,
/// treated as fatal rather than recovered from.
#[verifier::external_body]
fn unix_time_secs() -> u64 {
    std::time::SystemTime::now()
        .duration_since(std::time::UNIX_EPOCH)
        .expect("the system clock reads before the Unix epoch")
        .as_secs()
}

/// The little-endian bytes of a 64-bit value, least significant first.
pub open spec fn u64_le(x: u64) -> Seq<u8> {
    seq![
        (x >> 0) as u8,
        (x >> 8) as u8,
        (x >> 16) as u8,
        (x >> 24) as u8,
        (x >> 32) as u8,
        (x >> 40) as u8,
        (x >> 48) as u8,
        (x >> 56) as u8,
    ]
}

/// The little-endian bytes of a 32-bit value, least significant first.
pub open spec fn u32_le(x: u32) -> Seq<u8> {
    seq![(x >> 0) as u8, (x >> 8) as u8, (x >> 16) as u8, (x >> 24) as u8]
}

/// Serializes a 64-bit value as its eight little-endian bytes.
pub fn u64_le_bytes(x: u64) -> (r: Vec<u8>)
    ensures
        r@ == u64_le(x),
{
    let mut r: Vec<u8> = Vec::new();
    r.push(#[verifier::truncate] ((x >> 0) as u8));
    r.push(#[verifier::truncate] ((x >> 8) as u8));
    r.push(#[verifier::truncate] ((x >> 16) as u8));
    r.push(#[verifier::truncate] ((x >> 24) as u8));
    r.push(#[verifier::truncate] ((x >> 32) as u8));
    r.push(#[verifier::truncate] ((x >> 40) as u8));
    r.push(#[verifier::truncate] ((x >> 48) as u8));
    r.push(#[verifier::truncate] ((x >> 56) as u8));
    proof {
        assert(r@ =~= u64_le(x));
    }
    r
}

/// Serializes a 32-bit value as its four little-endian bytes.
pub fn u32_le_bytes(x: u32) -> (r: Vec<u8>)
    ensures
        r@ == u32_le(x),
{
    let mut r: Vec<u8> = Vec::new();
    r.push(#[verifier::truncate] ((x >> 0) as u8));
    r.push(#[verifier::truncate] ((x >> 8) as u8));
    r.push(#[verifier::truncate] ((x >> 16) as u8));
    r.push(#[verifier::truncate] ((x >> 24) as u8));
    proof {
        assert(r@ =~= u32_le(x));
    }
    r
}

/// Length of the byte string a fresh identifier encodes: sixteen random
/// bytes, eight clock bytes, four more random bytes.
pub const RAW_ID_LEN: usize = 28;

/// Length of a generated identifier's text.
pub const GENERATED_ID_LEN: usize = 38;

/// Generates a fresh, collision-resistant identifier: a random 128-bit
/// value, the current Unix time in fixed-width little-endian bytes, and a
/// random 32-bit value, concatenated in that order and encoded with the
/// URL-safe, unpadded base64 alphabet. The random parts are fresh draws,
/// so nothing more can be said of them than their width; the encoding and
/// the layout are exact.
pub fn generate_normal_id() -> (r: Vec<u8>)
    ensures
        valid_identifier(r@),
        r@.len() == GENERATED_ID_LEN,
        exists|u: Seq<u8>, t: u64, n: u32|
            u.len() == 16 && r@ == #[trigger] b64_url_nopad(u + u64_le(t) + u32_le(n)),
{
    let mut bindat = random_uuid_bytes();
    let ghost u = bindat@;
    let t = unix_time_secs();
    let n = random_u32();
    let mut now = u64_le_bytes(t);
    let mut num = u32_le_bytes(n);
    bindat.append(&mut now);
    bindat.append(&mut num);
    assert(bindat@.len() == RAW_ID_LEN);
    let r = b64_url_encode(&bindat);
    proof {
        lemma_b64_url_nopad_props(bindat@);
        assert(b64_nopad_len(RAW_ID_LEN as nat) == GENERATED_ID_LEN);
        assert(r@ == b64_url_nopad(u + u64_le(t) + u32_le(n)));
    }
    r
}

} // verus!
