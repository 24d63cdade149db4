//! The tokenizing hash: a rolling 65599-coefficient sum over the input
//! bytes, seeded from the input's total length, with all arithmetic
//! wrapping modulo 2^32.
//!
//! The fixed-limit variant scans at most a caller-chosen number of bytes
//! but still seeds from the full length, so two strings that share a
//! prefix yet differ in length hash differently even when the scan is
//! bounded.

use vstd::prelude::*;
use vstd::string::StringSliceAdditionalSpecFns;
use vstd::wrapping::u32_specs;

verus! {

/// Coefficient of the rolling sum.
pub const HASH_CONSTANT: u32 = 65599;

/// The hash's starting value: the input length reduced to 32 bits.
pub open spec fn seed_for_len(len: nat) -> u32 {
    ((len as int) % 0x1_0000_0000) as u32
}

/// The bytes that take part in the rolling sum when at most `len` of
/// `bytes` may be scanned.
pub open spec fn hashed_prefix(bytes: Seq<u8>, len: nat) -> Seq<u8> {
    if bytes.len() > len {
        bytes.take(len as int)
    } else {
        bytes
    }
}

/// Folds the rolling sum over `bytes`, starting from hash value `h` and
/// coefficient `c`.
pub open spec fn hash_rounds(bytes: Seq<u8>, h: u32, c: u32) -> u32
    decreases bytes.len(),
{
    if bytes.len() == 0 {
        h
    } else {
        hash_rounds(
            bytes.drop_first(),
            u32_specs::wrapping_add(h, u32_specs::wrapping_mul(c, bytes[0] as u32)),
            u32_specs::wrapping_mul(c, HASH_CONSTANT),
        )
    }
}

/// The hash of `bytes` when at most `len` bytes take part in the rolling
/// sum; the seed always comes from the full length.
pub open spec fn hash_bytes_fixed_spec(bytes: Seq<u8>, len: nat) -> u32 {
    hash_rounds(hashed_prefix(bytes, len), seed_for_len(bytes.len()), HASH_CONSTANT)
}

/// The hash of a whole byte sequence.
pub open spec fn hash_bytes_spec(bytes: Seq<u8>) -> u32 {
    hash_bytes_fixed_spec(bytes, bytes.len())
}

/// Calculate the hash for a sequence of bytes, examining at most `len`
/// bytes.
pub fn hash_bytes_fixed(bytes: &[u8], len: usize) -> (h: u32)
    ensures
        h == hash_bytes_fixed_spec(bytes@, len as nat),
{
    let count: usize = if bytes.len() > len {
        len
    } else {
        bytes.len()
    };
    proof {
        assert(hashed_prefix(bytes@, len as nat) =~= bytes@.take(count as int));
    }
    let mut hash: u32 = ((bytes.len() as u64) % 0x1_0000_0000) as u32;
    let mut coefficient: u32 = HASH_CONSTANT;
    let mut i: usize = 0;
    proof {
        assert(hash == seed_for_len(bytes@.len()));
        assert(bytes@.take(count as int).skip(0) =~= bytes@.take(count as int));
    }
    while i < count
        invariant
            i <= count,
            count <= bytes@.len(),
            hash_rounds(bytes@.take(count as int).skip(i as int), hash, coefficient)
                == hash_bytes_fixed_spec(bytes@, len as nat),
        decreases count - i,
    {
        let b = bytes[i];
        proof {
            assert(bytes@.take(count as int).skip(i as int)[0] == b);
            assert(bytes@.take(count as int).skip(i as int).drop_first()
                =~= bytes@.take(count as int).skip(i as int + 1));
        }
        hash = hash.wrapping_add(coefficient.wrapping_mul(b as u32));
        coefficient = coefficient.wrapping_mul(HASH_CONSTANT);
        i += 1;
    }
    proof {
        assert(bytes@.take(count as int).skip(count as int) =~= Seq::<u8>::empty());
    }
    hash
}

/// Calculate the hash for a sequence of bytes.
pub fn hash_bytes(bytes: &[u8]) -> (h: u32)
    ensures
        h == hash_bytes_spec(bytes@),
{
    hash_bytes_fixed(bytes, bytes.len())
}

/// Calculate the hash for a string, over its UTF-8 bytes.
pub fn hash_string(s: &str) -> (h: u32)
    ensures
        h == hash_bytes_spec(s.spec_bytes()),
{
    hash_bytes(s.as_bytes())
}

/// The hash is deterministic: any two results computed over the same
/// byte sequence agree, as every call's result equals `hash_bytes_spec`
/// of its input.
pub proof fn lemma_hash_deterministic(bytes: Seq<u8>, h1: u32, h2: u32)
    requires
        h1 == hash_bytes_spec(bytes),
        h2 == hash_bytes_spec(bytes),
    ensures
        h1 == h2,
{
}

/// A scan limit at or past the input length has no effect: the bounded
/// hash agrees with the plain hash.
pub proof fn lemma_fixed_len_covers_input(bytes: Seq<u8>, len: nat)
    requires
        len >= bytes.len(),
    ensures
        hash_bytes_fixed_spec(bytes, len) == hash_bytes_spec(bytes),
{
}

/// With a scan limit of zero no byte takes part in the rolling sum: the
/// hash is the seed drawn from the input length alone.
pub proof fn lemma_fixed_zero_is_length_seed(bytes: Seq<u8>)
    ensures
        hash_bytes_fixed_spec(bytes, 0) == seed_for_len(bytes.len()),
{
    assert(hashed_prefix(bytes, 0) =~= Seq::<u8>::empty());
}

} // verus!
