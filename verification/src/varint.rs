//! Variable-length integer encoding for runtime arguments: a zig-zag
//! transform maps a signed 32-bit value to an unsigned one so that small
//! magnitudes stay small, and the unsigned value is then written base-128,
//! low group first, with the high bit of every byte but the last set.

use vstd::prelude::*;
use vstd::arithmetic::div_mod::lemma_fundamental_div_mod;

verus! {

/// The zig-zag image of a signed value: non-negative `n` maps to `2n`,
/// negative `n` to `-2n - 1`.
pub open spec fn zigzag_spec(n: i32) -> u32 {
    if n >= 0 {
        (2 * n) as u32
    } else {
        (-2 * (n as int) - 1) as u32
    }
}

/// The signed value a zig-zag image stands for.
pub open spec fn unzigzag_spec(z: u32) -> i32 {
    if z % 2 == 0 {
        (z / 2) as i32
    } else {
        (-1 - ((z as int - 1) / 2)) as i32
    }
}

/// The base-128 encoding of `v`: each byte carries seven value bits, low
/// group first; every byte but the last has its high bit set.
pub open spec fn leb128_spec(v: u32) -> Seq<u8>
    decreases v,
{
    if v < 0x80 {
        seq![v as u8]
    } else {
        seq![(v % 0x80 + 0x80) as u8] + leb128_spec(v / 0x80)
    }
}

/// Reads one base-128 integer from the front of `s`: the value and how
/// many bytes it took, or nothing if `s` ends before a byte with a clear
/// high bit, or if the value would not fit in 32 bits.
pub open spec fn leb128_decode_spec(s: Seq<u8>) -> Option<(u32, int)>
    decreases s.len(),
{
    if s.len() == 0 {
        None
    } else if s[0] < 0x80 {
        Some((s[0] as u32, 1))
    } else {
        match leb128_decode_spec(s.drop_first()) {
            None => None,
            Some((v, n)) => if 0x80 * (v as int) + (s[0] - 0x80) <= u32::MAX {
                Some(((0x80 * (v as int) + (s[0] - 0x80)) as u32, n + 1))
            } else {
                None
            },
        }
    }
}

/// The zig-zag transform of a signed 32-bit value.
pub fn zigzag_encode(n: i32) -> (z: u32)
    ensures
        z == zigzag_spec(n),
{
    if n >= 0 {
        (n as u32) * 2
    } else {
        ((-1 - n) as u32) * 2 + 1
    }
}

/// The signed value behind a zig-zag image.
pub fn zigzag_decode(z: u32) -> (n: i32)
    ensures
        n == unzigzag_spec(z),
{
    if z % 2 == 0 {
        (z / 2) as i32
    } else {
        -1 - ((z - 1) / 2) as i32
    }
}

/// Appends the base-128 encoding of `v` to `out`.
pub fn encode_u32_base128(v: u32, out: &mut Vec<u8>)
    ensures
        final(out)@ == old(out)@ + leb128_spec(v),
{
    let ghost orig = out@;
    let mut rest: u32 = v;
    while rest >= 0x80
        invariant
            orig + leb128_spec(v) == out@ + leb128_spec(rest),
        decreases rest,
    {
        proof {
            assert(out@.push((rest % 0x80 + 0x80) as u8) + leb128_spec(rest / 0x80)
                =~= out@ + leb128_spec(rest));
        }
        out.push((rest % 0x80 + 0x80) as u8);
        rest = rest / 0x80;
    }
    out.push(rest as u8);
    proof {
        assert(out@ =~= orig + leb128_spec(v));
    }
}

/// The zig-zag transform loses nothing: decoding its image gives the
/// original value back.
pub proof fn lemma_zigzag_round_trip(n: i32)
    ensures
        unzigzag_spec(zigzag_spec(n)) == n,
{
}

/// Base-128 decoding reads back exactly the bytes the encoder wrote,
/// whatever follows them, and yields the encoded value.
pub proof fn lemma_leb128_round_trip(v: u32, rest: Seq<u8>)
    ensures
        leb128_decode_spec(leb128_spec(v) + rest)
            == Some((v, leb128_spec(v).len() as int)),
    decreases v,
{
    let s = leb128_spec(v) + rest;
    if v < 0x80 {
        assert(s[0] == v as u8);
    } else {
        lemma_leb128_round_trip(v / 0x80, rest);
        assert(s.drop_first() =~= leb128_spec(v / 0x80) + rest);
        lemma_fundamental_div_mod(v as int, 0x80);
    }
}
} // verus!
