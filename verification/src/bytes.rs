//! Byte-vector helpers: copying ranges, concatenation, and fixed-width
//! integer fields in big-endian (wire) and little-endian (payload) order.

use vstd::prelude::*;

verus! {

/// The 16-bit big-endian value of two bytes.
pub open spec fn spec_be16(hi: u8, lo: u8) -> u16 {
    (hi * 0x100 + lo) as u16
}

/// The 32-bit big-endian value of four bytes.
pub open spec fn spec_be32(b0: u8, b1: u8, b2: u8, b3: u8) -> u32 {
    (b0 * 0x100_0000 + b1 * 0x1_0000 + b2 * 0x100 + b3) as u32
}

/// The 64-bit little-endian value of the eight bytes of `s` starting at `off`.
pub open spec fn spec_le64(s: Seq<u8>, off: int) -> u64 {
    (s[off] + s[off + 1] * 0x100 + s[off + 2] * 0x1_0000 + s[off + 3] * 0x100_0000
        + s[off + 4] * 0x1_0000_0000 + s[off + 5] * 0x100_0000_0000
        + s[off + 6] * 0x1_0000_0000_0000 + s[off + 7] * 0x100_0000_0000_0000) as u64
}

pub fn be16(hi: u8, lo: u8) -> (r: u16)
    ensures
        r == spec_be16(hi, lo),
{
    (hi as u16) * 0x100 + (lo as u16)
}

/// The high byte of a 16-bit value.
pub fn be16_hi(x: u16) -> (r: u8)
    ensures
        r == x / 0x100,
{
    (x / 0x100) as u8
}

/// The low byte of a 16-bit value.
pub fn be16_lo(x: u16) -> (r: u8)
    ensures
        r == x % 0x100,
{
    (x % 0x100) as u8
}

pub fn be32(b0: u8, b1: u8, b2: u8, b3: u8) -> (r: u32)
    ensures
        r == spec_be32(b0, b1, b2, b3),
{
    (b0 as u32) * 0x100_0000 + (b1 as u32) * 0x1_0000 + (b2 as u32) * 0x100 + (b3 as u32)
}

/// The big-endian bytes of a 32-bit value, most significant first.
pub fn be32_bytes(x: u32) -> (r: (u8, u8, u8, u8))
    ensures
        r.0 == x / 0x100_0000,
        r.1 == (x / 0x1_0000) % 0x100,
        r.2 == (x / 0x100) % 0x100,
        r.3 == x % 0x100,
        spec_be32(r.0, r.1, r.2, r.3) == x,
{
    let b0 = (x / 0x100_0000) as u8;
    let b1 = ((x / 0x1_0000) % 0x100) as u8;
    let b2 = ((x / 0x100) % 0x100) as u8;
    let b3 = (x % 0x100) as u8;
    (b0, b1, b2, b3)
}

/// Round-trip: splitting a 16-bit value into bytes and reading them back
/// returns the value.
pub proof fn lemma_be16_roundtrip(x: u16)
    ensures
        spec_be16((x / 0x100) as u8, (x % 0x100) as u8) == x,
{
}

/// Round-trip: splitting a 32-bit value into bytes and reading them back
/// returns the value.
pub proof fn lemma_be32_roundtrip(x: u32)
    ensures
        spec_be32(
            (x / 0x100_0000) as u8,
            ((x / 0x1_0000) % 0x100) as u8,
            ((x / 0x100) % 0x100) as u8,
            (x % 0x100) as u8,
        ) == x,
{
}

/// A copy of `v[start..end]`.
pub fn copy_range(v: &[u8], start: usize, end: usize) -> (r: Vec<u8>)
    requires
        start <= end <= v@.len(),
    ensures
        r@ == v@.subrange(start as int, end as int),
{
    let mut r: Vec<u8> = Vec::new();
    let mut i = start;
    while i < end
        invariant
            start <= i <= end <= v@.len(),
            r@ == v@.subrange(start as int, i as int),
        decreases end - i,
    {
        r.push(v[i]);
        proof {
            assert(r@ =~= v@.subrange(start as int, i + 1));
        }
        i = i + 1;
    }
    r
}

/// Appends all of `src` to `dst`.
pub fn append_bytes(dst: &mut Vec<u8>, src: &[u8])
    ensures
        final(dst)@ == old(dst)@ + src@,
{
    let n = src.len();
    let mut i: usize = 0;
    while i < n
        invariant
            n == src@.len(),
            i <= n,
            dst@ == old(dst)@ + src@.take(i as int),
        decreases n - i,
    {
        dst.push(src[i]);
        proof {
            assert(dst@ =~= old(dst)@ + src@.take(i + 1));
        }
        i = i + 1;
    }
    proof {
        assert(old(dst)@ + src@.take(n as int) =~= old(dst)@ + src@);
    }
}

/// Reads the 64-bit little-endian field at `off`.
pub fn read_le64(v: &[u8], off: usize) -> (r: u64)
    requires
        off + 8 <= v@.len(),
    ensures
        r == spec_le64(v@, off as int),
{
    (v[off] as u64)
        + (v[off + 1] as u64) * 0x100
        + (v[off + 2] as u64) * 0x1_0000
        + (v[off + 3] as u64) * 0x100_0000
        + (v[off + 4] as u64) * 0x1_0000_0000
        + (v[off + 5] as u64) * 0x100_0000_0000
        + (v[off + 6] as u64) * 0x1_0000_0000_0000
        + (v[off + 7] as u64) * 0x100_0000_0000_0000
}

} // verus!
