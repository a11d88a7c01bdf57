//! Big-endian integers as they stand in packet headers.

use vstd::prelude::*;

verus! {

/// The big-endian 16-bit value of the byte pair `hi`, `lo`.
pub open spec fn be_u16(hi: u8, lo: u8) -> nat {
    hi as nat * 256 + lo as nat
}

/// The big-endian 32-bit value of four bytes.
pub open spec fn be_u32(b0: u8, b1: u8, b2: u8, b3: u8) -> nat {
    b0 as nat * 0x1000000 + b1 as nat * 0x10000 + b2 as nat * 0x100 + b3 as nat
}

/// The two big-endian bytes of `v`.
pub open spec fn u16_bytes(v: u16) -> Seq<u8> {
    seq![(v / 256) as u8, (v % 256) as u8]
}

/// The four big-endian bytes of `v`.
pub open spec fn u32_bytes(v: u32) -> Seq<u8> {
    seq![(v / 0x1000000) as u8, (v / 0x10000 % 256) as u8, (v / 0x100 % 256) as u8, (v % 256) as u8]
}

/// The bytes of `s` from `start` to its end.
pub open spec fn suffix(s: Seq<u8>, start: int) -> Seq<u8> {
    s.subrange(start, s.len() as int)
}

/// Reading back the bytes of a 16-bit value gives the value.
pub proof fn lemma_u16_bytes_roundtrip(v: u16)
    ensures
        be_u16(u16_bytes(v)[0], u16_bytes(v)[1]) == v,
{
}

/// Reading back the bytes of a 32-bit value gives the value.
pub proof fn lemma_u32_bytes_roundtrip(v: u32)
    ensures
        be_u32(u32_bytes(v)[0], u32_bytes(v)[1], u32_bytes(v)[2], u32_bytes(v)[3]) == v,
{
    let b = u32_bytes(v);
    assert(b[0] == v / 0x1000000);
    assert(b[1] == v / 0x10000 % 256);
    assert(b[2] == v / 0x100 % 256);
    assert(b[3] == v % 256);
    assert(v / 0x1000000 * 0x1000000 + v / 0x10000 % 256 * 0x10000 + v / 0x100 % 256 * 0x100 + v % 256
        == v) by (nonlinear_arith);
}

/// Reads the big-endian 16-bit value at `data[i..i + 2]`.
pub fn read_be_u16(data: &[u8], i: usize) -> (v: u16)
    requires
        i + 1 < data@.len(),
    ensures
        v == be_u16(data@[i as int], data@[i + 1]),
{
    (data[i] as u16) * 256 + (data[i + 1] as u16)
}

/// Reads the big-endian 32-bit value at `data[i..i + 4]`.
pub fn read_be_u32(data: &[u8], i: usize) -> (v: u32)
    requires
        i + 3 < data@.len(),
    ensures
        v == be_u32(data@[i as int], data@[i + 1], data@[i + 2], data@[i + 3]),
{
    (data[i] as u32) * 0x1000000 + (data[i + 1] as u32) * 0x10000 + (data[i + 2] as u32) * 0x100
        + (data[i + 3] as u32)
}

/// The low 16 bits of `n`, as a cast to `u16` keeps them.
pub fn low_u16(n: usize) -> (v: u16)
    ensures
        v == n as u16,
{
    n as u16
}

/// Appends the two big-endian bytes of `v`.
pub fn push_u16(out: &mut Vec<u8>, v: u16)
    ensures
        final(out)@ == old(out)@ + u16_bytes(v),
{
    out.push((v / 256) as u8);
    out.push((v % 256) as u8);
    assert(final(out)@ =~= old(out)@ + u16_bytes(v));
}

/// Appends the four big-endian bytes of `v`.
pub fn push_u32(out: &mut Vec<u8>, v: u32)
    ensures
        final(out)@ == old(out)@ + u32_bytes(v),
{
    out.push((v / 0x1000000) as u8);
    out.push((v / 0x10000 % 256) as u8);
    out.push((v / 0x100 % 256) as u8);
    out.push((v % 256) as u8);
    assert(final(out)@ =~= old(out)@ + u32_bytes(v));
}

/// Appends all bytes of `src`.
pub fn push_bytes(out: &mut Vec<u8>, src: &[u8])
    ensures
        final(out)@ == old(out)@ + src@,
{
    out.extend_from_slice(src);
    assert(final(out)@ =~= old(out)@ + src@);
}

} // verus!
