//! Little-endian encoding of integers inside byte buffers.
use vstd::prelude::*;

verus! {

/// The value of the little-endian `u16` stored at `off` in `s`.
pub open spec fn le_u16(s: Seq<u8>, off: int) -> int {
    s[off] + s[off + 1] * 256
}

/// The value of the little-endian `u32` stored at `off` in `s`.
pub open spec fn le_u32(s: Seq<u8>, off: int) -> int {
    s[off] + s[off + 1] * 0x100 + s[off + 2] * 0x1_0000 + s[off + 3] * 0x100_0000
}

/// The bytes of `v` in little-endian order.
pub open spec fn u16_le(v: u16) -> Seq<u8> {
    seq![(v % 0x100) as u8, (v / 0x100) as u8]
}

/// The bytes of `v` in little-endian order.
pub open spec fn u32_le(v: u32) -> Seq<u8> {
    seq![
        (v % 0x100) as u8,
        ((v / 0x100) % 0x100) as u8,
        ((v / 0x1_0000) % 0x100) as u8,
        (v / 0x100_0000) as u8,
    ]
}

/// `s` with the bytes of `b` written at `off`.
pub open spec fn splice(s: Seq<u8>, off: int, b: Seq<u8>) -> Seq<u8> {
    s.subrange(0, off) + b + s.subrange(off + b.len(), s.len() as int)
}

pub proof fn lemma_le_u32_of_u32_le(v: u32)
    ensures
        le_u32(u32_le(v), 0) == v,
{
    let s = u32_le(v);
    assert(s[0] == v % 0x100);
    assert(s[1] == (v / 0x100) % 0x100);
    assert(s[2] == (v / 0x1_0000) % 0x100);
    assert(s[3] == v / 0x100_0000);
    assert(le_u32(s, 0) == v) by (nonlinear_arith)
        requires
            s[0] == v % 0x100,
            s[1] == (v / 0x100) % 0x100,
            s[2] == (v / 0x1_0000) % 0x100,
            s[3] == v / 0x100_0000,
            v < 0x1_0000_0000,
    ;
}

/// Reads the little-endian `u32` at `off`.
pub fn read_u32_le(data: &[u8], off: usize) -> (r: u32)
    requires
        off + 4 <= data@.len(),
    ensures
        r == le_u32(data@, off as int),
{
    let b0 = data[off] as u32;
    let b1 = data[off + 1] as u32;
    let b2 = data[off + 2] as u32;
    let b3 = data[off + 3] as u32;
    b0 + b1 * 0x100 + b2 * 0x1_0000 + b3 * 0x100_0000
}

/// Reads the little-endian `u16` at `off`.
pub fn read_u16_le(data: &[u8], off: usize) -> (r: u16)
    requires
        off + 2 <= data@.len(),
    ensures
        r == le_u16(data@, off as int),
{
    let b0 = data[off] as u16;
    let b1 = data[off + 1] as u16;
    b0 + b1 * 0x100
}

/// Writes `v` in little-endian order at `off`.
pub fn write_u32_le<const N: usize>(data: &mut [u8; N], off: usize, v: u32)
    requires
        off + 4 <= N,
    ensures
        final(data)@ == splice(old(data)@, off as int, u32_le(v)),
        le_u32(final(data)@, off as int) == v,
{
    data[off] = (v % 0x100) as u8;
    data[off + 1] = ((v / 0x100) % 0x100) as u8;
    data[off + 2] = ((v / 0x1_0000) % 0x100) as u8;
    data[off + 3] = (v / 0x100_0000) as u8;
    proof {
        assert(final(data)@ =~= splice(old(data)@, off as int, u32_le(v)));
        lemma_le_u32_of_u32_le(v);
        assert(le_u32(final(data)@, off as int) == le_u32(u32_le(v), 0));
    }
}

pub proof fn lemma_le_u16_of_u16_le(v: u16)
    ensures
        le_u16(u16_le(v), 0) == v,
{
    let s = u16_le(v);
    assert(le_u16(s, 0) == v) by (nonlinear_arith)
        requires
            s[0] == v % 0x100,
            s[1] == v / 0x100,
            v < 0x1_0000,
    ;
}

/// Writes `v` in little-endian order at `off`.
pub fn write_u16_le<const N: usize>(data: &mut [u8; N], off: usize, v: u16)
    requires
        off + 2 <= N,
    ensures
        final(data)@ == splice(old(data)@, off as int, u16_le(v)),
        le_u16(final(data)@, off as int) == v,
{
    data[off] = (v % 0x100) as u8;
    data[off + 1] = (v / 0x100) as u8;
    proof {
        assert(final(data)@ =~= splice(old(data)@, off as int, u16_le(v)));
        lemma_le_u16_of_u16_le(v);
        assert(le_u16(final(data)@, off as int) == le_u16(u16_le(v), 0));
    }
}

} // verus!
