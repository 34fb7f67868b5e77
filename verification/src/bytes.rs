//! Little-endian integer decoding and encoding over byte buffers.

use vstd::prelude::*;

verus! {

/// Little-endian 16-bit value of `s[o..o+2]`.
pub open spec fn le16(s: Seq<u8>, o: int) -> int {
    s[o] as int + s[o + 1] as int * 0x100
}

/// Little-endian 24-bit value of `s[o..o+3]`.
pub open spec fn le24(s: Seq<u8>, o: int) -> int {
    le16(s, o) + s[o + 2] as int * 0x1_0000
}

/// Little-endian 32-bit value of `s[o..o+4]`.
pub open spec fn le32(s: Seq<u8>, o: int) -> int {
    le24(s, o) + s[o + 3] as int * 0x100_0000
}

/// Little-endian 64-bit value of `s[o..o+8]`.
pub open spec fn le64(s: Seq<u8>, o: int) -> int {
    le32(s, o) + le32(s, o + 4) * 0x1_0000_0000
}

/// The four little-endian bytes of `v`.
pub open spec fn le32_bytes(v: u32) -> Seq<u8> {
    seq![
        (v % 0x100) as u8,
        ((v / 0x100) % 0x100) as u8,
        ((v / 0x1_0000) % 0x100) as u8,
        (v / 0x100_0000) as u8,
    ]
}

pub fn u16_le(b: &[u8], o: usize) -> (r: u16)
    requires
        o + 2 <= b@.len(),
    ensures
        r == le16(b@, o as int),
{
    b[o] as u16 + (b[o + 1] as u16) * 0x100
}

pub fn u24_le(b: &[u8], o: usize) -> (r: u32)
    requires
        o + 3 <= b@.len(),
    ensures
        r == le24(b@, o as int),
{
    b[o] as u32 + (b[o + 1] as u32) * 0x100 + (b[o + 2] as u32) * 0x1_0000
}

pub fn u32_le(b: &[u8], o: usize) -> (r: u32)
    requires
        o + 4 <= b@.len(),
    ensures
        r == le32(b@, o as int),
{
    b[o] as u32 + (b[o + 1] as u32) * 0x100 + (b[o + 2] as u32) * 0x1_0000 + (b[o + 3] as u32)
        * 0x100_0000
}

pub fn u64_le(b: &[u8], o: usize) -> (r: u64)
    requires
        o + 8 <= b@.len(),
    ensures
        r == le64(b@, o as int),
{
    assert(b@.len() == b.len());
    let lo = u32_le(b, o) as u64;
    let hi = u32_le(b, o + 4) as u64;
    lo + hi * 0x1_0000_0000
}

/// Encode `v` as four little-endian bytes.
pub fn u32_to_le(v: u32) -> (r: [u8; 4])
    ensures
        r@ == le32_bytes(v),
        le32(r@, 0) == v,
{
    let r = [(v % 0x100) as u8, ((v / 0x100) % 0x100) as u8, ((v / 0x1_0000) % 0x100) as u8, (v
        / 0x100_0000) as u8];
    assert(r@ =~= le32_bytes(v));
    r
}

/// A fresh vector holding the bytes of `s`.
pub fn copy_bytes(s: &[u8]) -> (v: Vec<u8>)
    ensures
        v@ == s@,
{
    let mut v: Vec<u8> = Vec::new();
    let mut i: usize = 0;
    while i < s.len()
        invariant
            i <= s@.len(),
            v@ == s@.take(i as int),
        decreases s@.len() - i,
    {
        v.push(s[i]);
        i = i + 1;
        assert(v@ =~= s@.take(i as int));
    }
    assert(s@.take(i as int) =~= s@);
    v
}

/// Append the bytes of `s` to `v`.
pub fn append_bytes(v: &mut Vec<u8>, s: &[u8])
    ensures
        final(v)@ == old(v)@ + s@,
{
    let mut i: usize = 0;
    while i < s.len()
        invariant
            i <= s@.len(),
            v@ == old(v)@ + s@.take(i as int),
        decreases s@.len() - i,
    {
        v.push(s[i]);
        i = i + 1;
        assert(v@ =~= old(v)@ + s@.take(i as int));
    }
    assert(s@.take(i as int) =~= s@);
}

/// Store `v` little-endian at `at`.
pub fn put_u32_le(buf: &mut [u8], at: usize, v: u32)
    requires
        at + 4 <= old(buf)@.len(),
    ensures
        final(buf)@ == crate::region::splice(old(buf)@, at as int, le32_bytes(v)),
{
    let b = u32_to_le(v);
    buf[at] = b[0];
    buf[at + 1] = b[1];
    buf[at + 2] = b[2];
    buf[at + 3] = b[3];
    assert(buf@ =~= crate::region::splice(old(buf)@, at as int, le32_bytes(v)));
}

} // verus!
