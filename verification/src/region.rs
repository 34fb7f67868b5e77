//! A bounded `{start, end}` view into a flash image buffer. Methods take the
//! whole buffer so multiple regions can be edited without a long-lived `&mut`.

use crate::bytes::{le16, le32, u16_le, u32_le, u32_to_le};
use crate::error::{Error, Result};
use vstd::prelude::*;

verus! {

/// Block size for structural reads/writes (flash erase granularity).
pub const BLOCK: usize = 0x1000;

/// `s` with positions `[a, b)` set to `v`.
pub open spec fn fill_seq(s: Seq<u8>, a: int, b: int, v: u8) -> Seq<u8> {
    Seq::new(s.len(), |i: int| if a <= i < b { v } else { s[i] })
}

/// Filling an empty range changes nothing.
pub proof fn lemma_fill_empty(s: Seq<u8>, a: int, b: int, v: u8)
    requires
        a >= b,
    ensures
        fill_seq(s, a, b, v) == s,
{
    assert(fill_seq(s, a, b, v) =~= s);
}

/// `s` with `data` written at position `at`.
pub open spec fn splice(s: Seq<u8>, at: int, data: Seq<u8>) -> Seq<u8> {
    Seq::new(s.len(), |i: int| if at <= i < at + data.len() { data[i - at] } else { s[i] })
}

/// What a write puts at `at`, a read there gives back: the little-endian
/// word written is the word read, and the bytes around it are untouched.
pub proof fn lemma_read_after_write(s: Seq<u8>, at: int, v: u32)
    requires
        0 <= at,
        at + 4 <= s.len(),
    ensures
        crate::bytes::le32(splice(s, at, crate::bytes::le32_bytes(v)), at) == v,
        splice(s, at, crate::bytes::le32_bytes(v)).len() == s.len(),
        forall|k: int| 0 <= k < s.len() && !(at <= k < at + 4) ==> #[trigger] splice(s, at, crate::bytes::le32_bytes(v))[k] == s[k],
{
    let t = splice(s, at, crate::bytes::le32_bytes(v));
    assert(t[at] == (v % 0x100) as u8);
    assert(t[at + 1] == ((v / 0x100) % 0x100) as u8);
    assert(t[at + 2] == ((v / 0x1_0000) % 0x100) as u8);
    assert(t[at + 3] == ((v / 0x100_0000) % 0x100) as u8);
}

#[derive(Debug, Clone, Copy, PartialEq, Eq, Structural)]
pub struct Region {
    pub start: usize,
    pub end: usize,
}

/// `s` after moving `size` bytes from `src` to `dst`: the destination
/// holds the old source bytes, the vacated source bytes hold `fill`, and
/// everything else is as it was. The two ranges may overlap.
pub open spec fn move_bytes(s: Seq<u8>, src: int, dst: int, size: int, fill: u8) -> Seq<u8> {
    splice(fill_seq(s, src, src + size, fill), dst, s.subrange(src, src + size))
}

impl Region {
    /// The region lies within a buffer of `len` bytes.
    pub open spec fn inside(&self, len: int) -> bool {
        self.start <= self.end <= len
    }

    /// Absolute end of `[off, off + len)` lies inside the region.
    pub open spec fn fits(&self, off: int, len: int) -> bool {
        self.start + off + len <= self.end
    }

    /// Accessing `[off, off + len)` neither overflows nor, when inside the
    /// region, runs past the buffer.
    pub open spec fn access_ok(&self, buf_len: int, off: int, len: int) -> bool {
        &&& self.start + off + len <= usize::MAX
        &&& self.fits(off, len) ==> self.start + off + len <= buf_len
    }

    pub fn new(start: usize, end: usize) -> (r: Self)
        ensures
            r.start == start,
            r.end == end,
    {
        Self { start, end }
    }

    pub fn len(&self) -> (n: usize)
        requires
            self.start <= self.end,
        ensures
            n == self.end - self.start,
    {
        self.end - self.start
    }

    pub fn is_empty(&self) -> (b: bool)
        ensures
            b == (self.end <= self.start),
    {
        self.end <= self.start
    }

    fn check(&self, off: usize, len: usize) -> (r: Result<usize>)
        requires
            self.start + off + len <= usize::MAX,
        ensures
            self.fits(off as int, len as int) <==> r is Ok,
            r matches Ok(abs) ==> abs == self.start + off,
            r matches Err(e) ==> e == (Error::OutOfRegion { offset: off, len }),
    {
        let abs = self.start + off;
        if abs + len <= self.end {
            Ok(abs)
        } else {
            Err(Error::OutOfRegion { offset: off, len })
        }
    }

    /// The whole region as a slice.
    pub fn all<'a>(&self, buf: &'a [u8]) -> (r: &'a [u8])
        requires
            self.start <= self.end <= buf@.len(),
        ensures
            r@ == buf@.subrange(self.start as int, self.end as int),
    {
        &buf[self.start..self.end]
    }

    pub fn read<'a>(&self, buf: &'a [u8], off: usize, len: usize) -> (r: Result<&'a [u8]>)
        requires
            self.access_ok(buf@.len() as int, off as int, len as int),
        ensures
            self.fits(off as int, len as int) <==> r is Ok,
            r matches Ok(d) ==> d@ == buf@.subrange(self.start + off, self.start + off + len),
            r matches Err(e) ==> e == (Error::OutOfRegion { offset: off, len }),
    {
        let abs = self.check(off, len)?;
        Ok(&buf[abs..abs + len])
    }

    pub fn read_u32(&self, buf: &[u8], off: usize) -> (r: Result<u32>)
        requires
            self.access_ok(buf@.len() as int, off as int, 4),
        ensures
            self.fits(off as int, 4) <==> r is Ok,
            r matches Ok(v) ==> v == le32(buf@, self.start + off),
            r matches Err(e) ==> e == (Error::OutOfRegion { offset: off, len: 4 }),
    {
        let b = self.read(buf, off, 4)?;
        let v = u32_le(b, 0);
        Ok(v)
    }

    pub fn read_u16(&self, buf: &[u8], off: usize) -> (r: Result<u16>)
        requires
            self.access_ok(buf@.len() as int, off as int, 2),
        ensures
            self.fits(off as int, 2) <==> r is Ok,
            r matches Ok(v) ==> v == le16(buf@, self.start + off),
            r matches Err(e) ==> e == (Error::OutOfRegion { offset: off, len: 2 }),
    {
        let b = self.read(buf, off, 2)?;
        let v = u16_le(b, 0);
        Ok(v)
    }

    pub fn write(&self, buf: &mut [u8], off: usize, data: &[u8]) -> (r: Result<()>)
        requires
            self.access_ok(old(buf)@.len() as int, off as int, data@.len() as int),
        ensures
            self.fits(off as int, data@.len() as int) <==> r is Ok,
            r is Ok ==> final(buf)@ == splice(old(buf)@, self.start + off, data@),
            r is Err ==> final(buf)@ == old(buf)@,
            r matches Err(e) ==> e == (Error::OutOfRegion { offset: off, len: data@.len() as usize }),
    {
        let abs = self.check(off, data.len())?;
        let n = data.len();
        let mut i: usize = 0;
        while i < n
            invariant
                n == data@.len(),
                abs == self.start + off,
                abs + n <= buf@.len(),
                abs + n <= usize::MAX,
                i <= n,
                buf@.len() == old(buf)@.len(),
                forall|k: int| 0 <= k < buf@.len() ==> #[trigger] buf@[k] == (if abs <= k < abs + i {
                    data@[k - abs]
                } else {
                    old(buf)@[k]
                }),
            decreases n - i,
        {
            buf[abs + i] = data[i];
            i = i + 1;
        }
        assert(buf@ =~= splice(old(buf)@, self.start + off, data@));
        Ok(())
    }

    pub fn write_u32(&self, buf: &mut [u8], off: usize, val: u32) -> (r: Result<()>)
        requires
            self.access_ok(old(buf)@.len() as int, off as int, 4),
        ensures
            self.fits(off as int, 4) <==> r is Ok,
            r is Ok ==> final(buf)@ == splice(old(buf)@, self.start + off, crate::bytes::le32_bytes(val)),
            r is Err ==> final(buf)@ == old(buf)@,
            r matches Err(e) ==> e == (Error::OutOfRegion { offset: off, len: 4 }),
    {
        let bytes = u32_to_le(val);
        self.write(buf, off, &bytes)
    }

    pub fn write_u8(&self, buf: &mut [u8], off: usize, val: u8) -> (r: Result<()>)
        requires
            self.access_ok(old(buf)@.len() as int, off as int, 1),
        ensures
            self.fits(off as int, 1) <==> r is Ok,
            r is Ok ==> final(buf)@ == old(buf)@.update(self.start + off, val),
            r is Err ==> final(buf)@ == old(buf)@,
            r matches Err(e) ==> e == (Error::OutOfRegion { offset: off, len: 1 }),
    {
        let one = [val];
        let r = self.write(buf, off, &one);
        proof {
            if r is Ok {
                assert(buf@ =~= old(buf)@.update(self.start + off, val));
            }
        }
        r
    }

    /// Fill `[start, end)` (region-relative) with `fill`.
    pub fn fill_range(&self, buf: &mut [u8], start: usize, end: usize, fill: u8) -> (r: Result<()>)
        requires
            start < end ==> self.access_ok(old(buf)@.len() as int, start as int, end - start),
        ensures
            (start >= end || self.fits(start as int, end - start)) <==> r is Ok,
            r is Ok ==> final(buf)@ == fill_seq(old(buf)@, self.start + start, self.start + end, fill),
            r is Err ==> final(buf)@ == old(buf)@,
            r matches Err(e) ==> e == (Error::OutOfRegion { offset: start, len: (end - start) as usize }),
    {
        if start >= end {
            assert(buf@ =~= fill_seq(old(buf)@, self.start + start, self.start + end, fill));
            return Ok(());
        }
        let n = end - start;
        let abs = self.check(start, n)?;
        let mut i: usize = 0;
        while i < n
            invariant
                abs == self.start + start,
                abs + n <= buf@.len(),
                abs + n <= usize::MAX,
                n == end - start,
                i <= n,
                buf@.len() == old(buf)@.len(),
                forall|k: int| 0 <= k < buf@.len() ==> #[trigger] buf@[k] == (if abs <= k < abs + i {
                    fill
                } else {
                    old(buf)@[k]
                }),
            decreases n - i,
        {
            buf[abs + i] = fill;
            i = i + 1;
        }
        assert(buf@ =~= fill_seq(old(buf)@, self.start + start, self.start + end, fill));
        Ok(())
    }

    pub fn fill_all(&self, buf: &mut [u8], fill: u8) -> (r: Result<()>)
        requires
            self.start <= self.end <= old(buf)@.len(),
        ensures
            r is Ok,
            final(buf)@ == fill_seq(old(buf)@, self.start as int, self.end as int, fill),
    {
        self.fill_range(buf, 0, self.len(), fill)
    }

    /// Move `size` bytes `from`->`to` (region-relative), filling vacated source
    /// bytes with `fill`; ranges may overlap.
    pub fn move_range(&self, buf: &mut [u8], from: usize, size: usize, to: usize, fill: u8) -> (r: Result<()>)
        requires
            self.access_ok(old(buf)@.len() as int, from as int, size as int),
            self.access_ok(old(buf)@.len() as int, to as int, size as int),
        ensures
            final(buf)@.len() == old(buf)@.len(),
            (self.fits(from as int, size as int) && self.fits(to as int, size as int)) <==> r is Ok,
            r is Ok ==> final(buf)@ == move_bytes(old(buf)@, self.start + from, self.start + to, size as int, fill),
            r is Err ==> final(buf)@ == old(buf)@,
            r matches Err(e) ==> e == (if self.fits(from as int, size as int) {
                Error::OutOfRegion { offset: to, len: size }
            } else {
                Error::OutOfRegion { offset: from, len: size }
            }),
    {
        self.check(from, size)?;
        self.check(to, size)?;
        let src = self.start + from;
        let dst = self.start + to;
        let ghost before = buf@;
        // Stage the whole source first, so an overlapping destination never
        // reads bytes that were already overwritten.
        let mut block: Vec<u8> = Vec::new();
        let mut k: usize = 0;
        while k < size
            invariant
                k <= size,
                src + size <= buf@.len(),
                src + size <= usize::MAX,
                buf@ == before,
                block@ == before.subrange(src as int, src + k),
            decreases size - k,
        {
            block.push(buf[src + k]);
            k = k + 1;
            assert(block@ =~= before.subrange(src as int, src + k));
        }
        let mut k: usize = 0;
        while k < size
            invariant
                k <= size,
                src + size <= buf@.len(),
                src + size <= usize::MAX,
                buf@.len() == before.len(),
                forall|j: int| 0 <= j < buf@.len() ==> #[trigger] buf@[j] == (if src <= j < src + k {
                    fill
                } else {
                    before[j]
                }),
            decreases size - k,
        {
            buf[src + k] = fill;
            k = k + 1;
        }
        assert(buf@ =~= fill_seq(before, src as int, src + size, fill));
        let ghost filled = buf@;
        let mut k: usize = 0;
        while k < size
            invariant
                k <= size,
                dst + size <= buf@.len(),
                dst + size <= usize::MAX,
                size == block@.len(),
                buf@.len() == filled.len(),
                forall|j: int| 0 <= j < buf@.len() ==> #[trigger] buf@[j] == (if dst <= j < dst + k {
                    block@[j - dst]
                } else {
                    filled[j]
                }),
            decreases size - k,
        {
            buf[dst + k] = block[k];
            k = k + 1;
        }
        assert(buf@ =~= move_bytes(before, src as int, dst as int, size as int, fill));
        Ok(())
    }

    /// Copy `size` region-relative bytes out into a fresh buffer.
    pub fn extract(&self, buf: &[u8], size: usize) -> (r: Result<Vec<u8>>)
        requires
            self.access_ok(buf@.len() as int, 0, size as int),
        ensures
            self.fits(0, size as int) <==> r is Ok,
            r matches Ok(v) ==> v@ == buf@.subrange(self.start as int, self.start + size),
            r matches Err(e) ==> e == (Error::OutOfRegion { offset: 0, len: size }),
    {
        let abs = self.check(0, size)?;
        let mut out: Vec<u8> = Vec::new();
        let mut k: usize = 0;
        while k < size
            invariant
                k <= size,
                abs == self.start,
                abs + size <= buf@.len(),
                abs + size <= usize::MAX,
                out@ == buf@.subrange(abs as int, abs + k),
            decreases size - k,
        {
            out.push(buf[abs + k]);
            k = k + 1;
            assert(out@ =~= buf@.subrange(abs as int, abs + k));
        }
        Ok(out)
    }
}

/// A move puts the old source bytes at the destination, leaves the vacated
/// source bytes outside the destination filled, and keeps every other byte,
/// whether or not the two ranges overlap.
pub proof fn lemma_move_whole(s: Seq<u8>, src: int, dst: int, size: int, fill: u8)
    requires
        0 <= src,
        0 <= dst,
        0 <= size,
        src + size <= s.len(),
        dst + size <= s.len(),
    ensures
        move_bytes(s, src, dst, size, fill).len() == s.len(),
        move_bytes(s, src, dst, size, fill).subrange(dst, dst + size) == s.subrange(src, src + size),
        forall|k: int|
            src <= k < src + size && !(dst <= k < dst + size) ==> #[trigger] move_bytes(s, src, dst, size, fill)[k]
                == fill,
        forall|k: int|
            0 <= k < s.len() && !(src <= k < src + size) && !(dst <= k < dst + size) ==> #[trigger] move_bytes(
                s,
                src,
                dst,
                size,
                fill,
            )[k] == s[k],
{
    assert(move_bytes(s, src, dst, size, fill).subrange(dst, dst + size) =~= s.subrange(src, src + size));
}

} // verus!
