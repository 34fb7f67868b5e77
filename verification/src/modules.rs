//! FTPR module removal and partition relocation.
//!
//! Gen 2: `$MME` headers, optional Huffman via `LLUT` chunk table.
//! Gen 3: `$CPD` directory with per-module compression flags.
//! All offsets are ME-region-relative; `me_len` clamps every fill.
//!
//! Module names are compared as the bytes before their first NUL. The names
//! looked for are ASCII, and a UTF-8 decoding (lossy or not) turns ASCII bytes
//! into the same characters and nothing else into ASCII, so comparing the bytes
//! decides exactly what comparing the decoded names would.

use crate::bytes::{le16, le24, le32, le32_bytes, u24_le, u32_le};
use crate::error::{Error, Result};
use crate::region::{fill_seq, move_bytes, splice, Region};
use crate::text::{nul_len, nul_pos, nul_trim};
use vstd::prelude::*;

verus! {

pub const MIN_FTPR_OFFSET: usize = 0x400;

pub const SPARED_BLOCKS: usize = 4;

/// Offsets built from a few 32-bit fields on top of `n` stay far below the
/// largest `usize` and `i64`.
pub open spec fn headroom(n: int) -> bool {
    &&& 0 <= n
    &&& n + 0x100_0000_0000 <= usize::MAX
    &&& n + 0x100_0000_0000 <= 0x7fff_ffff_ffff_ffff
}

// ---------------------------------------------------------------------------
// Huffman chunk table (LLUT)

/// Number of chunk entries an LLUT declares.
pub open spec fn llut_count(llut: Seq<u8>) -> int {
    le32(llut, 4)
}

/// End of the Huffman stream (`u32` wrapping sum of two header fields).
pub open spec fn stream_end(llut: Seq<u8>) -> u32 {
    ((le32(llut, 0x10) + le32(llut, 0x14)) % 0x1_0000_0000) as u32
}

/// Start of chunk `i` (0 for an entry whose top byte is `0x80`).
pub open spec fn llut_chunk(llut: Seq<u8>, i: int) -> u32 {
    if llut[0x43 + 4 * i] != 0x80 {
        le24(llut, 0x40 + 4 * i) as u32
    } else {
        0
    }
}

/// `x` is the stream end or the start of a used chunk.
pub open spec fn is_boundary(llut: Seq<u8>, x: u32) -> bool {
    ||| x == stream_end(llut)
    ||| exists|i: int| 0 <= i < llut_count(llut) && #[trigger] llut_chunk(llut, i) != 0 && llut_chunk(llut, i) == x
}

/// How often `v` occurs among the stream end and the used starts of chunks `[0, k)`.
pub open spec fn boundary_count(llut: Seq<u8>, v: u32, k: int) -> int
    decreases k,
{
    if k <= 0 {
        if stream_end(llut) == v {
            1
        } else {
            0
        }
    } else {
        boundary_count(llut, v, k - 1) + if llut_chunk(llut, k - 1) != 0 && llut_chunk(llut, k - 1) == v {
            1int
        } else {
            0int
        }
    }
}

/// `x` is the smallest boundary above `v`.
pub open spec fn next_boundary(llut: Seq<u8>, v: u32, x: u32) -> bool {
    &&& is_boundary(llut, x)
    &&& x > v
    &&& forall|y: u32| #[trigger] is_boundary(llut, y) && y > v ==> x <= y
}

/// End of the chunk starting at `v`: the next boundary in sorted order, which
/// is `v` itself when `v` occurs twice.
pub open spec fn chunk_end(llut: Seq<u8>, v: u32) -> u32 {
    if boundary_count(llut, v, llut_count(llut)) >= 2 {
        v
    } else {
        choose|x: u32| next_boundary(llut, v, x)
    }
}

/// Every used chunk start has a next boundary (the table is not cut short).
pub open spec fn chunk_ends_defined(llut: Seq<u8>) -> bool {
    forall|i: int|
        0 <= i < llut_count(llut) && #[trigger] llut_chunk(llut, i) != 0 ==> (boundary_count(
            llut,
            llut_chunk(llut, i),
            llut_count(llut),
        ) >= 2 || exists|x: u32| #[trigger] is_boundary(llut, x) && x > llut_chunk(llut, i))
}

/// `(start, end)` of every chunk; `(0, 0)` for an unused one.
pub open spec fn chunk_offsets(llut: Seq<u8>) -> Seq<(u32, u32)> {
    Seq::new(
        llut_count(llut) as nat,
        |i: int|
            (llut_chunk(llut, i), if llut_chunk(llut, i) != 0 {
                chunk_end(llut, llut_chunk(llut, i))
            } else {
                0
            }),
    )
}

fn chunk_start(llut: &[u8], i: usize) -> (c: u32)
    requires
        0x44 + 4 * i <= llut@.len(),
    ensures
        c == llut_chunk(llut@, i as int),
{
    assert(llut@.len() == llut.len());
    if llut[0x43 + 4 * i] != 0x80 {
        u24_le(llut, 0x40 + 4 * i)
    } else {
        0
    }
}

/// `chunk_end(llut, v)` for a used start `v`, given the chunk starts.
fn end_of_chunk(llut: &[u8], starts: &Vec<u32>, hse: u32, v: u32) -> (r: u32)
    requires
        v != 0,
        hse == stream_end(llut@),
        starts@.len() == llut_count(llut@),
        forall|j: int| 0 <= j < starts@.len() ==> starts@[j] == llut_chunk(llut@, j),
        boundary_count(llut@, v, llut_count(llut@)) >= 2 || exists|x: u32|
            #[trigger] is_boundary(llut@, x) && x > v,
    ensures
        r == chunk_end(llut@, v),
{
    let ghost l = llut@;
    let n = starts.len();
    let mut count: u64 = if hse == v {
        1
    } else {
        0
    };
    let mut best: Option<u32> = if hse > v {
        Some(hse)
    } else {
        None
    };
    let mut j: usize = 0;
    while j < n
        invariant
            j <= n == starts@.len() == llut_count(l),
            forall|k: int| 0 <= k < starts@.len() ==> starts@[k] == llut_chunk(l, k),
            hse == stream_end(l),
            v != 0,
            count <= j + 1,
            count == boundary_count(l, v, j as int),
            match best {
                Some(b) => {
                    &&& b > v
                    &&& (b == hse || exists|i: int| 0 <= i < j && #[trigger] llut_chunk(l, i) != 0 && llut_chunk(l, i) == b)
                    &&& hse > v ==> b <= hse
                    &&& forall|i: int| 0 <= i < j && #[trigger] llut_chunk(l, i) != 0 && llut_chunk(l, i) > v ==> b <= llut_chunk(l, i)
                },
                None => {
                    &&& hse <= v
                    &&& forall|i: int| 0 <= i < j && #[trigger] llut_chunk(l, i) != 0 ==> llut_chunk(l, i) <= v
                },
            },
        decreases n - j,
    {
        let w = starts[j];
        assert(w == llut_chunk(l, j as int));
        let ghost old_best = best;
        if w != 0 {
            if w == v {
                count = count + 1;
            } else if w > v {
                best = match best {
                    Some(b) => if w < b {
                        Some(w)
                    } else {
                        Some(b)
                    },
                    None => Some(w),
                };
            }
        }
        proof {
            match best {
                Some(b) => {
                    if b != hse {
                        if b == w {
                            assert(0 <= j && llut_chunk(l, j as int) != 0 && llut_chunk(l, j as int) == b);
                        } else {
                            let i0 = choose|i: int| 0 <= i < j && #[trigger] llut_chunk(l, i) != 0 && llut_chunk(l, i) == b;
                            assert(0 <= i0 < j + 1);
                        }
                    }
                },
                None => {},
            }
        }
        j = j + 1;
    }
    if count >= 2 {
        return v;
    }
    proof {
        if best is None {
            let x = choose|x: u32| #[trigger] is_boundary(l, x) && x > v;
            assert(is_boundary(l, x) && x > v);
        }
    }
    let b = match best {
        Some(b) => b,
        None => v,
    };
    proof {
        assert(is_boundary(l, b));
        assert forall|y: u32| #[trigger] is_boundary(l, y) && y > v implies b <= y by {
            if y != hse {
                let i = choose|i: int| 0 <= i < llut_count(l) && #[trigger] llut_chunk(l, i) != 0 && llut_chunk(l, i) == y;
                assert(llut_chunk(l, i) > v);
            }
        }
        assert(next_boundary(l, v, b));
        let x = choose|x: u32| next_boundary(l, v, x);
        assert(next_boundary(l, v, x));
        assert(x <= b && b <= x);
    }
    b
}

/// `(start, end)` byte ranges of every Huffman chunk, derived from the LLUT.
fn get_chunks_offsets(llut: &[u8]) -> (r: Vec<(u32, u32)>)
    requires
        llut@.len() >= 0x40 + 4 * llut_count(llut@),
        llut@.len() >= 0x40,
        chunk_ends_defined(llut@),
    ensures
        r@ == chunk_offsets(llut@),
{
    let n = u32_le(llut, 0x4) as usize;
    let hse = ((u32_le(llut, 0x10) as u64 + u32_le(llut, 0x14) as u64) % 0x1_0000_0000) as u32;
    let mut starts: Vec<u32> = Vec::new();
    let mut i: usize = 0;
    while i < n
        invariant
            i <= n == llut_count(llut@),
            llut@.len() >= 0x40 + 4 * n,
            starts@.len() == i,
            forall|j: int| 0 <= j < i ==> starts@[j] == llut_chunk(llut@, j),
        decreases n - i,
    {
        starts.push(chunk_start(llut, i));
        i = i + 1;
    }
    let mut out: Vec<(u32, u32)> = Vec::new();
    let mut i: usize = 0;
    while i < n
        invariant
            i <= n == llut_count(llut@),
            hse == stream_end(llut@),
            chunk_ends_defined(llut@),
            starts@.len() == n,
            forall|j: int| 0 <= j < n ==> starts@[j] == llut_chunk(llut@, j),
            out@ == chunk_offsets(llut@).take(i as int),
        decreases n - i,
    {
        let v = starts[i];
        if v != 0 {
            assert(llut_chunk(llut@, i as int) != 0);
            let e = end_of_chunk(llut, &starts, hse, v);
            out.push((v, e));
        } else {
            out.push((0, 0));
        }
        i = i + 1;
        assert(out@ =~= chunk_offsets(llut@).take(i as int));
    }
    assert(chunk_offsets(llut@).take(n as int) =~= chunk_offsets(llut@));
    out
}

// ---------------------------------------------------------------------------
// Generation 2 module pass

/// `$MME`
pub const MME_TAG: [u8; 4] = [0x24, 0x4d, 0x4d, 0x45];

/// `LLUT`
pub const LLUT_TAG: [u8; 4] = [0x4c, 0x4c, 0x55, 0x54];

/// The result of a pass that may fail with an error, leaving the buffer as it
/// stood, or get stuck on an input that the firmware layout rules out.
pub enum Outcome<S> {
    Done(S),
    Failed(Error, Seq<u8>),
    Stuck,
}

/// Name of a `$MME` module header: the bytes of its name field up to the first NUL.
pub open spec fn gen2_name(h: Seq<u8>) -> Seq<u8> {
    nul_trim(h.subrange(4, 0x14))
}

/// `ROMP` and `BUP` are never removed.
pub open spec fn gen2_unremovable(name: Seq<u8>) -> bool {
    name == seq![0x52u8, 0x4f, 0x4d, 0x50] || name == seq![0x42u8, 0x55, 0x50]
}

/// Compression type of a `$MME` module (0 none, 1 Huffman, 2 LZMA).
pub open spec fn comp_type(h: Seq<u8>) -> int {
    (le32(h, 0x50) / 16) % 8
}

/// State carried across the module headers.
pub struct Gen2Pass {
    pub buf: Seq<u8>,
    pub end_addr: int,
    pub chunks: Seq<(u32, u32)>,
    pub huff: Seq<(u32, u32)>,
    pub base: u32,
    pub chunk_size: u32,
}

pub open spec fn gen2_start(buf: Seq<u8>) -> Gen2Pass {
    Gen2Pass { buf, end_addr: 0, chunks: seq![], huff: seq![], base: 0, chunk_size: 0 }
}

/// Filling `[start, end)` (region-relative) with `0xff`, as `Region::fill_range` does.
pub open spec fn fill_outcome(me: Region, buf: Seq<u8>, start: int, end: int) -> Outcome<Seq<u8>> {
    if start >= end {
        Outcome::Done(buf)
    } else if me.fits(start, end - start) {
        Outcome::Done(fill_seq(buf, me.start + start, me.start + end, 0xff))
    } else {
        Outcome::Failed(Error::OutOfRegion { offset: start as usize, len: (end - start) as usize }, buf)
    }
}

/// The LLUT bytes (header and chunk table) at region offset `off`.
pub open spec fn llut_read(me: Region, buf: Seq<u8>, off: int) -> Outcome<Seq<u8>> {
    let at = me.start + off;
    if !me.fits(off, 4) {
        Outcome::Failed(Error::OutOfRegion { offset: off as usize, len: 4 }, buf)
    } else if buf.subrange(at, at + 4) != LLUT_TAG@ {
        Outcome::Failed(Error::MissingLlut, buf)
    } else if !me.fits(off, 0x40) {
        Outcome::Failed(Error::OutOfRegion { offset: off as usize, len: 0x40 }, buf)
    } else {
        let n = le32(buf.subrange(at, at + 0x40), 4);
        if !me.fits(off + 0x40, n * 4) {
            Outcome::Failed(Error::OutOfRegion { offset: (off + 0x40) as usize, len: (n * 4) as usize }, buf)
        } else {
            Outcome::Done(buf.subrange(at, at + 0x40 + n * 4))
        }
    }
}

/// The used chunks among `cs`.
pub open spec fn used_chunks(cs: Seq<(u32, u32)>) -> Seq<(u32, u32)>
    decreases cs.len(),
{
    if cs.len() == 0 {
        seq![]
    } else {
        used_chunks(cs.drop_last()) + if cs.last().0 != 0 {
            seq![cs.last()]
        } else {
            seq![]
        }
    }
}

pub open spec fn max_int(a: int, b: int) -> int {
    if a >= b {
        a
    } else {
        b
    }
}

pub open spec fn min_int(a: int, b: int) -> int {
    if a <= b {
        a
    } else {
        b
    }
}

/// After a Huffman module's LLUT is known: the chunk range it covers is
/// recorded when the module is unremovable.
pub open spec fn gen2_huffman(s: Gen2Pass, h: Seq<u8>) -> Outcome<Gen2Pass> {
    let module_base = le32(h, 0x34);
    let module_size = le32(h, 0x3c);
    if module_base < s.base || s.chunk_size == 0 {
        Outcome::Stuck
    } else {
        let first = (module_base - s.base) / (s.chunk_size as int);
        let last = first + module_size / (s.chunk_size as int);
        if gen2_unremovable(gen2_name(h)) {
            if s.chunks.len() == 0 {
                Outcome::Stuck
            } else {
                let hi = min_int(last, s.chunks.len() - 1);
                if first > hi + 1 {
                    Outcome::Stuck
                } else {
                    Outcome::Done(
                        Gen2Pass { huff: s.huff + used_chunks(s.chunks.subrange(first, hi + 1)), ..s },
                    )
                }
            }
        } else {
            Outcome::Done(s)
        }
    }
}

/// One `$MME` header of the module pass.
#[verifier::opaque]
pub open spec fn gen2_step(me: Region, me_len: int, ftpr_offset: int, s: Gen2Pass, h: Seq<u8>) -> Outcome<Gen2Pass> {
    let offset = le32(h, 0x38) + ftpr_offset;
    let size = le32(h, 0x40);
    let comp = comp_type(h);
    if comp == 0 || comp == 2 {
        if gen2_unremovable(gen2_name(h)) {
            Outcome::Done(Gen2Pass { end_addr: max_int(s.end_addr, offset + size), ..s })
        } else {
            match fill_outcome(me, s.buf, offset, min_int(offset + size, me_len)) {
                Outcome::Done(b) => Outcome::Done(Gen2Pass { buf: b, ..s }),
                Outcome::Failed(e, b) => Outcome::Failed(e, b),
                Outcome::Stuck => Outcome::Stuck,
            }
        }
    } else if comp == 1 {
        if s.chunks.len() == 0 {
            match llut_read(me, s.buf, offset) {
                Outcome::Done(llut) => if chunk_ends_defined(llut) {
                    gen2_huffman(
                        Gen2Pass {
                            chunks: chunk_offsets(llut),
                            base: ((le32(llut, 8) + 0x1000_0000) % 0x1_0000_0000) as u32,
                            chunk_size: le32(llut, 0x30) as u32,
                            ..s
                        },
                        h,
                    )
                } else {
                    Outcome::Stuck
                },
                Outcome::Failed(e, b) => Outcome::Failed(e, b),
                Outcome::Stuck => Outcome::Stuck,
            }
        } else {
            gen2_huffman(s, h)
        }
    } else {
        Outcome::Done(s)
    }
}

/// The module pass over the headers `hs`, in order.
#[verifier::opaque]
pub open spec fn gen2_scan(me: Region, me_len: int, ftpr_offset: int, init: Gen2Pass, hs: Seq<Seq<u8>>) -> Outcome<Gen2Pass>
    decreases hs.len(),
{
    if hs.len() == 0 {
        Outcome::Done(init)
    } else {
        match gen2_scan(me, me_len, ftpr_offset, init, hs.drop_last()) {
            Outcome::Done(s) => gen2_step(me, me_len, ftpr_offset, s, hs.last()),
            Outcome::Failed(e, b) => Outcome::Failed(e, b),
            Outcome::Stuck => Outcome::Stuck,
        }
    }
}

/// The chunk overlaps an unremovable module's chunk.
pub open spec fn overlaps_kept(huff: Seq<(u32, u32)>, c: (u32, u32)) -> bool {
    exists|k: int|
        0 <= k < huff.len() && ((#[trigger] huff[k].0 <= c.0 && c.0 < huff[k].1) || (huff[k].0 < c.1
            && c.1 <= huff[k].1))
}

/// Clearing the first `k` chunks that no unremovable module needs.
#[verifier::opaque]
pub open spec fn clear_chunks(me: Region, me_len: int, buf: Seq<u8>, chunks: Seq<(u32, u32)>, huff: Seq<(u32, u32)>, k: int) -> Outcome<Seq<u8>>
    decreases k,
{
    if k <= 0 {
        Outcome::Done(buf)
    } else {
        match clear_chunks(me, me_len, buf, chunks, huff, k - 1) {
            Outcome::Done(b) => {
                let c = chunks[k - 1];
                if !overlaps_kept(huff, c) && c.1 > c.0 {
                    fill_outcome(me, b, c.0 as int, min_int(c.1 as int, me_len))
                } else {
                    Outcome::Done(b)
                }
            },
            Outcome::Failed(e, b) => Outcome::Failed(e, b),
            Outcome::Stuck => Outcome::Stuck,
        }
    }
}

/// Largest chunk end among `huff` (0 when empty).
pub open spec fn max_end(huff: Seq<(u32, u32)>) -> int
    decreases huff.len(),
{
    if huff.len() == 0 {
        0
    } else {
        max_int(max_end(huff.drop_last()), huff.last().1 as int)
    }
}

/// Gen-2 module removal: the buffer and the region-relative end of retained data.
pub open spec fn spec_remove_modules(me: Region, buf: Seq<u8>, hs: Seq<Seq<u8>>, ftpr_offset: int, me_len: int) -> Outcome<(Seq<u8>, int)> {
    match gen2_scan(me, me_len, ftpr_offset, gen2_start(buf), hs) {
        Outcome::Done(s) => if s.chunks.len() == 0 {
            Outcome::Done((s.buf, s.end_addr))
        } else {
            match clear_chunks(me, me_len, s.buf, s.chunks, s.huff, s.chunks.len() as int) {
                Outcome::Done(b) => Outcome::Done(
                    (b, if s.huff.len() > 0 {
                        max_int(s.end_addr, max_end(s.huff))
                    } else {
                        s.end_addr
                    }),
                ),
                Outcome::Failed(e, b) => Outcome::Failed(e, b),
                Outcome::Stuck => Outcome::Stuck,
            }
        },
        Outcome::Failed(e, b) => Outcome::Failed(e, b),
        Outcome::Stuck => Outcome::Stuck,
    }
}

proof fn lemma_scan_step(me: Region, me_len: int, fo: int, init: Gen2Pass, hs: Seq<Seq<u8>>, i: int)
    requires
        0 <= i < hs.len(),
    ensures
        gen2_scan(me, me_len, fo, init, hs.take(i + 1)) == match gen2_scan(me, me_len, fo, init, hs.take(i)) {
            Outcome::Done(s) => gen2_step(me, me_len, fo, s, hs[i]),
            Outcome::Failed(e, b) => Outcome::Failed(e, b),
            Outcome::Stuck => Outcome::<Gen2Pass>::Stuck,
        },
{
    reveal(gen2_scan);
    assert(hs.take(i + 1).drop_last() =~= hs.take(i));
}

proof fn lemma_scan_empty(me: Region, me_len: int, fo: int, init: Gen2Pass, hs: Seq<Seq<u8>>)
    ensures
        gen2_scan(me, me_len, fo, init, hs.take(0)) == Outcome::Done(init),
{
    reveal(gen2_scan);
    assert(hs.take(0) =~= Seq::<Seq<u8>>::empty());
}

proof fn lemma_scan_stops(me: Region, me_len: int, fo: int, init: Gen2Pass, hs: Seq<Seq<u8>>, i: int)
    requires
        0 <= i <= hs.len(),
        !(gen2_scan(me, me_len, fo, init, hs.take(i)) is Done),
    ensures
        gen2_scan(me, me_len, fo, init, hs) == gen2_scan(me, me_len, fo, init, hs.take(i)),
    decreases hs.len(),
{
    reveal(gen2_scan);
    if i == hs.len() {
        assert(hs.take(i) =~= hs);
    } else {
        assert(hs.drop_last().take(i) =~= hs.take(i));
        lemma_scan_stops(me, me_len, fo, init, hs.drop_last(), i);
    }
}

proof fn lemma_clear_stops(me: Region, me_len: int, buf: Seq<u8>, chunks: Seq<(u32, u32)>, huff: Seq<(u32, u32)>, k: int, n: int)
    requires
        0 <= k <= n,
        !(clear_chunks(me, me_len, buf, chunks, huff, k) is Done),
    ensures
        clear_chunks(me, me_len, buf, chunks, huff, n) == clear_chunks(me, me_len, buf, chunks, huff, k),
    decreases n - k,
{
    reveal(clear_chunks);
    if k < n {
        lemma_clear_stops(me, me_len, buf, chunks, huff, k, n - 1);
    }
}

proof fn lemma_clear_step(me: Region, me_len: int, buf: Seq<u8>, chunks: Seq<(u32, u32)>, huff: Seq<(u32, u32)>, k: int)
    requires
        0 <= k,
    ensures
        clear_chunks(me, me_len, buf, chunks, huff, k + 1) == match clear_chunks(me, me_len, buf, chunks, huff, k) {
            Outcome::Done(b) => {
                let c = chunks[k];
                if !overlaps_kept(huff, c) && c.1 > c.0 {
                    fill_outcome(me, b, c.0 as int, min_int(c.1 as int, me_len))
                } else {
                    Outcome::Done(b)
                }
            },
            Outcome::Failed(e, b) => Outcome::Failed(e, b),
            Outcome::Stuck => Outcome::<Seq<u8>>::Stuck,
        },
        clear_chunks(me, me_len, buf, chunks, huff, 0) == Outcome::<Seq<u8>>::Done(buf),
{
    reveal(clear_chunks);
}

/// The LLUT at region offset `off`, as `llut_read` describes it.
fn load_llut(me: &Region, buf: &[u8], off: usize) -> (r: Result<Vec<u8>>)
    requires
        me.inside(buf@.len() as int),
        headroom(me.start + off),
    ensures
        match llut_read(*me, buf@, off as int) {
            Outcome::Done(l) => r matches Ok(v) && v@ == l,
            Outcome::Failed(e, _) => r == Err::<Vec<u8>, Error>(e),
            Outcome::Stuck => false,
        },
{
    let tag = me.read(buf, off, 4)?;
    if !crate::text::is_tag(tag, LLUT_TAG) {
        return Err(Error::MissingLlut);
    }
    let head = me.read(buf, off, 0x40)?;
    let n = u32_le(head, 0x4) as usize;
    let table = me.read(buf, off + 0x40, n * 4)?;
    let mut llut = crate::bytes::copy_bytes(head);
    let mut k: usize = 0;
    while k < table.len()
        invariant
            k <= table@.len(),
            llut@ == head@ + table@.take(k as int),
        decreases table@.len() - k,
    {
        llut.push(table[k]);
        k = k + 1;
        assert(llut@ =~= head@ + table@.take(k as int));
    }
    proof {
        let at = me.start + off;
        assert(table@.take(k as int) =~= table@);
        assert(llut@ =~= buf@.subrange(at, at + 0x40 + n * 4));
    }
    Ok(llut)
}

/// The headers' bytes.
pub open spec fn headers_of(hs: Seq<&[u8]>) -> Seq<Seq<u8>> {
    hs.map_values(|h: &[u8]| h@)
}

/// Whether the `$MME` header `h` names an unremovable module.
fn gen2_keeps(h: &[u8]) -> (b: bool)
    requires
        h@.len() >= 0x14,
    ensures
        b == gen2_unremovable(gen2_name(h@)),
{
    let field = vstd::slice::slice_subrange(h, 4, 0x14);
    let n = nul_len(field);
    let name = vstd::slice::slice_subrange(field, 0, n);
    assert(name@ =~= gen2_name(h@));
    let romp: [u8; 4] = [0x52, 0x4f, 0x4d, 0x50];
    let bup: [u8; 3] = [0x42, 0x55, 0x50];
    let a = crate::text::bytes_eq(name, &romp);
    let b = crate::text::bytes_eq(name, &bup);
    assert(romp@ =~= seq![0x52u8, 0x4f, 0x4d, 0x50]);
    assert(bup@ =~= seq![0x42u8, 0x55, 0x50]);
    a || b
}

/// Whether chunk `c` overlaps one of `huff`.
fn overlaps_any(huff: &Vec<(u32, u32)>, c: (u32, u32)) -> (b: bool)
    ensures
        b == overlaps_kept(huff@, c),
{
    let mut k: usize = 0;
    while k < huff.len()
        invariant
            k <= huff@.len(),
            forall|j: int|
                0 <= j < k ==> !((#[trigger] huff@[j].0 <= c.0 && c.0 < huff@[j].1) || (huff@[j].0 < c.1
                    && c.1 <= huff@[j].1)),
        decreases huff@.len() - k,
    {
        let u = huff[k];
        if (u.0 <= c.0 && c.0 < u.1) || (u.0 < c.1 && c.1 <= u.1) {
            return true;
        }
        k = k + 1;
    }
    false
}

/// The exec side of `Gen2Pass` (the buffer is kept apart).
struct Gen2State {
    end_addr: usize,
    chunks: Vec<(u32, u32)>,
    huff: Vec<(u32, u32)>,
    base: u32,
    chunk_size: u32,
}

spec fn pass_of(buf: Seq<u8>, st: Gen2State) -> Gen2Pass {
    Gen2Pass {
        buf,
        end_addr: st.end_addr as int,
        chunks: st.chunks@,
        huff: st.huff@,
        base: st.base,
        chunk_size: st.chunk_size,
    }
}

/// The Huffman bookkeeping of one header once the LLUT is loaded.
fn gen2_huffman_exec(Ghost(b): Ghost<Seq<u8>>, h: &[u8], st: &mut Gen2State)
    requires
        h@.len() >= 0x54,
        usize::MAX >= 0x100_0000_0000,
        !(gen2_huffman(pass_of(b, *old(st)), h@) is Stuck),
    ensures
        gen2_huffman(pass_of(b, *old(st)), h@) == Outcome::Done(pass_of(b, *final(st))),
{
    let module_base = u32_le(h, 0x34);
    let module_size = u32_le(h, 0x3c);
    let first = ((module_base - st.base) / st.chunk_size) as usize;
    let last = first + (module_size / st.chunk_size) as usize;
    if gen2_keeps(h) {
        let hi = if last < st.chunks.len() - 1 {
            last
        } else {
            st.chunks.len() - 1
        };
        let stop = hi + 1;
        let ghost h0 = st.huff@;
        let mut k = first;
        assert(st.chunks@.subrange(first as int, first as int) =~= Seq::<(u32, u32)>::empty());
        assert(h0 + used_chunks(Seq::<(u32, u32)>::empty()) =~= h0);
        while k < stop
            invariant
                first <= k <= stop <= st.chunks@.len(),
                st.chunks@ == old(st).chunks@,
                st.base == old(st).base,
                st.chunk_size == old(st).chunk_size,
                st.end_addr == old(st).end_addr,
                st.huff@ == h0 + used_chunks(st.chunks@.subrange(first as int, k as int)),
            decreases stop - k,
        {
            let c = st.chunks[k];
            assert(st.chunks@.subrange(first as int, k + 1).drop_last() =~= st.chunks@.subrange(first as int, k as int));
            if c.0 != 0 {
                st.huff.push(c);
            }
            k = k + 1;
            assert(st.huff@ =~= h0 + used_chunks(st.chunks@.subrange(first as int, k as int)));
        }
    }
}

/// One `$MME` header of the module pass.
fn gen2_header(me: &Region, buf: &mut [u8], h: &[u8], ftpr_offset: usize, me_len: usize, st: &mut Gen2State) -> (r: Result<()>)
    requires
        me.inside(old(buf)@.len() as int),
        headroom(me.start + ftpr_offset + 0x4_0000_0000),
        headroom(me.start + me_len),
        h@.len() >= 0x54,
        old(st).end_addr <= ftpr_offset + 0x2_0000_0000,
        !(gen2_step(*me, me_len as int, ftpr_offset as int, pass_of(old(buf)@, *old(st)), h@) is Stuck),
    ensures
        final(st).end_addr <= ftpr_offset + 0x2_0000_0000,
        final(buf)@.len() == old(buf)@.len(),
        match gen2_step(*me, me_len as int, ftpr_offset as int, pass_of(old(buf)@, *old(st)), h@) {
            Outcome::Done(s) => r is Ok && pass_of(final(buf)@, *final(st)) == s,
            Outcome::Failed(e, b) => r == Err::<(), Error>(e) && final(buf)@ == b,
            Outcome::Stuck => false,
        },
{
    reveal(gen2_step);
    let offset = u32_le(h, 0x38) as usize + ftpr_offset;
    let size = u32_le(h, 0x40) as usize;
    let flags = u32_le(h, 0x50);
    let comp = (flags / 16) % 8;
    let ghost s0 = pass_of(buf@, *st);
    if comp == 0 || comp == 2 {
        if gen2_keeps(h) {
            if offset + size > st.end_addr {
                st.end_addr = offset + size;
            }
            assert(gen2_step(*me, me_len as int, ftpr_offset as int, s0, h@) == Outcome::Done(pass_of(buf@, *st)));
        } else {
            let end = if offset + size < me_len {
                offset + size
            } else {
                me_len
            };
            me.fill_range(buf, offset, end, 0xff)?;
            proof {
                if offset >= end {
                    crate::region::lemma_fill_empty(old(buf)@, me.start + offset, me.start + end, 0xff);
                }
            }
            assert(gen2_step(*me, me_len as int, ftpr_offset as int, s0, h@) == Outcome::Done(pass_of(buf@, *st)));
        }
    } else if comp == 1 {
        if st.chunks.len() == 0 {
            let llut = load_llut(me, buf, offset)?;
            assert(llut_read(*me, buf@, offset as int) == Outcome::Done(llut@));
            st.base = ((u32_le(&llut, 8) as u64 + 0x1000_0000) % 0x1_0000_0000) as u32;
            st.chunk_size = u32_le(&llut, 0x30);
            st.chunks = get_chunks_offsets(&llut);
        }
        let ghost s1 = pass_of(buf@, *st);
        assert(gen2_step(*me, me_len as int, ftpr_offset as int, s0, h@) == gen2_huffman(s1, h@));
        gen2_huffman_exec(Ghost(buf@), h, st);
        assert(gen2_step(*me, me_len as int, ftpr_offset as int, s0, h@) == Outcome::Done(pass_of(buf@, *st)));
    } else {
        assert(gen2_step(*me, me_len as int, ftpr_offset as int, s0, h@) == Outcome::Done(pass_of(buf@, *st)));
    }
    Ok(())
}

/// Fill every chunk that no unremovable module needs.
fn clear_unneeded_chunks(me: &Region, buf: &mut [u8], chunks: &Vec<(u32, u32)>, huff: &Vec<(u32, u32)>, me_len: usize) -> (r: Result<()>)
    requires
        me.inside(old(buf)@.len() as int),
        headroom(me.start + me_len),
    ensures
        final(buf)@.len() == old(buf)@.len(),
        match clear_chunks(*me, me_len as int, old(buf)@, chunks@, huff@, chunks@.len() as int) {
            Outcome::Done(b) => r is Ok && final(buf)@ == b,
            Outcome::Failed(e, b) => r == Err::<(), Error>(e) && final(buf)@ == b,
            Outcome::Stuck => false,
        },
{
    let ghost b0 = buf@;
    let ghost ml = me_len as int;
    let mut k: usize = 0;
    proof {
        lemma_clear_step(*me, ml, b0, chunks@, huff@, 0);
    }
    while k < chunks.len()
        invariant
            k <= chunks@.len(),
            me.inside(buf@.len() as int),
            buf@.len() == b0.len(),
            headroom(me.start + me_len),
            ml == me_len as int,
            b0 == old(buf)@,
            clear_chunks(*me, ml, b0, chunks@, huff@, k as int) == Outcome::<Seq<u8>>::Done(buf@),
        decreases chunks@.len() - k,
    {
        let c = chunks[k];
        proof {
            lemma_clear_step(*me, ml, b0, chunks@, huff@, k as int);
        }
        let ov = overlaps_any(huff, c);
        if !ov && c.1 > c.0 {
            let end = if (c.1 as usize) < me_len {
                c.1 as usize
            } else {
                me_len
            };
            let ghost before = buf@;
            match me.fill_range(buf, c.0 as usize, end, 0xff) {
                Ok(()) => {
                    proof {
                        if c.0 >= end {
                            crate::region::lemma_fill_empty(before, me.start + c.0, me.start + end, 0xff);
                        }
                    }
                },
                Err(e) => {
                    proof {
                        lemma_clear_stops(*me, ml, b0, chunks@, huff@, k + 1, chunks@.len() as int);
                    }
                    return Err(e);
                },
            }
        }
        k = k + 1;
    }
    Ok(())
}

/// Remove gen-2 modules; returns region-relative end of retained data.
fn remove_modules(me: &Region, buf: &mut [u8], mod_headers: &[&[u8]], ftpr_offset: usize, me_len: usize) -> (r: Result<usize>)
    requires
        me.inside(old(buf)@.len() as int),
        headroom(old(buf)@.len() as int),
        headroom(me.start + ftpr_offset + 0x4_0000_0000),
        headroom(me.start + me_len),
        forall|i: int| 0 <= i < mod_headers@.len() ==> (#[trigger] mod_headers@[i])@.len() >= 0x54,
        !(gen2_scan(*me, me_len as int, ftpr_offset as int, gen2_start(old(buf)@), headers_of(mod_headers@)) is Stuck),
    ensures
        final(buf)@.len() == old(buf)@.len(),
        r matches Ok(e) ==> e <= ftpr_offset + 0x2_0000_0000,
        match spec_remove_modules(*me, old(buf)@, headers_of(mod_headers@), ftpr_offset as int, me_len as int) {
            Outcome::Done(x) => r matches Ok(v) && v as int == x.1 && final(buf)@ == x.0,
            Outcome::Failed(e, b) => r == Err::<usize, Error>(e) && final(buf)@ == b,
            Outcome::Stuck => false,
        },
{
    let ghost hs = headers_of(mod_headers@);
    let ghost init = gen2_start(buf@);
    let ghost fo = ftpr_offset as int;
    let ghost ml = me_len as int;
    let n = mod_headers.len();
    let mut i: usize = 0;
    assert(hs.take(0) =~= Seq::<Seq<u8>>::empty());
    let mut st = Gen2State { end_addr: 0, chunks: Vec::new(), huff: Vec::new(), base: 0, chunk_size: 0 };
    proof {
        lemma_scan_empty(*me, ml, fo, init, hs);
        assert(pass_of(buf@, st) =~= init);
    }
    while i < n
        invariant
            i <= n == hs.len() == mod_headers@.len(),
            hs == headers_of(mod_headers@),
            forall|j: int| 0 <= j < mod_headers@.len() ==> (#[trigger] mod_headers@[j])@.len() >= 0x54,
            me.inside(buf@.len() as int),
            buf@.len() == old(buf)@.len(),
            headroom(buf@.len() as int),
            headroom(me.start + ftpr_offset + 0x4_0000_0000),
            headroom(me.start + me_len),
            ml == me_len as int,
            fo == ftpr_offset as int,
            init == gen2_start(old(buf)@),
            !(gen2_scan(*me, ml, fo, init, hs) is Stuck),
            gen2_scan(*me, ml, fo, init, hs.take(i as int)) == Outcome::Done(pass_of(buf@, st)),
            st.end_addr <= ftpr_offset + 0x2_0000_0000,
        decreases n - i,
    {
        let h: &[u8] = mod_headers[i];
        proof {
            lemma_scan_step(*me, ml, fo, init, hs, i as int);
            assert(hs[i as int] == h@);
            if gen2_step(*me, ml, fo, pass_of(buf@, st), h@) is Stuck {
                lemma_scan_stops(*me, ml, fo, init, hs, i + 1);
            }
        }
        match gen2_header(me, buf, h, ftpr_offset, me_len, &mut st) {
            Ok(()) => {},
            Err(e) => {
                proof {
                    lemma_scan_stops(*me, ml, fo, init, hs, i + 1);
                }
                return Err(e);
            },
        }
        i = i + 1;
    }
    let mut end_addr = st.end_addr;
    let chunks = st.chunks;
    let huff = st.huff;
    assert(hs.take(n as int) =~= hs);
    if chunks.len() > 0 {
        clear_unneeded_chunks(me, buf, &chunks, &huff, me_len)?;
        let mut mx: u32 = 0;
        let mut j: usize = 0;
        while j < huff.len()
            invariant
                j <= huff@.len(),
                mx == max_end(huff@.take(j as int)),
            decreases huff@.len() - j,
        {
            assert(huff@.take(j + 1).drop_last() =~= huff@.take(j as int));
            if huff[j].1 > mx {
                mx = huff[j].1;
            }
            j = j + 1;
        }
        assert(huff@.take(j as int) =~= huff@);
        if huff.len() > 0 && mx as usize > end_addr {
            end_addr = mx as usize;
        }
    }
    Ok(end_addr)
}

// ---------------------------------------------------------------------------
// Partition relocation

/// The module-offset field of the first Huffman-compressed header.
pub open spec fn first_llut_field(hs: Seq<Seq<u8>>) -> Option<int>
    decreases hs.len(),
{
    if hs.len() == 0 {
        None
    } else if comp_type(hs[0]) == 1 {
        Some(le32(hs[0], 0x38))
    } else {
        first_llut_field(hs.drop_first())
    }
}

/// Byte `r` (0, 1 or 2) of a 24-bit value.
pub open spec fn byte24(v: int, r: int) -> u8 {
    if r == 0 {
        (v % 0x100) as u8
    } else if r == 1 {
        ((v / 0x100) % 0x100) as u8
    } else {
        ((v / 0x1_0000) % 0x100) as u8
    }
}

/// A chunk table with every used 24-bit start moved by `diff` (modulo 2^24).
pub open spec fn shifted_table(t: Seq<u8>, diff: int) -> Seq<u8> {
    Seq::new(
        t.len(),
        |j: int|
            {
                let g = j / 4 * 4;
                if j % 4 < 3 && t[g + 3] != 0x80 {
                    byte24((le24(t, g) + diff) % 0x100_0000, j % 4)
                } else {
                    t[j]
                }
            },
    )
}

/// `x` as a 32-bit field (two's complement wrap).
pub open spec fn wrap32(x: int) -> u32 {
    (x % 0x1_0000_0000) as u32
}

/// Moving the LLUT pointers at region offset `ls` by `diff` bytes.
#[verifier::opaque]
pub open spec fn llut_fix(me: Region, buf: Seq<u8>, ls: int, diff: int, corr: int) -> Outcome<Seq<u8>> {
    let a = me.start + ls;
    if !me.fits(ls, 4) {
        Outcome::Failed(Error::OutOfRegion { offset: ls as usize, len: 4 }, buf)
    } else if buf.subrange(a, a + 4) != LLUT_TAG@ {
        Outcome::Failed(Error::MissingLlutRelocate, buf)
    } else if !me.fits(ls + 0xc, 4) {
        Outcome::Failed(Error::OutOfRegion { offset: (ls + 0xc) as usize, len: 4 }, buf)
    } else {
        let b2 = splice(buf, a + 0xc, le32_bytes(wrap32(ls + diff + 0x40 - corr)));
        if !me.fits(ls + 0x14, 4) {
            Outcome::Failed(Error::OutOfRegion { offset: (ls + 0x14) as usize, len: 4 }, b2)
        } else {
            let b3 = splice(b2, a + 0x14, le32_bytes(wrap32(le32(b2, a + 0x14) + diff)));
            if !me.fits(ls + 4, 4) {
                Outcome::Failed(Error::OutOfRegion { offset: (ls + 4) as usize, len: 4 }, b3)
            } else {
                let n = le32(b3, a + 4);
                if !me.fits(ls + 0x40, n * 4) {
                    Outcome::Failed(Error::OutOfRegion { offset: (ls + 0x40) as usize, len: (n * 4) as usize }, b3)
                } else {
                    Outcome::Done(splice(b3, a + 0x40, shifted_table(b3.subrange(a + 0x40, a + 0x40 + n * 4), diff)))
                }
            }
        }
    }
}

/// Where a partition that asked for `new` lands: no lower than the LLUT's
/// own correction allows, rounded up to 32 bytes.
pub open spec fn relocation_target(corr: int, ls: int, old: int, new: int) -> int {
    let min_new = corr - ls - 0x40 + old;
    let n1 = if min_new > new {
        min_new
    } else {
        new
    };
    (n1 + 0x1f) / 0x20 * 0x20
}

/// Relocating the partition whose FPT entry is at `ph` to `new_offset`:
/// the buffer and the offset it ends up at.
pub open spec fn spec_relocate(me: Region, buf: Seq<u8>, me_len: int, ph: int, new_offset: int, hs: Seq<Seq<u8>>) -> Outcome<(Seq<u8>, int)> {
    let at = me.start + ph;
    if !me.fits(ph + 8, 4) {
        Outcome::Failed(Error::OutOfRegion { offset: (ph + 8) as usize, len: 4 }, buf)
    } else if !me.fits(ph + 0xc, 4) {
        Outcome::Failed(Error::OutOfRegion { offset: (ph + 0xc) as usize, len: 4 }, buf)
    } else {
        let old = le32(buf, at + 8);
        let psize = le32(buf, at + 0xc);
        let ls = match first_llut_field(hs) {
            Some(x) => x + old,
            None => 0,
        };
        let has = hs.len() > 0 && ls != 0;
        if has && !me.fits(ls + 9, 2) {
            Outcome::Failed(Error::OutOfRegion { offset: (ls + 9) as usize, len: 2 }, buf)
        } else {
            let corr = if has {
                le16(buf, me.start + ls + 9)
            } else {
                0
            };
            let n2 = if has {
                relocation_target(corr, ls, old, new_offset)
            } else {
                new_offset
            };
            let diff = n2 - old;
            let b1 = splice(buf, at + 8, le32_bytes(wrap32(n2)));
            let fixed = if has {
                llut_fix(me, b1, ls, diff, corr)
            } else {
                Outcome::Done(b1)
            };
            match fixed {
                Outcome::Done(b4) => if old > me_len {
                    Outcome::Stuck
                } else {
                    let size = min_int(psize, me_len - old);
                    if !me.fits(old, size) {
                        Outcome::Failed(Error::OutOfRegion { offset: old as usize, len: size as usize }, b4)
                    } else if !me.fits(n2, size) {
                        Outcome::Failed(Error::OutOfRegion { offset: n2 as usize, len: size as usize }, b4)
                    } else {
                        Outcome::Done((move_bytes(b4, me.start + old, me.start + n2, size, 0xff), n2))
                    }
                },
                Outcome::Failed(e, b) => Outcome::Failed(e, b),
                Outcome::Stuck => Outcome::Stuck,
            }
        }
    }
}

proof fn lemma_neg_mod(x: int, m: int)
    requires
        x < 0,
        m > 0,
    ensures
        x % m == (if (-x) % m == 0 {
            0
        } else {
            m - (-x) % m
        }),
{
    let q = (-x) / m;
    let r = (-x) % m;
    vstd::arithmetic::div_mod::lemma_fundamental_div_mod(-x, m);
    assert(0 <= r < m) by {
        vstd::arithmetic::div_mod::lemma_mod_bound(-x, m);
    }
    if r == 0 {
        assert(x == (-q) * m + 0) by (nonlinear_arith)
            requires
                -x == m * q + r,
                r == 0,
        ;
        vstd::arithmetic::div_mod::lemma_fundamental_div_mod_converse(x, m, -q, 0);
    } else {
        assert(x == (-q - 1) * m + (m - r)) by (nonlinear_arith)
            requires
                -x == m * q + r,
        ;
        vstd::arithmetic::div_mod::lemma_fundamental_div_mod_converse(x, m, -q - 1, m - r);
    }
}

/// `x mod m` (the non-negative remainder).
fn wrap_mod(x: i64, m: i64) -> (r: i64)
    requires
        0 < m,
        x > i64::MIN,
    ensures
        r == (x as int) % (m as int),
        0 <= r < m,
{
    if x >= 0 {
        ((x as u64) % (m as u64)) as i64
    } else {
        let q = (((-x) as u64) % (m as u64)) as i64;
        proof {
            lemma_neg_mod(x as int, m as int);
        }
        if q == 0 {
            0
        } else {
            m - q
        }
    }
}

/// The module-offset field of the first Huffman-compressed header.
fn first_llut(mod_headers: &[&[u8]]) -> (r: Option<u32>)
    requires
        forall|i: int| 0 <= i < mod_headers@.len() ==> (#[trigger] mod_headers@[i])@.len() >= 0x54,
    ensures
        match r {
            Some(y) => first_llut_field(headers_of(mod_headers@)) == Some(y as int),
            None => first_llut_field(headers_of(mod_headers@)) is None,
        },
{
    let ghost hs = headers_of(mod_headers@);
    let mut i: usize = 0;
    assert(hs.skip(0) =~= hs);
    while i < mod_headers.len()
        invariant
            i <= mod_headers@.len() == hs.len(),
            hs == headers_of(mod_headers@),
            forall|j: int| 0 <= j < mod_headers@.len() ==> (#[trigger] mod_headers@[j])@.len() >= 0x54,
            first_llut_field(hs) == first_llut_field(hs.skip(i as int)),
        decreases mod_headers@.len() - i,
    {
        let h: &[u8] = mod_headers[i];
        let flags = u32_le(h, 0x50);
        proof {
            let t = hs.skip(i as int);
            assert(t[0] == h@);
            assert(t.drop_first() =~= hs.skip(i + 1));
        }
        if (flags / 16) % 8 == 1 {
            return Some(u32_le(h, 0x38));
        }
        i = i + 1;
    }
    assert(hs.skip(i as int) =~= Seq::<Seq<u8>>::empty());
    None
}

/// Move every used 24-bit start of a chunk table by `diff`.
fn shift_table(t: &mut Vec<u8>, diff: i64)
    requires
        old(t)@.len() % 4 == 0,
        -0x1_0000_0000_0000 < diff < 0x7fff_ff80_0000_0000,
    ensures
        final(t)@ == shifted_table(old(t)@, diff as int),
{
    let ghost t0 = t@;
    let n = t.len();
    let mut i: usize = 0;
    while i < n
        invariant
            n == t@.len() == t0.len(),
            n % 4 == 0,
            i % 4 == 0,
            i <= n,
            -0x1_0000_0000_0000 < diff < 0x7fff_ff80_0000_0000,
            forall|j: int| 0 <= j < n ==> #[trigger] t@[j] == (if j < i {
                shifted_table(t0, diff as int)[j]
            } else {
                t0[j]
            }),
        decreases n - i,
    {
        assert(t@[i + 3] == t0[i + 3]);
        if t[i + 3] != 0x80 {
            let old24 = t[i] as i64 + (t[i + 1] as i64) * 0x100 + (t[i + 2] as i64) * 0x1_0000;
            let v = wrap_mod(old24 + diff, 0x100_0000);
            proof {
                assert(old24 == le24(t0, i as int));
            }
            t.set(i, (v % 0x100) as u8);
            t.set(i + 1, ((v / 0x100) % 0x100) as u8);
            t.set(i + 2, ((v / 0x1_0000) % 0x100) as u8);
            proof {
                assert forall|j: int| i <= j < i + 4 implies #[trigger] t@[j] == shifted_table(t0, diff as int)[j] by {
                    assert(j / 4 * 4 == i);
                }
            }
        } else {
            proof {
                assert forall|j: int| i <= j < i + 4 implies #[trigger] t@[j] == shifted_table(t0, diff as int)[j] by {
                    assert(j / 4 * 4 == i);
                }
            }
        }
        i = i + 4;
    }
    assert(t@ =~= shifted_table(t0, diff as int));
}

/// Move the LLUT pointers at region offset `ls` by `diff` bytes.
#[verifier::rlimit(40)]
fn fix_llut(me: &Region, buf: &mut [u8], ls: usize, diff: i64, corr: u16) -> (r: Result<()>)
    requires
        me.inside(old(buf)@.len() as int),
        headroom(old(buf)@.len() as int),
        ls <= 0x2_0000_0000,
        -0x1_0000_0000_0000 < diff < 0x7fff_ff80_0000_0000,
    ensures
        final(buf)@.len() == old(buf)@.len(),
        match llut_fix(*me, old(buf)@, ls as int, diff as int, corr as int) {
            Outcome::Done(b) => r is Ok && final(buf)@ == b,
            Outcome::Failed(e, b) => r == Err::<(), Error>(e) && final(buf)@ == b,
            Outcome::Stuck => false,
        },
{
    reveal(llut_fix);
    let tag = me.read(buf, ls, 4)?;
    if !crate::text::is_tag(tag, LLUT_TAG) {
        return Err(Error::MissingLlutRelocate);
    }
    let lut_offset = wrap_mod(ls as i64 + diff + 0x40 - corr as i64, 0x1_0000_0000) as u32;
    me.write_u32(buf, ls + 0xc, lut_offset)?;
    let old_huff = me.read_u32(buf, ls + 0x14)? as i64;
    me.write_u32(buf, ls + 0x14, wrap_mod(old_huff + diff, 0x1_0000_0000) as u32)?;
    let chunk_count = me.read_u32(buf, ls + 0x4)? as usize;
    let table = me.read(buf, ls + 0x40, chunk_count * 4)?;
    let mut chunks = crate::bytes::copy_bytes(table);
    shift_table(&mut chunks, diff);
    me.write(buf, ls + 0x40, &chunks)?;
    Ok(())
}

/// Relocate partition (FPT entry at `ph_offset`) to `new_offset`, fixing FPT and LLUT pointers; returns final offset.
#[verifier::rlimit(40)]
pub fn relocate_partition(
    me: &Region,
    buf: &mut [u8],
    me_len: usize,
    ph_offset: usize,
    new_offset: usize,
    mod_headers: &[&[u8]],
) -> (r: Result<usize>)
    requires
        me.inside(old(buf)@.len() as int),
        headroom(old(buf)@.len() as int),
        headroom(me.start + me_len),
        headroom(me.start + ph_offset),
        headroom(me.start + new_offset),
        forall|i: int| 0 <= i < mod_headers@.len() ==> (#[trigger] mod_headers@[i])@.len() >= 0x54,
        !(spec_relocate(*me, old(buf)@, me_len as int, ph_offset as int, new_offset as int, headers_of(mod_headers@)) is Stuck),
    ensures
        final(buf)@.len() == old(buf)@.len(),
        r matches Ok(n) ==> n <= new_offset + 0x2_0000_0000,
        match spec_relocate(*me, old(buf)@, me_len as int, ph_offset as int, new_offset as int, headers_of(mod_headers@)) {
            Outcome::Done(x) => r matches Ok(v) && v as int == x.1 && final(buf)@ == x.0,
            Outcome::Failed(e, b) => r == Err::<usize, Error>(e) && final(buf)@ == b,
            Outcome::Stuck => false,
        },
{
    let old_offset = me.read_u32(buf, ph_offset + 0x8)? as usize;
    let partition_size = me.read_u32(buf, ph_offset + 0xc)? as usize;
    let first = first_llut(mod_headers);
    let llut_start: usize = match first {
        Some(x) => x as usize + old_offset,
        None => 0,
    };
    let has = mod_headers.len() > 0 && llut_start != 0;
    let mut lut_start_corr: u16 = 0;
    let mut target = new_offset;
    if has {
        lut_start_corr = me.read_u16(buf, llut_start + 0x9)?;
        let min_new = lut_start_corr as i64 - llut_start as i64 - 0x40 + old_offset as i64;
        if min_new > target as i64 {
            target = min_new as usize;
        }
        let t0 = target;
        assert((t0 + 0x1f) / 0x20 * 0x20 <= t0 + 0x1f) by (nonlinear_arith);
        target = (target + 0x1f) / 0x20 * 0x20;
    }
    let offset_diff = target as i64 - old_offset as i64;
    me.write_u32(buf, ph_offset + 0x8, ((target as u64) % 0x1_0000_0000) as u32)?;
    if has {
        fix_llut(me, buf, llut_start, offset_diff, lut_start_corr)?;
    }
    let room = me_len - old_offset;
    let size = if partition_size < room {
        partition_size
    } else {
        room
    };
    me.move_range(buf, old_offset, size, target, 0xff)?;
    Ok(target)
}

// ---------------------------------------------------------------------------
// Module passes

/// Module pass result. `end_addr == None`: header size undetermined, removal skipped.
pub struct ModuleResult {
    pub end_addr: Option<usize>,
    pub ftpr_offset: usize,
}

/// Size of one `$MME` header, judged from the first headers (0: unknown).
pub open spec fn mme_header_size(probe: Seq<u8>, num_modules: int) -> int {
    if probe.subrange(0, 4) == MME_TAG@ {
        if probe.subrange(0x60, 0x64) == MME_TAG@ || num_modules == 1 {
            0x60
        } else if probe.subrange(0x80, 0x84) == MME_TAG@ {
            0x80
        } else {
            0
        }
    } else {
        0
    }
}

/// `n` consecutive headers of `size` bytes.
pub open spec fn split_headers(data: Seq<u8>, size: int, n: int) -> Seq<Seq<u8>> {
    Seq::new(n as nat, |i: int| data.subrange(i * size, (i + 1) * size))
}

/// Every header starts with `$MME`.
pub open spec fn all_mme(hs: Seq<Seq<u8>>) -> bool {
    forall|i: int| 0 <= i < hs.len() ==> (#[trigger] hs[i]).subrange(0, 4) == MME_TAG@
}

/// After the removal step: relocation when asked for, the end of retained
/// data moving with the partition.
pub open spec fn then_relocate(
    me: Region,
    removed: Outcome<(Seq<u8>, int)>,
    me_len: int,
    offset: int,
    min_offset: int,
    relocate: bool,
    ph_offset: int,
    hs: Seq<Seq<u8>>,
) -> Outcome<(Seq<u8>, Option<int>, int)> {
    match removed {
        Outcome::Done(x) => if relocate {
            match spec_relocate(me, x.0, me_len, ph_offset, min_offset, hs) {
                Outcome::Done(y) => if x.1 + y.1 - offset < 0 {
                    Outcome::Stuck
                } else {
                    Outcome::Done((y.0, Some(x.1 + y.1 - offset), y.1))
                },
                Outcome::Failed(e, b) => Outcome::Failed(e, b),
                Outcome::Stuck => Outcome::Stuck,
            }
        } else {
            Outcome::Done((x.0, Some(x.1), offset))
        },
        Outcome::Failed(e, b) => Outcome::Failed(e, b),
        Outcome::Stuck => Outcome::Stuck,
    }
}

/// The generation 2 module pass: buffer, end of retained data (if the header
/// size was found) and the partition's final offset.
#[verifier::opaque]
pub open spec fn spec_gen2_pass(
    me: Region,
    buf: Seq<u8>,
    me_len: int,
    offset: int,
    ftpr_length: int,
    min_offset: int,
    relocate: bool,
    keep_modules: bool,
    ph_offset: int,
) -> Outcome<(Seq<u8>, Option<int>, int)> {
    let at = me.start + offset;
    if !me.fits(offset + 0x20, 4) {
        Outcome::Failed(Error::OutOfRegion { offset: (offset + 0x20) as usize, len: 4 }, buf)
    } else if !me.fits(offset + 0x290, 0x84) {
        Outcome::Failed(Error::OutOfRegion { offset: (offset + 0x290) as usize, len: 0x84 }, buf)
    } else {
        let n = le32(buf, at + 0x20);
        let size = mme_header_size(buf.subrange(at + 0x290, at + 0x290 + 0x84), n);
        if size == 0 {
            Outcome::Done((buf, None, offset))
        } else if !me.fits(offset + 0x290, size * n) {
            Outcome::Failed(Error::OutOfRegion { offset: (offset + 0x290) as usize, len: (size * n) as usize }, buf)
        } else {
            let hs = split_headers(buf.subrange(at + 0x290, at + 0x290 + size * n), size, n);
            if !all_mme(hs) {
                Outcome::Done((buf, None, offset))
            } else {
                let removed = if keep_modules {
                    Outcome::Done((buf, offset + ftpr_length))
                } else {
                    spec_remove_modules(me, buf, hs, offset, me_len)
                };
                then_relocate(me, removed, me_len, offset, min_offset, relocate, ph_offset, hs)
            }
        }
    }
}

/// The headers of `data`, `size` bytes each.
fn header_slices<'a>(data: &'a Vec<u8>, size: usize, n: usize) -> (r: Vec<&'a [u8]>)
    requires
        size * n <= data@.len(),
    ensures
        headers_of(r@) == split_headers(data@, size as int, n as int),
        forall|i: int| 0 <= i < r@.len() ==> (#[trigger] r@[i])@.len() == size,
{
    let mut r: Vec<&[u8]> = Vec::new();
    let mut i: usize = 0;
    assert(data@.len() == data.len());
    while i < n
        invariant
            i <= n,
            size * n <= data@.len() <= usize::MAX,
            r@.len() == i,
            forall|k: int| 0 <= k < i ==> (#[trigger] r@[k])@ == data@.subrange(k * size, (k + 1) * size),
            forall|k: int| 0 <= k < i ==> (#[trigger] r@[k])@.len() == size,
        decreases n - i,
    {
        assert((i + 1) * size <= n * size) by (nonlinear_arith)
            requires
                i < n,
        ;
        assert(i * size + size == (i + 1) * size) by (nonlinear_arith);
        assert(0 <= i * size) by (nonlinear_arith);
        let h = vstd::slice::slice_subrange(data.as_slice(), i * size, i * size + size);
        r.push(h);
        i = i + 1;
    }
    assert(headers_of(r@) =~= split_headers(data@, size as int, n as int));
    r
}

/// Whether every header starts with `$MME`.
fn all_start_mme(hs: &Vec<&[u8]>) -> (b: bool)
    requires
        forall|i: int| 0 <= i < hs@.len() ==> (#[trigger] hs@[i])@.len() >= 4,
    ensures
        b == all_mme(headers_of(hs@)),
{
    let ghost v = headers_of(hs@);
    let mut i: usize = 0;
    while i < hs.len()
        invariant
            i <= hs@.len(),
            v == headers_of(hs@),
            forall|k: int| 0 <= k < hs@.len() ==> (#[trigger] hs@[k])@.len() >= 4,
            forall|k: int| 0 <= k < i ==> (#[trigger] v[k]).subrange(0, 4) == MME_TAG@,
        decreases hs@.len() - i,
    {
        let h: &[u8] = hs[i];
        let t = crate::text::has_tag(h, 0, MME_TAG);
        assert(v[i as int] == h@);
        if !t {
            assert(!crate::text::tag_at(h@, 0, MME_TAG));
            return false;
        }
        i = i + 1;
    }
    true
}

/// Generation 2 (`$MME`) module pass.
#[verifier::rlimit(40)]
pub fn check_and_remove_modules(
    me: &Region,
    buf: &mut [u8],
    me_len: usize,
    offset: usize,
    ftpr_length: usize,
    min_offset: usize,
    relocate: bool,
    keep_modules: bool,
    ph_offset: usize,
) -> (r: Result<ModuleResult>)
    requires
        me.inside(old(buf)@.len() as int),
        headroom(old(buf)@.len() as int),
        headroom(me.start + me_len),
        headroom(me.start + offset + 0x4_0000_0000),
        headroom(offset + ftpr_length),
        headroom(me.start + ph_offset),
        headroom(me.start + min_offset),
        !(spec_gen2_pass(*me, old(buf)@, me_len as int, offset as int, ftpr_length as int, min_offset as int, relocate, keep_modules, ph_offset as int) is Stuck),
    ensures
        final(buf)@.len() == old(buf)@.len(),
        match spec_gen2_pass(*me, old(buf)@, me_len as int, offset as int, ftpr_length as int, min_offset as int, relocate, keep_modules, ph_offset as int) {
            Outcome::Done(x) => r matches Ok(m) && final(buf)@ == x.0 && m.ftpr_offset as int == x.2 && match x.1 {
                Some(e) => m.end_addr matches Some(v) && v as int == e,
                None => m.end_addr is None,
            },
            Outcome::Failed(e, b) => r matches Err(err) && err == e && final(buf)@ == b,
            Outcome::Stuck => false,
        },
{
    reveal(spec_gen2_pass);
    let ghost b0 = buf@;
    let ghost at = me.start + offset;
    let num_modules = me.read_u32(buf, offset + 0x20)? as usize;
    let probe = crate::bytes::copy_bytes(me.read(buf, offset + 0x290, 0x84)?);
    let mut mod_header_size: usize = 0;
    if crate::text::has_tag(&probe, 0, MME_TAG) {
        if crate::text::has_tag(&probe, 0x60, MME_TAG) || num_modules == 1 {
            mod_header_size = 0x60;
        } else if crate::text::has_tag(&probe, 0x80, MME_TAG) {
            mod_header_size = 0x80;
        }
    }
    assert(mod_header_size == mme_header_size(probe@, num_modules as int));
    if mod_header_size == 0 {
        return Ok(ModuleResult { end_addr: None, ftpr_offset: offset });
    }
    let data = crate::bytes::copy_bytes(me.read(buf, offset + 0x290, mod_header_size * num_modules)?);
    let mod_headers = header_slices(&data, mod_header_size, num_modules);
    let ghost hs = headers_of(mod_headers@);
    assert(hs == split_headers(b0.subrange(at + 0x290, at + 0x290 + mod_header_size * num_modules), mod_header_size as int, num_modules as int));
    if !all_start_mme(&mod_headers) {
        // Fewer modules than expected; skip removal.
        return Ok(ModuleResult { end_addr: None, ftpr_offset: offset });
    }
    let ghost removed = if keep_modules {
        Outcome::Done((b0, offset + ftpr_length))
    } else {
        spec_remove_modules(*me, b0, hs, offset as int, me_len as int)
    };
    assert(spec_gen2_pass(*me, b0, me_len as int, offset as int, ftpr_length as int, min_offset as int, relocate, keep_modules, ph_offset as int)
        == then_relocate(*me, removed, me_len as int, offset as int, min_offset as int, relocate, ph_offset as int, hs));
    let mut end_addr = if keep_modules {
        offset + ftpr_length
    } else {
        remove_modules(me, buf, &mod_headers, offset, me_len)?
    };
    assert(removed == Outcome::Done((buf@, end_addr as int)));
    let ghost removed_buf = buf@;
    let mut offset = offset;
    if relocate {
        let new_offset = relocate_partition(me, buf, me_len, ph_offset, min_offset, &mod_headers)?;
        assert(spec_relocate(*me, removed_buf, me_len as int, ph_offset as int, min_offset as int, hs) == Outcome::Done((buf@, new_offset as int)));
        end_addr = end_addr + new_offset - offset;
        offset = new_offset;
    }
    Ok(ModuleResult { end_addr: Some(end_addr), ftpr_offset: offset })
}

// ---------------------------------------------------------------------------
// Generation 3 module pass

/// A `$CPD` directory entry: name and offset within the partition.
pub struct Gen3Mod {
    pub name: Seq<u8>,
    pub off: int,
}

/// The directory entry whose 0x18 bytes start at `at`.
pub open spec fn gen3_entry(b: Seq<u8>, at: int) -> Gen3Mod {
    Gen3Mod { name: nul_trim(b.subrange(at, at + 0xc)), off: le32(b, at + 0xc) % 0x200_0000 }
}

/// The pseudo-entry marking the end of the partition.
pub open spec fn end_mod(partition_length: int) -> Gen3Mod {
    Gen3Mod { name: seq![0x65u8, 0x6e, 0x64], off: partition_length }
}

/// Reading the first `k` directory entries of the partition at `po`.
pub open spec fn gen3_read(me: Region, buf: Seq<u8>, po: int, k: int) -> Outcome<Seq<Gen3Mod>>
    decreases k,
{
    if k <= 0 {
        Outcome::Done(seq![])
    } else {
        match gen3_read(me, buf, po, k - 1) {
            Outcome::Done(ms) => {
                let o = po + 0x10 + (k - 1) * 0x18;
                if me.fits(o, 0x18) {
                    Outcome::Done(ms.push(gen3_entry(buf, me.start + o)))
                } else {
                    Outcome::Failed(Error::OutOfRegion { offset: o as usize, len: 0x18 }, buf)
                }
            },
            Outcome::Failed(e, b) => Outcome::Failed(e, b),
            Outcome::Stuck => Outcome::Stuck,
        }
    }
}

pub open spec fn bytes_end_with(s: Seq<u8>, t: Seq<u8>) -> bool {
    t.len() <= s.len() && s.subrange(s.len() - t.len(), s.len() as int) == t
}

pub open spec fn bytes_start_with(s: Seq<u8>, t: Seq<u8>) -> bool {
    t.len() <= s.len() && s.subrange(0, t.len() as int) == t
}

/// Manifests (`.man`), metadata (`.met`) and the core modules (`rbe`,
/// `kernel`, `syslib`, `bup` and what begins so) are never removed.
pub open spec fn gen3_keep(name: Seq<u8>) -> bool {
    ||| bytes_end_with(name, seq![0x2eu8, 0x6d, 0x61, 0x6e])
    ||| bytes_end_with(name, seq![0x2eu8, 0x6d, 0x65, 0x74])
    ||| bytes_start_with(name, seq![0x72u8, 0x62, 0x65])
    ||| bytes_start_with(name, seq![0x6bu8, 0x65, 0x72, 0x6e, 0x65, 0x6c])
    ||| bytes_start_with(name, seq![0x73u8, 0x79, 0x73, 0x6c, 0x69, 0x62])
    ||| bytes_start_with(name, seq![0x62u8, 0x75, 0x70])
}

/// `s` with `x` placed after every element whose offset is not larger.
pub open spec fn insert_sorted(s: Seq<Gen3Mod>, x: Gen3Mod) -> Seq<Gen3Mod>
    decreases s.len(),
{
    if s.len() == 0 || s.last().off <= x.off {
        s.push(x)
    } else {
        insert_sorted(s.drop_last(), x).push(s.last())
    }
}

/// Stable sort by offset (entries with equal offsets keep their order).
pub open spec fn sort_by_offset(s: Seq<Gen3Mod>) -> Seq<Gen3Mod>
    decreases s.len(),
{
    if s.len() == 0 {
        s
    } else {
        insert_sorted(sort_by_offset(s.drop_last()), s.last())
    }
}

/// Processing the first `k` sorted modules: each runs to the next one's
/// offset; kept ones extend the retained end, the others are filled.
#[verifier::opaque]
pub open spec fn gen3_clear(me: Region, me_len: int, po: int, ms: Seq<Gen3Mod>, buf: Seq<u8>, k: int) -> Outcome<(Seq<u8>, int)>
    decreases k,
{
    if k <= 0 {
        Outcome::Done((buf, 0))
    } else {
        match gen3_clear(me, me_len, po, ms, buf, k - 1) {
            Outcome::Done(x) => {
                let start = po + ms[k - 1].off;
                let end = po + ms[k].off;
                if gen3_keep(ms[k - 1].name) {
                    Outcome::Done((x.0, max_int(x.1, end)))
                } else {
                    match fill_outcome(me, x.0, start, min_int(end, me_len)) {
                        Outcome::Done(b) => Outcome::Done((b, x.1)),
                        Outcome::Failed(e, b) => Outcome::Failed(e, b),
                        Outcome::Stuck => Outcome::Stuck,
                    }
                }
            },
            Outcome::Failed(e, b) => Outcome::Failed(e, b),
            Outcome::Stuck => Outcome::Stuck,
        }
    }
}

/// Removal step of the generation 3 pass: buffer and end of retained data.
pub open spec fn gen3_remove(me: Region, buf: Seq<u8>, me_len: int, po: int, plen: int) -> Outcome<(Seq<u8>, int)> {
    if !me.fits(po + 4, 4) {
        Outcome::Failed(Error::OutOfRegion { offset: (po + 4) as usize, len: 4 }, buf)
    } else {
        let count = le32(buf, me.start + po + 4);
        match gen3_read(me, buf, po, count) {
            Outcome::Done(entries) => gen3_clear(
                me,
                me_len,
                po,
                sort_by_offset(seq![end_mod(plen)] + entries),
                buf,
                count,
            ),
            Outcome::Failed(e, b) => Outcome::Failed(e, b),
            Outcome::Stuck => Outcome::Stuck,
        }
    }
}

/// The generation 3 module pass: buffer, end of retained data and the
/// partition's final offset.
#[verifier::opaque]
pub open spec fn spec_gen3_pass(
    me: Region,
    buf: Seq<u8>,
    me_len: int,
    po: int,
    plen: int,
    min_offset: int,
    relocate: bool,
    keep_modules: bool,
    ph_offset: int,
) -> Outcome<(Seq<u8>, Option<int>, int)> {
    let removed = if keep_modules {
        Outcome::Done((buf, po + plen))
    } else {
        gen3_remove(me, buf, me_len, po, plen)
    };
    then_relocate(me, removed, me_len, po, min_offset, relocate, ph_offset, seq![])
}

/// Exec form of `Gen3Mod`.
struct Gen3Entry {
    name: Vec<u8>,
    off: usize,
}

spec fn entry_view(e: Gen3Entry) -> Gen3Mod {
    Gen3Mod { name: e.name@, off: e.off as int }
}

spec fn entries_view(v: Seq<Gen3Entry>) -> Seq<Gen3Mod> {
    v.map_values(|e: Gen3Entry| entry_view(e))
}

proof fn lemma_insert_sorted(s: Seq<Gen3Mod>, x: Gen3Mod, p: int)
    requires
        0 <= p <= s.len(),
        forall|k: int| p <= k < s.len() ==> (#[trigger] s[k]).off > x.off,
        p == 0 || s[p - 1].off <= x.off,
    ensures
        insert_sorted(s, x) == s.insert(p, x),
    decreases s.len(),
{
    if s.len() == 0 {
        assert(s.insert(p, x) =~= s.push(x));
    } else if s.last().off <= x.off {
        assert(p == s.len());
        assert(s.insert(p, x) =~= s.push(x));
    } else {
        lemma_insert_sorted(s.drop_last(), x, p);
        assert(s.insert(p, x) =~= s.drop_last().insert(p, x).push(s.last()));
    }
}

/// Insert `e` after every entry whose offset is not larger.
fn insert_by_offset(v: &mut Vec<Gen3Entry>, e: Gen3Entry)
    ensures
        entries_view(final(v)@) == insert_sorted(entries_view(old(v)@), entry_view(e)),
{
    let mut j = v.len();
    while j > 0 && v[j - 1].off > e.off
        invariant
            j <= v@.len(),
            forall|k: int| j <= k < v@.len() ==> (#[trigger] v@[k]).off > e.off,
        decreases j,
    {
        j = j - 1;
    }
    let ghost s = entries_view(v@);
    proof {
        lemma_insert_sorted(s, entry_view(e), j as int);
    }
    v.insert(j, e);
    assert(entries_view(v@) =~= s.insert(j as int, entry_view(e)));
}

/// Whether a generation 3 module is kept.
fn gen3_keeps(name: &Vec<u8>) -> (b: bool)
    ensures
        b == gen3_keep(name@),
{
    let n = name.len();
    let man: [u8; 4] = [0x2e, 0x6d, 0x61, 0x6e];
    let met: [u8; 4] = [0x2e, 0x6d, 0x65, 0x74];
    let rbe: [u8; 3] = [0x72, 0x62, 0x65];
    let kernel: [u8; 6] = [0x6b, 0x65, 0x72, 0x6e, 0x65, 0x6c];
    let syslib: [u8; 6] = [0x73, 0x79, 0x73, 0x6c, 0x69, 0x62];
    let bup: [u8; 3] = [0x62, 0x75, 0x70];
    assert(man@ =~= seq![0x2eu8, 0x6d, 0x61, 0x6e]);
    assert(met@ =~= seq![0x2eu8, 0x6d, 0x65, 0x74]);
    assert(rbe@ =~= seq![0x72u8, 0x62, 0x65]);
    assert(kernel@ =~= seq![0x6bu8, 0x65, 0x72, 0x6e, 0x65, 0x6c]);
    assert(syslib@ =~= seq![0x73u8, 0x79, 0x73, 0x6c, 0x69, 0x62]);
    assert(bup@ =~= seq![0x62u8, 0x75, 0x70]);
    ends_with_bytes(name, &man) || ends_with_bytes(name, &met) || starts_with_bytes(name, &rbe)
        || starts_with_bytes(name, &kernel) || starts_with_bytes(name, &syslib) || starts_with_bytes(name, &bup)
}

fn ends_with_bytes(s: &Vec<u8>, t: &[u8]) -> (b: bool)
    ensures
        b == bytes_end_with(s@, t@),
{
    if t.len() > s.len() {
        return false;
    }
    let tail = vstd::slice::slice_subrange(s.as_slice(), s.len() - t.len(), s.len());
    crate::text::bytes_eq(tail, t)
}

fn starts_with_bytes(s: &Vec<u8>, t: &[u8]) -> (b: bool)
    ensures
        b == bytes_start_with(s@, t@),
{
    if t.len() > s.len() {
        return false;
    }
    let head = vstd::slice::slice_subrange(s.as_slice(), 0, t.len());
    crate::text::bytes_eq(head, t)
}

proof fn lemma_read_stops(me: Region, buf: Seq<u8>, po: int, k: int, n: int)
    requires
        0 <= k <= n,
        !(gen3_read(me, buf, po, k) is Done),
    ensures
        gen3_read(me, buf, po, n) == gen3_read(me, buf, po, k),
    decreases n - k,
{
    if k < n {
        lemma_read_stops(me, buf, po, k, n - 1);
    }
}

proof fn lemma_insert_bound(s: Seq<Gen3Mod>, x: Gen3Mod, b: int)
    requires
        forall|k: int| 0 <= k < s.len() ==> (#[trigger] s[k]).off <= b,
        x.off <= b,
    ensures
        forall|k: int| 0 <= k < insert_sorted(s, x).len() ==> (#[trigger] insert_sorted(s, x)[k]).off <= b,
        insert_sorted(s, x).len() == s.len() + 1,
    decreases s.len(),
{
    if s.len() > 0 && s.last().off > x.off {
        lemma_insert_bound(s.drop_last(), x, b);
    }
}

/// The directory of the partition at `po`, read and sorted by offset, with
/// the end-of-partition entry.
fn gen3_directory(me: &Region, buf: &[u8], po: usize, plen: usize, count: usize) -> (r: Result<Vec<Gen3Entry>>)
    requires
        me.inside(buf@.len() as int),
        headroom(me.start + po + 0x40_0000_0000),
        count <= 0xffff_ffff,
    ensures
        match gen3_read(*me, buf@, po as int, count as int) {
            Outcome::Done(es) => r matches Ok(v) && entries_view(v@) == sort_by_offset(
                seq![end_mod(plen as int)] + es,
            ) && v@.len() == count + 1 && forall|k: int| 0 <= k < v@.len() ==> (#[trigger] v@[k]).off
                <= max_int(plen as int, 0x200_0000),
            Outcome::Failed(e, b) => r matches Err(err) && err == e && b == buf@,
            Outcome::Stuck => false,
        },
{
    let mut sorted: Vec<Gen3Entry> = Vec::new();
    let end_name: Vec<u8> = vec![0x65u8, 0x6e, 0x64];
    sorted.push(Gen3Entry { name: end_name, off: plen });
    let ghost mut es: Seq<Gen3Mod> = seq![];
    proof {
        assert(seq![end_mod(plen as int)] + es =~= seq![end_mod(plen as int)]);
        assert(seq![end_mod(plen as int)].drop_last() =~= Seq::<Gen3Mod>::empty());
        assert(sort_by_offset(Seq::<Gen3Mod>::empty()) == Seq::<Gen3Mod>::empty());
        assert(insert_sorted(Seq::<Gen3Mod>::empty(), end_mod(plen as int)) =~= seq![end_mod(plen as int)]);
        assert(sorted@[0].name@ =~= seq![0x65u8, 0x6e, 0x64]);
        assert(entries_view(sorted@) =~= sort_by_offset(seq![end_mod(plen as int)]));
    }
    let mut i: usize = 0;
    while i < count
        invariant
            i <= count <= 0xffff_ffff,
            me.inside(buf@.len() as int),
            headroom(me.start + po + 0x40_0000_0000),
            gen3_read(*me, buf@, po as int, i as int) == Outcome::Done(es),
            entries_view(sorted@) == sort_by_offset(seq![end_mod(plen as int)] + es),
            sorted@.len() == i + 1,
            forall|k: int| 0 <= k < sorted@.len() ==> (#[trigger] sorted@[k]).off <= max_int(plen as int, 0x200_0000),
        decreases count - i,
    {
        let o = po + 0x10 + i * 0x18;
        let data = match me.read(buf, o, 0x18) {
            Ok(d) => d,
            Err(e) => {
                proof {
                    lemma_read_stops(*me, buf@, po as int, i + 1, count as int);
                }
                return Err(e);
            },
        };
        let field = vstd::slice::slice_subrange(data, 0, 0xc);
        let n = nul_len(field);
        let name = crate::bytes::copy_bytes(vstd::slice::slice_subrange(field, 0, n));
        let off = (u32_le(data, 0xc) % 0x200_0000) as usize;
        let e = Gen3Entry { name, off };
        proof {
            assert(field@ =~= buf@.subrange(me.start + o, me.start + o + 0xc));
            assert(name@ =~= nul_trim(buf@.subrange(me.start + o, me.start + o + 0xc)));
            assert(entry_view(e) == gen3_entry(buf@, me.start + o));
            let all = seq![end_mod(plen as int)] + es;
            assert((seq![end_mod(plen as int)] + es.push(entry_view(e))).drop_last() =~= all);
            let sv = entries_view(sorted@);
            assert forall|k: int| 0 <= k < sv.len() implies (#[trigger] sv[k]).off <= max_int(plen as int, 0x200_0000) by {
                assert(sv[k].off == sorted@[k].off);
            }
            lemma_insert_bound(sv, entry_view(e), max_int(plen as int, 0x200_0000));
        }
        insert_by_offset(&mut sorted, e);
        proof {
            es = es.push(entry_view(e));
            assert forall|k: int| 0 <= k < sorted@.len() implies (#[trigger] sorted@[k]).off <= max_int(plen as int, 0x200_0000) by {
                assert(entries_view(sorted@)[k].off == sorted@[k].off);
            }
        }
        i = i + 1;
    }
    Ok(sorted)
}

proof fn lemma_gen3_clear_step(me: Region, me_len: int, po: int, ms: Seq<Gen3Mod>, buf: Seq<u8>, k: int)
    requires
        0 <= k,
    ensures
        gen3_clear(me, me_len, po, ms, buf, 0) == Outcome::Done((buf, 0int)),
        gen3_clear(me, me_len, po, ms, buf, k + 1) == match gen3_clear(me, me_len, po, ms, buf, k) {
            Outcome::Done(x) => {
                let start = po + ms[k].off;
                let end = po + ms[k + 1].off;
                if gen3_keep(ms[k].name) {
                    Outcome::Done((x.0, max_int(x.1, end)))
                } else {
                    match fill_outcome(me, x.0, start, min_int(end, me_len)) {
                        Outcome::Done(b) => Outcome::Done((b, x.1)),
                        Outcome::Failed(e, b) => Outcome::Failed(e, b),
                        Outcome::Stuck => Outcome::Stuck,
                    }
                }
            },
            Outcome::Failed(e, b) => Outcome::Failed(e, b),
            Outcome::Stuck => Outcome::<(Seq<u8>, int)>::Stuck,
        },
{
    reveal(gen3_clear);
}

proof fn lemma_gen3_clear_stops(me: Region, me_len: int, po: int, ms: Seq<Gen3Mod>, buf: Seq<u8>, k: int, n: int)
    requires
        0 <= k <= n,
        !(gen3_clear(me, me_len, po, ms, buf, k) is Done),
    ensures
        gen3_clear(me, me_len, po, ms, buf, n) == gen3_clear(me, me_len, po, ms, buf, k),
    decreases n - k,
{
    reveal(gen3_clear);
    if k < n {
        lemma_gen3_clear_stops(me, me_len, po, ms, buf, k, n - 1);
    }
}

/// Fill the removable modules of a sorted directory; the end of retained data.
fn gen3_clear_exec(me: &Region, buf: &mut [u8], po: usize, ms: &Vec<Gen3Entry>, count: usize, me_len: usize, Ghost(bound): Ghost<int>) -> (r: Result<usize>)
    requires
        me.inside(old(buf)@.len() as int),
        headroom(me.start + me_len),
        ms@.len() == count + 1,
        forall|k: int| 0 <= k < ms@.len() ==> (#[trigger] ms@[k]).off <= bound,
        headroom(po + bound),
    ensures
        final(buf)@.len() == old(buf)@.len(),
        r matches Ok(v) ==> v <= po + bound,
        match gen3_clear(*me, me_len as int, po as int, entries_view(ms@), old(buf)@, count as int) {
            Outcome::Done(x) => r matches Ok(v) && v as int == x.1 && final(buf)@ == x.0,
            Outcome::Failed(e, b) => r matches Err(err) && err == e && final(buf)@ == b,
            Outcome::Stuck => false,
        },
{
    let ghost b0 = buf@;
    let ghost mv = entries_view(ms@);
    let ghost ml = me_len as int;
    let mut end_data: usize = 0;
    let mut i: usize = 0;
    proof {
        lemma_gen3_clear_step(*me, ml, po as int, mv, b0, 0);
    }
    while i < count
        invariant
            i <= count,
            ms@.len() == count + 1,
            mv == entries_view(ms@),
            ml == me_len as int,
            b0 == old(buf)@,
            buf@.len() == b0.len(),
            me.inside(buf@.len() as int),
            headroom(me.start + me_len),
            headroom(po + bound),
            forall|k: int| 0 <= k < ms@.len() ==> (#[trigger] ms@[k]).off <= bound,
            end_data <= po + bound,
            gen3_clear(*me, ml, po as int, mv, b0, i as int) == Outcome::Done((buf@, end_data as int)),
        decreases count - i,
    {
        proof {
            lemma_gen3_clear_step(*me, ml, po as int, mv, b0, i as int);
            assert(mv[i as int] == entry_view(ms@[i as int]));
            assert(mv[i + 1] == entry_view(ms@[i + 1]));
        }
        let start = po + ms[i].off;
        let end = po + ms[i + 1].off;
        if gen3_keeps(&ms[i].name) {
            if end > end_data {
                end_data = end;
            }
        } else {
            let stop = if end < me_len {
                end
            } else {
                me_len
            };
            let ghost before = buf@;
            match me.fill_range(buf, start, stop, 0xff) {
                Ok(()) => {
                    proof {
                        if start >= stop {
                            crate::region::lemma_fill_empty(before, me.start + start, me.start + stop, 0xff);
                        }
                    }
                },
                Err(e) => {
                    proof {
                        lemma_gen3_clear_stops(*me, ml, po as int, mv, b0, i + 1, count as int);
                    }
                    return Err(e);
                },
            }
        }
        i = i + 1;
    }
    Ok(end_data)
}

/// Generation 3 (`$CPD`) module pass.
pub fn check_and_remove_modules_gen3(
    me: &Region,
    buf: &mut [u8],
    me_len: usize,
    partition_offset: usize,
    partition_length: usize,
    min_offset: usize,
    relocate: bool,
    keep_modules: bool,
    ph_offset: usize,
) -> (r: Result<ModuleResult>)
    requires
        me.inside(old(buf)@.len() as int),
        headroom(old(buf)@.len() as int),
        headroom(me.start + me_len),
        headroom(me.start + partition_offset + 0x40_0000_0000),
        headroom(partition_offset + partition_length + 0x200_0000),
        headroom(me.start + ph_offset),
        headroom(me.start + min_offset),
        !(spec_gen3_pass(*me, old(buf)@, me_len as int, partition_offset as int, partition_length as int, min_offset as int, relocate, keep_modules, ph_offset as int) is Stuck),
    ensures
        final(buf)@.len() == old(buf)@.len(),
        match spec_gen3_pass(*me, old(buf)@, me_len as int, partition_offset as int, partition_length as int, min_offset as int, relocate, keep_modules, ph_offset as int) {
            Outcome::Done(x) => r matches Ok(m) && final(buf)@ == x.0 && m.ftpr_offset as int == x.2 && match x.1 {
                Some(e) => m.end_addr matches Some(v) && v as int == e,
                None => m.end_addr is None,
            },
            Outcome::Failed(e, b) => r matches Err(err) && err == e && final(buf)@ == b,
            Outcome::Stuck => false,
        },
{
    reveal(spec_gen3_pass);
    let ghost b0 = buf@;
    let ghost removed = if keep_modules {
        Outcome::Done((b0, partition_offset + partition_length))
    } else {
        gen3_remove(*me, b0, me_len as int, partition_offset as int, partition_length as int)
    };
    let ghost bound = max_int(partition_length as int, 0x200_0000);
    let mut end_data: usize;
    if keep_modules {
        end_data = partition_offset + partition_length;
    } else {
        let module_count = me.read_u32(buf, partition_offset + 0x4)? as usize;
        let ms = gen3_directory(me, buf, partition_offset, partition_length, module_count)?;
        end_data = gen3_clear_exec(me, buf, partition_offset, &ms, module_count, me_len, Ghost(bound))?;
    }
    assert(removed == Outcome::Done((buf@, end_data as int)));
    let ghost removed_buf = buf@;
    let mut partition_offset = partition_offset;
    if relocate {
        let no_headers: Vec<&[u8]> = Vec::new();
        assert(headers_of(no_headers@) =~= Seq::<Seq<u8>>::empty());
        let new_offset = relocate_partition(me, buf, me_len, ph_offset, min_offset, no_headers.as_slice())?;
        assert(spec_relocate(*me, removed_buf, me_len as int, ph_offset as int, min_offset as int, seq![]) == Outcome::Done((buf@, new_offset as int)));
        end_data = end_data + new_offset - partition_offset;
        partition_offset = new_offset;
    }
    Ok(ModuleResult { end_addr: Some(end_data), ftpr_offset: partition_offset })
}

} // verus!
