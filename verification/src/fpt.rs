//! Flash Partition Table (`$FPT`) parsing and FTPR location.

use crate::bytes::{le32, u32_le};
use crate::error::{Error, Result};
use crate::region::Region;
use crate::text::{has_tag, nul_len, nul_trim, tag_at, utf8_string};
use vstd::prelude::*;
use vstd::utf8::{decode_utf8, valid_utf8};

verus! {

pub const FPT_HEADER_LEN: usize = 0x20;

pub const ENTRY_LEN: usize = 0x20;

/// `$FPT`.
pub const FPT_TAG: [u8; 4] = [0x24, 0x46, 0x50, 0x54];

/// `$CPD`.
pub const CPD_TAG: [u8; 4] = [0x24, 0x43, 0x50, 0x44];

/// `FTPR`.
pub const FTPR_NAME: [u8; 4] = [0x46, 0x54, 0x50, 0x52];

/// `CODE`.
pub const CODE_NAME: [u8; 4] = [0x43, 0x4f, 0x44, 0x45];

/// One FPT partition entry (0x20 bytes).
#[derive(Debug, Clone)]
pub struct Partition {
    pub name: [u8; 4],
    pub start: u32,
    pub length: u32,
    pub flags: u32,
    pub raw: [u8; ENTRY_LEN],
}

/// `p` is the partition entry encoded by the 32 bytes `e`.
pub open spec fn partition_from(p: Partition, e: Seq<u8>) -> bool {
    &&& p.raw@ == e
    &&& p.name@ == e.take(4)
    &&& p.start == le32(e, 8)
    &&& p.length == le32(e, 12)
    &&& p.flags == le32(e, 0x1c)
}

/// Printable partition name: NUL-trimmed, `"????"` when not valid UTF-8.
pub open spec fn spec_name_str(name: Seq<u8>) -> Seq<char> {
    if valid_utf8(nul_trim(name)) {
        decode_utf8(nul_trim(name))
    } else {
        "????"@
    }
}

impl Partition {
    /// Partition name as a printable string (NUL-trimmed, `"????"` on invalid UTF-8).
    pub fn name_str(&self) -> (s: String)
        ensures
            s@ == spec_name_str(self.name@),
    {
        let n = nul_len(&self.name);
        let trimmed = vstd::slice::slice_subrange(&self.name, 0, n);
        assert(trimmed@ =~= nul_trim(self.name@));
        match utf8_string(trimmed) {
            Some(s) => s,
            None => String::from_str("????"),
        }
    }

    pub fn end(&self) -> (e: u64)
        ensures
            e == self.start + self.length,
    {
        self.start as u64 + self.length as u64
    }
}

/// Parsed `$FPT` table.
#[derive(Debug, Clone)]
pub struct Fpt {
    /// Region-relative offset of the `$FPT` header.
    pub offset: usize,
    pub entries: u32,
    pub partitions: Vec<Partition>,
}

/// `$FPT` magic at `i` followed by an entry count whose three high bytes are zero.
pub open spec fn fpt_at(s: Seq<u8>, i: int) -> bool {
    &&& i + 8 <= s.len()
    &&& tag_at(s, i, FPT_TAG)
    &&& s[i + 5] == 0
    &&& s[i + 6] == 0
    &&& s[i + 7] == 0
}

/// `v` lists, in increasing order, exactly the positions of `$FPT` signatures in `s`.
pub open spec fn all_fpt(v: Seq<usize>, s: Seq<u8>) -> bool {
    &&& forall|k: int, l: int| 0 <= k < l < v.len() ==> v[k] < v[l]
    &&& forall|k: int| 0 <= k < v.len() ==> #[trigger] fpt_at(s, v[k] as int)
    &&& forall|i: int| #[trigger] fpt_at(s, i) ==> v.contains(i as usize)
}

/// Scan the ME region for every `$FPT` signature.
/// Matches magic + entry count whose three high bytes are zero
/// (`\x24\x46\x50\x54.\x00\x00\x00`). Returns all matches; images can carry
/// primary + backup tables.
pub fn find_all_fpt(me_data: &[u8]) -> (matches: Vec<usize>)
    ensures
        all_fpt(matches@, me_data@),
{
    let mut matches: Vec<usize> = Vec::new();
    let n = me_data.len();
    if n < 8 {
        return matches;
    }
    let mut i: usize = 0;
    while i <= n - 8
        invariant
            n == me_data@.len(),
            n >= 8,
            i <= n - 7,
            forall|k: int, l: int| 0 <= k < l < matches@.len() ==> matches@[k] < matches@[l],
            forall|k: int| 0 <= k < matches@.len() ==> #[trigger] matches@[k] < i,
            forall|k: int| 0 <= k < matches@.len() ==> #[trigger] fpt_at(me_data@, matches@[k] as int),
            forall|j: int| 0 <= j < i && #[trigger] fpt_at(me_data@, j) ==> matches@.contains(j as usize),
        decreases n - i,
    {
        let ghost before = matches@;
        if has_tag(me_data, i, FPT_TAG) && me_data[i + 5] == 0 && me_data[i + 6] == 0 && me_data[i + 7] == 0 {
            matches.push(i);
            proof {
                assert(matches@ == before.push(i));
                assert forall|k: int, l: int| 0 <= k < l < matches@.len() implies matches@[k] < matches@[l] by {
                    if l == matches@.len() - 1 {
                        assert(before[k] < i);
                    }
                }
                assert forall|x: usize| before.contains(x) implies matches@.contains(x) by {
                    let w = choose|w: int| 0 <= w < before.len() && before[w] == x;
                    assert(matches@[w] == x);
                }
                assert(matches@[matches@.len() - 1] == i);
            }
        }
        proof {
            assert forall|j: int| 0 <= j < i + 1 && #[trigger] fpt_at(me_data@, j) implies matches@.contains(j as usize) by {
                if j == i {
                    assert(matches@[matches@.len() - 1] == i);
                } else {
                    assert(before.contains(j as usize));
                }
            }
        }
        i = i + 1;
    }
    proof {
        assert forall|j: int| #[trigger] fpt_at(me_data@, j) implies matches@.contains(j as usize) by {
            assert(j < i);
            assert(tag_at(me_data@, j, FPT_TAG));
        }
    }
    matches
}

/// What `find_fpt` returns on `s`: the one `$FPT` position, `FptNotFound`
/// when there is none, `MultipleFpt` (with two witnesses) when there are more.
pub open spec fn find_fpt_result(s: Seq<u8>, r: Result<usize>) -> bool {
    &&& r matches Ok(o) ==> fpt_at(s, o as int) && forall|j: int| #[trigger] fpt_at(s, j) ==> j == o
    &&& r matches Err(e) ==> (e is FptNotFound && forall|j: int| !#[trigger] fpt_at(s, j)) || (e is MultipleFpt
        && exists|a: int, b: int| a < b && #[trigger] fpt_at(s, a) && #[trigger] fpt_at(s, b))
}

/// The lookup's answer for the full list of `$FPT` positions `v`.
pub open spec fn fpt_choice(v: Seq<usize>) -> Result<usize> {
    if v.len() == 0 {
        Err(Error::FptNotFound)
    } else if v.len() == 1 {
        Ok(v[0])
    } else {
        Err(Error::MultipleFpt)
    }
}

/// `find_fpt` answers from what `find_all_fpt` lists: its single position,
/// `FptNotFound` for none, `MultipleFpt` for several.
pub proof fn lemma_find_fpt_counts(s: Seq<u8>, v: Seq<usize>, r: Result<usize>)
    requires
        s.len() <= usize::MAX,
        all_fpt(v, s),
        find_fpt_result(s, r),
    ensures
        r == fpt_choice(v),
{
    if v.len() >= 1 {
        assert(fpt_at(s, v[0] as int));
    }
    if v.len() >= 2 {
        assert(fpt_at(s, v[1] as int));
        assert(v[0] < v[1]);
    }
    match r {
        Ok(o) => {
            assert(fpt_at(s, o as int));
            assert(v.contains(o));
            let w = choose|w: int| 0 <= w < v.len() && v[w] == o;
            if v.len() >= 2 {
                assert(v[0] as int == o as int);
                assert(v[1] as int == o as int);
            }
        },
        Err(e) => {
            if e is MultipleFpt {
                let (a, b) = choose|a: int, b: int| a < b && #[trigger] fpt_at(s, a) && #[trigger] fpt_at(s, b);
                assert(v.contains(a as usize));
                assert(v.contains(b as usize));
                let wa = choose|w: int| 0 <= w < v.len() && v[w] == a as usize;
                let wb = choose|w: int| 0 <= w < v.len() && v[w] == b as usize;
                assert(wa != wb);
            }
        },
    }
}

/// Strict single-`$FPT` lookup, for destructive operations that must be sure.
pub fn find_fpt(me_data: &[u8]) -> (r: Result<usize>)
    ensures
        find_fpt_result(me_data@, r),
{
    let matches = find_all_fpt(me_data);
    assert(me_data@.len() == me_data.len());
    if matches.len() == 0 {
        proof {
            assert forall|j: int| !#[trigger] fpt_at(me_data@, j) by {
                if fpt_at(me_data@, j) {
                    assert(matches@.contains(j as usize));
                    let w = choose|w: int| 0 <= w < matches@.len() && matches@[w] == j as usize;
                }
            }
        }
        Err(Error::FptNotFound)
    } else if matches.len() == 1 {
        let o = matches[0];
        proof {
            assert(fpt_at(me_data@, matches@[0] as int));
            assert forall|j: int| #[trigger] fpt_at(me_data@, j) implies j == o by {
                assert(tag_at(me_data@, j, FPT_TAG));
                assert(0 <= j <= usize::MAX);
                assert(matches@.contains(j as usize));
                let w = choose|w: int| 0 <= w < matches@.len() && matches@[w] == j as usize;
                assert(w == 0);
                assert(matches@[0] == j as usize);
                assert((j as usize) as int == j);
            }
        }
        Ok(o)
    } else {
        proof {
            assert(fpt_at(me_data@, matches@[0] as int));
            assert(fpt_at(me_data@, matches@[1] as int));
        }
        Err(Error::MultipleFpt)
    }
}

/// The `$FPT` at `fpt_offset` (region-relative) parses as `f`.
pub open spec fn fpt_from(me: Region, buf: Seq<u8>, fpt_offset: int, f: Fpt) -> bool {
    let base = me.start + fpt_offset + 0x20;
    &&& f.offset == fpt_offset
    &&& f.entries == le32(buf, me.start + fpt_offset + 4)
    &&& f.partitions@.len() == f.entries
    &&& forall|k: int| 0 <= k < f.entries ==> partition_from(
        #[trigger] f.partitions@[k],
        buf.subrange(base + k * 0x20, base + k * 0x20 + 0x20),
    )
}

/// Reading the `$FPT` at `fpt_offset` stays free of overflow and, where the
/// region holds it, inside the buffer.
pub open spec fn fpt_readable(me: Region, buf_len: int, fpt_offset: int) -> bool {
    &&& me.access_ok(buf_len, fpt_offset + 4, 4)
    &&& me.start + fpt_offset + 0x20 + 0x20 * 0x1_0000_0000 <= usize::MAX
    &&& me.end <= buf_len
}

/// Parse the `$FPT` table at `fpt_offset` (region-relative).
pub fn parse_fpt(me: &Region, buf: &[u8], fpt_offset: usize) -> (r: Result<Fpt>)
    requires
        fpt_readable(*me, buf@.len() as int, fpt_offset as int),
    ensures
        r is Ok <==> (me.fits(fpt_offset + 4, 4) && me.fits(
            fpt_offset + 0x20,
            le32(buf@, me.start + fpt_offset + 4) * 0x20,
        )),
        r matches Ok(f) ==> fpt_from(*me, buf@, fpt_offset as int, f),
        r matches Err(e) ==> e is OutOfRegion,
{
    let entries = me.read_u32(buf, fpt_offset + 0x4)?;
    let count = entries as usize;
    let table = me.read(buf, fpt_offset + 0x20, count * ENTRY_LEN)?;

    let mut partitions: Vec<Partition> = Vec::new();
    let mut i: usize = 0;
    while i < count
        invariant
            count == entries,
            table@.len() == count * 0x20,
            count * 0x20 <= usize::MAX,
            table@ == buf@.subrange(me.start + fpt_offset + 0x20, me.start + fpt_offset + 0x20 + count * 0x20),
            i <= count,
            partitions@.len() == i,
            forall|k: int| 0 <= k < i ==> partition_from(
                #[trigger] partitions@[k],
                table@.subrange(k * 0x20, k * 0x20 + 0x20),
            ),
        decreases count - i,
    {
        assert(i * 0x20 + 0x20 <= count * 0x20) by (nonlinear_arith)
            requires
                i < count,
        ;
        let o = i * ENTRY_LEN;
        let mut raw = [0u8; ENTRY_LEN];
        let mut k: usize = 0;
        while k < ENTRY_LEN
            invariant
                o == i * 0x20,
                o + 0x20 <= table@.len(),
                k <= 0x20,
                forall|j: int| 0 <= j < k ==> raw@[j] == table@[o + j],
            decreases 0x20 - k,
        {
            raw[k] = table[o + k];
            k = k + 1;
        }
        let ghost e = table@.subrange(o as int, o + 0x20);
        assert(raw@ =~= e);
        let p = Partition {
            name: [raw[0], raw[1], raw[2], raw[3]],
            start: u32_le(&raw, 8),
            length: u32_le(&raw, 12),
            flags: u32_le(&raw, 0x1c),
            raw,
        };
        assert(p.name@ =~= e.take(4));
        partitions.push(p);
        i = i + 1;
    }
    proof {
        let base = me.start + fpt_offset + 0x20;
        assert forall|k: int| 0 <= k < entries implies partition_from(
            #[trigger] partitions@[k],
            buf@.subrange(base + k * 0x20, base + k * 0x20 + 0x20),
        ) by {
            assert(table@.subrange(k * 0x20, k * 0x20 + 0x20) =~= buf@.subrange(
                base + k * 0x20,
                base + k * 0x20 + 0x20,
            ));
        }
    }
    Ok(Fpt { offset: fpt_offset, entries, partitions })
}

/// Location of the FTPR/CODE partition within the ME region.
#[derive(Debug, Clone, Copy)]
pub struct Ftpr {
    pub offset: u32,
    pub length: u32,
    /// True when found as a `CODE` partition (generation 1).
    pub is_code: bool,
    /// True when located via IFWI `$CPD` scan (length unknown, set to 0).
    pub is_ifwi: bool,
}

/// The partition entry is named `CODE` or `FTPR`.
pub open spec fn is_code_or_ftpr(p: Partition) -> bool {
    p.name@ == CODE_NAME@ || p.name@ == FTPR_NAME@
}

/// A `$CPD` directory tagged `FTPR` starts at `i`.
pub open spec fn cpd_ftpr_at(s: Seq<u8>, i: int) -> bool {
    &&& i + 16 <= s.len()
    &&& tag_at(s, i, CPD_TAG)
    &&& tag_at(s, i + 12, FTPR_NAME)
}

/// `k` is the first index where `p` holds.
pub open spec fn first_at(p: spec_fn(int) -> bool, k: int) -> bool {
    &&& 0 <= k
    &&& p(k)
    &&& forall|j: int| 0 <= j < k ==> !#[trigger] p(j)
}

/// The first index where `p` holds (meaningful when one exists).
pub open spec fn first_index(p: spec_fn(int) -> bool) -> int {
    choose|k: int| first_at(p, k)
}

/// A first index is unique: any index that is first is `first_index`.
pub proof fn lemma_first_index(p: spec_fn(int) -> bool, k: int)
    requires
        first_at(p, k),
    ensures
        first_index(p) == k,
{
    let c = first_index(p);
    assert(first_at(p, c));
    if c < k {
        assert(!p(c));
    } else if c > k {
        assert(!p(k));
    }
}

/// Partition index `k` is named `CODE` or `FTPR`.
pub open spec fn part_named(parts: Seq<Partition>) -> spec_fn(int) -> bool {
    |k: int| 0 <= k < parts.len() && is_code_or_ftpr(parts[k])
}

/// A `$CPD`/`FTPR` directory starts at position `i`.
pub open spec fn cpd_found(me_data: Seq<u8>) -> spec_fn(int) -> bool {
    |i: int| cpd_ftpr_at(me_data, i)
}

/// The FTPR location that `find_ftpr` reports, if any: the first `CODE`/`FTPR`
/// entry, else the first `$CPD` directory tagged `FTPR`.
pub open spec fn spec_find_ftpr(parts: Seq<Partition>, me_data: Seq<u8>) -> Option<Ftpr> {
    if exists|k: int| #[trigger] part_named(parts)(k) {
        let k = first_index(part_named(parts));
        Some(
            Ftpr {
                offset: parts[k].start,
                length: parts[k].length,
                is_code: parts[k].name@ == CODE_NAME@,
                is_ifwi: false,
            },
        )
    } else if exists|i: int| #[trigger] cpd_found(me_data)(i) {
        let i = first_index(cpd_found(me_data));
        Some(Ftpr { offset: i as u32, length: 0, is_code: false, is_ifwi: true })
    } else {
        None
    }
}

/// Locate FTPR: via the FPT entry list, else scan for a `$CPD` directory
/// tagged `FTPR` (IFWI images).
pub fn find_ftpr(fpt: &Fpt, me_data: &[u8]) -> (r: Result<Ftpr>)
    ensures
        match spec_find_ftpr(fpt.partitions@, me_data@) {
            Some(f) => r == Ok::<Ftpr, Error>(f),
            None => r matches Err(e) && e is FtprNotFound,
        },
{
    let ghost parts = fpt.partitions@;
    let ghost pn = part_named(parts);
    let mut k: usize = 0;
    while k < fpt.partitions.len()
        invariant
            parts == fpt.partitions@,
            pn == part_named(parts),
            k <= parts.len(),
            forall|j: int| 0 <= j < k ==> !#[trigger] pn(j),
        decreases parts.len() - k,
    {
        let p = &fpt.partitions[k];
        let is_code = has_tag(&p.name, 0, CODE_NAME);
        let is_ftpr = has_tag(&p.name, 0, FTPR_NAME);
        proof {
            assert(p.name@.subrange(0, 4) =~= p.name@);
        }
        if is_code || is_ftpr {
            proof {
                assert(pn(k as int));
                lemma_first_index(pn, k as int);
            }
            return Ok(Ftpr { offset: p.start, length: p.length, is_code, is_ifwi: false });
        }
        k = k + 1;
    }
    proof {
        assert forall|j: int| !#[trigger] pn(j) by {
            if pn(j) {
                assert(0 <= j < k);
            }
        }
    }
    let ghost cf = cpd_found(me_data@);
    let n = me_data.len();
    if n >= 16 {
        let mut i: usize = 0;
        while i <= n - 16
            invariant
                n == me_data@.len(),
                n >= 16,
                cf == cpd_found(me_data@),
                pn == part_named(parts),
                parts == fpt.partitions@,
                forall|j: int| !#[trigger] pn(j),
                forall|j: int| 0 <= j < i ==> !#[trigger] cf(j),
            decreases n - i,
        {
            if has_tag(me_data, i, CPD_TAG) && has_tag(me_data, i + 12, FTPR_NAME) {
                proof {
                    assert(cf(i as int));
                    lemma_first_index(cf, i as int);
                    assert(!exists|kk: int| #[trigger] part_named(parts)(kk));
                    assert(exists|ii: int| #[trigger] cpd_found(me_data@)(ii));
                }
                return Ok(Ftpr { offset: i as u32, length: 0, is_code: false, is_ifwi: true });
            }
            i = i + 1;
        }
        proof {
            assert forall|j: int| !#[trigger] cf(j) by {
                if cf(j) {
                    assert(tag_at(me_data@, j, CPD_TAG));
                    assert(j < i);
                }
            }
        }
    } else {
        proof {
            assert forall|j: int| !#[trigger] cf(j) by {
                if cf(j) {
                    assert(tag_at(me_data@, j, CPD_TAG));
                }
            }
        }
    }
    Err(Error::FtprNotFound)
}

/// Number of entries the `$FPT` at `off` (region-relative) declares.
pub open spec fn fpt_count(me: Region, buf: Seq<u8>, off: int) -> int {
    le32(buf, me.start + off + 4)
}

/// The `$FPT` at `off` parses: its header and entry table lie in the region.
pub open spec fn fpt_parses(me: Region, buf: Seq<u8>, off: int) -> bool {
    me.fits(off + 4, 4) && me.fits(off + 0x20, fpt_count(me, buf, off) * 0x20)
}

/// The bytes of entry `k` of the `$FPT` at `off`.
pub open spec fn fpt_entry(me: Region, buf: Seq<u8>, off: int, k: int) -> Seq<u8> {
    let b = me.start + off + 0x20 + k * 0x20;
    buf.subrange(b, b + 0x20)
}

/// Entry index `k` of the `$FPT` at `off` is named `CODE` or `FTPR`.
pub open spec fn entry_named(me: Region, buf: Seq<u8>, off: int) -> spec_fn(int) -> bool {
    |k: int|
        0 <= k < fpt_count(me, buf, off) && (fpt_entry(me, buf, off, k).take(4) == CODE_NAME@
            || fpt_entry(me, buf, off, k).take(4) == FTPR_NAME@)
}

/// What `find_ftpr` reports for the `$FPT` at `off`, read from the bytes.
pub open spec fn spec_ftpr_of(me: Region, buf: Seq<u8>, off: int, me_data: Seq<u8>) -> Option<Ftpr> {
    if exists|k: int| #[trigger] entry_named(me, buf, off)(k) {
        let k = first_index(entry_named(me, buf, off));
        let e = fpt_entry(me, buf, off, k);
        Some(
            Ftpr {
                offset: le32(e, 8) as u32,
                length: le32(e, 12) as u32,
                is_code: e.take(4) == CODE_NAME@,
                is_ifwi: false,
            },
        )
    } else if exists|i: int| #[trigger] cpd_found(me_data)(i) {
        let i = first_index(cpd_found(me_data));
        Some(Ftpr { offset: i as u32, length: 0, is_code: false, is_ifwi: true })
    } else {
        None
    }
}

/// A predicate that holds somewhere at or above 0 has a first index.
pub proof fn lemma_first_exists(p: spec_fn(int) -> bool, k: int)
    requires
        0 <= k,
        p(k),
    ensures
        first_at(p, first_index(p)),
    decreases k,
{
    if exists|j: int| 0 <= j < k && #[trigger] p(j) {
        let j = choose|j: int| 0 <= j < k && #[trigger] p(j);
        lemma_first_exists(p, j);
    } else {
        assert(first_at(p, k));
    }
}

/// A table parsed from the bytes yields the FTPR location read from the bytes.
pub proof fn lemma_ftpr_of(me: Region, buf: Seq<u8>, off: int, f: Fpt, me_data: Seq<u8>)
    requires
        fpt_from(me, buf, off, f),
    ensures
        spec_find_ftpr(f.partitions@, me_data) == spec_ftpr_of(me, buf, off, me_data),
{
    let parts = f.partitions@;
    assert forall|k: int| #[trigger] part_named(parts)(k) == entry_named(me, buf, off)(k) by {
        if 0 <= k < fpt_count(me, buf, off) {
            assert(partition_from(parts[k], fpt_entry(me, buf, off, k)));
        }
    }
    assert(part_named(parts) =~= entry_named(me, buf, off));
    if exists|k: int| #[trigger] part_named(parts)(k) {
        let k0 = choose|k: int| #[trigger] part_named(parts)(k);
        lemma_first_exists(part_named(parts), k0);
        let k = first_index(part_named(parts));
        assert(partition_from(parts[k], fpt_entry(me, buf, off, k)));
    }
}

} // verus!
