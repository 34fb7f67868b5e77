//! AMD PSP firmware parsing (inspector; PSP cannot be disabled).

use crate::bytes::{le32, u32_le};
use crate::text::{has_tag, lossy_string, tag_at, utf8_lossy};
use vstd::prelude::*;

verus! {

/// FET signature (LE `0x55AA55AA`).
pub const FET_MAGIC: [u8; 4] = [0xAA, 0x55, 0xAA, 0x55];

/// `$PSP`, `$PL2`, `$BHD`, `$BL2`, `2PSP`, `2BHD`.
pub const PSP: [u8; 4] = [0x24, 0x50, 0x53, 0x50];
pub const PL2: [u8; 4] = [0x24, 0x50, 0x4c, 0x32];
pub const BHD: [u8; 4] = [0x24, 0x42, 0x48, 0x44];
pub const BL2: [u8; 4] = [0x24, 0x42, 0x4c, 0x32];
pub const PSP2: [u8; 4] = [0x32, 0x50, 0x53, 0x50];
pub const BHD2: [u8; 4] = [0x32, 0x42, 0x48, 0x44];

/// One PSP/BIOS directory entry.
#[derive(Debug, Clone)]
pub struct Entry {
    pub type_id: u8,
    pub size: u32,
    pub location: u32,
}

impl Entry {
    /// Entry type name (PSP or BIOS table).
    pub fn name_for(&self, is_bios: bool) -> (s: &'static str)
        ensures
            s@ == (if is_bios {
                spec_bios_entry_name(self.type_id)
            } else {
                spec_psp_entry_name(self.type_id)
            }),
    {
        if is_bios {
            bios_entry_name(self.type_id)
        } else {
            psp_entry_name(self.type_id)
        }
    }
}

/// A parsed `$PSP`/`$BHD` directory.
#[derive(Debug, Clone)]
pub struct Directory {
    pub magic: [u8; 4],
    pub offset: usize,
    pub count: u32,
    pub is_bios: bool,
    pub is_combo: bool,
    pub entries: Vec<Entry>,
}

impl Directory {
    pub fn magic_str(&self) -> (s: String)
        ensures
            s@ == utf8_lossy(self.magic@),
    {
        lossy_string(&self.magic)
    }
}

/// Parsed AMD firmware view.
#[derive(Debug, Clone)]
pub struct AmdFirmware {
    pub fet_offset: Option<usize>,
    pub rom_size: usize,
    pub directories: Vec<Directory>,
}

impl AmdFirmware {
    /// Whether some PSP (non-BIOS) directory holds an entry of type `t`.
    pub fn has_psp_entry(&self, t: u8) -> (b: bool)
        ensures
            b == exists|i: int, j: int|
                0 <= i < self.directories@.len() && !self.directories@[i].is_bios && 0 <= j
                    < self.directories@[i].entries@.len()
                    && (#[trigger] self.directories@[i].entries@[j]).type_id == t,
    {
        let mut i: usize = 0;
        while i < self.directories.len()
            invariant
                i <= self.directories@.len(),
                forall|x: int, y: int|
                    0 <= x < i && !self.directories@[x].is_bios && 0 <= y < self.directories@[x].entries@.len()
                        ==> (#[trigger] self.directories@[x].entries@[y]).type_id != t,
            decreases self.directories@.len() - i,
        {
            let d = &self.directories[i];
            if !d.is_bios {
                let mut j: usize = 0;
                while j < d.entries.len()
                    invariant
                        i < self.directories@.len(),
                        *d == self.directories@[i as int],
                        !d.is_bios,
                        j <= d.entries@.len(),
                        forall|y: int| 0 <= y < j ==> (#[trigger] d.entries@[y]).type_id != t,
                    decreases d.entries@.len() - j,
                {
                    if d.entries[j].type_id == t {
                        assert(self.directories@[i as int].entries@[j as int].type_id == t);
                        return true;
                    }
                    j = j + 1;
                }
            }
            assert forall|x: int, y: int|
                0 <= x < i + 1 && !self.directories@[x].is_bios && 0 <= y < self.directories@[x].entries@.len()
                    implies (#[trigger] self.directories@[x].entries@[y]).type_id != t by {
                if x == i {
                    assert(self.directories@[x] == *d);
                }
            }
            i = i + 1;
        }
        false
    }
}

/// Smallest power of two that is at least `len` (1 for 0).
pub open spec fn next_pow2(len: nat) -> nat
    decreases len,
{
    if len <= 1 {
        1
    } else {
        2 * next_pow2(((len + 1) / 2) as nat)
    }
}

/// `2^k`.
pub open spec fn two_pow(k: nat) -> nat
    decreases k,
{
    if k == 0 {
        1
    } else {
        2 * two_pow((k - 1) as nat)
    }
}

/// Assumed ROM size for an image of `len` bytes: the largest of 32/16/8 MiB
/// that fits, else the next power of two.
/// Assumed ROM size for an image of `len` bytes: the largest of 32/16/8 MiB
/// that fits, else the next power of two.
pub open spec fn spec_rom_size(len: nat) -> nat {
    if 0x200_0000 <= len {
        0x200_0000
    } else if 0x100_0000 <= len {
        0x100_0000
    } else if 0x80_0000 <= len {
        0x80_0000
    } else {
        next_pow2(len)
    }
}

proof fn lemma_next_pow2_bound(len: nat, k: nat)
    requires
        len <= two_pow(k),
    ensures
        1 <= next_pow2(len) <= two_pow(k),
    decreases k,
{
    if len > 1 {
        if k == 0 {
            assert(two_pow(0) == 1);
        } else {
            assert(two_pow(k) == 2 * two_pow((k - 1) as nat));
            lemma_next_pow2_bound(((len + 1) / 2) as nat, (k - 1) as nat);
        }
    } else {
        lemma_two_pow_pos(k);
    }
}

proof fn lemma_two_pow_pos(k: nat)
    ensures
        two_pow(k) >= 1,
    decreases k,
{
    if k > 0 {
        lemma_two_pow_pos((k - 1) as nat);
    }
}

/// `next_pow2(len)` is a power of two, at least `len`, and below `2 * len`.
proof fn lemma_next_pow2_props(len: nat)
    ensures
        next_pow2(len) >= len,
        next_pow2(len) >= 1,
        len >= 1 ==> next_pow2(len) < 2 * len,
        len > 1 ==> next_pow2(len) % 2 == 0,
        exists|k: nat| next_pow2(len) == #[trigger] two_pow(k),
    decreases len,
{
    if len <= 1 {
        assert(two_pow(0) == 1);
    } else {
        let h = ((len + 1) / 2) as nat;
        lemma_next_pow2_props(h);
        let k = choose|k: nat| next_pow2(h) == #[trigger] two_pow(k);
        assert(two_pow(k + 1) == 2 * two_pow(k));
        if h > 1 && len % 2 == 1 {
            assert(next_pow2(h) != len);
        }
    }
}

/// The ROM size assumed for an image: for an image of at least 8 MiB, the
/// largest of 8, 16 and 32 MiB that the image holds; for a smaller image,
/// the smallest power of two that holds it.
pub proof fn lemma_rom_size(len: nat)
    ensures
        len >= 0x80_0000 ==> ({
            let r = spec_rom_size(len);
            &&& r == 0x80_0000 || r == 0x100_0000 || r == 0x200_0000
            &&& r <= len
            &&& r == 0x200_0000 || len < 2 * r
        }),
        len < 0x80_0000 ==> ({
            let r = spec_rom_size(len);
            &&& len <= r
            &&& len >= 1 ==> r < 2 * len
            &&& exists|k: nat| r == #[trigger] two_pow(k)
        }),
{
    lemma_next_pow2_props(len);
}

fn next_pow2_exec(len: usize) -> (r: usize)
    requires
        len <= 0x80_0000,
    ensures
        r == next_pow2(len as nat),
        1 <= r <= 0x80_0000,
    decreases len,
{
    proof {
        reveal_with_fuel(two_pow, 24);
        assert(two_pow(23) == 0x80_0000);
        lemma_next_pow2_bound(len as nat, 23);
    }
    if len <= 1 {
        1
    } else {
        2 * next_pow2_exec((len + 1) / 2)
    }
}

fn rom_size_for(len: usize) -> (r: usize)
    ensures
        r == spec_rom_size(len as nat),
        1 <= r <= 0x200_0000,
{
    if 0x200_0000 <= len {
        0x200_0000
    } else if 0x100_0000 <= len {
        0x100_0000
    } else if 0x80_0000 <= len {
        0x80_0000
    } else {
        next_pow2_exec(len)
    }
}

/// Fixed EFS offsets where AMD places the FET, in search order.
pub open spec fn fet_fixed_offsets() -> Seq<int> {
    seq![0x20000, 0x820000, 0x920000, 0xc20000, 0xe20000, 0xf20000, 0xfa0000]
}

/// Padding (`FF FF FF FF` or `00 00 00 00`) at `i` followed by the FET magic.
pub open spec fn padded_fet_at(buf: Seq<u8>, i: int) -> bool {
    &&& 0 <= i
    &&& i + 8 <= buf.len()
    &&& (tag_at(buf, i, [0xffu8, 0xff, 0xff, 0xff]) || tag_at(buf, i, [0u8, 0, 0, 0]))
    &&& tag_at(buf, i + 4, FET_MAGIC)
}

/// FET location: first fixed offset holding the magic, else the first padded magic found by scanning.
#[verifier::opaque]
pub open spec fn spec_find_fet(buf: Seq<u8>) -> Option<int> {
    if exists|k: int| 0 <= k < 7 && #[trigger] tag_at(buf, fet_fixed_offsets()[k], FET_MAGIC) {
        let k = choose|k: int|
            0 <= k < 7 && #[trigger] tag_at(buf, fet_fixed_offsets()[k], FET_MAGIC) && forall|j: int|
                0 <= j < k ==> !#[trigger] tag_at(buf, fet_fixed_offsets()[j], FET_MAGIC);
        Some(fet_fixed_offsets()[k])
    } else if exists|i: int| #[trigger] padded_fet_at(buf, i) {
        let i = choose|i: int| #[trigger] padded_fet_at(buf, i) && forall|j: int| 0 <= j < i ==> !#[trigger] padded_fet_at(buf, j);
        Some(i + 4)
    } else {
        None
    }
}

/// Locate the FET: try fixed offsets, else scan for `FF`/`00` padding followed by magic.
#[verifier::loop_isolation(false)]
fn find_fet(buf: &[u8]) -> (r: Option<usize>)
    ensures
        match spec_find_fet(buf@) {
            Some(o) => r == Some(o as usize),
            None => r is None,
        },
{
    reveal(spec_find_fet);
    let n = buf.len();
    assert(buf@.len() == n);
    let offs: [usize; 7] = [0x20000, 0x820000, 0x920000, 0xc20000, 0xe20000, 0xf20000, 0xfa0000];
    let ghost fixed = fet_fixed_offsets();
    assert(offs@ =~= fixed.map_values(|x: int| x as usize));
    let mut k: usize = 0;
    while k < 7
        invariant
            k <= 7,
            forall|j: int| 0 <= j < k ==> !#[trigger] tag_at(buf@, fixed[j], FET_MAGIC),
        decreases 7 - k,
    {
        let off = offs[k];
        assert(off == fixed[k as int]);
        if off + 4 <= n && has_tag(buf, off, FET_MAGIC) {
            proof {
                let c = choose|c: int|
                    0 <= c < 7 && #[trigger] tag_at(buf@, fixed[c], FET_MAGIC) && forall|j: int|
                        0 <= j < c ==> !#[trigger] tag_at(buf@, fixed[j], FET_MAGIC);
                assert(tag_at(buf@, fixed[k as int], FET_MAGIC));
                if c < k {
                } else if c > k {
                    assert(!tag_at(buf@, fixed[k as int], FET_MAGIC));
                }
            }
            return Some(off);
        }
        k = k + 1;
    }
    assert(!exists|k: int| 0 <= k < 7 && #[trigger] tag_at(buf@, fet_fixed_offsets()[k], FET_MAGIC));
    if n >= 8 {
        let mut i: usize = 0;
        while i <= n - 8
            invariant
                forall|j: int| 0 <= j < i ==> !#[trigger] padded_fet_at(buf@, j),
            decreases n - i,
        {
            if (has_tag(buf, i, [0xff, 0xff, 0xff, 0xff]) || has_tag(buf, i, [0, 0, 0, 0])) && has_tag(
                buf,
                i + 4,
                FET_MAGIC,
            ) {
                proof {
                    assert(padded_fet_at(buf@, i as int));
                    let c = choose|c: int| #[trigger] padded_fet_at(buf@, c) && forall|j: int|
                        0 <= j < c ==> !#[trigger] padded_fet_at(buf@, j);
                    if c < i {
                    } else if c > i {
                        assert(!padded_fet_at(buf@, i as int));
                    }
                }
                return Some(i + 4);
            }
            i = i + 1;
        }
    }
    assert forall|j: int| !#[trigger] padded_fet_at(buf@, j) by {
        if padded_fet_at(buf@, j) {
            assert(j + 8 <= n);
        }
    }
    None
}

/// Translation of a mapped ROM address into a file offset.
pub open spec fn spec_mask_addr(addr: u32, rom_size: usize) -> usize {
    if addr > 0xff00_0000 && rom_size > 0x100_0000 {
        (addr & 0x00ff_ffff) as usize
    } else {
        (addr as usize) & ((rom_size - 1) as usize)
    }
}

/// A mapped address becomes its offset within the ROM window: modulo the
/// ROM size for 8 and 16 MiB ROMs, and on a 32 MiB ROM modulo 16 MiB for an
/// address in the top 16 MiB of the 4 GiB space (above 0xff00_0000).
pub proof fn lemma_mask_addr_window(addr: u32)
    ensures
        spec_mask_addr(addr, 0x80_0000) == addr % 0x80_0000,
        spec_mask_addr(addr, 0x100_0000) == addr % 0x100_0000,
        addr > 0xff00_0000 ==> spec_mask_addr(addr, 0x200_0000) == addr % 0x100_0000,
        addr <= 0xff00_0000 ==> spec_mask_addr(addr, 0x200_0000) == addr % 0x200_0000,
{
    assert(addr & 0x00ff_ffffu32 == addr % 0x100_0000) by (bit_vector);
    let a = addr as usize;
    assert(a & 0x7f_ffffusize == a % 0x80_0000) by (bit_vector);
    assert(a & 0xff_ffffusize == a % 0x100_0000) by (bit_vector);
    assert(a & 0x1ff_ffffusize == a % 0x200_0000) by (bit_vector);
}

/// Translate a mapped ROM address into a file offset.
fn mask_addr(addr: u32, rom_size: usize) -> (r: usize)
    requires
        rom_size >= 1,
    ensures
        r == spec_mask_addr(addr, rom_size),
        r <= 0xffff_ffff,
{
    if addr > 0xff00_0000 && rom_size > 16 * 1024 * 1024 {
        let r = (addr & 0x00ff_ffff) as usize;
        assert(addr & 0x00ff_ffff <= 0xffff_ffff) by (bit_vector);
        r
    } else {
        let m = rom_size - 1;
        let a = addr as usize;
        let r = a & m;
        assert(a & m <= a) by (bit_vector);
        r
    }
}

/// Directory magic at `o`.
pub open spec fn dir_magic_at(buf: Seq<u8>, o: int) -> bool {
    ||| tag_at(buf, o, PSP)
    ||| tag_at(buf, o, PL2)
    ||| tag_at(buf, o, BHD)
    ||| tag_at(buf, o, BL2)
    ||| tag_at(buf, o, PSP2)
    ||| tag_at(buf, o, BHD2)
}

/// Combo directories (`2PSP`, `2BHD`) list sub-directories, not entries.
pub open spec fn combo_magic(m: Seq<u8>) -> bool {
    m == PSP2@ || m == BHD2@
}

/// BIOS directories (`$BHD`, `$BL2`, `2BHD`) use 24-byte entries.
pub open spec fn bios_magic(m: Seq<u8>) -> bool {
    m == BHD@ || m == BL2@ || m == BHD2@
}

/// Size of one directory entry.
pub open spec fn entry_size(is_bios: bool) -> int {
    if is_bios {
        24
    } else {
        16
    }
}

/// The entry stored at `e`.
pub open spec fn spec_entry(buf: Seq<u8>, e: int, rom_size: usize) -> Entry {
    Entry {
        type_id: buf[e],
        size: le32(buf, e + 4) as u32,
        location: spec_mask_addr(le32(buf, e + 8) as u32, rom_size) as u32,
    }
}

/// The entry lies inside the ROM with a plausible size.
pub open spec fn sane_entry(e: Entry, rom_size: usize) -> bool {
    e.location < rom_size && e.size <= rom_size
}

/// A directory header at `o` passes every check of `parse_directory`.
#[verifier::opaque]
pub open spec fn dir_at(buf: Seq<u8>, o: int, rom_size: usize) -> bool {
    let m = buf.subrange(o, o + 4);
    let count = le32(buf, o + 8);
    let is_bios = bios_magic(m);
    let es = entry_size(is_bios);
    &&& o + 0x10 <= buf.len()
    &&& dir_magic_at(buf, o)
    &&& 1 <= count <= 256
    &&& !combo_magic(m) ==> {
        &&& o + 0x10 + count * es <= buf.len()
        &&& exists|k: int| 0 <= k < count && #[trigger] sane_entry(spec_entry(buf, o + 0x10 + k * es, rom_size), rom_size)
    }
}

/// `d` is the directory parsed at `o`.
#[verifier::opaque]
pub open spec fn dir_from(d: Directory, buf: Seq<u8>, o: int, rom_size: usize) -> bool {
    let m = buf.subrange(o, o + 4);
    let count = le32(buf, o + 8);
    let es = entry_size(d.is_bios);
    &&& d.magic@ == m
    &&& d.offset == o
    &&& d.count == count
    &&& d.is_bios == bios_magic(m)
    &&& d.is_combo == combo_magic(m)
    &&& d.is_combo ==> d.entries@.len() == 0
    &&& !d.is_combo ==> d.entries@.len() == count && forall|k: int| 0 <= k < count ==> #[trigger] d.entries@[k] == spec_entry(buf, o + 0x10 + k * es, rom_size)
}

/// Validate and parse a directory at `offset` (rejects embedded false positives).
#[verifier::loop_isolation(false)]
fn parse_directory(buf: &[u8], offset: usize, rom_size: usize) -> (r: Option<Directory>)
    requires
        1 <= rom_size <= 0x200_0000,
    ensures
        r is Some <==> dir_at(buf@, offset as int, rom_size),
        r matches Some(d) ==> dir_from(d, buf@, offset as int, rom_size) && d.offset == offset,
{
    reveal(dir_at);
    reveal(dir_from);
    let n = buf.len();
    assert(buf@.len() == n);
    if offset > n || n - offset < 0x10 {
        return None;
    }
    let magic: [u8; 4] = [buf[offset], buf[offset + 1], buf[offset + 2], buf[offset + 3]];
    assert(magic@ =~= buf@.subrange(offset as int, offset + 4));
    let is_psp = has_tag(buf, offset, PSP);
    let is_pl2 = has_tag(buf, offset, PL2);
    let is_bhd = has_tag(buf, offset, BHD);
    let is_bl2 = has_tag(buf, offset, BL2);
    let is_psp2 = has_tag(buf, offset, PSP2);
    let is_bhd2 = has_tag(buf, offset, BHD2);
    if !(is_psp || is_pl2 || is_bhd || is_bl2 || is_psp2 || is_bhd2) {
        return None;
    }
    let is_combo = is_psp2 || is_bhd2;
    let is_bios = is_bhd || is_bl2 || is_bhd2;
    let count = u32_le(buf, offset + 8);
    if count == 0 || count > 256 {
        return None;
    }
    assert(count <= 256);

    let mut entries: Vec<Entry> = Vec::new();
    if !is_combo {
        let esize: usize = if is_bios { 24 } else { 16 };
        let base = offset + 0x10;
        let cnt = count as usize;
        assert(cnt * esize <= 256 * 24) by (nonlinear_arith)
            requires
                cnt <= 256,
                esize <= 24,
        ;
        if cnt * esize > n - base {
            return None;
        }
        let mut sane = false;
        let mut i: usize = 0;
        while i < count as usize
            invariant
                i <= count,
                entries@.len() == i,
                esize == entry_size(is_bios),
                base + count * esize <= n,
                forall|k: int| 0 <= k < i ==> #[trigger] entries@[k] == spec_entry(buf@, base + k * esize, rom_size),
                sane <==> exists|k: int| 0 <= k < i && #[trigger] sane_entry(spec_entry(buf@, base + k * esize, rom_size), rom_size),
            decreases count - i,
        {
            assert(i * esize + esize <= count * esize) by (nonlinear_arith)
                requires
                    i < count,
            ;
            let e = base + i * esize;
            let entry = Entry {
                type_id: buf[e],
                size: u32_le(buf, e + 4),
                location: mask_addr(u32_le(buf, e + 8), rom_size) as u32,
            };
            if (entry.location as usize) < rom_size && (entry.size as usize) <= rom_size {
                sane = true;
                assert(sane_entry(spec_entry(buf@, base + i * esize, rom_size), rom_size));
            }
            entries.push(entry);
            i = i + 1;
        }
        if !sane {
            return None;
        }
        proof {
            let k = choose|k: int| 0 <= k < count && #[trigger] sane_entry(spec_entry(buf@, base + k * esize, rom_size), rom_size);
            assert(sane_entry(spec_entry(buf@, offset + 0x10 + k * entry_size(bios_magic(magic@)), rom_size), rom_size));
        }
    }
    Some(Directory { magic, offset, count, is_bios, is_combo, entries })
}

/// `dirs` lists, in increasing offset order, every directory found in `buf`.
pub open spec fn all_dirs(dirs: Seq<Directory>, buf: Seq<u8>, rom_size: usize) -> bool {
    &&& forall|k: int, l: int| 0 <= k < l < dirs.len() ==> dirs[k].offset < dirs[l].offset
    &&& forall|k: int| 0 <= k < dirs.len() ==> dir_from(#[trigger] dirs[k], buf, dirs[k].offset as int, rom_size)
    &&& forall|k: int| 0 <= k < dirs.len() ==> dir_at(buf, (#[trigger] dirs[k]).offset as int, rom_size)
    &&& forall|o: int| #[trigger] dir_at(buf, o, rom_size) ==> exists|k: int| 0 <= k < dirs.len() && (#[trigger] dirs[k]).offset == o
}

/// Every directory found by scanning `buf`, in offset order.
#[verifier::loop_isolation(false)]
fn scan_directories(buf: &[u8], rom_size: usize) -> (dirs: Vec<Directory>)
    requires
        1 <= rom_size <= 0x200_0000,
    ensures
        all_dirs(dirs@, buf@, rom_size),
{
    let mut directories: Vec<Directory> = Vec::new();
    let n = buf.len();
    assert(buf@.len() == n);
    let mut i: usize = 0;
    if n >= 4 {
        while i <= n - 4
            invariant
                i <= n - 3,
                forall|k: int, l: int| 0 <= k < l < directories@.len() ==> directories@[k].offset < directories@[l].offset,
                forall|k: int| 0 <= k < directories@.len() ==> (#[trigger] directories@[k]).offset < i,
                forall|k: int| 0 <= k < directories@.len() ==> dir_from(#[trigger] directories@[k], buf@, directories@[k].offset as int, rom_size),
                forall|k: int| 0 <= k < directories@.len() ==> dir_at(buf@, (#[trigger] directories@[k]).offset as int, rom_size),
                forall|o: int| 0 <= o < i && #[trigger] dir_at(buf@, o, rom_size) ==> exists|k: int| 0 <= k < directories@.len() && (#[trigger] directories@[k]).offset == o,
            decreases n - i,
        {
            let ghost before = directories@;
            // Magics start with '$' or '2'; cheap pre-filter.
            if buf[i] == 0x24 || buf[i] == 0x32 {
                if let Some(dir) = parse_directory(buf, i, rom_size) {
                    directories.push(dir);
                    proof {
                        assert forall|o: int| 0 <= o < i && #[trigger] dir_at(buf@, o, rom_size) implies exists|k: int| 0 <= k < directories@.len() && (#[trigger] directories@[k]).offset == o by {
                            let k = choose|k: int| 0 <= k < before.len() && (#[trigger] before[k]).offset == o;
                            assert(directories@[k] == before[k]);
                        }
                        assert(directories@[directories@.len() - 1].offset == i);
                    }
                }
            } else {
                proof {
                    reveal(dir_at);
                    if dir_at(buf@, i as int, rom_size) {
                        assert(buf@.subrange(i as int, i + 4)[0] == buf@[i as int]);
                    }
                }
            }
            proof {
                assert forall|o: int| 0 <= o < i + 1 && #[trigger] dir_at(buf@, o, rom_size) implies exists|k: int| 0 <= k < directories@.len() && (#[trigger] directories@[k]).offset == o by {
                    if o == i {
                        assert(directories@[directories@.len() - 1].offset == i);
                    }
                }
            }
            i = i + 1;
        }
    }
    proof {
        assert forall|o: int| #[trigger] dir_at(buf@, o, rom_size) implies exists|k: int| 0 <= k < directories@.len() && (#[trigger] directories@[k]).offset == o by {
            reveal(dir_at);
            assert(dir_magic_at(buf@, o));
            assert(0 <= o && o + 4 <= n);
        }
    }
    directories
}

/// Parse AMD firmware in a full SPI image (scans for directory magics; FET
/// layout varies across Zen generations).
#[verifier::rlimit(40)]
pub fn parse(buf: &[u8]) -> (r: Option<AmdFirmware>)
    ensures
        ({
            let rom = spec_rom_size(buf@.len());
            let fet = spec_find_fet(buf@);
            &&& (r is None <==> (fet is None && forall|o: int| !#[trigger] dir_at(buf@, o, rom as usize)))
            &&& r matches Some(fw) ==> {
                &&& fw.rom_size == rom
                &&& (match fet {
                    Some(o) => fw.fet_offset == Some(o as usize),
                    None => fw.fet_offset is None,
                })
                &&& all_dirs(fw.directories@, buf@, rom as usize)
            }
        }),
{
    let fet_offset = find_fet(buf);
    let rom_size = rom_size_for(buf.len());
    let directories = scan_directories(buf, rom_size);
    if fet_offset.is_none() && directories.len() == 0 {
        proof {
            assert forall|o: int| !#[trigger] dir_at(buf@, o, rom_size as usize) by {
                if dir_at(buf@, o, rom_size) {
                    let k = choose|k: int| 0 <= k < directories@.len() && (#[trigger] directories@[k]).offset == o;
                }
            }
        }
        return None;
    }
    proof {
        let rom = spec_rom_size(buf@.len());
        assert(rom as usize == rom_size);
        if fet_offset.is_none() {
            assert(spec_find_fet(buf@) is None);
            assert(directories@.len() > 0);
            assert(dir_at(buf@, directories@[0].offset as int, rom_size));
        } else {
            assert(spec_find_fet(buf@) is Some);
        }
    }
    Some(AmdFirmware { fet_offset, rom_size, directories })
}

/// Name of a PSP directory entry type.
pub open spec fn spec_psp_entry_name(t: u8) -> Seq<char> {
    if t == 0x00 {
        "AMD_PUBLIC_KEY"@
    } else if t == 0x01 {
        "PSP_FW_BOOT_LOADER"@
    } else if t == 0x02 {
        "PSP_FW_TRUSTED_OS"@
    } else if t == 0x03 {
        "PSP_FW_RECOVERY_BOOT_LOADER"@
    } else if t == 0x04 {
        "PSP_NV_DATA"@
    } else if t == 0x05 {
        "BIOS_PUBLIC_KEY"@
    } else if t == 0x06 {
        "BIOS_RTM_FIRMWARE"@
    } else if t == 0x07 {
        "BIOS_RTM_SIGNATURE"@
    } else if t == 0x08 {
        "SMU_OFFCHIP_FW"@
    } else if t == 0x09 {
        "SEC_DBG_PUBLIC_KEY"@
    } else if t == 0x0a {
        "OEM_PSP_FW_PUBLIC_KEY"@
    } else if t == 0x0b {
        "SOFT_FUSE_CHAIN"@
    } else if t == 0x0c {
        "PSP_BOOT_TIME_TRUSTLETS"@
    } else if t == 0x10 {
        "PSP_AGESA_RESUME_FW"@
    } else if t == 0x12 {
        "SMU_OFF_CHIP_FW_2"@
    } else if t == 0x13 {
        "DEBUG_UNLOCK"@
    } else if t == 0x21 {
        "WRAPPED_IKEK"@
    } else if t == 0x22 {
        "TOKEN_UNLOCK"@
    } else if t == 0x24 {
        "SEC_GASKET"@
    } else if t == 0x25 {
        "MP2_FW"@
    } else if t == 0x28 {
        "DRIVER_ENTRIES"@
    } else if 0x30 <= t <= 0x37 {
        "ABL"@
    } else if t == 0x38 {
        "SEV_DATA"@
    } else if t == 0x39 {
        "SEV_CODE"@
    } else if t == 0x40 {
        "PSP_FW_L2_PTR"@
    } else if t == 0x44 {
        "FW_XHCI"@
    } else if t == 0x48 {
        "PSP_FW_L2A_PTR"@
    } else if t == 0x49 {
        "BIOS_L2AB_PTR"@
    } else if t == 0x4a {
        "PSP_FW_L2B_PTR"@
    } else if t == 0x4e {
        "PMU_PUBKEY"@
    } else {
        "unknown"@
    }
}

/// Human-readable name for a PSP directory entry type.
pub fn psp_entry_name(t: u8) -> (s: &'static str)
    ensures
        s@ == spec_psp_entry_name(t),
{
    if t == 0x00 {
        "AMD_PUBLIC_KEY"
    } else if t == 0x01 {
        "PSP_FW_BOOT_LOADER"
    } else if t == 0x02 {
        "PSP_FW_TRUSTED_OS"
    } else if t == 0x03 {
        "PSP_FW_RECOVERY_BOOT_LOADER"
    } else if t == 0x04 {
        "PSP_NV_DATA"
    } else if t == 0x05 {
        "BIOS_PUBLIC_KEY"
    } else if t == 0x06 {
        "BIOS_RTM_FIRMWARE"
    } else if t == 0x07 {
        "BIOS_RTM_SIGNATURE"
    } else if t == 0x08 {
        "SMU_OFFCHIP_FW"
    } else if t == 0x09 {
        "SEC_DBG_PUBLIC_KEY"
    } else if t == 0x0a {
        "OEM_PSP_FW_PUBLIC_KEY"
    } else if t == 0x0b {
        "SOFT_FUSE_CHAIN"
    } else if t == 0x0c {
        "PSP_BOOT_TIME_TRUSTLETS"
    } else if t == 0x10 {
        "PSP_AGESA_RESUME_FW"
    } else if t == 0x12 {
        "SMU_OFF_CHIP_FW_2"
    } else if t == 0x13 {
        "DEBUG_UNLOCK"
    } else if t == 0x21 {
        "WRAPPED_IKEK"
    } else if t == 0x22 {
        "TOKEN_UNLOCK"
    } else if t == 0x24 {
        "SEC_GASKET"
    } else if t == 0x25 {
        "MP2_FW"
    } else if t == 0x28 {
        "DRIVER_ENTRIES"
    } else if 0x30 <= t && t <= 0x37 {
        "ABL"
    } else if t == 0x38 {
        "SEV_DATA"
    } else if t == 0x39 {
        "SEV_CODE"
    } else if t == 0x40 {
        "PSP_FW_L2_PTR"
    } else if t == 0x44 {
        "FW_XHCI"
    } else if t == 0x48 {
        "PSP_FW_L2A_PTR"
    } else if t == 0x49 {
        "BIOS_L2AB_PTR"
    } else if t == 0x4a {
        "PSP_FW_L2B_PTR"
    } else if t == 0x4e {
        "PMU_PUBKEY"
    } else {
        "unknown"
    }
}

/// Name of a BIOS directory entry type.
pub open spec fn spec_bios_entry_name(t: u8) -> Seq<char> {
    if t == 0x60 {
        "APCB"@
    } else if t == 0x61 {
        "APOB"@
    } else if t == 0x62 {
        "BIOS"@
    } else if t == 0x63 {
        "APOB_NV_COPY"@
    } else if t == 0x64 {
        "PMU_CODE"@
    } else if t == 0x65 {
        "PMU_DATA"@
    } else if t == 0x66 {
        "MICROCODE_PATCH"@
    } else if t == 0x67 {
        "CORE_MCE_DATA"@
    } else if t == 0x68 {
        "APCB_COPY"@
    } else if t == 0x69 {
        "EARLY_VGA_IMAGE"@
    } else if t == 0x70 {
        "APOB_NV"@
    } else if t == 0x77 {
        "DDRPHY_PCU_FW"@
    } else {
        "unknown"@
    }
}

/// Human-readable name for a BIOS directory entry type.
pub fn bios_entry_name(t: u8) -> (s: &'static str)
    ensures
        s@ == spec_bios_entry_name(t),
{
    if t == 0x60 {
        "APCB"
    } else if t == 0x61 {
        "APOB"
    } else if t == 0x62 {
        "BIOS"
    } else if t == 0x63 {
        "APOB_NV_COPY"
    } else if t == 0x64 {
        "PMU_CODE"
    } else if t == 0x65 {
        "PMU_DATA"
    } else if t == 0x66 {
        "MICROCODE_PATCH"
    } else if t == 0x67 {
        "CORE_MCE_DATA"
    } else if t == 0x68 {
        "APCB_COPY"
    } else if t == 0x69 {
        "EARLY_VGA_IMAGE"
    } else if t == 0x70 {
        "APOB_NV"
    } else if t == 0x77 {
        "DDRPHY_PCU_FW"
    } else {
        "unknown"
    }
}

} // verus!
