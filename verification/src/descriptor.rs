//! Intel Flash Descriptor (IFD) parsing and per-generation disable-ME strap bits.

use crate::bytes::{le32, u32_le};
use crate::region::Region;
use crate::fmt::dec;
use vstd::prelude::*;

verus! {

/// IFD signature `0x0FF0A55A`, little-endian on disk: `5A A5 F0 0F`.
pub const FD_SIGNATURE: [u8; 4] = [0x5a, 0xa5, 0xf0, 0x0f];

/// `$FPT`.
pub const FPT_MAGIC: [u8; 4] = [0x24, 0x46, 0x50, 0x54];

/// Start offset encoded in an FLREG register: bits 0..15, in 4 KiB units.
pub open spec fn flreg_start(flreg: u32) -> int {
    (flreg % 0x8000) as int * 0x1000
}

/// Exclusive end offset encoded in an FLREG register: bits 16..31 hold the
/// last 4 KiB block.
pub open spec fn flreg_end(flreg: u32) -> int {
    ((flreg / 0x1_0000) % 0x8000) as int * 0x1000 + 0x1000
}

/// FLREG value for `[start, end)`: both offsets taken modulo 2^32, in 4 KiB units.
pub open spec fn flreg_of(start: int, end: int) -> int {
    ((start % 0x1_0000_0000) / 0x1000) % 0x8000 + (((end % 0x1_0000_0000) - 1) / 0x1000) % 0x8000
        * 0x1_0000
}

/// Decode an FLREG register into `(start, end)` byte offsets; `end` is exclusive.
pub fn flreg_to_start_end(flreg: u32) -> (r: (usize, usize))
    ensures
        r.0 == flreg_start(flreg),
        r.1 == flreg_end(flreg),
{
    let start = ((flreg % 0x8000) as usize) * 0x1000;
    let end = (((flreg / 0x1_0000) % 0x8000) as usize) * 0x1000 + 0x1000;
    (start, end)
}

/// Encode `(start, end)` into an FLREG register value.
pub fn start_end_to_flreg(start: usize, end: usize) -> (r: u32)
    requires
        end as int % 0x1_0000_0000 != 0,
    ensures
        r == flreg_of(start as int, end as int),
{
    let start = (start as u64 % 0x1_0000_0000u64) as u32;
    let end = (end as u64 % 0x1_0000_0000u64) as u32;
    (start / 0x1000) % 0x8000 + ((end - 1) / 0x1000) % 0x8000 * 0x1_0000
}

/// The FLREG encoding read as bit fields: the start block in bits 0..15, the
/// last block in bits 16..31, each 15 bits wide.
pub proof fn lemma_flreg_bits(flreg: u32, start: u32, end: u32)
    requires
        end != 0,
    ensures
        flreg_start(flreg) == ((flreg & 0x7fff) << 12u32) as int,
        flreg_end(flreg) == (((flreg >> 4u32) & 0x7fff000) | 0xfff) as int + 1,
        flreg_of(start as int, end as int) == (((start & 0x7fff000) >> 12u32) | ((((end - 1) as u32) & 0x7fff000)
            << 4u32)) as int,
{
    let e1 = (end - 1) as u32;
    assert(((flreg & 0x7fff) << 12u32) == (flreg % 0x8000) * 0x1000) by (bit_vector);
    assert((((flreg >> 4u32) & 0x7fff000) | 0xfff) == ((flreg / 0x1_0000) % 0x8000) * 0x1000 + 0xfff)
        by (bit_vector);
    assert((((start & 0x7fff000) >> 12u32) | ((e1 & 0x7fff000) << 4u32)) == (start / 0x1000) % 0x8000 + ((e1
        / 0x1000) % 0x8000) * 0x1_0000) by (bit_vector);
    assert(start as int % 0x1_0000_0000 == start);
    assert(end as int % 0x1_0000_0000 == end);
}

/// Decoding an encoded region gives it back, for 4 KiB-aligned offsets below
/// 128 MiB with a non-empty end.
pub proof fn lemma_flreg_roundtrip(start: int, end: int)
    requires
        0 <= start < 0x800_0000,
        0 < end <= 0x800_0000,
        start % 0x1000 == 0,
        end % 0x1000 == 0,
    ensures
        flreg_start(flreg_of(start, end) as u32) == start,
        flreg_end(flreg_of(start, end) as u32) == end,
{
    let f = flreg_of(start, end);
    assert(start % 0x1_0000_0000 == start);
    assert(end % 0x1_0000_0000 == end);
    let a = (start / 0x1000) % 0x8000;
    let b = ((end - 1) / 0x1000) % 0x8000;
    assert(start / 0x1000 < 0x8000);
    assert((end - 1) / 0x1000 < 0x8000);
    assert(a == start / 0x1000);
    assert(b == (end - 1) / 0x1000);
    assert(f == a + b * 0x1_0000);
    assert(0 <= f < 0x1_0000_0000);
    assert((f as u32) as int == f);
    assert(f % 0x8000 == a);
    assert((f / 0x1_0000) == b);
    assert(b * 0x1000 + 0x1000 == end);
    assert(a * 0x1000 == start);
}

/// Parsed descriptor layout. `fpsba` = soft-strap base (== `fisba` for gen 2+).
#[derive(Debug, Clone, Copy)]
pub struct Descriptor {
    pub frba: usize,
    pub fmba: usize,
    pub fisba: usize,
    pub fmsba: usize,
    pub fpsba: usize,
    pub fd: Region,
    pub bios: Region,
    pub me: Region,
    pub gbe: Region,
}

/// Offset of FLMAP0 (FLMAP1, FLMAP2 follow): just after the signature.
pub open spec fn flmap_base(sig_at_zero: bool) -> int {
    if sig_at_zero {
        4
    } else {
        0x14
    }
}

/// FRBA as decoded from FLMAP0.
pub open spec fn spec_frba(buf: Seq<u8>, sig_at_zero: bool) -> int {
    ((le32(buf, flmap_base(sig_at_zero)) / 0x1_0000) % 0x100) * 0x10
}

/// The buffer holds FLMAP0..2 and the FLREG registers of the descriptor, BIOS
/// and ME regions at FRBA.
pub open spec fn descriptor_readable(buf: Seq<u8>, sig_at_zero: bool) -> bool {
    &&& flmap_base(sig_at_zero) + 12 <= buf.len()
    &&& spec_frba(buf, sig_at_zero) + 12 <= buf.len()
}

/// The region described by the FLREG register at `o`.
pub open spec fn flreg_region(buf: Seq<u8>, o: int) -> Region {
    let f = le32(buf, o) as u32;
    Region { start: flreg_start(f) as usize, end: flreg_end(f) as usize }
}

/// The descriptor that `buf` encodes.
pub open spec fn spec_descriptor(buf: Seq<u8>, sig_at_zero: bool) -> Descriptor {
    let base = flmap_base(sig_at_zero);
    let flmap1 = le32(buf, base + 4);
    let flmap2 = le32(buf, base + 8);
    let frba = spec_frba(buf, sig_at_zero);
    let fisba = ((flmap1 / 0x1_0000) % 0x100) * 0x10;
    Descriptor {
        frba: frba as usize,
        fmba: ((flmap1 % 0x100) * 0x10) as usize,
        fisba: fisba as usize,
        fmsba: ((flmap2 % 0x100) * 0x10) as usize,
        fpsba: fisba as usize,
        fd: flreg_region(buf, frba),
        bios: flreg_region(buf, frba + 4),
        me: flreg_region(buf, frba + 8),
        gbe: if frba + 16 <= buf.len() {
            flreg_region(buf, frba + 12)
        } else {
            Region { start: 0, end: 0 }
        },
    }
}

/// Whether `buf` holds the descriptor fields `Descriptor::parse` reads.
pub fn is_readable(buf: &[u8], sig_at_zero: bool) -> (r: bool)
    ensures
        r == descriptor_readable(buf@, sig_at_zero),
{
    let n = buf.len();
    let base: usize = if sig_at_zero {
        0x4
    } else {
        0x14
    };
    if base + 12 > n {
        return false;
    }
    let flmap0 = u32_le(buf, base);
    let frba = (((flmap0 / 0x1_0000) % 0x100) * 0x10) as usize;
    frba + 12 <= n
}

impl Descriptor {
    /// Parse the descriptor; `sig_at_zero` = FD signature at offset 0 (gen 1) vs 0x10.
    pub fn parse(buf: &[u8], sig_at_zero: bool) -> (d: Self)
        requires
            descriptor_readable(buf@, sig_at_zero),
        ensures
            d == spec_descriptor(buf@, sig_at_zero),
    {
        let base: usize = if sig_at_zero { 0x4 } else { 0x14 };
        let flmap0 = u32_le(buf, base);
        let flmap1 = u32_le(buf, base + 4);
        let flmap2 = u32_le(buf, base + 8);

        let frba = (((flmap0 / 0x1_0000) % 0x100) * 0x10) as usize;
        let fmba = ((flmap1 % 0x100) * 0x10) as usize;
        let fisba = (((flmap1 / 0x1_0000) % 0x100) * 0x10) as usize;
        let fmsba = ((flmap2 % 0x100) * 0x10) as usize;
        let fpsba = fisba;

        let (fd_s, fd_e) = flreg_to_start_end(u32_le(buf, frba));
        let (bios_s, bios_e) = flreg_to_start_end(u32_le(buf, frba + 4));
        let (me_s, me_e) = flreg_to_start_end(u32_le(buf, frba + 8));
        // FLREG3 (GbE) is read only where the buffer holds it.
        let (gbe_s, gbe_e) = if frba + 16 <= buf.len() {
            flreg_to_start_end(u32_le(buf, frba + 12))
        } else {
            (0, 0)
        };

        Descriptor {
            frba,
            fmba,
            fisba,
            fmsba,
            fpsba,
            fd: Region::new(fd_s, fd_e),
            bios: Region::new(bios_s, bios_e),
            me: Region::new(me_s, me_e),
            gbe: Region::new(gbe_s, gbe_e),
        }
    }
}

/// Location of the disable-ME strap for a generation. Gen 1 is special-cased (two straps, bit 0).
pub struct DisableBit {
    /// Strap dword offset relative to `fpsba`.
    pub strap_off: usize,
    /// Bit index within the strap dword.
    pub bit: u32,
    /// Human-readable strap name, for messages.
    pub name: &'static str,
}

/// `(strap offset, bit)` of the disable strap per generation.
pub open spec fn disable_strap(generation: u8) -> (usize, u32) {
    if generation == 2 {
        (0x28, 7)
    } else if generation == 4 {
        (0x70, 16)
    } else if generation == 5 {
        (0x80, 16)
    } else if generation == 6 {
        (0x7c, 16)
    } else if generation == 7 {
        (0xdc, 16)
    } else {
        (0x00, 16)
    }
}

/// Display name of the disable strap per generation.
pub open spec fn disable_name(generation: u8) -> Seq<char> {
    if generation == 2 {
        "AltMeDisable bit in PCHSTRP10"@
    } else if generation == 4 {
        "HAP bit in PCHSTRP28"@
    } else if generation == 5 {
        "HAP bit in PCHSTRP32"@
    } else if generation == 6 {
        "HAP bit in PCHSTRP31"@
    } else if generation == 7 {
        "HAP bit in PCHSTRP55"@
    } else {
        "HAP bit in PCHSTRP0"@
    }
}

/// The disable strap is the one its name gives: strap `PCHSTRPn` is the dword
/// at `fpsba + 4 * n`, and the bit is 7 for AltMeDisable (generation 2) and
/// 16 for HAP (later generations). Generations 2, 4, 5, 6 and 7 use
/// PCHSTRP10, PCHSTRP28, PCHSTRP32, PCHSTRP31 and PCHSTRP55.
pub proof fn lemma_disable_strap_named(g: u8)
    requires
        g != 1,
    ensures
        disable_strap(g).0 % 4 == 0,
        g == 2 ==> disable_strap(g).0 / 4 == 10,
        g == 4 ==> disable_strap(g).0 / 4 == 28,
        g == 5 ==> disable_strap(g).0 / 4 == 32,
        g == 6 ==> disable_strap(g).0 / 4 == 31,
        g == 7 ==> disable_strap(g).0 / 4 == 55,
        g == 2 ==> disable_name(g) == "AltMeDisable bit in PCHSTRP"@ + dec((disable_strap(g).0 / 4) as nat)
            && disable_strap(g).1 == 7,
        g != 2 ==> disable_name(g) == "HAP bit in PCHSTRP"@ + dec((disable_strap(g).0 / 4) as nat)
            && disable_strap(g).1 == 16,
{
    reveal_strlit("AltMeDisable bit in PCHSTRP");
    reveal_strlit("HAP bit in PCHSTRP");
    reveal_strlit("AltMeDisable bit in PCHSTRP10");
    reveal_strlit("HAP bit in PCHSTRP28");
    reveal_strlit("HAP bit in PCHSTRP32");
    reveal_strlit("HAP bit in PCHSTRP31");
    reveal_strlit("HAP bit in PCHSTRP55");
    reveal_strlit("HAP bit in PCHSTRP0");
    reveal_with_fuel(dec, 3);
    if g == 2 {
        assert(dec(10) =~= seq!['1', '0']);
        assert(disable_name(g) =~= "AltMeDisable bit in PCHSTRP"@ + dec(10));
    } else if g == 4 {
        assert(dec(28) =~= seq!['2', '8']);
        assert(disable_name(g) =~= "HAP bit in PCHSTRP"@ + dec(28));
    } else if g == 5 {
        assert(dec(32) =~= seq!['3', '2']);
        assert(disable_name(g) =~= "HAP bit in PCHSTRP"@ + dec(32));
    } else if g == 6 {
        assert(dec(31) =~= seq!['3', '1']);
        assert(disable_name(g) =~= "HAP bit in PCHSTRP"@ + dec(31));
    } else if g == 7 {
        assert(dec(55) =~= seq!['5', '5']);
        assert(disable_name(g) =~= "HAP bit in PCHSTRP"@ + dec(55));
    } else {
        assert(dec(0) =~= seq!['0']);
        assert(disable_name(g) =~= "HAP bit in PCHSTRP"@ + dec(0));
    }
}

/// Resolve the HAP/AltMeDisable strap for gen >= 2; `None` for gen 1.
pub fn disable_bit(generation: u8) -> (r: Option<DisableBit>)
    ensures
        generation == 1 ==> r is None,
        generation != 1 ==> (r matches Some(db) && (db.strap_off, db.bit) == disable_strap(generation)
            && db.name@ == disable_name(generation)),
{
    if generation == 1 {
        return None;
    }
    Some(
        if generation == 2 {
            DisableBit { strap_off: 0x28, bit: 7, name: "AltMeDisable bit in PCHSTRP10" }
        } else if generation == 3 {
            DisableBit { strap_off: 0x00, bit: 16, name: "HAP bit in PCHSTRP0" }
        } else if generation == 4 {
            DisableBit { strap_off: 0x70, bit: 16, name: "HAP bit in PCHSTRP28" }
        } else if generation == 5 {
            DisableBit { strap_off: 0x80, bit: 16, name: "HAP bit in PCHSTRP32" }
        } else if generation == 6 {
            DisableBit { strap_off: 0x7c, bit: 16, name: "HAP bit in PCHSTRP31" }
        } else if generation == 7 {
            DisableBit { strap_off: 0xdc, bit: 16, name: "HAP bit in PCHSTRP55" }
        } else {
            DisableBit { strap_off: 0x00, bit: 16, name: "HAP bit in PCHSTRP0" }
        },
    )
}

} // verus!
