//! UEFI BIOS-region walker: firmware volumes -> FFS files -> sections, and
//! the legacy PCI option ROMs (video BIOS and the like) stored in the image.

use crate::bytes::{le16, le24, le32, le64, u16_le, u24_le, u32_le, u64_le};
use crate::fmt::{hex_padded, push_hex_padded, push_str};
use crate::locks::{contains, occurs};
use crate::text::{has_tag, tag_at};
use vstd::prelude::*;

verus! {

/// `PCIR`: signature of the PCI data structure of an option ROM.
pub const PCIR_TAG: [u8; 4] = [0x50, 0x43, 0x49, 0x52];

/// One firmware volume found while walking.
#[derive(Debug, Clone, Copy)]
pub struct Volume {
    pub offset: usize,
    pub length: u64,
    pub files: usize,
}

/// A legacy PCI expansion ROM (`55 AA` image with a `PCIR` data structure).
#[derive(Debug, Clone)]
pub struct OptionRom {
    /// Offset of the ROM within the data it was found in.
    pub offset: usize,
    pub vendor: u16,
    pub device: u16,
    /// 24-bit PCI class code: base class, subclass, programming interface.
    pub class_code: u32,
    /// Image size from the ROM header (512-byte units).
    pub size: usize,
    pub data: Vec<u8>,
}

/// The plain values of an option ROM.
pub struct RomView {
    pub offset: int,
    pub vendor: u16,
    pub device: u16,
    pub class_code: u32,
    pub size: int,
    pub data: Seq<u8>,
}

pub open spec fn rom_view(r: OptionRom) -> RomView {
    RomView {
        offset: r.offset as int,
        vendor: r.vendor,
        device: r.device,
        class_code: r.class_code,
        size: r.size as int,
        data: r.data@,
    }
}

/// Size in bytes announced by the ROM header at `i`.
pub open spec fn rom_size(s: Seq<u8>, i: int) -> int {
    s[i + 2] as int * 512
}

/// Offset of the PCI data structure, relative to the ROM at `i`.
pub open spec fn pcir_offset(s: Seq<u8>, i: int) -> int {
    le16(s, i + 0x18)
}

/// An option ROM starts at `i`: the `55 AA` signature, a non-zero size that
/// fits in `s`, and a `PCIR` structure (through its class code) inside it.
pub open spec fn rom_at(s: Seq<u8>, i: int) -> bool {
    &&& 0 <= i
    &&& i + 0x1a <= s.len()
    &&& s[i] == 0x55
    &&& s[i + 1] == 0xaa
    &&& s[i + 2] > 0
    &&& i + rom_size(s, i) <= s.len()
    &&& pcir_offset(s, i) + 0x10 <= rom_size(s, i)
    &&& tag_at(s, i + pcir_offset(s, i), PCIR_TAG)
}

/// The option ROM at `i`.
pub open spec fn rom_of(s: Seq<u8>, i: int) -> RomView {
    let p = i + pcir_offset(s, i);
    RomView {
        offset: i,
        vendor: le16(s, p + 4) as u16,
        device: le16(s, p + 6) as u16,
        class_code: le24(s, p + 0xd) as u32,
        size: rom_size(s, i),
        data: s.subrange(i, i + rom_size(s, i)),
    }
}

/// The option ROMs of `s` from `i` on: scanning byte by byte, a ROM found is
/// taken whole and the scan resumes after it.
pub open spec fn roms_from(s: Seq<u8>, i: int) -> Seq<RomView>
    decreases s.len() - i,
{
    if i < 0 || i + 0x1a > s.len() {
        seq![]
    } else if rom_at(s, i) {
        seq![rom_of(s, i)] + roms_from(s, i + rom_size(s, i))
    } else {
        roms_from(s, i + 1)
    }
}

/// The views of a list of option ROMs.
pub open spec fn roms_view(v: Seq<OptionRom>) -> Seq<RomView> {
    v.map_values(|r: OptionRom| rom_view(r))
}

/// Read the option ROM at `i`.
fn read_rom(s: &[u8], i: usize) -> (r: OptionRom)
    requires
        rom_at(s@, i as int),
    ensures
        rom_view(r) == rom_of(s@, i as int),
{
    let n = s.len();
    let size = s[i + 2] as usize * 512;
    let p = i + u16_le(s, i + 0x18) as usize;
    let data = crate::bytes::copy_bytes(vstd::slice::slice_subrange(s, i, i + size));
    OptionRom {
        offset: i,
        vendor: u16_le(s, p + 4),
        device: u16_le(s, p + 6),
        class_code: u24_le(s, p + 0xd),
        size,
        data,
    }
}

/// Every option ROM in `s`, in order.
pub fn scan_option_roms(s: &[u8]) -> (v: Vec<OptionRom>)
    ensures
        roms_view(v@) == roms_from(s@, 0),
{
    let n = s.len();
    let mut v: Vec<OptionRom> = Vec::new();
    let mut i: usize = 0;
    while n - i >= 0x1a
        invariant
            n == s@.len(),
            i <= n,
            roms_view(v@) + roms_from(s@, i as int) == roms_from(s@, 0),
        decreases n - i,
    {
        let mut found = false;
        if s[i] == 0x55 && s[i + 1] == 0xaa && s[i + 2] > 0 {
            let size = s[i + 2] as usize * 512;
            let p = u16_le(s, i + 0x18) as usize;
            if size <= n - i && p + 0x10 <= size && has_tag(s, i + p, PCIR_TAG) {
                found = true;
            }
        }
        if found {
            let r = read_rom(s, i);
            let size = r.size;
            proof {
                assert(roms_view(v@.push(r)) =~= roms_view(v@) + seq![rom_of(s@, i as int)]);
            }
            v.push(r);
            i = i + size;
        } else {
            assert(!rom_at(s@, i as int));
            i = i + 1;
        }
    }
    assert(roms_from(s@, i as int) =~= Seq::<RomView>::empty());
    v
}

/// Vendor names by PCI vendor ID.
pub open spec fn spec_vendor_name(vendor: u16) -> Seq<char> {
    if vendor == 0x8086 {
        "Intel"@
    } else if vendor == 0x10de {
        "NVIDIA"@
    } else if vendor == 0x1002 {
        "AMD"@
    } else {
        "unknown"@
    }
}

/// Lower-case vendor name used in file names.
pub open spec fn vendor_slug(vendor: u16) -> Seq<char> {
    if vendor == 0x8086 {
        "intel"@
    } else if vendor == 0x10de {
        "nvidia"@
    } else if vendor == 0x1002 {
        "amd"@
    } else {
        "unknown"@
    }
}

/// `vgabios` for display controllers, `oprom` otherwise.
pub open spec fn rom_kind(class_code: u32) -> Seq<char> {
    if class_code / 0x1_0000 == 3 {
        "vgabios"@
    } else {
        "oprom"@
    }
}

impl OptionRom {
    /// Base class 0x03: a display controller (video BIOS).
    pub fn is_display(&self) -> (b: bool)
        ensures
            b == (self.class_code / 0x1_0000 == 3),
    {
        self.class_code / 0x1_0000 == 3
    }

    /// Name of the PCI vendor, `unknown` when not listed.
    pub fn vendor_name(&self) -> (s: &'static str)
        ensures
            s@ == spec_vendor_name(self.vendor),
    {
        if self.vendor == 0x8086 {
            "Intel"
        } else if self.vendor == 0x10de {
            "NVIDIA"
        } else if self.vendor == 0x1002 {
            "AMD"
        } else {
            "unknown"
        }
    }

    /// File name stem for the extracted ROM: kind, vendor, vendor and device IDs.
    pub fn file_stem(&self) -> (s: String)
        ensures
            s@ == rom_kind(self.class_code) + "_"@ + vendor_slug(self.vendor) + "_"@ + hex_padded(
                self.vendor as nat,
                4,
            ) + "_"@ + hex_padded(self.device as nat, 4),
    {
        let mut s = if self.class_code / 0x1_0000 == 3 {
            String::from_str("vgabios")
        } else {
            String::from_str("oprom")
        };
        push_str(&mut s, "_");
        let slug = if self.vendor == 0x8086 {
            "intel"
        } else if self.vendor == 0x10de {
            "nvidia"
        } else if self.vendor == 0x1002 {
            "amd"
        } else {
            "unknown"
        };
        push_str(&mut s, slug);
        push_str(&mut s, "_");
        push_hex_padded(&mut s, self.vendor as u64, 4);
        push_str(&mut s, "_");
        push_hex_padded(&mut s, self.device as u64, 4);
        s
    }
}

// ---------------------------------------------------------------------------
// Vendor signatures

/// BIOS vendor signature strings, checked against raw and decompressed
/// content, most specific first.
pub open spec fn vendor_markers() -> Seq<(Seq<u8>, Seq<char>)> {
    seq![
        (seq![0x49u8, 0x6e, 0x73, 0x79, 0x64, 0x65, 0x48, 0x32, 0x4f], "Insyde H2O"@),
        (seq![0x24u8, 0x49, 0x42, 0x49, 0x4f, 0x53, 0x49, 0x24], "Insyde H2O"@),
        (seq![0x41u8, 0x6d, 0x65, 0x72, 0x69, 0x63, 0x61, 0x6e, 0x20, 0x4d, 0x65, 0x67, 0x61, 0x74, 0x72, 0x65, 0x6e, 0x64, 0x73], "AMI Aptio"@),
        (seq![0x41u8, 0x4d, 0x49, 0x54, 0x53, 0x45], "AMI Aptio"@),
        (seq![0x5fu8, 0x41, 0x4d, 0x49, 0x50, 0x46, 0x41, 0x54], "AMI Aptio"@),
        (seq![0x50u8, 0x68, 0x6f, 0x65, 0x6e, 0x69, 0x78, 0x20, 0x54, 0x65, 0x63, 0x68, 0x6e, 0x6f, 0x6c, 0x6f, 0x67, 0x69, 0x65, 0x73], "Phoenix"@),
        (seq![0x50u8, 0x68, 0x6f, 0x65, 0x6e, 0x69, 0x78, 0x54, 0x65, 0x63, 0x68, 0x6e, 0x6f, 0x6c, 0x6f, 0x67, 0x69, 0x65, 0x73], "Phoenix"@),
        (seq![0x50u8, 0x68, 0x6f, 0x65, 0x6e, 0x69, 0x78, 0x54, 0x72, 0x75, 0x73, 0x74], "Phoenix"@),
        (seq![0x50u8, 0x68, 0x6f, 0x65, 0x6e, 0x69, 0x78, 0x49, 0x6d, 0x61, 0x67, 0x65], "Phoenix"@),
        (seq![0x44u8, 0x61, 0x73, 0x68, 0x61, 0x72, 0x6f], "Dasharo (coreboot)"@),
        (seq![0x4cu8, 0x41, 0x52, 0x43, 0x48, 0x49, 0x56, 0x45], "coreboot (CBFS)"@),
    ]
}

/// The vendor of the first marker from index `k` on that occurs in `data`.
pub open spec fn vendor_from(data: Seq<u8>, k: int) -> Option<Seq<char>>
    decreases 11 - k,
{
    if k < 0 || k >= 11 {
        None
    } else if occurs(data, vendor_markers()[k].0) {
        Some(vendor_markers()[k].1)
    } else {
        vendor_from(data, k + 1)
    }
}

/// Marker `k` of `vendor_markers`.
fn vendor_marker(k: usize) -> (r: (Vec<u8>, &'static str))
    requires
        k < 11,
    ensures
        r.0@ == vendor_markers()[k as int].0,
        r.1@ == vendor_markers()[k as int].1,
{
    let r = if k == 0 {
        (vec![0x49u8, 0x6e, 0x73, 0x79, 0x64, 0x65, 0x48, 0x32, 0x4f], "Insyde H2O")
    } else if k == 1 {
        (vec![0x24u8, 0x49, 0x42, 0x49, 0x4f, 0x53, 0x49, 0x24], "Insyde H2O")
    } else if k == 2 {
        (vec![0x41u8, 0x6d, 0x65, 0x72, 0x69, 0x63, 0x61, 0x6e, 0x20, 0x4d, 0x65, 0x67, 0x61, 0x74, 0x72, 0x65, 0x6e, 0x64, 0x73], "AMI Aptio")
    } else if k == 3 {
        (vec![0x41u8, 0x4d, 0x49, 0x54, 0x53, 0x45], "AMI Aptio")
    } else if k == 4 {
        (vec![0x5fu8, 0x41, 0x4d, 0x49, 0x50, 0x46, 0x41, 0x54], "AMI Aptio")
    } else if k == 5 {
        (vec![0x50u8, 0x68, 0x6f, 0x65, 0x6e, 0x69, 0x78, 0x20, 0x54, 0x65, 0x63, 0x68, 0x6e, 0x6f, 0x6c, 0x6f, 0x67, 0x69, 0x65, 0x73], "Phoenix")
    } else if k == 6 {
        (vec![0x50u8, 0x68, 0x6f, 0x65, 0x6e, 0x69, 0x78, 0x54, 0x65, 0x63, 0x68, 0x6e, 0x6f, 0x6c, 0x6f, 0x67, 0x69, 0x65, 0x73], "Phoenix")
    } else if k == 7 {
        (vec![0x50u8, 0x68, 0x6f, 0x65, 0x6e, 0x69, 0x78, 0x54, 0x72, 0x75, 0x73, 0x74], "Phoenix")
    } else if k == 8 {
        (vec![0x50u8, 0x68, 0x6f, 0x65, 0x6e, 0x69, 0x78, 0x49, 0x6d, 0x61, 0x67, 0x65], "Phoenix")
    } else if k == 9 {
        (vec![0x44u8, 0x61, 0x73, 0x68, 0x61, 0x72, 0x6f], "Dasharo (coreboot)")
    } else {
        (vec![0x4cu8, 0x41, 0x52, 0x43, 0x48, 0x49, 0x56, 0x45], "coreboot (CBFS)")
    };
    proof {
        reveal_strlit("Insyde H2O");
        reveal_strlit("AMI Aptio");
        reveal_strlit("Phoenix");
        reveal_strlit("Dasharo (coreboot)");
        reveal_strlit("coreboot (CBFS)");
        assert(r.0@ =~= vendor_markers()[k as int].0);
    }
    r
}

/// The BIOS vendor whose signature string occurs first in the marker list.
pub fn detect_vendor(data: &[u8]) -> (r: Option<&'static str>)
    ensures
        match vendor_from(data@, 0) {
            Some(name) => r matches Some(s) && s@ == name,
            None => r is None,
        },
{
    let mut k: usize = 0;
    while k < 11
        invariant
            k <= 11,
            vendor_from(data@, 0) == vendor_from(data@, k as int),
        decreases 11 - k,
    {
        let (needle, name) = vendor_marker(k);
        if contains(data, needle.as_slice()) {
            return Some(name);
        }
        k = k + 1;
    }
    None
}

// ---------------------------------------------------------------------------
// Firmware volumes, files and sections

/// `_FVH`: firmware volume signature, 0x28 bytes into the volume header.
pub const FVH_TAG: [u8; 4] = [0x5f, 0x46, 0x56, 0x48];

/// Offset of `_FVH` within a firmware volume header.
pub const FV_SIG_OFFSET: usize = 0x28;

/// Deepest section nesting walked.
pub const MAX_DEPTH: usize = 16;

/// Decompressed payloads walked inside one another at most this deep.
pub const MAX_EXPANSIONS: usize = 64;

/// LZMA custom-decompress GUID EE4E5898-3914-4259-9D6E-DC7BD79403CF.
pub open spec fn lzma_guid() -> Seq<u8> {
    seq![0x98u8, 0x58, 0x4e, 0xee, 0x14, 0x39, 0x59, 0x42, 0x9d, 0x6e, 0xdc, 0x7b, 0xd7, 0x94, 0x03, 0xcf]
}

/// Tiano custom-decompress GUID A31280AD-481E-41B6-95E8-127F4C984779.
pub open spec fn tiano_guid() -> Seq<u8> {
    seq![0xadu8, 0x80, 0x12, 0xa3, 0x1e, 0x48, 0xb6, 0x41, 0x95, 0xe8, 0x12, 0x7f, 0x4c, 0x98, 0x47, 0x79]
}

/// Compression schemes of firmware sections.
#[derive(Debug, Clone, Copy)]
pub enum Compression {
    EfiStandard,
    Tiano,
    Lzma,
}

/// Aggregate result of walking the BIOS region.
#[derive(Debug, Clone)]
pub struct BiosImage {
    pub vendor: Option<&'static str>,
    pub volumes: Vec<Volume>,
    pub files: usize,
    /// PE32 / TE executable sections (drivers/applications).
    pub modules: usize,
    pub decompressed_sections: usize,
    pub decompressed_bytes: usize,
    pub lzma_sections: usize,
    /// UI-name strings (section type 0x15).
    pub names: Vec<String>,
    /// Legacy PCI option ROMs, those of the raw image first.
    pub option_roms: Vec<OptionRom>,
}

/// What a walk accumulates: the plain values of a `BiosImage`.
pub struct Walk {
    pub vendor: Option<Seq<char>>,
    pub volumes: Seq<Volume>,
    pub files: int,
    pub modules: int,
    pub decompressed_sections: int,
    pub decompressed_bytes: int,
    pub lzma_sections: int,
    pub names: Seq<Seq<char>>,
    pub roms: Seq<RomView>,
}

/// The vendor name's characters.
pub open spec fn vendor_view(v: Option<&'static str>) -> Option<Seq<char>> {
    match v {
        Some(s) => Some(s@),
        None => None,
    }
}

pub open spec fn walk_of(img: BiosImage) -> Walk {
    Walk {
        vendor: vendor_view(img.vendor),
        volumes: img.volumes@,
        files: img.files as int,
        modules: img.modules as int,
        decompressed_sections: img.decompressed_sections as int,
        decompressed_bytes: img.decompressed_bytes as int,
        lzma_sections: img.lzma_sections as int,
        names: img.names@.map_values(|n: String| n@),
        roms: roms_view(img.option_roms@),
    }
}

/// Bytes of `s` from `pos` on (0 past the end).
pub open spec fn left(s: Seq<u8>, pos: int) -> int {
    if 0 <= pos <= s.len() {
        s.len() - pos
    } else {
        0
    }
}

/// `x` rounded up to a multiple of 8.
pub open spec fn align8(x: int) -> int {
    (x + 7) / 8 * 8
}

/// `x` rounded up to a multiple of 4.
pub open spec fn align4(x: int) -> int {
    (x + 3) / 4 * 4
}

/// The character with scalar value `c`.
pub open spec fn char_of(c: int) -> char {
    choose|ch: char| #[trigger] code_of(ch) == c
}

/// The scalar value of `ch`.
pub open spec fn code_of(ch: char) -> int {
    ch as int
}

/// UTF-16LE text of `b` from `i` up to the first NUL unit, appended to
/// `acc`; `None` when a unit is a surrogate (not a character).
pub open spec fn utf16_from(b: Seq<u8>, i: int, acc: Seq<char>) -> Option<Seq<char>>
    decreases b.len() - i,
{
    if i < 0 || i + 1 >= b.len() {
        Some(acc)
    } else {
        let c = le16(b, i);
        if c == 0 {
            Some(acc)
        } else if 0xd800 <= c <= 0xdfff {
            None
        } else {
            utf16_from(b, i + 2, acc.push(char_of(c)))
        }
    }
}

/// File area of the volume at `fv` (of length `fv_len`): after the extended
/// header when there is one, else after the header.
pub open spec fn files_start(s: Seq<u8>, fv: int) -> int {
    let hdr_len = le16(s, fv + 0x30);
    let ext = le16(s, fv + 0x34);
    if ext != 0 {
        let eh = fv + ext;
        if eh + 0x14 > s.len() {
            fv + hdr_len
        } else {
            align8(eh + le32(s, eh + 0x10))
        }
    } else {
        fv + hdr_len
    }
}

/// The volume at `fv`, walked into `w`; `None` where reading it overflows.
pub open spec fn sv_volume(s: Seq<u8>, fv: int, nest: int, ex: spec_fn(Seq<u8>, Compression) -> Option<Seq<u8>>, w: Walk) -> Option<Walk>
    decreases nest, left(s, fv), 41int,
{
    if fv < 0 || fv + 0x38 > s.len() {
        Some(w)
    } else {
        let fv_len = le64(s, fv + 0x20);
        if fv_len == 0 {
            Some(w)
        } else if fv + fv_len > u64::MAX {
            None
        } else if fv + fv_len > s.len() || le16(s, fv + 0x30) < 0x38 {
            Some(w)
        } else {
            match sv_files(s, files_start(s, fv), fv + fv_len, 0, nest, ex, w) {
                Some(r) => Some(
                    Walk {
                        volumes: r.0.volumes.push(Volume { offset: fv as usize, length: fv_len as u64, files: r.1 as usize }),
                        ..r.0
                    },
                ),
                None => None,
            }
        }
    }
}

/// The FFS file header at `pos` of a volume ending at `end`: `Some(None)`
/// where the list of files ends, `Some(Some((data_start, file_size, type)))`
/// for a file, `None` where reading it overflows or runs off the buffer.
pub open spec fn file_head(s: Seq<u8>, pos: int, end: int) -> Option<Option<(int, int, u8)>> {
    let size = le24(s, pos + 0x14);
    let large = s[pos + 0x13] % 2 == 1;
    if size == 0xff_ffff || size == 0 {
        Some(None)
    } else if large && pos + 0x20 > s.len() {
        None
    } else {
        let data_start = if large {
            pos + 0x20
        } else {
            pos + 0x18
        };
        let file_size = if large {
            le64(s, pos + 0x18)
        } else {
            size
        };
        if pos + file_size > usize::MAX {
            None
        } else if pos + file_size > end || file_size <= data_start - pos {
            Some(None)
        } else {
            Some(Some((data_start, file_size, s[pos + 0x12])))
        }
    }
}

/// The files of a volume from `pos` to `end`, `count` of them seen so far.
pub open spec fn sv_files(s: Seq<u8>, pos: int, end: int, count: int, nest: int, ex: spec_fn(Seq<u8>, Compression) -> Option<Seq<u8>>, w: Walk) -> Option<(Walk, int)>
    decreases nest, left(s, pos), 40int,
{
    if pos < 0 || pos + 0x18 > end || end > s.len() {
        Some((w, count))
    } else {
        match file_head(s, pos, end) {
            None => None,
            Some(None) => Some((w, count)),
            Some(Some(h)) => match sv_file(s, pos, h.0, pos + h.1, h.2, count, nest, ex, w) {
                Some(r) => sv_files(s, align8(pos + h.1), end, r.1, nest, ex, r.0),
                None => None,
            },
        }
    }
}

/// One file of type `ftype` spanning `pos..file_end`, its data at `data_start`;
/// padding files are skipped.
pub open spec fn sv_file(s: Seq<u8>, pos: int, data_start: int, file_end: int, ftype: u8, count: int, nest: int, ex: spec_fn(Seq<u8>, Compression) -> Option<Seq<u8>>, w: Walk) -> Option<
    (Walk, int),
>
    decreases nest, left(s, pos), 39int,
{
    if ftype == 0xf0 {
        Some((w, count))
    } else if pos < 0 || data_start <= pos || data_start > file_end || file_end > s.len() {
        Some((w, count))
    } else if w.files + 1 > usize::MAX || count + 1 > usize::MAX {
        None
    } else {
        match sv_sections(s, data_start, file_end, 0, nest, ex, Walk { files: w.files + 1, ..w }) {
            Some(w1) => Some((w1, count + 1)),
            None => None,
        }
    }
}

/// The section header at `pos`, before `end`: `(size, content, type)`, or
/// `None` where the run of sections ends.
pub open spec fn section_head(s: Seq<u8>, pos: int, end: int) -> Option<(int, int, u8)> {
    let size0 = le24(s, pos);
    if size0 == 0xff_ffff && pos + 8 > end {
        None
    } else {
        let size = if size0 == 0xff_ffff {
            le32(s, pos + 4)
        } else {
            size0
        };
        let content = if size0 == 0xff_ffff {
            pos + 8
        } else {
            pos + 4
        };
        if size < 4 || pos + size > end {
            None
        } else {
            Some((size, content, s[pos + 3]))
        }
    }
}

/// One section of type `stype` spanning `pos..sec_end`, its content at `content`.
pub open spec fn sv_section(s: Seq<u8>, pos: int, content: int, sec_end: int, stype: u8, depth: int, nest: int, ex: spec_fn(Seq<u8>, Compression) -> Option<Seq<u8>>, w: Walk) -> Option<
    Walk,
>
    decreases nest, left(s, pos), 3 * (17 - depth) + 1,
{
    if depth < 0 || depth > 16 || pos < 0 || content <= pos || sec_end < pos + 4 || sec_end > s.len() {
        Some(w)
    } else if stype == 1 {
        sv_decompress(s, content, sec_end, depth, nest, ex, w)
    } else if stype == 2 {
        sv_guid(s, pos, content, sec_end, depth, nest, ex, w)
    } else if 0x10 <= stype <= 0x12 {
        if w.modules + 1 > usize::MAX {
            None
        } else {
            Some(Walk { modules: w.modules + 1, ..w })
        }
    } else if stype == 0x15 {
        if content > sec_end {
            None
        } else {
            match utf16_from(s.subrange(content, sec_end), 0, seq![]) {
                Some(name) => if name.len() > 0 {
                    Some(Walk { names: w.names.push(name), ..w })
                } else {
                    Some(w)
                },
                None => Some(w),
            }
        }
    } else if stype == 0x17 {
        sv_slice(s, content, sec_end, depth, nest, ex, w)
    } else {
        Some(w)
    }
}

/// The sections from `pos` to `end` at nesting `depth`.
pub open spec fn sv_sections(s: Seq<u8>, pos: int, end: int, depth: int, nest: int, ex: spec_fn(Seq<u8>, Compression) -> Option<Seq<u8>>, w: Walk) -> Option<Walk>
    decreases nest, left(s, pos), 3 * (17 - depth) + 2,
{
    if depth < 0 || depth > 16 || pos < 0 || pos + 4 > end || end > s.len() {
        Some(w)
    } else {
        match section_head(s, pos, end) {
            None => Some(w),
            Some(h) => match sv_section(s, pos, h.1, pos + h.0, h.2, depth, nest, ex, w) {
                Some(w1) => sv_sections(s, align4(pos + h.0), end, depth, nest, ex, w1),
                None => None,
            },
        }
    }
}

/// A payload `data` that a decompressor gave at nesting `depth`: counted,
/// searched for a vendor signature (while none is known) and for option
/// ROMs, and, while the budget `nest` of nested payloads lasts, walked as
/// sections.
pub open spec fn sv_expanded(data: Seq<u8>, depth: int, nest: int, ex: spec_fn(Seq<u8>, Compression) -> Option<Seq<u8>>, w: Walk) -> Option<Walk>
    decreases nest, 0int, 0int,
{
    if w.decompressed_sections + 1 > usize::MAX || w.decompressed_bytes + data.len() > usize::MAX {
        None
    } else {
        let w1 = Walk {
            decompressed_sections: w.decompressed_sections + 1,
            decompressed_bytes: w.decompressed_bytes + data.len(),
            vendor: if w.vendor is None {
                vendor_from(data, 0)
            } else {
                w.vendor
            },
            roms: w.roms + roms_from(data, 0),
            ..w
        };
        if nest <= 0 || depth < 0 || depth > 16 || data.len() > 0x7fff_feff_ffff_ffff {
            Some(w1)
        } else {
            sv_sections(data, 0, data.len() as int, depth + 1, nest - 1, ex, w1)
        }
    }
}

/// A compression section: a stored payload is walked as sections; a
/// compressed one goes to the decompressor (EFI standard, then Tiano).
pub open spec fn sv_decompress(s: Seq<u8>, content: int, sec_end: int, depth: int, nest: int, ex: spec_fn(Seq<u8>, Compression) -> Option<Seq<u8>>, w: Walk) -> Option<Walk>
    decreases nest, left(s, content), 0int,
{
    if content < 0 || content + 5 > sec_end || sec_end > s.len() || depth < 0 || depth > 16 {
        Some(w)
    } else if s[content + 4] == 0 {
        sv_sections(s, content + 5, sec_end, depth + 1, nest, ex, w)
    } else {
        let payload = s.subrange(content + 5, sec_end);
        match ex(payload, Compression::EfiStandard) {
            Some(data) => sv_expanded(data, depth, nest, ex, w),
            None => match ex(payload, Compression::Tiano) {
                Some(data) => sv_expanded(data, depth, nest, ex, w),
                None => Some(w),
            },
        }
    }
}

/// A GUID-defined section: an LZMA payload goes to the decompressor (and is
/// counted as not decoded when that fails), a Tiano one too (Tiano, then EFI
/// standard); any other holds plain sections.
pub open spec fn sv_guid(s: Seq<u8>, sec_start: int, content: int, sec_end: int, depth: int, nest: int, ex: spec_fn(Seq<u8>, Compression) -> Option<Seq<u8>>, w: Walk) -> Option<Walk>
    decreases nest, left(s, sec_start), 3 * (17 - depth),
{
    if sec_start < 0 || content < sec_start || content + 0x14 > sec_end || sec_end > s.len() || depth < 0 || depth
        > 16 {
        Some(w)
    } else {
        let guid = s.subrange(content, content + 16);
        let inner = sec_start + le16(s, content + 16);
        let payload = s.subrange(inner, sec_end);
        if inner >= sec_end {
            Some(w)
        } else if guid == lzma_guid() {
            match ex(payload, Compression::Lzma) {
                Some(data) => sv_expanded(data, depth, nest, ex, w),
                None => if w.lzma_sections + 1 > usize::MAX {
                    None
                } else {
                    Some(Walk { lzma_sections: w.lzma_sections + 1, ..w })
                },
            }
        } else if guid == tiano_guid() {
            match ex(payload, Compression::Tiano) {
                Some(data) => sv_expanded(data, depth, nest, ex, w),
                None => match ex(payload, Compression::EfiStandard) {
                    Some(data) => sv_expanded(data, depth, nest, ex, w),
                    None => Some(w),
                },
            }
        } else {
            sv_sections(s, inner, sec_end, depth + 1, nest, ex, w)
        }
    }
}

/// A nested firmware volume image.
pub open spec fn sv_slice(s: Seq<u8>, start: int, end: int, depth: int, nest: int, ex: spec_fn(Seq<u8>, Compression) -> Option<Seq<u8>>, w: Walk) -> Option<Walk>
    decreases nest, left(s, start), 43int,
{
    if depth > 16 || start < 0 || start + 0x2c > end || end > s.len() {
        Some(w)
    } else if tag_at(s, start + 0x28, FVH_TAG) {
        sv_volume(s, start, nest, ex, w)
    } else {
        Some(w)
    }
}

/// `fv` lies inside one of the volumes already walked.
pub open spec fn covered(vs: Seq<Volume>, fv: int) -> bool {
    exists|k: int| 0 <= k < vs.len() && vs[k].offset <= fv && fv < vs[k].offset + vs[k].length
}

/// A `_FVH` signature at `i` not inside a volume already walked: walk that volume.
#[verifier::opaque]
pub open spec fn scan_step(s: Seq<u8>, i: int, nest: int, ex: spec_fn(Seq<u8>, Compression) -> Option<Seq<u8>>, w: Walk) -> Option<Walk> {
    if tag_at(s, i, FVH_TAG) && i >= 0x28 && !covered(w.volumes, i - 0x28) {
        sv_volume(s, i - 0x28, nest, ex, w)
    } else {
        Some(w)
    }
}

/// The top-level volumes from signature position `i` on.
pub open spec fn sv_scan(s: Seq<u8>, i: int, nest: int, ex: spec_fn(Seq<u8>, Compression) -> Option<Seq<u8>>, w: Walk) -> Option<Walk>
    decreases s.len() - i,
{
    if i < 0 || i + 4 > s.len() {
        Some(w)
    } else {
        match scan_step(s, i, nest, ex, w) {
            Some(w1) => sv_scan(s, i + 1, nest, ex, w1),
            None => None,
        }
    }
}

/// The walk of an image before any volume: its own option ROMs, nothing else.
pub open spec fn walk_start(s: Seq<u8>) -> Walk {
    Walk {
        vendor: None,
        volumes: seq![],
        files: 0,
        modules: 0,
        decompressed_sections: 0,
        decompressed_bytes: 0,
        lzma_sections: 0,
        names: seq![],
        roms: roms_from(s, 0),
    }
}

/// The parse of an image whose compressed payloads the decompressor `ex`
/// expands: every top-level volume walked, then the image's own vendor
/// signature if none was found; `None` where the walk's arithmetic overflows.
pub open spec fn spec_parse(s: Seq<u8>, ex: spec_fn(Seq<u8>, Compression) -> Option<Seq<u8>>) -> Option<Walk> {
    match sv_scan(s, 0, MAX_EXPANSIONS as int, ex, walk_start(s)) {
        Some(w) => Some(
            Walk {
                vendor: if w.vendor is None {
                    vendor_from(s, 0)
                } else {
                    w.vendor
                },
                ..w
            },
        ),
        None => None,
    }
}

/// A decompressor that gives nothing.
pub open spec fn no_expansion() -> spec_fn(Seq<u8>, Compression) -> Option<Seq<u8>> {
    |p: Seq<u8>, m: Compression| None::<Seq<u8>>
}

// ---------------------------------------------------------------------------
// Every file belongs to one volume

/// Files counted by the volumes of `vs`.
pub open spec fn files_in(vs: Seq<Volume>) -> int
    decreases vs.len(),
{
    if vs.len() == 0 {
        0
    } else {
        files_in(vs.drop_last()) + vs.last().files
    }
}

/// Files counted but not yet owned by a finished volume.
pub open spec fn unowned(w: Walk) -> int {
    w.files - files_in(w.volumes)
}

proof fn lemma_volume_owns(s: Seq<u8>, fv: int, nest: int, ex: spec_fn(Seq<u8>, Compression) -> Option<Seq<u8>>, w: Walk)
    ensures
        sv_volume(s, fv, nest, ex, w) matches Some(w2) ==> unowned(w2) == unowned(w),
    decreases nest, left(s, fv), 41int,
{
    if !(fv < 0 || fv + 0x38 > s.len()) {
        let fv_len = le64(s, fv + 0x20);
        if !(fv_len == 0 || fv + fv_len > u64::MAX || fv + fv_len > s.len() || le16(s, fv + 0x30) < 0x38) {
            lemma_files_owned(s, files_start(s, fv), fv + fv_len, 0, nest, ex, w);
            if let Some(r) = sv_files(s, files_start(s, fv), fv + fv_len, 0, nest, ex, w) {
                let w2 = sv_volume(s, fv, nest, ex, w)->0;
                assert(w2.volumes.drop_last() == r.0.volumes);
            }
        }
    }
}

proof fn lemma_files_owned(s: Seq<u8>, pos: int, end: int, count: int, nest: int, ex: spec_fn(Seq<u8>, Compression) -> Option<Seq<u8>>, w: Walk)
    ensures
        sv_files(s, pos, end, count, nest, ex, w) matches Some(r) ==> (unowned(r.0) - r.1 == unowned(w) - count && count
            <= r.1 && (count <= usize::MAX ==> r.1 <= usize::MAX)),
    decreases nest, left(s, pos), 40int,
{
    if !(pos < 0 || pos + 0x18 > end || end > s.len()) {
        if let Some(Some(h)) = file_head(s, pos, end) {
            lemma_file_owned(s, pos, h.0, pos + h.1, h.2, count, nest, ex, w);
            if let Some(r) = sv_file(s, pos, h.0, pos + h.1, h.2, count, nest, ex, w) {
                lemma_files_owned(s, align8(pos + h.1), end, r.1, nest, ex, r.0);
            }
        }
    }
}

proof fn lemma_file_owned(
    s: Seq<u8>,
    pos: int,
    data_start: int,
    file_end: int,
    ftype: u8,
    count: int,
    nest: int,
    ex: spec_fn(Seq<u8>, Compression) -> Option<Seq<u8>>,
    w: Walk,
)
    ensures
        sv_file(s, pos, data_start, file_end, ftype, count, nest, ex, w) matches Some(r) ==> (unowned(r.0) - r.1
            == unowned(w) - count && count <= r.1 && (count <= usize::MAX ==> r.1 <= usize::MAX)),
    decreases nest, left(s, pos), 39int,
{
    if !(ftype == 0xf0 || pos < 0 || data_start <= pos || data_start > file_end || file_end > s.len() || w.files + 1
        > usize::MAX || count + 1 > usize::MAX) {
        lemma_sections_owned(s, data_start, file_end, 0, nest, ex, Walk { files: w.files + 1, ..w });
    }
}

proof fn lemma_sections_owned(s: Seq<u8>, pos: int, end: int, depth: int, nest: int, ex: spec_fn(Seq<u8>, Compression) -> Option<Seq<u8>>, w: Walk)
    ensures
        sv_sections(s, pos, end, depth, nest, ex, w) matches Some(w2) ==> unowned(w2) == unowned(w),
    decreases nest, left(s, pos), 3 * (17 - depth) + 2,
{
    if !(depth < 0 || depth > 16 || pos < 0 || pos + 4 > end || end > s.len()) {
        if let Some(h) = section_head(s, pos, end) {
            lemma_section_owned(s, pos, h.1, pos + h.0, h.2, depth, nest, ex, w);
            if let Some(w1) = sv_section(s, pos, h.1, pos + h.0, h.2, depth, nest, ex, w) {
                lemma_sections_owned(s, align4(pos + h.0), end, depth, nest, ex, w1);
            }
        }
    }
}

proof fn lemma_section_owned(
    s: Seq<u8>,
    pos: int,
    content: int,
    sec_end: int,
    stype: u8,
    depth: int,
    nest: int,
    ex: spec_fn(Seq<u8>, Compression) -> Option<Seq<u8>>,
    w: Walk,
)
    ensures
        sv_section(s, pos, content, sec_end, stype, depth, nest, ex, w) matches Some(w2) ==> unowned(w2) == unowned(w),
    decreases nest, left(s, pos), 3 * (17 - depth) + 1,
{
    if !(depth < 0 || depth > 16 || pos < 0 || content <= pos || sec_end < pos + 4 || sec_end > s.len()) {
        if stype == 1 {
            lemma_decompress_owned(s, content, sec_end, depth, nest, ex, w);
        } else if stype == 2 {
            lemma_guid_owned(s, pos, content, sec_end, depth, nest, ex, w);
        } else if stype == 0x17 {
            lemma_slice_owned(s, content, sec_end, depth, nest, ex, w);
        }
    }
}

proof fn lemma_expanded_owned(data: Seq<u8>, depth: int, nest: int, ex: spec_fn(Seq<u8>, Compression) -> Option<Seq<u8>>, w: Walk)
    ensures
        sv_expanded(data, depth, nest, ex, w) matches Some(w2) ==> unowned(w2) == unowned(w),
    decreases nest, 0int, 0int,
{
    if !(w.decompressed_sections + 1 > usize::MAX || w.decompressed_bytes + data.len() > usize::MAX) {
        let w1 = Walk {
            decompressed_sections: w.decompressed_sections + 1,
            decompressed_bytes: w.decompressed_bytes + data.len(),
            vendor: if w.vendor is None {
                vendor_from(data, 0)
            } else {
                w.vendor
            },
            roms: w.roms + roms_from(data, 0),
            ..w
        };
        if !(nest <= 0 || depth < 0 || depth > 16 || data.len() > 0x7fff_feff_ffff_ffff) {
            lemma_sections_owned(data, 0, data.len() as int, depth + 1, nest - 1, ex, w1);
        }
    }
}

proof fn lemma_decompress_owned(s: Seq<u8>, content: int, sec_end: int, depth: int, nest: int, ex: spec_fn(Seq<u8>, Compression) -> Option<Seq<u8>>, w: Walk)
    ensures
        sv_decompress(s, content, sec_end, depth, nest, ex, w) matches Some(w2) ==> unowned(w2) == unowned(w),
    decreases nest, left(s, content), 0int,
{
    if !(content < 0 || content + 5 > sec_end || sec_end > s.len() || depth < 0 || depth > 16) {
        if s[content + 4] == 0 {
            lemma_sections_owned(s, content + 5, sec_end, depth + 1, nest, ex, w);
        } else {
            let payload = s.subrange(content + 5, sec_end);
            if let Some(data) = ex(payload, Compression::EfiStandard) {
                lemma_expanded_owned(data, depth, nest, ex, w);
            } else if let Some(data) = ex(payload, Compression::Tiano) {
                lemma_expanded_owned(data, depth, nest, ex, w);
            }
        }
    }
}

proof fn lemma_guid_owned(
    s: Seq<u8>,
    sec_start: int,
    content: int,
    sec_end: int,
    depth: int,
    nest: int,
    ex: spec_fn(Seq<u8>, Compression) -> Option<Seq<u8>>,
    w: Walk,
)
    ensures
        sv_guid(s, sec_start, content, sec_end, depth, nest, ex, w) matches Some(w2) ==> unowned(w2) == unowned(w),
    decreases nest, left(s, sec_start), 3 * (17 - depth),
{
    if !(sec_start < 0 || content < sec_start || content + 0x14 > sec_end || sec_end > s.len() || depth < 0 || depth
        > 16) {
        let guid = s.subrange(content, content + 16);
        let inner = sec_start + le16(s, content + 16);
        let payload = s.subrange(inner, sec_end);
        if inner < sec_end {
            if guid == lzma_guid() {
                if let Some(data) = ex(payload, Compression::Lzma) {
                    lemma_expanded_owned(data, depth, nest, ex, w);
                }
            } else if guid == tiano_guid() {
                if let Some(data) = ex(payload, Compression::Tiano) {
                    lemma_expanded_owned(data, depth, nest, ex, w);
                } else if let Some(data) = ex(payload, Compression::EfiStandard) {
                    lemma_expanded_owned(data, depth, nest, ex, w);
                }
            } else {
                lemma_sections_owned(s, inner, sec_end, depth + 1, nest, ex, w);
            }
        }
    }
}

proof fn lemma_slice_owned(s: Seq<u8>, start: int, end: int, depth: int, nest: int, ex: spec_fn(Seq<u8>, Compression) -> Option<Seq<u8>>, w: Walk)
    ensures
        sv_slice(s, start, end, depth, nest, ex, w) matches Some(w2) ==> unowned(w2) == unowned(w),
    decreases nest, left(s, start), 43int,
{
    if !(depth > 16 || start < 0 || start + 0x2c > end || end > s.len()) && tag_at(s, start + 0x28, FVH_TAG) {
        lemma_volume_owns(s, start, nest, ex, w);
    }
}

proof fn lemma_scan_owned(s: Seq<u8>, i: int, nest: int, ex: spec_fn(Seq<u8>, Compression) -> Option<Seq<u8>>, w: Walk)
    ensures
        sv_scan(s, i, nest, ex, w) matches Some(w2) ==> unowned(w2) == unowned(w),
    decreases s.len() - i,
{
    reveal(scan_step);
    if !(i < 0 || i + 4 > s.len()) {
        if tag_at(s, i, FVH_TAG) && i >= 0x28 && !covered(w.volumes, i - 0x28) {
            lemma_volume_owns(s, i - 0x28, nest, ex, w);
        }
        if let Some(w1) = scan_step(s, i, nest, ex, w) {
            lemma_scan_owned(s, i + 1, nest, ex, w1);
        }
    }
}

/// Every file counted belongs to exactly one volume: an image's file count
/// is the sum of the file counts of its volumes, whatever the decompressor.
pub proof fn lemma_files_add_up(s: Seq<u8>, ex: spec_fn(Seq<u8>, Compression) -> Option<Seq<u8>>)
    ensures
        spec_parse(s, ex) matches Some(w) ==> w.files == files_in(w.volumes),
{
    lemma_scan_owned(s, 0, MAX_EXPANSIONS as int, ex, walk_start(s));
}

// ---------------------------------------------------------------------------
// The walk

/// `char::from_u32`: the character with scalar value `v`; `None` for a
/// surrogate or a value above 0x10FFFF, as std documents.
#[verifier::external_body]
fn char_from_u32(v: u32) -> (r: Option<char>)
    ensures
        r is Some <==> (v < 0xd800 || (0xe000 <= v && v <= 0x10ffff)),
        r matches Some(c) ==> c as int == v as int,
{
    char::from_u32(v)
}

/// The UTF-16LE text of `b` up to its first NUL unit; `None` when a unit is
/// not a character.
fn utf16le(b: &[u8]) -> (r: Option<String>)
    ensures
        match utf16_from(b@, 0, seq![]) {
            Some(t) => r matches Some(x) && x@ == t,
            None => r is None,
        },
{
    let mut s = String::new();
    let n = b.len();
    let mut i: usize = 0;
    while n - i >= 2
        invariant
            n == b@.len(),
            i <= n,
            utf16_from(b@, 0, seq![]) == utf16_from(b@, i as int, s@),
        decreases n - i,
    {
        let c = u16_le(b, i);
        if c == 0 {
            return Some(s);
        }
        match char_from_u32(c as u32) {
            Some(ch) => {
                assert(code_of(ch) == c as int);
                assert(ch == char_of(c as int));
                crate::fmt::push_char(&mut s, ch);
            },
            None => {
                return None;
            },
        }
        i = i + 2;
    }
    Some(s)
}

/// A decompressor: called with a payload and a scheme, it gives the
/// decompressed bytes or `None`.
pub open spec fn expander<F: Fn(&[u8], Compression) -> Option<Vec<u8>>>(f: F) -> bool {
    forall|p: &[u8], m: Compression| #[trigger] f.requires((p, m))
}

/// The bytes a decompressor gave, if any.
pub open spec fn opt_bytes(r: Option<Vec<u8>>) -> Option<Seq<u8>> {
    match r {
        Some(v) => Some(v@),
        None => None,
    }
}

/// Every call of `f` gives what `ex` names for its payload and scheme.
pub open spec fn consistent<F: Fn(&[u8], Compression) -> Option<Vec<u8>>>(f: F, ex: spec_fn(Seq<u8>, Compression) -> Option<Seq<u8>>) -> bool {
    forall|p: &[u8], m: Compression, r: Option<Vec<u8>>| #[trigger] f.ensures((p, m), r) ==> opt_bytes(r) == ex(p@, m)
}

/// `ok` tells whether the walk `o` gets through, and `w` is where it ends.
pub open spec fn step_ok(ok: bool, o: Option<Walk>, w: Walk) -> bool {
    &&& ok == o is Some
    &&& ok ==> w == o->0
}

/// Every volume recorded ends within the 64-bit address space.
pub open spec fn vols_ok(vs: Seq<Volume>) -> bool {
    forall|k: int| 0 <= k < vs.len() ==> #[trigger] vs[k].offset + vs[k].length <= u64::MAX
}

/// `a` is a prefix of `b`.
pub open spec fn grows(a: Seq<OptionRom>, b: Seq<OptionRom>) -> bool {
    a.len() <= b.len() && forall|k: int| 0 <= k < a.len() ==> #[trigger] b[k] == a[k]
}

/// Record a decompressed payload (counts, vendor, option ROMs) and, while
/// the nesting budget lasts, walk it as sections.
fn expanded<F: Fn(&[u8], Compression) -> Option<Vec<u8>>>(
    img: &mut BiosImage,
    data: Vec<u8>,
    depth: usize,
    expand: &F,
    nest: usize,
) -> (ok: bool)
    requires
        usize::MAX == u64::MAX,
        expander(*expand),
        vols_ok(old(img).volumes@),
        depth <= 16,
    ensures
        vols_ok(final(img).volumes@),
        grows(old(img).option_roms@, final(img).option_roms@),
        forall|ex: spec_fn(Seq<u8>, Compression) -> Option<Seq<u8>>| #[trigger] consistent(*expand, ex) ==> step_ok(
            ok,
            sv_expanded(data@, depth as int, nest as int, ex, walk_of(*old(img))),
            walk_of(*final(img)),
        ),
    decreases nest, 0int, 0int,
{
    let ghost w = walk_of(*img);
    if img.decompressed_sections == usize::MAX || data.len() > usize::MAX - img.decompressed_bytes {
        return false;
    }
    img.decompressed_sections = img.decompressed_sections + 1;
    img.decompressed_bytes = img.decompressed_bytes + data.len();
    if img.vendor.is_none() {
        img.vendor = detect_vendor(data.as_slice());
    }
    let ghost before = img.option_roms@;
    let mut roms = scan_option_roms(data.as_slice());
    img.option_roms.append(&mut roms);
    proof {
        assert(roms_view(img.option_roms@) =~= roms_view(before) + roms_from(data@, 0));
        assert(img.names@.map_values(|x: String| x@) == w.names);
    }
    if nest == 0 || (data.len() as u64) > 0x7fff_feff_ffff_ffffu64 {
        return true;
    }
    walk_sections(data.as_slice(), img, 0, data.len(), depth + 1, expand, nest - 1)
}

/// `file_head` on the exec side.
fn read_file_head(buf: &[u8], pos: usize, end: usize) -> (r: Option<Option<(usize, usize, u8)>>)
    requires
        crate::modules::headroom(buf@.len() as int),
        pos + 0x18 <= end <= buf@.len(),
    ensures
        match file_head(buf@, pos as int, end as int) {
            None => r is None,
            Some(None) => r == Some(None::<(usize, usize, u8)>),
            Some(Some(h)) => r matches Some(Some(x)) && x.0 == h.0 && x.1 == h.1 && x.2 == h.2,
        },
{
    let n = buf.len();
    let size = u24_le(buf, pos + 0x14) as usize;
    let large = buf[pos + 0x13] % 2 == 1;
    if size == 0xff_ffff || size == 0 {
        return Some(None);
    }
    if large && pos + 0x20 > n {
        return None;
    }
    let data_start = if large {
        pos + 0x20
    } else {
        pos + 0x18
    };
    let file_size = if large {
        u64_le(buf, pos + 0x18) as usize
    } else {
        size
    };
    if file_size > usize::MAX - pos {
        return None;
    }
    if pos + file_size > end || file_size <= data_start - pos {
        return Some(None);
    }
    Some(Some((data_start, file_size, buf[pos + 0x12])))
}

/// `section_head` on the exec side.
fn read_section_head(buf: &[u8], pos: usize, end: usize) -> (r: Option<(usize, usize, u8)>)
    requires
        crate::modules::headroom(buf@.len() as int),
        pos + 4 <= end <= buf@.len(),
    ensures
        match section_head(buf@, pos as int, end as int) {
            None => r is None,
            Some(h) => r matches Some(x) && x.0 == h.0 && x.1 == h.1 && x.2 == h.2,
        },
{
    let size0 = u24_le(buf, pos) as usize;
    if size0 == 0xff_ffff && pos + 8 > end {
        return None;
    }
    let size = if size0 == 0xff_ffff {
        u32_le(buf, pos + 4) as usize
    } else {
        size0
    };
    let content = if size0 == 0xff_ffff {
        pos + 8
    } else {
        pos + 4
    };
    if size < 4 || pos + size > end {
        return None;
    }
    Some((size, content, buf[pos + 3]))
}

/// The files of a volume from `start` to `end` (`sv_files`); gives how many
/// were walked.
fn walk_files<F: Fn(&[u8], Compression) -> Option<Vec<u8>>>(
    buf: &[u8],
    img: &mut BiosImage,
    start: usize,
    end: usize,
    expand: &F,
    nest: usize,
) -> (r: Option<usize>)
    requires
        crate::modules::headroom(buf@.len() as int),
        start <= buf@.len() + 0x2_0000_0000,
        end <= buf@.len(),
        expander(*expand),
        vols_ok(old(img).volumes@),
    ensures
        vols_ok(final(img).volumes@),
        grows(old(img).option_roms@, final(img).option_roms@),
        forall|ex: spec_fn(Seq<u8>, Compression) -> Option<Seq<u8>>| #[trigger] consistent(*expand, ex) ==> match sv_files(buf@, start as int, end as int, 0, nest as int, ex, walk_of(*old(img))) {
            Some(x) => r matches Some(c) && c == x.1 && walk_of(*final(img)) == x.0,
            None => r is None,
        },
    decreases nest, left(buf@, start as int), 40int,
{
    let ghost w0 = walk_of(*img);
    let ghost img0 = *img;
    let n = buf.len();
    let mut pos = start;
    let mut file_count: usize = 0;
    while pos + 0x18 <= end
        invariant
            n == buf@.len(),
            crate::modules::headroom(n as int),
            start <= pos <= n + 0x2_0000_0000,
            end <= n,
            expander(*expand),
            vols_ok(img.volumes@),
            img0 == *old(img),
            w0 == walk_of(*old(img)),
            grows(img0.option_roms@, img.option_roms@),
            forall|ex: spec_fn(Seq<u8>, Compression) -> Option<Seq<u8>>| #[trigger] consistent(*expand, ex) ==> sv_files(
                buf@,
                start as int,
                end as int,
                0,
                nest as int,
                ex,
                w0,
            ) == sv_files(buf@, pos as int, end as int, file_count as int, nest as int, ex, walk_of(*img)),
        ensures
            forall|ex: spec_fn(Seq<u8>, Compression) -> Option<Seq<u8>>| #[trigger] consistent(*expand, ex) ==> sv_files(
                buf@,
                pos as int,
                end as int,
                file_count as int,
                nest as int,
                ex,
                walk_of(*img),
            ) == Some((walk_of(*img), file_count as int)),
        decreases end + 0x20 - pos,
    {
        let (data_start, file_size, ftype) = match read_file_head(buf, pos, end) {
            None => {
                return None;
            },
            Some(None) => {
                break;
            },
            Some(Some(h)) => h,
        };
        let next = (pos + file_size + 7) / 8 * 8;
        match walk_file(buf, img, pos, data_start, pos + file_size, ftype, file_count, expand, nest) {
            Some(c) => {
                file_count = c;
            },
            None => {
                return None;
            },
        }
        pos = next;
    }
    Some(file_count)
}

/// Walk the firmware volume at `fv`.
#[verifier::rlimit(100)]
fn walk_volume<F: Fn(&[u8], Compression) -> Option<Vec<u8>>>(
    buf: &[u8],
    img: &mut BiosImage,
    fv: usize,
    expand: &F,
    nest: usize,
) -> (ok: bool)
    requires
        crate::modules::headroom(buf@.len() as int),
        fv <= buf@.len(),
        expander(*expand),
        vols_ok(old(img).volumes@),
    ensures
        vols_ok(final(img).volumes@),
        grows(old(img).option_roms@, final(img).option_roms@),
        forall|ex: spec_fn(Seq<u8>, Compression) -> Option<Seq<u8>>| #[trigger] consistent(*expand, ex) ==> step_ok(
            ok,
            sv_volume(buf@, fv as int, nest as int, ex, walk_of(*old(img))),
            walk_of(*final(img)),
        ),
    decreases nest, left(buf@, fv as int), 41int,
{
    let ghost w0 = walk_of(*img);
    let ghost img0 = *img;
    let n = buf.len();
    if fv + 0x38 > n {
        return true;
    }
    let fv_len = u64_le(buf, fv + 0x20);
    let hdr_len = u16_le(buf, fv + 0x30) as usize;
    let ext = u16_le(buf, fv + 0x34) as usize;
    if fv_len == 0 {
        return true;
    }
    if fv_len > 0xffff_ffff_ffff_ffffu64 - fv as u64 {
        return false;
    }
    if fv as u64 + fv_len > n as u64 || hdr_len < 0x38 {
        return true;
    }
    let end = fv + fv_len as usize;
    let pos = if ext != 0 {
        let eh = fv + ext;
        if eh + 0x14 > n {
            fv + hdr_len
        } else {
            let eh_size = u32_le(buf, eh + 0x10) as usize;
            (eh + eh_size + 7) / 8 * 8
        }
    } else {
        fv + hdr_len
    };
    assert(pos == files_start(buf@, fv as int));
    let file_count = match walk_files(buf, img, pos, end, expand, nest) {
        Some(c) => c,
        None => {
            return false;
        },
    };
    img.volumes.push(Volume { offset: fv, length: fv_len, files: file_count });
    proof {
        assert(img.volumes@.last().offset + img.volumes@.last().length <= u64::MAX);
        assert(img.names@.map_values(|x: String| x@) =~= walk_of(*img).names);
    }
    true
}

/// One file of a volume (`sv_file`); gives the new file count.
fn walk_file<F: Fn(&[u8], Compression) -> Option<Vec<u8>>>(
    buf: &[u8],
    img: &mut BiosImage,
    pos: usize,
    data_start: usize,
    file_end: usize,
    ftype: u8,
    count: usize,
    expand: &F,
    nest: usize,
) -> (r: Option<usize>)
    requires
        crate::modules::headroom(buf@.len() as int),
        pos < data_start <= file_end <= buf@.len(),
        expander(*expand),
        vols_ok(old(img).volumes@),
    ensures
        vols_ok(final(img).volumes@),
        grows(old(img).option_roms@, final(img).option_roms@),
        forall|ex: spec_fn(Seq<u8>, Compression) -> Option<Seq<u8>>| #[trigger] consistent(*expand, ex) ==> match sv_file(buf@, pos as int, data_start as int, file_end as int, ftype, count as int, nest as int, ex, walk_of(*old(img))) {
            Some(x) => r matches Some(c) && c == x.1 && walk_of(*final(img)) == x.0,
            None => r is None,
        },
    decreases nest, left(buf@, pos as int), 39int,
{
    if ftype == 0xf0 {
        return Some(count);
    }
    if img.files == usize::MAX || count == usize::MAX {
        return None;
    }
    img.files = img.files + 1;
    if walk_sections(buf, img, data_start, file_end, 0, expand, nest) {
        Some(count + 1)
    } else {
        None
    }
}

/// Walk the sections in `buf[start..end]`.
#[verifier::rlimit(80)]
fn walk_sections<F: Fn(&[u8], Compression) -> Option<Vec<u8>>>(
    buf: &[u8],
    img: &mut BiosImage,
    start: usize,
    end: usize,
    depth: usize,
    expand: &F,
    nest: usize,
) -> (ok: bool)
    requires
        crate::modules::headroom(buf@.len() as int),
        start <= buf@.len(),
        end <= buf@.len(),
        depth <= 17,
        expander(*expand),
        vols_ok(old(img).volumes@),
    ensures
        vols_ok(final(img).volumes@),
        grows(old(img).option_roms@, final(img).option_roms@),
        forall|ex: spec_fn(Seq<u8>, Compression) -> Option<Seq<u8>>| #[trigger] consistent(*expand, ex) ==> step_ok(
            ok,
            sv_sections(buf@, start as int, end as int, depth as int, nest as int, ex, walk_of(*old(img))),
            walk_of(*final(img)),
        ),
    decreases nest, left(buf@, start as int), 3 * (17 - depth) + 2,
{
    let ghost w0 = walk_of(*img);
    let ghost img0 = *img;
    if depth > MAX_DEPTH || start + 4 > end {
        return true;
    }
    let n = buf.len();
    let mut pos = start;
    while pos + 4 <= end
        invariant
            n == buf@.len(),
            crate::modules::headroom(n as int),
            start <= pos <= end + 3,
            end <= n,
            depth <= 16,
            expander(*expand),
            vols_ok(img.volumes@),
            img0 == *old(img),
            w0 == walk_of(*old(img)),
            grows(img0.option_roms@, img.option_roms@),
            forall|ex: spec_fn(Seq<u8>, Compression) -> Option<Seq<u8>>| #[trigger] consistent(*expand, ex) ==> sv_sections(
                buf@,
                start as int,
                end as int,
                depth as int,
                nest as int,
                ex,
                w0,
            ) == sv_sections(buf@, pos as int, end as int, depth as int, nest as int, ex, walk_of(*img)),
        ensures
            forall|ex: spec_fn(Seq<u8>, Compression) -> Option<Seq<u8>>| #[trigger] consistent(*expand, ex) ==> sv_sections(
                buf@,
                pos as int,
                end as int,
                depth as int,
                nest as int,
                ex,
                walk_of(*img),
            ) == Some(walk_of(*img)),
        decreases end + 4 - pos,
    {
        let (size, content, stype) = match read_section_head(buf, pos, end) {
            None => {
                break;
            },
            Some(h) => h,
        };
        let sec_end = pos + size;
        let ok = walk_section(buf, img, pos, content, sec_end, stype, depth, expand, nest);
        if !ok {
            return false;
        }
        pos = (sec_end + 3) / 4 * 4;
    }
    true
}

/// One section, dispatched on its type.
fn walk_section<F: Fn(&[u8], Compression) -> Option<Vec<u8>>>(
    buf: &[u8],
    img: &mut BiosImage,
    pos: usize,
    content: usize,
    sec_end: usize,
    stype: u8,
    depth: usize,
    expand: &F,
    nest: usize,
) -> (ok: bool)
    requires
        crate::modules::headroom(buf@.len() as int),
        pos < content <= pos + 8,
        pos + 4 <= sec_end <= buf@.len(),
        depth <= 16,
        expander(*expand),
        vols_ok(old(img).volumes@),
    ensures
        vols_ok(final(img).volumes@),
        grows(old(img).option_roms@, final(img).option_roms@),
        forall|ex: spec_fn(Seq<u8>, Compression) -> Option<Seq<u8>>| #[trigger] consistent(*expand, ex) ==> step_ok(
            ok,
            sv_section(buf@, pos as int, content as int, sec_end as int, stype, depth as int, nest as int, ex, walk_of(*old(img))),
            walk_of(*final(img)),
        ),
    decreases nest, left(buf@, pos as int), 3 * (17 - depth) + 1,
{
    if stype == 1 {
        decompress_section(buf, img, content, sec_end, depth, expand, nest)
    } else if stype == 2 {
        guid_section(buf, img, pos, content, sec_end, depth, expand, nest)
    } else if 0x10 <= stype && stype <= 0x12 {
        if img.modules == usize::MAX {
            return false;
        }
        img.modules = img.modules + 1;
        true
    } else if stype == 0x15 {
        if content > sec_end {
            return false;
        }
        let ghost wb = walk_of(*img);
        match utf16le(vstd::slice::slice_subrange(buf, content, sec_end)) {
            Some(name) => {
                if !name.as_str().is_empty() {
                    img.names.push(name);
                    assert(img.names@.map_values(|x: String| x@) =~= wb.names.push(name@));
                }
            },
            None => {},
        }
        true
    } else if stype == 0x17 {
        walk_volume_slice(buf, img, content, sec_end, depth, expand, nest)
    } else {
        true
    }
}

/// `EFI_COMPRESSION_SECTION`: uncompressed length (u32), compression type
/// (u8), payload. Type 0 stores more sections uncompressed.
fn decompress_section<F: Fn(&[u8], Compression) -> Option<Vec<u8>>>(
    buf: &[u8],
    img: &mut BiosImage,
    content: usize,
    sec_end: usize,
    depth: usize,
    expand: &F,
    nest: usize,
) -> (ok: bool)
    requires
        crate::modules::headroom(buf@.len() as int),
        content <= buf@.len() + 8,
        sec_end <= buf@.len(),
        depth <= 16,
        expander(*expand),
        vols_ok(old(img).volumes@),
    ensures
        vols_ok(final(img).volumes@),
        grows(old(img).option_roms@, final(img).option_roms@),
        forall|ex: spec_fn(Seq<u8>, Compression) -> Option<Seq<u8>>| #[trigger] consistent(*expand, ex) ==> step_ok(
            ok,
            sv_decompress(buf@, content as int, sec_end as int, depth as int, nest as int, ex, walk_of(*old(img))),
            walk_of(*final(img)),
        ),
    decreases nest, left(buf@, content as int), 0int,
{
    if content + 5 > sec_end {
        return true;
    }
    let ctype = buf[content + 4];
    if ctype == 0 {
        return walk_sections(buf, img, content + 5, sec_end, depth + 1, expand, nest);
    }
    let payload = vstd::slice::slice_subrange(buf, content + 5, sec_end);
    let out = match expand(payload, Compression::EfiStandard) {
        Some(d) => Some(d),
        None => expand(payload, Compression::Tiano),
    };
    match out {
        Some(data) => expanded(img, data, depth, expand, nest),
        None => true,
    }
}

/// GUID-defined section: decompress LZMA/Tiano, else descend into the
/// sections it guards.
fn guid_section<F: Fn(&[u8], Compression) -> Option<Vec<u8>>>(
    buf: &[u8],
    img: &mut BiosImage,
    sec_start: usize,
    content: usize,
    sec_end: usize,
    depth: usize,
    expand: &F,
    nest: usize,
) -> (ok: bool)
    requires
        crate::modules::headroom(buf@.len() as int),
        sec_start <= content <= sec_start + 8,
        sec_start <= buf@.len(),
        sec_end <= buf@.len(),
        depth <= 16,
        expander(*expand),
        vols_ok(old(img).volumes@),
    ensures
        vols_ok(final(img).volumes@),
        grows(old(img).option_roms@, final(img).option_roms@),
        forall|ex: spec_fn(Seq<u8>, Compression) -> Option<Seq<u8>>| #[trigger] consistent(*expand, ex) ==> step_ok(
            ok,
            sv_guid(buf@, sec_start as int, content as int, sec_end as int, depth as int, nest as int, ex, walk_of(*old(img))),
            walk_of(*final(img)),
        ),
    decreases nest, left(buf@, sec_start as int), 3 * (17 - depth),
{
    if content + 0x14 > sec_end {
        return true;
    }
    let inner = sec_start + u16_le(buf, content + 16) as usize;
    if inner >= sec_end {
        return true;
    }
    let guid = vstd::slice::slice_subrange(buf, content, content + 16);
    let lzma: [u8; 16] = [0x98, 0x58, 0x4e, 0xee, 0x14, 0x39, 0x59, 0x42, 0x9d, 0x6e, 0xdc, 0x7b, 0xd7, 0x94, 0x03, 0xcf];
    let tiano: [u8; 16] = [0xad, 0x80, 0x12, 0xa3, 0x1e, 0x48, 0xb6, 0x41, 0x95, 0xe8, 0x12, 0x7f, 0x4c, 0x98, 0x47, 0x79];
    assert(lzma@ =~= lzma_guid());
    assert(tiano@ =~= tiano_guid());
    let payload = vstd::slice::slice_subrange(buf, inner, sec_end);
    if crate::text::bytes_eq(guid, &lzma) {
        match expand(payload, Compression::Lzma) {
            Some(data) => expanded(img, data, depth, expand, nest),
            None => {
                if img.lzma_sections == usize::MAX {
                    return false;
                }
                img.lzma_sections = img.lzma_sections + 1;
                true
            },
        }
    } else if crate::text::bytes_eq(guid, &tiano) {
        let out = match expand(payload, Compression::Tiano) {
            Some(d) => Some(d),
            None => expand(payload, Compression::EfiStandard),
        };
        match out {
            Some(data) => expanded(img, data, depth, expand, nest),
            None => true,
        }
    } else {
        walk_sections(buf, img, inner, sec_end, depth + 1, expand, nest)
    }
}

/// Treat `buf[start..end]` as a nested firmware volume.
#[verifier::rlimit(40)]
fn walk_volume_slice<F: Fn(&[u8], Compression) -> Option<Vec<u8>>>(
    buf: &[u8],
    img: &mut BiosImage,
    start: usize,
    end: usize,
    depth: usize,
    expand: &F,
    nest: usize,
) -> (ok: bool)
    requires
        crate::modules::headroom(buf@.len() as int),
        start <= buf@.len() + 8,
        end <= buf@.len(),
        expander(*expand),
        vols_ok(old(img).volumes@),
    ensures
        vols_ok(final(img).volumes@),
        grows(old(img).option_roms@, final(img).option_roms@),
        forall|ex: spec_fn(Seq<u8>, Compression) -> Option<Seq<u8>>| #[trigger] consistent(*expand, ex) ==> step_ok(
            ok,
            sv_slice(buf@, start as int, end as int, depth as int, nest as int, ex, walk_of(*old(img))),
            walk_of(*final(img)),
        ),
    decreases nest, left(buf@, start as int), 43int,
{
    if depth > MAX_DEPTH || start + FV_SIG_OFFSET + 4 > end {
        return true;
    }
    let ghost w0 = walk_of(*img);
    if has_tag(buf, start + FV_SIG_OFFSET, FVH_TAG) {
        walk_volume(buf, img, start, expand, nest)
    } else {
        true
    }
}

/// `fv` lies inside a volume of `vs`.
fn is_covered(vs: &Vec<Volume>, fv: usize) -> (r: bool)
    requires
        vols_ok(vs@),
    ensures
        r == covered(vs@, fv as int),
{
    let mut k: usize = 0;
    while k < vs.len()
        invariant
            k <= vs@.len(),
            vols_ok(vs@),
            forall|j: int| 0 <= j < k ==> !(vs@[j].offset <= fv && fv < vs@[j].offset + vs@[j].length),
        decreases vs@.len() - k,
    {
        let v = vs[k];
        assert(v.offset + v.length <= u64::MAX);
        if fv >= v.offset && (fv as u64) < v.offset as u64 + v.length {
            return true;
        }
        k = k + 1;
    }
    false
}

/// `scan_step` on the exec side.
fn scan_at<F: Fn(&[u8], Compression) -> Option<Vec<u8>>>(
    buf: &[u8],
    img: &mut BiosImage,
    i: usize,
    expand: &F,
) -> (ok: bool)
    requires
        crate::modules::headroom(buf@.len() as int),
        i + 4 <= buf@.len(),
        expander(*expand),
        vols_ok(old(img).volumes@),
    ensures
        vols_ok(final(img).volumes@),
        grows(old(img).option_roms@, final(img).option_roms@),
        forall|ex: spec_fn(Seq<u8>, Compression) -> Option<Seq<u8>>| #[trigger] consistent(*expand, ex) ==> step_ok(
            ok,
            scan_step(buf@, i as int, MAX_EXPANSIONS as int, ex, walk_of(*old(img))),
            walk_of(*final(img)),
        ),
{
    reveal(scan_step);
    if i >= FV_SIG_OFFSET && has_tag(buf, i, FVH_TAG) {
        let fv = i - FV_SIG_OFFSET;
        if !is_covered(&img.volumes, fv) {
            return walk_volume(buf, img, fv, expand, MAX_EXPANSIONS);
        }
    }
    true
}


/// Parse the BIOS region: find and walk every top-level firmware volume,
/// handing compressed payloads to `expand`. The image's own option ROMs come
/// first; whenever `expand` gives what some `ex` names, the result is
/// `spec_parse` with `ex`.
pub fn parse_with<F: Fn(&[u8], Compression) -> Option<Vec<u8>>>(buf: &[u8], expand: &F) -> (img: BiosImage)
    requires
        crate::modules::headroom(buf@.len() as int),
        expander(*expand),
    ensures
        roms_from(buf@, 0).len() <= img.option_roms@.len(),
        roms_view(img.option_roms@.take(roms_from(buf@, 0).len() as int)) == roms_from(buf@, 0),
        forall|ex: spec_fn(Seq<u8>, Compression) -> Option<Seq<u8>>|
            #[trigger] consistent(*expand, ex) && spec_parse(buf@, ex) is Some ==> walk_of(img) == spec_parse(buf@, ex)->0,
        vendor_from(buf@, 0) is Some ==> img.vendor is Some,
{
    let roms = scan_option_roms(buf);
    let mut img = BiosImage {
        vendor: None,
        volumes: Vec::new(),
        files: 0,
        modules: 0,
        decompressed_sections: 0,
        decompressed_bytes: 0,
        lzma_sections: 0,
        names: Vec::new(),
        option_roms: roms,
    };
    assert(img.names@.map_values(|x: String| x@) =~= Seq::<Seq<char>>::empty());
    assert(walk_of(img) == walk_start(buf@));
    let n = buf.len();
    let mut i: usize = 0;
    while i + 4 <= n
        invariant
            n == buf@.len(),
            crate::modules::headroom(n as int),
            i <= n,
            expander(*expand),
            vols_ok(img.volumes@),
            roms_view(roms@) == roms_from(buf@, 0),
            grows(roms@, img.option_roms@),
            forall|ex: spec_fn(Seq<u8>, Compression) -> Option<Seq<u8>>| #[trigger] consistent(*expand, ex) && sv_scan(
                buf@,
                0,
                MAX_EXPANSIONS as int,
                ex,
                walk_start(buf@),
            ) is Some ==> sv_scan(buf@, 0, MAX_EXPANSIONS as int, ex, walk_start(buf@)) == sv_scan(
                buf@,
                i as int,
                MAX_EXPANSIONS as int,
                ex,
                walk_of(img),
            ),
        ensures
            forall|ex: spec_fn(Seq<u8>, Compression) -> Option<Seq<u8>>| #[trigger] consistent(*expand, ex) && sv_scan(
                buf@,
                0,
                MAX_EXPANSIONS as int,
                ex,
                walk_start(buf@),
            ) is Some ==> sv_scan(buf@, 0, MAX_EXPANSIONS as int, ex, walk_start(buf@)) == Some(walk_of(img)),
        decreases n - i,
    {
        if !scan_at(buf, &mut img, i, expand) {
            break;
        }
        i = i + 1;
    }
    let ghost w = walk_of(img);
    if img.vendor.is_none() {
        img.vendor = detect_vendor(buf);
    }
    proof {
        let k = roms_from(buf@, 0).len() as int;
        assert(roms_view(img.option_roms@.take(k)) =~= roms_from(buf@, 0));
        assert(img.names@.map_values(|x: String| x@) == w.names);
    }
    img
}

/// Parse the BIOS region without decompressing anything: compressed
/// sections are skipped (LZMA ones counted as not decoded).
pub fn parse(buf: &[u8]) -> (img: BiosImage)
    requires
        crate::modules::headroom(buf@.len() as int),
    ensures
        spec_parse(buf@, no_expansion()) matches Some(w) ==> walk_of(img) == w,
        roms_from(buf@, 0).len() <= img.option_roms@.len(),
        roms_view(img.option_roms@.take(roms_from(buf@, 0).len() as int)) == roms_from(buf@, 0),
        vendor_from(buf@, 0) is Some ==> img.vendor is Some,
{
    let none = |p: &[u8], m: Compression| -> (r: Option<Vec<u8>>)
        ensures
            r is None,
        { None };
    assert(consistent(none, no_expansion()));
    parse_with(buf, &none)
}

} // verus!
