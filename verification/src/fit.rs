//! Firmware Interface Table (FIT) parsing. Intel FIT BIOS Spec rev 1.x.
//! FIT pointer sits at physical `4GiB - 0x40` (file offset `len - 0x40`),
//! masked by flash size since the flash is memory-mapped ending at 0xFFFF_FFFF.

use crate::bytes::{le16, le24, le32, le64, u16_le, u24_le, u32_le, u64_le};
use crate::error::{Error, Result};
use vstd::prelude::*;

verus! {

/// `_FIT_   `.
pub const FIT_MAGIC: [u8; 8] = [0x5f, 0x46, 0x49, 0x54, 0x5f, 0x20, 0x20, 0x20];

const FIT_POINTER_FROM_END: usize = 0x40;

const HEADER_SIZE: usize = 0x10;

const ENTRY_SIZE: usize = 0x10;

/// FIT entry type (low 7 bits of the type/checksum byte).
#[derive(Debug, Clone, Copy, PartialEq, Eq, Structural)]
pub enum EntryType {
    Header,
    MicrocodeUpdate,
    StartupAcm,
    DiagnosticAcm,
    BiosStartupModule,
    TpmPolicy,
    BiosPolicy,
    TxtPolicy,
    KeyManifest,
    BootPolicyManifest,
    CseSecureBoot,
    FeaturePolicyDelivery,
    JmpDebugPolicy,
    UnusedEntry,
    Reserved(u8),
}

/// The entry type that a type code denotes.
pub open spec fn spec_entry_type(v: u8) -> EntryType {
    if v == 0x00 {
        EntryType::Header
    } else if v == 0x01 {
        EntryType::MicrocodeUpdate
    } else if v == 0x02 {
        EntryType::StartupAcm
    } else if v == 0x03 {
        EntryType::DiagnosticAcm
    } else if v == 0x07 {
        EntryType::BiosStartupModule
    } else if v == 0x08 {
        EntryType::TpmPolicy
    } else if v == 0x09 {
        EntryType::BiosPolicy
    } else if v == 0x0a {
        EntryType::TxtPolicy
    } else if v == 0x0b {
        EntryType::KeyManifest
    } else if v == 0x0c {
        EntryType::BootPolicyManifest
    } else if v == 0x10 {
        EntryType::CseSecureBoot
    } else if v == 0x2d {
        EntryType::FeaturePolicyDelivery
    } else if v == 0x2f {
        EntryType::JmpDebugPolicy
    } else if v == 0x7f {
        EntryType::UnusedEntry
    } else {
        EntryType::Reserved(v)
    }
}

/// Display name of an entry type.
pub open spec fn spec_entry_name(t: EntryType) -> Seq<char> {
    match t {
        EntryType::Header => "FIT Header"@,
        EntryType::MicrocodeUpdate => "Microcode Update"@,
        EntryType::StartupAcm => "Startup ACM"@,
        EntryType::DiagnosticAcm => "Diagnostic ACM"@,
        EntryType::BiosStartupModule => "BIOS Startup Module"@,
        EntryType::TpmPolicy => "TPM Policy Record"@,
        EntryType::BiosPolicy => "BIOS Policy Record"@,
        EntryType::TxtPolicy => "TXT Policy Record"@,
        EntryType::KeyManifest => "Boot Guard Key Manifest"@,
        EntryType::BootPolicyManifest => "Boot Guard Boot Policy"@,
        EntryType::CseSecureBoot => "CSE Secure Boot"@,
        EntryType::FeaturePolicyDelivery => "Feature Policy Delivery"@,
        EntryType::JmpDebugPolicy => "JMP $ Debug Policy"@,
        EntryType::UnusedEntry => "Unused Entry"@,
        EntryType::Reserved(_) => "Reserved"@,
    }
}

impl EntryType {
    fn from_u8(v: u8) -> (t: Self)
        ensures
            t == spec_entry_type(v),
    {
        if v == 0x00 {
            Self::Header
        } else if v == 0x01 {
            Self::MicrocodeUpdate
        } else if v == 0x02 {
            Self::StartupAcm
        } else if v == 0x03 {
            Self::DiagnosticAcm
        } else if v == 0x07 {
            Self::BiosStartupModule
        } else if v == 0x08 {
            Self::TpmPolicy
        } else if v == 0x09 {
            Self::BiosPolicy
        } else if v == 0x0a {
            Self::TxtPolicy
        } else if v == 0x0b {
            Self::KeyManifest
        } else if v == 0x0c {
            Self::BootPolicyManifest
        } else if v == 0x10 {
            Self::CseSecureBoot
        } else if v == 0x2d {
            Self::FeaturePolicyDelivery
        } else if v == 0x2f {
            Self::JmpDebugPolicy
        } else if v == 0x7f {
            Self::UnusedEntry
        } else {
            Self::Reserved(v)
        }
    }

    pub fn name(&self) -> (s: &'static str)
        ensures
            s@ == spec_entry_name(*self),
    {
        match self {
            Self::Header => "FIT Header",
            Self::MicrocodeUpdate => "Microcode Update",
            Self::StartupAcm => "Startup ACM",
            Self::DiagnosticAcm => "Diagnostic ACM",
            Self::BiosStartupModule => "BIOS Startup Module",
            Self::TpmPolicy => "TPM Policy Record",
            Self::BiosPolicy => "BIOS Policy Record",
            Self::TxtPolicy => "TXT Policy Record",
            Self::KeyManifest => "Boot Guard Key Manifest",
            Self::BootPolicyManifest => "Boot Guard Boot Policy",
            Self::CseSecureBoot => "CSE Secure Boot",
            Self::FeaturePolicyDelivery => "Feature Policy Delivery",
            Self::JmpDebugPolicy => "JMP $ Debug Policy",
            Self::UnusedEntry => "Unused Entry",
            Self::Reserved(_) => "Reserved",
        }
    }
}

/// One 16-byte FIT entry.
#[derive(Debug, Clone, Copy)]
pub struct FitEntry {
    pub address: u64,
    pub size: u32,
    pub version: u16,
    pub entry_type: EntryType,
    pub checksum_valid: bool,
    pub checksum: u8,
}

/// The entry that the 16 bytes `e` encode.
pub open spec fn spec_fit_entry(e: Seq<u8>) -> FitEntry {
    FitEntry {
        address: le64(e, 0) as u64,
        size: le24(e, 8) as u32,
        version: le16(e, 12) as u16,
        entry_type: spec_entry_type((e[14] % 0x80) as u8),
        checksum_valid: e[14] >= 0x80,
        checksum: e[15],
    }
}

/// Parsed Firmware Interface Table.
#[derive(Debug, Clone)]
pub struct Fit {
    /// File offset of the FIT header.
    pub offset: usize,
    /// FIT format version (expected `0x0100`).
    pub version: u16,
    pub entries: Vec<FitEntry>,
}

/// Size of the memory-mapped window the FIT pointer is reduced to.
pub open spec fn mapping_window(size: int) -> int {
    if size == 0x80_0000 {
        0x80_0000
    } else if size == 0x200_0000 {
        0x200_0000
    } else {
        0x100_0000
    }
}

/// Mask translating the memory-mapped FIT pointer to a file offset.
fn mapping_for(size: usize) -> (m: usize)
    ensures
        m + 1 == mapping_window(size as int),
{
    if size == 0x80_0000 {
        0x7f_ffff
    } else if size == 0x100_0000 {
        0xff_ffff
    } else if size == 0x200_0000 {
        0x1ff_ffff
    } else {
        0xff_ffff
    }
}

/// The FIT pointer stored `0x40` bytes before the end.
pub open spec fn fit_pointer(data: Seq<u8>) -> u32 {
    le32(data, data.len() - 0x40) as u32
}

/// File offset the FIT pointer designates.
pub open spec fn fit_offset(data: Seq<u8>) -> int {
    fit_pointer(data) as int % mapping_window(data.len() as int)
}

/// Number of entries after the header (the header counts itself).
pub open spec fn fit_count(data: Seq<u8>) -> int {
    let total = le32(data, fit_offset(data) + 8);
    if total == 0 {
        0
    } else {
        total - 1
    }
}

/// Header checks of `Fit::parse`: `Ok((offset, version, count))` when the table
/// is usable, else the error it reports.
pub open spec fn fit_header(data: Seq<u8>) -> Result<(usize, u16, int)> {
    let len = data.len() as int;
    if len < 0x44 {
        Err(Error::FitNotFound)
    } else if fit_pointer(data) == 0xffff_ffff || fit_pointer(data) == 0 {
        Err(Error::FitNotFound)
    } else {
        let off = fit_offset(data);
        if off % 0x10 != 0 || off + 0x10 > len {
            Err(Error::FitInvalidPointer { offset: off as usize })
        } else if data.subrange(off, off + 8) != FIT_MAGIC@ {
            Err(Error::FitNotFound)
        } else if off + 0x10 + fit_count(data) * 0x10 > len {
            Err(Error::FitInvalidPointer { offset: off as usize })
        } else {
            Ok((off as usize, le16(data, off + 0xc) as u16, fit_count(data)))
        }
    }
}

/// `fit` lists the `count` entries following the header at `offset`.
pub open spec fn fit_entries(data: Seq<u8>, offset: int, count: int, entries: Seq<FitEntry>) -> bool {
    &&& entries.len() == count
    &&& forall|k: int|
        0 <= k < count ==> #[trigger] entries[k] == spec_fit_entry(
            data.subrange(offset + 0x10 + k * 0x10, offset + 0x20 + k * 0x10),
        )
}

/// The entries of the FIT whose header `fit_header` accepts.
pub open spec fn spec_fit_entries(data: Seq<u8>) -> Seq<FitEntry> {
    let off = fit_offset(data);
    Seq::new(
        fit_count(data) as nat,
        |k: int| spec_fit_entry(data.subrange(off + 0x10 + k * 0x10, off + 0x20 + k * 0x10)),
    )
}

/// Entry is a Boot Guard Key Manifest or Boot Policy.
pub open spec fn is_boot_guard(e: FitEntry) -> bool {
    e.entry_type == EntryType::KeyManifest || e.entry_type == EntryType::BootPolicyManifest
}

/// Boot Guard entries are exactly the FIT type codes 0x0b (Key Manifest) and
/// 0x0c (Boot Policy Manifest), read from the low 7 bits of the entry's type
/// byte; the top bit is the checksum-valid flag and plays no part.
pub proof fn lemma_boot_guard_codes(e: Seq<u8>)
    requires
        e.len() == 16,
    ensures
        spec_fit_entry(e).entry_type == EntryType::KeyManifest <==> e[14] % 0x80 == 0x0b,
        spec_fit_entry(e).entry_type == EntryType::BootPolicyManifest <==> e[14] % 0x80 == 0x0c,
        is_boot_guard(spec_fit_entry(e)) <==> (e[14] % 0x80 == 0x0b || e[14] % 0x80 == 0x0c),
        spec_fit_entry(e).entry_type == EntryType::MicrocodeUpdate <==> e[14] % 0x80 == 0x01,
        e[14] % 0x80 == 0x0b ==> spec_entry_name(spec_fit_entry(e).entry_type) == "Boot Guard Key Manifest"@,
        e[14] % 0x80 == 0x0c ==> spec_entry_name(spec_fit_entry(e).entry_type) == "Boot Guard Boot Policy"@,
        spec_fit_entry(e).checksum_valid <==> e[14] >= 0x80,
{
}

/// A type code that names no FIT entry type is kept as `Reserved` with the
/// code itself, so distinct reserved codes stay distinct.
pub proof fn lemma_reserved_keeps_code(v: u8)
    ensures
        spec_entry_type(v) matches EntryType::Reserved(c) ==> c == v,
        spec_entry_type(v) is Reserved <==> !(v <= 3 || (7 <= v <= 0x0c) || v == 0x10 || v == 0x2d || v == 0x2f
            || v == 0x7f),
{
}

/// Number of microcode entries in `s`.
pub open spec fn microcode_entries(s: Seq<FitEntry>) -> nat
    decreases s.len(),
{
    if s.len() == 0 {
        0
    } else {
        microcode_entries(s.drop_last()) + if s.last().entry_type == EntryType::MicrocodeUpdate {
            1nat
        } else {
            0nat
        }
    }
}

impl Fit {
    /// Locate and parse the FIT in a full firmware image.
    #[verifier::loop_isolation(false)]
    pub fn parse(data: &[u8]) -> (r: Result<Self>)
        ensures
            match fit_header(data@) {
                Err(e) => r matches Err(e2) && e2 == e,
                Ok((off, ver, count)) => r matches Ok(fit) && fit.offset == off && fit.version
                    == ver && fit_entries(data@, off as int, count, fit.entries@) && fit.entries@
                    == spec_fit_entries(data@),
            },
    {
        let len = data.len();
        assert(data@.len() == len);
        if len < FIT_POINTER_FROM_END + 4 {
            return Err(Error::FitNotFound);
        }
        let ptr_pos = len - FIT_POINTER_FROM_END;
        let fp = u32_le(data, ptr_pos);
        if fp == 0xffff_ffff || fp == 0 {
            return Err(Error::FitNotFound);
        }
        let mask = mapping_for(len);
        let offset = (fp as usize) % (mask + 1);
        if offset % 0x10 != 0 || offset + HEADER_SIZE > len {
            return Err(Error::FitInvalidPointer { offset });
        }
        let mut k: usize = 0;
        while k < 8
            invariant
                offset + 0x10 <= data@.len(),
                k <= 8,
                forall|j: int| 0 <= j < k ==> data@[offset + j] == FIT_MAGIC@[j],
            decreases 8 - k,
        {
            if data[offset + k] != FIT_MAGIC[k] {
                proof {
                    if data@.subrange(offset as int, offset + 8) == FIT_MAGIC@ {
                        assert(data@.subrange(offset as int, offset + 8)[k as int] == data@[offset + k]);
                    }
                }
                return Err(Error::FitNotFound);
            }
            k = k + 1;
        }
        assert(data@.subrange(offset as int, offset + 8) =~= FIT_MAGIC@);

        // Header's `entries` field is the total record count including itself.
        let total = u32_le(data, offset + 0x8);
        let version = u16_le(data, offset + 0xc);
        let count: u32 = if total == 0 { 0 } else { total - 1 };

        let body = offset + HEADER_SIZE;
        if body as u64 + (count as u64) * 0x10 > len as u64 {
            return Err(Error::FitInvalidPointer { offset });
        }

        let mut entries: Vec<FitEntry> = Vec::new();
        let mut i: usize = 0;
        while i < count as usize
            invariant
                body == offset + 0x10,
                body + count * 0x10 <= data@.len(),
                i <= count,
                entries@.len() == i,
                forall|j: int|
                    0 <= j < i ==> #[trigger] entries@[j] == spec_fit_entry(
                        data@.subrange(body + j * 0x10, body + 0x10 + j * 0x10),
                    ),
            decreases count - i,
        {
            assert(i * 0x10 + 0x10 <= count * 0x10) by (nonlinear_arith)
                requires
                    i < count,
            ;
            let e = vstd::slice::slice_subrange(data, body + i * ENTRY_SIZE, body + (i + 1) * ENTRY_SIZE);
            let address = u64_le(e, 0);
            let size = u24_le(e, 8);
            let version = u16_le(e, 12);
            let type_byte = e[14];
            let fe = FitEntry {
                address,
                size,
                version,
                entry_type: EntryType::from_u8(type_byte % 0x80),
                checksum_valid: type_byte >= 0x80,
                checksum: e[15],
            };
            assert(e@ =~= data@.subrange(body + i * 0x10, body + 0x10 + i * 0x10));
            entries.push(fe);
            i = i + 1;
        }

        assert(entries@ =~= spec_fit_entries(data@));
        Ok(Fit { offset, version, entries })
    }

    /// True if the FIT advertises Boot Guard (Key Manifest or Boot Policy).
    /// Flashing an unsigned image on such a board can brick it.
    pub fn has_boot_guard(&self) -> (b: bool)
        ensures
            b == exists|k: int| 0 <= k < self.entries@.len() && #[trigger] is_boot_guard(self.entries@[k]),
    {
        let mut k: usize = 0;
        while k < self.entries.len()
            invariant
                k <= self.entries@.len(),
                forall|j: int| 0 <= j < k ==> !#[trigger] is_boot_guard(self.entries@[j]),
            decreases self.entries@.len() - k,
        {
            match self.entries[k].entry_type {
                EntryType::KeyManifest | EntryType::BootPolicyManifest => {
                    assert(is_boot_guard(self.entries@[k as int]));
                    return true;
                },
                _ => {},
            }
            k = k + 1;
        }
        false
    }

    pub fn microcode_count(&self) -> (n: usize)
        ensures
            n == microcode_entries(self.entries@),
    {
        let mut n: usize = 0;
        let mut k: usize = 0;
        while k < self.entries.len()
            invariant
                k <= self.entries@.len(),
                n == microcode_entries(self.entries@.take(k as int)),
                n <= k,
            decreases self.entries@.len() - k,
        {
            assert(self.entries@.take(k + 1).drop_last() =~= self.entries@.take(k as int));
            match self.entries[k].entry_type {
                EntryType::MicrocodeUpdate => {
                    n = n + 1;
                },
                _ => {},
            }
            k = k + 1;
        }
        assert(self.entries@.take(k as int) =~= self.entries@);
        n
    }
}

} // verus!
