//! Survey vendor lock / root-of-trust mechanisms in a flash image:
//! Boot Guard (FIT), BIOS Guard (AMI PFAT), Secure Boot key material
//! (best-effort GUID scan), and FLMSTR descriptor access.

use crate::bytes::{le32, u32_le};
use crate::descriptor::Descriptor;
use crate::fit::{fit_header, is_boot_guard, spec_entry_name, spec_fit_entries, EntryType, Fit, FitEntry};
use crate::fmt::{hex_prefixed, push_hex_prefixed, push_str};
use vstd::prelude::*;

verus! {

/// Region names by descriptor index.
pub open spec fn region_names() -> Seq<Seq<char>> {
    seq![
        "Descriptor"@,
        "BIOS"@,
        "ME"@,
        "GbE"@,
        "PDR"@,
        "DevExp1"@,
        "BIOS2"@,
        "uCodePatch"@,
        "EC"@,
        "DevExp2"@,
        "IE"@,
        "10GbE"@,
    ]
}

/// Name of descriptor region `i` (`0 <= i < 12`).
pub fn region_name(i: usize) -> (s: &'static str)
    requires
        i < 12,
    ensures
        s@ == region_names()[i as int],
{
    if i == 0 {
        "Descriptor"
    } else if i == 1 {
        "BIOS"
    } else if i == 2 {
        "ME"
    } else if i == 3 {
        "GbE"
    } else if i == 4 {
        "PDR"
    } else if i == 5 {
        "DevExp1"
    } else if i == 6 {
        "BIOS2"
    } else if i == 7 {
        "uCodePatch"
    } else if i == 8 {
        "EC"
    } else if i == 9 {
        "DevExp2"
    } else if i == 10 {
        "IE"
    } else {
        "10GbE"
    }
}

/// Whether bit `i` of an FLMSTR access mask is set.
pub open spec fn mask_bit(mask: u16, i: u16) -> bool {
    mask & (1u16 << i) != 0
}

/// Names of the regions among the first `k` whose bit is set in `mask`, in
/// index order.
pub open spec fn masked_regions(mask: u16, k: nat) -> Seq<Seq<char>>
    decreases k,
{
    if k == 0 {
        seq![]
    } else {
        let prev = masked_regions(mask, (k - 1) as nat);
        if mask_bit(mask, (k - 1) as u16) {
            prev.push(region_names()[k - 1])
        } else {
            prev
        }
    }
}

/// `names` joined with commas.
pub open spec fn comma_joined(names: Seq<Seq<char>>) -> Seq<char>
    decreases names.len(),
{
    if names.len() == 0 {
        seq![]
    } else if names.len() == 1 {
        names[0]
    } else {
        comma_joined(names.drop_last()) + seq![','] + names.last()
    }
}

/// Comma-separated names of the regions that an access mask grants, or
/// `"-"` when it grants none.
pub open spec fn region_list_text(mask: u16) -> Seq<char> {
    let names = masked_regions(mask, 12);
    if names.len() == 0 {
        seq!['-']
    } else {
        comma_joined(names)
    }
}

/// Render an FLMSTR read or write mask as the list of regions it covers.
pub fn region_list(mask: u16) -> (s: String)
    ensures
        s@ == region_list_text(mask),
{
    let mut s = String::new();
    let mut count: usize = 0;
    let mut i: u16 = 0;
    while i < 12
        invariant
            i <= 12,
            count == masked_regions(mask, i as nat).len(),
            count <= i,
            s@ == comma_joined(masked_regions(mask, i as nat)),
        decreases 12 - i,
    {
        let ghost prev = masked_regions(mask, i as nat);
        if mask & (1u16 << i) != 0 {
            if count > 0 {
                crate::fmt::push_char(&mut s, ',');
            }
            let name = region_name(i as usize);
            push_str(&mut s, name);
            proof {
                let next = prev.push(region_names()[i as int]);
                assert(next.drop_last() =~= prev);
                if prev.len() == 0 {
                    assert(comma_joined(next) == next[0]);
                    assert(s@ =~= comma_joined(next));
                } else {
                    assert(s@ =~= comma_joined(next));
                }
            }
            count = count + 1;
        }
        i = i + 1;
    }
    if count == 0 {
        push_str(&mut s, "-");
        proof {
            reveal_strlit("-");
            assert(s@ =~= seq!['-']);
        }
    }
    s
}

/// 16-byte EFI wire encoding of a GUID: first three fields little-endian,
/// trailing eight bytes as-is.
pub open spec fn spec_guid(d1: u32, d2: u16, d3: u16, d4: [u8; 8]) -> Seq<u8> {
    crate::bytes::le32_bytes(d1) + seq![(d2 % 0x100) as u8, (d2 / 0x100) as u8, (d3 % 0x100) as u8, (d3
        / 0x100) as u8] + d4@
}

fn guid(d1: u32, d2: u16, d3: u16, d4: [u8; 8]) -> (g: [u8; 16])
    ensures
        g@ == spec_guid(d1, d2, d3, d4),
{
    let a = crate::bytes::u32_to_le(d1);
    let g = [
        a[0],
        a[1],
        a[2],
        a[3],
        (d2 % 0x100) as u8,
        (d2 / 0x100) as u8,
        (d3 % 0x100) as u8,
        (d3 / 0x100) as u8,
        d4[0],
        d4[1],
        d4[2],
        d4[3],
        d4[4],
        d4[5],
        d4[6],
        d4[7],
    ];
    assert(g@ =~= spec_guid(d1, d2, d3, d4));
    g
}

/// Vendor Secure Boot key-material sections, as (label, GUID).
/// PK = keys provisioned; dbx = revocation list.
pub open spec fn sb_keys() -> Seq<(Seq<char>, Seq<u8>)> {
    seq![
        ("AMI PK"@, spec_guid(0xCC0F8A3F, 0x3DEA, 0x4376, [0x96, 0x79, 0x54, 0x26, 0xBA, 0x0A, 0x90, 0x7E])),
        ("AMI dbx"@, spec_guid(0x9D7A05E9, 0xF740, 0x44C3, [0x85, 0x8B, 0x75, 0x58, 0x6A, 0x8F, 0x9C, 0x8E])),
        ("Dell PK"@, spec_guid(0x2C37326C, 0x3FC1, 0x4B03, [0x97, 0xBE, 0x20, 0x71, 0xCC, 0x81, 0x9B, 0x46])),
        ("Dell dbx"@, spec_guid(0x83072A6C, 0x4399, 0x49FF, [0xAC, 0xFA, 0x34, 0xF0, 0x6C, 0x61, 0x8B, 0xC0])),
        ("HP PK"@, spec_guid(0x3C8C6AC6, 0x2F87, 0x494C, [0xB8, 0x43, 0x41, 0x06, 0x07, 0xD3, 0xAD, 0x3D])),
    ]
}

/// Read/write region bitmasks for one descriptor master.
#[derive(Debug, Clone)]
pub struct MasterAccess {
    pub name: &'static str,
    pub read: u16,
    pub write: u16,
}

/// Decoded FLMSTR access matrix.
#[derive(Debug, Clone)]
pub struct FlmstrReport {
    pub v2: bool,
    pub masters: Vec<MasterAccess>,
    /// ME has write access to the BIOS region (region 1); what `clean -d` removes.
    pub me_writes_bios: bool,
    /// Every master reads/writes every region: the wide-open descriptor
    /// coreboot/liberated boards ship (here `me_writes_bios` is intended).
    pub fully_unlocked: bool,
}

/// Locks determined for an image.
#[derive(Debug, Clone)]
pub struct LockReport {
    pub boot_guard: bool,
    pub boot_guard_entries: Vec<String>,
    pub bios_guard_pfat: bool,
    pub secure_boot_keys: Vec<&'static str>,
    pub descriptor: Option<FlmstrReport>,
}

/// `needle` occurs in `haystack`.
pub open spec fn occurs(haystack: Seq<u8>, needle: Seq<u8>) -> bool {
    exists|i: int| 0 <= i && i + needle.len() <= haystack.len() && #[trigger] haystack.subrange(i, i + needle.len()) == needle
}

pub(crate) fn contains(haystack: &[u8], needle: &[u8]) -> (r: bool)
    ensures
        r == occurs(haystack@, needle@),
{
    let n = haystack.len();
    let m = needle.len();
    if m > n {
        return false;
    }
    if m == 0 {
        assert(haystack@.subrange(0, 0) =~= needle@);
        assert(0 + needle@.len() <= haystack@.len() && haystack@.subrange(0, 0 + needle@.len() as int) == needle@);
        return true;
    }
    let mut i: usize = 0;
    while i <= n - m
        invariant
            n == haystack@.len(),
            m == needle@.len(),
            1 <= m <= n,
            i <= n - m + 1,
            forall|j: int| 0 <= j < i ==> #[trigger] haystack@.subrange(j, j + m) != needle@,
        decreases n - i,
    {
        let w = vstd::slice::slice_subrange(haystack, i, i + m);
        if crate::text::bytes_eq(w, needle) {
            return true;
        }
        i = i + 1;
    }
    proof {
        assert forall|j: int| 0 <= j && j + m <= n implies #[trigger] haystack@.subrange(j, j + m) != needle@ by {
            assert(j < i);
        }
    }
    false
}

/// `{name} @ {address:#x}` for a Boot Guard FIT entry.
pub open spec fn bg_line(e: FitEntry) -> Seq<char> {
    spec_entry_name(e.entry_type) + " @ "@ + hex_prefixed(e.address as nat)
}

/// Lines for the Boot Guard entries of `s`, in order.
pub open spec fn bg_lines(s: Seq<FitEntry>) -> Seq<Seq<char>>
    decreases s.len(),
{
    if s.len() == 0 {
        seq![]
    } else {
        bg_lines(s.drop_last()) + if is_boot_guard(s.last()) {
            seq![bg_line(s.last())]
        } else {
            seq![]
        }
    }
}

/// Labels of the Secure Boot keys among the first `n` table rows found in `buf`.
pub open spec fn sb_found(buf: Seq<u8>, n: int) -> Seq<Seq<char>>
    decreases n,
{
    if n <= 0 {
        seq![]
    } else {
        sb_found(buf, n - 1) + if occurs(buf, sb_keys()[n - 1].1) {
            seq![sb_keys()[n - 1].0]
        } else {
            seq![]
        }
    }
}

/// `(read, write)` region masks encoded by an FLMSTR register.
pub open spec fn flmstr_masks(flmstr: u32, v2: bool) -> (u16, u16) {
    if v2 {
        (((flmstr / 0x100) % 0x1000) as u16, ((flmstr / 0x10_0000) % 0x1000) as u16)
    } else {
        (((flmstr / 0x1_0000) % 0x100) as u16, ((flmstr / 0x100_0000) % 0x100) as u16)
    }
}

/// The FLMSTR decoding for a descriptor.
pub open spec fn flmstr_from(f: FlmstrReport, buf: Seq<u8>, fmba: int, v2: bool) -> bool {
    let full: u16 = if v2 { 0x0fff } else { 0x00ff };
    &&& f.v2 == v2
    &&& f.masters@.len() == 3
    &&& f.masters@[0].name@ == "Host/BIOS"@
    &&& f.masters@[1].name@ == "ME"@
    &&& f.masters@[2].name@ == "GbE"@
    &&& forall|i: int| 0 <= i < 3 ==> (#[trigger] f.masters@[i].read, f.masters@[i].write) == flmstr_masks(le32(buf, fmba + 4 * i) as u32, v2)
    &&& f.me_writes_bios == ((f.masters@[1].write / 2) % 2 == 1)
    &&& f.fully_unlocked == forall|i: int| 0 <= i < 3 ==> (#[trigger] f.masters@[i].read == full && f.masters@[i].write == full)
}

/// The FLMSTR fields: on a v2 descriptor the read mask is bits 8..19 and the
/// write mask bits 20..31 (twelve regions each); on v1 the read mask is bits
/// 16..23 and the write mask bits 24..31 (eight regions each).
pub proof fn lemma_flmstr_fields(f: u32)
    ensures
        flmstr_masks(f, true).0 as u32 == (f >> 8u32) & 0xfffu32,
        flmstr_masks(f, true).1 as u32 == (f >> 20u32) & 0xfffu32,
        flmstr_masks(f, false).0 as u32 == (f >> 16u32) & 0xffu32,
        flmstr_masks(f, false).1 as u32 == (f >> 24u32) & 0xffu32,
        flmstr_masks(f, true) == (0x0fffu16, 0x0fffu16) <==> f & 0xffff_ff00u32 == 0xffff_ff00u32,
        flmstr_masks(f, false) == (0x00ffu16, 0x00ffu16) <==> f & 0xffff_0000u32 == 0xffff_0000u32,
{
    assert((f / 0x100) % 0x1000 == (f >> 8u32) & 0xfffu32) by (bit_vector);
    assert(f / 0x10_0000 == (f >> 20u32) & 0xfffu32) by (bit_vector);
    assert((f / 0x10_0000) % 0x1000 == f / 0x10_0000) by (bit_vector);
    assert((f / 0x1_0000) % 0x100 == (f >> 16u32) & 0xffu32) by (bit_vector);
    assert((f / 0x100_0000) % 0x100 == (f >> 24u32) & 0xffu32) by (bit_vector);
    assert(((f >> 8u32) & 0xfffu32 == 0xfffu32 && (f >> 20u32) & 0xfffu32 == 0xfffu32) <==> f & 0xffff_ff00u32
        == 0xffff_ff00u32) by (bit_vector);
    assert(((f >> 16u32) & 0xffu32 == 0xffu32 && (f >> 24u32) & 0xffu32 == 0xffu32) <==> f & 0xffff_0000u32
        == 0xffff_0000u32) by (bit_vector);
}

/// Boot Guard entries of the image's FIT (none when the FIT does not parse).
pub open spec fn image_fit_entries(buf: Seq<u8>) -> Seq<FitEntry> {
    if fit_header(buf) is Ok {
        spec_fit_entries(buf)
    } else {
        seq![]
    }
}

/// The Boot Guard verdict of a lock scan is the FIT's: Boot Guard is reported
/// exactly when the FIT parses (`Fit::parse` succeeds) and one of its entries
/// (those `Fit::parse` returns) is a Key Manifest or Boot Policy, which is
/// what `Fit::has_boot_guard` answers.
pub proof fn lemma_scan_boot_guard_is_fit(buf: Seq<u8>)
    ensures
        (exists|k: int| 0 <= k < image_fit_entries(buf).len() && #[trigger] is_boot_guard(image_fit_entries(buf)[k]))
            <==> (fit_header(buf) is Ok && exists|k: int|
            0 <= k < spec_fit_entries(buf).len() && #[trigger] is_boot_guard(spec_fit_entries(buf)[k])),
{
    if fit_header(buf) is Ok {
        assert(image_fit_entries(buf) == spec_fit_entries(buf));
    }
}

/// `_AMIPFAT`.
pub open spec fn pfat_marker() -> Seq<u8> {
    seq![0x5fu8, 0x41, 0x4d, 0x49, 0x50, 0x46, 0x41, 0x54]
}

fn decode_flmstr(flmstr: u32, v2: bool) -> (r: (u16, u16))
    ensures
        r == flmstr_masks(flmstr, v2),
{
    if v2 {
        (((flmstr / 0x100) % 0x1000) as u16, ((flmstr / 0x10_0000) % 0x1000) as u16)
    } else {
        (((flmstr / 0x1_0000) % 0x100) as u16, ((flmstr / 0x100_0000) % 0x100) as u16)
    }
}

/// Whether the FIT advertises Boot Guard, and one line per Boot Guard entry.
#[verifier::loop_isolation(false)]
fn boot_guard_lines(buf: &[u8]) -> (r: (bool, Vec<String>))
    ensures
        r.0 == exists|k: int| 0 <= k < image_fit_entries(buf@).len() && #[trigger] is_boot_guard(image_fit_entries(buf@)[k]),
        r.1@.map_values(|s: String| s@) == bg_lines(image_fit_entries(buf@)),
{
    let mut boot_guard = false;
    let mut lines: Vec<String> = Vec::new();
    let ghost es = image_fit_entries(buf@);
    if let Ok(fit) = Fit::parse(buf) {
        assert(fit.entries@ == es);
        let mut k: usize = 0;
        while k < fit.entries.len()
            invariant
                k <= es.len(),
                boot_guard == exists|j: int| 0 <= j < k && #[trigger] is_boot_guard(es[j]),
                lines@.map_values(|s: String| s@) == bg_lines(es.take(k as int)),
            decreases es.len() - k,
        {
            let e = fit.entries[k];
            assert(es.take(k + 1).drop_last() =~= es.take(k as int));
            match e.entry_type {
                EntryType::KeyManifest | EntryType::BootPolicyManifest => {
                    boot_guard = true;
                    let mut line = String::new();
                    push_str(&mut line, e.entry_type.name());
                    push_str(&mut line, " @ ");
                    push_hex_prefixed(&mut line, e.address);
                    assert(line@ =~= bg_line(e));
                    lines.push(line);
                    assert(is_boot_guard(es[k as int]));
                },
                _ => {},
            }
            k = k + 1;
            assert(lines@.map_values(|s: String| s@) =~= bg_lines(es.take(k as int)));
        }
        assert(es.take(k as int) =~= es);
    } else {
        assert(es =~= Seq::<FitEntry>::empty());
        assert(lines@.map_values(|s: String| s@) =~= bg_lines(es));
    }
    (boot_guard, lines)
}

/// Labels of the Secure Boot key GUIDs present in `buf`, in table order.
fn secure_boot_labels(buf: &[u8]) -> (r: Vec<&'static str>)
    ensures
        r@.map_values(|s: &str| s@) == sb_found(buf@, 5),
{
    let mut labels: Vec<&'static str> = Vec::new();
    let mut i: usize = 0;
    while i < 5
        invariant
            i <= 5,
            labels@.map_values(|s: &str| s@) == sb_found(buf@, i as int),
        decreases 5 - i,
    {
        let (label, g) = if i == 0 {
            ("AMI PK", guid(0xCC0F8A3F, 0x3DEA, 0x4376, [0x96, 0x79, 0x54, 0x26, 0xBA, 0x0A, 0x90, 0x7E]))
        } else if i == 1 {
            ("AMI dbx", guid(0x9D7A05E9, 0xF740, 0x44C3, [0x85, 0x8B, 0x75, 0x58, 0x6A, 0x8F, 0x9C, 0x8E]))
        } else if i == 2 {
            ("Dell PK", guid(0x2C37326C, 0x3FC1, 0x4B03, [0x97, 0xBE, 0x20, 0x71, 0xCC, 0x81, 0x9B, 0x46]))
        } else if i == 3 {
            ("Dell dbx", guid(0x83072A6C, 0x4399, 0x49FF, [0xAC, 0xFA, 0x34, 0xF0, 0x6C, 0x61, 0x8B, 0xC0]))
        } else {
            ("HP PK", guid(0x3C8C6AC6, 0x2F87, 0x494C, [0xB8, 0x43, 0x41, 0x06, 0x07, 0xD3, 0xAD, 0x3D]))
        };
        assert(label@ == sb_keys()[i as int].0 && g@ == sb_keys()[i as int].1);
        if contains(buf, &g) {
            labels.push(label);
        }
        i = i + 1;
        assert(labels@.map_values(|s: &str| s@) =~= sb_found(buf@, i as int));
    }
    labels
}

/// Decode the three FLMSTR registers at `fmba`.
fn decode_masters(buf: &[u8], fmba: usize, v2: bool) -> (f: FlmstrReport)
    requires
        fmba + 12 <= buf@.len(),
    ensures
        flmstr_from(f, buf@, fmba as int, v2),
{
    assert(buf@.len() == buf.len());
    let (r0, w0) = decode_flmstr(u32_le(buf, fmba), v2);
    let (r1, w1) = decode_flmstr(u32_le(buf, fmba + 4), v2);
    let (r2, w2) = decode_flmstr(u32_le(buf, fmba + 8), v2);
    let mut masters: Vec<MasterAccess> = Vec::new();
    masters.push(MasterAccess { name: "Host/BIOS", read: r0, write: w0 });
    masters.push(MasterAccess { name: "ME", read: r1, write: w1 });
    masters.push(MasterAccess { name: "GbE", read: r2, write: w2 });
    // ME master is index 1; BIOS region is bit 1.
    let me_writes_bios = (w1 / 2) % 2 == 1;
    let full: u16 = if v2 { 0x0fff } else { 0x00ff };
    let fully_unlocked = r0 == full && w0 == full && r1 == full && w1 == full && r2 == full && w2 == full;
    let f = FlmstrReport { v2, masters, me_writes_bios, fully_unlocked };
    proof {
        assert(f.masters@[0].read == r0 && f.masters@[1].read == r1 && f.masters@[2].read == r2);
        assert(f.masters@[0].write == w0 && f.masters@[1].write == w1 && f.masters@[2].write == w2);
        assert forall|i: int| 0 <= i < 3 implies (#[trigger] f.masters@[i].read, f.masters@[i].write)
            == flmstr_masks(le32(buf@, fmba + 4 * i) as u32, v2) by {
            if i == 0 {
            } else if i == 1 {
            } else {
            }
        }
    }
    f
}

impl LockReport {
    /// Scan an image for locks. `descriptor`/`generation` are optional so this
    /// works on BIOS-only images too.
    pub fn scan(buf: &[u8], descriptor: Option<&Descriptor>, generation: Option<u8>) -> (r: Self)
        requires
            descriptor matches Some(d) ==> d.fmba + 12 <= buf@.len(),
        ensures
            r.boot_guard == exists|k: int| 0 <= k < image_fit_entries(buf@).len() && #[trigger] is_boot_guard(image_fit_entries(buf@)[k]),
            r.boot_guard_entries@.map_values(|s: String| s@) == bg_lines(image_fit_entries(buf@)),
            r.bios_guard_pfat == occurs(buf@, pfat_marker()),
            r.secure_boot_keys@.map_values(|s: &str| s@) == sb_found(buf@, 5),
            match descriptor {
                Some(d) => r.descriptor matches Some(f) && flmstr_from(
                    f,
                    buf@,
                    d.fmba as int,
                    match generation {
                        Some(g) => g >= 3,
                        None => false,
                    },
                ),
                None => r.descriptor is None,
            },
    {
        // Boot Guard (FIT)
        let (boot_guard, boot_guard_entries) = boot_guard_lines(buf);

        // BIOS Guard (AMI PFAT)
        let marker: [u8; 8] = [0x5f, 0x41, 0x4d, 0x49, 0x50, 0x46, 0x41, 0x54];
        assert(marker@ =~= pfat_marker());
        let bios_guard_pfat = contains(buf, &marker);

        // Secure Boot key material
        let secure_boot_keys = secure_boot_labels(buf);

        // Descriptor FLMSTR access
        let descriptor_report = match descriptor {
            Some(d) => {
                let v2 = match generation {
                    Some(g) => g >= 3,
                    None => false,
                };
                Some(decode_masters(buf, d.fmba, v2))
            },
            None => None,
        };

        LockReport {
            boot_guard,
            boot_guard_entries,
            bios_guard_pfat,
            secure_boot_keys,
            descriptor: descriptor_report,
        }
    }

    /// True if any enforcement lock (Boot Guard / BIOS Guard / Secure Boot) is present.
    pub fn any_enforcement(&self) -> (b: bool)
        ensures
            b == (self.boot_guard || self.bios_guard_pfat || self.secure_boot_keys@.len() > 0),
    {
        self.boot_guard || self.bios_guard_pfat || self.secure_boot_keys.len() > 0
    }
}

} // verus!
