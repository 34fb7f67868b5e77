//! Intel GbE region: the LAN controller's NVM image (MAC, banks, controller ID).

use crate::bytes::{le16, u16_le};
use crate::fmt::{hex2, push_char, push_hex2};
use crate::descriptor::{descriptor_readable, spec_descriptor, Descriptor, FD_SIGNATURE};
use crate::text::{has_tag, tag_at};
use vstd::prelude::*;

verus! {

/// Bytes covered by the NVM checksum (64 little-endian words).
const NVM_BYTES: usize = 0x80;

/// The 64 checksummed words sum (mod 2^16) to this on a valid bank.
const CHECKSUM_TARGET: u16 = 0xbaba;

/// One NVM bank (part) within the GbE region.
#[derive(Debug, Clone)]
pub struct Bank {
    pub mac: [u8; 6],
    pub checksum_valid: bool,
    /// LAN controller PCI Device ID (word 0x0d); vendor is implicitly Intel.
    pub device_id: u16,
    pub subsystem_vendor: u16,
    pub subsystem_device: u16,
}

/// Sum of the first `n` little-endian words starting at `base`.
pub open spec fn word_sum(s: Seq<u8>, base: int, n: nat) -> int
    decreases n,
{
    if n == 0 {
        0
    } else {
        word_sum(s, base, (n - 1) as nat) + le16(s, base + 2 * (n - 1))
    }
}

/// `b` is the bank stored at `base` in `s`.
pub open spec fn bank_from(b: Bank, s: Seq<u8>, base: int) -> bool {
    &&& b.mac@ == s.subrange(base, base + 6)
    &&& b.checksum_valid == (word_sum(s, base, 64) % 0x1_0000 == 0xbaba)
    &&& b.device_id == le16(s, base + 0x1a)
    &&& b.subsystem_vendor == le16(s, base + 0x18)
    &&& b.subsystem_device == le16(s, base + 0x16)
}

/// Intel's placeholder MAC shipped in NVM update images.
pub open spec fn default_mac() -> Seq<u8> {
    seq![0x88u8, 0x88, 0x88, 0x88, 0x87, 0x88]
}

impl Bank {
    #[verifier::loop_isolation(false)]
    fn read(region: &[u8], base: usize) -> (b: Self)
        requires
            base + 0x80 <= region@.len(),
        ensures
            bank_from(b, region@, base as int),
    {
        assert(region@.len() == region.len());
        let mut mac = [0u8; 6];
        let mut k: usize = 0;
        while k < 6
            invariant
                base + 0x80 <= region@.len(),
                k <= 6,
                forall|j: int| 0 <= j < k ==> mac@[j] == region@[base + j],
            decreases 6 - k,
        {
            mac[k] = region[base + k];
            k = k + 1;
        }
        assert(mac@ =~= region@.subrange(base as int, base + 6));
        let mut sum: u32 = 0;
        let mut w: usize = 0;
        while w < NVM_BYTES / 2
            invariant
                base + 0x80 <= region@.len(),
                w <= 64,
                sum == word_sum(region@, base as int, w as nat),
                sum <= w * 0xffff,
            decreases 64 - w,
        {
            sum = sum + u16_le(region, base + w * 2) as u32;
            w = w + 1;
        }
        Bank {
            mac,
            checksum_valid: sum % 0x1_0000 == CHECKSUM_TARGET as u32,
            device_id: u16_le(region, base + 0x1a),
            subsystem_vendor: u16_le(region, base + 0x18),
            subsystem_device: u16_le(region, base + 0x16),
        }
    }

    pub fn mac_blank(&self) -> (r: bool)
        ensures
            r == (self.mac@ == seq![0xffu8, 0xff, 0xff, 0xff, 0xff, 0xff]),
    {
        let r = self.mac[0] == 0xff && self.mac[1] == 0xff && self.mac[2] == 0xff && self.mac[3]
            == 0xff && self.mac[4] == 0xff && self.mac[5] == 0xff;
        proof {
            if r {
                assert(self.mac@ =~= seq![0xffu8, 0xff, 0xff, 0xff, 0xff, 0xff]);
            }
        }
        r
    }

    /// Intel's placeholder MAC shipped in NVM update images.
    pub fn mac_default(&self) -> (r: bool)
        ensures
            r == (self.mac@ == default_mac()),
    {
        let r = self.mac[0] == 0x88 && self.mac[1] == 0x88 && self.mac[2] == 0x88 && self.mac[3]
            == 0x88 && self.mac[4] == 0x87 && self.mac[5] == 0x88;
        proof {
            if r {
                assert(self.mac@ =~= default_mac());
            }
        }
        r
    }

    pub fn controller(&self) -> (r: Option<&'static str>)
        ensures
            match spec_controller_name(self.device_id) {
                Some(n) => r matches Some(s) && s@ == n,
                None => r is None,
            },
    {
        controller_name(self.device_id)
    }
}

/// A MAC address as six two-digit lowercase hex bytes separated by colons.
pub open spec fn mac_text(m: Seq<u8>) -> Seq<char> {
    hex2(m[0]) + seq![':'] + hex2(m[1]) + seq![':'] + hex2(m[2]) + seq![':'] + hex2(m[3]) + seq![
        ':',
    ] + hex2(m[4]) + seq![':'] + hex2(m[5])
}

/// Render a MAC address as `aa:bb:cc:dd:ee:ff`.
pub fn fmt_mac(mac: &[u8; 6]) -> (s: String)
    ensures
        s@ == mac_text(mac@),
{
    let mut s = String::new();
    push_hex2(&mut s, mac[0]);
    let mut i: usize = 1;
    while i < 6
        invariant
            1 <= i <= 6,
            s@ == mac_prefix(mac@, i as int),
        decreases 6 - i,
    {
        push_char(&mut s, ':');
        push_hex2(&mut s, mac[i]);
        assert(s@ =~= mac_prefix(mac@, i + 1));
        i = i + 1;
    }
    proof {
        reveal_with_fuel(mac_prefix, 6);
        assert(mac_prefix(mac@, 6) =~= mac_text(mac@));
    }
    s
}

/// The text of the first `k` bytes of a MAC address (`1 <= k`).
spec fn mac_prefix(m: Seq<u8>, k: int) -> Seq<char>
    decreases k,
{
    if k <= 1 {
        hex2(m[0])
    } else {
        mac_prefix(m, k - 1) + seq![':'] + hex2(m[k - 1])
    }
}

/// Parsed GbE region: its banks and the active (checksum-valid) one.
#[derive(Debug, Clone)]
pub struct Gbe {
    pub size: usize,
    pub bank_size: usize,
    pub banks: Vec<Bank>,
    pub active: Option<usize>,
}

/// Offsets of the banks in a region of `len` bytes: two halves, or one bank
/// when a half is too small to hold one.
pub open spec fn bank_bases(len: int) -> Seq<int> {
    if len / 2 >= 0x80 {
        seq![0, len / 2]
    } else {
        seq![0]
    }
}

/// Parse a GbE region slice; `None` if too small to hold a bank.
pub fn parse(region: &[u8]) -> (r: Option<Gbe>)
    ensures
        region@.len() < 0x80 <==> r is None,
        r matches Some(g) ==> {
            let bases = bank_bases(region@.len() as int);
            &&& g.size == region@.len()
            &&& g.bank_size == region@.len() / 2
            &&& g.banks@.len() == bases.len()
            &&& forall|k: int| 0 <= k < bases.len() ==> bank_from(#[trigger] g.banks@[k], region@, bases[k])
            &&& match g.active {
                Some(a) => a < g.banks@.len() && g.banks@[a as int].checksum_valid && forall|k: int|
                    0 <= k < a ==> !(#[trigger] g.banks@[k]).checksum_valid,
                None => forall|k: int| 0 <= k < g.banks@.len() ==> !(#[trigger] g.banks@[k]).checksum_valid,
            }
        },
{
    let len = region.len();
    if len < NVM_BYTES {
        return None;
    }
    // Two banks split the region in half; a lone-bank region falls back to one.
    let bank_size = len / 2;
    let mut banks: Vec<Bank> = Vec::new();
    let b0 = Bank::read(region, 0);
    banks.push(b0);
    if bank_size >= NVM_BYTES {
        let b1 = Bank::read(region, len / 2);
        banks.push(b1);
    }
    let active = if banks[0].checksum_valid {
        Some(0)
    } else if banks.len() > 1 && banks[1].checksum_valid {
        Some(1)
    } else {
        None
    };
    Some(Gbe { size: len, bank_size, banks, active })
}

/// Model name of an Intel PCH-integrated LAN controller Device ID.
pub open spec fn spec_controller_name(device_id: u16) -> Option<Seq<char>> {
    if device_id == 0x10ea {
        Some("82577LM"@)
    } else if device_id == 0x10eb {
        Some("82577LC"@)
    } else if device_id == 0x10ef {
        Some("82578DM"@)
    } else if device_id == 0x10f0 {
        Some("82578DC"@)
    } else if device_id == 0x1502 {
        Some("82579LM"@)
    } else if device_id == 0x1503 {
        Some("82579V"@)
    } else if device_id == 0x153a {
        Some("I217-LM"@)
    } else if device_id == 0x153b {
        Some("I217-V"@)
    } else if device_id == 0x155a {
        Some("I218-LM"@)
    } else if device_id == 0x1559 {
        Some("I218-V"@)
    } else if device_id == 0x15a0 {
        Some("I218-LM (2)"@)
    } else if device_id == 0x15a1 {
        Some("I218-V (2)"@)
    } else if device_id == 0x15a2 {
        Some("I218-LM (3)"@)
    } else if device_id == 0x15a3 {
        Some("I218-V (3)"@)
    } else if device_id == 0x156f {
        Some("I219-LM"@)
    } else if device_id == 0x1570 {
        Some("I219-V"@)
    } else if device_id == 0x15b7 {
        Some("I219-LM (2)"@)
    } else if device_id == 0x15b8 {
        Some("I219-V (2)"@)
    } else if device_id == 0x15b9 {
        Some("I219-LM (3)"@)
    } else if device_id == 0x15d7 {
        Some("I219-LM (4)"@)
    } else if device_id == 0x15d8 {
        Some("I219-V (4)"@)
    } else if device_id == 0x15e3 {
        Some("I219-LM (5)"@)
    } else if device_id == 0x15d6 {
        Some("I219-V (5)"@)
    } else {
        None
    }
}

/// Intel PCH-integrated LAN controller Device ID -> model name.
pub fn controller_name(device_id: u16) -> (r: Option<&'static str>)
    ensures
        match spec_controller_name(device_id) {
            Some(n) => r matches Some(s) && s@ == n,
            None => r is None,
        },
{
    if device_id == 0x10ea {
        Some("82577LM")
    } else if device_id == 0x10eb {
        Some("82577LC")
    } else if device_id == 0x10ef {
        Some("82578DM")
    } else if device_id == 0x10f0 {
        Some("82578DC")
    } else if device_id == 0x1502 {
        Some("82579LM")
    } else if device_id == 0x1503 {
        Some("82579V")
    } else if device_id == 0x153a {
        Some("I217-LM")
    } else if device_id == 0x153b {
        Some("I217-V")
    } else if device_id == 0x155a {
        Some("I218-LM")
    } else if device_id == 0x1559 {
        Some("I218-V")
    } else if device_id == 0x15a0 {
        Some("I218-LM (2)")
    } else if device_id == 0x15a1 {
        Some("I218-V (2)")
    } else if device_id == 0x15a2 {
        Some("I218-LM (3)")
    } else if device_id == 0x15a3 {
        Some("I218-V (3)")
    } else if device_id == 0x156f {
        Some("I219-LM")
    } else if device_id == 0x1570 {
        Some("I219-V")
    } else if device_id == 0x15b7 {
        Some("I219-LM (2)")
    } else if device_id == 0x15b8 {
        Some("I219-V (2)")
    } else if device_id == 0x15b9 {
        Some("I219-LM (3)")
    } else if device_id == 0x15d7 {
        Some("I219-LM (4)")
    } else if device_id == 0x15d8 {
        Some("I219-V (4)")
    } else if device_id == 0x15e3 {
        Some("I219-LM (5)")
    } else if device_id == 0x15d6 {
        Some("I219-V (5)")
    } else {
        None
    }
}

/// Whether `buf` starts with a flash descriptor (signature at 0 or 0x10).
pub open spec fn has_descriptor(buf: Seq<u8>) -> bool {
    tag_at(buf, 0, FD_SIGNATURE) || tag_at(buf, 0x10, FD_SIGNATURE)
}

/// The bytes `[start, end)` of `buf` that hold the GbE region: the
/// descriptor's GbE region in a full dump (`None` when it is empty or runs
/// past the end), and the whole buffer for a bare region.
pub open spec fn spec_gbe_region(buf: Seq<u8>) -> Option<(int, int)> {
    if has_descriptor(buf) {
        let g = spec_descriptor(buf, tag_at(buf, 0, FD_SIGNATURE)).gbe;
        if g.end <= g.start || g.end > buf.len() {
            None
        } else {
            Some((g.start as int, g.end as int))
        }
    } else {
        Some((0, buf.len() as int))
    }
}

/// Locate the GbE region in a full dump or a bare `flashregion_3_gbe.bin`.
pub fn gbe_region(buf: &[u8]) -> (r: Option<(usize, usize)>)
    requires
        has_descriptor(buf@) ==> descriptor_readable(buf@, tag_at(buf@, 0, FD_SIGNATURE)),
    ensures
        match spec_gbe_region(buf@) {
            Some((s, e)) => r == Some((s as usize, e as usize)) && s <= e <= buf@.len(),
            None => r is None,
        },
{
    let n = buf.len();
    let sig_at_zero = n >= 4 && has_tag(buf, 0, FD_SIGNATURE);
    let has_fd = sig_at_zero || (n >= 0x14 && has_tag(buf, 0x10, FD_SIGNATURE));
    if has_fd {
        let d = Descriptor::parse(buf, sig_at_zero);
        if d.gbe.end <= d.gbe.start || d.gbe.end > n {
            None
        } else {
            Some((d.gbe.start, d.gbe.end))
        }
    } else {
        Some((0, n))
    }
}

} // verus!
