//! lingo - the CLI's themed user-facing strings. Keep the real term in parentheses.

use crate::fmt::{dec, push_dec, push_str};
use vstd::prelude::*;

verus! {

/// Top-level program description.
pub const ABOUT: &'static str = "Intel: Management Absent - take back the silicon a squatter stole from you";

pub const INFO_ABOUT: &'static str = "Survey the stolen property (descriptor, partitions, ME version)";

pub const CHECK_ABOUT: &'static str = "Check the squatter's forged papers (FTPR RSA signature, layout)";

pub const CLEAN_ABOUT: &'static str = "Take the house back (strip and neuter the ME)";

pub const FIT_ABOUT: &'static str = "Inspect the locks they installed (FIT: microcode, ACMs, vendor lock-in)";

pub const LOCKS_ABOUT: &'static str =
    "Inventory every lock on the house (Boot Guard, BIOS Guard, Secure Boot, descriptor)";

pub const AMD_ABOUT: &'static str =
    "Cross the street to the AMD house (PSP firmware: FET, directories, entries)";

pub const BIOS_ABOUT: &'static str =
    "Search the BIOS region (UEFI volumes, modules; decompresses EFI/Tiano sections)";

pub const GBE_ABOUT: &'static str =
    "Read the mailbox on the wall (GbE region: MAC, LAN controller, NVM banks)";

pub const MEI_ABOUT: &'static str =
    "Knock on the door of the live machine (probe the running ME over PCI/MEI - Linux only)";

pub const FULL_IMAGE: &'static str = "The whole house - full SPI dump (flash descriptor present)";

pub const ME_IMAGE: &'static str = "Just the room they barricaded - ME/TXE region image";

pub const ME_ALREADY_GONE: &'static str = "Squatter's already gone - ME region is disabled";

pub const NO_VENDOR_LOCK: &'static str =
    "No Boot Guard manifests in the FIT - this image is not configured for it (fuse state still unknown)";

pub const DEED_VALID: &'static str = "Their forged deed is genuine Intel paper - FTPR RSA signature VALID";

pub const DEED_INVALID: &'static str = "Even the forgery is botched - FTPR RSA signature INVALID!!";

/// The squatter notice for an ME of `version` and `generation`.
pub open spec fn squatter_text(version: Seq<char>, generation: u8) -> Seq<char> {
    "Squatter found: Intel ME v"@ + version + " (generation "@ + dec(generation as nat)
        + ") - moved in uninvited, forged the deed, never left"@
}

/// Render the ME firmware line as a squatter notice.
pub fn squatter_line(version: &str, generation: u8) -> (s: String)
    ensures
        s@ == squatter_text(version@, generation),
{
    let mut s = String::new();
    push_str(&mut s, "Squatter found: Intel ME v");
    push_str(&mut s, version);
    push_str(&mut s, " (generation ");
    push_dec(&mut s, generation as u64);
    push_str(&mut s, ") - moved in uninvited, forged the deed, never left");
    s
}

/// The Boot Guard headline.
pub open spec fn boot_guard_text() -> Seq<char> {
    "🔒  BOOT GUARD CONFIGURED (Key Manifest + Boot Policy present)\n    The board is set up for Boot Guard, but whether it is ENFORCED lives in the\n    PCH fuses (FPFs) - burned at the factory, not in this image, unreadable from a\n    dump. On OEM hardware assume it is fused ON. If it is, flashing an unsigned or\n    modified BIOS may BRICK the board. A flash cannot turn this on or off."@
}

/// The pointer to the `fit` subcommand.
pub open spec fn fit_hint_text() -> Seq<char> {
    "\n    Case the locks first:  intel_ma fit <image>"@
}

/// Boot Guard headline; `cmd_hint` adds a pointer to the `fit` subcommand.
///
/// Deliberately says CONFIGURED, not ENFORCED: all we can see from a flash
/// image is that the Key Manifest / Boot Policy are present. Real enforcement
/// is decided by the PCH fuses (FPFs), which are burned at the factory and are
/// not part of the SPI image - so a dump can never confirm it either way.
pub fn vendor_lock(cmd_hint: bool) -> (s: String)
    ensures
        s@ == if cmd_hint {
            boot_guard_text() + fit_hint_text()
        } else {
            boot_guard_text()
        },
{
    let mut s = String::new();
    push_str(
        &mut s,
        "🔒  BOOT GUARD CONFIGURED (Key Manifest + Boot Policy present)\n    The board is set up for Boot Guard, but whether it is ENFORCED lives in the\n    PCH fuses (FPFs) - burned at the factory, not in this image, unreadable from a\n    dump. On OEM hardware assume it is fused ON. If it is, flashing an unsigned or\n    modified BIOS may BRICK the board. A flash cannot turn this on or off.",
    );
    if cmd_hint {
        push_str(&mut s, "\n    Case the locks first:  intel_ma fit <image>");
    }
    assert(Seq::<char>::empty() + boot_guard_text() =~= boot_guard_text());
    s
}

/// The closing line after a clean, naming the written image.
pub open spec fn reclaimed_text(out: Seq<char>) -> Seq<char> {
    "House reclaimed. The silicon is yours again.  ->  "@ + out
}

/// House reclaimed; `out` is where the new image was written.
pub fn house_reclaimed(out: &str) -> (s: String)
    ensures
        s@ == reclaimed_text(out@),
{
    let mut s = String::new();
    push_str(&mut s, "House reclaimed. The silicon is yours again.  ->  ");
    push_str(&mut s, out);
    assert(Seq::<char>::empty() + "House reclaimed. The silicon is yours again.  ->  "@ =~= "House reclaimed. The silicon is yours again.  ->  "@);
    s
}

} // verus!
