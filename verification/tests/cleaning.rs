//! Cleaning runs on synthetic images: refusals, straps, soft-disable,
//! descriptor access and a signature that checks out.

use intel_ma::region::Region;
use intel_ma::{analyze, clean, Error, Options};
use sha2::Digest;

/// An ME region image: one `$FPT` entry (FTPR at 0x100) whose manifest
/// carries an RSA signature that verifies (exponent 1, modulus 2^2047,
/// signature 2^256 + SHA-256 of the header).
fn signed_me_image() -> Vec<u8> {
    let mut buf = vec![0u8; 0x1000];
    buf[0x10..0x14].copy_from_slice(b"$FPT");
    buf[0x14..0x18].copy_from_slice(&1u32.to_le_bytes());
    let e = 0x30;
    buf[e..e + 4].copy_from_slice(b"FTPR");
    buf[e + 0x8..e + 0xc].copy_from_slice(&0x100u32.to_le_bytes());
    buf[e + 0xc..e + 0x10].copy_from_slice(&0x400u32.to_le_bytes());
    let f = 0x100;
    // Header and manifest both 0x284 bytes: the body is empty.
    buf[f + 0x4..f + 0x8].copy_from_slice(&(0x284u32 / 4).to_le_bytes());
    buf[f + 0x18..f + 0x1c].copy_from_slice(&(0x284u32 / 4).to_le_bytes());
    buf[f + 0x1c..f + 0x20].copy_from_slice(b"$MN2");
    buf[f + 0x24..f + 0x26].copy_from_slice(&9u16.to_le_bytes());
    buf[f + 0x80 + 0xff] = 0x80; // modulus 2^2047 (little-endian on disk)
    buf[f + 0x180..f + 0x184].copy_from_slice(&1u32.to_le_bytes()); // exponent
    let digest = sha2::Sha256::digest(&buf[f..f + 0x80]);
    for (i, b) in digest.iter().rev().enumerate() {
        buf[f + 0x184 + i] = *b;
    }
    buf[f + 0x184 + 32] = 1;
    buf
}

/// A full dump: descriptor (signature at 0x10, FRBA 0x40, FMBA 0x80,
/// FISBA 0x100), ME region 0x1000..0x2000 holding `signed_me_image`, BIOS
/// region 0x2000..0x4000.
fn full_dump() -> Vec<u8> {
    let mut buf = vec![0u8; 0x4000];
    buf[0x10..0x14].copy_from_slice(&[0x5a, 0xa5, 0xf0, 0x0f]);
    buf[0x14..0x18].copy_from_slice(&0x0004_0000u32.to_le_bytes()); // FRBA 0x40
    buf[0x18..0x1c].copy_from_slice(&0x0010_0008u32.to_le_bytes()); // FMBA 0x80, FISBA 0x100
    buf[0x40..0x44].copy_from_slice(&0x0000_0000u32.to_le_bytes()); // descriptor 0..0x1000
    buf[0x44..0x48].copy_from_slice(&0x0003_0002u32.to_le_bytes()); // BIOS 0x2000..0x4000
    buf[0x48..0x4c].copy_from_slice(&0x0001_0001u32.to_le_bytes()); // ME 0x1000..0x2000
    buf[0x84..0x88].copy_from_slice(&0xffff_ffffu32.to_le_bytes()); // FLMSTR2: ME reads/writes all
    buf[0x1000..0x2000].copy_from_slice(&signed_me_image());
    buf
}

/// A full dump whose descriptor maps an empty ME region.
fn disabled_full_image(sig_at_zero: bool) -> Vec<u8> {
    let mut buf = vec![0u8; 0x1000];
    let base = if sig_at_zero { 0 } else { 0x10 };
    buf[base..base + 4].copy_from_slice(&[0x5a, 0xa5, 0xf0, 0x0f]);
    buf[base + 4..base + 8].copy_from_slice(&0x0004_0000u32.to_le_bytes());
    buf[0x48..0x4c].copy_from_slice(&0x0000_7fffu32.to_le_bytes());
    buf
}

fn byte_sum(b: &[u8]) -> u32 {
    b.iter().map(|&x| x as u32).sum()
}

#[test]
fn analyze_signed_image_names_the_key() {
    let buf = signed_me_image();
    let a = analyze(&buf).unwrap();
    assert_eq!(a.generation, Some(2));
    assert_eq!(a.variant, "ME");
    assert_eq!(a.version.unwrap().0, [9, 0, 0, 0]);
    // MD5 of the 0x104 key bytes (modulus and exponent).
    assert_eq!(a.pubkey_md5, "e3263f52361589ce952814f58621bfaf");
    assert!(a.pubkey_match.is_none());
    assert!(a.warnings.is_empty());
    assert_eq!(a.ftpr_mn2_offset, 0);
}

#[test]
fn clean_signed_image_default_options() {
    let mut buf = signed_me_image();
    let before = buf.clone();
    let rep = clean(&mut buf, &Options::default()).unwrap();
    assert_eq!(
        rep.log,
        vec![
            "Reading partitions list...",
            " FTPR (0x00000100 - 0x00000500): NOT removed",
            "Removing partition entries in FPT...",
            "Removing EFFS presence flag...",
            "Correcting checksum (0xf1)...",
            "Reading FTPR modules list...",
        ]
    );
    assert_eq!(rep.generation, Some(2));
    assert_eq!(rep.signature_valid, Some(true));
    assert_eq!(rep.end_addr, None);
    assert_eq!(rep.truncated_to, None);
    // Only the checksum byte changed; the image keeps its size.
    assert_eq!(buf.len(), before.len());
    let changed: Vec<usize> = (0..buf.len()).filter(|&i| buf[i] != before[i]).collect();
    assert_eq!(changed, vec![0x1b]);
    assert_eq!(buf[0x1b], 0xf1);
    // The checksummed FPT header now sums to zero.
    assert_eq!(byte_sum(&buf[0..0x30]) % 0x100, 0);
}

#[test]
fn clean_fails_on_forged_signature() {
    let mut buf = signed_me_image();
    buf[0x100 + 0x26] = 1; // minor version: changes the hashed header
    let err = clean(&mut buf, &Options::default()).unwrap_err();
    assert!(matches!(err, Error::InvalidSignature));
    assert_eq!(
        err.to_string(),
        "the FTPR partition signature is not valid; is the input ME/TXE image valid?"
    );
}

#[test]
fn clean_full_dump_soft_disable_and_descriptor() {
    let mut buf = full_dump();
    let opts = Options {
        soft_disable: true,
        descriptor: true,
        extract_descriptor: true,
        extract_me: true,
        ..Options::default()
    };
    let rep = clean(&mut buf, &opts).unwrap();
    assert_eq!(rep.log[0], "The AltMeDisable bit in PCHSTRP10 is NOT SET");
    assert!(rep
        .log
        .contains(&"Setting the AltMeDisable bit in PCHSTRP10 to disable Intel ME...".to_string()));
    assert!(rep
        .log
        .contains(&"Removing ME/TXE R/W access to the other flash regions...".to_string()));
    assert_eq!(rep.signature_valid, Some(true));
    assert_eq!(buf.len(), 0x4000);
    // AltMeDisable: bit 7 of the strap at FPSBA + 0x28.
    assert_eq!(u32::from_le_bytes(buf[0x128..0x12c].try_into().unwrap()), 0x80);
    // FLMSTR2: (v | 0x0404_0000) & 0x0404_ffff.
    assert_eq!(u32::from_le_bytes(buf[0x84..0x88].try_into().unwrap()), 0x0404_ffff);
    // Extracts are taken from the modified image.
    assert_eq!(rep.extracted_descriptor.as_deref(), Some(&buf[0..0x1000]));
    assert_eq!(rep.extracted_me.as_deref(), Some(&buf[0x1000..0x2000]));
}

#[test]
fn clean_soft_disable_only_reports_and_sets_bit_once() {
    let mut buf = full_dump();
    buf[0x128] = 0x80; // already set
    let opts = Options {
        soft_disable_only: true,
        ..Options::default()
    };
    let rep = clean(&mut buf, &opts).unwrap();
    assert_eq!(
        rep.log,
        vec![
            "The AltMeDisable bit in PCHSTRP10 is SET",
            "Setting the AltMeDisable bit in PCHSTRP10 to disable Intel ME...",
        ]
    );
    assert_eq!(buf, {
        let mut b = full_dump();
        b[0x128] = 0x80;
        b
    });
}

#[test]
fn clean_generation_one_sets_me_disable_straps() {
    let mut buf = disabled_full_image(true);
    let rep = clean(&mut buf, &Options::default()).unwrap();
    assert_eq!(rep.generation, Some(1));
    assert_eq!(
        rep.log,
        vec![
            "The meDisable bit in ICHSTRP0 is NOT SET, setting it now...",
            "The meDisable bit in MCHSTRP0 is SET",
            "The ME region in this image has already been disabled",
        ]
    );
    // ICHSTRP0 and MCHSTRP0 both sit at offset 0 here: bit 0 set once.
    assert_eq!(&buf[0..4], &[0x5b, 0xa5, 0xf0, 0x0f]);
}

#[test]
fn clean_disabled_me_changes_nothing() {
    let mut buf = disabled_full_image(false);
    let before = buf.clone();
    let rep = clean(&mut buf, &Options::default()).unwrap();
    assert_eq!(rep.log, vec!["The ME region in this image has already been disabled"]);
    assert_eq!(rep.signature_valid, None);
    assert_eq!(buf, before);
}

#[test]
fn clean_refuses_descriptor_ops_on_me_region() {
    let mut buf = signed_me_image();
    let before = buf.clone();
    let opts = Options {
        descriptor: true,
        ..Options::default()
    };
    let err = clean(&mut buf, &opts).unwrap_err();
    match err {
        Error::RequiresFullDump { op } => assert_eq!(op, "-d/-D/-M/-S/-s"),
        other => panic!("unexpected {other:?}"),
    }
    assert_eq!(buf, before);
}

#[test]
fn clean_refuses_soft_only_with_truncate() {
    let mut buf = disabled_full_image(false);
    let opts = Options {
        soft_disable_only: true,
        truncate: true,
        ..Options::default()
    };
    let err = clean(&mut buf, &opts).unwrap_err();
    match &err {
        Error::BadOptions(m) => assert_eq!(m, "-s can't be used with -r or -t"),
        other => panic!("unexpected {other:?}"),
    }
    assert_eq!(
        err.to_string(),
        "invalid option combination: -s can't be used with -r or -t"
    );
}

#[test]
fn clean_refuses_relocation_with_lists() {
    let mut buf = signed_me_image();
    let opts = Options {
        relocate: true,
        whitelist: vec!["MFS".to_string()],
        ..Options::default()
    };
    let err = clean(&mut buf, &opts).unwrap_err();
    match err {
        Error::BadOptions(m) => {
            assert_eq!(m, "relocation is not supported with custom whitelist or blacklist")
        }
        other => panic!("unexpected {other:?}"),
    }
}

#[test]
fn clean_unknown_image() {
    let mut buf = vec![0u8; 0x100];
    let err = clean(&mut buf, &Options::default()).unwrap_err();
    assert!(matches!(err, Error::UnknownImage));
    assert_eq!(buf, vec![0u8; 0x100]);
}

#[test]
fn analysis_sees_me_region_of_full_dump() {
    let buf = full_dump();
    let a = analyze(&buf).unwrap();
    assert!(a.full_image);
    assert!(!a.sig_at_zero);
    assert_eq!(a.me, Region::new(0x1000, 0x2000));
    let d = a.descriptor.unwrap();
    assert_eq!((d.frba, d.fmba, d.fisba, d.fpsba), (0x40, 0x80, 0x100, 0x100));
    assert_eq!(d.bios, Region::new(0x2000, 0x4000));
    assert_eq!(a.fpt.unwrap().offset, 0x10);
    assert_eq!(a.ftpr.unwrap().offset, 0x100);
}

#[test]
fn partition_list_option_parsing() {
    assert!(intel_ma::cleaner::split_list(None).is_empty());
    assert!(intel_ma::cleaner::split_list(Some("")).is_empty());
    assert_eq!(intel_ma::cleaner::split_list(Some("MFS, EFFS ,FTUP")), vec!["MFS", "EFFS", "FTUP"]);
    assert_eq!(intel_ma::cleaner::split_list(Some("MFS,,\tNFTP\u{3000}")), vec!["MFS", "", "NFTP"]);
    assert_eq!(intel_ma::cleaner::split_list(Some(" ")), vec![""]);
}

#[test]
fn clean_descriptor_leaves_me_master_its_own_region() {
    let mut buf = full_dump();
    let opts = Options { descriptor: true, ..Options::default() };
    let a = analyze(&buf).unwrap();
    clean(&mut buf, &opts).unwrap();
    let d = a.descriptor.unwrap();
    let r = intel_ma::locks::LockReport::scan(&buf, Some(&d), a.generation);
    let f = r.descriptor.unwrap();
    assert!(!f.v2);
    assert_eq!((f.masters[1].read, f.masters[1].write), (0b100, 0b100));
    assert!(!f.me_writes_bios);
}
