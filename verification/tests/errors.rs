//! Each error the library reports, from an input that provokes it.

use intel_ma::fit::Fit;
use intel_ma::fpt::{find_fpt, find_ftpr, parse_fpt};
use intel_ma::manifest::{check_mn2_tag, check_partition_signature, signature_precheck};
use intel_ma::region::Region;
use intel_ma::{analyze, Error};
use sha2::Digest;

/// An ME region whose one `$FPT` entry names FTPR at 0x100.
fn me_image_with_ftpr() -> Vec<u8> {
    let mut buf = vec![0u8; 0x1000];
    buf[0x10..0x14].copy_from_slice(b"$FPT");
    buf[0x14..0x18].copy_from_slice(&1u32.to_le_bytes());
    buf[0x30..0x34].copy_from_slice(b"FTPR");
    buf[0x38..0x3c].copy_from_slice(&0x100u32.to_le_bytes());
    buf[0x3c..0x40].copy_from_slice(&0x80u32.to_le_bytes());
    buf
}

#[test]
fn fit_pointer_errors() {
    let mut buf = vec![0xffu8; 0x100_0000];
    assert!(matches!(Fit::parse(&buf), Err(Error::FitNotFound)));
    let ptr = buf.len() - 0x40;
    buf[ptr..ptr + 4].copy_from_slice(&0xff00_1008u32.to_le_bytes()); // not 16-aligned
    match Fit::parse(&buf) {
        Err(Error::FitInvalidPointer { offset }) => assert_eq!(offset, 0x1008),
        other => panic!("unexpected {other:?}"),
    }
    assert_eq!(Error::FitNotFound.to_string(), "no FIT found in image");
    assert_eq!(
        Error::FitInvalidPointer { offset: 0x1008 }.to_string(),
        "invalid FIT pointer (offset 0x1008)"
    );
}

#[test]
fn fpt_search_errors() {
    let mut data = vec![0u8; 0x100];
    assert!(matches!(find_fpt(&data), Err(Error::FptNotFound)));
    data[0x10..0x18].copy_from_slice(b"$FPT\x01\x00\x00\x00");
    assert_eq!(find_fpt(&data).unwrap(), 0x10);
    data[0x80..0x88].copy_from_slice(b"$FPT\x02\x00\x00\x00");
    assert!(matches!(find_fpt(&data), Err(Error::MultipleFpt)));
    // High bytes of the entry count must be zero.
    data[0x80..0x88].copy_from_slice(b"$FPT\x02\x00\x01\x00");
    assert_eq!(find_fpt(&data).unwrap(), 0x10);
}

#[test]
fn ftpr_not_found() {
    let mut buf = me_image_with_ftpr();
    buf[0x30..0x34].copy_from_slice(b"MFS\0");
    let me = Region::new(0, buf.len());
    let fpt = parse_fpt(&me, &buf, 0x10).unwrap();
    assert_eq!(fpt.partitions[0].name_str(), "MFS");
    assert!(matches!(find_ftpr(&fpt, &buf), Err(Error::FtprNotFound)));
    // Analysis carries on without a version.
    let a = analyze(&buf).unwrap();
    assert!(a.ftpr.is_none());
    assert_eq!(a.fpt.unwrap().offset, 0x10);
    assert_eq!(
        a.warnings,
        vec!["no FTPR partition found in any $FPT; skipping ME version".to_string()]
    );
}

#[test]
fn wrong_manifest_tag() {
    let mut buf = me_image_with_ftpr();
    buf[0x11c..0x120].copy_from_slice(b"$XX2");
    let me = Region::new(0, buf.len());
    match check_mn2_tag(&me, &buf, 0x100, None) {
        Err(Error::BadManifestTag(t)) => assert_eq!(&t, b"$XX2"),
        other => panic!("unexpected {other:?}"),
    }
    let a = analyze(&buf).unwrap();
    assert_eq!(a.version.map(|v| v.0), None);
    assert_eq!(
        a.warnings,
        vec!["manifest: wrong FTPR manifest tag ([36, 88, 88, 50]); this image may be corrupted".to_string()]
    );
    // Generation 1 expects `$MAN`.
    buf[0x11c..0x120].copy_from_slice(b"$MAN");
    assert!(check_mn2_tag(&me, &buf, 0x100, Some(1)).is_ok());
    assert!(check_mn2_tag(&me, &buf, 0x100, Some(2)).is_err());
}

#[test]
fn cpd_without_manifest() {
    let mut buf = me_image_with_ftpr();
    buf[0x100..0x104].copy_from_slice(b"$CPD");
    let a = analyze(&buf).unwrap();
    assert_eq!(a.generation, Some(3));
    assert_eq!(
        a.warnings,
        vec!["manifest: can't find the manifest of the FTPR partition".to_string()]
    );
}

#[test]
fn signature_reduces_modulo_the_key() {
    let mut buf = me_image_with_ftpr();
    let f = 0x100;
    buf[f + 0x4..f + 0x8].copy_from_slice(&(0x284u32 / 4).to_le_bytes());
    buf[f + 0x18..f + 0x1c].copy_from_slice(&(0x284u32 / 4).to_le_bytes());
    buf[f + 0x1c..f + 0x20].copy_from_slice(b"$MN2");
    // Modulus 2^2000 + 1, exponent 1.
    buf[f + 0x80] = 1;
    buf[f + 0x80 + 250] = 1;
    buf[f + 0x180..f + 0x184].copy_from_slice(&1u32.to_le_bytes());
    // Signature 2^2000 + 1 + 2^256 + digest: only reducing it modulo the
    // key leaves a number whose hex ends with the digest.
    let digest = sha2::Sha256::digest(&buf[f..f + 0x80]);
    let mut sig = [0u8; 0x100];
    let mut carry = 1u16;
    for (i, b) in digest.iter().rev().enumerate() {
        let v = *b as u16 + carry;
        sig[i] = v as u8;
        carry = v >> 8;
    }
    sig[32] = 1 + carry as u8;
    sig[250] = 1;
    buf[f + 0x184..f + 0x284].copy_from_slice(&sig);
    let me = Region::new(0, buf.len());
    assert!(signature_precheck(&me, &buf, 0x100));
    assert!(check_partition_signature(&me, &buf, 0x100).unwrap());
    // One bit off in the signature and it no longer verifies.
    buf[f + 0x184] ^= 1;
    assert!(!check_partition_signature(&me, &buf, 0x100).unwrap());
    // A zero modulus cannot be checked.
    buf[f + 0x80] = 0;
    buf[f + 0x80 + 250] = 0;
    assert!(!signature_precheck(&me, &buf, 0x100));
}

#[test]
fn error_texts() {
    assert_eq!(
        Error::MissingLlut.to_string(),
        "Huffman modules found, but LLUT is not present"
    );
    assert_eq!(
        Error::MissingLlutRelocate.to_string(),
        "Huffman modules present but no LLUT found during relocation"
    );
    assert_eq!(
        Error::FtprNotFound.to_string(),
        "FTPR header not found; this image doesn't seem to be valid"
    );
    assert_eq!(
        Error::RequiresFullDump { op: "-d" }.to_string(),
        "operation -d requires a full dump (descriptor + ME region)"
    );
    assert_eq!(Error::Unsupported("nope").to_string(), "nope");
    assert_eq!(Error::FptNotFound.to_string(), "$FPT not found in ME region");
}
