//! Walking firmware volumes, and option ROMs.

use intel_ma::bios::{detect_vendor, parse, parse_with, scan_option_roms, Compression};

/// One firmware volume at 0 (0x200 bytes, header 0x48) holding one driver
/// file with a PE32 section, a UI name section ("Shell") and an LZMA
/// GUID-defined section.
fn volume_image() -> Vec<u8> {
    let mut buf = vec![0u8; 0x400];
    buf[0x20..0x28].copy_from_slice(&0x200u64.to_le_bytes());
    buf[0x28..0x2c].copy_from_slice(b"_FVH");
    buf[0x30..0x32].copy_from_slice(&0x48u16.to_le_bytes());
    // File header at 0x48: type 0x07 (driver), size 0x4c.
    let f = 0x48;
    buf[f + 0x12] = 0x07;
    buf[f + 0x14..f + 0x17].copy_from_slice(&[0x4c, 0, 0]);
    // PE32 section: 8 bytes.
    let s = f + 0x18;
    buf[s..s + 3].copy_from_slice(&[8, 0, 0]);
    buf[s + 3] = 0x10;
    // UI section: "Shell" in UTF-16LE with a NUL, 16 bytes.
    let u = s + 8;
    buf[u..u + 3].copy_from_slice(&[16, 0, 0]);
    buf[u + 3] = 0x15;
    for (i, c) in "Shell".encode_utf16().enumerate() {
        buf[u + 4 + 2 * i..u + 6 + 2 * i].copy_from_slice(&c.to_le_bytes());
    }
    // LZMA GUID-defined section: 0x1c bytes, data at +0x18.
    let g = u + 16;
    buf[g..g + 3].copy_from_slice(&[0x1c, 0, 0]);
    buf[g + 3] = 0x02;
    buf[g + 4..g + 0x14].copy_from_slice(&[
        0x98, 0x58, 0x4e, 0xee, 0x14, 0x39, 0x59, 0x42, 0x9d, 0x6e, 0xdc, 0x7b, 0xd7, 0x94, 0x03, 0xcf,
    ]);
    buf[g + 0x14..g + 0x16].copy_from_slice(&0x18u16.to_le_bytes());
    buf
}

#[test]
fn bios_walks_volume_file_and_sections() {
    let img = parse(&volume_image());
    assert_eq!(img.volumes.len(), 1);
    assert_eq!(img.volumes[0].offset, 0);
    assert_eq!(img.volumes[0].length, 0x200);
    assert_eq!(img.volumes[0].files, 1);
    assert_eq!(img.files, 1);
    assert_eq!(img.modules, 1);
    assert_eq!(img.names, vec!["Shell".to_string()]);
    assert_eq!(img.lzma_sections, 1);
    assert_eq!(img.decompressed_sections, 0);
    assert_eq!(img.decompressed_bytes, 0);
    assert_eq!(img.vendor, None);
    // Files are counted once, by the volume that holds them.
    assert_eq!(img.files, img.volumes.iter().map(|v| v.files).sum::<usize>());
}

#[test]
fn bios_vendor_marker_and_padding_file() {
    let mut buf = volume_image();
    buf[0x48 + 0x12] = 0xf0; // padding file: not counted, not walked
    buf[0x300..0x306].copy_from_slice(b"AMITSE");
    let img = parse(&buf);
    assert_eq!(img.volumes[0].files, 0);
    assert_eq!(img.files, 0);
    assert_eq!(img.modules, 0);
    assert!(img.names.is_empty());
    assert_eq!(img.vendor, Some("AMI Aptio"));
}

#[test]
fn bios_volume_past_end_is_ignored() {
    let mut buf = volume_image();
    buf[0x20..0x28].copy_from_slice(&0x800u64.to_le_bytes());
    let img = parse(&buf);
    assert!(img.volumes.is_empty());
    assert_eq!(img.files, 0);
}

#[test]
fn bios_vendor_order() {
    assert_eq!(detect_vendor(b"..LARCHIVE..Dasharo.."), Some("Dasharo (coreboot)"));
    assert_eq!(detect_vendor(b"PhoenixTrust"), Some("Phoenix"));
    assert_eq!(detect_vendor(b"nothing here"), None);
}

#[test]
fn option_rom_network_controller() {
    let mut buf = vec![0u8; 0x900];
    let o = 0x100;
    buf[o] = 0x55;
    buf[o + 1] = 0xaa;
    buf[o + 2] = 4; // 2048 bytes
    buf[o + 0x18..o + 0x1a].copy_from_slice(&0x1cu16.to_le_bytes());
    buf[o + 0x1c..o + 0x20].copy_from_slice(b"PCIR");
    buf[o + 0x20..o + 0x22].copy_from_slice(&0x8086u16.to_le_bytes());
    buf[o + 0x22..o + 0x24].copy_from_slice(&0x1533u16.to_le_bytes());
    buf[o + 0x29..o + 0x2c].copy_from_slice(&[0x00, 0x00, 0x02]); // network controller
    let roms = scan_option_roms(&buf);
    assert_eq!(roms.len(), 1);
    let r = &roms[0];
    assert_eq!((r.offset, r.size, r.class_code), (0x100, 0x800, 0x02_0000));
    assert!(!r.is_display());
    assert_eq!(r.vendor_name(), "Intel");
    assert_eq!(r.file_stem(), "oprom_intel_8086_1533");
    // A ROM that would run past the end is not one.
    buf[o + 2] = 5;
    assert!(scan_option_roms(&buf).is_empty());
}

#[test]
fn bios_walks_decompressed_payload() {
    // The LZMA payload "decompresses" to a UI section ("Setup") followed by
    // an Insyde signature.
    let mut inner = vec![0u8; 16];
    inner[0..3].copy_from_slice(&[16, 0, 0]);
    inner[3] = 0x15;
    for (i, c) in "Setup".encode_utf16().enumerate() {
        inner[4 + 2 * i..6 + 2 * i].copy_from_slice(&c.to_le_bytes());
    }
    inner.extend_from_slice(b"InsydeH2O");
    let expand = |_payload: &[u8], m: Compression| -> Option<Vec<u8>> {
        if matches!(m, Compression::Lzma) {
            Some(inner.clone())
        } else {
            None
        }
    };
    let img = parse_with(&volume_image(), &expand);
    assert_eq!(img.names, vec!["Shell".to_string(), "Setup".to_string()]);
    assert_eq!(img.lzma_sections, 0);
    assert_eq!(img.decompressed_sections, 1);
    assert_eq!(img.decompressed_bytes, 25);
    assert_eq!(img.vendor, Some("Insyde H2O"));
    assert_eq!(img.modules, 1);
    assert_eq!(img.files, 1);
}
