//! Region reads, writes and moves.

use intel_ma::descriptor::{disable_bit, flreg_to_start_end, is_readable, start_end_to_flreg};
use intel_ma::region::Region;
use intel_ma::Error;

#[test]
fn region_read_after_write_and_bounds() {
    let mut buf = vec![0u8; 0x40];
    let r = Region::new(0x8, 0x20);
    r.write_u32(&mut buf, 0x14, 0x0403_0201).unwrap();
    assert_eq!(&buf[0x1c..0x20], &[1, 2, 3, 4]);
    assert_eq!(r.read_u32(&buf, 0x14).unwrap(), 0x0403_0201);
    assert_eq!(r.read_u16(&buf, 0x15).unwrap(), 0x0302);
    // Bytes around the write are untouched.
    assert!(buf[..0x1c].iter().all(|&b| b == 0) && buf[0x20..].iter().all(|&b| b == 0));
    // One byte too far.
    match r.write_u32(&mut buf, 0x15, 7) {
        Err(Error::OutOfRegion { offset, len }) => assert_eq!((offset, len), (0x15, 4)),
        other => panic!("unexpected {other:?}"),
    }
    assert_eq!(
        r.read(&buf, 0x18, 1).unwrap_err().to_string(),
        "out of region: offset 0x18 (len 0x1) exceeds region bounds"
    );
}

#[test]
fn region_move_down_overlapping() {
    let mut buf: Vec<u8> = (0..0x40u8).collect();
    let r = Region::new(0x10, 0x40);
    // Move 8 bytes from 0x14 to 0x10 (absolute 0x24 -> 0x20): overlapping.
    r.move_range(&mut buf, 0x14, 8, 0x10, 0xff).unwrap();
    assert_eq!(&buf[0x20..0x28], &[0x24, 0x25, 0x26, 0x27, 0x28, 0x29, 0x2a, 0x2b]);
    assert_eq!(&buf[0x28..0x2c], &[0xff; 4]);
    assert_eq!(buf[0x2c], 0x2c);
    assert_eq!(buf[0x1f], 0x1f);
}

#[test]
fn region_move_spanning_blocks() {
    let mut buf = vec![0u8; 0x4000];
    for (i, b) in buf.iter_mut().enumerate().take(0x1800) {
        *b = (i % 251) as u8;
    }
    let r = Region::new(0, 0x4000);
    r.move_range(&mut buf, 0, 0x1800, 0x2000, 0xff).unwrap();
    for i in 0..0x1800 {
        assert_eq!(buf[0x2000 + i], (i % 251) as u8);
        assert_eq!(buf[i], 0xff);
    }
    assert!(r.move_range(&mut buf, 0x3000, 0x1001, 0, 0xff).is_err());
}

#[test]
fn region_fill_and_extract() {
    let mut buf = vec![1u8; 0x20];
    let r = Region::new(0x10, 0x20);
    r.fill_range(&mut buf, 2, 6, 0xee).unwrap();
    assert_eq!(&buf[0x10..0x18], &[1, 1, 0xee, 0xee, 0xee, 0xee, 1, 1]);
    r.fill_range(&mut buf, 6, 2, 0).unwrap(); // empty range: nothing
    assert_eq!(r.extract(&buf, 4).unwrap(), vec![1, 1, 0xee, 0xee]);
    assert!(r.extract(&buf, 0x11).is_err());
    r.fill_all(&mut buf, 0).unwrap();
    assert_eq!(&buf[0x10..], &[0u8; 0x10]);
    assert_eq!(&buf[..0x10], &[1u8; 0x10]);
    assert!(Region::new(5, 5).is_empty());
    assert_eq!(r.all(&buf).len(), 0x10);
}

#[test]
fn flreg_encoding_values() {
    // start block 3, last block 0xff.
    assert_eq!(start_end_to_flreg(0x3000, 0x100000), 0x00ff_0003);
    assert_eq!(flreg_to_start_end(0x00ff_0003), (0x3000, 0x100000));
    // An unused region: start above end.
    assert_eq!(flreg_to_start_end(0x0000_7fff), (0x7fff000, 0x1000));
}

#[test]
fn descriptor_readability_and_straps() {
    let mut buf = vec![0u8; 0x30];
    buf[0x14..0x18].copy_from_slice(&0x0004_0000u32.to_le_bytes()); // FRBA 0x40
    assert!(!is_readable(&buf, false));
    buf.resize(0x50, 0);
    assert!(is_readable(&buf, false));
    assert!(disable_bit(1).is_none());
    let db = disable_bit(2).unwrap();
    assert_eq!((db.strap_off, db.bit, db.name), (0x28, 7, "AltMeDisable bit in PCHSTRP10"));
    let db = disable_bit(5).unwrap();
    assert_eq!((db.strap_off, db.bit, db.name), (0x80, 16, "HAP bit in PCHSTRP32"));
}

#[test]
fn access_mask_region_lists() {
    assert_eq!(intel_ma::locks::region_list(0), "-");
    assert_eq!(intel_ma::locks::region_list(0b1011), "Descriptor,BIOS,GbE");
    assert_eq!(intel_ma::locks::region_list(0x0800), "10GbE");
    // Bits above the twelve named regions are not listed.
    assert_eq!(intel_ma::locks::region_list(0xf004), "ME");
}

#[test]
fn mac_address_text() {
    assert_eq!(intel_ma::gbe::fmt_mac(&[0x88, 0x88, 0x88, 0x88, 0x87, 0x88]), "88:88:88:88:87:88");
    assert_eq!(intel_ma::gbe::fmt_mac(&[0x00, 0x1b, 0x21, 0x0a, 0xff, 0x05]), "00:1b:21:0a:ff:05");
}

#[test]
fn region_move_up_overlapping_across_blocks() {
    let mut buf = vec![0u8; 0x3000];
    for (i, b) in buf.iter_mut().enumerate().take(0x2000) {
        *b = (i % 251) as u8;
    }
    let r = Region::new(0, 0x3000);
    r.move_range(&mut buf, 0, 0x2000, 0x800, 0xff).unwrap();
    for i in 0..0x2000 {
        assert_eq!(buf[0x800 + i], (i % 251) as u8, "byte {i:#x}");
    }
    assert!(buf[..0x800].iter().all(|&b| b == 0xff));
    assert!(buf[0x2800..].iter().all(|&b| b == 0));
}

#[test]
fn descriptor_without_gbe_flreg_in_buffer() {
    // FRBA 0x40 with only FLREG0..2 inside a 0x4c-byte buffer.
    let mut buf = vec![0u8; 0x4c];
    buf[0x14..0x18].copy_from_slice(&0x0004_0000u32.to_le_bytes());
    buf[0x44..0x48].copy_from_slice(&0x0002_0001u32.to_le_bytes());
    assert!(is_readable(&buf, false));
    let d = intel_ma::descriptor::Descriptor::parse(&buf, false);
    assert_eq!(d.frba, 0x40);
    assert_eq!((d.bios.start, d.bios.end), (0x1000, 0x3000));
    assert_eq!((d.gbe.start, d.gbe.end), (0, 0));
    // One byte less and FLREG2 no longer fits.
    assert!(!is_readable(&buf[..0x4b], false));
}

#[test]
fn gbe_region_from_descriptor_or_bare_file() {
    // Bare region: the whole file.
    let bare = vec![0u8; 0x2000];
    assert_eq!(intel_ma::gbe::gbe_region(&bare), Some((0, 0x2000)));
    // Full dump: signature at 0x10, FRBA 0x40, FLREG3 = 0x1000..0x3000.
    let mut buf = vec![0u8; 0x4000];
    buf[0x10..0x14].copy_from_slice(&intel_ma::descriptor::FD_SIGNATURE);
    buf[0x14..0x18].copy_from_slice(&0x0004_0000u32.to_le_bytes());
    buf[0x4c..0x50].copy_from_slice(&0x0002_0001u32.to_le_bytes());
    assert_eq!(intel_ma::gbe::gbe_region(&buf), Some((0x1000, 0x3000)));
    // A GbE region running past the end of the dump: none.
    buf[0x4c..0x50].copy_from_slice(&0x0007_0001u32.to_le_bytes());
    assert_eq!(intel_ma::gbe::gbe_region(&buf), None);
    // An empty GbE region (limit below base): none.
    buf[0x4c..0x50].copy_from_slice(&0x0000_0002u32.to_le_bytes());
    assert_eq!(intel_ma::gbe::gbe_region(&buf), None);
}
