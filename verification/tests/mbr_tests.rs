use press::error::DecodeError;
use press::mbr::{has_mbr, is_mbr_protective, MBRPartition, MBR};

/// A sector with one bootable record in slot 0 and the boot signature set.
fn sample_sector() -> Vec<u8> {
    let mut buf = vec![0u8; 512];
    // disk signature at 424, little-endian
    buf[424..428].copy_from_slice(&[0x78, 0x56, 0x34, 0x12]);
    // record 0 at 446
    buf[446] = 0x80; // boot indicator
    buf[447..450].copy_from_slice(&[0x01, 0x02, 0x03]); // starting CHS
    buf[450] = 0x83; // type
    buf[451..454].copy_from_slice(&[0x04, 0x05, 0x06]); // ending CHS
    buf[454..458].copy_from_slice(&[0x00, 0x08, 0x00, 0x00]); // starting LBA
    buf[458..462].copy_from_slice(&[0x00, 0x00, 0x10, 0x00]); // size
    // boot signature
    buf[510] = 0x55;
    buf[511] = 0xAA;
    buf
}

#[test]
fn mbr_decode_reads_fixed_offsets() {
    let buf = sample_sector();
    let mbr = MBR::new(&buf).unwrap();
    assert_eq!(mbr.disk_signature, 0x12345678);
    assert_eq!(mbr.sig, 0xAA55);
    let rec = &mbr.partition_records[0];
    assert_eq!(rec.boot_indicator, 0x80);
    assert_eq!(rec.starting_chs, 0x030201);
    assert_eq!(rec.os_type, 0x83);
    assert_eq!(rec.ending_chs, 0x060504);
    assert_eq!(rec.starting_lba, 0x0800);
    assert_eq!(rec.size_in_lba, 0x100000);
    for n in 1..4 {
        assert_eq!(mbr.partition_records[n], MBRPartition::new(&[0u8; 16]));
    }
}

#[test]
fn mbr_decode_rejects_short_buffer() {
    let buf = vec![0u8; 511];
    assert_eq!(MBR::new(&buf).unwrap_err(), DecodeError::TruncatedInput);
}

#[test]
fn structural_validity_tracks_signature_bytes() {
    let buf = sample_sector();
    assert!(has_mbr(&buf));
    assert!(MBR::new(&buf).unwrap().is_structurally_valid());

    let mut bad = sample_sector();
    bad[511] = 0x00;
    assert!(!has_mbr(&bad));
    assert!(!MBR::new(&bad).unwrap().is_structurally_valid());

    let mut swapped = sample_sector();
    swapped[510] = 0xAA;
    swapped[511] = 0x55;
    assert!(!MBR::new(&swapped).unwrap().is_structurally_valid());
}

#[test]
fn protective_flag_tracks_first_record_type() {
    let mut buf = sample_sector();
    buf[450] = 0xEE;
    assert!(is_mbr_protective(&buf));
    assert!(MBR::new(&buf).unwrap().is_protective());

    // other records' contents do not matter
    buf[466] = 0x83;
    buf[482] = 0x07;
    assert!(MBR::new(&buf).unwrap().is_protective());

    buf[450] = 0x83;
    assert!(!is_mbr_protective(&buf));
    assert!(!MBR::new(&buf).unwrap().is_protective());
}

#[test]
fn records_re_encode_to_original_bytes() {
    let mut buf = sample_sector();
    // fill the other slots with arbitrary record bytes
    for (k, b) in buf[462..510].iter_mut().enumerate() {
        *b = (k as u8).wrapping_mul(37).wrapping_add(11);
    }
    let mbr = MBR::new(&buf).unwrap();
    let mut encoded: Vec<u8> = Vec::new();
    for n in 0..4 {
        encoded.extend_from_slice(&mbr.partition_records[n].to_le_bytes());
    }
    assert_eq!(encoded.as_slice(), &buf[446..510]);
}

#[test]
fn record_decode_and_re_encode_one_slot() {
    let raw: Vec<u8> = (0u8..16u8).map(|b| b.wrapping_mul(17)).collect();
    let rec = MBRPartition::new(&raw);
    assert_eq!(rec.to_le_bytes(), raw);
}
