use press::error::DecodeError;
use press::geometry::BlockDeviceGeometry;
use press::gpt::{
    get_disk_guid, is_gpt, uuid_from_le_bytes, GPTHeader, GPTPartitionEntry,
    GPTPartitionEntryArray, GPT_SIGNATURE,
};

/// A 92-byte header window with recognisable field values.
fn sample_header_bytes() -> Vec<u8> {
    let mut h = vec![0u8; 92];
    h[0..8].copy_from_slice(b"EFI PART");
    h[8..12].copy_from_slice(&0x00010000u32.to_le_bytes()); // revision
    h[12..16].copy_from_slice(&92u32.to_le_bytes()); // header size
    h[16..20].copy_from_slice(&0xDEADBEEFu32.to_le_bytes()); // header crc
    h[24..32].copy_from_slice(&1u64.to_le_bytes()); // current LBA
    h[32..40].copy_from_slice(&999u64.to_le_bytes()); // backup LBA
    h[40..48].copy_from_slice(&34u64.to_le_bytes()); // first usable
    h[48..56].copy_from_slice(&966u64.to_le_bytes()); // last usable
    h[56..72].copy_from_slice(&[
        0x33, 0x22, 0x11, 0x00, 0x55, 0x44, 0x77, 0x66, 0x88, 0x99, 0xAA, 0xBB, 0xCC, 0xDD,
        0xEE, 0xFF,
    ]); // disk GUID
    h[72..80].copy_from_slice(&2u64.to_le_bytes()); // entry LBA
    h[80..84].copy_from_slice(&128u32.to_le_bytes()); // entry count
    h[84..88].copy_from_slice(&128u32.to_le_bytes()); // entry size
    h[88..92].copy_from_slice(&0x0BADCAFEu32.to_le_bytes()); // array crc
    h
}

/// One 128-byte entry with the given type byte and a UTF-16LE name.
fn sample_entry_bytes(type_byte: u8, unique_byte: u8, name: &str) -> Vec<u8> {
    let mut e = vec![0u8; 128];
    e[0] = type_byte;
    e[16] = unique_byte;
    e[32..40].copy_from_slice(&2048u64.to_le_bytes());
    e[40..48].copy_from_slice(&4095u64.to_le_bytes());
    e[48..56].copy_from_slice(&4u64.to_le_bytes());
    for (k, unit) in name.encode_utf16().enumerate() {
        let off = 56 + 2 * k;
        e[off..off + 2].copy_from_slice(&unit.to_le_bytes());
    }
    e
}

#[test]
fn header_decode_reads_every_field() {
    let bytes = sample_header_bytes();
    let h = GPTHeader::from_slice(&bytes).unwrap();
    assert_eq!(h.signature, GPT_SIGNATURE);
    assert_eq!(&h.signature.to_le_bytes(), b"EFI PART");
    assert_eq!(h.revision, 0x00010000);
    assert_eq!(h.header_size, 92);
    assert_eq!(h.header_crc32, 0xDEADBEEF);
    assert_eq!(h.reserved, 0);
    assert_eq!(h.current_lba, 1);
    assert_eq!(h.backup_lba, 999);
    assert_eq!(h.first_usable_lba, 34);
    assert_eq!(h.last_usable_lba, 966);
    assert_eq!(h.guid.format(), "00112233-4455-6677-8899-aabbccddeeff");
    assert_eq!(h.partition_entry_lba, 2);
    assert_eq!(h.number_of_partitions, 128);
    assert_eq!(h.size_of_partition, 128);
    assert_eq!(h.partition_entry_crc32, 0x0BADCAFE);
}

#[test]
fn header_decode_rejects_truncated_input() {
    let bytes = vec![0u8; 50];
    assert_eq!(
        GPTHeader::from_slice(&bytes).unwrap_err(),
        DecodeError::TruncatedInput
    );
}

#[test]
fn header_decode_rejects_undersized_header_field() {
    let mut bytes = sample_header_bytes();
    bytes[12..16].copy_from_slice(&91u32.to_le_bytes());
    assert_eq!(
        GPTHeader::from_slice(&bytes).unwrap_err(),
        DecodeError::TruncatedInput
    );
}

#[test]
fn signature_probe_and_disk_guid_at_lba_one() {
    let mut disk = vec![0u8; 1024];
    disk[512..604].copy_from_slice(&sample_header_bytes());
    assert!(is_gpt(&disk, 512));
    assert_eq!(
        get_disk_guid(&disk, 512).format(),
        "00112233-4455-6677-8899-aabbccddeeff"
    );

    disk[512] = b'X';
    assert!(!is_gpt(&disk, 512));
}

#[test]
fn entry_name_stops_at_first_null_unit() {
    let bytes = sample_entry_bytes(1, 2, "ESP");
    let e = GPTPartitionEntry::from_slice(&bytes).unwrap();
    assert_eq!(e.partition_name, "ESP");
    assert_eq!(e.starting_lba, 2048);
    assert_eq!(e.ending_lba, 4095);
    assert_eq!(e.attributes, 4);
    assert!(!e.partition_type_guid.is_nil());
    assert!(!e.unique_partition_guid.is_nil());
}

#[test]
fn entry_name_without_null_takes_all_36_units() {
    let name: String = "A".repeat(40); // more than the field holds
    let bytes = sample_entry_bytes(1, 2, &name[..36]);
    let mut full = bytes.clone();
    // overwrite the whole 72-byte field with 'B' units, no terminator
    for k in 0..36 {
        let off = 56 + 2 * k;
        full[off..off + 2].copy_from_slice(&(b'B' as u16).to_le_bytes());
    }
    let e = GPTPartitionEntry::from_slice(&full).unwrap();
    assert_eq!(e.partition_name, "B".repeat(36));
}

#[test]
fn entry_name_decodes_surrogate_pairs() {
    let mut bytes = vec![0u8; 128];
    bytes[0] = 1;
    // one code point outside the basic plane, then a terminator
    for (k, unit) in "\u{1F600}".encode_utf16().enumerate() {
        let off = 56 + 2 * k;
        bytes[off..off + 2].copy_from_slice(&unit.to_le_bytes());
    }
    let e = GPTPartitionEntry::from_slice(&bytes).unwrap();
    assert_eq!(e.partition_name, "\u{1F600}");

    // a lone high surrogate becomes the replacement character
    let mut lone = vec![0u8; 128];
    lone[56..58].copy_from_slice(&0xD83Du16.to_le_bytes());
    let e = GPTPartitionEntry::from_slice(&lone).unwrap();
    assert_eq!(e.partition_name, "\u{FFFD}");
}

#[test]
fn entry_decode_rejects_short_window() {
    let bytes = vec![0u8; 127];
    assert_eq!(
        GPTPartitionEntry::from_slice(&bytes).unwrap_err(),
        DecodeError::TruncatedInput
    );
}

#[test]
fn active_filtering_keeps_slot_order() {
    let mut table = Vec::new();
    for slot in 0..128u8 {
        let type_byte = if slot == 0 || slot == 2 { slot + 1 } else { 0 };
        table.extend_from_slice(&sample_entry_bytes(type_byte, slot, ""));
    }
    let header = GPTHeader::from_slice(&sample_header_bytes()).unwrap();
    let array = GPTPartitionEntryArray::from_slice(&table, &header).unwrap();
    assert_eq!(array.partitions.len(), 128); // usable slots, vacant included
    let (active, entries) = array.active_partitions();
    assert_eq!(active, 2);
    assert_eq!(entries.len(), 2);
    assert_eq!(entries[0].unique_partition_guid.d1, 0);
    assert_eq!(entries[0].partition_type_guid.d1, 1);
    assert_eq!(entries[1].unique_partition_guid.d1, 2);
    assert_eq!(entries[1].partition_type_guid.d1, 3);
    // the raw sequence still holds every slot in disk order
    assert!(array.partitions[1].partition_type_guid.is_nil());
    assert_eq!(array.partitions[2].unique_partition_guid.d1, 2);
}

#[test]
fn array_decode_rejects_short_table() {
    let header = GPTHeader::from_slice(&sample_header_bytes()).unwrap();
    let table = vec![0u8; 127 * 128];
    assert_eq!(
        GPTPartitionEntryArray::from_slice(&table, &header).unwrap_err(),
        DecodeError::TruncatedInput
    );
}

#[test]
fn array_decode_from_whole_disk_buffer() {
    let mut header_bytes = sample_header_bytes();
    header_bytes[80..84].copy_from_slice(&2u32.to_le_bytes()); // two entries
    let header = GPTHeader::from_slice(&header_bytes).unwrap();
    let mut disk = vec![0u8; 512 * 2 + 2 * 128];
    disk[1024..1152].copy_from_slice(&sample_entry_bytes(7, 8, "root"));
    disk[1152..1280].copy_from_slice(&sample_entry_bytes(0, 9, ""));
    let array = GPTPartitionEntryArray::from_buffer(&disk, &header, 512).unwrap();
    assert_eq!(array.partitions.len(), 2);
    assert_eq!(array.partitions[0].partition_name, "root");
    let (active, _) = array.active_partitions();
    assert_eq!(active, 1);

    let short = vec![0u8; 1100];
    assert_eq!(
        GPTPartitionEntryArray::from_buffer(&short, &header, 512).unwrap_err(),
        DecodeError::TruncatedInput
    );
}

#[test]
fn synthesized_header_follows_geometry() {
    let geometry = BlockDeviceGeometry::new(512, 1000);
    let h = GPTHeader::new(&geometry);
    assert_eq!(h.signature, GPT_SIGNATURE);
    assert_eq!(h.revision, 0x00010000);
    assert_eq!(h.header_size, 92);
    assert_eq!(h.header_crc32, 0);
    assert_eq!(h.current_lba, 1);
    assert_eq!(h.backup_lba, 999);
    assert_eq!(h.first_usable_lba, 32); // ceil(128 * 128 / 512)
    assert_eq!(h.last_usable_lba, 998);
    assert_eq!(h.partition_entry_lba, 2);
    assert_eq!(h.number_of_partitions, 128);
    assert_eq!(h.size_of_partition, 128);
    assert_eq!(h.partition_entry_crc32, 0);
    // the freshly drawn GUID carries the version-4 and variant markers
    assert_eq!(h.guid.d3 >> 12, 4);
    assert_eq!(h.guid.d4[0] >> 6, 2);

    // a block size that does not divide the array size rounds up
    let odd = BlockDeviceGeometry::new(5000, 100);
    assert_eq!(GPTHeader::new(&odd).first_usable_lba, 4);
}

#[test]
fn uuid_from_le_bytes_matches_guid_decoder() {
    let wire = [
        0x33, 0x22, 0x11, 0x00, 0x55, 0x44, 0x77, 0x66, 0x88, 0x99, 0xAA, 0xBB, 0xCC, 0xDD,
        0xEE, 0xFF,
    ];
    let g = uuid_from_le_bytes(&wire);
    assert_eq!(g.d1, 0x00112233);
    assert_eq!(g.format(), "00112233-4455-6677-8899-aabbccddeeff");
}

#[test]
fn protective_mbr_and_gpt_header_end_to_end() {
    let mut disk = vec![0u8; 2048];
    disk[450] = 0xEE; // first record's type byte: protective
    disk[510] = 0x55;
    disk[511] = 0xAA;
    disk[512..604].copy_from_slice(&sample_header_bytes());

    let mbr = press::mbr::MBR::new(&disk).unwrap();
    assert!(mbr.is_structurally_valid());
    assert!(mbr.is_protective());
    assert!(is_gpt(&disk, 512));
    let header = GPTHeader::from_slice(&disk[512..]).unwrap();
    assert_eq!(&header.signature.to_le_bytes(), b"EFI PART");
}
