use press::guid::{convert_mixed_endian, format_guid, Guid};

const WIRE: [u8; 16] = [
    0x33, 0x22, 0x11, 0x00, 0x55, 0x44, 0x77, 0x66, 0x88, 0x99, 0xAA, 0xBB, 0xCC, 0xDD, 0xEE,
    0xFF,
];

#[test]
fn guid_decode_reads_mixed_endian_fields() {
    let g = Guid::from_le_bytes(&WIRE);
    assert_eq!(g.d1, 0x00112233);
    assert_eq!(g.d2, 0x4455);
    assert_eq!(g.d3, 0x6677);
    assert_eq!(g.d4, [0x88, 0x99, 0xAA, 0xBB, 0xCC, 0xDD, 0xEE, 0xFF]);
}

#[test]
fn guid_round_trip_reproduces_wire_bytes() {
    let g = Guid::from_le_bytes(&WIRE);
    assert_eq!(g.to_le_bytes(), WIRE.to_vec());

    let other: Vec<u8> = (0u8..16u8).collect();
    let h = Guid::from_le_bytes(&other);
    assert_eq!(h.to_le_bytes(), other);
}

#[test]
fn guid_formats_canonically() {
    let g = Guid::from_le_bytes(&WIRE);
    assert_eq!(g.format(), "00112233-4455-6677-8899-aabbccddeeff");
}

#[test]
fn mixed_endian_conversion_then_formatting_agrees() {
    let mut bytes = WIRE.to_vec();
    convert_mixed_endian(&mut bytes);
    assert_eq!(
        bytes,
        vec![
            0x00, 0x11, 0x22, 0x33, 0x44, 0x55, 0x66, 0x77, 0x88, 0x99, 0xAA, 0xBB, 0xCC, 0xDD,
            0xEE, 0xFF
        ]
    );
    assert_eq!(format_guid(&bytes), "00112233-4455-6677-8899-aabbccddeeff");
}

#[test]
fn nil_guid_detection() {
    let zero = [0u8; 16];
    let g = Guid::from_le_bytes(&zero);
    assert!(g.is_nil());

    let mut one = [0u8; 16];
    one[15] = 1;
    let g = Guid::from_le_bytes(&one);
    assert!(!g.is_nil());

    let mut first = [0u8; 16];
    first[0] = 1;
    let g = Guid::from_le_bytes(&first);
    assert!(!g.is_nil());
}
