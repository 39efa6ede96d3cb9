use press::size::{get_multiplier, parse_bytes, Size};
use std::str::FromStr;

#[test]
fn test_get_multiplier() {
    let val = get_multiplier("XXX");
    assert!(val.is_err());

    let s = Size::from_str("100 GiB").unwrap();
    assert!(s.bytes() == 100 * 2u64.pow(30));

    let s = "1024 MiB".parse::<Size>().unwrap();

    assert!(s.bytes() == 2u64.pow(30));

    let s = "1024MiB".parse::<Size>().unwrap();
    assert!(s.bytes() == 2u64.pow(30));
}

#[test]
fn test_as_symbol() {
    let s1: Size = "1 MiB".parse().unwrap();
    assert_eq!(s1.as_symbol("KiB").unwrap(), "1024 KiB");
    assert_eq!("1 MiB".parse::<Size>().unwrap().as_sectors(512), 2048);
}

#[test]
fn plain_number_has_no_suffix() {
    assert_eq!(parse_bytes("100").unwrap(), 100);
    assert_eq!(parse_bytes("30").unwrap(), 30);
    assert_eq!(parse_bytes("0").unwrap(), 0);
}

#[test]
fn decimal_and_binary_suffixes() {
    assert_eq!(parse_bytes("2 KiB").unwrap(), 2048);
    assert_eq!(parse_bytes("2 kb").unwrap(), 2000);
    assert_eq!(parse_bytes("3K").unwrap(), 3000);
    assert_eq!(parse_bytes("1 GiB").unwrap(), 1 << 30);
    assert_eq!(parse_bytes("1 TiB").unwrap(), 1u64 << 40);
    assert_eq!(parse_bytes("1 PiB").unwrap(), 1u64 << 50);
    assert_eq!(parse_bytes("5 b").unwrap(), 5);
}

#[test]
fn malformed_sizes_are_rejected() {
    assert!(parse_bytes("").is_err());
    assert!(parse_bytes("MiB").is_err());
    assert!(parse_bytes("12x34").is_err());
    assert!(parse_bytes("10 KiB extra").is_err());
    assert!(parse_bytes("99999999999999999999999").is_err());
    assert!(parse_bytes("100000000000 PiB").is_err());
}

#[test]
fn size_accessors() {
    let s = Size::new(4096);
    assert_eq!(s.bytes(), 4096);
    assert_eq!(s.as_sectors(512), 8);
    assert_eq!(s.as_symbol("k").unwrap(), "4 k");
    assert!(s.as_symbol("zz").is_err());
}

#[test]
fn multiplier_table() {
    assert_eq!(get_multiplier("b").unwrap(), 1);
    assert_eq!(get_multiplier("K").unwrap(), 1000);
    assert_eq!(get_multiplier("kb").unwrap(), 1000);
    assert_eq!(get_multiplier("KiB").unwrap(), 1 << 10);
    assert_eq!(get_multiplier("m").unwrap(), 1_000_000);
    assert_eq!(get_multiplier("MB").unwrap(), 1_000_000);
    assert_eq!(get_multiplier("MiB").unwrap(), 1 << 20);
    assert_eq!(get_multiplier("g").unwrap(), 1_000_000_000);
    assert_eq!(get_multiplier("GiB").unwrap(), 1 << 30);
    assert_eq!(get_multiplier("t").unwrap(), 1_000_000_000_000);
    assert_eq!(get_multiplier("TiB").unwrap(), 1u64 << 40);
    assert_eq!(get_multiplier("p").unwrap(), 1_000_000_000_000_000);
    assert_eq!(get_multiplier("PiB").unwrap(), 1u64 << 50);
    assert!(get_multiplier("").is_err());
    assert!(get_multiplier("ib").is_err());
}
