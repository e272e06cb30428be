use lanscan::hw::HardwareAddress;

#[test]
fn parses_canonical_upper_case_text() {
    let a = HardwareAddress::from_text("AA:BB:CC:11:22:33").unwrap();
    assert_eq!(a.octets, [0xAA, 0xBB, 0xCC, 0x11, 0x22, 0x33]);
}

#[test]
fn parses_lower_case_text_to_same_address() {
    let upper = HardwareAddress::from_text("AA:BB:CC:11:22:33").unwrap();
    let lower = HardwareAddress::from_text("aa:bb:cc:11:22:33").unwrap();
    assert_eq!(upper.octets, lower.octets);
}

#[test]
fn parses_hyphen_separated_text() {
    let a = HardwareAddress::from_text("aa-bb-cc-dd-ee-ff").unwrap();
    assert_eq!(a.octets, [0xAA, 0xBB, 0xCC, 0xDD, 0xEE, 0xFF]);
}

#[test]
fn rejects_short_text() {
    assert!(HardwareAddress::from_text("AA:BB:CC").is_none());
}

#[test]
fn rejects_non_hex_text() {
    assert!(HardwareAddress::from_text("GG:BB:CC:11:22:33").is_none());
}

#[test]
fn rejects_bad_separator() {
    assert!(HardwareAddress::from_text("AA.BB.CC.11.22.33").is_none());
}

#[test]
fn rejects_empty_text() {
    assert!(HardwareAddress::from_text("").is_none());
}

#[test]
fn renders_canonical_text() {
    let a = HardwareAddress::new([0xAA, 0xBB, 0xCC, 0xDD, 0xEE, 0xFF]);
    assert_eq!(a.to_text(), "AA:BB:CC:DD:EE:FF");
}

#[test]
fn renders_prefix_text() {
    let a = HardwareAddress::new([0x0A, 0x1B, 0x2C, 0x3D, 0x4E, 0x5F]);
    assert_eq!(a.prefix_text(), "0A:1B:2C");
}

#[test]
fn text_round_trip() {
    let a = HardwareAddress::new([0x00, 0x11, 0x22, 0x33, 0x44, 0x55]);
    let again = HardwareAddress::from_text(&a.to_text()).unwrap();
    assert_eq!(a.octets, again.octets);
}

#[test]
fn keys_distinguish_addresses() {
    let a = HardwareAddress::new([0, 0, 0, 0, 1, 0]);
    let b = HardwareAddress::new([0, 0, 0, 0, 0, 1]);
    assert_ne!(a.addr_key(), b.addr_key());
    assert_eq!(a.oui_key(), b.oui_key());
}
