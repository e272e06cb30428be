use lanscan::frame::{parse_frame, ParseError};
use lanscan::hw::HardwareAddress;
use lanscan::registry::DeviceRegistry;
use lanscan::vendor::VendorDirectory;

fn frame_bytes(dst: [u8; 6], src: [u8; 6], payload_len: usize) -> Vec<u8> {
    let mut bytes = Vec::new();
    bytes.extend_from_slice(&dst);
    bytes.extend_from_slice(&src);
    bytes.push(0x08);
    bytes.push(0x00);
    bytes.extend(std::iter::repeat(0u8).take(payload_len));
    bytes
}

#[test]
fn short_input_is_parse_error() {
    for len in 0..14usize {
        let bytes = vec![0u8; len];
        let err = parse_frame(&bytes).unwrap_err();
        assert_eq!(err, ParseError::TooShort { len });
    }
}

#[test]
fn minimal_header_extracts_both_addresses() {
    let dst = [1, 2, 3, 4, 5, 6];
    let src = [7, 8, 9, 10, 11, 12];
    let bytes = frame_bytes(dst, src, 0);
    assert_eq!(bytes.len(), 14);
    let f = parse_frame(&bytes).unwrap();
    assert_eq!(f.destination.octets, dst);
    assert_eq!(f.source.octets, src);
}

#[test]
fn payload_length_does_not_change_extraction() {
    let dst = [0xAA, 0xBB, 0xCC, 1, 2, 3];
    let src = [0xDD, 0xEE, 0xFF, 4, 5, 6];
    let short = parse_frame(&frame_bytes(dst, src, 0)).unwrap();
    let long = parse_frame(&frame_bytes(dst, src, 1000)).unwrap();
    assert_eq!(short.destination.octets, long.destination.octets);
    assert_eq!(short.source.octets, long.source.octets);
    assert_eq!(long.destination.octets, dst);
    assert_eq!(long.source.octets, src);
}

fn empty_directory() -> VendorDirectory {
    VendorDirectory::from_records(&Vec::new()).unwrap()
}

#[test]
fn observe_reports_only_first_sighting() {
    let dir = empty_directory();
    let mut reg = DeviceRegistry::new();
    let addr = HardwareAddress::new([1, 2, 3, 4, 5, 6]);
    let first = reg.observe(&addr, &dir);
    assert!(first.is_some());
    assert_eq!(first.unwrap().address.octets, addr.octets);
    let second = reg.observe(&addr, &dir);
    assert!(second.is_none());
    assert_eq!(reg.len(), 1);
}

#[test]
fn registry_grows_once_per_distinct_address() {
    let dir = empty_directory();
    let mut reg = DeviceRegistry::new();
    let s1 = HardwareAddress::new([1, 1, 1, 1, 1, 1]);
    let s2 = HardwareAddress::new([2, 2, 2, 2, 2, 2]);
    assert!(reg.observe(&s1, &dir).is_some());
    assert!(reg.observe(&s2, &dir).is_some());
    assert!(reg.observe(&s1, &dir).is_none());
    assert!(reg.observe(&s2, &dir).is_none());
    assert_eq!(reg.len(), 2);
    let snap = reg.snapshot();
    assert_eq!(snap[0].address.octets, s1.octets);
    assert_eq!(snap[1].address.octets, s2.octets);
}

#[test]
fn sighting_carries_resolved_vendor() {
    let records = vec![vec!["01:02:03".to_string(), "Acme Corp".to_string()]];
    let dir = VendorDirectory::from_records(&records).unwrap();
    let mut reg = DeviceRegistry::new();
    let addr = HardwareAddress::new([1, 2, 3, 9, 9, 9]);
    let s = reg.observe(&addr, &dir).unwrap();
    assert_eq!(s.vendor_label, "Acme Corp");
    let unknown = HardwareAddress::new([9, 9, 9, 9, 9, 9]);
    let u = reg.observe(&unknown, &dir).unwrap();
    assert_eq!(u.vendor_label, "Unknown device id: 09:09:09");
}
