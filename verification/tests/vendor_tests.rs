use lanscan::hw::HardwareAddress;
use lanscan::vendor::{VendorDirectory, VendorLoadError};

fn acme_records() -> Vec<Vec<String>> {
    vec![vec!["AA:BB:CC".to_string(), "Acme Corp".to_string()]]
}

#[test]
fn resolves_known_prefix() {
    let dir = VendorDirectory::from_records(&acme_records()).unwrap();
    let addr = HardwareAddress::from_text("AA:BB:CC:11:22:33").unwrap();
    assert_eq!(dir.resolve(&addr), "Acme Corp");
}

#[test]
fn unknown_prefix_yields_label_with_prefix() {
    let dir = VendorDirectory::from_records(&acme_records()).unwrap();
    let addr = HardwareAddress::from_text("DD:EE:FF:11:22:33").unwrap();
    let label = dir.resolve(&addr);
    assert_eq!(label, "Unknown device id: DD:EE:FF");
    assert!(label.contains("DD:EE:FF"));
}

#[test]
fn resolution_is_case_insensitive() {
    let lower = vec![vec!["aa:bb:cc".to_string(), "Acme Corp".to_string()]];
    let dir = VendorDirectory::from_records(&lower).unwrap();
    let upper = HardwareAddress::from_text("AA:BB:CC:11:22:33").unwrap();
    let mixed = HardwareAddress::from_text("Aa:bB:Cc:11:22:33").unwrap();
    assert_eq!(dir.resolve(&upper), "Acme Corp");
    assert_eq!(dir.resolve(&mixed), "Acme Corp");
}

#[test]
fn first_record_wins_on_duplicate_prefix() {
    let records = vec![
        vec!["AA:BB:CC".to_string(), "First".to_string()],
        vec!["aa:bb:cc".to_string(), "Second".to_string()],
    ];
    let dir = VendorDirectory::from_records(&records).unwrap();
    let addr = HardwareAddress::from_text("AA:BB:CC:00:00:00").unwrap();
    assert_eq!(dir.resolve(&addr), "First");
    assert_eq!(dir.len(), 1);
}

#[test]
fn short_record_is_fatal() {
    let records = vec![
        vec!["AA:BB:CC".to_string(), "Acme Corp".to_string()],
        vec!["DD:EE:FF".to_string()],
    ];
    let err = VendorDirectory::from_records(&records).unwrap_err();
    assert_eq!(err, VendorLoadError::BadRecord { row: 1 });
}

#[test]
fn malformed_prefix_is_fatal() {
    let records = vec![vec!["ZZ:BB:CC".to_string(), "Acme Corp".to_string()]];
    let err = VendorDirectory::from_records(&records).unwrap_err();
    assert_eq!(err, VendorLoadError::BadRecord { row: 0 });
}

#[test]
fn loads_from_tabular_bytes() {
    let data = b"prefix,vendor\nAA:BB:CC,Acme Corp\ndd:ee:ff,\"Widgets, Inc\"\n";
    let dir = VendorDirectory::load(data).unwrap();
    assert_eq!(dir.len(), 2);
    let a = HardwareAddress::from_text("AA:BB:CC:01:02:03").unwrap();
    assert_eq!(dir.resolve(&a), "Acme Corp");
    let b = HardwareAddress::from_text("DD:EE:FF:01:02:03").unwrap();
    assert_eq!(dir.resolve(&b), "Widgets, Inc");
}

#[test]
fn bad_table_syntax_is_fatal() {
    let data = b"prefix,vendor\nAA:BB:CC\n";
    let err = VendorDirectory::load(data).unwrap_err();
    assert_eq!(err, VendorLoadError::Syntax);
}

#[test]
fn bad_record_in_table_is_fatal() {
    let data = b"prefix,vendor\nAA:BB:CC,Acme Corp\nnot-hex,Ghost\n";
    let err = VendorDirectory::load(data).unwrap_err();
    assert_eq!(err, VendorLoadError::BadRecord { row: 1 });
}
