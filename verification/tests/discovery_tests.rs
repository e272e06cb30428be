use lanscan::discovery::{
    on_open_outcome, step, CaptureEvent, CaptureOpenError, LoopState, OpenErrorReason,
};
use lanscan::iface::{
    is_wireless_name, sanitize_snapshot, select_capture_target, truncate_interfaces,
    wireless_interfaces, InterfaceInfo,
};
use lanscan::registry::DeviceRegistry;
use lanscan::vendor::VendorDirectory;

fn iface(name: &str) -> InterfaceInfo {
    InterfaceInfo {
        name: name.to_string(),
        ipv4_addresses: Vec::new(),
        ipv6_addresses: Vec::new(),
        is_up: true,
        is_loopback: false,
        is_multicast: false,
        is_broadcast: false,
        is_point_to_point: false,
        is_running: true,
        is_wireless: false,
    }
}

fn empty_directory() -> VendorDirectory {
    VendorDirectory::from_records(&Vec::new()).unwrap()
}

fn frame_with(dst: [u8; 6], src: [u8; 6]) -> Vec<u8> {
    let mut bytes = Vec::new();
    bytes.extend_from_slice(&dst);
    bytes.extend_from_slice(&src);
    bytes.push(0x08);
    bytes.push(0x00);
    bytes
}

#[test]
fn wireless_policy_matches_token_exactly() {
    assert!(is_wireless_name("en0"));
    assert!(!is_wireless_name("eth0"));
    assert!(!is_wireless_name("en01"));
    assert!(!is_wireless_name(""));
}

#[test]
fn classify_sets_wireless_flag_only() {
    let c = iface("en0").classify();
    assert!(c.is_wireless);
    assert_eq!(c.name, "en0");
    assert!(c.is_up);
    let d = iface("lo").classify();
    assert!(!d.is_wireless);
}

#[test]
fn wireless_filter_keeps_only_policy_matches() {
    let list = vec![
        iface("eth0").classify(),
        iface("en0").classify(),
        iface("lo").classify(),
    ];
    let w = wireless_interfaces(list);
    assert_eq!(w.len(), 1);
    assert_eq!(w[0].name, "en0");
}

#[test]
fn select_target_takes_first_wireless() {
    let list = vec![
        iface("eth0").classify(),
        iface("en0").classify(),
        iface("en0").classify(),
    ];
    assert_eq!(select_capture_target(&list).unwrap(), 1);
}

#[test]
fn select_target_fails_without_wireless() {
    let list = vec![iface("eth0").classify(), iface("lo").classify()];
    assert!(select_capture_target(&list).is_err());
}

#[test]
fn truncation_keeps_enumeration_order() {
    let mut list = vec![iface("a"), iface("b"), iface("c")];
    truncate_interfaces(&mut list, 2);
    assert_eq!(list.len(), 2);
    assert_eq!(list[0].name, "a");
    assert_eq!(list[1].name, "b");
    let mut short = vec![iface("a")];
    truncate_interfaces(&mut short, 5);
    assert_eq!(short.len(), 1);
}

#[test]
fn sanitized_snapshot_has_unique_nonempty_names() {
    let list = vec![iface("en0"), iface(""), iface("eth0"), iface("en0")];
    let snap = sanitize_snapshot(list);
    assert_eq!(snap.len(), 2);
    assert_eq!(snap[0].name, "en0");
    assert_eq!(snap[1].name, "eth0");
}

#[test]
fn failed_open_never_starts_capturing() {
    let err = CaptureOpenError {
        interface: "en0".to_string(),
        reason: OpenErrorReason::PermissionDenied,
    };
    let st = on_open_outcome(LoopState::Idle, &Err(err));
    assert_eq!(st, LoopState::Stopped);
    assert_ne!(st, LoopState::Capturing);
}

#[test]
fn open_error_message_names_interface_and_reason() {
    let err = CaptureOpenError {
        interface: "en0".to_string(),
        reason: OpenErrorReason::PermissionDenied,
    };
    let msg = err.message();
    assert_eq!(msg, "cannot open capture on en0: permission denied");
    assert!(msg.contains("en0"));
    assert!(msg.contains("permission denied"));
}

#[test]
fn successful_open_starts_capturing() {
    let st = on_open_outcome(LoopState::Idle, &Ok(()));
    assert_eq!(st, LoopState::Capturing);
}

#[test]
fn cancel_and_fatal_stop_the_loop() {
    let dir = empty_directory();
    let mut reg = DeviceRegistry::new();
    let (st, report) = step(
        LoopState::Capturing,
        &mut reg,
        &dir,
        &CaptureEvent::CancelRequested,
    );
    assert_eq!(st, LoopState::Stopped);
    assert!(report.is_empty());
    let (st, report) = step(LoopState::Capturing, &mut reg, &dir, &CaptureEvent::FatalError);
    assert_eq!(st, LoopState::Stopped);
    assert!(report.is_empty());
}

#[test]
fn transient_error_is_absorbed() {
    let dir = empty_directory();
    let mut reg = DeviceRegistry::new();
    let (st, report) = step(
        LoopState::Capturing,
        &mut reg,
        &dir,
        &CaptureEvent::TransientError,
    );
    assert_eq!(st, LoopState::Capturing);
    assert!(report.is_empty());
    assert_eq!(reg.len(), 0);
}

#[test]
fn short_frame_is_skipped_not_fatal() {
    let dir = empty_directory();
    let mut reg = DeviceRegistry::new();
    let (st, report) = step(
        LoopState::Capturing,
        &mut reg,
        &dir,
        &CaptureEvent::FrameArrived(vec![0u8; 5]),
    );
    assert_eq!(st, LoopState::Capturing);
    assert!(report.is_empty());
    assert_eq!(reg.len(), 0);
}

#[test]
fn frame_reports_source_then_destination() {
    let dir = empty_directory();
    let mut reg = DeviceRegistry::new();
    let src = [1, 1, 1, 1, 1, 1];
    let dst = [2, 2, 2, 2, 2, 2];
    let (st, report) = step(
        LoopState::Capturing,
        &mut reg,
        &dir,
        &CaptureEvent::FrameArrived(frame_with(dst, src)),
    );
    assert_eq!(st, LoopState::Capturing);
    assert_eq!(report.len(), 2);
    assert_eq!(report[0].address.octets, src);
    assert_eq!(report[1].address.octets, dst);
    assert_eq!(reg.len(), 2);
}

#[test]
fn repeated_sources_are_reported_once_in_order() {
    let dir = empty_directory();
    let mut reg = DeviceRegistry::new();
    let s1 = [0xAA, 0, 0, 0, 0, 1];
    let s2 = [0xAA, 0, 0, 0, 0, 2];
    let mut reported = Vec::new();
    for src in [s1, s2, s1] {
        let (st, report) = step(
            LoopState::Capturing,
            &mut reg,
            &dir,
            &CaptureEvent::FrameArrived(frame_with(src, src)),
        );
        assert_eq!(st, LoopState::Capturing);
        reported.extend(report);
    }
    assert_eq!(reported.len(), 2);
    assert_eq!(reported[0].address.octets, s1);
    assert_eq!(reported[1].address.octets, s2);
    assert_eq!(reg.len(), 2);
    let snap = reg.snapshot();
    assert_eq!(snap[0].address.octets, s1);
    assert_eq!(snap[1].address.octets, s2);
}
