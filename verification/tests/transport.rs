use turbotransfer_core::transport::link::{LinkState, ReconnectAttempts};
use turbotransfer_core::transport::vectored::{advance_offsets, write_complete};
use turbotransfer_core::transport::wifi_direct::WifiDirectConfig;
use turbotransfer_core::transport::{TransportKind, TransportStatus};

/// Writes `header` then `payload` into `out` through partial writes of at most
/// `step` bytes, as the vectored writer advances.
fn write_in_steps(header: &[u8], payload: &[u8], step: usize) -> Vec<u8> {
    let mut out = Vec::new();
    let (mut h, mut p) = (0usize, 0usize);
    while !write_complete(header.len(), payload.len(), h, p) {
        let mut remaining: Vec<u8> = header[h..].to_vec();
        remaining.extend_from_slice(&payload[p..]);
        let n = remaining.len().min(step);
        out.extend_from_slice(&remaining[..n]);
        let next = advance_offsets(header.len(), payload.len(), h, p, n);
        h = next.0;
        p = next.1;
    }
    out
}

#[test]
fn vectored_write_of_header_and_payload() {
    let header = b"HEADER_1234";
    let payload = b"PAYLOAD_DATA_XYZ_56789";
    let mut expected = header.to_vec();
    expected.extend_from_slice(payload);
    for step in [1, 3, 11, 12, 64] {
        assert_eq!(write_in_steps(header, payload, step), expected);
    }
}

#[test]
fn vectored_write_with_empty_payload() {
    let header = b"CONTROL_HEADER";
    assert_eq!(write_in_steps(header, b"", 5), header.to_vec());
}

#[test]
fn offsets_move_into_the_payload_after_the_header() {
    assert_eq!(advance_offsets(5, 10, 0, 0, 3), (3, 0));
    assert_eq!(advance_offsets(5, 10, 3, 0, 2), (5, 0));
    assert_eq!(advance_offsets(5, 10, 3, 0, 6), (5, 4));
    assert_eq!(advance_offsets(5, 10, 5, 4, 6), (5, 10));
    assert!(write_complete(5, 10, 5, 10));
    assert!(!write_complete(5, 10, 5, 9));
}

#[test]
fn wifi_direct_config_defaults() {
    let c = WifiDirectConfig::new("TestSSID".to_string(), "TestPass".to_string(), "127.0.0.1".to_string(), 9876);
    assert_eq!(c.ssid, "TestSSID");
    assert_eq!(c.passphrase, "TestPass");
    assert_eq!(c.target_ip, "127.0.0.1");
    assert_eq!(c.port, 9876);
    assert_eq!(c.interface_name, "Wi-Fi");
    assert_eq!(c.heartbeat_timeout_ms, 15_000);
    assert_eq!(c.reconnect_interval_ms, 3_000);
}

#[test]
fn heartbeat_silence_disconnects_the_link() {
    let mut link = LinkState::new(TransportKind::WifiDirect, 1_000);
    assert_eq!(link.status(), TransportStatus::Connected);
    assert!(link.check_heartbeat_liveness(30_000, 50_000));
    assert!(link.check_heartbeat_liveness(51_000, 50_000));
    assert!(!link.check_heartbeat_liveness(51_001, 50_000));
    assert_eq!(link.status(), TransportStatus::Disconnected);
    assert!(!link.is_connected());
    assert!(!link.check_heartbeat_liveness(51_002, 50_000));
}

#[test]
fn received_frames_keep_the_link_alive_and_count_bytes() {
    let mut link = LinkState::new(TransportKind::Usb, 0);
    link.on_sent(10);
    link.on_sent(5);
    link.on_received(7, 40_000);
    assert_eq!(link.bytes_sent(), 15);
    assert_eq!(link.bytes_received(), 7);
    assert!(link.check_heartbeat_liveness(60_000, 50_000));
    link.on_sent(u64::MAX);
    assert_eq!(link.bytes_sent(), 14);
    assert_eq!(link.kind(), TransportKind::Usb);
}

#[test]
fn closed_links_refuse_until_reconnected() {
    let mut link = LinkState::new(TransportKind::Tcp, 0);
    link.close();
    assert!(!link.is_connected());
    link.begin_reconnect();
    assert_eq!(link.status(), TransportStatus::Connecting);
    link.reconnected(500);
    assert!(link.is_connected());
    link.on_link_lost();
    assert_eq!(link.status(), TransportStatus::Disconnected);
    link.reconnect_failed();
    assert_eq!(link.status(), TransportStatus::Failed);
}

#[test]
fn reconnect_attempts_are_bounded() {
    let mut r = ReconnectAttempts::new(3);
    let mut made = 0;
    while r.next_attempt() {
        made += 1;
        if made < 3 {
            assert!(r.wait_before_next());
        } else {
            assert!(!r.wait_before_next());
        }
    }
    assert_eq!(made, 3);
    assert_eq!(r.attempts(), 3);
    assert!(!ReconnectAttempts::new(0).next_attempt());
}

#[test]
fn kind_and_status_names() {
    assert_eq!(TransportKind::Tcp.name(), "TCP");
    assert_eq!(TransportKind::Usb.name(), "USB");
    assert_eq!(TransportKind::WifiDirect.name(), "Wi-Fi Direct");
    assert_eq!(TransportStatus::Connected.name(), "Connected");
    assert_eq!(TransportStatus::Failed.name(), "Failed");
}
