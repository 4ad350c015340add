use turbotransfer_core::benchmark::calibration::{
    cancel_calibration, CalibrationRegistry, CalibrationStage, CalibrationSweep,
};
use turbotransfer_core::benchmark::config_store::get_pair_key;
use turbotransfer_core::benchmark::ephemeral_file::XorShift64;
use turbotransfer_core::benchmark::types::{TransferConfigOverride, TransferPurpose, WindowPreset};
use turbotransfer_core::ffi::{FfiTransferRole, FfiTransferStatus, FfiTransportPreference};
use turbotransfer_core::manifest::schema::{TransferMeta, TransferRole, TransferStatus};
use turbotransfer_core::text::{contains_text, ends_with, same_text};
use turbotransfer_core::transfer::discovery::{adb_device_name, device_id_for, usb_transport_label, TransportPreference};
use turbotransfer_core::transfer::receiver::leave_receive_mode;
use turbotransfer_core::transfer::registry::{name_channels, TransferRegistry};
use turbotransfer_core::transfer::sender::{
    calibration_overrides, clean_address, connecting_label, find_resumable_transfer, is_high_speed,
    is_usb_address, split_address_list, status_after_session, stream_label, transport_display_name,
    usb_stream_count, wifi_stream_count, SessionEnd, is_explicit_loopback, is_loopback_address, resume_progress,
    chunk_size_for,
};
use turbotransfer_core::transport::usb::adb::AdbDeviceInfo;
use turbotransfer_core::checksum::compute_xxhash64;

#[test]
fn pair_keys_are_file_name_safe() {
    assert_eq!(get_pair_key("  "), "default_peer");
    assert_eq!(get_pair_key(""), "default_peer");
    assert_eq!(get_pair_key(" 192.168.1.5:9876 "), "192_168_1_5_9876");
    assert_eq!(get_pair_key("Pixel-7_a b"), "Pixel-7_a_b");
}

#[test]
fn xorshift_sequence_and_fill() {
    let mut g = XorShift64::new(1);
    let a = g.next_u64();
    let mut x: u64 = 1;
    x ^= x << 13;
    x ^= x >> 7;
    x ^= x << 17;
    assert_eq!(a, x);
    let mut z = XorShift64::new(0);
    let mut w = XorShift64::new(0x5465737453656564);
    assert_eq!(z.next_u64(), w.next_u64());
    let mut g1 = XorShift64::new(42);
    let mut g2 = XorShift64::new(42);
    let mut buf = [0u8; 11];
    g1.fill_bytes(&mut buf);
    let v1 = g2.next_u64().to_le_bytes();
    let v2 = g2.next_u64().to_le_bytes();
    assert_eq!(&buf[..8], &v1[..]);
    assert_eq!(&buf[8..], &v2[..3]);
    assert_eq!(g1.next_u64(), g2.next_u64());
}

#[test]
fn defaults_and_presets() {
    assert_eq!(TransferPurpose::default(), TransferPurpose::Normal);
    assert_eq!(WindowPreset::default(), WindowPreset::Balanced);
    assert_eq!(WindowPreset::Conservative.window_sizes(), (12, 32, 16));
    assert_eq!(WindowPreset::Balanced.window_sizes(), (12, 32, 16));
    assert_eq!(WindowPreset::Aggressive.window_sizes(), (20, 56, 28));
    assert_eq!(WindowPreset::Max.window_sizes(), (24, 64, 32));
    let o = TransferConfigOverride::default();
    assert_eq!(o.wifi_stream_count, None);
    assert_eq!(TransportPreference::default(), TransportPreference::Automatic);
}

#[test]
fn calibration_sweep_runs_ten_steps() {
    let mut s = CalibrationSweep::new();
    let mut stages = Vec::new();
    let speeds = [10, 30, 20, 5, 50, 40, 1, 2, 3, 9];
    let mut best = 0;
    let mut last_stage = None;
    for speed in speeds {
        let step = s.next_step().unwrap();
        if last_stage != Some(step.stage) {
            best = 0;
            last_stage = Some(step.stage);
        }
        stages.push(step.stage);
        let beat = speed > best;
        if beat {
            best = speed;
        }
        s.record_run(beat);
    }
    assert!(s.next_step().is_none());
    assert_eq!(stages[0], CalibrationStage::Streams);
    assert_eq!(stages[3], CalibrationStage::ChunkSize);
    assert_eq!(stages[6], CalibrationStage::Window);
    assert_eq!(stages[9], CalibrationStage::Confirmation);
    let w = s.winning_config();
    assert_eq!(w.wifi_stream_count, Some(3));
    assert_eq!(w.chunk_size_bytes, Some(2 * 1024 * 1024));
    assert_eq!(w.wifi_window_preset, Some(WindowPreset::Max));
    assert_eq!(CalibrationStage::ChunkSize.name(), "chunk_size");
}

#[test]
fn calibration_sweep_configs() {
    let s = CalibrationSweep::new();
    let first = s.next_step().unwrap();
    assert_eq!(first.number, 1);
    assert_eq!(first.config.wifi_stream_count, Some(2));
    assert_eq!(first.config.chunk_size_bytes, None);
    assert_eq!(first.config.wifi_window_preset, Some(WindowPreset::Balanced));
}

#[test]
fn cancelling_a_calibration() {
    let mut reg = CalibrationRegistry::new();
    reg.register("192_168_1_5".to_string());
    reg.set_active_transfer("192_168_1_5", Some(77));
    assert_eq!(cancel_calibration(&mut reg, " 192.168.1.5 "), Some(77));
    assert!(reg.slot("192_168_1_5").unwrap().cancelled);
    assert_eq!(cancel_calibration(&mut reg, "other"), None);
    assert!(reg.slot("other").is_none());
    reg.unregister("192_168_1_5");
    assert!(reg.slot("192_168_1_5").is_none());
}

#[test]
fn text_helpers() {
    assert!(same_text("abc", "abc"));
    assert!(!same_text("abc", "abd"));
    assert!(ends_with("10.0.0.1:9876", ":9876"));
    assert!(!ends_with("9876", ":9876"));
    assert!(contains_text("USB (ADB Tunnel)", "ADB"));
    assert!(contains_text("x", ""));
    assert!(!contains_text("AD", "ADB"));
}

#[test]
fn leaving_receive_mode_picks_listeners() {
    let keys = vec!["0.0.0.0:9876".to_string(), "127.0.0.1:9000".to_string()];
    assert_eq!(leave_receive_mode(&keys, None), keys);
    assert_eq!(leave_receive_mode(&keys, Some("127.0.0.1:9000")), vec!["127.0.0.1:9000"]);
    assert_eq!(leave_receive_mode(&keys, Some("192.168.0.2:9876")), vec!["0.0.0.0:9876"]);
    assert!(leave_receive_mode(&keys, Some("1.2.3.4:1")).is_empty());
    assert!(leave_receive_mode(&Vec::new(), None).is_empty());
}

#[test]
fn discovered_devices_are_named() {
    let devices = AdbDeviceInfo::parse_adb_devices_output(
        "b9\tdevice product:P model:M\nc1\tdevice product:Q\nd2\tdevice\n",
    );
    assert_eq!(adb_device_name(&devices[0]), "Android Phone: M (b9)");
    assert_eq!(adb_device_name(&devices[1]), "Android Device: Q (c1)");
    assert_eq!(adb_device_name(&devices[2]), "Android ADB Device (d2)");
    assert_eq!(usb_transport_label(true, true), "USB + 5 GHz Wi-Fi (Connected)");
    assert_eq!(usb_transport_label(false, true), "USB (Ready to Receive)");
    assert_eq!(usb_transport_label(false, false), "USB (ADB Connected)");
    assert_eq!(device_id_for("b9"), compute_xxhash64(b"b9") as u128);
}

#[test]
fn ffi_conversions() {
    assert_eq!(TransportPreference::from(FfiTransportPreference::UsbOnly), TransportPreference::UsbOnly);
    assert_eq!(TransportPreference::from(FfiTransportPreference::Combined), TransportPreference::Combined);
    assert_eq!(FfiTransferStatus::from(TransferStatus::Failed), FfiTransferStatus::Failed);
    assert_eq!(FfiTransferStatus::from(TransferStatus::Paused), FfiTransferStatus::Paused);
    assert_eq!(FfiTransferRole::from(TransferRole::Receiver), FfiTransferRole::Receiver);
}

#[test]
fn sender_address_handling() {
    assert_eq!(clean_address(" 10.0.0.2:9876#wifi "), "10.0.0.2:9876");
    assert_eq!(clean_address("127.0.0.1:9876?x"), "127.0.0.1:9876");
    assert!(is_usb_address("127.0.0.1:9876"));
    assert!(is_usb_address("MyUSB"));
    assert!(is_usb_address("192.168.42.129:9876"));
    assert!(!is_usb_address("10.18.163.130:9876"));
    assert_eq!(usb_stream_count("localhost:9876"), 1);
    assert_eq!(usb_stream_count("10.125.0.1:9876"), 2);
    assert_eq!(
        split_address_list(" 127.0.0.1:9876, ,10.18.163.130:9876,"),
        vec!["127.0.0.1:9876", "10.18.163.130:9876"]
    );
    assert!(split_address_list("").is_empty());
    assert_eq!(wifi_stream_count(None), 4);
    assert_eq!(wifi_stream_count(Some(0)), 1);
    assert_eq!(wifi_stream_count(Some(2)), 2);
    assert_eq!(stream_label("5 GHz Wi-Fi Direct", 2), "5 GHz Wi-Fi Direct (Stream #2)");
    assert_eq!(transport_display_name(&vec![]), "TCP Transport");
    assert_eq!(transport_display_name(&vec!["USB (ADB Tunnel)".to_string()]), "USB (ADB Tunnel)");
    assert_eq!(
        transport_display_name(&vec!["A".to_string(), "B".to_string(), "C".to_string()]),
        "A + B + C (Multipath Active)"
    );
    assert_eq!(connecting_label(TransportPreference::Combined), "Multipath (Connecting...)");
    assert!(is_high_speed(TransportPreference::UsbOnly));
    assert!(!is_high_speed(TransportPreference::Automatic));
    assert_eq!(calibration_overrides(None), (None, None, None));
    assert_eq!(status_after_session(SessionEnd::Succeeded), Some(TransferStatus::Completed));
    assert_eq!(status_after_session(SessionEnd::Paused), None);
    assert_eq!(status_after_session(SessionEnd::Failed), Some(TransferStatus::Failed));
}

fn meta(id: u128, status: TransferStatus, created: &str) -> TransferMeta {
    let mut m = TransferMeta::new_at(id, 0, format!("f{}", id), 10, 1, 10, TransferRole::Sender, 0, created.to_string());
    m.status = status;
    m
}

#[test]
fn resumable_transfer_selection() {
    let metas = vec![
        meta(1, TransferStatus::Paused, "2024-01-01T00:00:00Z"),
        meta(2, TransferStatus::Completed, "2024-05-01T00:00:00Z"),
        meta(3, TransferStatus::InProgress, "2024-03-01T00:00:00Z"),
        meta(4, TransferStatus::Failed, "2024-02-01T00:00:00Z"),
    ];
    assert_eq!(find_resumable_transfer(&metas, None), Some(2));
    assert_eq!(find_resumable_transfer(&metas, Some(2)), Some(1));
    assert_eq!(find_resumable_transfer(&metas, Some(9)), None);
    assert_eq!(find_resumable_transfer(&Vec::new(), None), None);
}

#[test]
fn registry_tracks_status_and_progress() {
    let mut r = TransferRegistry::new();
    r.register_active_transfer(1, "a".to_string(), 100, TransferRole::Sender, 10, "USB".to_string(), 5);
    assert_eq!(r.transfer_control_status(1), Some(TransferStatus::InProgress));
    r.update_transfer_progress(1, 50, 5);
    r.record_channel_bytes(1, true, 30);
    r.record_channel_bytes(1, false, 20);
    let rec = r.get(1).unwrap();
    assert_eq!((rec.bytes_transferred, rec.completed_chunks), (50, 5));
    assert_eq!((rec.usb_bytes_transferred, rec.wifi_bytes_transferred), (30, 20));
    r.set_transfer_status(1, TransferStatus::Failed, Some("boom".to_string()), 9);
    assert_eq!(r.get(1).unwrap().end_time_us, Some(9));
    r.set_transfer_status(1, TransferStatus::Cancelled, None, 11);
    assert_eq!(r.get(1).unwrap().end_time_us, Some(9));
    assert_eq!(r.get_transfer_error(1).map(|s| s.as_str()), Some("boom"));
    r.set_transfer_status(1, TransferStatus::InProgress, None, 12);
    assert_eq!(r.get(1).unwrap().end_time_us, None);
    r.register_active_transfer(1, "a".to_string(), 100, TransferRole::Receiver, 10, "X".to_string(), 13);
    assert_eq!(r.get(1).unwrap().transport_name, "USB");
    r.update_transfer_transport_name(1, "Wi-Fi".to_string());
    assert_eq!(r.get(1).unwrap().transport_name, "Wi-Fi");
    assert_eq!(r.transfer_control_status(2), None);
    r.remove_active_transfer(1);
    assert!(r.get(1).is_none());
}

#[test]
fn transfer_list_merges_active_and_stored() {
    let mut r = TransferRegistry::new();
    r.register_active_transfer(1, "a".to_string(), 100, TransferRole::Sender, 10, "USB".to_string(), 5);
    let disk = vec![
        meta(1, TransferStatus::Completed, "t"),
        meta(2, TransferStatus::Failed, "t"),
        meta(3, TransferStatus::Completed, "t"),
        meta(2, TransferStatus::Completed, "t"),
    ];
    let mut list = r.transfer_summaries(&disk);
    list.sort_by_key(|s| s.transfer_id);
    assert_eq!(list.len(), 3);
    assert_eq!(list[0].status, TransferStatus::InProgress);
    assert_eq!(list[0].file_name, "a");
    assert_eq!(list[1].status, TransferStatus::Paused);
    assert_eq!(list[2].status, TransferStatus::Completed);
    assert_eq!(name_channels("USB (ADB Tunnel) + 5 GHz Wi-Fi Direct (Stream #1)"), (true, true));
    assert_eq!(name_channels("TCP Transport"), (false, false));
}

#[test]
fn resumed_progress_counts_completed_ranges() {
    // Ten chunks of 4 bytes over a 38-byte file: the last chunk holds 2 bytes.
    assert_eq!(resume_progress(&vec![(0, 2), (8, 9)], 10, 38, 4), (3 * 4 + 4 + 2, 5));
    assert_eq!(resume_progress(&vec![], 10, 38, 4), (0, 0));
    // An exact multiple: the last chunk is a full one.
    assert_eq!(resume_progress(&vec![(9, 9)], 10, 40, 4), (4, 1));
    // A range whose end lies before its start counts one chunk and no bytes.
    assert_eq!(resume_progress(&vec![(5, 3)], 10, 38, 4), (0, 1));
}

#[test]
fn loopback_addresses() {
    assert!(is_loopback_address("127.0.0.1:9876"));
    assert!(is_loopback_address("localhost:9876"));
    assert!(!is_loopback_address("192.168.43.1:9876"));
    assert!(is_explicit_loopback(Some("USB-peer:9876")));
    assert!(is_explicit_loopback(Some("127.0.0.1:9876")));
    assert!(!is_explicit_loopback(Some("10.125.0.2:9876")));
    assert!(!is_explicit_loopback(None));
}

#[test]
fn attaching_an_actor_keeps_or_creates_the_record() {
    let mut r = TransferRegistry::new();
    r.register_active_transfer(1, "a".to_string(), 100, TransferRole::Receiver, 10, "USB".to_string(), 5);
    r.set_transfer_actor_handle(1, 7);
    let rec = r.get(1).unwrap();
    assert_eq!((rec.file_name.as_str(), rec.role, rec.start_time_us), ("a", TransferRole::Receiver, 5));
    r.set_transfer_actor_handle(2, 8);
    let blank = r.get(2).unwrap();
    assert_eq!((blank.file_name.as_str(), blank.file_size, blank.start_time_us), ("", 0, 8));
    assert_eq!((blank.role, blank.status), (TransferRole::Sender, TransferStatus::InProgress));
    r.set_transfer_status(2, TransferStatus::Paused, None, 9);
    assert_eq!(r.transfer_control_status(2), Some(TransferStatus::Paused));
    assert_eq!(r.transfer_control_status(1), Some(TransferStatus::InProgress));
}

#[test]
fn chunk_size_defaults_follow_the_path() {
    assert_eq!(chunk_size_for(Some(2 * 1024 * 1024), false), 2 * 1024 * 1024);
    assert_eq!(chunk_size_for(None, true), 4 * 1024 * 1024);
    assert_eq!(chunk_size_for(None, false), 1024 * 1024);
}

#[test]
fn pair_keys_are_stable() {
    for id in ["  Pixel 8 / USB  ", "", "   ", "10.125.0.2:9876", "a-b_c"] {
        let k = get_pair_key(id);
        assert!(!k.is_empty());
        assert_eq!(get_pair_key(&k), k);
        assert!(k.chars().all(|c| c.is_alphanumeric() || c == '-' || c == '_'));
    }
}
