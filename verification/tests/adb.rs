use turbotransfer_core::transport::usb::adb::{
    adb_forward_args, adb_forward_remove_args, adb_reverse_args, adb_reverse_remove_args,
    android_action_args, android_broadcast_args, cleanup_serials, tcp_arg, tethering_args,
    AdbDeviceInfo,
};
use turbotransfer_core::transport::usb::transport::{loopback_addr, select_device, UsbTransportConfig};

const SAMPLE_OUTPUT: &str = r#"
List of devices attached
b9b2c03f	device product:OnePlus13s model:PJZ110 device:OnePlus13s transport_id:1
emulator-5554	offline transport_id:2
192.168.1.50:5555	unauthorized transport_id:3
"#;

#[test]
fn usb_test_adb_devices_output_parser() {
    let devices = AdbDeviceInfo::parse_adb_devices_output(SAMPLE_OUTPUT);
    assert_eq!(devices.len(), 3);

    assert_eq!(devices[0].serial, "b9b2c03f");
    assert_eq!(devices[0].state, "device");
    assert_eq!(devices[0].product.as_deref(), Some("OnePlus13s"));
    assert_eq!(devices[0].model.as_deref(), Some("PJZ110"));

    assert_eq!(devices[1].serial, "emulator-5554");
    assert_eq!(devices[1].state, "offline");

    assert_eq!(devices[2].serial, "192.168.1.50:5555");
    assert_eq!(devices[2].state, "unauthorized");
}

#[test]
fn mod_test_adb_devices_output_parser() {
    let sample_output = r#"
List of devices attached
b9b2c03f	device product:OnePlus13s model:PJZ110 device:OnePlus13s transport_id:1
emulator-5554	offline transport_id:2
192.168.1.50:5555	unauthorized transport_id:3
"#;

    let devices = AdbDeviceInfo::parse_adb_devices_output(sample_output);
    assert_eq!(devices.len(), 3);

    assert_eq!(devices[0].serial, "b9b2c03f");
    assert_eq!(devices[0].state, "device");
    assert_eq!(devices[0].product.as_deref(), Some("OnePlus13s"));
    assert_eq!(devices[0].model.as_deref(), Some("PJZ110"));

    assert_eq!(devices[1].serial, "emulator-5554");
    assert_eq!(devices[1].state, "offline");

    assert_eq!(devices[2].serial, "192.168.1.50:5555");
    assert_eq!(devices[2].state, "unauthorized");
}

#[test]
fn parser_reads_device_field_and_skips_daemon_lines() {
    let out = "* daemon not running; starting now at tcp:5037\n* daemon started successfully\nList of devices attached\nabc\tdevice device:walleye\n\nlonely\n";
    let devices = AdbDeviceInfo::parse_adb_devices_output(out);
    assert_eq!(devices.len(), 1);
    assert_eq!(devices[0].serial, "abc");
    assert_eq!(devices[0].device.as_deref(), Some("walleye"));
    assert_eq!(devices[0].product, None);
    assert_eq!(devices[0].model, None);
}

#[test]
fn parser_of_empty_output_is_empty() {
    assert!(AdbDeviceInfo::parse_adb_devices_output("").is_empty());
    assert!(AdbDeviceInfo::parse_adb_devices_output("List of devices attached\n").is_empty());
}

#[test]
fn adb_argument_lists() {
    assert_eq!(tcp_arg(9876), "tcp:9876");
    assert_eq!(tcp_arg(0), "tcp:0");
    assert_eq!(tcp_arg(65535), "tcp:65535");
    assert_eq!(adb_forward_args("s1", 9876, 9875), vec!["-s", "s1", "forward", "tcp:9876", "tcp:9875"]);
    assert_eq!(adb_forward_remove_args("s1", 9876), vec!["-s", "s1", "forward", "--remove", "tcp:9876"]);
    assert_eq!(adb_reverse_args("s1", 9876, 9877), vec!["-s", "s1", "reverse", "tcp:9876", "tcp:9877"]);
    assert_eq!(adb_reverse_remove_args("s1", 9876), vec!["-s", "s1", "reverse", "--remove", "tcp:9876"]);
    assert_eq!(
        android_broadcast_args("s1", "com.turbotransfer.STOP_RECEIVE"),
        vec!["-s", "s1", "shell", "am", "broadcast", "-a", "com.turbotransfer.STOP_RECEIVE"]
    );
    let (start, broadcast) = android_action_args("s1", "com.turbotransfer.ENTER_RECEIVE");
    assert_eq!(
        start,
        vec!["-s", "s1", "shell", "am", "start", "-n", "com.turbotransfer/.MainActivity", "-a", "com.turbotransfer.ENTER_RECEIVE"]
    );
    assert_eq!(
        broadcast,
        vec![
            "-s", "s1", "shell", "am", "broadcast", "-a", "com.turbotransfer.ENTER_RECEIVE", "-p",
            "com.turbotransfer", "--receiver-include-background"
        ]
    );
}

#[test]
fn tethering_argument_lists() {
    let (a, b) = tethering_args(Some("dev"), true);
    assert_eq!(a, vec!["-s", "dev", "shell", "cmd", "connectivity", "tether", "start-tethering", "usb"]);
    assert_eq!(b, vec!["-s", "dev", "shell", "svc", "usb", "setFunctions", "rndis"]);
    let (a, b) = tethering_args(None, false);
    assert_eq!(a, vec!["shell", "cmd", "connectivity", "tether", "stop-tethering", "usb"]);
    assert_eq!(b, vec!["shell", "svc", "usb", "setFunctions", "mtp"]);
}

#[test]
fn cleanup_targets_ready_devices_or_the_given_one() {
    let devices = AdbDeviceInfo::parse_adb_devices_output(SAMPLE_OUTPUT);
    assert_eq!(cleanup_serials(None, &devices), vec!["b9b2c03f"]);
    assert_eq!(cleanup_serials(Some("x"), &devices), vec!["x"]);
}

#[test]
fn device_selection_and_tunnel_address() {
    let devices = AdbDeviceInfo::parse_adb_devices_output(SAMPLE_OUTPUT);
    assert_eq!(select_device(&devices, &None), Some(0));
    assert_eq!(select_device(&devices, &Some("b9b2c03f".to_string())), Some(0));
    assert_eq!(select_device(&devices, &Some("emulator-5554".to_string())), None);
    assert_eq!(select_device(&Vec::new(), &None), None);
    assert_eq!(loopback_addr(9876), "127.0.0.1:9876");
}

#[test]
fn usb_config_defaults_and_serial() {
    let d = UsbTransportConfig::default();
    assert_eq!(d.device_serial, None);
    assert_eq!(d.local_port, 9876);
    assert_eq!(d.remote_port, 9876);
    assert_eq!(d.handshake_timeout_ms, 5000);
    assert_eq!(d.write_timeout_ms, 10000);
    assert_eq!(d.reconnect_interval_ms, 2000);
    let c = UsbTransportConfig::new(1000, 2000).with_serial("abc".to_string());
    assert_eq!(c.local_port, 1000);
    assert_eq!(c.remote_port, 2000);
    assert_eq!(c.device_serial.as_deref(), Some("abc"));
    assert_eq!(c.write_timeout_ms, 10000);
}
