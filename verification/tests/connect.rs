use turbotransfer_core::transfer::sender::{explicit_attempts, ConnectAttempt};

fn view(v: &[ConnectAttempt]) -> Vec<(String, bool, String, u64)> {
    v.iter().map(|a| (a.address.clone(), a.usb, a.label.clone(), a.timeout_ms)).collect()
}

#[test]
fn a_combined_list_tries_the_tunnel_once_and_each_wifi_stream() {
    let v = explicit_attempts(true, " 127.0.0.1:9876 , 192.168.1.5:9876#fast", 2);
    assert_eq!(
        view(&v),
        vec![
            ("127.0.0.1:9876".to_string(), true, "USB (ADB Tunnel)".to_string(), 0),
            ("192.168.1.5:9876".to_string(), false, "5 GHz Wi-Fi Direct (Stream #1)".to_string(), 0),
            ("192.168.1.5:9876".to_string(), false, "5 GHz Wi-Fi Direct (Stream #2)".to_string(), 0),
        ]
    );
}

#[test]
fn a_tethered_usb_address_gets_two_streams_when_combined() {
    let v = explicit_attempts(true, "10.125.0.2:9876", 4);
    assert_eq!(
        view(&v),
        vec![
            ("10.125.0.2:9876".to_string(), true, "USB (RNDIS Stream #1)".to_string(), 0),
            ("10.125.0.2:9876".to_string(), true, "USB (RNDIS Stream #2)".to_string(), 0),
        ]
    );
}

#[test]
fn automatic_attempts_wait_at_most_800_ms() {
    let v = explicit_attempts(false, "usb-phone:9876,,10.0.0.9:9876", 1);
    assert_eq!(
        view(&v),
        vec![
            ("usb-phone:9876".to_string(), true, "USB (ADB Tunnel)".to_string(), 800),
            ("10.0.0.9:9876".to_string(), false, "5 GHz Wi-Fi Direct (Stream #1)".to_string(), 800),
        ]
    );
    assert!(explicit_attempts(false, " , ", 3).is_empty());
}
