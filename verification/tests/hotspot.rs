use turbotransfer_core::transfer::discovery::{hotspot_probe_ips, phone_hotspot_joined, wireless_gateways};

const NETSH_PHONE: &str = "    Name                   : Wi-Fi\r\n    SSID                   : AndroidAP_1234\r\n    BSSID                  : aa:bb:cc:dd:ee:ff\r\n";
const IPCONFIG: &str = "Ethernet adapter Ethernet:\r\n   Default Gateway . . . . . . . . . : 10.0.0.1\r\n\r\nWireless LAN adapter Wi-Fi:\r\n   Default Gateway . . . . . . . . . : 192.168.137.1\r\n";

#[test]
fn a_phone_hotspot_is_recognised_by_its_network_name() {
    assert!(phone_hotspot_joined(NETSH_PHONE));
    assert!(phone_hotspot_joined("    Profile : Galaxy S24\n"));
    assert!(!phone_hotspot_joined("    SSID : HomeNet\n"));
    assert!(!phone_hotspot_joined("    BSSID : android\n"));
    assert!(!phone_hotspot_joined(""));
}

#[test]
fn only_wireless_sections_give_gateways() {
    assert_eq!(wireless_gateways(IPCONFIG), vec!["192.168.137.1:9876".to_string()]);
    assert_eq!(
        wireless_gateways("Wireless LAN adapter Wi-Fi:\n\n   Default Gateway . : 192.168.1.1\n"),
        Vec::<String>::new()
    );
}

#[test]
fn probe_addresses_come_in_order_without_repeats() {
    let gateways = vec!["192.168.137.1".to_string(), "10.0.0.1".to_string()];
    assert_eq!(
        hotspot_probe_ips(NETSH_PHONE, IPCONFIG, &gateways),
        vec![
            "192.168.137.1:9876".to_string(),
            "10.0.0.1:9876".to_string(),
            "192.168.43.1:9876".to_string(),
            "192.168.49.1:9876".to_string(),
        ]
    );
    assert!(hotspot_probe_ips("    SSID : HomeNet\n", IPCONFIG, &gateways).is_empty());
}
