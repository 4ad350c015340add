//! Configuration of the Wi-Fi Direct / local hotspot transport.
use vstd::prelude::*;

verus! {

/// Default heartbeat failure timeout: 15 s of silence.
pub const DEFAULT_HEARTBEAT_TIMEOUT_MS: u64 = 15000;

/// Default reconnect retry interval: 3 s.
pub const DEFAULT_RECONNECT_INTERVAL_MS: u64 = 3000;

/// How to reach the phone's access point and its receiver.
#[derive(Debug, Clone)]
pub struct WifiDirectConfig {
    /// SSID of the phone's access point or P2P group.
    pub ssid: String,
    /// WPA2 passphrase of the access point.
    pub passphrase: String,
    /// Address of the phone on that network.
    pub target_ip: String,
    /// The phone's TCP listening port.
    pub port: u16,
    /// Local wireless interface to associate (Windows).
    pub interface_name: String,
    /// Silence after which the link counts as lost, in milliseconds.
    pub heartbeat_timeout_ms: u64,
    /// Pause between reconnection attempts, in milliseconds.
    pub reconnect_interval_ms: u64,
}

impl WifiDirectConfig {
    /// A configuration with the standard interface name `Wi-Fi`, a 15 s heartbeat
    /// timeout and a 3 s reconnect interval.
    pub fn new(ssid: String, passphrase: String, target_ip: String, port: u16) -> (c: Self)
        ensures
            c.ssid@ == ssid@,
            c.passphrase@ == passphrase@,
            c.target_ip@ == target_ip@,
            c.port == port,
            c.interface_name@ == "Wi-Fi"@,
            c.heartbeat_timeout_ms == 15000,
            c.reconnect_interval_ms == 3000,
    {
        WifiDirectConfig {
            ssid,
            passphrase,
            target_ip,
            port,
            interface_name: "Wi-Fi".to_owned(),
            heartbeat_timeout_ms: DEFAULT_HEARTBEAT_TIMEOUT_MS,
            reconnect_interval_ms: DEFAULT_RECONNECT_INTERVAL_MS,
        }
    }
}

} // verus!
