//! Configuration of the USB transport tunnel.
use vstd::prelude::*;

use super::adb::{AdbDeviceInfo, AdbDeviceView};
use crate::text::{append, decimal, push_decimal, same_text};

verus! {

/// Configuration parameters for establishing a USB transport over an ADB tunnel.
/// Durations are in milliseconds.
#[derive(Debug, Clone)]
pub struct UsbTransportConfig {
    /// Specific device serial number, or `None` to auto-select the first verified device.
    pub device_serial: Option<String>,
    /// Local forwarded TCP port on the host (default 9876).
    pub local_port: u16,
    /// Remote TCP port the Android receiver is listening on (default 9876).
    pub remote_port: u16,
    /// Maximum time to wait for the initial Hello handshake before failing.
    pub handshake_timeout_ms: u64,
    /// Timeout for socket writes during data transmission.
    pub write_timeout_ms: u64,
    /// Reconnect polling interval (default 2 seconds).
    pub reconnect_interval_ms: u64,
}

impl UsbTransportConfig {
    /// The default configuration: any device, port 9876 on both ends, 5 s handshake,
    /// 10 s write timeout, 2 s reconnect polling.
    pub fn default() -> (c: Self)
        ensures
            c.device_serial is None,
            c.local_port == 9876,
            c.remote_port == 9876,
            c.handshake_timeout_ms == 5000,
            c.write_timeout_ms == 10000,
            c.reconnect_interval_ms == 2000,
    {
        UsbTransportConfig {
            device_serial: None,
            local_port: 9876,
            remote_port: 9876,
            handshake_timeout_ms: 5000,
            write_timeout_ms: 10000,
            reconnect_interval_ms: 2000,
        }
    }

    /// The default configuration with the given ports.
    pub fn new(local_port: u16, remote_port: u16) -> (c: Self)
        ensures
            c.device_serial is None,
            c.local_port == local_port,
            c.remote_port == remote_port,
            c.handshake_timeout_ms == 5000,
            c.write_timeout_ms == 10000,
            c.reconnect_interval_ms == 2000,
    {
        let d = Self::default();
        UsbTransportConfig { local_port, remote_port, ..d }
    }

    /// This configuration, pinned to the device with the given serial.
    pub fn with_serial(self, serial: String) -> (c: Self)
        ensures
            c.device_serial == Some(serial),
            c.local_port == self.local_port,
            c.remote_port == self.remote_port,
            c.handshake_timeout_ms == self.handshake_timeout_ms,
            c.write_timeout_ms == self.write_timeout_ms,
            c.reconnect_interval_ms == self.reconnect_interval_ms,
    {
        let mut c = self;
        c.device_serial = Some(serial);
        c
    }
}

/// The device a USB transport uses: the first listed device in the `device` state,
/// with the requested serial when one is given.
pub open spec fn device_choice(devices: Seq<AdbDeviceView>, serial: Option<Seq<char>>) -> Option<int>
    decreases devices.len(),
{
    if devices.len() == 0 {
        None
    } else {
        let prev = device_choice(devices.drop_last(), serial);
        let d = devices.last();
        if prev is Some {
            prev
        } else if d.state == "device"@ && (match serial {
            Some(s) => d.serial == s,
            None => true,
        }) {
            Some(devices.len() - 1)
        } else {
            None
        }
    }
}

proof fn lemma_device_choice_extends(devices: Seq<AdbDeviceView>, serial: Option<Seq<char>>, n: int)
    requires
        0 <= n <= devices.len(),
        device_choice(devices.take(n), serial) is Some,
    ensures
        device_choice(devices, serial) == device_choice(devices.take(n), serial),
    decreases devices.len(),
{
    if n < devices.len() {
        assert(devices.drop_last().take(n) =~= devices.take(n));
        lemma_device_choice_extends(devices.drop_last(), serial, n);
    } else {
        assert(devices.take(n) =~= devices);
    }
}

/// Only a device in the `device` state (authorized and online) is ever used: the
/// device chosen is listed, is in that state and has the requested serial when one
/// is given, no device listed before it qualifies, and none is chosen only when no
/// listed device qualifies.
pub proof fn lemma_device_choice_is_first_ready(devices: Seq<AdbDeviceView>, serial: Option<Seq<char>>)
    ensures
        device_choice(devices, serial) matches Some(k) ==> {
            &&& 0 <= k < devices.len()
            &&& devices[k].state == "device"@
            &&& (serial matches Some(s) ==> devices[k].serial == s)
            &&& forall|j: int|
                0 <= j < k ==> !((#[trigger] devices[j]).state == "device"@ && (serial matches Some(s)
                    ==> devices[j].serial == s))
        },
        device_choice(devices, serial) is None <==> forall|j: int|
            0 <= j < devices.len() ==> !((#[trigger] devices[j]).state == "device"@ && (serial matches Some(
                s,
            ) ==> devices[j].serial == s)),
    decreases devices.len(),
{
    if devices.len() > 0 {
        let p = devices.drop_last();
        lemma_device_choice_is_first_ready(p, serial);
        let n = devices.len() - 1;
        assert forall|j: int| 0 <= j < p.len() implies (#[trigger] p[j]) == devices[j] by {}
        assert(devices.last() == devices[n]);
        match device_choice(p, serial) {
            Some(q) => {
                assert(p[q] == devices[q]);
                assert forall|j: int| 0 <= j < q implies !((#[trigger] devices[j]).state
                    == "device"@ && (serial matches Some(s) ==> devices[j].serial == s)) by {
                    assert(p[j] == devices[j]);
                }
                assert(!(forall|j: int|
                    0 <= j < devices.len() ==> !((#[trigger] devices[j]).state == "device"@ && (
                    serial matches Some(s) ==> devices[j].serial == s))));
            },
            None => {
                if device_choice(devices, serial) is None {
                    assert forall|j: int| 0 <= j < devices.len() implies !((#[trigger] devices[j]).state
                        == "device"@ && (serial matches Some(s) ==> devices[j].serial == s)) by {
                        if j < n {
                            assert(p[j] == devices[j]);
                        }
                    }
                } else {
                    assert(device_choice(devices, serial) == Some(n));
                    assert(devices[n].state == "device"@);
                    assert forall|j: int| 0 <= j < n implies !((#[trigger] devices[j]).state
                        == "device"@ && (serial matches Some(s) ==> devices[j].serial == s)) by {
                        assert(p[j] == devices[j]);
                    }
                }
            },
        }
    }
}

/// Selects the device to tunnel to (see `device_choice`).
pub fn select_device(devices: &Vec<AdbDeviceInfo>, serial: &Option<String>) -> (i: Option<usize>)
    ensures
        ({
            let views = devices@.map_values(|d: AdbDeviceInfo| d@);
            let want = match serial {
                Some(s) => Some(s@),
                None => None,
            };
            match i {
                Some(k) => device_choice(views, want) == Some(k as int),
                None => device_choice(views, want) is None,
            }
        }),
{
    let ghost views = devices@.map_values(|d: AdbDeviceInfo| d@);
    let ghost want = match serial {
        Some(s) => Some(s@),
        None => None,
    };
    let mut k: usize = 0;
    while k < devices.len()
        invariant
            k <= devices@.len(),
            views == devices@.map_values(|d: AdbDeviceInfo| d@),
            want == (match serial {
                Some(s) => Some(s@),
                None => None,
            }),
            device_choice(views.take(k as int), want) is None,
        decreases devices@.len() - k,
    {
        let d = &devices[k];
        let ready = same_text(d.state.as_str(), "device");
        let matches = match serial {
            Some(s) => same_text(d.serial.as_str(), s.as_str()),
            None => true,
        };
        proof {
            reveal_strlit("device");
            let t = views.take(k + 1);
            assert(t.drop_last() =~= views.take(k as int));
            assert(t.last() == d@);
        }
        if ready && matches {
            proof {
                lemma_device_choice_extends(views, want, k + 1);
            }
            return Some(k);
        }
        k = k + 1;
    }
    proof {
        assert(views.take(k as int) =~= views);
    }
    None
}

/// `127.0.0.1:<port>`.
pub open spec fn spec_loopback_addr(port: u16) -> Seq<char> {
    "127.0.0.1:"@ + decimal(port as nat)
}

/// The loopback address of the forwarded tunnel endpoint.
pub fn loopback_addr(port: u16) -> (s: String)
    ensures
        s@ == spec_loopback_addr(port),
{
    let mut s = String::new();
    append(&mut s, "127.0.0.1:");
    push_decimal(&mut s, port as u64);
    proof {
        assert(s@ =~= spec_loopback_addr(port));
    }
    s
}

} // verus!
