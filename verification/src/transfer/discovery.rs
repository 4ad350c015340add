//! Device discovery: transport preferences and how a discovered device is named and
//! identified. Probing adb and the network happens in the driver.
use vstd::prelude::*;

use vstd::string::StringSliceAdditionalSpecFns;

use crate::checksum::{compute_xxhash64, spec_xxh64};
use crate::text::{
    append, chars_of, contains_text, has_infix, has_prefix, holds_text, line_scan, split_lines,
    texts, trim, trim_text,
};
use crate::transfer::sender::{lowercase, spec_lowercase, text_starts_with};
use crate::transport::usb::adb::AdbDeviceInfo;

verus! {

/// Which physical transports a transfer may use.
#[derive(Debug, Clone, Copy, PartialEq, Eq, Structural)]
pub enum TransportPreference {
    Automatic,
    Combined,
    UsbOnly,
    WifiDirectOnly,
}

impl Default for TransportPreference {
    /// Let the engine choose.
    fn default() -> (p: Self)
        ensures
            p == TransportPreference::Automatic,
    {
        TransportPreference::Automatic
    }
}

/// A device offered to the user.
#[derive(Debug, Clone)]
pub struct DeviceInfo {
    pub device_id: u128,
    pub device_name: String,
    pub transport: String,
    pub is_connected: bool,
}

/// The id of a device found under `key` (an adb serial or an address): its xxHash64,
/// widened to 128 bits.
pub fn device_id_for(key: &str) -> (id: u128)
    ensures
        id == spec_xxh64(key.spec_bytes(), 0) as u128,
{
    compute_xxhash64(key.as_bytes()) as u128
}

/// The name shown for an adb device: by model, else by product, else by serial.
pub open spec fn spec_adb_device_name(serial: Seq<char>, product: Option<Seq<char>>, model: Option<Seq<char>>) -> Seq<char> {
    match model {
        Some(m) => "Android Phone: "@ + m + " ("@ + serial + ")"@,
        None => match product {
            Some(p) => "Android Device: "@ + p + " ("@ + serial + ")"@,
            None => "Android ADB Device ("@ + serial + ")"@,
        },
    }
}

/// Names an adb device for the device list.
pub fn adb_device_name(d: &AdbDeviceInfo) -> (name: String)
    ensures
        name@ == spec_adb_device_name(d.serial@, d@.product, d@.model),
{
    let mut name = String::new();
    match &d.model {
        Some(m) => {
            append(&mut name, "Android Phone: ");
            append(&mut name, m.as_str());
            append(&mut name, " (");
        },
        None => match &d.product {
            Some(p) => {
                append(&mut name, "Android Device: ");
                append(&mut name, p.as_str());
                append(&mut name, " (");
            },
            None => {
                append(&mut name, "Android ADB Device (");
            },
        },
    }
    append(&mut name, d.serial.as_str());
    append(&mut name, ")");
    proof {
        assert(name@ =~= spec_adb_device_name(d.serial@, d@.product, d@.model));
    }
    name
}

/// How a USB device is described: with its Wi-Fi link, ready to receive, or only
/// attached over adb.
pub fn usb_transport_label(is_wifi_connected: bool, is_listening: bool) -> (s: &'static str)
    ensures
        s@ == if is_wifi_connected {
            "USB + 5 GHz Wi-Fi (Connected)"@
        } else if is_listening {
            "USB (Ready to Receive)"@
        } else {
            "USB (ADB Connected)"@
        },
{
    if is_wifi_connected {
        "USB + 5 GHz Wi-Fi (Connected)"
    } else if is_listening {
        "USB (Ready to Receive)"
    } else {
        "USB (ADB Connected)"
    }
}


// ---------------------------------------------------------------------------
// Hotspot gateways to probe
// ---------------------------------------------------------------------------
/// The index of the first `:` in `s` at or after `from`, or the length of `s`.
pub open spec fn colon_at(s: Seq<char>, from: int) -> int
    decreases s.len() - from,
{
    if from >= s.len() {
        s.len() as int
    } else if s[from] == ':' {
        from
    } else {
        colon_at(s, from + 1)
    }
}

proof fn lemma_colon_at_bounds(s: Seq<char>, from: int)
    requires
        0 <= from <= s.len(),
    ensures
        from <= colon_at(s, from) <= s.len(),
    decreases s.len() - from,
{
    if from < s.len() && s[from] != ':' {
        lemma_colon_at_bounds(s, from + 1);
    }
}

/// The second `:`-separated field of `s` (between the first `:` and the next one,
/// or the end), as `s.split(':').nth(1)` gives it; none without a `:`.
pub open spec fn colon_field(s: Seq<char>) -> Option<Seq<char>> {
    let p = colon_at(s, 0);
    if p < s.len() {
        Some(s.subrange(p + 1, colon_at(s, p + 1)))
    } else {
        None
    }
}

fn find_colon(chars: &Vec<char>, from: usize) -> (p: usize)
    requires
        from <= chars@.len(),
    ensures
        p == colon_at(chars@, from as int),
        from <= p <= chars@.len(),
{
    let mut i = from;
    while i < chars.len() && chars[i] != ':'
        invariant
            from <= i <= chars@.len(),
            colon_at(chars@, from as int) == colon_at(chars@, i as int),
        decreases chars@.len() - i,
    {
        i = i + 1;
    }
    i
}

fn colon_field_of(s: &str) -> (r: Option<String>)
    ensures
        r matches Some(v) ==> colon_field(s@) == Some(v@),
        r is None ==> colon_field(s@) is None,
{
    let chars = chars_of(s);
    let p = find_colon(&chars, 0);
    if p < chars.len() {
        let q = find_colon(&chars, p + 1);
        Some(crate::text::string_of(&chars, p + 1, q))
    } else {
        None
    }
}

/// A line of `netsh wlan show interfaces` naming the network: `SSID` (not
/// `BSSID`) or `Profile`.
pub open spec fn names_network(t: Seq<char>) -> bool {
    (has_prefix(t, "SSID"@) && !has_prefix(t, "BSSID"@)) || has_prefix(t, "Profile"@)
}

/// A network name that a phone's hotspot goes by.
pub open spec fn hotspot_name(v: Seq<char>) -> bool {
    let l = spec_lowercase(trim(v));
    has_infix(l, "android"@) || has_infix(l, "pixel"@) || has_infix(l, "galaxy"@) || has_infix(
        l,
        "turbo"@,
    ) || has_infix(l, "direct-"@) || has_infix(l, "hotspot"@)
}

/// A line that shows the computer joined to a phone's hotspot.
pub open spec fn marks_hotspot(line: Seq<char>) -> bool {
    let t = trim(line);
    &&& names_network(t)
    &&& colon_field(t) matches Some(v) && hotspot_name(v)
}

/// Some line of the `netsh` report shows a phone's hotspot.
pub open spec fn joined_phone_hotspot(netsh: Seq<char>) -> bool {
    exists|i: int| 0 <= i < line_scan(netsh).len() && marks_hotspot(#[trigger] line_scan(netsh)[i])
}

/// The probe address of a gateway.
pub open spec fn probe_address(gw: Seq<char>) -> Seq<char> {
    gw + ":9876"@
}

/// Scanning `ipconfig` lines: the probe addresses of the default gateways of the
/// wireless adapters found so far, and whether the scan is inside such an
/// adapter's section.
pub open spec fn gateway_scan(lines: Seq<Seq<char>>) -> (Seq<Seq<char>>, bool)
    decreases lines.len(),
{
    if lines.len() == 0 {
        (Seq::empty(), false)
    } else {
        let (found, in_wifi) = gateway_scan(lines.drop_last());
        let t = trim(lines.last());
        if has_infix(t, "Wireless LAN adapter"@) || has_infix(t, "Wi-Fi"@) {
            (found, true)
        } else if in_wifi && has_prefix(t, "Default Gateway"@) {
            match colon_field(t) {
                Some(v) => if trim(v).len() > 0 {
                    (found.push(probe_address(trim(v))), false)
                } else {
                    (found, false)
                },
                None => (found, false),
            }
        } else if in_wifi && t.len() == 0 {
            (found, false)
        } else {
            (found, in_wifi)
        }
    }
}

/// `ips` with `x` added at the end unless it is already there.
pub open spec fn with_new(ips: Seq<Seq<char>>, x: Seq<char>) -> Seq<Seq<char>> {
    if ips.contains(x) {
        ips
    } else {
        ips.push(x)
    }
}

/// `ips` with the probe address of each gateway added, in order, unless present.
pub open spec fn with_gateways(ips: Seq<Seq<char>>, gateways: Seq<Seq<char>>) -> Seq<Seq<char>>
    decreases gateways.len(),
{
    if gateways.len() == 0 {
        ips
    } else {
        with_new(with_gateways(ips, gateways.drop_last()), probe_address(gateways.last()))
    }
}

/// The addresses to probe for a phone's hotspot: none unless the `netsh` report
/// shows the computer joined to one; else the wireless default gateways from
/// `ipconfig`, then those of all active interfaces (`gateways`), then the usual
/// Android hotspot gateways, each on the transfer port and added once.
pub open spec fn spec_hotspot_probe_ips(
    netsh: Seq<char>,
    ipconfig: Seq<char>,
    gateways: Seq<Seq<char>>,
) -> Seq<Seq<char>> {
    if !joined_phone_hotspot(netsh) {
        Seq::empty()
    } else {
        let found = gateway_scan(line_scan(ipconfig)).0;
        with_new(
            with_new(with_gateways(found, gateways), "192.168.43.1:9876"@),
            "192.168.49.1:9876"@,
        )
    }
}

fn line_marks_hotspot(line: &str) -> (b: bool)
    ensures
        b == marks_hotspot(line@),
{
    let t = trim_text(line);
    let names = (text_starts_with(t.as_str(), "SSID") && !text_starts_with(t.as_str(), "BSSID"))
        || text_starts_with(t.as_str(), "Profile");
    if !names {
        return false;
    }
    match colon_field_of(t.as_str()) {
        None => false,
        Some(v) => {
            let tv = trim_text(v.as_str());
            let l = lowercase(tv.as_str());
            let ls = l.as_str();
            contains_text(ls, "android") || contains_text(ls, "pixel") || contains_text(ls, "galaxy")
                || contains_text(ls, "turbo") || contains_text(ls, "direct-") || contains_text(
                ls,
                "hotspot",
            )
        },
    }
}

/// Whether the `netsh wlan show interfaces` report shows a phone's hotspot.
pub fn phone_hotspot_joined(netsh: &str) -> (b: bool)
    ensures
        b == joined_phone_hotspot(netsh@),
{
    let lines = split_lines(netsh);
    let mut i: usize = 0;
    while i < lines.len()
        invariant
            i <= lines@.len(),
            texts(lines@) == line_scan(netsh@),
            forall|j: int| 0 <= j < i ==> !marks_hotspot(#[trigger] line_scan(netsh@)[j]),
        decreases lines@.len() - i,
    {
        proof {
            assert(texts(lines@)[i as int] == lines@[i as int]@);
        }
        if line_marks_hotspot(lines[i].as_str()) {
            return true;
        }
        i = i + 1;
    }
    false
}

/// The probe addresses of the wireless adapters' default gateways in an `ipconfig`
/// report.
pub fn wireless_gateways(ipconfig: &str) -> (found: Vec<String>)
    ensures
        texts(found@) == gateway_scan(line_scan(ipconfig@)).0,
{
    let lines = split_lines(ipconfig);
    let ghost all = line_scan(ipconfig@);
    let mut found: Vec<String> = Vec::new();
    let mut in_wifi = false;
    let mut i: usize = 0;
    proof {
        assert(all.take(0) =~= Seq::<Seq<char>>::empty());
        assert(texts(found@) =~= Seq::<Seq<char>>::empty());
    }
    while i < lines.len()
        invariant
            i <= lines@.len(),
            texts(lines@) == all,
            (texts(found@), in_wifi) == gateway_scan(all.take(i as int)),
        decreases lines@.len() - i,
    {
        let ghost prev = texts(found@);
        proof {
            assert(texts(lines@)[i as int] == lines@[i as int]@);
            assert(all.take(i + 1).drop_last() =~= all.take(i as int));
            assert(all.take(i + 1).last() == all[i as int]);
        }
        let t = trim_text(lines[i].as_str());
        let ts = t.as_str();
        if contains_text(ts, "Wireless LAN adapter") || contains_text(ts, "Wi-Fi") {
            in_wifi = true;
        } else if in_wifi && text_starts_with(ts, "Default Gateway") {
            match colon_field_of(ts) {
                Some(v) => {
                    let g = trim_text(v.as_str());
                    let gc = chars_of(g.as_str());
                    if gc.len() > 0 {
                        let mut a = String::new();
                        append(&mut a, g.as_str());
                        append(&mut a, ":9876");
                        proof {
                            assert(Seq::<char>::empty() + g@ =~= g@);
                        }
                        found.push(a);
                        proof {
                            assert(texts(found@) =~= prev.push(probe_address(g@)));
                        }
                    }
                },
                None => {},
            }
            in_wifi = false;
        } else if in_wifi && chars_of(ts).len() == 0 {
            in_wifi = false;
        }
        i = i + 1;
    }
    proof {
        assert(all.take(lines@.len() as int) =~= all);
    }
    found
}

fn push_new(ips: &mut Vec<String>, x: String)
    ensures
        texts(final(ips)@) == with_new(texts(old(ips)@), x@),
{
    if !holds_text(ips, x.as_str()) {
        let ghost before = texts(ips@);
        ips.push(x);
        proof {
            assert(texts(ips@) =~= before.push(x@));
        }
    }
}

/// The addresses to probe for a phone's hotspot, from the `netsh wlan show
/// interfaces` report, the `ipconfig` report and the default gateways of all
/// active interfaces.
pub fn hotspot_probe_ips(netsh: &str, ipconfig: &str, gateways: &Vec<String>) -> (ips: Vec<String>)
    ensures
        texts(ips@) == spec_hotspot_probe_ips(netsh@, ipconfig@, texts(gateways@)),
{
    if !phone_hotspot_joined(netsh) {
        let none: Vec<String> = Vec::new();
        proof {
            assert(texts(none@) =~= Seq::<Seq<char>>::empty());
        }
        return none;
    }
    let mut ips = wireless_gateways(ipconfig);
    let ghost found = texts(ips@);
    let ghost gws = texts(gateways@);
    let mut k: usize = 0;
    proof {
        assert(gws.take(0) =~= Seq::<Seq<char>>::empty());
    }
    while k < gateways.len()
        invariant
            k <= gateways@.len(),
            gws == texts(gateways@),
            texts(ips@) == with_gateways(found, gws.take(k as int)),
        decreases gateways@.len() - k,
    {
        let mut a = String::new();
        append(&mut a, gateways[k].as_str());
        append(&mut a, ":9876");
        proof {
            assert(Seq::<char>::empty() + gateways@[k as int]@ =~= gateways@[k as int]@);
            assert(gws.take(k + 1).drop_last() =~= gws.take(k as int));
            assert(gws.take(k + 1).last() == gws[k as int]);
        }
        push_new(&mut ips, a);
        k = k + 1;
    }
    proof {
        assert(gws.take(gateways@.len() as int) =~= gws);
    }
    push_new(&mut ips, "192.168.43.1:9876".to_string());
    push_new(&mut ips, "192.168.49.1:9876".to_string());
    ips
}

} // verus!
