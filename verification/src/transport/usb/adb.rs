//! Parsing of `adb devices -l` output, and the ADB invocations the USB transport makes.
use vstd::prelude::*;

use crate::text::{
    append, chars_of, decimal, has_prefix, line_scan, push_decimal, same_text, skip_ws_backward,
    skip_ws_forward, starts_with_at, string_of, texts, trim, words, words_scan, is_ws,
    char_is_whitespace,
};

verus! {

/// Information about a connected ADB device parsed from `adb devices -l`.
#[derive(Debug, Clone, PartialEq, Eq)]
pub struct AdbDeviceInfo {
    pub serial: String,
    pub state: String,
    pub product: Option<String>,
    pub model: Option<String>,
    pub device: Option<String>,
}

/// The character content of an `AdbDeviceInfo`.
pub struct AdbDeviceView {
    pub serial: Seq<char>,
    pub state: Seq<char>,
    pub product: Option<Seq<char>>,
    pub model: Option<Seq<char>>,
    pub device: Option<Seq<char>>,
}

/// The characters of an optional string.
pub open spec fn opt_chars(o: Option<String>) -> Option<Seq<char>> {
    match o {
        Some(s) => Some(s@),
        None => None,
    }
}

impl View for AdbDeviceInfo {
    type V = AdbDeviceView;

    open spec fn view(&self) -> AdbDeviceView {
        AdbDeviceView {
            serial: self.serial@,
            state: self.state@,
            product: opt_chars(self.product),
            model: opt_chars(self.model),
            device: opt_chars(self.device),
        }
    }
}

/// The value after `key` in the last of `parts` that starts with `key`.
pub open spec fn field_value(parts: Seq<Seq<char>>, key: Seq<char>) -> Option<Seq<char>>
    decreases parts.len(),
{
    if parts.len() == 0 {
        None
    } else if has_prefix(parts.last(), key) {
        Some(parts.last().skip(key.len() as int))
    } else {
        field_value(parts.drop_last(), key)
    }
}

/// The device described by one line of `adb devices -l` output, if any: the
/// header line, daemon messages (`*`), blank lines and lines with fewer than two
/// words describe none.
pub open spec fn spec_parse_line(line: Seq<char>) -> Option<AdbDeviceView> {
    let t = trim(line);
    if t.len() == 0 || has_prefix(t, "List of devices"@) || has_prefix(t, "*"@) {
        None
    } else {
        let parts = words(t);
        if parts.len() < 2 {
            None
        } else {
            Some(
                AdbDeviceView {
                    serial: parts[0],
                    state: parts[1],
                    product: field_value(parts.skip(2), "product:"@),
                    model: field_value(parts.skip(2), "model:"@),
                    device: field_value(parts.skip(2), "device:"@),
                },
            )
        }
    }
}

/// The devices described by a list of lines, in order.
pub open spec fn spec_parse_lines(lines: Seq<Seq<char>>) -> Seq<AdbDeviceView>
    decreases lines.len(),
{
    if lines.len() == 0 {
        Seq::empty()
    } else {
        spec_parse_lines(lines.drop_last()) + match spec_parse_line(lines.last()) {
            Some(d) => seq![d],
            None => Seq::empty(),
        }
    }
}

/// The devices described by the whole output.
pub open spec fn spec_parse_adb_devices(output: Seq<char>) -> Seq<AdbDeviceView> {
    spec_parse_lines(line_scan(output))
}

/// The words of `chars[lo..]` delimited by the spans.
pub open spec fn spans_view(chars: Seq<char>, spans: Seq<(usize, usize)>) -> Seq<Seq<char>> {
    spans.map_values(|p: (usize, usize)| chars.subrange(p.0 as int, p.1 as int))
}

/// Finds the spans of the whitespace-separated words of `chars[lo..hi]`.
fn word_spans(chars: &Vec<char>, lo: usize, hi: usize) -> (spans: Vec<(usize, usize)>)
    requires
        lo <= hi <= chars@.len(),
    ensures
        spans_view(chars@, spans@) == words(chars@.subrange(lo as int, hi as int)),
        forall|k: int| 0 <= k < spans@.len() ==> lo <= #[trigger] spans@[k].0 <= spans@[k].1 <= hi,
{
    let mut spans: Vec<(usize, usize)> = Vec::new();
    let mut cur_start = lo;
    let mut i = lo;
    proof {
        assert(chars@.subrange(lo as int, lo as int) =~= Seq::<char>::empty());
        assert(spans_view(chars@, spans@) =~= Seq::<Seq<char>>::empty());
    }
    while i < hi
        invariant
            lo <= cur_start <= i <= hi,
            hi <= chars@.len(),
            forall|k: int| 0 <= k < spans@.len() ==> lo <= #[trigger] spans@[k].0 <= spans@[k].1 <= hi,
            words_scan(chars@.subrange(lo as int, i as int)) == (
                spans_view(chars@, spans@),
                chars@.subrange(cur_start as int, i as int),
            ),
        decreases hi - i,
    {
        let c = chars[i];
        let ghost prev_spans = spans@;
        proof {
            assert(chars@.subrange(lo as int, i + 1).drop_last() =~= chars@.subrange(lo as int, i as int));
            assert(chars@.subrange(lo as int, i + 1).last() == c);
        }
        if char_is_whitespace(c) {
            if cur_start < i {
                spans.push((cur_start, i));
                proof {
                    assert(spans_view(chars@, spans@) =~= spans_view(chars@, prev_spans).push(
                        chars@.subrange(cur_start as int, i as int),
                    ));
                }
            }
            cur_start = i + 1;
            proof {
                assert(chars@.subrange(cur_start as int, i + 1) =~= Seq::<char>::empty());
            }
        } else {
            proof {
                assert(chars@.subrange(cur_start as int, i + 1) =~= chars@.subrange(
                    cur_start as int,
                    i as int,
                ).push(c));
            }
        }
        i = i + 1;
    }
    if cur_start < hi {
        let ghost prev_spans = spans@;
        spans.push((cur_start, hi));
        proof {
            assert(spans_view(chars@, spans@) =~= spans_view(chars@, prev_spans).push(
                chars@.subrange(cur_start as int, hi as int),
            ));
        }
    }
    spans
}

/// The value of the last word among `spans[2..]` that starts with `key`.
fn find_field(chars: &Vec<char>, spans: &Vec<(usize, usize)>, key: &Vec<char>) -> (v: Option<String>)
    requires
        spans@.len() >= 2,
        forall|k: int| 0 <= k < spans@.len() ==> #[trigger] spans@[k].0 <= spans@[k].1 <= chars@.len(),
    ensures
        opt_chars(v) == field_value(spans_view(chars@, spans@).skip(2), key@),
{
    let ghost parts = spans_view(chars@, spans@);
    let mut v: Option<String> = None;
    let mut k: usize = 2;
    proof {
        assert(parts.subrange(2, 2) =~= Seq::<Seq<char>>::empty());
    }
    while k < spans.len()
        invariant
            2 <= k <= spans@.len(),
            parts == spans_view(chars@, spans@),
            forall|m: int| 0 <= m < spans@.len() ==> #[trigger] spans@[m].0 <= spans@[m].1 <= chars@.len(),
            opt_chars(v) == field_value(parts.subrange(2, k as int), key@),
        decreases spans@.len() - k,
    {
        let (s, e) = spans[k];
        proof {
            assert(parts.subrange(2, k + 1).drop_last() =~= parts.subrange(2, k as int));
            assert(parts.subrange(2, k + 1).last() == chars@.subrange(s as int, e as int));
        }
        if starts_with_at(chars, s, e, key) {
            v = Some(string_of(chars, s + key.len(), e));
            proof {
                assert(chars@.subrange(s as int, e as int).skip(key@.len() as int) =~= chars@.subrange(
                    s + key@.len(),
                    e as int,
                ));
            }
        }
        k = k + 1;
    }
    proof {
        assert(parts.subrange(2, spans@.len() as int) =~= parts.skip(2));
    }
    v
}

/// Parses the line `chars[from..to]`.
fn parse_line_at(
    chars: &Vec<char>,
    from: usize,
    to: usize,
    header: &Vec<char>,
    star: &Vec<char>,
    product_key: &Vec<char>,
    model_key: &Vec<char>,
    device_key: &Vec<char>,
) -> (d: Option<AdbDeviceInfo>)
    requires
        from <= to <= chars@.len(),
        header@ == "List of devices"@,
        star@ == "*"@,
        product_key@ == "product:"@,
        model_key@ == "model:"@,
        device_key@ == "device:"@,
    ensures
        match d {
            Some(info) => spec_parse_line(chars@.subrange(from as int, to as int)) == Some(info@),
            None => spec_parse_line(chars@.subrange(from as int, to as int)) is None,
        },
{
    let lo = skip_ws_forward(chars, from, to);
    let hi = skip_ws_backward(chars, lo, to);
    let ghost t = chars@.subrange(lo as int, hi as int);
    assert(trim(chars@.subrange(from as int, to as int)) == t);
    if lo == hi || starts_with_at(chars, lo, hi, header) || starts_with_at(chars, lo, hi, star) {
        return None;
    }
    let spans = word_spans(chars, lo, hi);
    if spans.len() < 2 {
        return None;
    }
    let (s0, e0) = spans[0];
    let (s1, e1) = spans[1];
    let serial = string_of(chars, s0, e0);
    let state = string_of(chars, s1, e1);
    let product = find_field(chars, &spans, product_key);
    let model = find_field(chars, &spans, model_key);
    let device = find_field(chars, &spans, device_key);
    let info = AdbDeviceInfo { serial, state, product, model, device };
    proof {
        let parts = spans_view(chars@, spans@);
        assert(parts[0] == chars@.subrange(s0 as int, e0 as int));
        assert(parts[1] == chars@.subrange(s1 as int, e1 as int));
    }
    Some(info)
}

proof fn lemma_parse_lines_push(lines: Seq<Seq<char>>, line: Seq<char>)
    ensures
        spec_parse_lines(lines.push(line)) == spec_parse_lines(lines) + match spec_parse_line(line) {
            Some(d) => seq![d],
            None => Seq::empty(),
        },
{
    assert(lines.push(line).drop_last() =~= lines);
}

impl AdbDeviceInfo {
    /// Parses the raw output of `adb devices -l` into a list of `AdbDeviceInfo`.
    pub fn parse_adb_devices_output(output: &str) -> (devices: Vec<AdbDeviceInfo>)
        ensures
            devices@.len() == spec_parse_adb_devices(output@).len(),
            forall|i: int|
                0 <= i < devices@.len() ==> #[trigger] devices@[i]@ == spec_parse_adb_devices(
                    output@,
                )[i],
    {
        let chars = chars_of(output);
        let header = chars_of("List of devices");
        let star = chars_of("*");
        let product_key = chars_of("product:");
        let model_key = chars_of("model:");
        let device_key = chars_of("device:");
        let mut devices: Vec<AdbDeviceInfo> = Vec::new();
        let mut line_start: usize = 0;
        let mut i: usize = 0;
        proof {
            assert(chars@.take(0) =~= Seq::<char>::empty());
            assert(line_scan(chars@.take(0)).drop_last() =~= Seq::<Seq<char>>::empty());
            assert(chars@.subrange(0, 0) =~= Seq::<char>::empty());
        }
        while i < chars.len()
            invariant
                header@ == "List of devices"@,
                star@ == "*"@,
                product_key@ == "product:"@,
                model_key@ == "model:"@,
                device_key@ == "device:"@,
                chars@ == output@,
                line_start <= i <= chars@.len(),
                line_scan(chars@.take(i as int)).len() >= 1,
                line_scan(chars@.take(i as int)).last() == chars@.subrange(line_start as int, i as int),
                devices@.len() == spec_parse_lines(line_scan(chars@.take(i as int)).drop_last()).len(),
                forall|k: int|
                    0 <= k < devices@.len() ==> #[trigger] devices@[k]@ == spec_parse_lines(
                        line_scan(chars@.take(i as int)).drop_last(),
                    )[k],
            decreases chars@.len() - i,
        {
            let c = chars[i];
            let ghost ls = line_scan(chars@.take(i as int));
            let ghost prev = devices@;
            proof {
                assert(chars@.take(i + 1).drop_last() =~= chars@.take(i as int));
                assert(chars@.take(i + 1).last() == c);
            }
            if c == '\n' {
                let d = parse_line_at(
                    &chars,
                    line_start,
                    i,
                    &header,
                    &star,
                    &product_key,
                    &model_key,
                    &device_key,
                );
                proof {
                    let ls2 = line_scan(chars@.take(i + 1));
                    assert(ls2 == ls.push(Seq::<char>::empty()));
                    assert(ls2.drop_last() =~= ls);
                    assert(ls =~= ls.drop_last().push(ls.last()));
                    lemma_parse_lines_push(ls.drop_last(), ls.last());
                }
                match d {
                    Some(info) => {
                        devices.push(info);
                    },
                    None => {},
                }
                line_start = i + 1;
                proof {
                    assert(chars@.subrange(line_start as int, i + 1) =~= Seq::<char>::empty());
                    let target = spec_parse_lines(line_scan(chars@.take(i + 1)).drop_last());
                    assert(devices@.len() == target.len());
                    assert forall|k: int| 0 <= k < devices@.len() implies #[trigger] devices@[k]@
                        == target[k] by {
                        if k < prev.len() {
                            assert(devices@[k] == prev[k]);
                        }
                    }
                }
            } else {
                proof {
                    let ls2 = line_scan(chars@.take(i + 1));
                    assert(ls2 == ls.update(ls.len() - 1, ls.last().push(c)));
                    assert(ls2.drop_last() =~= ls.drop_last());
                    assert(ls2.last() =~= chars@.subrange(line_start as int, i + 1));
                }
            }
            i = i + 1;
        }
        let ghost prev = devices@;
        let d = parse_line_at(
            &chars,
            line_start,
            chars.len(),
            &header,
            &star,
            &product_key,
            &model_key,
            &device_key,
        );
        proof {
            let ls = line_scan(chars@.take(i as int));
            assert(chars@.take(i as int) =~= chars@);
            assert(ls =~= ls.drop_last().push(ls.last()));
            lemma_parse_lines_push(ls.drop_last(), ls.last());
        }
        match d {
            Some(info) => {
                devices.push(info);
            },
            None => {},
        }
        proof {
            let target = spec_parse_adb_devices(output@);
            assert forall|k: int| 0 <= k < devices@.len() implies #[trigger] devices@[k]@
                == target[k] by {
                if k < prev.len() {
                    assert(devices@[k] == prev[k]);
                }
            }
        }
        devices
    }
}

// ---------------------------------------------------------------------------
// Arguments of the adb invocations
// ---------------------------------------------------------------------------
/// The receive port that the tunnels carry.
pub const DEFAULT_RECEIVE_PORT: u16 = 9876;

/// The port of the phone's hotspot metadata service.
pub const DEFAULT_CONTROL_PORT: u16 = 9875;

/// `tcp:<port>`.
pub open spec fn tcp_spec(port: u16) -> Seq<char> {
    seq!['t', 'c', 'p', ':'] + decimal(port as nat)
}

/// The adb port specification `tcp:<port>`.
pub fn tcp_arg(port: u16) -> (s: String)
    ensures
        s@ == tcp_spec(port),
{
    let mut s = String::new();
    append(&mut s, "tcp:");
    push_decimal(&mut s, port as u64);
    proof {
        reveal_strlit("tcp:");
        assert(s@ =~= tcp_spec(port));
    }
    s
}

fn arg(s: &str) -> (r: String)
    ensures
        r@ == s@,
{
    s.to_owned()
}

/// Arguments of `adb -s <serial> forward tcp:<local> tcp:<remote>`.
pub fn adb_forward_args(serial: &str, local_port: u16, remote_port: u16) -> (args: Vec<String>)
    ensures
        texts(args@) == seq!["-s"@, serial@, "forward"@, tcp_spec(local_port), tcp_spec(remote_port)],
{
    let args = vec![arg("-s"), arg(serial), arg("forward"), tcp_arg(local_port), tcp_arg(remote_port)];
    proof {
        assert(texts(args@) =~= seq!["-s"@, serial@, "forward"@, tcp_spec(local_port), tcp_spec(remote_port)]);
    }
    args
}

/// Arguments of `adb -s <serial> forward --remove tcp:<local>`.
pub fn adb_forward_remove_args(serial: &str, local_port: u16) -> (args: Vec<String>)
    ensures
        texts(args@) == seq!["-s"@, serial@, "forward"@, "--remove"@, tcp_spec(local_port)],
{
    let args = vec![arg("-s"), arg(serial), arg("forward"), arg("--remove"), tcp_arg(local_port)];
    proof {
        assert(texts(args@) =~= seq!["-s"@, serial@, "forward"@, "--remove"@, tcp_spec(local_port)]);
    }
    args
}

/// Arguments of `adb -s <serial> reverse tcp:<remote> tcp:<local>`.
pub fn adb_reverse_args(serial: &str, remote_port: u16, local_port: u16) -> (args: Vec<String>)
    ensures
        texts(args@) == seq!["-s"@, serial@, "reverse"@, tcp_spec(remote_port), tcp_spec(local_port)],
{
    let args = vec![arg("-s"), arg(serial), arg("reverse"), tcp_arg(remote_port), tcp_arg(local_port)];
    proof {
        assert(texts(args@) =~= seq!["-s"@, serial@, "reverse"@, tcp_spec(remote_port), tcp_spec(local_port)]);
    }
    args
}

/// Arguments of `adb -s <serial> reverse --remove tcp:<remote>`.
pub fn adb_reverse_remove_args(serial: &str, remote_port: u16) -> (args: Vec<String>)
    ensures
        texts(args@) == seq!["-s"@, serial@, "reverse"@, "--remove"@, tcp_spec(remote_port)],
{
    let args = vec![arg("-s"), arg(serial), arg("reverse"), arg("--remove"), tcp_arg(remote_port)];
    proof {
        assert(texts(args@) =~= seq!["-s"@, serial@, "reverse"@, "--remove"@, tcp_spec(remote_port)]);
    }
    args
}

/// The two invocations that deliver an intent action to the phone app: a
/// foreground start of its main activity, then a broadcast to its package.
pub fn android_action_args(serial: &str, action: &str) -> (args: (Vec<String>, Vec<String>))
    ensures
        texts(args.0@) == seq![
            "-s"@, serial@, "shell"@, "am"@, "start"@, "-n"@, "com.turbotransfer/.MainActivity"@,
            "-a"@, action@,
        ],
        texts(args.1@) == seq![
            "-s"@, serial@, "shell"@, "am"@, "broadcast"@, "-a"@, action@, "-p"@,
            "com.turbotransfer"@, "--receiver-include-background"@,
        ],
{
    let start = vec![
        arg("-s"), arg(serial), arg("shell"), arg("am"), arg("start"), arg("-n"),
        arg("com.turbotransfer/.MainActivity"), arg("-a"), arg(action),
    ];
    let broadcast = vec![
        arg("-s"), arg(serial), arg("shell"), arg("am"), arg("broadcast"), arg("-a"), arg(action),
        arg("-p"), arg("com.turbotransfer"), arg("--receiver-include-background"),
    ];
    proof {
        assert(texts(start@) =~= seq![
            "-s"@, serial@, "shell"@, "am"@, "start"@, "-n"@, "com.turbotransfer/.MainActivity"@,
            "-a"@, action@,
        ]);
        assert(texts(broadcast@) =~= seq![
            "-s"@, serial@, "shell"@, "am"@, "broadcast"@, "-a"@, action@, "-p"@,
            "com.turbotransfer"@, "--receiver-include-background"@,
        ]);
    }
    (start, broadcast)
}

/// Arguments of a plain broadcast of `action` to the phone.
pub fn android_broadcast_args(serial: &str, action: &str) -> (args: Vec<String>)
    ensures
        texts(args@) == seq!["-s"@, serial@, "shell"@, "am"@, "broadcast"@, "-a"@, action@],
{
    let args = vec![arg("-s"), arg(serial), arg("shell"), arg("am"), arg("broadcast"), arg("-a"), arg(action)];
    proof {
        assert(texts(args@) =~= seq!["-s"@, serial@, "shell"@, "am"@, "broadcast"@, "-a"@, action@]);
    }
    args
}

/// The serial selector: `-s <serial>` when a serial is given, nothing otherwise.
pub open spec fn serial_prefix(serial: Option<Seq<char>>) -> Seq<Seq<char>> {
    match serial {
        Some(s) => seq!["-s"@, s],
        None => Seq::empty(),
    }
}

fn push_args(v: &mut Vec<String>, words: &[&str])
    ensures
        texts(final(v)@) == texts(old(v)@) + Seq::new(words@.len(), |i: int| words@[i]@),
{
    let ghost start = texts(v@);
    let mut i: usize = 0;
    while i < words.len()
        invariant
            i <= words@.len(),
            texts(v@) == start + Seq::new(i as nat, |k: int| words@[k]@),
        decreases words@.len() - i,
    {
        let ghost before = v@;
        let a = arg(words[i]);
        v.push(a);
        i = i + 1;
        proof {
            let want = start + Seq::new(i as nat, |k: int| words@[k]@);
            let prev = start + Seq::new((i - 1) as nat, |k: int| words@[k]@);
            assert(texts(before) == prev);
            assert(v@ == before.push(a));
            assert forall|k: int| 0 <= k < v@.len() implies texts(v@)[k] == want[k] by {
                if k < before.len() {
                    assert(v@[k] == before[k]);
                    assert(texts(before)[k] == prev[k]);
                    if k < start.len() {
                        assert(prev[k] == start[k]);
                        assert(want[k] == start[k]);
                    } else {
                        assert(prev[k] == words@[k - start.len()]@);
                        assert(want[k] == words@[k - start.len()]@);
                    }
                } else {
                    assert(v@[k] == a);
                    assert(k - start.len() == i - 1);
                    assert(want[k] == words@[i - 1]@);
                }
            }
            assert(texts(v@) =~= want);
        }
    }
}

/// The two invocations that start (`start`) or stop USB tethering: the tethering
/// command, then the switch of the USB function to RNDIS (or back to MTP).
pub fn tethering_args(serial: Option<&str>, start: bool) -> (args: (Vec<String>, Vec<String>))
    ensures
        ({
            let sel = serial_prefix(
                match serial {
                    Some(s) => Some(s@),
                    None => None,
                },
            );
            &&& texts(args.0@) == sel + seq![
                "shell"@, "cmd"@, "connectivity"@, "tether"@, if start {
                    "start-tethering"@
                } else {
                    "stop-tethering"@
                }, "usb"@,
            ]
            &&& texts(args.1@) == sel + seq![
                "shell"@, "svc"@, "usb"@, "setFunctions"@, if start {
                    "rndis"@
                } else {
                    "mtp"@
                },
            ]
        }),
{
    let mut first: Vec<String> = Vec::new();
    let mut second: Vec<String> = Vec::new();
    match serial {
        Some(s) => {
            push_args(&mut first, &["-s", s]);
            push_args(&mut second, &["-s", s]);
        },
        None => {},
    }
    let verb = if start {
        "start-tethering"
    } else {
        "stop-tethering"
    };
    let function = if start {
        "rndis"
    } else {
        "mtp"
    };
    let ghost f0 = texts(first@);
    let ghost s0 = texts(second@);
    push_args(&mut first, &["shell", "cmd", "connectivity", "tether", verb, "usb"]);
    push_args(&mut second, &["shell", "svc", "usb", "setFunctions", function]);
    proof {
        let sel = serial_prefix(
            match serial {
                Some(s) => Some(s@),
                None => None,
            },
        );
        assert(f0 =~= sel);
        assert(s0 =~= sel);
        assert(texts(first@) =~= sel + seq![
            "shell"@, "cmd"@, "connectivity"@, "tether"@, if start {
                "start-tethering"@
            } else {
                "stop-tethering"@
            }, "usb"@,
        ]);
        assert(texts(second@) =~= sel + seq![
            "shell"@, "svc"@, "usb"@, "setFunctions"@, if start {
                "rndis"@
            } else {
                "mtp"@
            },
        ]);
    }
    (first, second)
}

/// The serials whose default tunnels are cleaned up: the given one, else every
/// listed device in the `device` state, in list order.
pub open spec fn cleanup_serials_spec(serial: Option<Seq<char>>, devices: Seq<AdbDeviceView>) -> Seq<Seq<char>>
    decreases devices.len(),
{
    match serial {
        Some(s) => seq![s],
        None => if devices.len() == 0 {
            Seq::empty()
        } else {
            let rest = cleanup_serials_spec(None, devices.drop_last());
            if devices.last().state == "device"@ {
                rest.push(devices.last().serial)
            } else {
                rest
            }
        },
    }
}

/// Chooses the devices whose default adb tunnels are removed.
pub fn cleanup_serials(serial: Option<&str>, devices: &Vec<AdbDeviceInfo>) -> (serials: Vec<String>)
    ensures
        texts(serials@) == cleanup_serials_spec(
            match serial {
                Some(s) => Some(s@),
                None => None,
            },
            devices@.map_values(|d: AdbDeviceInfo| d@),
        ),
{
    match serial {
        Some(s) => {
            let v = vec![arg(s)];
            proof {
                assert(texts(v@) =~= seq![s@]);
            }
            v
        },
        None => {
            let mut out: Vec<String> = Vec::new();
            let ghost views = devices@.map_values(|d: AdbDeviceInfo| d@);
            let mut i: usize = 0;
            while i < devices.len()
                invariant
                    i <= devices@.len(),
                    serial is None,
                    views == devices@.map_values(|d: AdbDeviceInfo| d@),
                    texts(out@) == cleanup_serials_spec(None, views.take(i as int)),
                decreases devices@.len() - i,
            {
                let d = &devices[i];
                let is_device = same_text(d.state.as_str(), "device");
                proof {
                    reveal_strlit("device");
                    let t = views.take(i + 1);
                    assert(t.drop_last() =~= views.take(i as int));
                    assert(t.last() == d@);
                }
                let ghost before = out@;
                if is_device {
                    out.push(d.serial.clone());
                    proof {
                        let want = cleanup_serials_spec(None, views.take(i as int)).push(d.serial@);
                        assert forall|k: int| 0 <= k < out@.len() implies texts(out@)[k] == want[k] by {
                            if k < before.len() {
                                assert(out@[k] == before[k]);
                                assert(texts(before)[k] == texts(out@)[k]);
                            }
                        }
                        assert(texts(out@) =~= want);
                    }
                }
                i = i + 1;
            }
            proof {
                assert(views.take(i as int) =~= views);
            }
            out
        },
    }
}

} // verus!
