//! The decisions of starting and resuming a send: which record to resume, how the
//! peer addresses are read, how many streams to open and how the channels are
//! named. Connecting, spawning and disk access happen in the driver.
use vstd::prelude::*;

use crate::benchmark::types::{TransferConfigOverride, WindowPreset};
use crate::manifest::schema::{TransferMeta, TransferStatus};
use crate::text::{
    append, chars_of, contains_text, has_infix, has_prefix, push_char, push_decimal, decimal,
    skip_ws_backward, skip_ws_forward, string_of, texts, trim,
};
use crate::transfer::discovery::TransportPreference;

verus! {

/// Default loopback address of the receiver (through the adb tunnel).
pub const DEFAULT_LOOPBACK_ADDR: &'static str = "127.0.0.1:9876";

/// Default listen address of a receiver.
pub const DEFAULT_LISTEN_ADDR: &'static str = "0.0.0.0:9876";

/// Parallel Wi-Fi streams when no calibration says otherwise.
pub const DEFAULT_WIFI_PARALLEL_STREAMS: usize = 4;

/// The number of parallel Wi-Fi streams: the override, else four; at least one.
pub fn wifi_stream_count(override_count: Option<usize>) -> (n: usize)
    ensures
        n == match override_count {
            Some(c) => if c >= 1 {
                c
            } else {
                1
            },
            None => 4,
        },
{
    let c = match override_count {
        Some(c) => c,
        None => DEFAULT_WIFI_PARALLEL_STREAMS,
    };
    if c >= 1 {
        c
    } else {
        1
    }
}

/// Chunk size of a send on the fast USB or combined paths when no calibration
/// chose one.
pub const HIGH_SPEED_CHUNK_SIZE: u32 = 4194304;

/// Chunk size of a send on the other paths when no calibration chose one.
pub const DEFAULT_CHUNK_SIZE: u32 = 1048576;

/// The chunk size of a send: the calibrated one, else 4 MiB on a high-speed path
/// and 1 MiB otherwise.
pub fn chunk_size_for(calibrated: Option<u32>, high_speed: bool) -> (c: u32)
    ensures
        c == match calibrated {
            Some(k) => k,
            None => if high_speed {
                HIGH_SPEED_CHUNK_SIZE
            } else {
                DEFAULT_CHUNK_SIZE
            },
        },
{
    match calibrated {
        Some(k) => k,
        None => if high_speed {
            HIGH_SPEED_CHUNK_SIZE
        } else {
            DEFAULT_CHUNK_SIZE
        },
    }
}

/// The overrides a saved calibration contributes: stream count, chunk size and
/// window preset, none without a calibration.
pub fn calibration_overrides(saved: Option<TransferConfigOverride>) -> (o: (
    Option<usize>,
    Option<u32>,
    Option<WindowPreset>,
))
    ensures
        o == match saved {
            Some(c) => (c.wifi_stream_count, c.chunk_size_bytes, c.wifi_window_preset),
            None => (None, None, None),
        },
{
    match saved {
        Some(c) => (c.wifi_stream_count, c.chunk_size_bytes, c.wifi_window_preset),
        None => (None, None, None),
    }
}

/// Whether the preference includes the USB path, which favours large chunks.
pub fn is_high_speed(pref: TransportPreference) -> (b: bool)
    ensures
        b == (pref == TransportPreference::UsbOnly || pref == TransportPreference::Combined),
{
    match pref {
        TransportPreference::UsbOnly => true,
        TransportPreference::Combined => true,
        _ => false,
    }
}

/// The transport name shown while connecting.
pub fn connecting_label(pref: TransportPreference) -> (s: &'static str)
    ensures
        s@ == match pref {
            TransportPreference::UsbOnly => "USB (Connecting...)"@,
            TransportPreference::WifiDirectOnly => "Wi-Fi Direct (Connecting...)"@,
            TransportPreference::Combined => "Multipath (Connecting...)"@,
            TransportPreference::Automatic => "Connecting..."@,
        },
{
    match pref {
        TransportPreference::UsbOnly => "USB (Connecting...)",
        TransportPreference::WifiDirectOnly => "Wi-Fi Direct (Connecting...)",
        TransportPreference::Combined => "Multipath (Connecting...)",
        TransportPreference::Automatic => "Connecting...",
    }
}

/// The names of the channels joined by ` + `.
pub open spec fn joined(names: Seq<Seq<char>>) -> Seq<char>
    decreases names.len(),
{
    if names.len() == 0 {
        Seq::empty()
    } else if names.len() == 1 {
        names[0]
    } else {
        joined(names.drop_last()) + " + "@ + names.last()
    }
}

/// The name of a connected transfer: the joined channel names marked as multipath
/// when there are several, the one name, or `TCP Transport` when none is known.
pub open spec fn spec_transport_name(names: Seq<Seq<char>>) -> Seq<char> {
    if names.len() > 1 {
        joined(names) + " (Multipath Active)"@
    } else if names.len() == 1 {
        names[0]
    } else {
        "TCP Transport"@
    }
}

/// Names the connected transfer after its channels.
pub fn transport_display_name(names: &Vec<String>) -> (s: String)
    ensures
        s@ == spec_transport_name(texts(names@)),
{
    let mut s = String::new();
    if names.len() == 0 {
        append(&mut s, "TCP Transport");
        return s;
    }
    append(&mut s, names[0].as_str());
    if names.len() == 1 {
        return s;
    }
    let mut i: usize = 1;
    proof {
        assert(texts(names@).take(1) =~= seq![names@[0]@]);
        assert(joined(texts(names@).take(1)) == names@[0]@);
    }
    while i < names.len()
        invariant
            1 <= i <= names@.len(),
            s@ == joined(texts(names@).take(i as int)),
        decreases names@.len() - i,
    {
        append(&mut s, " + ");
        append(&mut s, names[i].as_str());
        proof {
            let t = texts(names@).take(i + 1);
            assert(t.drop_last() =~= texts(names@).take(i as int));
            assert(t.last() == names@[i as int]@);
        }
        i = i + 1;
    }
    proof {
        assert(texts(names@).take(i as int) =~= texts(names@));
    }
    append(&mut s, " (Multipath Active)");
    s
}

/// `base (Stream #k)`.
pub open spec fn spec_stream_label(base: Seq<char>, k: u64) -> Seq<char> {
    base + " (Stream #"@ + decimal(k as nat) + ")"@
}

/// The name of the `k`-th parallel stream of a channel.
pub fn stream_label(base: &str, k: u64) -> (s: String)
    ensures
        s@ == spec_stream_label(base@, k),
{
    let mut s = String::new();
    append(&mut s, base);
    append(&mut s, " (Stream #");
    push_decimal(&mut s, k);
    append(&mut s, ")");
    proof {
        assert(s@ =~= spec_stream_label(base@, k));
    }
    s
}

/// The part of an address before its first `#` or `?`.
pub open spec fn before_marker(s: Seq<char>) -> Seq<char>
    decreases s.len(),
{
    if s.len() == 0 {
        Seq::empty()
    } else if s[0] == '#' || s[0] == '?' {
        Seq::empty()
    } else {
        seq![s[0]] + before_marker(s.drop_first())
    }
}

proof fn lemma_before_marker_prefix(s: Seq<char>, i: int)
    requires
        0 <= i <= s.len(),
        forall|k: int| 0 <= k < i ==> s[k] != '#' && s[k] != '?',
        i == s.len() || s[i] == '#' || s[i] == '?',
    ensures
        before_marker(s) == s.take(i),
    decreases s.len(),
{
    if s.len() > 0 && i > 0 {
        lemma_before_marker_prefix(s.drop_first(), i - 1);
        assert(s.take(i) =~= seq![s[0]] + s.drop_first().take(i - 1));
    } else if i == 0 {
        assert(s.take(0) =~= Seq::<char>::empty());
    }
}

/// The address to connect to: the text before any `#` or `?`, trimmed.
pub fn clean_address(addr: &str) -> (s: String)
    ensures
        s@ == trim(before_marker(addr@)),
{
    let chars = chars_of(addr);
    let mut end: usize = 0;
    while end < chars.len()
        invariant
            end <= chars@.len(),
            chars@ == addr@,
            forall|k: int| 0 <= k < end ==> chars@[k] != '#' && chars@[k] != '?',
        ensures
            end <= chars@.len(),
            chars@ == addr@,
            forall|k: int| 0 <= k < end ==> chars@[k] != '#' && chars@[k] != '?',
            end == chars@.len() || chars@[end as int] == '#' || chars@[end as int] == '?',
        decreases chars@.len() - end,
    {
        if chars[end] == '#' || chars[end] == '?' {
            break;
        }
        end = end + 1;
    }
    proof {
        lemma_before_marker_prefix(addr@, end as int);
        assert(chars@.subrange(0, end as int) =~= addr@.take(end as int));
    }
    let i = skip_ws_forward(&chars, 0, end);
    let j = skip_ws_backward(&chars, i, end);
    string_of(&chars, i, j)
}

/// The lower-case form of a text, as `str::to_lowercase` computes it.
pub uninterp spec fn spec_lowercase(s: Seq<char>) -> Seq<char>;

/// Calls `str::to_lowercase`; the Unicode case mapping is only named.
#[verifier::external_body]
pub(crate) fn lowercase(s: &str) -> (r: String)
    ensures
        r@ == spec_lowercase(s@),
{
    s.to_lowercase()
}

/// An address of the USB path: the adb tunnel on the loopback interface, anything
/// marked `usb`, or an address of the phone's USB tethering networks.
pub open spec fn spec_is_usb_address(a: Seq<char>) -> bool {
    has_infix(a, "127.0.0.1"@) || has_infix(a, "localhost"@) || has_infix(spec_lowercase(a), "usb"@)
        || has_prefix(a, "10.125."@) || has_prefix(a, "10.104."@) || has_prefix(a, "192.168.42."@)
}

pub(crate) fn text_starts_with(s: &str, p: &str) -> (b: bool)
    ensures
        b == has_prefix(s@, p@),
{
    let x = chars_of(s);
    let y = chars_of(p);
    proof {
        assert(x@.subrange(0, x@.len() as int) =~= x@);
    }
    crate::text::starts_with_at(&x, 0, x.len(), &y)
}

/// Whether a peer address belongs to the USB path.
pub fn is_usb_address(a: &str) -> (b: bool)
    ensures
        b == spec_is_usb_address(a@),
{
    let x = chars_of(a);
    proof {
        assert(x@.subrange(0, x@.len() as int) =~= a@);
    }
    let low = lowercase(a);
    contains_text(a, "127.0.0.1") || contains_text(a, "localhost") || contains_text(
        low.as_str(),
        "usb",
    ) || text_starts_with(a, "10.125.") || text_starts_with(a, "10.104.") || text_starts_with(
        a,
        "192.168.42.",
    )
}

/// An address on the loopback interface (the adb tunnel's end).
pub open spec fn spec_is_loopback_address(a: Seq<char>) -> bool {
    has_infix(a, "127.0.0.1"@) || has_infix(a, "localhost"@)
}

/// Whether an address names the loopback interface.
pub fn is_loopback_address(a: &str) -> (b: bool)
    ensures
        b == spec_is_loopback_address(a@),
{
    contains_text(a, "127.0.0.1") || contains_text(a, "localhost")
}

/// Whether an explicit address list points at the loopback interface or is marked
/// `usb`; a combined connection then probes no Wi-Fi hotspot.
pub fn is_explicit_loopback(address: Option<&str>) -> (b: bool)
    ensures
        b == match address {
            Some(a) => spec_is_loopback_address(a@) || has_infix(spec_lowercase(a@), "usb"@),
            None => false,
        },
{
    match address {
        Some(a) => {
            let low = lowercase(a);
            is_loopback_address(a) || contains_text(low.as_str(), "usb")
        },
        None => false,
    }
}

/// Whether a cleaned USB address goes through the adb tunnel (one stream) rather than
/// a tethered network (two streams).
pub fn usb_stream_count(clean_addr: &str) -> (n: usize)
    ensures
        n == if has_infix(clean_addr@, "127.0.0.1"@) || has_infix(clean_addr@, "localhost"@) {
            1usize
        } else {
            2usize
        },
{
    if contains_text(clean_addr, "127.0.0.1") || contains_text(clean_addr, "localhost") {
        1
    } else {
        2
    }
}

/// The comma-separated parts of `s`, in order (an empty text has one empty part).
pub open spec fn comma_parts(s: Seq<char>) -> Seq<Seq<char>>
    decreases s.len(),
{
    if s.len() == 0 {
        seq![Seq::<char>::empty()]
    } else {
        let p = comma_parts(s.drop_last());
        if s.last() == ',' {
            p.push(Seq::<char>::empty())
        } else {
            p.update(p.len() - 1, p.last().push(s.last()))
        }
    }
}

proof fn lemma_comma_parts_nonempty(s: Seq<char>)
    ensures
        comma_parts(s).len() >= 1,
    decreases s.len(),
{
    if s.len() > 0 {
        lemma_comma_parts_nonempty(s.drop_last());
    }
}

/// The trimmed, non-empty parts of a list of texts.
pub open spec fn nonempty_trimmed(parts: Seq<Seq<char>>) -> Seq<Seq<char>>
    decreases parts.len(),
{
    if parts.len() == 0 {
        Seq::empty()
    } else {
        let rest = nonempty_trimmed(parts.drop_last());
        let t = trim(parts.last());
        if t.len() > 0 {
            rest.push(t)
        } else {
            rest
        }
    }
}

/// Splits an explicit address list at commas into its trimmed, non-empty entries.
pub fn split_address_list(list: &str) -> (out: Vec<String>)
    ensures
        texts(out@) == nonempty_trimmed(comma_parts(list@)),
{
    let chars = chars_of(list);
    let mut bounds: Vec<(usize, usize)> = Vec::new();
    let mut start: usize = 0;
    let mut k: usize = 0;
    while k < chars.len()
        invariant
            chars@ == list@,
            start <= k <= chars@.len(),
            bounds@.len() + 1 == comma_parts(chars@.take(k as int)).len(),
            forall|q: int| 0 <= q < bounds@.len() ==> #[trigger] bounds@[q].0 <= bounds@[q].1 <= chars@.len()
                && chars@.subrange(bounds@[q].0 as int, bounds@[q].1 as int) == comma_parts(chars@.take(k as int))[q],
            chars@.subrange(start as int, k as int) == comma_parts(chars@.take(k as int)).last(),
        decreases chars@.len() - k,
    {
        let ghost t0 = chars@.take(k as int);
        let ghost t1 = chars@.take(k + 1);
        proof {
            assert(t1.drop_last() =~= t0);
            assert(t1.last() == chars@[k as int]);
            lemma_comma_parts_nonempty(t0);
        }
        if chars[k] == ',' {
            bounds.push((start, k));
            start = k + 1;
            proof {
                assert(chars@.subrange(start as int, (k + 1) as int) =~= Seq::<char>::empty());
            }
        } else {
            proof {
                assert(chars@.subrange(start as int, (k + 1) as int) =~= chars@.subrange(start as int, k as int).push(chars@[k as int]));
            }
        }
        k = k + 1;
    }
    bounds.push((start, chars.len()));
    proof {
        assert(chars@.take(chars@.len() as int) =~= chars@);
        assert(bounds@.len() == comma_parts(list@).len());
    }
    let mut out: Vec<String> = Vec::new();
    let mut q: usize = 0;
    while q < bounds.len()
        invariant
            chars@ == list@,
            q <= bounds@.len(),
            bounds@.len() == comma_parts(list@).len(),
            forall|r: int| 0 <= r < bounds@.len() ==> #[trigger] bounds@[r].0 <= bounds@[r].1 <= chars@.len()
                && chars@.subrange(bounds@[r].0 as int, bounds@[r].1 as int) == comma_parts(list@)[r],
            texts(out@) == nonempty_trimmed(comma_parts(list@).take(q as int)),
        decreases bounds@.len() - q,
    {
        let (a, b) = bounds[q];
        let i = skip_ws_forward(&chars, a, b);
        let j = skip_ws_backward(&chars, i, b);
        proof {
            let p = comma_parts(list@).take(q + 1);
            assert(p.drop_last() =~= comma_parts(list@).take(q as int));
            assert(p.last() == chars@.subrange(a as int, b as int));
            assert(chars@.subrange(a as int, b as int).subrange(0, (b - a) as int) =~= chars@.subrange(a as int, b as int));
        }
        if i < j {
            let ghost before = out@;
            let piece = string_of(&chars, i, j);
            out.push(piece);
            proof {
                let want = nonempty_trimmed(comma_parts(list@).take(q as int)).push(piece@);
                assert forall|r: int| 0 <= r < out@.len() implies texts(out@)[r] == want[r] by {
                    if r < before.len() {
                        assert(out@[r] == before[r]);
                        assert(texts(before)[r] == texts(out@)[r]);
                    }
                }
                assert(texts(out@) =~= want);
            }
        }
        q = q + 1;
    }
    proof {
        assert(comma_parts(list@).take(q as int) =~= comma_parts(list@));
    }
    out
}

/// `a` comes after `b` in lexicographic character order.
pub open spec fn text_after(a: Seq<char>, b: Seq<char>) -> bool
    decreases a.len(),
{
    if a.len() == 0 {
        false
    } else if b.len() == 0 {
        true
    } else if a[0] != b[0] {
        (a[0] as u32) > (b[0] as u32)
    } else {
        text_after(a.drop_first(), b.drop_first())
    }
}

fn chars_after(a: &Vec<char>, b: &Vec<char>, i: usize) -> (r: bool)
    requires
        i <= a@.len(),
        i <= b@.len(),
    ensures
        r == text_after(a@.skip(i as int), b@.skip(i as int)),
    decreases a@.len() - i,
{
    if i == a.len() {
        return false;
    }
    if i == b.len() {
        return true;
    }
    proof {
        assert(a@.skip(i as int)[0] == a@[i as int]);
        assert(b@.skip(i as int)[0] == b@[i as int]);
        assert(a@.skip(i as int).drop_first() =~= a@.skip(i + 1));
        assert(b@.skip(i as int).drop_first() =~= b@.skip(i + 1));
    }
    if a[i] != b[i] {
        return (a[i] as u32) > (b[i] as u32);
    }
    chars_after(a, b, i + 1)
}

/// Which stored record a resume picks: with a target id, the first record of that
/// id; otherwise the unfinished record created last (the first of equals), by the
/// RFC 3339 creation times compared as text.
pub open spec fn resume_choice(metas: Seq<TransferMeta>, target: Option<u128>) -> Option<int>
    decreases metas.len(),
{
    if metas.len() == 0 {
        None
    } else {
        let prev = resume_choice(metas.drop_last(), target);
        let n = metas.len() - 1;
        let m = metas.last();
        match target {
            Some(t) => if prev is Some {
                prev
            } else if m.transfer_id == t {
                Some(n)
            } else {
                None
            },
            None => if m.status == TransferStatus::Completed {
                prev
            } else {
                match prev {
                    None => Some(n),
                    Some(p) => if text_after(m.created_at@, metas[p].created_at@) {
                        Some(n)
                    } else {
                        prev
                    },
                }
            },
        }
    }
}

proof fn lemma_resume_choice_in_range(metas: Seq<TransferMeta>, target: Option<u128>)
    ensures
        resume_choice(metas, target) matches Some(i) ==> 0 <= i < metas.len(),
    decreases metas.len(),
{
    if metas.len() > 0 {
        lemma_resume_choice_in_range(metas.drop_last(), target);
    }
}

proof fn lemma_text_after_irreflexive(a: Seq<char>)
    ensures
        !text_after(a, a),
    decreases a.len(),
{
    if a.len() > 0 {
        lemma_text_after_irreflexive(a.drop_first());
    }
}

proof fn lemma_text_after_transitive(a: Seq<char>, b: Seq<char>, c: Seq<char>)
    requires
        text_after(a, b),
        text_after(b, c),
    ensures
        text_after(a, c),
    decreases a.len(),
{
    if c.len() > 0 && a[0] == b[0] && b[0] == c[0] {
        lemma_text_after_transitive(a.drop_first(), b.drop_first(), c.drop_first());
    }
}

/// Resuming without an id picks the newest unfinished record: every record whose
/// status is not `Completed` (paused, in progress, failed or cancelled) is a
/// candidate, the one picked is such a record, none created later (by its RFC 3339
/// creation time) is unfinished, and nothing is picked only when every record is
/// completed.
pub proof fn lemma_resume_picks_newest_unfinished(metas: Seq<TransferMeta>)
    ensures
        resume_choice(metas, None) is None <==> forall|i: int|
            0 <= i < metas.len() ==> (#[trigger] metas[i]).status == TransferStatus::Completed,
        resume_choice(metas, None) matches Some(k) ==> {
            &&& 0 <= k < metas.len()
            &&& metas[k].status != TransferStatus::Completed
            &&& forall|j: int|
                0 <= j < metas.len() && (#[trigger] metas[j]).status != TransferStatus::Completed
                    ==> !text_after(metas[j].created_at@, metas[k].created_at@)
        },
    decreases metas.len(),
{
    if metas.len() > 0 {
        let p = metas.drop_last();
        lemma_resume_picks_newest_unfinished(p);
        lemma_resume_choice_in_range(p, None);
        let n = metas.len() - 1;
        let m = metas.last();
        assert(metas[n] == m);
        assert forall|i: int| 0 <= i < p.len() implies (#[trigger] p[i]) == metas[i] by {}
        lemma_text_after_irreflexive(m.created_at@);
        if m.status == TransferStatus::Completed {
            assert(resume_choice(metas, None) == resume_choice(p, None));
            if forall|i: int| 0 <= i < p.len() ==> (#[trigger] p[i]).status == TransferStatus::Completed {
                assert forall|i: int| 0 <= i < metas.len() implies (#[trigger] metas[i]).status
                    == TransferStatus::Completed by {
                    if i < n {
                        assert(p[i] == metas[i]);
                    }
                }
            } else {
                let w = choose|i: int| 0 <= i < p.len() && (#[trigger] p[i]).status != TransferStatus::Completed;
                assert(metas[w].status != TransferStatus::Completed);
            }
            match resume_choice(p, None) {
                Some(q) => {
                    assert(p[q] == metas[q]);
                    assert forall|j: int|
                        0 <= j < metas.len() && (#[trigger] metas[j]).status
                            != TransferStatus::Completed implies !text_after(
                        metas[j].created_at@,
                        metas[q].created_at@,
                    ) by {
                        assert(j < n);
                        assert(p[j] == metas[j]);
                    }
                },
                None => {},
            }
        } else {
            assert(metas[n].status != TransferStatus::Completed);
            match resume_choice(p, None) {
                None => {
                    assert(resume_choice(metas, None) == Some(n));
                    assert forall|j: int|
                        0 <= j < metas.len() && (#[trigger] metas[j]).status
                            != TransferStatus::Completed implies !text_after(
                        metas[j].created_at@,
                        metas[n].created_at@,
                    ) by {
                        if j < n {
                            assert(p[j] == metas[j]);
                        }
                    }
                },
                Some(q) => {
                    assert(p[q] == metas[q]);
                    if text_after(m.created_at@, metas[q].created_at@) {
                        assert(resume_choice(metas, None) == Some(n));
                        assert forall|j: int|
                            0 <= j < metas.len() && (#[trigger] metas[j]).status
                                != TransferStatus::Completed implies !text_after(
                            metas[j].created_at@,
                            metas[n].created_at@,
                        ) by {
                            if j < n {
                                assert(p[j] == metas[j]);
                                if text_after(metas[j].created_at@, m.created_at@) {
                                    lemma_text_after_transitive(
                                        metas[j].created_at@,
                                        m.created_at@,
                                        metas[q].created_at@,
                                    );
                                }
                            }
                        }
                    } else {
                        assert(resume_choice(metas, None) == Some(q));
                        assert forall|j: int|
                            0 <= j < metas.len() && (#[trigger] metas[j]).status
                                != TransferStatus::Completed implies !text_after(
                            metas[j].created_at@,
                            metas[q].created_at@,
                        ) by {
                            if j < n {
                                assert(p[j] == metas[j]);
                            }
                        }
                    }
                },
            }
        }
    }
}

/// Among records created at the same time the earliest listed is resumed: no
/// unfinished record listed before the one picked without an id has its creation
/// time.
pub proof fn lemma_resume_prefers_first_of_equals(metas: Seq<TransferMeta>)
    ensures
        resume_choice(metas, None) matches Some(k) ==> forall|j: int|
            0 <= j < k && (#[trigger] metas[j]).status != TransferStatus::Completed
                ==> metas[j].created_at@ != metas[k].created_at@,
    decreases metas.len(),
{
    if metas.len() > 0 {
        let p = metas.drop_last();
        lemma_resume_prefers_first_of_equals(p);
        lemma_resume_picks_newest_unfinished(p);
        lemma_resume_choice_in_range(p, None);
        let n = metas.len() - 1;
        let m = metas.last();
        assert(metas[n] == m);
        match resume_choice(p, None) {
            None => {
                assert forall|j: int|
                    0 <= j < n && (#[trigger] metas[j]).status != TransferStatus::Completed implies false by {
                    assert(p[j] == metas[j]);
                }
            },
            Some(q) => {
                assert(p[q] == metas[q]);
                if m.status != TransferStatus::Completed && text_after(m.created_at@, metas[q].created_at@) {
                    assert forall|j: int|
                        0 <= j < n && (#[trigger] metas[j]).status
                            != TransferStatus::Completed implies metas[j].created_at@
                        != m.created_at@ by {
                        assert(p[j] == metas[j]);
                    }
                } else {
                    assert forall|j: int|
                        0 <= j < q && (#[trigger] metas[j]).status
                            != TransferStatus::Completed implies metas[j].created_at@
                        != metas[q].created_at@ by {
                        assert(p[j] == metas[j]);
                    }
                }
            },
        }
    }
}

/// Resuming a given id picks the first record of that id, and nothing only when
/// no record has it.
pub proof fn lemma_resume_picks_first_with_id(metas: Seq<TransferMeta>, id: u128)
    ensures
        resume_choice(metas, Some(id)) matches Some(k) ==> 0 <= k < metas.len()
            && metas[k].transfer_id == id && forall|j: int|
            0 <= j < k ==> (#[trigger] metas[j]).transfer_id != id,
        resume_choice(metas, Some(id)) is None <==> forall|j: int|
            0 <= j < metas.len() ==> (#[trigger] metas[j]).transfer_id != id,
    decreases metas.len(),
{
    if metas.len() > 0 {
        let p = metas.drop_last();
        lemma_resume_picks_first_with_id(p, id);
        lemma_resume_choice_in_range(p, Some(id));
        let n = metas.len() - 1;
        assert(metas[n] == metas.last());
        assert forall|j: int| 0 <= j < p.len() implies (#[trigger] p[j]) == metas[j] by {}
        match resume_choice(p, Some(id)) {
            Some(q) => {
                assert(p[q] == metas[q]);
                assert forall|j: int| 0 <= j < q implies (#[trigger] metas[j]).transfer_id != id by {
                    assert(p[j] == metas[j]);
                }
            },
            None => {
                assert forall|j: int| 0 <= j < n implies (#[trigger] metas[j]).transfer_id != id by {
                    assert(p[j] == metas[j]);
                }
            },
        }
    }
}

/// Picks the stored record to resume among `metas` (see `resume_choice`).
pub fn find_resumable_transfer(metas: &Vec<TransferMeta>, target: Option<u128>) -> (i: Option<usize>)
    ensures
        match i {
            Some(k) => resume_choice(metas@, target) == Some(k as int),
            None => resume_choice(metas@, target) is None,
        },
{
    let mut best: Option<usize> = None;
    let mut k: usize = 0;
    while k < metas.len()
        invariant
            k <= metas@.len(),
            match best {
                Some(b) => resume_choice(metas@.take(k as int), target) == Some(b as int) && b < k,
                None => resume_choice(metas@.take(k as int), target) is None,
            },
        decreases metas@.len() - k,
    {
        let m = &metas[k];
        proof {
            let t = metas@.take(k + 1);
            assert(t.drop_last() =~= metas@.take(k as int));
            assert(t.last() == metas@[k as int]);
        }
        match target {
            Some(t) => {
                if best.is_none() && m.transfer_id == t {
                    best = Some(k);
                }
            },
            None => {
                if m.status != TransferStatus::Completed {
                    match best {
                        None => {
                            best = Some(k);
                        },
                        Some(b) => {
                            let x = chars_of(m.created_at.as_str());
                            let y = chars_of(metas[b].created_at.as_str());
                            let newer = chars_after(&x, &y, 0);
                            proof {
                                assert(x@.skip(0) =~= x@);
                                assert(y@.skip(0) =~= y@);
                                assert(metas@.take(k + 1)[b as int] == metas@[b as int]);
                            }
                            if newer {
                                best = Some(k);
                            }
                        },
                    }
                }
            },
        }
        k = k + 1;
    }
    proof {
        assert(metas@.take(k as int) =~= metas@);
    }
    best
}

/// How a finished sending session leaves the transfer's status: completed on
/// success; unchanged after a pause or cancel, which the control request already
/// recorded; failed otherwise.
#[derive(Debug, Clone, Copy, PartialEq, Eq, Structural)]
pub enum SessionEnd {
    Succeeded,
    Paused,
    Cancelled,
    Failed,
}

/// The status to record when a sending session ends, if any.
pub fn status_after_session(end: SessionEnd) -> (s: Option<TransferStatus>)
    ensures
        s == match end {
            SessionEnd::Succeeded => Some(TransferStatus::Completed),
            SessionEnd::Paused => None,
            SessionEnd::Cancelled => None,
            SessionEnd::Failed => Some(TransferStatus::Failed),
        },
{
    match end {
        SessionEnd::Succeeded => Some(TransferStatus::Completed),
        SessionEnd::Paused => None,
        SessionEnd::Cancelled => None,
        SessionEnd::Failed => Some(TransferStatus::Failed),
    }
}

/// Length of chunk `cid` as a resumed transfer counts it: the last chunk (index
/// `total_chunks - 1`, or 0 when there are none) holds the remainder of the file
/// when that is not zero; every other chunk is `chunk_size` bytes.
pub open spec fn resumed_chunk_len(cid: int, total_chunks: u32, file_size: u64, chunk_size: u32) -> nat {
    let last: int = if total_chunks == 0 { 0 } else { total_chunks - 1 };
    let rem: nat = (file_size % (chunk_size as u64)) as nat;
    if cid == last && rem > 0 {
        rem
    } else {
        chunk_size as nat
    }
}

/// Bytes of the chunks `start..=end` (none when `end < start`).
pub open spec fn span_bytes(start: int, end: int, total_chunks: u32, file_size: u64, chunk_size: u32) -> nat
    decreases end - start + 1,
{
    if end < start {
        0
    } else {
        span_bytes(start, end - 1, total_chunks, file_size, chunk_size) + resumed_chunk_len(
            end,
            total_chunks,
            file_size,
            chunk_size,
        )
    }
}

/// The chunk count that a completed range adds: `end - start + 1`, and 1 for a
/// range whose end lies before its start.
pub open spec fn range_count(r: (u32, u32)) -> nat {
    (if r.1 >= r.0 {
        (r.1 - r.0) as nat
    } else {
        0nat
    }) + 1
}

/// Chunks already done according to the completed ranges of a stored record.
pub open spec fn resumed_chunks(ranges: Seq<(u32, u32)>) -> nat
    decreases ranges.len(),
{
    if ranges.len() == 0 {
        0
    } else {
        resumed_chunks(ranges.drop_last()) + range_count(ranges.last())
    }
}

/// Bytes already done according to the completed ranges of a stored record.
pub open spec fn resumed_bytes(ranges: Seq<(u32, u32)>, total_chunks: u32, file_size: u64, chunk_size: u32) -> nat
    decreases ranges.len(),
{
    if ranges.len() == 0 {
        0
    } else {
        resumed_bytes(ranges.drop_last(), total_chunks, file_size, chunk_size) + span_bytes(
            ranges.last().0 as int,
            ranges.last().1 as int,
            total_chunks,
            file_size,
            chunk_size,
        )
    }
}

proof fn lemma_span_monotone(start: int, a: int, b: int, total_chunks: u32, file_size: u64, chunk_size: u32)
    requires
        a <= b,
    ensures
        span_bytes(start, a, total_chunks, file_size, chunk_size) <= span_bytes(start, b, total_chunks, file_size, chunk_size),
    decreases b - a,
{
    if a < b {
        lemma_span_monotone(start, a, b - 1, total_chunks, file_size, chunk_size);
    }
}

proof fn lemma_resumed_prefix(ranges: Seq<(u32, u32)>, j: int, total_chunks: u32, file_size: u64, chunk_size: u32)
    requires
        0 <= j <= ranges.len(),
    ensures
        resumed_chunks(ranges.take(j)) <= resumed_chunks(ranges),
        resumed_bytes(ranges.take(j), total_chunks, file_size, chunk_size) <= resumed_bytes(ranges, total_chunks, file_size, chunk_size),
    decreases ranges.len(),
{
    if j == ranges.len() {
        assert(ranges.take(j) =~= ranges);
    } else {
        assert(ranges.take(j) =~= ranges.drop_last().take(j));
        lemma_resumed_prefix(ranges.drop_last(), j, total_chunks, file_size, chunk_size);
    }
}

/// The progress a resumed transfer starts from: the bytes and the chunk count that
/// the completed ranges of its stored record stand for.
pub fn resume_progress(ranges: &Vec<(u32, u32)>, total_chunks: u32, file_size: u64, chunk_size: u32) -> (r: (u64, u32))
    requires
        chunk_size > 0,
        resumed_chunks(ranges@) <= u32::MAX,
        resumed_bytes(ranges@, total_chunks, file_size, chunk_size) <= u64::MAX,
    ensures
        r.0 == resumed_bytes(ranges@, total_chunks, file_size, chunk_size),
        r.1 == resumed_chunks(ranges@),
{
    let last: u32 = if total_chunks == 0 {
        0
    } else {
        total_chunks - 1
    };
    let rem: u32 = (file_size % (chunk_size as u64)) as u32;
    let mut chunks: u32 = 0;
    let mut bytes: u64 = 0;
    let mut i: usize = 0;
    while i < ranges.len()
        invariant
            i <= ranges@.len(),
            chunk_size > 0,
            last as int == (if total_chunks == 0 { 0 } else { total_chunks - 1 }),
            rem as nat == (file_size % (chunk_size as u64)) as nat,
            resumed_chunks(ranges@) <= u32::MAX,
            resumed_bytes(ranges@, total_chunks, file_size, chunk_size) <= u64::MAX,
            chunks == resumed_chunks(ranges@.take(i as int)),
            bytes == resumed_bytes(ranges@.take(i as int), total_chunks, file_size, chunk_size),
        decreases ranges@.len() - i,
    {
        let (start, end) = ranges[i];
        let ghost t = ranges@.take(i + 1);
        proof {
            assert(t.drop_last() =~= ranges@.take(i as int));
            assert(t.last() == (start, end));
            lemma_resumed_prefix(ranges@, i + 1, total_chunks, file_size, chunk_size);
        }
        let count: u32 = if end >= start {
            end - start
        } else {
            0
        } + 1;
        chunks = chunks + count;
        let ghost base = bytes as nat;
        let mut cid: u64 = start as u64;
        while cid <= end as u64
            invariant
                start as u64 <= cid,
                cid == start as u64 || cid <= end as u64 + 1,
                chunk_size > 0,
                last as int == (if total_chunks == 0 { 0 } else { total_chunks - 1 }),
                rem as nat == (file_size % (chunk_size as u64)) as nat,
                base + span_bytes(start as int, end as int, total_chunks, file_size, chunk_size) <= u64::MAX,
                bytes == base + span_bytes(start as int, cid - 1, total_chunks, file_size, chunk_size),
            decreases end as u64 + 1 - cid,
        {
            proof {
                lemma_span_monotone(start as int, cid as int, end as int, total_chunks, file_size, chunk_size);
            }
            let len: u32 = if cid == last as u64 && rem > 0 {
                rem
            } else {
                chunk_size
            };
            bytes = bytes + len as u64;
            cid = cid + 1;
        }
        proof {
            if end < start {
                assert(span_bytes(start as int, end as int, total_chunks, file_size, chunk_size) == 0);
                assert(span_bytes(start as int, start - 1, total_chunks, file_size, chunk_size) == 0);
            }
        }
        i = i + 1;
    }
    proof {
        assert(ranges@.take(i as int) =~= ranges@);
    }
    (bytes, chunks)
}


// ---------------------------------------------------------------------------
// Connection attempts to explicit addresses
// ---------------------------------------------------------------------------
/// One attempt to open a channel to an address.
#[derive(Debug)]
pub struct ConnectAttempt {
    /// The cleaned address to connect to.
    pub address: String,
    /// The channel goes over USB.
    pub usb: bool,
    /// The channel's display name.
    pub label: String,
    /// Give up after this many milliseconds; 0 waits as long as connecting takes.
    pub timeout_ms: u64,
}

impl View for ConnectAttempt {
    type V = (Seq<char>, bool, Seq<char>, u64);

    open spec fn view(&self) -> (Seq<char>, bool, Seq<char>, u64) {
        (self.address@, self.usb, self.label@, self.timeout_ms)
    }
}

/// The views of a list of attempts.
pub open spec fn attempt_views(v: Seq<ConnectAttempt>) -> Seq<(Seq<char>, bool, Seq<char>, u64)> {
    Seq::new(v.len(), |i: int| v[i]@)
}

/// The name of the `k`-th stream over a tethered USB network.
pub open spec fn rndis_label(k: nat) -> Seq<char> {
    "USB (RNDIS Stream #"@ + decimal(k) + ")"@
}

/// The attempts for one entry of an explicit address list. A USB address gets,
/// for a combined connection, one attempt through the adb tunnel or two streams
/// over a tethered network, with no time limit; otherwise one attempt within
/// 800 ms. Any other address gets `streams` Wi-Fi streams, with no time limit for
/// a combined connection and within 800 ms otherwise.
pub open spec fn entry_attempts(combined: bool, entry: Seq<char>, streams: nat) -> Seq<
    (Seq<char>, bool, Seq<char>, u64),
> {
    let clean = trim(before_marker(entry));
    if spec_is_usb_address(entry) {
        if combined {
            let tunnel = spec_is_loopback_address(clean);
            Seq::new(
                if tunnel {
                    1nat
                } else {
                    2nat
                },
                |i: int|
                    (
                        clean,
                        true,
                        if tunnel {
                            "USB (ADB Tunnel)"@
                        } else {
                            rndis_label((i + 1) as nat)
                        },
                        0u64,
                    ),
            )
        } else {
            seq![(clean, true, "USB (ADB Tunnel)"@, 800u64)]
        }
    } else {
        Seq::new(
            streams,
            |i: int|
                (
                    clean,
                    false,
                    spec_stream_label("5 GHz Wi-Fi Direct"@, (i + 1) as u64),
                    if combined {
                        0u64
                    } else {
                        800u64
                    },
                ),
        )
    }
}

/// The attempts for the entries of an explicit address list, entry after entry.
pub open spec fn attempt_list(combined: bool, entries: Seq<Seq<char>>, streams: nat) -> Seq<
    (Seq<char>, bool, Seq<char>, u64),
>
    decreases entries.len(),
{
    if entries.len() == 0 {
        Seq::empty()
    } else {
        attempt_list(combined, entries.drop_last(), streams) + entry_attempts(
            combined,
            entries.last(),
            streams,
        )
    }
}

fn copy_text(s: &str) -> (r: String)
    ensures
        r@ == s@,
{
    let mut r = String::new();
    append(&mut r, s);
    proof {
        assert(Seq::<char>::empty() + s@ =~= s@);
    }
    r
}

fn push_entry_attempts(v: &mut Vec<ConnectAttempt>, combined: bool, entry: &str, streams: usize)
    ensures
        attempt_views(final(v)@) == attempt_views(old(v)@) + entry_attempts(
            combined,
            entry@,
            streams as nat,
        ),
{
    let clean = clean_address(entry);
    let ghost base = attempt_views(v@);
    let ghost want = entry_attempts(combined, entry@, streams as nat);
    let n: usize;
    if is_usb_address(entry) {
        if combined {
            n = usb_stream_count(clean.as_str());
        } else {
            n = 1;
        }
    } else {
        n = streams;
    }
    proof {
        assert(want.len() == n);
        assert(attempt_views(v@) =~= base + want.take(0));
    }
    let mut k: usize = 0;
    while k < n
        invariant
            k <= n,
            n == want.len(),
            want == entry_attempts(combined, entry@, streams as nat),
            clean@ == trim(before_marker(entry@)),
            attempt_views(v@) == base + want.take(k as int),
        decreases n - k,
    {
        let ghost before = v@;
        let a: ConnectAttempt;
        if is_usb_address(entry) {
            if combined {
                if is_loopback_address(clean.as_str()) {
                    a = ConnectAttempt {
                        address: copy_text(clean.as_str()),
                        usb: true,
                        label: "USB (ADB Tunnel)".to_string(),
                        timeout_ms: 0,
                    };
                } else {
                    let mut label = String::new();
                    append(&mut label, "USB (RNDIS Stream #");
                    push_decimal(&mut label, (k + 1) as u64);
                    append(&mut label, ")");
                    proof {
                        assert(label@ =~= rndis_label((k + 1) as nat));
                    }
                    a = ConnectAttempt { address: copy_text(clean.as_str()), usb: true, label, timeout_ms: 0 };
                }
            } else {
                a = ConnectAttempt {
                    address: copy_text(clean.as_str()),
                    usb: true,
                    label: "USB (ADB Tunnel)".to_string(),
                    timeout_ms: 800,
                };
            }
        } else {
            let label = stream_label("5 GHz Wi-Fi Direct", (k + 1) as u64);
            a = ConnectAttempt {
                address: copy_text(clean.as_str()),
                usb: false,
                label,
                timeout_ms: if combined {
                    0
                } else {
                    800
                },
            };
        }
        proof {
            assert(a@ == want[k as int]);
        }
        v.push(a);
        proof {
            assert(want.take(k + 1) =~= want.take(k as int).push(want[k as int]));
            assert(attempt_views(v@) =~= attempt_views(before).push(a@));
        }
        k = k + 1;
    }
    proof {
        assert(want.take(n as int) =~= want);
    }
}

/// The attempts to open channels to an explicit address list, for a combined
/// connection or an automatic one: each entry in order, as `entry_attempts` says.
pub fn explicit_attempts(combined: bool, address: &str, streams: usize) -> (v: Vec<ConnectAttempt>)
    ensures
        attempt_views(v@) == attempt_list(combined, nonempty_trimmed(comma_parts(address@)), streams as nat),
{
    let entries = split_address_list(address);
    let ghost es = texts(entries@);
    let mut v: Vec<ConnectAttempt> = Vec::new();
    let mut i: usize = 0;
    proof {
        assert(es.take(0) =~= Seq::<Seq<char>>::empty());
        assert(attempt_views(v@) =~= Seq::<(Seq<char>, bool, Seq<char>, u64)>::empty());
    }
    while i < entries.len()
        invariant
            i <= entries@.len(),
            es == texts(entries@),
            attempt_views(v@) == attempt_list(combined, es.take(i as int), streams as nat),
        decreases entries@.len() - i,
    {
        push_entry_attempts(&mut v, combined, entries[i].as_str(), streams);
        proof {
            assert(es.take(i + 1).drop_last() =~= es.take(i as int));
            assert(es.take(i + 1).last() == entries@[i as int]@);
        }
        i = i + 1;
    }
    proof {
        assert(es.take(entries@.len() as int) =~= es);
    }
    v
}


proof fn lemma_before_marker_take(s: Seq<char>) -> (i: int)
    ensures
        0 <= i <= s.len(),
        before_marker(s) == s.take(i),
    decreases s.len(),
{
    if s.len() == 0 || s[0] == '#' || s[0] == '?' {
        assert(s.take(0) =~= Seq::<char>::empty());
        0
    } else {
        let k = lemma_before_marker_take(s.drop_first());
        assert(seq![s[0]] + s.drop_first().take(k) =~= s.take(k + 1));
        k + 1
    }
}

proof fn lemma_trim_start_skip(s: Seq<char>) -> (i: int)
    ensures
        0 <= i <= s.len(),
        crate::text::trim_start(s) == s.skip(i),
    decreases s.len(),
{
    if s.len() > 0 && crate::text::is_ws(s[0]) {
        let k = lemma_trim_start_skip(s.drop_first());
        assert(s.drop_first().skip(k) =~= s.skip(k + 1));
        k + 1
    } else {
        assert(s.skip(0) =~= s);
        0
    }
}

proof fn lemma_trim_end_take(s: Seq<char>) -> (j: int)
    ensures
        0 <= j <= s.len(),
        crate::text::trim_end(s) == s.take(j),
    decreases s.len(),
{
    if s.len() > 0 && crate::text::is_ws(s.last()) {
        let k = lemma_trim_end_take(s.drop_last());
        assert(s.drop_last().take(k) =~= s.take(k));
        k
    } else {
        assert(s.take(s.len() as int) =~= s);
        s.len() as int
    }
}

proof fn lemma_infix_of_clean(entry: Seq<char>, needle: Seq<char>)
    requires
        has_infix(trim(before_marker(entry)), needle),
    ensures
        has_infix(entry, needle),
{
    let b = lemma_before_marker_take(entry);
    let pre = entry.take(b);
    let i = lemma_trim_start_skip(pre);
    let mid = pre.skip(i);
    let j = lemma_trim_end_take(mid);
    let clean = mid.take(j);
    assert(clean == trim(before_marker(entry)));
    let w = choose|w: int|
        0 <= w && w + needle.len() <= clean.len() && #[trigger] clean.subrange(w, w + needle.len())
            == needle;
    assert(entry.subrange(i + w, i + w + needle.len()) =~= clean.subrange(w, w + needle.len()));
}

/// The addresses of the USB path: every loopback address (naming 127.0.0.1 or
/// localhost, the adb tunnel's end), every address marked `usb` in any case, and
/// every address on the phone's USB tethering networks (10.125., 10.104. or
/// 192.168.42.).
pub proof fn lemma_usb_addresses(a: Seq<char>)
    ensures
        has_infix(a, "127.0.0.1"@) ==> spec_is_usb_address(a),
        has_infix(a, "localhost"@) ==> spec_is_usb_address(a),
        has_infix(spec_lowercase(a), "usb"@) ==> spec_is_usb_address(a),
        has_prefix(a, "10.125."@) || has_prefix(a, "10.104."@) || has_prefix(a, "192.168.42."@)
            ==> spec_is_usb_address(a),
{
}

/// An entry whose cleaned address names the loopback interface (127.0.0.1 or
/// localhost) is the adb tunnel: a combined connection tries it once, with no time
/// limit, and an automatic one once within 800 ms, both as the USB channel
/// "USB (ADB Tunnel)", whatever the number of Wi-Fi streams.
pub proof fn lemma_tunnel_entry_attempts(entry: Seq<char>, streams: nat)
    requires
        has_infix(trim(before_marker(entry)), "127.0.0.1"@) || has_infix(
            trim(before_marker(entry)),
            "localhost"@,
        ),
    ensures
        entry_attempts(true, entry, streams) == seq![
            (trim(before_marker(entry)), true, "USB (ADB Tunnel)"@, 0u64),
        ],
        entry_attempts(false, entry, streams) == seq![
            (trim(before_marker(entry)), true, "USB (ADB Tunnel)"@, 800u64),
        ],
{
    let clean = trim(before_marker(entry));
    if has_infix(clean, "127.0.0.1"@) {
        lemma_infix_of_clean(entry, "127.0.0.1"@);
    } else {
        lemma_infix_of_clean(entry, "localhost"@);
    }
    assert(spec_is_usb_address(entry));
    assert(entry_attempts(true, entry, streams) =~= seq![(clean, true, "USB (ADB Tunnel)"@, 0u64)]);
}

/// Any other entry that is not on the USB path gets exactly `streams` Wi-Fi
/// attempts, none of them over USB.
pub proof fn lemma_wifi_entry_attempts(combined: bool, entry: Seq<char>, streams: nat)
    requires
        !spec_is_usb_address(entry),
    ensures
        entry_attempts(combined, entry, streams).len() == streams,
        forall|i: int|
            0 <= i < streams ==> !(#[trigger] entry_attempts(combined, entry, streams)[i]).1,
{
}

} // verus!
