//! Rolling-window byte accounting and per-transport totals for multipath transfers.
//! Times are microseconds on a monotonic clock supplied by the caller.
use std::collections::VecDeque;
use vstd::prelude::*;

use crate::transport::TransportKind;

verus! {

/// Sample of bytes transferred at a specific timestamp.
#[derive(Debug, Clone, Copy)]
pub struct ByteSample {
    pub timestamp_us: u64,
    pub bytes: u64,
}

/// Sum of the byte counts of `samples`.
pub open spec fn sum_bytes(samples: Seq<ByteSample>) -> int
    decreases samples.len(),
{
    if samples.len() == 0 {
        0
    } else {
        samples[0].bytes + sum_bytes(samples.drop_first())
    }
}

proof fn lemma_sum_bytes_push(samples: Seq<ByteSample>, s: ByteSample)
    ensures
        sum_bytes(samples.push(s)) == sum_bytes(samples) + s.bytes,
    decreases samples.len(),
{
    if samples.len() > 0 {
        lemma_sum_bytes_push(samples.drop_first(), s);
        assert(samples.push(s).drop_first() =~= samples.drop_first().push(s));
        assert(samples.push(s)[0] == samples[0]);
    } else {
        assert(samples.push(s).drop_first() =~= Seq::<ByteSample>::empty());
        assert(samples.push(s)[0] == s);
        assert(sum_bytes(Seq::<ByteSample>::empty()) == 0);
        assert(sum_bytes(samples) == 0);
    }
}

proof fn lemma_sum_bytes_nonneg(samples: Seq<ByteSample>)
    ensures
        sum_bytes(samples) >= 0,
        samples.len() > 0 ==> sum_bytes(samples) >= samples[0].bytes,
    decreases samples.len(),
{
    if samples.len() > 0 {
        lemma_sum_bytes_nonneg(samples.drop_first());
    }
}

/// Age of a sample at time `now`, zero for a sample stamped in the future.
pub open spec fn sample_age(s: ByteSample, now_us: u64) -> int {
    if now_us >= s.timestamp_us {
        now_us - s.timestamp_us
    } else {
        0
    }
}

/// Number of leading samples older than the window at time `now`.
pub open spec fn stale_prefix(samples: Seq<ByteSample>, now_us: u64, window_us: u64) -> nat
    decreases samples.len(),
{
    if samples.len() > 0 && sample_age(samples[0], now_us) > window_us {
        1 + stale_prefix(samples.drop_first(), now_us, window_us)
    } else {
        0
    }
}

proof fn lemma_stale_prefix_bound(samples: Seq<ByteSample>, now_us: u64, window_us: u64)
    ensures
        stale_prefix(samples, now_us, window_us) <= samples.len(),
    decreases samples.len(),
{
    if samples.len() > 0 && sample_age(samples[0], now_us) > window_us {
        lemma_stale_prefix_bound(samples.drop_first(), now_us, window_us);
    }
}

/// The samples are in time order.
pub open spec fn in_time_order(samples: Seq<ByteSample>) -> bool {
    forall|i: int, j: int|
        0 <= i <= j < samples.len() ==> #[trigger] samples[i].timestamp_us <= #[trigger] samples[j].timestamp_us
}

/// No sample is stamped after `now_us`.
pub open spec fn not_after(samples: Seq<ByteSample>, now_us: u64) -> bool {
    forall|i: int| 0 <= i < samples.len() ==> #[trigger] samples[i].timestamp_us <= now_us
}

/// Every sample is at most `window_us` old at `now_us`.
pub open spec fn within_window(samples: Seq<ByteSample>, now_us: u64, window_us: u64) -> bool {
    forall|i: int| 0 <= i < samples.len() ==> sample_age(#[trigger] samples[i], now_us) <= window_us
}

/// Every sample is either stamped no earlier than each sample before it, or is
/// itself inside the window at `now_us`: true of time-ordered samples followed by
/// one sample stamped `now_us`.
pub open spec fn ordered_or_recent(samples: Seq<ByteSample>, now_us: u64, window_us: u64) -> bool {
    forall|i: int, j: int|
        0 <= i <= j < samples.len() ==> #[trigger] samples[i].timestamp_us
            <= #[trigger] samples[j].timestamp_us || sample_age(samples[j], now_us) <= window_us
}

proof fn lemma_kept_last(samples: Seq<ByteSample>, now_us: u64, window_us: u64)
    requires
        samples.len() > 0,
        sample_age(samples.last(), now_us) <= window_us,
    ensures
        stale_prefix(samples, now_us, window_us) < samples.len(),
        samples.skip(stale_prefix(samples, now_us, window_us) as int).last() == samples.last(),
    decreases samples.len(),
{
    if sample_age(samples[0], now_us) > window_us {
        let rest = samples.drop_first();
        assert(samples.len() > 1);
        assert(rest.last() == samples.last());
        lemma_kept_last(rest, now_us, window_us);
        let k = stale_prefix(rest, now_us, window_us);
        assert(samples.skip(1 + k as int) =~= rest.skip(k as int));
    } else {
        assert(samples.skip(0) =~= samples);
    }
}

proof fn lemma_kept_within(samples: Seq<ByteSample>, now_us: u64, window_us: u64)
    requires
        ordered_or_recent(samples, now_us, window_us),
    ensures
        within_window(samples.skip(stale_prefix(samples, now_us, window_us) as int), now_us, window_us),
    decreases samples.len(),
{
    lemma_stale_prefix_bound(samples, now_us, window_us);
    if samples.len() > 0 && sample_age(samples[0], now_us) > window_us {
        let rest = samples.drop_first();
        assert forall|i: int, j: int| 0 <= i <= j < rest.len() implies #[trigger] rest[i].timestamp_us
            <= #[trigger] rest[j].timestamp_us || sample_age(rest[j], now_us) <= window_us by {
            assert(samples[i + 1].timestamp_us <= samples[j + 1].timestamp_us || sample_age(
                samples[j + 1],
                now_us,
            ) <= window_us);
        }
        lemma_kept_within(rest, now_us, window_us);
        lemma_stale_prefix_bound(rest, now_us, window_us);
        let k = stale_prefix(rest, now_us, window_us);
        assert(samples.skip(1 + k as int) =~= rest.skip(k as int));
    } else {
        assert(samples.skip(0) =~= samples);
        assert forall|j: int| 0 <= j < samples.len() implies sample_age(#[trigger] samples[j], now_us)
            <= window_us by {
            assert(samples[0].timestamp_us <= samples[j].timestamp_us || sample_age(samples[j], now_us)
                <= window_us);
        }
    }
}

proof fn lemma_kept_ordered(samples: Seq<ByteSample>, now_us: u64, window_us: u64)
    requires
        in_time_order(samples),
    ensures
        in_time_order(samples.skip(stale_prefix(samples, now_us, window_us) as int)),
{
    lemma_stale_prefix_bound(samples, now_us, window_us);
    let k = stale_prefix(samples, now_us, window_us) as int;
    let kept = samples.skip(k);
    assert forall|i: int, j: int| 0 <= i <= j < kept.len() implies #[trigger] kept[i].timestamp_us
        <= #[trigger] kept[j].timestamp_us by {
        assert(samples[i + k].timestamp_us <= samples[j + k].timestamp_us);
    }
}

/// What dropping the stale prefix leaves: a last sample inside the window is kept
/// and stays last; when each sample is stamped no earlier than those before it or
/// is itself inside the window, every kept sample is inside the window; and
/// time-ordered samples stay in order.
pub proof fn lemma_pruned_window_is_recent(samples: Seq<ByteSample>, now_us: u64, window_us: u64)
    ensures
        ({
            let kept = samples.skip(stale_prefix(samples, now_us, window_us) as int);
            &&& ordered_or_recent(samples, now_us, window_us) ==> within_window(kept, now_us, window_us)
            &&& in_time_order(samples) ==> in_time_order(kept)
            &&& samples.len() > 0 && sample_age(samples.last(), now_us) <= window_us ==> kept.len() > 0
                && kept.last() == samples.last()
        }),
{
    lemma_stale_prefix_bound(samples, now_us, window_us);
    if ordered_or_recent(samples, now_us, window_us) {
        lemma_kept_within(samples, now_us, window_us);
    }
    if in_time_order(samples) {
        lemma_kept_ordered(samples, now_us, window_us);
    }
    if samples.len() > 0 && sample_age(samples.last(), now_us) <= window_us {
        lemma_kept_last(samples, now_us, window_us);
    }
}

/// Rolling-window throughput calculator: keeps the samples of the last window
/// and the sum of their bytes.
pub struct RollingWindowTracker {
    window_duration_us: u64,
    samples: VecDeque<ByteSample>,
    total_bytes_in_window: u64,
}

impl RollingWindowTracker {
    /// The samples currently in the window, oldest first.
    pub closed spec fn samples(&self) -> Seq<ByteSample> {
        self.samples@
    }

    /// The window length.
    pub closed spec fn window_us(&self) -> u64 {
        self.window_duration_us
    }

    /// The running sum of bytes in the window.
    pub closed spec fn total(&self) -> u64 {
        self.total_bytes_in_window
    }

    /// The running sum equals the sum of the samples.
    pub open spec fn wf(&self) -> bool {
        self.total() == sum_bytes(self.samples())
    }

    /// An empty window of the given length.
    pub fn new(window_duration_us: u64) -> (t: Self)
        ensures
            t.wf(),
            t.samples() == Seq::<ByteSample>::empty(),
            t.total() == 0,
            t.window_us() == window_duration_us,
    {
        Self { window_duration_us, samples: VecDeque::new(), total_bytes_in_window: 0 }
    }

    /// Records transferred bytes at time `now_us`, then drops the samples that left the window.
    pub fn record_bytes(&mut self, bytes: u64, now_us: u64)
        requires
            old(self).wf(),
            old(self).total() + bytes <= u64::MAX,
        ensures
            final(self).wf(),
            final(self).window_us() == old(self).window_us(),
            ({
                let all = old(self).samples().push(ByteSample { timestamp_us: now_us, bytes });
                final(self).samples() == all.skip(
                    stale_prefix(all, now_us, old(self).window_us()) as int,
                )
            }),
            final(self).total() == sum_bytes(final(self).samples()),
            final(self).samples().len() > 0,
            final(self).samples().last() == (ByteSample { timestamp_us: now_us, bytes }),
            in_time_order(old(self).samples()) ==> within_window(
                final(self).samples(),
                now_us,
                final(self).window_us(),
            ),
            in_time_order(old(self).samples()) && not_after(old(self).samples(), now_us)
                ==> in_time_order(final(self).samples()),
    {
        proof {
            lemma_sum_bytes_push(self.samples@, ByteSample { timestamp_us: now_us, bytes });
            let new_sample = ByteSample { timestamp_us: now_us, bytes };
            let all = self.samples@.push(new_sample);
            assert(all.last() == new_sample);
            if in_time_order(self.samples@) {
                assert forall|i: int, j: int| 0 <= i <= j < all.len() implies #[trigger] all[i].timestamp_us
                    <= #[trigger] all[j].timestamp_us || sample_age(all[j], now_us)
                    <= self.window_duration_us by {
                    if j < self.samples@.len() {
                        assert(self.samples@[i].timestamp_us <= self.samples@[j].timestamp_us);
                    } else {
                        assert(all[j] == new_sample);
                    }
                }
            }
            if in_time_order(self.samples@) && not_after(self.samples@, now_us) {
                assert forall|i: int, j: int| 0 <= i <= j < all.len() implies #[trigger] all[i].timestamp_us
                    <= #[trigger] all[j].timestamp_us by {
                    if j < self.samples@.len() {
                        assert(self.samples@[i].timestamp_us <= self.samples@[j].timestamp_us);
                    } else if i < self.samples@.len() {
                        assert(self.samples@[i].timestamp_us <= now_us);
                    }
                }
            }
            lemma_pruned_window_is_recent(all, now_us, self.window_duration_us);
        }
        self.samples.push_back(ByteSample { timestamp_us: now_us, bytes });
        self.total_bytes_in_window = self.total_bytes_in_window + bytes;
        self.prune(now_us);
    }

    /// Drops the leading samples older than the window at time `now_us`.
    pub fn prune(&mut self, now_us: u64)
        requires
            old(self).wf(),
        ensures
            final(self).wf(),
            final(self).window_us() == old(self).window_us(),
            final(self).samples() == old(self).samples().skip(
                stale_prefix(old(self).samples(), now_us, old(self).window_us()) as int,
            ),
    {
        let ghost orig = self.samples@;
        let ghost w0 = self.window_duration_us;
        let ghost mut dropped: int = 0;
        proof {
            lemma_stale_prefix_bound(orig, now_us, self.window_duration_us);
            assert(orig.skip(0) =~= orig);
        }
        while self.samples.len() > 0
            invariant
                self.window_duration_us == w0,
                self.total_bytes_in_window == sum_bytes(self.samples@),
                0 <= dropped <= orig.len(),
                self.samples@ == orig.skip(dropped),
                stale_prefix(orig, now_us, self.window_duration_us) == dropped + stale_prefix(
                    self.samples@,
                    now_us,
                    self.window_duration_us,
                ),
            ensures
                self.total_bytes_in_window == sum_bytes(self.samples@),
                self.samples@ == orig.skip(dropped),
                stale_prefix(self.samples@, now_us, self.window_duration_us) == 0,
                stale_prefix(orig, now_us, self.window_duration_us) == dropped,
            decreases self.samples@.len(),
        {
            let front = self.samples[0];
            let age: u64 = now_us.saturating_sub(front.timestamp_us);
            if age > self.window_duration_us {
                proof {
                    lemma_sum_bytes_nonneg(self.samples@);
                }
                self.total_bytes_in_window = self.total_bytes_in_window - front.bytes;
                let ghost before = self.samples@;
                self.samples.pop_front();
                proof {
                    assert(self.samples@ =~= before.drop_first());
                    assert(orig.skip(dropped + 1) =~= before.drop_first());
                    dropped = dropped + 1;
                }
            } else {
                break;
            }
        }
    }

    /// The sum of the bytes currently in the window.
    pub fn total_bytes_in_window(&self) -> (n: u64)
        ensures
            n == self.total(),
    {
        self.total_bytes_in_window
    }

    /// The timestamp of the oldest sample in the window, if any.
    pub fn oldest_timestamp_us(&self) -> (t: Option<u64>)
        ensures
            self.samples().len() == 0 ==> t is None,
            self.samples().len() > 0 ==> t == Some(self.samples()[0].timestamp_us),
    {
        if self.samples.len() == 0 {
            None
        } else {
            Some(self.samples[0].timestamp_us)
        }
    }

    /// The window length in microseconds.
    pub fn window_duration_us(&self) -> (w: u64)
        ensures
            w == self.window_us(),
    {
        self.window_duration_us
    }
}

/// `after` is `before` once `bytes` bytes completed on `kind` at `now_us` are
/// recorded: USB and Wi-Fi bytes add to their totals (TCP bytes to none), the
/// bytes join the window of `kind`, which then drops its stale samples, and the
/// other windows are unchanged.
pub open spec fn bytes_recorded(
    before: ThroughputTracker,
    after: ThroughputTracker,
    kind: TransportKind,
    bytes: u64,
    now_us: u64,
) -> bool {
    let all = before.window(kind).samples().push(ByteSample { timestamp_us: now_us, bytes });
    &&& after.totals() == (match kind {
        TransportKind::Usb => (
            (before.totals().0 + bytes) as u64,
            before.totals().1,
            before.totals().2,
            before.totals().3,
            before.totals().4,
        ),
        TransportKind::WifiDirect => (
            before.totals().0,
            (before.totals().1 + bytes) as u64,
            before.totals().2,
            before.totals().3,
            before.totals().4,
        ),
        TransportKind::Tcp => before.totals(),
    })
    &&& after.window(kind).samples() == all.skip(
        stale_prefix(all, now_us, before.window(kind).window_us()) as int,
    )
    &&& after.window(kind).window_us() == before.window(kind).window_us()
    &&& forall|k: TransportKind| k != kind ==> #[trigger] after.window(k) == before.window(k)
}

/// `after` is `before` once a retry on `kind` is recorded: the retry count grows,
/// and so does the error count of USB or Wi-Fi; the windows are unchanged.
pub open spec fn retry_recorded(before: ThroughputTracker, after: ThroughputTracker, kind: TransportKind) -> bool {
    &&& after.totals() == (match kind {
        TransportKind::Usb => (
            before.totals().0,
            before.totals().1,
            (before.totals().2 + 1) as u64,
            (before.totals().3 + 1) as u64,
            before.totals().4,
        ),
        TransportKind::WifiDirect => (
            before.totals().0,
            before.totals().1,
            (before.totals().2 + 1) as u64,
            before.totals().3,
            (before.totals().4 + 1) as u64,
        ),
        TransportKind::Tcp => (
            before.totals().0,
            before.totals().1,
            (before.totals().2 + 1) as u64,
            before.totals().3,
            before.totals().4,
        ),
    })
    &&& forall|k: TransportKind| #[trigger] after.window(k) == before.window(k)
}

/// Consolidated metrics and rolling throughput tracker for multipath transfers.
pub struct ThroughputTracker {
    usb_tracker: RollingWindowTracker,
    wifi_tracker: RollingWindowTracker,
    tcp_tracker: RollingWindowTracker,
    total_usb_bytes: u64,
    total_wifi_bytes: u64,
    total_retries: u64,
    usb_errors: u64,
    wifi_errors: u64,
}

/// The totals kept by a throughput tracker:
/// (USB bytes, Wi-Fi bytes, retries, USB errors, Wi-Fi errors).
pub type Totals = (u64, u64, u64, u64, u64);

impl ThroughputTracker {
    /// The totals, in the order `stats_snapshot` returns them.
    pub closed spec fn totals(&self) -> Totals {
        (self.total_usb_bytes, self.total_wifi_bytes, self.total_retries, self.usb_errors, self.wifi_errors)
    }

    /// The rolling window of one transport kind.
    pub closed spec fn window(&self, kind: TransportKind) -> RollingWindowTracker {
        match kind {
            TransportKind::Usb => self.usb_tracker,
            TransportKind::WifiDirect => self.wifi_tracker,
            TransportKind::Tcp => self.tcp_tracker,
        }
    }

    /// All three windows keep their running sums.
    pub closed spec fn wf(&self) -> bool {
        self.usb_tracker.wf() && self.wifi_tracker.wf() && self.tcp_tracker.wf()
    }

    /// A tracker with empty windows of the given length and zero totals.
    pub fn new(window_us: u64) -> (t: Self)
        ensures
            t.wf(),
            t.totals() == (0u64, 0u64, 0u64, 0u64, 0u64),
            forall|k: TransportKind|
                #[trigger] t.window(k).samples().len() == 0 && t.window(k).total() == 0 && t.window(k).window_us()
                    == window_us,
    {
        Self {
            usb_tracker: RollingWindowTracker::new(window_us),
            wifi_tracker: RollingWindowTracker::new(window_us),
            tcp_tracker: RollingWindowTracker::new(window_us),
            total_usb_bytes: 0,
            total_wifi_bytes: 0,
            total_retries: 0,
            usb_errors: 0,
            wifi_errors: 0,
        }
    }

    /// A tracker with two-second windows.
    pub fn default() -> (t: Self)
        ensures
            t.wf(),
            t.totals() == (0u64, 0u64, 0u64, 0u64, 0u64),
            forall|k: TransportKind|
                #[trigger] t.window(k).samples().len() == 0 && t.window(k).total() == 0 && t.window(k).window_us()
                    == 2_000_000,
    {
        Self::new(2_000_000)
    }

    /// Records bytes completed on a specific transport at time `now_us`. USB and
    /// Wi-Fi bytes also count towards their totals; TCP bytes only towards the window.
    pub fn record_transport_bytes(&mut self, kind: TransportKind, bytes: u64, now_us: u64)
        requires
            old(self).wf(),
            old(self).window(kind).total() + bytes <= u64::MAX,
            kind == TransportKind::Usb ==> old(self).totals().0 + bytes <= u64::MAX,
            kind == TransportKind::WifiDirect ==> old(self).totals().1 + bytes <= u64::MAX,
        ensures
            final(self).wf(),
            bytes_recorded(*old(self), *final(self), kind, bytes, now_us),
    {
        match kind {
            TransportKind::Usb => {
                self.usb_tracker.record_bytes(bytes, now_us);
                self.total_usb_bytes = self.total_usb_bytes + bytes;
            },
            TransportKind::WifiDirect => {
                self.wifi_tracker.record_bytes(bytes, now_us);
                self.total_wifi_bytes = self.total_wifi_bytes + bytes;
            },
            TransportKind::Tcp => {
                self.tcp_tracker.record_bytes(bytes, now_us);
            },
        }
    }

    /// Increments the retry count, and the error count of USB or Wi-Fi.
    pub fn record_retry(&mut self, kind: TransportKind)
        requires
            old(self).totals().2 < u64::MAX,
            kind == TransportKind::Usb ==> old(self).totals().3 < u64::MAX,
            kind == TransportKind::WifiDirect ==> old(self).totals().4 < u64::MAX,
        ensures
            retry_recorded(*old(self), *final(self), kind),
            final(self).wf() == old(self).wf(),
    {
        self.total_retries = self.total_retries + 1;
        match kind {
            TransportKind::Usb => self.usb_errors = self.usb_errors + 1,
            TransportKind::WifiDirect => self.wifi_errors = self.wifi_errors + 1,
            _ => {},
        }
    }

    /// Returns total stats: (usb_bytes, wifi_bytes, retries, usb_errors, wifi_errors).
    pub fn stats_snapshot(&self) -> (s: Totals)
        ensures
            s == self.totals(),
    {
        (self.total_usb_bytes, self.total_wifi_bytes, self.total_retries, self.usb_errors, self.wifi_errors)
    }

    /// The rolling window of one transport kind.
    pub fn window_tracker(&mut self, kind: TransportKind) -> (w: &mut RollingWindowTracker)
        ensures
            *w == old(self).window(kind),
            forall|k: TransportKind| k != kind ==> #[trigger] final(self).window(k) == old(self).window(k),
            final(self).window(kind) == *final(w),
            final(self).totals() == old(self).totals(),
    {
        match kind {
            TransportKind::Usb => &mut self.usb_tracker,
            TransportKind::WifiDirect => &mut self.wifi_tracker,
            TransportKind::Tcp => &mut self.tcp_tracker,
        }
    }
}

} // verus!
