//! Chunk bookkeeping of the multipath scheduler: the pending queue, the chunks in
//! flight on each transport, and the completed set. The sender loop that reads
//! chunks and writes frames drives this state.
use std::collections::{HashMap, HashSet, VecDeque};
use vstd::prelude::*;
use vstd::std_specs::hash::group_hash_axioms;
use vstd::std_specs::iter::IteratorSpec;

use crate::chunk::{spec_chunk_count, total_chunks};
use crate::scheduler::metrics::{bytes_recorded, retry_recorded, ThroughputTracker};
use crate::manifest::schema::TransferStatus;
use crate::transport::TransportKind;

verus! {

broadcast use group_hash_axioms;

/// Default maximum in-flight chunks per active transport.
pub const DEFAULT_MAX_IN_FLIGHT_PER_TRANSPORT: usize = 4;

/// Default buffer pool count.
pub const DEFAULT_BUFFER_COUNT: usize = 8;

/// Configuration options for the multipath scheduler.
#[derive(Debug, Clone)]
pub struct SchedulerConfig {
    pub max_in_flight_per_transport: usize,
    pub buffer_count: usize,
    pub chunk_size: usize,
    pub enable_dynamic_scheduler: bool,
    pub enable_dynamic_window: bool,
}

impl SchedulerConfig {
    /// Four chunks in flight per transport, eight buffers, 64 MiB chunks, static scheduling.
    pub fn default() -> (c: Self)
        ensures
            c.max_in_flight_per_transport == 4,
            c.buffer_count == 8,
            c.chunk_size == 67108864,
            !c.enable_dynamic_scheduler,
            !c.enable_dynamic_window,
    {
        SchedulerConfig {
            max_in_flight_per_transport: DEFAULT_MAX_IN_FLIGHT_PER_TRANSPORT,
            buffer_count: DEFAULT_BUFFER_COUNT,
            chunk_size: 67108864,
            enable_dynamic_scheduler: false,
            enable_dynamic_window: false,
        }
    }
}

/// What the sender loop should do on one transport.
#[derive(Debug, Clone, Copy, PartialEq, Eq, Structural)]
pub enum DispatchDecision {
    /// The transport already has its maximum of chunks in flight.
    AtCapacity,
    /// No chunk is waiting to be sent.
    NoPending,
    /// Send this chunk; it is now in flight on the transport.
    Dispatch(u32),
}

/// The chunks in flight on one transport kind.
pub open spec fn in_flight_of(m: Map<u32, (TransportKind, u64)>, kind: TransportKind) -> Set<u32> {
    Set::new(|c: u32| m.contains_key(c) && m[c].0 == kind)
}

/// The chunk ids below `total`, in order, that are not in `done`.
pub open spec fn initial_pending(total: nat, done: Set<u32>) -> Seq<u32>
    decreases total,
{
    if total == 0 {
        Seq::empty()
    } else {
        let rest = initial_pending((total - 1) as nat, done);
        if done.contains((total - 1) as u32) {
            rest
        } else {
            rest.push((total - 1) as u32)
        }
    }
}

proof fn lemma_initial_pending_members(total: nat, done: Set<u32>)
    requires
        total <= u32::MAX + 1,
    ensures
        initial_pending(total, done).len() <= total,
        forall|i: int|
            0 <= i < initial_pending(total, done).len() ==> #[trigger] initial_pending(total, done)[i]
                < total && !done.contains(initial_pending(total, done)[i]),
        forall|c: u32| c < total && !done.contains(c) ==> initial_pending(total, done).contains(c),
    decreases total,
{
    if total > 0 {
        lemma_initial_pending_members((total - 1) as nat, done);
        let rest = initial_pending((total - 1) as nat, done);
        let t = (total - 1) as u32;
        assert forall|c: u32| c < total && !done.contains(c) implies initial_pending(
            total,
            done,
        ).contains(c) by {
            if c == t {
                assert(initial_pending(total, done).last() == t);
            } else {
                let j = choose|j: int| 0 <= j < rest.len() && rest[j] == c;
                assert(initial_pending(total, done)[j] == c);
            }
        }
    }
}

/// Chunk bookkeeping of a multipath sender transfer.
pub struct MultipathScheduler {
    transfer_id: u128,
    file_id: u128,
    file_size: u64,
    total_chunks_count: u32,
    chunk_size: usize,
    config: SchedulerConfig,
    pending_chunks: VecDeque<u32>,
    in_flight: HashMap<u32, (TransportKind, u64)>,
    completed_set: HashSet<u32>,
    completed_chunks: u32,
    status: TransferStatus,
    cancelled: bool,
    metrics: ThroughputTracker,
}

impl MultipathScheduler {
    /// The queue of chunks waiting to be sent, front first.
    pub closed spec fn pending(&self) -> Seq<u32> {
        self.pending_chunks@
    }

    /// The chunks in flight, with the transport each was sent on and when.
    pub closed spec fn in_flight(&self) -> Map<u32, (TransportKind, u64)> {
        self.in_flight@
    }

    /// The acknowledged chunks.
    pub closed spec fn completed(&self) -> Set<u32> {
        self.completed_set@
    }

    /// The completed-chunk counter.
    pub closed spec fn completed_count(&self) -> u32 {
        self.completed_chunks
    }

    /// The number of chunks of the file.
    pub closed spec fn total(&self) -> u32 {
        self.total_chunks_count
    }

    /// The transfer status.
    pub closed spec fn status(&self) -> TransferStatus {
        self.status
    }

    /// Whether the transfer was cancelled.
    pub closed spec fn is_cancelled(&self) -> bool {
        self.cancelled
    }

    /// The configuration.
    pub closed spec fn config_spec(&self) -> SchedulerConfig {
        self.config
    }

    /// The throughput and error metrics of the transfer.
    pub closed spec fn metrics_spec(&self) -> ThroughputTracker {
        self.metrics
    }

    /// No chunk of the file is lost: every chunk below the total is acknowledged,
    /// waiting, or in flight.
    pub open spec fn no_chunk_lost(&self) -> bool {
        forall|c: u32|
            c < self.total() ==> #[trigger] self.completed().contains(c) || self.pending().contains(c)
                || self.in_flight().contains_key(c)
    }

    /// Creates the bookkeeping for a sender transfer; the chunks in `completed_initial`
    /// are already done, all others wait in order.
    pub fn new(
        transfer_id: u128,
        file_id: u128,
        file_size: u64,
        chunk_size: usize,
        config: SchedulerConfig,
        completed_initial: Vec<u32>,
    ) -> (s: Self)
        requires
            file_size == 0 || (chunk_size as u32) == 0 || file_size + (chunk_size as u32)
                <= u64::MAX,
        ensures
            s.total() == spec_chunk_count(file_size, chunk_size as u32) as u32,
            s.completed() == completed_initial@.to_set(),
            s.pending() == initial_pending(s.total() as nat, completed_initial@.to_set()),
            s.completed_count() == s.total() - s.pending().len(),
            s.in_flight() == Map::<u32, (TransportKind, u64)>::empty(),
            s.status() == TransferStatus::InProgress,
            !s.is_cancelled(),
            s.config_spec() == config,
            s.no_chunk_lost(),
            s.metrics_spec().wf(),
            s.metrics_spec().totals() == (0u64, 0u64, 0u64, 0u64, 0u64),
            forall|k: TransportKind|
                #![trigger s.metrics_spec().window(k)]
                s.metrics_spec().window(k).samples().len() == 0 && s.metrics_spec().window(k).total() == 0
                    && s.metrics_spec().window(k).window_us() == 2_000_000,
    {
        let total = total_chunks(file_size, #[verifier::truncate] (chunk_size as u32));
        let mut done: HashSet<u32> = HashSet::new();
        let mut k: usize = 0;
        while k < completed_initial.len()
            invariant
                k <= completed_initial@.len(),
                done@ == completed_initial@.take(k as int).to_set(),
            decreases completed_initial@.len() - k,
        {
            proof {
                assert(completed_initial@.take(k + 1) =~= completed_initial@.take(k as int).push(
                    completed_initial@[k as int],
                ));
                completed_initial@.take(k as int).lemma_push_to_set_commute(completed_initial@[k as int]);
            }
            done.insert(completed_initial[k]);
            k = k + 1;
        }
        proof {
            assert(completed_initial@.take(k as int) =~= completed_initial@);
        }
        let mut pending: VecDeque<u32> = VecDeque::new();
        let mut i: u32 = 0;
        while i < total
            invariant
                i <= total,
                pending@ == initial_pending(i as nat, done@),
                pending@.len() <= i,
            decreases total - i,
        {
            proof {
                lemma_initial_pending_members(i as nat, done@);
            }
            if !done.contains(&i) {
                pending.push_back(i);
            }
            i = i + 1;
        }
        proof {
            lemma_initial_pending_members(total as nat, done@);
        }
        let completed_count: u32 = total - pending.len() as u32;
        let metrics = ThroughputTracker::default();
        let s = MultipathScheduler {
            transfer_id,
            file_id,
            file_size,
            total_chunks_count: total,
            chunk_size,
            config,
            pending_chunks: pending,
            in_flight: HashMap::new(),
            completed_set: done,
            completed_chunks: completed_count,
            status: TransferStatus::InProgress,
            cancelled: false,
            metrics,
        };
        proof {
            assert forall|k: TransportKind|
                #![trigger s.metrics_spec().window(k)]
                s.metrics_spec().window(k).samples().len() == 0 && s.metrics_spec().window(k).total() == 0
                    && s.metrics_spec().window(k).window_us() == 2_000_000 by {
                assert(s.metrics_spec() == metrics);
                assert(metrics.window(k).samples().len() == 0);
                assert(metrics.window(k).total() == 0);
                assert(metrics.window(k).window_us() == 2_000_000);
            }
        }
        s
    }

    /// The throughput and error metrics of the transfer.
    pub fn metrics(&self) -> (m: &ThroughputTracker)
        ensures
            *m == self.metrics_spec(),
    {
        &self.metrics
    }

    /// Returns the number of completed chunks.
    pub fn completed_chunks(&self) -> (n: u32)
        ensures
            n == self.completed_count(),
    {
        self.completed_chunks
    }

    /// Returns the total number of chunks of this transfer.
    pub fn total_chunks(&self) -> (n: u32)
        ensures
            n == self.total(),
    {
        self.total_chunks_count
    }

    /// Returns the current transfer status.
    pub fn get_status(&self) -> (st: TransferStatus)
        ensures
            st == self.status(),
    {
        self.status
    }

    /// Whether every chunk has been acknowledged (by count).
    pub fn is_complete(&self) -> (b: bool)
        ensures
            b == (self.completed_count() >= self.total()),
    {
        self.completed_chunks >= self.total_chunks_count
    }

    /// Whether the transfer was cancelled.
    pub fn cancelled(&self) -> (b: bool)
        ensures
            b == self.is_cancelled(),
    {
        self.cancelled
    }

    /// Manually pauses the transfer.
    pub fn pause(&mut self)
        ensures
            final(self).status() == TransferStatus::Paused,
            final(self).pending() == old(self).pending(),
            final(self).in_flight() == old(self).in_flight(),
            final(self).completed() == old(self).completed(),
            final(self).completed_count() == old(self).completed_count(),
            final(self).total() == old(self).total(),
            final(self).is_cancelled() == old(self).is_cancelled(),
            final(self).config_spec() == old(self).config_spec(),
            final(self).metrics_spec() == old(self).metrics_spec(),
    {
        self.status = TransferStatus::Paused;
    }

    /// Manually resumes the transfer.
    pub fn resume(&mut self)
        ensures
            final(self).status() == TransferStatus::InProgress,
            final(self).pending() == old(self).pending(),
            final(self).in_flight() == old(self).in_flight(),
            final(self).completed() == old(self).completed(),
            final(self).completed_count() == old(self).completed_count(),
            final(self).total() == old(self).total(),
            final(self).is_cancelled() == old(self).is_cancelled(),
            final(self).config_spec() == old(self).config_spec(),
            final(self).metrics_spec() == old(self).metrics_spec(),
    {
        self.status = TransferStatus::InProgress;
    }

    /// Manually cancels the transfer.
    pub fn cancel(&mut self)
        ensures
            final(self).status() == TransferStatus::Cancelled,
            final(self).is_cancelled(),
            final(self).pending() == old(self).pending(),
            final(self).in_flight() == old(self).in_flight(),
            final(self).completed() == old(self).completed(),
            final(self).completed_count() == old(self).completed_count(),
            final(self).total() == old(self).total(),
            final(self).config_spec() == old(self).config_spec(),
            final(self).metrics_spec() == old(self).metrics_spec(),
    {
        self.cancelled = true;
        self.status = TransferStatus::Cancelled;
    }

    /// Marks the transfer completed (when every chunk is acknowledged).
    pub fn mark_completed(&mut self)
        ensures
            final(self).status() == TransferStatus::Completed,
            final(self).pending() == old(self).pending(),
            final(self).in_flight() == old(self).in_flight(),
            final(self).completed() == old(self).completed(),
            final(self).completed_count() == old(self).completed_count(),
            final(self).total() == old(self).total(),
            final(self).is_cancelled() == old(self).is_cancelled(),
            final(self).config_spec() == old(self).config_spec(),
            final(self).metrics_spec() == old(self).metrics_spec(),
    {
        self.status = TransferStatus::Completed;
    }

    /// The ids of the chunks in flight on `kind`, each once.
    pub fn in_flight_ids_of(&self, kind: TransportKind) -> (ids: Vec<u32>)
        ensures
            ids@.no_duplicates(),
            ids@.to_set() == in_flight_of(self.in_flight(), kind),
    {
        let mut ids: Vec<u32> = Vec::new();
        let ghost m = self.in_flight@;
        for entry in it: self.in_flight.iter()
            invariant
                m == self.in_flight@,
                it.seq() == self.in_flight.iter().remaining(),
                it.seq().no_duplicates(),
                ids@.no_duplicates(),
                forall|c: u32| #[trigger] ids@.contains(c) <==> (exists|j: int| 0 <= j < it.index() && *it.seq()[j].0 == c
                    && (*it.seq()[j].1).0 == kind),
            ensures
                forall|c: u32| #[trigger] ids@.contains(c) <==> (exists|j: int| 0 <= j < it.seq().len() && *it.seq()[j].0 == c
                    && (*it.seq()[j].1).0 == kind),
                ids@.no_duplicates(),
        {
            let (cid, val) = entry;
            let ghost idx = it.index();
            if val.0 == kind {
                proof {
                    let v = it.seq();
                    assert(v[idx] == entry);
                    if ids@.contains(*cid) {
                        let j = choose|j: int| 0 <= j < idx && *v[j].0 == *cid && (*v[j].1).0 == kind;
                        assert(m.contains_key(*v[j].0) && m[*v[j].0] == *v[j].1);
                        assert(m.contains_key(*v[idx].0) && m[*v[idx].0] == *v[idx].1);
                        assert(v.unref()[j] == v.unref()[idx]);
                        assert(v[j] == v[idx]);
                        assert(false);
                    }
                }
                let ghost old_ids = ids@;
                ids.push(*cid);
                proof {
                    let v = it.seq();
                    assert(ids@.drop_last() =~= old_ids);
                    assert forall|c: u32| #[trigger] ids@.contains(c) <==> (exists|j: int| 0 <= j < idx + 1 && *v[j].0 == c
                        && (*v[j].1).0 == kind) by {
                        if ids@.contains(c) && c != *cid {
                            let p = choose|p: int| 0 <= p < ids@.len() && ids@[p] == c;
                            assert(old_ids[p] == c);
                            assert(old_ids.contains(c));
                        }
                        if c == *cid {
                            assert(ids@[ids@.len() - 1] == c);
                        }
                        if exists|j: int| 0 <= j < idx + 1 && *v[j].0 == c && (*v[j].1).0 == kind {
                            let j = choose|j: int| 0 <= j < idx + 1 && *v[j].0 == c && (*v[j].1).0 == kind;
                            if j < idx {
                                assert(old_ids.contains(c));
                                let p = choose|p: int| 0 <= p < old_ids.len() && old_ids[p] == c;
                                assert(ids@[p] == c);
                            } else {
                                assert(ids@[ids@.len() - 1] == c);
                            }
                        }
                    }
                }
            } else {
                proof {
                    let v = it.seq();
                    assert forall|c: u32| #[trigger] ids@.contains(c) <==> (exists|j: int| 0 <= j < idx + 1 && *v[j].0 == c
                        && (*v[j].1).0 == kind) by {
                        if exists|j: int| 0 <= j < idx + 1 && *v[j].0 == c && (*v[j].1).0 == kind {
                            let j = choose|j: int| 0 <= j < idx + 1 && *v[j].0 == c && (*v[j].1).0 == kind;
                            assert(j != idx);
                        }
                    }
                }
            }
        }
        proof {
            let v = self.in_flight.iter().remaining();
            assert forall|c: u32| ids@.to_set().contains(c) <==> in_flight_of(m, kind).contains(c) by {
                if ids@.contains(c) {
                    let j = choose|j: int| 0 <= j < v.len() && *v[j].0 == c && (*v[j].1).0 == kind;
                    assert(m.contains_key(*v[j].0) && m[*v[j].0] == *v[j].1);
                }
                if m.contains_key(c) && m[c].0 == kind {
                    assert(v.contains((&c, &m[c])));
                    let j = choose|j: int| 0 <= j < v.len() && v[j] == (&c, &m[c]);
                    assert(*v[j].0 == c && (*v[j].1).0 == kind);
                }
            }
            assert(ids@.to_set() =~= in_flight_of(m, kind));
        }
        ids
    }

    /// Decides what to send next on a transport of `kind` at time `now_us`: nothing
    /// when it already carries `max_in_flight_per_transport` chunks or nothing waits,
    /// else the front of the queue, which is then in flight on that transport.
    pub fn next_dispatch(&mut self, kind: TransportKind, now_us: u64) -> (d: DispatchDecision)
        requires
            old(self).no_chunk_lost(),
        ensures
            final(self).no_chunk_lost(),
            final(self).completed() == old(self).completed(),
            final(self).completed_count() == old(self).completed_count(),
            final(self).total() == old(self).total(),
            final(self).status() == old(self).status(),
            final(self).is_cancelled() == old(self).is_cancelled(),
            final(self).config_spec() == old(self).config_spec(),
            final(self).metrics_spec() == old(self).metrics_spec(),
            in_flight_of(old(self).in_flight(), kind).len() >= old(self).config_spec().max_in_flight_per_transport
                ==> d == DispatchDecision::AtCapacity && final(self).pending() == old(self).pending()
                && final(self).in_flight() == old(self).in_flight(),
            in_flight_of(old(self).in_flight(), kind).len() < old(self).config_spec().max_in_flight_per_transport
                && old(self).pending().len() == 0 ==> d == DispatchDecision::NoPending
                && final(self).pending() == old(self).pending() && final(self).in_flight()
                == old(self).in_flight(),
            in_flight_of(old(self).in_flight(), kind).len() < old(self).config_spec().max_in_flight_per_transport
                && old(self).pending().len() > 0 ==> d == DispatchDecision::Dispatch(
                old(self).pending()[0],
            ) && final(self).pending() == old(self).pending().drop_first() && final(self).in_flight()
                == old(self).in_flight().insert(old(self).pending()[0], (kind, now_us)),
    {
        let ids = self.in_flight_ids_of(kind);
        proof {
            ids@.unique_seq_to_set();
        }
        if ids.len() >= self.config.max_in_flight_per_transport {
            return DispatchDecision::AtCapacity;
        }
        let ghost before = *self;
        match self.pending_chunks.pop_front() {
            None => {
                proof {
                    assert(self.pending() =~= before.pending());
                    assert forall|c: u32| c < self.total() implies #[trigger] self.completed().contains(c)
                        || self.pending().contains(c) || self.in_flight().contains_key(c) by {
                        assert(before.completed().contains(c) || before.pending().contains(c)
                            || before.in_flight().contains_key(c));
                    }
                }
                DispatchDecision::NoPending
            },
            Some(chunk_id) => {
                self.in_flight.insert(chunk_id, (kind, now_us));
                proof {
                    assert forall|c: u32| c < self.total() implies #[trigger] self.completed().contains(c)
                        || self.pending().contains(c) || self.in_flight().contains_key(c) by {
                        assert(before.completed().contains(c) || before.pending().contains(c)
                            || before.in_flight().contains_key(c));
                        if before.pending().contains(c) && c != chunk_id {
                            let j = choose|j: int| 0 <= j < before.pending().len() && before.pending()[j] == c;
                            assert(self.pending()[j - 1] == c);
                        }
                    }
                }
                DispatchDecision::Dispatch(chunk_id)
            },
        }
    }

    /// Puts a chunk back at the front of the queue after its read or send failed.
    pub fn requeue_chunk(&mut self, chunk_id: u32)
        requires
            old(self).no_chunk_lost(),
        ensures
            final(self).no_chunk_lost(),
            final(self).pending() == seq![chunk_id] + old(self).pending(),
            final(self).in_flight() == old(self).in_flight().remove(chunk_id),
            final(self).completed() == old(self).completed(),
            final(self).completed_count() == old(self).completed_count(),
            final(self).total() == old(self).total(),
            final(self).status() == old(self).status(),
            final(self).is_cancelled() == old(self).is_cancelled(),
            final(self).config_spec() == old(self).config_spec(),
            final(self).metrics_spec() == old(self).metrics_spec(),
    {
        let ghost before = *self;
        self.in_flight.remove(&chunk_id);
        self.pending_chunks.push_front(chunk_id);
        proof {
            assert forall|c: u32| c < self.total() implies #[trigger] self.completed().contains(c)
                || self.pending().contains(c) || self.in_flight().contains_key(c) by {
                assert(before.completed().contains(c) || before.pending().contains(c)
                    || before.in_flight().contains_key(c));
                if c == chunk_id {
                    assert(self.pending()[0] == c);
                } else if before.pending().contains(c) {
                    let j = choose|j: int| 0 <= j < before.pending().len() && before.pending()[j] == c;
                    assert(self.pending()[j + 1] == c);
                }
            }
        }
    }

    /// Handles an incoming ACK of a `chunk_len`-byte chunk on `kind` at `now_us`: the
    /// chunk leaves flight and joins the completed set; the counter grows, and the
    /// bytes count towards the transport's throughput, only for a chunk not
    /// completed before (a duplicate ACK is a no-op). Returns whether the chunk was
    /// newly completed.
    pub fn handle_chunk_ack(&mut self, chunk_id: u32, kind: TransportKind, chunk_len: u64, now_us: u64) -> (is_new: bool)
        requires
            old(self).no_chunk_lost(),
            old(self).metrics_spec().wf(),
            !old(self).completed().contains(chunk_id) ==> {
                &&& old(self).metrics_spec().window(kind).total() + chunk_len <= u64::MAX
                &&& kind == TransportKind::Usb ==> old(self).metrics_spec().totals().0 + chunk_len <= u64::MAX
                &&& kind == TransportKind::WifiDirect ==> old(self).metrics_spec().totals().1 + chunk_len
                    <= u64::MAX
            },
        ensures
            final(self).metrics_spec().wf(),
            is_new ==> bytes_recorded(old(self).metrics_spec(), final(self).metrics_spec(), kind, chunk_len, now_us),
            !is_new ==> final(self).metrics_spec() == old(self).metrics_spec(),
            final(self).no_chunk_lost(),
            is_new == !old(self).completed().contains(chunk_id),
            final(self).completed() == old(self).completed().insert(chunk_id),
            final(self).completed_count() == (if is_new {
                old(self).completed_count().wrapping_add(1)
            } else {
                old(self).completed_count()
            }),
            final(self).in_flight() == old(self).in_flight().remove(chunk_id),
            final(self).pending() == old(self).pending(),
            final(self).total() == old(self).total(),
            final(self).status() == old(self).status(),
            final(self).is_cancelled() == old(self).is_cancelled(),
            final(self).config_spec() == old(self).config_spec(),
    {
        let ghost before = *self;
        self.in_flight.remove(&chunk_id);
        let is_new = self.completed_set.insert(chunk_id);
        if is_new {
            self.completed_chunks = self.completed_chunks.wrapping_add(1);
            self.metrics.record_transport_bytes(kind, chunk_len, now_us);
        }
        proof {
            assert forall|c: u32| c < self.total() implies #[trigger] self.completed().contains(c)
                || self.pending().contains(c) || self.in_flight().contains_key(c) by {
                assert(before.completed().contains(c) || before.pending().contains(c)
                    || before.in_flight().contains_key(c));
            }
        }
        is_new
    }

    /// Handles an incoming NACK for a corrupted chunk sent on `kind`: it leaves
    /// flight and is requeued at the front for retry, and the retry is counted
    /// against the transport.
    pub fn handle_chunk_nack(&mut self, chunk_id: u32, kind: TransportKind)
        requires
            old(self).no_chunk_lost(),
            old(self).metrics_spec().totals().2 < u64::MAX,
            kind == TransportKind::Usb ==> old(self).metrics_spec().totals().3 < u64::MAX,
            kind == TransportKind::WifiDirect ==> old(self).metrics_spec().totals().4 < u64::MAX,
        ensures
            retry_recorded(old(self).metrics_spec(), final(self).metrics_spec(), kind),
            old(self).metrics_spec().wf() ==> final(self).metrics_spec().wf(),
            final(self).no_chunk_lost(),
            final(self).pending() == seq![chunk_id] + old(self).pending(),
            final(self).in_flight() == old(self).in_flight().remove(chunk_id),
            final(self).completed() == old(self).completed(),
            final(self).completed_count() == old(self).completed_count(),
            final(self).total() == old(self).total(),
            final(self).status() == old(self).status(),
            final(self).is_cancelled() == old(self).is_cancelled(),
            final(self).config_spec() == old(self).config_spec(),
    {
        self.requeue_chunk(chunk_id);
        self.metrics.record_retry(kind);
    }

    /// Requeues all chunks in flight on a disconnected transport back to the front of
    /// the pending queue. Their order among themselves follows the map's iteration
    /// order; all of them come before the chunks that were already waiting.
    pub fn requeue_transport_in_flight(&mut self, kind: TransportKind)
        requires
            old(self).no_chunk_lost(),
        ensures
            final(self).no_chunk_lost(),
            ({
                let moved = in_flight_of(old(self).in_flight(), kind);
                let k = final(self).pending().len() - old(self).pending().len();
                &&& k >= 0
                &&& final(self).pending().skip(k) == old(self).pending()
                &&& final(self).pending().take(k).to_set() == moved
                &&& final(self).in_flight() == old(self).in_flight().remove_keys(moved)
            }),
            final(self).completed() == old(self).completed(),
            final(self).completed_count() == old(self).completed_count(),
            final(self).total() == old(self).total(),
            final(self).status() == old(self).status(),
            final(self).is_cancelled() == old(self).is_cancelled(),
            final(self).config_spec() == old(self).config_spec(),
            final(self).metrics_spec() == old(self).metrics_spec(),
    {
        let ghost before = *self;
        let failed = self.in_flight_ids_of(kind);
        let ghost moved = in_flight_of(before.in_flight(), kind);
        let mut i: usize = 0;
        proof {
            assert(self.pending().skip(0) =~= before.pending());
            assert(self.pending().take(0).to_set() =~= failed@.take(0).to_set());
            assert(before.in_flight().remove_keys(failed@.take(0).to_set()) =~= self.in_flight());
        }
        while i < failed.len()
            invariant
                i <= failed@.len(),
                failed@.no_duplicates(),
                failed@.to_set() == moved,
                moved == in_flight_of(before.in_flight(), kind),
                self.pending().len() == before.pending().len() + i,
                self.pending().skip(i as int) == before.pending(),
                self.pending().take(i as int).to_set() == failed@.take(i as int).to_set(),
                self.in_flight() == before.in_flight().remove_keys(failed@.take(i as int).to_set()),
                self.completed() == before.completed(),
                self.completed_count() == before.completed_count(),
                self.total() == before.total(),
                self.status() == before.status(),
                self.is_cancelled() == before.is_cancelled(),
                self.config_spec() == before.config_spec(),
                self.metrics_spec() == before.metrics_spec(),
                self.no_chunk_lost(),
            decreases failed@.len() - i,
        {
            let cid = failed[i];
            let ghost p0 = self.pending();
            self.requeue_chunk(cid);
            proof {
                let p1 = self.pending();
                assert(p1.skip(i + 1) =~= p0.skip(i as int));
                assert(failed@.take(i + 1) =~= failed@.take(i as int).push(cid));
                failed@.take(i as int).lemma_push_to_set_commute(cid);
                let q = p1.take(i + 1);
                let r = p0.take(i as int);
                assert(q =~= seq![cid] + r);
                assert forall|x: u32| q.contains(x) <==> (r.contains(x) || x == cid) by {
                    if q.contains(x) {
                        let j = choose|j: int| 0 <= j < q.len() && q[j] == x;
                        if j > 0 {
                            assert(r[j - 1] == x);
                        }
                    }
                    if r.contains(x) {
                        let j = choose|j: int| 0 <= j < r.len() && r[j] == x;
                        assert(q[j + 1] == x);
                    }
                    if x == cid {
                        assert(q[0] == x);
                    }
                }
                assert(q.to_set() =~= r.to_set().insert(cid));
                assert(self.in_flight() =~= before.in_flight().remove_keys(failed@.take(i + 1).to_set()));
            }
            i = i + 1;
        }
        proof {
            assert(failed@.take(i as int) =~= failed@);
        }
    }
}

} // verus!
