//! The decisions of a transfer session. The async loops that move frames over the
//! transports, read and write the file and keep the clocks call these functions
//! and carry out what they return.
use std::collections::{HashMap, HashSet, VecDeque};
use vstd::prelude::*;
use vstd::std_specs::hash::group_hash_axioms;
use vstd::std_specs::iter::IteratorSpec;

use crate::benchmark::types::{TransferPurpose, WindowPreset};
use crate::checksum::{compute_xxhash64, spec_xxh64};
use crate::chunk::ChunkPlanEntry;
use crate::manifest::schema::{ranges_contain, ranges_set, TransferStatus};
use crate::protocol::error::ProtocolError;
use crate::protocol::messages::{
    ChunkAckData, ChunkDataPayload, ChunkNackData, HeartbeatData, Message, TransferOfferData,
};
use crate::scheduler::tracker::{ack_recorded, ack_sample, nack_recorded, AckSample, ChannelTracker};
use crate::transfer::ledger::{ledger_concat, ChunkCrcLedger};
use crate::transfer::tracker::{ChunkKey, ChunkTracker, InMemoryChunkTracker};
use crate::transport::TransportError;
use crate::checksum::crc32c_spec;

verus! {

broadcast use group_hash_axioms;

/// Chunk id of the acknowledgment that confirms a whole transfer.
pub const COMPLETE_ACK_ID: u32 = 0xFFFF_FFFF;

/// Chunk id of the acknowledgment of a pause request.
pub const PAUSE_ACK_ID: u32 = 0xFFFF_FFFE;

/// Chunk id of the acknowledgment of a resume request.
pub const RESUME_ACK_ID: u32 = 0xFFFF_FFFD;

/// Round-trip time assumed for an acknowledgment whose dispatch time is unknown, at
/// least this many microseconds.
pub const MIN_UNKNOWN_RTT_US: u64 = 5_000;

/// Why a session ended without success.
#[derive(Debug)]
pub enum TransferSessionError {
    Rejected(String),
    ChecksumMismatch(String),
    Protocol(ProtocolError),
    Transport(TransportError),
    Io(std::io::Error),
    UnexpectedMessage(String),
    Paused,
    Cancelled,
}

/// Options of a sending session.
#[derive(Debug, Clone, Copy, PartialEq, Eq, Structural)]
pub struct SessionOptions {
    pub purpose: TransferPurpose,
    pub wifi_window_preset: Option<WindowPreset>,
}

impl Default for SessionOptions {
    /// An ordinary transfer with the default window.
    fn default() -> (o: Self)
        ensures
            o.purpose == TransferPurpose::Normal,
            o.wifi_window_preset is None,
    {
        SessionOptions { purpose: TransferPurpose::Normal, wifi_window_preset: None }
    }
}

// ---------------------------------------------------------------------------
// Sender: handshake and resume
// ---------------------------------------------------------------------------
/// The receiver's answer to an offer.
#[derive(Debug)]
pub enum OfferReply {
    /// Accepted, with the ranges the receiver already holds.
    Accepted(Option<Vec<(u32, u32)>>),
    /// Rejected for the given reason.
    Rejected(String),
    /// Some other message came.
    Unexpected,
    /// The link closed.
    Eof,
}

/// Classifies what came back after an offer.
pub fn classify_offer_reply(reply: Option<Message>) -> (r: OfferReply)
    ensures
        match reply {
            None => r is Eof,
            Some(Message::TransferAccept(a)) => r matches OfferReply::Accepted(x) && x == a.resume_from,
            Some(Message::TransferReject(j)) => r matches OfferReply::Rejected(x) && x == j.reason,
            Some(_) => r is Unexpected,
        },
{
    match reply {
        None => OfferReply::Eof,
        Some(Message::TransferAccept(a)) => OfferReply::Accepted(a.resume_from),
        Some(Message::TransferReject(j)) => OfferReply::Rejected(j.reason),
        Some(_) => OfferReply::Unexpected,
    }
}

/// Whether a handshake frame is the expected `Hello`.
pub fn is_hello(frame: &Option<Message>) -> (b: bool)
    ensures
        b <==> frame matches Some(Message::Hello(_)),
{
    match frame {
        Some(Message::Hello(_)) => true,
        _ => false,
    }
}

/// The plan entries whose chunk is not in `done`, in plan order.
pub open spec fn entries_to_send(plan: Seq<ChunkPlanEntry>, done: Set<u32>) -> Seq<ChunkPlanEntry>
    decreases plan.len(),
{
    if plan.len() == 0 {
        Seq::empty()
    } else {
        let rest = entries_to_send(plan.drop_last(), done);
        if done.contains(plan.last().chunk_id) {
            rest
        } else {
            rest.push(plan.last())
        }
    }
}

/// The ids of the plan entries whose chunk is in `done`, in plan order.
pub open spec fn ids_done(plan: Seq<ChunkPlanEntry>, done: Set<u32>) -> Seq<u32>
    decreases plan.len(),
{
    if plan.len() == 0 {
        Seq::empty()
    } else {
        let rest = ids_done(plan.drop_last(), done);
        if done.contains(plan.last().chunk_id) {
            rest.push(plan.last().chunk_id)
        } else {
            rest
        }
    }
}

/// The payload bytes of the plan entries whose chunk is in `done`.
pub open spec fn bytes_done(plan: Seq<ChunkPlanEntry>, done: Set<u32>) -> nat
    decreases plan.len(),
{
    if plan.len() == 0 {
        0
    } else {
        bytes_done(plan.drop_last(), done) + if done.contains(plan.last().chunk_id) {
            plan.last().payload_length as nat
        } else {
            0
        }
    }
}

proof fn lemma_bytes_done_bound(plan: Seq<ChunkPlanEntry>, done: Set<u32>)
    ensures
        bytes_done(plan, done) <= plan.len() * 0xFFFF_FFFF,
        ids_done(plan, done).len() <= plan.len(),
    decreases plan.len(),
{
    if plan.len() > 0 {
        lemma_bytes_done_bound(plan.drop_last(), done);
        assert((plan.len() - 1) * 0xFFFF_FFFF + 0xFFFF_FFFF == plan.len() * 0xFFFF_FFFF) by (
        nonlinear_arith);
    }
}

/// Every plan entry lands on exactly one side of a resume split: the entries to send
/// and the ids already held together account for the whole plan, the entries to
/// send are not held, the ids held are, and the held bytes plus the bytes to send
/// make up the plan's bytes.
pub proof fn lemma_resume_partition_complete(plan: Seq<ChunkPlanEntry>, done: Set<u32>)
    ensures
        entries_to_send(plan, done).len() + ids_done(plan, done).len() == plan.len(),
        forall|i: int|
            0 <= i < entries_to_send(plan, done).len() ==> !done.contains(
                #[trigger] entries_to_send(plan, done)[i].chunk_id,
            ),
        forall|i: int|
            0 <= i < ids_done(plan, done).len() ==> done.contains(#[trigger] ids_done(plan, done)[i]),
        bytes_done(plan, done) + bytes_done(entries_to_send(plan, done), Set::<u32>::full())
            == bytes_done(plan, Set::<u32>::full()),
    decreases plan.len(),
{
    if plan.len() > 0 {
        let p = plan.drop_last();
        lemma_resume_partition_complete(p, done);
        let rest = entries_to_send(p, done);
        if !done.contains(plan.last().chunk_id) {
            let r2 = rest.push(plan.last());
            assert(r2.drop_last() =~= rest);
            assert forall|i: int| 0 <= i < r2.len() implies !done.contains(#[trigger] r2[i].chunk_id) by {
                if i < rest.len() {
                    assert(r2[i] == rest[i]);
                }
            }
        } else {
            let d2 = ids_done(p, done).push(plan.last().chunk_id);
            assert forall|i: int| 0 <= i < d2.len() implies done.contains(#[trigger] d2[i]) by {
                if i < d2.len() - 1 {
                    assert(d2[i] == ids_done(p, done)[i]);
                }
            }
        }
    }
}

/// How a resumed send splits the plan: what is left to send, and what the receiver
/// already holds.
#[derive(Debug)]
pub struct ResumePartition {
    /// Entries still to send, in plan order.
    pub to_send: Vec<ChunkPlanEntry>,
    /// Ids already held, in plan order.
    pub completed: Vec<u32>,
    /// Payload bytes already held.
    pub bytes_done: u64,
    /// Number of chunks already held.
    pub chunks_done: u32,
}

pub(crate) fn copy_entry(e: &ChunkPlanEntry) -> (c: ChunkPlanEntry)
    ensures
        c == *e,
{
    ChunkPlanEntry { chunk_id: e.chunk_id, file_offset: e.file_offset, payload_length: e.payload_length }
}

fn ranges_hold(ranges: &Vec<(u32, u32)>, id: u32) -> (b: bool)
    ensures
        b == ranges_contain(ranges@, id),
{
    let mut i: usize = 0;
    while i < ranges.len()
        invariant
            i <= ranges@.len(),
            forall|j: int| 0 <= j < i ==> !(#[trigger] ranges@[j].0 <= id && id <= ranges@[j].1),
        decreases ranges@.len() - i,
    {
        if ranges[i].0 <= id && id <= ranges[i].1 {
            return true;
        }
        i = i + 1;
    }
    false
}

/// Splits the plan for a resumed send: a chunk is already held when one of the
/// receiver's inclusive resume ranges covers its id.
pub fn partition_for_resume(plan: &Vec<ChunkPlanEntry>, resume_ranges: &Vec<(u32, u32)>) -> (p:
    ResumePartition)
    requires
        plan@.len() <= u32::MAX,
    ensures
        p.to_send@ == entries_to_send(plan@, ranges_set(resume_ranges@)),
        p.completed@ == ids_done(plan@, ranges_set(resume_ranges@)),
        p.bytes_done == bytes_done(plan@, ranges_set(resume_ranges@)),
        p.chunks_done == p.completed@.len(),
{
    let ghost done = ranges_set(resume_ranges@);
    let mut to_send: Vec<ChunkPlanEntry> = Vec::new();
    let mut completed: Vec<u32> = Vec::new();
    let mut bytes: u64 = 0;
    let mut count: u32 = 0;
    let mut i: usize = 0;
    while i < plan.len()
        invariant
            i <= plan@.len(),
            plan@.len() <= u32::MAX,
            done == ranges_set(resume_ranges@),
            to_send@ == entries_to_send(plan@.take(i as int), done),
            completed@ == ids_done(plan@.take(i as int), done),
            bytes == bytes_done(plan@.take(i as int), done),
            count == completed@.len(),
        decreases plan@.len() - i,
    {
        let e = &plan[i];
        proof {
            let t = plan@.take(i + 1);
            assert(t.drop_last() =~= plan@.take(i as int));
            assert(t.last() == plan@[i as int]);
            lemma_bytes_done_bound(t, done);
            lemma_bytes_done_bound(plan@.take(i as int), done);
            assert((i + 1) * 0xFFFF_FFFF <= 0xFFFF_FFFF * 0xFFFF_FFFF) by (nonlinear_arith)
                requires
                    i + 1 <= 0xFFFF_FFFF,
            ;
        }
        if ranges_hold(resume_ranges, e.chunk_id) {
            bytes = bytes + e.payload_length as u64;
            count = count + 1;
            completed.push(e.chunk_id);
        } else {
            to_send.push(copy_entry(e));
        }
        i = i + 1;
    }
    proof {
        assert(plan@.take(plan@.len() as int) =~= plan@);
    }
    ResumePartition { to_send, completed, bytes_done: bytes, chunks_done: count }
}

// ---------------------------------------------------------------------------
// Sender: acknowledgments
// ---------------------------------------------------------------------------
/// What the sender has seen acknowledged. The counters advance as the shared
/// atomic counters they stand for do: modulo their width.
pub struct SenderProgress {
    completed: HashSet<u32>,
    completed_count: usize,
    bytes_sent: u64,
    chunks_done: u32,
}

/// What one acknowledgment changed.
#[derive(Debug, Clone, Copy, PartialEq, Eq, Structural)]
pub struct AckEffect {
    /// The sample the channel tracker produced, for the congestion model.
    pub sample: Option<AckSample>,
    /// The chunk was acknowledged for the first time.
    pub newly_completed: bool,
    /// Its payload length in the plan (0 for an id outside the plan).
    pub bytes: u64,
}

/// The payload length of a chunk in the plan, 0 when the plan lacks it.
pub open spec fn planned_bytes(plan: Map<u32, ChunkPlanEntry>, chunk_id: u32) -> u64 {
    if plan.contains_key(chunk_id) {
        plan[chunk_id].payload_length as u64
    } else {
        0
    }
}

/// The round-trip time credited to an acknowledgment: the time since dispatch when
/// it is known, else the last socket send time but at least 5 ms.
pub open spec fn credited_rtt(dispatched: Option<u64>, last_socket_us: u64, now_us: u64) -> u64 {
    match dispatched {
        Some(t) => if now_us >= t {
            (now_us - t) as u64
        } else {
            0
        },
        None => if last_socket_us > 5_000 {
            last_socket_us
        } else {
            5_000
        },
    }
}

impl SenderProgress {
    /// The acknowledged chunk ids.
    pub closed spec fn completed(&self) -> Set<u32> {
        self.completed@
    }

    /// The counters: acknowledged chunks, bytes, chunks with a plan entry.
    pub closed spec fn counters(&self) -> (usize, u64, u32) {
        (self.completed_count, self.bytes_sent, self.chunks_done)
    }

    /// Starts from what a resume already holds.
    pub fn new(completed_ids: &Vec<u32>, bytes_done: u64, chunks_done: u32) -> (p: Self)
        ensures
            p.completed() == completed_ids@.to_set(),
            p.counters() == (chunks_done as usize, bytes_done, chunks_done),
    {
        let mut set: HashSet<u32> = HashSet::new();
        let mut i: usize = 0;
        while i < completed_ids.len()
            invariant
                i <= completed_ids@.len(),
                set@ == completed_ids@.take(i as int).to_set(),
            decreases completed_ids@.len() - i,
        {
            proof {
                assert(completed_ids@.take(i + 1) =~= completed_ids@.take(i as int).push(
                    completed_ids@[i as int],
                ));
                completed_ids@.take(i as int).lemma_push_to_set_commute(completed_ids@[i as int]);
            }
            set.insert(completed_ids[i]);
            i = i + 1;
        }
        proof {
            assert(completed_ids@.take(completed_ids@.len() as int) =~= completed_ids@);
        }
        SenderProgress {
            completed: set,
            completed_count: chunks_done as usize,
            bytes_sent: bytes_done,
            chunks_done,
        }
    }

    /// The number of acknowledged chunks, as the shared counter holds it.
    pub fn completed_count(&self) -> (n: usize)
        ensures
            n == self.counters().0,
    {
        self.completed_count
    }

    /// The bytes acknowledged and the chunks counted for progress.
    pub fn progress(&self) -> (r: (u64, u32))
        ensures
            r == (self.counters().1, self.counters().2),
    {
        (self.bytes_sent, self.chunks_done)
    }

    /// Whether every chunk of a plan of `total` chunks is acknowledged.
    pub fn all_done(&self, total: usize) -> (b: bool)
        ensures
            b == (self.counters().0 >= total),
    {
        self.completed_count >= total
    }

    /// Handles the acknowledgment of one chunk at time `now_us`: its dispatch time
    /// leaves `in_flight_times`, the channel tracker records it with the credited
    /// round-trip time, and a chunk acknowledged for the first time joins the
    /// completed set and advances the counters (bytes and progress chunks only for
    /// an id of the plan).
    pub fn on_chunk_ack(
        &mut self,
        tracker: &mut ChannelTracker,
        in_flight_times: &mut HashMap<u32, u64>,
        plan: &HashMap<u32, ChunkPlanEntry>,
        chunk_id: u32,
        receiver_verify_us: Option<u32>,
        last_socket_us: u64,
        now_us: u64,
    ) -> (e: AckEffect)
        requires
            old(tracker).wf(),
            old(tracker).counters_below(0xFFFF_FFFF),
            old(tracker).busy_time_us + now_us <= u64::MAX,
        ensures
            final(tracker).wf(),
            e.bytes == planned_bytes(plan@, chunk_id),
            e.newly_completed == !old(self).completed().contains(chunk_id),
            final(self).completed() == old(self).completed().insert(chunk_id),
            final(in_flight_times)@ == old(in_flight_times)@.remove(chunk_id),
            e.sample == Some(
                ack_sample(
                    chunk_id,
                    e.bytes,
                    credited_rtt(old(in_flight_times)@.get(chunk_id), last_socket_us, now_us),
                    last_socket_us,
                    receiver_verify_us,
                    now_us,
                ),
            ),
            ack_recorded(
                *old(tracker),
                *final(tracker),
                chunk_id,
                e.bytes,
                credited_rtt(old(in_flight_times)@.get(chunk_id), last_socket_us, now_us),
                last_socket_us,
                receiver_verify_us,
                now_us,
            ),
            final(self).counters() == if e.newly_completed {
                (
                    old(self).counters().0.wrapping_add(1),
                    if plan@.contains_key(chunk_id) {
                        old(self).counters().1.wrapping_add(e.bytes)
                    } else {
                        old(self).counters().1
                    },
                    if plan@.contains_key(chunk_id) {
                        old(self).counters().2.wrapping_add(1)
                    } else {
                        old(self).counters().2
                    },
                )
            } else {
                old(self).counters()
            },
    {
        let bytes: u64 = match plan.get(&chunk_id) {
            Some(entry) => entry.payload_length as u64,
            None => 0,
        };
        let dispatched = in_flight_times.remove(&chunk_id);
        let rtt: u64 = match dispatched {
            Some(t) => if now_us >= t {
                now_us - t
            } else {
                0
            },
            None => if last_socket_us > MIN_UNKNOWN_RTT_US {
                last_socket_us
            } else {
                MIN_UNKNOWN_RTT_US
            },
        };
        let sample = tracker.record_chunk_ack(
            chunk_id,
            bytes,
            rtt,
            last_socket_us,
            receiver_verify_us,
            now_us,
        );
        let is_new = self.completed.insert(chunk_id);
        if is_new {
            self.completed_count = self.completed_count.wrapping_add(1);
            if plan.contains_key(&chunk_id) {
                self.bytes_sent = self.bytes_sent.wrapping_add(bytes);
                self.chunks_done = self.chunks_done.wrapping_add(1);
            }
        }
        AckEffect { sample, newly_completed: is_new, bytes }
    }
}

/// Handles a negative acknowledgment at time `now_us`: the channel tracker records
/// it with the chunk's planned size, its dispatch time is dropped, and the plan entry to send again is returned
/// (none for an id outside the plan).
pub fn on_chunk_nack(
    tracker: &mut ChannelTracker,
    in_flight_times: &mut HashMap<u32, u64>,
    plan: &HashMap<u32, ChunkPlanEntry>,
    chunk_id: u32,
    reason: &str,
    now_us: u64,
) -> (retry: Option<ChunkPlanEntry>)
    requires
        old(tracker).wf(),
        old(tracker).counters_below(0),
    ensures
        final(tracker).wf(),
        nack_recorded(*old(tracker), *final(tracker), chunk_id, planned_bytes(plan@, chunk_id), now_us),
        final(in_flight_times)@ == old(in_flight_times)@.remove(chunk_id),
        retry == plan@.get(chunk_id),
{
    let bytes: u64 = match plan.get(&chunk_id) {
        Some(entry) => entry.payload_length as u64,
        None => 0,
    };
    tracker.record_chunk_nack(chunk_id, bytes, reason, now_us);
    in_flight_times.remove(&chunk_id);
    match plan.get(&chunk_id) {
        Some(entry) => Some(copy_entry(entry)),
        None => None,
    }
}

/// The next chunk a channel sends: the front of the shared queue while the
/// channel has fewer than `window` chunks in flight, none when the window is full
/// or the queue is empty.
pub fn next_to_send(queue: &mut VecDeque<ChunkPlanEntry>, in_flight: usize, window: usize) -> (next: Option<
    ChunkPlanEntry,
>)
    ensures
        in_flight >= window ==> next is None && final(queue)@ == old(queue)@,
        in_flight < window && old(queue)@.len() == 0 ==> next is None && final(queue)@ == old(queue)@,
        in_flight < window && old(queue)@.len() > 0 ==> next == Some(old(queue)@[0]) && final(queue)@
            == old(queue)@.drop_first(),
{
    if in_flight < window {
        queue.pop_front()
    } else {
        None
    }
}

/// When a channel is lost, the chunks it had in flight are sent again: returns the
/// plan entries of the chunks whose dispatch times were pending, each once (an id
/// outside the plan has none), and forgets those dispatch times.
pub fn requeue_lost_chunks(
    in_flight_times: &mut HashMap<u32, u64>,
    plan: &HashMap<u32, ChunkPlanEntry>,
) -> (retry: Vec<ChunkPlanEntry>)
    ensures
        final(in_flight_times)@ == Map::<u32, u64>::empty(),
        exists|ids: Seq<u32>|
            {
                &&& ids.no_duplicates()
                &&& forall|c: u32| #[trigger] ids.contains(c) <==> (old(in_flight_times)@.contains_key(c)
                    && plan@.contains_key(c))
                &&& retry@.len() == ids.len()
                &&& forall|i: int| 0 <= i < ids.len() ==> retry@[i] == plan@[#[trigger] ids[i]]
            },
{
    let mut ids: Vec<u32> = Vec::new();
    let mut retry: Vec<ChunkPlanEntry> = Vec::new();
    let ghost m = in_flight_times@;
    for entry in it: in_flight_times.iter()
        invariant
            m == in_flight_times@,
            it.seq() == in_flight_times.iter().remaining(),
            it.seq().no_duplicates(),
            ids@.no_duplicates(),
            retry@.len() == ids@.len(),
            forall|i: int| 0 <= i < ids@.len() ==> retry@[i] == plan@[#[trigger] ids@[i]],
            forall|c: u32| #[trigger] ids@.contains(c) <==> (exists|j: int| 0 <= j < it.index() && *it.seq()[j].0 == c
                && plan@.contains_key(c)),
        ensures
            ids@.no_duplicates(),
            retry@.len() == ids@.len(),
            forall|i: int| 0 <= i < ids@.len() ==> retry@[i] == plan@[#[trigger] ids@[i]],
            forall|c: u32| #[trigger] ids@.contains(c) <==> (exists|j: int| 0 <= j < it.seq().len() && *it.seq()[j].0 == c
                && plan@.contains_key(c)),
    {
        let (cid, _t) = entry;
        let ghost idx = it.index();
        match plan.get(cid) {
            Some(e) => {
                proof {
                    let v = it.seq();
                    assert(v[idx] == entry);
                    if ids@.contains(*cid) {
                        let j = choose|j: int| 0 <= j < idx && *v[j].0 == *cid && plan@.contains_key(*cid);
                        assert(m.contains_key(*v[j].0) && m[*v[j].0] == *v[j].1);
                        assert(m.contains_key(*v[idx].0) && m[*v[idx].0] == *v[idx].1);
                        assert(v.unref()[j] == v.unref()[idx]);
                        assert(v[j] == v[idx]);
                        assert(false);
                    }
                }
                let ghost old_ids = ids@;
                ids.push(*cid);
                retry.push(copy_entry(e));
                proof {
                    let v = it.seq();
                    assert(ids@.drop_last() =~= old_ids);
                    assert forall|c: u32| #[trigger] ids@.contains(c) <==> (exists|j: int| 0 <= j < idx + 1 && *v[j].0 == c
                        && plan@.contains_key(c)) by {
                        if ids@.contains(c) && c != *cid {
                            let p = choose|p: int| 0 <= p < ids@.len() && ids@[p] == c;
                            assert(old_ids[p] == c);
                            assert(old_ids.contains(c));
                        }
                        if c == *cid {
                            assert(ids@[ids@.len() - 1] == c);
                        }
                        if exists|j: int| 0 <= j < idx + 1 && *v[j].0 == c && plan@.contains_key(c) {
                            let j = choose|j: int| 0 <= j < idx + 1 && *v[j].0 == c && plan@.contains_key(c);
                            if j < idx {
                                assert(old_ids.contains(c));
                                let p = choose|p: int| 0 <= p < old_ids.len() && old_ids[p] == c;
                                assert(ids@[p] == c);
                            } else {
                                assert(ids@[ids@.len() - 1] == c);
                            }
                        }
                    }
                }
            },
            None => {
                proof {
                    let v = it.seq();
                    assert(v[idx] == entry);
                    assert forall|c: u32| #[trigger] ids@.contains(c) <==> (exists|j: int| 0 <= j < idx + 1 && *v[j].0 == c
                        && plan@.contains_key(c)) by {
                        if exists|j: int| 0 <= j < idx + 1 && *v[j].0 == c && plan@.contains_key(c) {
                            let j = choose|j: int| 0 <= j < idx + 1 && *v[j].0 == c && plan@.contains_key(c);
                            assert(j != idx);
                        }
                    }
                }
            },
        }
    }
    proof {
        let v = in_flight_times.iter().remaining();
        assert forall|c: u32| #[trigger] ids@.contains(c) <==> (m.contains_key(c) && plan@.contains_key(c)) by {
            if ids@.contains(c) {
                let j = choose|j: int| 0 <= j < v.len() && *v[j].0 == c && plan@.contains_key(c);
                assert(m.contains_key(*v[j].0) && m[*v[j].0] == *v[j].1);
            }
            if m.contains_key(c) && plan@.contains_key(c) {
                assert(v.contains((&c, &m[c])));
                let j = choose|j: int| 0 <= j < v.len() && v[j] == (&c, &m[c]);
                assert(*v[j].0 == c);
            }
        }
    }
    in_flight_times.clear();
    retry
}

/// What the sending loop does about the user's control status.
#[derive(Debug, Clone, Copy, PartialEq, Eq, Structural)]
pub enum ControlAction {
    Proceed,
    Pause,
    Cancel,
}

/// A paused transfer stops with `Paused`, a cancelled one with `Cancelled`; any
/// other status, or none, lets the loop go on.
pub fn control_action(status: Option<TransferStatus>) -> (a: ControlAction)
    ensures
        a == match status {
            Some(TransferStatus::Paused) => ControlAction::Pause,
            Some(TransferStatus::Cancelled) => ControlAction::Cancel,
            _ => ControlAction::Proceed,
        },
{
    match status {
        Some(TransferStatus::Paused) => ControlAction::Pause,
        Some(TransferStatus::Cancelled) => ControlAction::Cancel,
        _ => ControlAction::Proceed,
    }
}

/// How a sending session ends once its channels have stopped.
#[derive(Debug, Clone, Copy, PartialEq, Eq, Structural)]
pub enum SendOutcome {
    /// Every chunk is acknowledged: send the completion notice.
    Finish,
    Paused,
    Cancelled,
    /// The channels died before the end.
    Disconnected,
}

/// With every chunk acknowledged the session finishes; otherwise it reports the
/// user's pause or cancel, else the loss of all channels.
pub fn send_outcome(acknowledged: usize, plan_len: usize, status: Option<TransferStatus>) -> (o:
    SendOutcome)
    ensures
        acknowledged >= plan_len ==> o == SendOutcome::Finish,
        acknowledged < plan_len ==> o == match status {
            Some(TransferStatus::Paused) => SendOutcome::Paused,
            Some(TransferStatus::Cancelled) => SendOutcome::Cancelled,
            _ => SendOutcome::Disconnected,
        },
{
    if acknowledged >= plan_len {
        return SendOutcome::Finish;
    }
    match status {
        Some(TransferStatus::Paused) => SendOutcome::Paused,
        Some(TransferStatus::Cancelled) => SendOutcome::Cancelled,
        _ => SendOutcome::Disconnected,
    }
}

/// The sender's reading of a frame while it waits for the completion acknowledgment.
#[derive(Debug, Clone, Copy, PartialEq, Eq, Structural)]
pub enum FinalAckStep {
    Done,
    KeepWaiting,
    Unexpected,
}

/// The acknowledgment with the reserved id ends the wait; late chunk
/// acknowledgments are skipped; anything else is unexpected.
pub fn final_ack_step(frame: &Message) -> (s: FinalAckStep)
    ensures
        s == match frame {
            Message::ChunkAck(a) => if a.chunk_id == COMPLETE_ACK_ID {
                FinalAckStep::Done
            } else {
                FinalAckStep::KeepWaiting
            },
            Message::BatchChunkAck(_) => FinalAckStep::KeepWaiting,
            _ => FinalAckStep::Unexpected,
        },
{
    match frame {
        Message::ChunkAck(a) => if a.chunk_id == COMPLETE_ACK_ID {
            FinalAckStep::Done
        } else {
            FinalAckStep::KeepWaiting
        },
        Message::BatchChunkAck(_) => FinalAckStep::KeepWaiting,
        _ => FinalAckStep::Unexpected,
    }
}

// ---------------------------------------------------------------------------
// Receiver
// ---------------------------------------------------------------------------
/// The receiver's answer to one chunk.
#[derive(Debug)]
pub enum ChunkVerdict {
    /// The payload failed its xxHash64 check: send this negative acknowledgment.
    Corrupt(Message),
    /// The chunk was already written: send this acknowledgment only.
    Duplicate(Message),
    /// Write the payload at its offset, then send this acknowledgment.
    Store(Message),
}

/// The receiver's verdict on the completion notice.
#[derive(Debug, Clone, Copy, PartialEq, Eq, Structural)]
pub enum CompleteVerdict {
    /// The file checksum matches: rename the file and acknowledge.
    Verified,
    /// The file checksum differs; the computed value is given.
    Mismatch(u32),
    /// Not every chunk checksum is known: compute the checksum of the written file
    /// and ask again with it.
    NeedsFileScan,
}

/// The receiver's reply to a control or liveness message.
#[derive(Debug)]
pub enum ControlReply {
    /// Set the transfer's status and send this acknowledgment.
    Acknowledge(TransferStatus, Message),
    /// The peer cancelled: mark the transfer cancelled and drop the partial file.
    Cancelled,
    /// Answer a heartbeat.
    Reply(Message),
    /// Nothing to do.
    Ignore,
}

/// The receiver holds a chunk: the exact key is tracked, or the chunk was restored
/// from resume ranges (checksum 0).
pub open spec fn chunk_held(keys: Set<ChunkKey>, chunk: ChunkDataPayload) -> bool {
    keys.contains((chunk.transfer_id, chunk.file_id, chunk.chunk_id, chunk.checksum))
        || keys.contains((chunk.transfer_id, chunk.file_id, chunk.chunk_id, 0))
}

/// Writes are idempotent: once a chunk is stored, the tracker holds it, so the same
/// chunk delivered again (a retransmission on another channel) is only acknowledged,
/// never written twice.
pub proof fn lemma_stored_chunk_is_held(before: Set<ChunkKey>, after: Set<ChunkKey>, chunk: ChunkDataPayload)
    requires
        after == before.insert((chunk.transfer_id, chunk.file_id, chunk.chunk_id, chunk.checksum)),
    ensures
        chunk_held(after, chunk),
        forall|k: ChunkKey| before.contains(k) ==> after.contains(k),
{
}

/// The acknowledgment of chunk `chunk_id` of `transfer_id`.
pub open spec fn ack_message(transfer_id: u128, chunk_id: u32, verify_us: Option<u32>) -> Message {
    Message::ChunkAck(ChunkAckData { transfer_id, chunk_id, receiver_verify_us: verify_us })
}

/// One receiving session: the offer it accepted and what it has stored.
pub struct ReceiverSession {
    transfer_id: u128,
    total_chunks: u32,
    ledger: ChunkCrcLedger,
    bytes_received: u64,
    chunks_completed: u32,
}

impl ReceiverSession {
    /// The checksums of the stored chunks.
    pub closed spec fn stored(&self) -> Map<u32, Seq<u8>> {
        self.ledger.chunks()
    }

    /// Bytes and chunks stored in this session.
    pub closed spec fn counters(&self) -> (u64, u32) {
        (self.bytes_received, self.chunks_completed)
    }

    /// The offer's transfer id and chunk count.
    pub closed spec fn offer(&self) -> (u128, u32) {
        (self.transfer_id, self.total_chunks)
    }

    /// Starts a session for an accepted offer.
    pub fn new(offer: &TransferOfferData) -> (s: Self)
        ensures
            s.offer() == (offer.transfer_id, offer.total_chunks),
            s.stored() == Map::<u32, Seq<u8>>::empty(),
            s.counters() == (0u64, 0u32),
    {
        ReceiverSession {
            transfer_id: offer.transfer_id,
            total_chunks: offer.total_chunks,
            ledger: ChunkCrcLedger::new(),
            bytes_received: 0,
            chunks_completed: 0,
        }
    }

    /// Records the bytes of a chunk that was already on disk when the session
    /// resumed, so that the whole-file checksum can be combined at the end.
    pub fn record_resumed_chunk(&mut self, chunk_id: u32, bytes: &[u8])
        ensures
            final(self).stored() == old(self).stored().insert(chunk_id, bytes@),
            final(self).counters() == old(self).counters(),
            final(self).offer() == old(self).offer(),
    {
        self.ledger.record(chunk_id, bytes);
    }

    /// Bytes and chunks stored in this session.
    pub fn progress(&self) -> (r: (u64, u32))
        ensures
            r == self.counters(),
    {
        (self.bytes_received, self.chunks_completed)
    }

    /// Decides on one chunk, which took `verify_us` microseconds to check. A payload
    /// whose xxHash64 differs from the announced checksum is refused. A chunk the
    /// tracker already holds is acknowledged again, and its checksum enters the
    /// ledger if the ledger has none for that id. Any other chunk is stored: the
    /// tracker and the checksum ledger record it, the counters grow, and it is
    /// acknowledged once written.
    pub fn on_chunk(
        &mut self,
        tracker: &mut InMemoryChunkTracker,
        chunk: &ChunkDataPayload,
        verify_us: u64,
    ) -> (v: ChunkVerdict)
        requires
            old(tracker).wf(),
            old(self).counters().0 + chunk.payload_length <= u64::MAX,
            old(self).counters().1 < u32::MAX,
        ensures
            final(tracker).wf(),
            final(self).offer() == old(self).offer(),
            ({
                let ok = spec_xxh64(chunk.payload@, 0) == chunk.checksum;
                let held = chunk_held(old(tracker).keys(), *chunk);
                let ack = ack_message(
                    chunk.transfer_id,
                    chunk.chunk_id,
                    Some(verify_us as u32),
                );
                &&& !ok ==> (v matches ChunkVerdict::Corrupt(m) && m matches Message::ChunkNack(n)
                    && n.transfer_id == chunk.transfer_id && n.chunk_id == chunk.chunk_id
                    && n.reason@ == "xxHash64 payload mismatch"@)
                &&& ok && held ==> (v matches ChunkVerdict::Duplicate(m) && m == ack)
                &&& ok && !held ==> (v matches ChunkVerdict::Store(m) && m == ack)
                &&& (ok && !held) ==> final(tracker).keys() == old(tracker).keys().insert(
                    (chunk.transfer_id, chunk.file_id, chunk.chunk_id, chunk.checksum),
                ) && final(self).stored() == old(self).stored().insert(
                    chunk.chunk_id,
                    chunk.payload@,
                ) && final(self).counters() == (
                    (old(self).counters().0 + chunk.payload_length) as u64,
                    (old(self).counters().1 + 1) as u32,
                )
                &&& !(ok && !held) ==> final(tracker).keys() == old(tracker).keys()
                    && final(self).counters() == old(self).counters()
                &&& !ok ==> final(self).stored() == old(self).stored()
                &&& ok && held ==> final(self).stored() == if old(self).stored().contains_key(
                    chunk.chunk_id,
                ) {
                    old(self).stored()
                } else {
                    old(self).stored().insert(chunk.chunk_id, chunk.payload@)
                }
            }),
    {
        let computed = compute_xxhash64(&chunk.payload);
        if computed != chunk.checksum {
            let reason = "xxHash64 payload mismatch".to_owned();
            return ChunkVerdict::Corrupt(
                Message::ChunkNack(
                    ChunkNackData {
                        transfer_id: chunk.transfer_id,
                        chunk_id: chunk.chunk_id,
                        reason,
                    },
                ),
            );
        }
        let verify: u32 = (#[verifier::truncate] (verify_us as u32));
        let ack = Message::ChunkAck(
            ChunkAckData {
                transfer_id: chunk.transfer_id,
                chunk_id: chunk.chunk_id,
                receiver_verify_us: Some(verify),
            },
        );
        if tracker.is_chunk_completed(
            chunk.transfer_id,
            chunk.file_id,
            chunk.chunk_id,
            chunk.checksum,
        ) {
            if !self.ledger.contains(chunk.chunk_id) {
                self.ledger.record(chunk.chunk_id, &chunk.payload);
            }
            return ChunkVerdict::Duplicate(ack);
        }
        self.ledger.record(chunk.chunk_id, &chunk.payload);
        tracker.mark_chunk_completed(
            chunk.transfer_id,
            chunk.file_id,
            chunk.chunk_id,
            chunk.checksum,
        );
        self.bytes_received = self.bytes_received + chunk.payload_length as u64;
        self.chunks_completed = self.chunks_completed + 1;
        ChunkVerdict::Store(ack)
    }

    /// Decides on the completion notice. The file checksum is combined from the
    /// chunk checksums when exactly the offered number of chunks is known, else it
    /// is `scanned` (the checksum of the written file) when given; it must equal the
    /// sender's.
    pub fn on_complete(&self, expected: u32, scanned: Option<u32>) -> (v: CompleteVerdict)
        ensures
            ({
                let total = self.offer().1;
                let known = self.stored().dom().len() == total && ledger_concat(
                    self.stored(),
                    total as nat,
                ).len() <= u64::MAX;
                let combined = crc32c_spec(ledger_concat(self.stored(), total as nat));
                &&& known ==> v == if combined == expected {
                    CompleteVerdict::Verified
                } else {
                    CompleteVerdict::Mismatch(combined)
                }
                &&& v matches CompleteVerdict::Verified ==> (self.stored().dom().len() == total
                    && combined == expected) || scanned == Some(expected)
                &&& v matches CompleteVerdict::Mismatch(c) ==> c != expected && (c == combined
                    || scanned == Some(c))
                &&& v is NeedsFileScan ==> !known && scanned is None
                &&& self.stored().dom().len() != total ==> match scanned {
                    Some(c) => v == if c == expected {
                        CompleteVerdict::Verified
                    } else {
                        CompleteVerdict::Mismatch(c)
                    },
                    None => v is NeedsFileScan,
                }
            }),
    {
        let crc = match self.ledger.file_crc(self.total_chunks) {
            Some(c) => c,
            None => match scanned {
                Some(c) => c,
                None => {
                    return CompleteVerdict::NeedsFileScan;
                },
            },
        };
        if crc == expected {
            CompleteVerdict::Verified
        } else {
            CompleteVerdict::Mismatch(crc)
        }
    }
}

/// The receiver's reply to a control or liveness message: a pause or resume is
/// acknowledged with its reserved id and sets the status, a cancel ends the
/// session, a heartbeat is answered with the next sequence number.
pub fn control_reply(msg: &Message) -> (r: ControlReply)
    ensures
        match msg {
            Message::Pause(p) => r matches ControlReply::Acknowledge(st, m) && st
                == TransferStatus::Paused && m == ack_message(p.transfer_id, PAUSE_ACK_ID, None),
            Message::Resume(p) => r matches ControlReply::Acknowledge(st, m) && st
                == TransferStatus::InProgress && m == ack_message(
                p.transfer_id,
                RESUME_ACK_ID,
                None,
            ),
            Message::Cancel(_) => r is Cancelled,
            Message::Heartbeat(h) => r matches ControlReply::Reply(m) && m == Message::Heartbeat(
                HeartbeatData { sequence: h.sequence.wrapping_add(1) },
            ),
            _ => r is Ignore,
        },
{
    match msg {
        Message::Pause(p) => ControlReply::Acknowledge(
            TransferStatus::Paused,
            Message::ChunkAck(
                ChunkAckData { transfer_id: p.transfer_id, chunk_id: PAUSE_ACK_ID, receiver_verify_us: None },
            ),
        ),
        Message::Resume(p) => ControlReply::Acknowledge(
            TransferStatus::InProgress,
            Message::ChunkAck(
                ChunkAckData { transfer_id: p.transfer_id, chunk_id: RESUME_ACK_ID, receiver_verify_us: None },
            ),
        ),
        Message::Cancel(_) => ControlReply::Cancelled,
        Message::Heartbeat(h) => ControlReply::Reply(
            Message::Heartbeat(HeartbeatData { sequence: h.sequence.wrapping_add(1) }),
        ),
        _ => ControlReply::Ignore,
    }
}

/// The status a receiving transfer takes when its last channel closes before the
/// transfer completed: failed, unless it was paused, cancelled or completed, whose
/// status stays.
pub fn status_after_channels_closed(current: Option<TransferStatus>) -> (s: Option<TransferStatus>)
    ensures
        s == match current {
            Some(TransferStatus::Paused) => None,
            Some(TransferStatus::Cancelled) => None,
            Some(TransferStatus::Completed) => None,
            _ => Some(TransferStatus::Failed),
        },
{
    match current {
        Some(TransferStatus::Paused) => None,
        Some(TransferStatus::Cancelled) => None,
        Some(TransferStatus::Completed) => None,
        _ => Some(TransferStatus::Failed),
    }
}

/// The acknowledgment of a whole transfer.
pub fn complete_ack(transfer_id: u128) -> (m: Message)
    ensures
        m == ack_message(transfer_id, COMPLETE_ACK_ID, None),
{
    Message::ChunkAck(ChunkAckData { transfer_id, chunk_id: COMPLETE_ACK_ID, receiver_verify_us: None })
}

} // verus!
