//! The shared bookkeeping of a send over several channels: which chunks wait to
//! be sent, which are in flight on which channel, and which are acknowledged. No
//! chunk of the plan ever drops out of all three.
use std::collections::{HashMap, VecDeque};
use vstd::prelude::*;
use vstd::std_specs::hash::group_hash_axioms;

use crate::chunk::ChunkPlanEntry;
use crate::manifest::schema::ranges_set;
use crate::scheduler::tracker::{ack_recorded, ack_sample, nack_recorded, ChannelTracker};
use crate::transfer::session::{
    bytes_done, copy_entry, credited_rtt, entries_to_send, ids_done, next_to_send, on_chunk_nack,
    partition_for_resume, planned_bytes, requeue_lost_chunks, AckEffect, ResumePartition,
    SenderProgress,
};

verus! {

broadcast use group_hash_axioms;

/// Some entry of `queue` is for chunk `c`.
pub open spec fn queued(queue: Seq<ChunkPlanEntry>, c: u32) -> bool {
    exists|i: int| 0 <= i < queue.len() && (#[trigger] queue[i]).chunk_id == c
}

proof fn lemma_split_covers(plan: Seq<ChunkPlanEntry>, done: Set<u32>)
    ensures
        forall|j: int|
            0 <= j < plan.len() ==> if done.contains((#[trigger] plan[j]).chunk_id) {
                ids_done(plan, done).contains(plan[j].chunk_id)
            } else {
                entries_to_send(plan, done).contains(plan[j])
            },
    decreases plan.len(),
{
    if plan.len() > 0 {
        let p = plan.drop_last();
        lemma_split_covers(p, done);
        let last = plan.last();
        assert forall|j: int| 0 <= j < plan.len() implies if done.contains(
            (#[trigger] plan[j]).chunk_id,
        ) {
            ids_done(plan, done).contains(plan[j].chunk_id)
        } else {
            entries_to_send(plan, done).contains(plan[j])
        } by {
            let ids = ids_done(p, done);
            let ents = entries_to_send(p, done);
            if j < plan.len() - 1 {
                assert(plan[j] == p[j]);
                if done.contains(plan[j].chunk_id) {
                    let k = choose|k: int| 0 <= k < ids.len() && ids[k] == plan[j].chunk_id;
                    if done.contains(last.chunk_id) {
                        assert(ids.push(last.chunk_id)[k] == plan[j].chunk_id);
                    }
                } else {
                    let k = choose|k: int| 0 <= k < ents.len() && ents[k] == plan[j];
                    if !done.contains(last.chunk_id) {
                        assert(ents.push(last)[k] == plan[j]);
                    }
                }
            } else {
                assert(plan[j] == last);
                if done.contains(last.chunk_id) {
                    assert(ids.push(last.chunk_id)[ids.len() as int] == last.chunk_id);
                } else {
                    assert(ents.push(last)[ents.len() as int] == last);
                }
            }
        }
    }
}

/// The bookkeeping of a send: the plan by chunk id, the queue of entries waiting
/// to be sent (front first), the channel each chunk in flight was sent on, and the
/// acknowledgments seen.
pub struct SendBook {
    plan: HashMap<u32, ChunkPlanEntry>,
    queue: VecDeque<ChunkPlanEntry>,
    owners: HashMap<u32, u32>,
    progress: SenderProgress,
}

impl SendBook {
    /// The plan entries by chunk id.
    pub closed spec fn planned(&self) -> Map<u32, ChunkPlanEntry> {
        self.plan@
    }

    /// The entries waiting to be sent, front first.
    pub closed spec fn waiting(&self) -> Seq<ChunkPlanEntry> {
        self.queue@
    }

    /// The chunks in flight, each with the channel it was sent on.
    pub closed spec fn owners(&self) -> Map<u32, u32> {
        self.owners@
    }

    /// The acknowledgments seen and the progress counters.
    pub closed spec fn tally(&self) -> SenderProgress {
        self.progress
    }

    /// Each plan entry is filed under its own chunk id.
    pub open spec fn keyed(&self) -> bool {
        forall|c: u32| #[trigger] self.planned().contains_key(c) ==> self.planned()[c].chunk_id == c
    }

    /// No chunk is lost: every chunk of the plan is acknowledged, in flight on a
    /// channel, or waiting to be sent.
    pub open spec fn no_chunk_lost(&self) -> bool {
        forall|c: u32|
            #[trigger] self.planned().contains_key(c) ==> self.tally().completed().contains(c)
                || self.owners().contains_key(c) || queued(self.waiting(), c)
    }

    #[verifier::type_invariant]
    closed spec fn inv(&self) -> bool {
        self.keyed() && self.no_chunk_lost()
    }

    fn empty() -> (b: Self) {
        let none: Vec<u32> = Vec::new();
        SendBook {
            plan: HashMap::new(),
            queue: VecDeque::new(),
            owners: HashMap::new(),
            progress: SenderProgress::new(&none, 0, 0),
        }
    }

    /// Starts the bookkeeping of a resumed send: the plan is split as
    /// `partition_for_resume` splits it (the split is returned too), the entries
    /// left to send wait in plan order, the chunks the receiver holds count as
    /// acknowledged, and nothing is in flight.
    pub fn resume(plan: &Vec<ChunkPlanEntry>, resume_ranges: &Vec<(u32, u32)>) -> (r: (
        SendBook,
        ResumePartition,
    ))
        requires
            plan@.len() <= u32::MAX,
        ensures
            r.1.to_send@ == entries_to_send(plan@, ranges_set(resume_ranges@)),
            r.1.completed@ == ids_done(plan@, ranges_set(resume_ranges@)),
            r.1.bytes_done == bytes_done(plan@, ranges_set(resume_ranges@)),
            r.1.chunks_done == r.1.completed@.len(),
            r.0.waiting() == r.1.to_send@,
            r.0.owners() == Map::<u32, u32>::empty(),
            r.0.tally().completed() == r.1.completed@.to_set(),
            r.0.tally().counters() == (r.1.chunks_done as usize, r.1.bytes_done, r.1.chunks_done),
            forall|c: u32|
                r.0.planned().contains_key(c) <==> exists|i: int|
                    0 <= i < plan@.len() && (#[trigger] plan@[i]).chunk_id == c,
            forall|c: u32| #[trigger] r.0.planned().contains_key(c) ==> plan@.contains(r.0.planned()[c]),
            r.0.keyed(),
            r.0.no_chunk_lost(),
    {
        let split = partition_for_resume(plan, resume_ranges);
        let mut map: HashMap<u32, ChunkPlanEntry> = HashMap::new();
        let mut i: usize = 0;
        while i < plan.len()
            invariant
                i <= plan@.len(),
                forall|c: u32|
                    map@.contains_key(c) <==> exists|j: int|
                        0 <= j < i && (#[trigger] plan@[j]).chunk_id == c,
                forall|c: u32| #[trigger]
                    map@.contains_key(c) ==> map@[c].chunk_id == c && plan@.contains(map@[c]),
            decreases plan@.len() - i,
        {
            let e = copy_entry(&plan[i]);
            let ghost before = map@;
            map.insert(e.chunk_id, e);
            proof {
                assert forall|c: u32|
                    map@.contains_key(c) <==> exists|j: int|
                        0 <= j < i + 1 && (#[trigger] plan@[j]).chunk_id == c by {
                    if c == e.chunk_id {
                        assert(plan@[i as int].chunk_id == c);
                    } else if map@.contains_key(c) {
                        assert(before.contains_key(c));
                    } else if exists|j: int| 0 <= j < i + 1 && (#[trigger] plan@[j]).chunk_id == c {
                        let j = choose|j: int| 0 <= j < i + 1 && (#[trigger] plan@[j]).chunk_id == c;
                        assert(j != i);
                        assert(before.contains_key(c));
                    }
                }
                assert(plan@[i as int] == e);
                assert(plan@.contains(e));
            }
            i = i + 1;
        }
        let mut queue: VecDeque<ChunkPlanEntry> = VecDeque::new();
        let mut k: usize = 0;
        while k < split.to_send.len()
            invariant
                k <= split.to_send@.len(),
                queue@ == split.to_send@.take(k as int),
            decreases split.to_send@.len() - k,
        {
            queue.push_back(copy_entry(&split.to_send[k]));
            proof {
                assert(split.to_send@.take(k + 1) =~= split.to_send@.take(k as int).push(
                    split.to_send@[k as int],
                ));
            }
            k = k + 1;
        }
        proof {
            assert(split.to_send@.take(split.to_send@.len() as int) =~= split.to_send@);
        }
        let progress = SenderProgress::new(&split.completed, split.bytes_done, split.chunks_done);
        let ghost done = ranges_set(resume_ranges@);
        proof {
            lemma_split_covers(plan@, done);
            assert forall|c: u32| #[trigger] map@.contains_key(c) implies progress.completed().contains(c)
                || queued(queue@, c) by {
                let j = choose|j: int| 0 <= j < plan@.len() && (#[trigger] plan@[j]).chunk_id == c;
                if done.contains(plan@[j].chunk_id) {
                    assert(split.completed@.contains(c));
                } else {
                    assert(split.to_send@.contains(plan@[j]));
                    let q = choose|q: int| 0 <= q < queue@.len() && queue@[q] == plan@[j];
                    assert(queue@[q].chunk_id == c);
                }
            }
        }
        let owners: HashMap<u32, u32> = HashMap::new();
        let book = SendBook { plan: map, queue, owners, progress };
        proof {
            use_type_invariant(&book);
        }
        (book, split)
    }

    /// Takes the next chunk for `channel`, which has `in_flight` chunks out under a
    /// window of `window`: the front of the queue, now in flight on that channel;
    /// none when the window is full or nothing waits.
    pub fn take_next(&mut self, channel: u32, in_flight: usize, window: usize) -> (next: Option<
        ChunkPlanEntry,
    >)
        ensures
            final(self).planned() == old(self).planned(),
            final(self).tally() == old(self).tally(),
            in_flight >= window || old(self).waiting().len() == 0 ==> next is None
                && final(self).waiting() == old(self).waiting()
                && final(self).owners() == old(self).owners(),
            in_flight < window && old(self).waiting().len() > 0 ==> next == Some(
                old(self).waiting()[0],
            ) && final(self).waiting() == old(self).waiting().drop_first() && final(self).owners()
                == old(self).owners().insert(old(self).waiting()[0].chunk_id, channel),
            final(self).keyed(),
            final(self).no_chunk_lost(),
    {
        let mut b = SendBook::empty();
        std::mem::swap(&mut b, self);
        proof {
            use_type_invariant(&b);
        }
        let ghost b0 = b;
        let SendBook { plan, mut queue, mut owners, progress } = b;
        let ghost q0 = queue@;
        let ghost o0 = owners@;
        let next = next_to_send(&mut queue, in_flight, window);
        match &next {
            Some(e) => {
                owners.insert(e.chunk_id, channel);
            },
            None => {},
        }
        proof {
            assert forall|c: u32| #[trigger] plan@.contains_key(c) implies progress.completed().contains(c)
                || owners@.contains_key(c) || queued(queue@, c) by {
                assert(b0.planned().contains_key(c));
                if queued(q0, c) && next is Some {
                    let i = choose|i: int| 0 <= i < q0.len() && (#[trigger] q0[i]).chunk_id == c;
                    if i > 0 {
                        assert(queue@[i - 1] == q0[i]);
                    }
                }
            }
        }
        proof {
            assert forall|c: u32| #[trigger] plan@.contains_key(c) implies plan@[c].chunk_id == c by {
                assert(b0.planned().contains_key(c));
            }
        }
        *self = SendBook { plan, queue, owners, progress };
        proof {
            use_type_invariant(&*self);
        }
        next
    }

    /// Puts an entry taken but not sent back at the front of the queue; it is no
    /// longer in flight.
    pub fn put_back(&mut self, entry: ChunkPlanEntry)
        ensures
            final(self).planned() == old(self).planned(),
            final(self).tally() == old(self).tally(),
            final(self).waiting() == seq![entry] + old(self).waiting(),
            final(self).owners() == old(self).owners().remove(entry.chunk_id),
            final(self).keyed(),
            final(self).no_chunk_lost(),
    {
        let mut b = SendBook::empty();
        std::mem::swap(&mut b, self);
        proof {
            use_type_invariant(&b);
        }
        let ghost b0 = b;
        let SendBook { plan, mut queue, mut owners, progress } = b;
        let ghost q0 = queue@;
        let id = entry.chunk_id;
        queue.push_front(entry);
        owners.remove(&id);
        proof {
            assert(queue@[0].chunk_id == id);
            assert forall|c: u32| #[trigger] plan@.contains_key(c) implies progress.completed().contains(c)
                || owners@.contains_key(c) || queued(queue@, c) by {
                assert(b0.planned().contains_key(c));
                if queued(q0, c) {
                    let i = choose|i: int| 0 <= i < q0.len() && (#[trigger] q0[i]).chunk_id == c;
                    assert(queue@[i + 1] == q0[i]);
                }
            }
        }
        proof {
            assert forall|c: u32| #[trigger] plan@.contains_key(c) implies plan@[c].chunk_id == c by {
                assert(b0.planned().contains_key(c));
            }
        }
        *self = SendBook { plan, queue, owners, progress };
        proof {
            use_type_invariant(&*self);
        }
    }

    /// Handles the acknowledgment of a chunk on a channel, as
    /// `SenderProgress::on_chunk_ack` does with this plan; the chunk is no longer in
    /// flight.
    pub fn on_chunk_ack(
        &mut self,
        tracker: &mut ChannelTracker,
        in_flight_times: &mut HashMap<u32, u64>,
        chunk_id: u32,
        receiver_verify_us: Option<u32>,
        last_socket_us: u64,
        now_us: u64,
    ) -> (e: AckEffect)
        requires
            old(tracker).wf(),
            old(tracker).counters_below(0xFFFF_FFFF),
            old(tracker).busy_time_us + now_us <= u64::MAX,
        ensures
            final(self).planned() == old(self).planned(),
            final(self).waiting() == old(self).waiting(),
            final(self).owners() == old(self).owners().remove(chunk_id),
            final(tracker).wf(),
            e.bytes == planned_bytes(old(self).planned(), chunk_id),
            e.newly_completed == !old(self).tally().completed().contains(chunk_id),
            final(self).tally().completed() == old(self).tally().completed().insert(chunk_id),
            final(in_flight_times)@ == old(in_flight_times)@.remove(chunk_id),
            e.sample == Some(
                ack_sample(
                    chunk_id,
                    e.bytes,
                    credited_rtt(old(in_flight_times)@.get(chunk_id), last_socket_us, now_us),
                    last_socket_us,
                    receiver_verify_us,
                    now_us,
                ),
            ),
            ack_recorded(
                *old(tracker),
                *final(tracker),
                chunk_id,
                e.bytes,
                credited_rtt(old(in_flight_times)@.get(chunk_id), last_socket_us, now_us),
                last_socket_us,
                receiver_verify_us,
                now_us,
            ),
            final(self).tally().counters() == if e.newly_completed {
                (
                    old(self).tally().counters().0.wrapping_add(1),
                    if old(self).planned().contains_key(chunk_id) {
                        old(self).tally().counters().1.wrapping_add(e.bytes)
                    } else {
                        old(self).tally().counters().1
                    },
                    if old(self).planned().contains_key(chunk_id) {
                        old(self).tally().counters().2.wrapping_add(1)
                    } else {
                        old(self).tally().counters().2
                    },
                )
            } else {
                old(self).tally().counters()
            },
            final(self).keyed(),
            final(self).no_chunk_lost(),
    {
        let mut b = SendBook::empty();
        std::mem::swap(&mut b, self);
        proof {
            use_type_invariant(&b);
        }
        let ghost b0 = b;
        let SendBook { plan, queue, mut owners, mut progress } = b;
        let e = progress.on_chunk_ack(
            tracker,
            in_flight_times,
            &plan,
            chunk_id,
            receiver_verify_us,
            last_socket_us,
            now_us,
        );
        owners.remove(&chunk_id);
        proof {
            assert forall|c: u32| #[trigger] plan@.contains_key(c) implies progress.completed().contains(c)
                || owners@.contains_key(c) || queued(queue@, c) by {
                assert(b0.planned().contains_key(c));
            }
        }
        proof {
            assert forall|c: u32| #[trigger] plan@.contains_key(c) implies plan@[c].chunk_id == c by {
                assert(b0.planned().contains_key(c));
            }
        }
        *self = SendBook { plan, queue, owners, progress };
        proof {
            use_type_invariant(&*self);
        }
        e
    }

    /// Handles the negative acknowledgment of a chunk on a channel, as the free
    /// `on_chunk_nack` does with this plan: the plan entry returned goes back to
    /// the front of the queue, and the chunk is no longer in flight.
    pub fn on_chunk_nack(
        &mut self,
        tracker: &mut ChannelTracker,
        in_flight_times: &mut HashMap<u32, u64>,
        chunk_id: u32,
        reason: &str,
        now_us: u64,
    ) -> (retry: Option<ChunkPlanEntry>)
        requires
            old(tracker).wf(),
            old(tracker).counters_below(0),
        ensures
            final(self).planned() == old(self).planned(),
            final(self).tally() == old(self).tally(),
            final(tracker).wf(),
            nack_recorded(
                *old(tracker),
                *final(tracker),
                chunk_id,
                planned_bytes(old(self).planned(), chunk_id),
                now_us,
            ),
            final(in_flight_times)@ == old(in_flight_times)@.remove(chunk_id),
            retry == old(self).planned().get(chunk_id),
            final(self).waiting() == match retry {
                Some(e) => seq![e] + old(self).waiting(),
                None => old(self).waiting(),
            },
            final(self).owners() == old(self).owners().remove(chunk_id),
            final(self).keyed(),
            final(self).no_chunk_lost(),
    {
        let mut b = SendBook::empty();
        std::mem::swap(&mut b, self);
        proof {
            use_type_invariant(&b);
        }
        let ghost b0 = b;
        let SendBook { plan, mut queue, mut owners, progress } = b;
        let ghost q0 = queue@;
        let retry = on_chunk_nack(tracker, in_flight_times, &plan, chunk_id, reason, now_us);
        match &retry {
            Some(e) => {
                queue.push_front(copy_entry(e));
            },
            None => {},
        }
        owners.remove(&chunk_id);
        proof {
            assert forall|c: u32| #[trigger] plan@.contains_key(c) implies progress.completed().contains(c)
                || owners@.contains_key(c) || queued(queue@, c) by {
                assert(b0.planned().contains_key(c));
                if c == chunk_id {
                    assert(queue@[0].chunk_id == c);
                } else if queued(q0, c) && retry is Some {
                    let i = choose|i: int| 0 <= i < q0.len() && (#[trigger] q0[i]).chunk_id == c;
                    assert(queue@[i + 1] == q0[i]);
                }
            }
        }
        proof {
            assert forall|c: u32| #[trigger] plan@.contains_key(c) implies plan@[c].chunk_id == c by {
                assert(b0.planned().contains_key(c));
            }
        }
        *self = SendBook { plan, queue, owners, progress };
        proof {
            use_type_invariant(&*self);
        }
        retry
    }

    /// A channel is lost: each chunk whose dispatch time it still held and that the
    /// plan has goes back to the front of the queue (the entries `requeue_lost_chunks`
    /// lists, the last of them first) and is no longer in flight, and the channel's
    /// dispatch times are forgotten. Returns how many went back.
    pub fn requeue_channel(&mut self, in_flight_times: &mut HashMap<u32, u64>) -> (n: usize)
        ensures
            final(self).planned() == old(self).planned(),
            final(self).tally() == old(self).tally(),
            final(in_flight_times)@ == Map::<u32, u64>::empty(),
            final(self).waiting().len() == old(self).waiting().len() + n,
            final(self).waiting().skip(n as int) == old(self).waiting(),
            forall|i: int|
                0 <= i < n ==> old(self).planned().contains_key(
                    (#[trigger] final(self).waiting()[i]).chunk_id,
                ) && final(self).waiting()[i] == old(self).planned()[final(self).waiting()[i].chunk_id]
                    && old(in_flight_times)@.contains_key(
                    final(self).waiting()[i].chunk_id,
                ),
            forall|c: u32|
                old(in_flight_times)@.contains_key(c) && old(self).planned().contains_key(c)
                    ==> exists|i: int| 0 <= i < n && (#[trigger] final(self).waiting()[i]).chunk_id == c,
            final(self).owners() == old(self).owners().remove_keys(
                old(in_flight_times)@.dom().intersect(old(self).planned().dom()),
            ),
            final(self).keyed(),
            final(self).no_chunk_lost(),
    {
        let mut b = SendBook::empty();
        std::mem::swap(&mut b, self);
        proof {
            use_type_invariant(&b);
        }
        let ghost b0 = b;
        let SendBook { plan, mut queue, mut owners, progress } = b;
        let ghost q0 = queue@;
        let ghost o0 = owners@;
        let ghost t0 = in_flight_times@;
        let retry = requeue_lost_chunks(in_flight_times, &plan);
        let ghost ids = choose|ids: Seq<u32>|
            {
                &&& ids.no_duplicates()
                &&& forall|c: u32| #[trigger] ids.contains(c) <==> (t0.contains_key(c)
                    && plan@.contains_key(c))
                &&& retry@.len() == ids.len()
                &&& forall|i: int| 0 <= i < ids.len() ==> retry@[i] == plan@[#[trigger] ids[i]]
            };
        proof {
            assert forall|i: int| 0 <= i < ids.len() implies plan@.contains_key(#[trigger] ids[i])
                && retry@[i].chunk_id == ids[i] by {
                assert(ids.contains(ids[i]));
                assert(b0.planned().contains_key(ids[i]));
            }
            assert(ids.take(0).to_set() =~= Set::<u32>::empty());
            assert(o0.remove_keys(Set::<u32>::empty()) =~= o0);
            assert(q0.skip(0) =~= q0);
        }
        let mut k: usize = 0;
        while k < retry.len()
            invariant
                k <= retry@.len(),
                retry@.len() == ids.len(),
                forall|i: int| 0 <= i < ids.len() ==> plan@.contains_key(#[trigger] ids[i])
                    && retry@[i].chunk_id == ids[i] && retry@[i] == plan@[ids[i]],
                queue@.len() == q0.len() + k,
                queue@.skip(k as int) == q0,
                forall|i: int| 0 <= i < k ==> #[trigger] queue@[i] == retry@[k - 1 - i],
                owners@ == o0.remove_keys(ids.take(k as int).to_set()),
            decreases retry@.len() - k,
        {
            let e = copy_entry(&retry[k]);
            let id = e.chunk_id;
            let ghost qb = queue@;
            let ghost ob = owners@;
            queue.push_front(e);
            owners.remove(&id);
            proof {
                assert(queue@.skip(k + 1) =~= qb.skip(k as int));
                assert forall|i: int| 0 <= i < k + 1 implies #[trigger] queue@[i] == retry@[k - i] by {
                    if i > 0 {
                        assert(queue@[i] == qb[i - 1]);
                    }
                }
                assert(ids.take(k + 1) =~= ids.take(k as int).push(ids[k as int]));
                assert(ids.take(k + 1).to_set() =~= ids.take(k as int).to_set().insert(ids[k as int]))
                    by {
                    ids.take(k as int).lemma_push_to_set_commute(ids[k as int]);
                }
                assert(owners@ =~= o0.remove_keys(ids.take(k + 1).to_set()));
            }
            k = k + 1;
        }
        let n = k;
        proof {
            assert(ids.take(n as int) =~= ids);
            assert(ids.to_set() =~= t0.dom().intersect(plan@.dom()));
            assert forall|c: u32| #[trigger] plan@.contains_key(c) implies progress.completed().contains(c)
                || owners@.contains_key(c) || queued(queue@, c) by {
                assert(b0.planned().contains_key(c));
                if ids.contains(c) {
                    let j = choose|j: int| 0 <= j < ids.len() && ids[j] == c;
                    assert(queue@[n - 1 - j] == retry@[j]);
                } else if queued(q0, c) {
                    let i = choose|i: int| 0 <= i < q0.len() && (#[trigger] q0[i]).chunk_id == c;
                    assert(queue@[n + i] == q0[i]);
                }
            }
            assert forall|c: u32|
                t0.contains_key(c) && plan@.contains_key(c) implies exists|i: int|
                0 <= i < n && (#[trigger] queue@[i]).chunk_id == c by {
                assert(ids.contains(c));
                let j = choose|j: int| 0 <= j < ids.len() && ids[j] == c;
                assert(queue@[n - 1 - j] == retry@[j]);
            }
            assert forall|i: int| 0 <= i < n implies plan@.contains_key((#[trigger] queue@[i]).chunk_id)
                && queue@[i] == plan@[queue@[i].chunk_id] && t0.contains_key(queue@[i].chunk_id) by {
                let j = n - 1 - i;
                assert(queue@[i] == retry@[j]);
                assert(ids.contains(ids[j]));
            }
            assert forall|c: u32| #[trigger] plan@.contains_key(c) implies plan@[c].chunk_id == c by {
                assert(b0.planned().contains_key(c));
            }
        }
        *self = SendBook { plan, queue, owners, progress };
        proof {
            use_type_invariant(&*self);
        }
        n
    }

    /// Whether every chunk of a plan of `total` chunks is acknowledged.
    pub fn all_done(&self, total: usize) -> (b: bool)
        ensures
            b == (self.tally().counters().0 >= total),
    {
        self.progress.all_done(total)
    }

    /// The number of acknowledged chunks.
    pub fn completed_count(&self) -> (n: usize)
        ensures
            n == self.tally().counters().0,
    {
        self.progress.completed_count()
    }

    /// The bytes acknowledged and the chunks counted for progress.
    pub fn progress(&self) -> (r: (u64, u32))
        ensures
            r == (self.tally().counters().1, self.tally().counters().2),
    {
        self.progress.progress()
    }
}

} // verus!
