//! Ground-truth channel state tracking, in-flight accounting and the channel
//! health state machine. Times are microseconds on a caller-supplied monotonic clock.
use std::collections::HashSet;
use vstd::prelude::*;
use vstd::std_specs::hash::group_hash_axioms;

verus! {

broadcast use group_hash_axioms;

/// Lifecycle state of a transport channel.
#[derive(Debug, Clone, Copy, PartialEq, Eq, Structural)]
pub enum ChannelState {
    /// Channel just registered; no performance data available.
    Unknown,
    /// Channel undergoing initial probing to establish baseline.
    WarmingUp,
    /// Channel actively transferring data with stable performance.
    Active,
    /// Channel has experienced performance collapse or severe latency spike.
    Degraded,
    /// Channel is being sent limited traffic to test if performance has recovered.
    Probing,
}

/// Raw sample recorded upon chunk acknowledgment.
#[derive(Debug, Clone, Copy, PartialEq, Eq, Structural)]
pub struct AckSample {
    pub chunk_id: u32,
    pub bytes: u64,
    pub ack_turnaround_us: u64,
    pub socket_send_duration_us: u64,
    pub receiver_verify_us: Option<u32>,
    pub ack_residual_us: u64,
    pub timestamp_us: u64,
}

/// Capacity of the recent-samples ring.
pub const RECENT_SAMPLES_CAPACITY: usize = 32;

/// One microsecond second.
pub const ONE_SECOND_US: u64 = 1_000_000;

/// A sample whose send blocked longer than 100 ms or whose acknowledgment took longer than 1.5 s.
pub open spec fn is_severe(sample: AckSample) -> bool {
    sample.socket_send_duration_us > 100_000 || sample.ack_turnaround_us > 1_500_000
}

/// A sample whose send took under 10 ms and whose acknowledgment came within 0.5 s.
pub open spec fn is_healthy(sample: AckSample) -> bool {
    sample.socket_send_duration_us < 10_000 && sample.ack_turnaround_us < 500_000
}

/// Elapsed time from `from` to `to`, zero if `to` is earlier.
pub open spec fn elapsed_us(from: u64, to: u64) -> u64 {
    if to >= from {
        (to - from) as u64
    } else {
        0
    }
}

/// The sample an acknowledgment produces: its residual is the round trip minus the
/// receiver's verification time (zero if that is longer).
pub open spec fn ack_sample(
    chunk_id: u32,
    bytes: u64,
    ack_turnaround_us: u64,
    socket_send_duration_us: u64,
    receiver_verify_us: Option<u32>,
    now_us: u64,
) -> AckSample {
    let verify: u64 = match receiver_verify_us {
        Some(v) => v as u64,
        None => 0,
    };
    AckSample {
        chunk_id,
        bytes,
        ack_turnaround_us,
        socket_send_duration_us,
        receiver_verify_us,
        ack_residual_us: if ack_turnaround_us >= verify {
            (ack_turnaround_us - verify) as u64
        } else {
            0
        },
        timestamp_us: now_us,
    }
}

/// `after` is `before` once the acknowledgment of chunk `chunk_id` (`bytes` bytes)
/// is recorded at `now_us`: the chunk leaves flight and its bytes leave the
/// in-flight count, the busy period closes when nothing is left in flight, the
/// inter-ack interval and the one-second ack window advance, the acked counters
/// grow, the sample joins the last 32, and the health streaks and the state
/// machine take the sample; every other field is unchanged.
pub open spec fn ack_recorded(
    before: ChannelTracker,
    after: ChannelTracker,
    chunk_id: u32,
    bytes: u64,
    ack_turnaround_us: u64,
    socket_send_duration_us: u64,
    receiver_verify_us: Option<u32>,
    now_us: u64,
) -> bool {
    let sample = ack_sample(chunk_id, bytes, ack_turnaround_us, socket_send_duration_us, receiver_verify_us, now_us);
    let was_in_flight = before.in_flight_chunks@.contains(chunk_id);
    let sev = if is_severe(sample) {
        before.consecutive_severe_samples + 1
    } else {
        0
    };
    let hea = if is_severe(sample) {
        0
    } else if is_healthy(sample) {
        before.consecutive_healthy_samples + 1
    } else {
        0
    };
    let kept = if before.recent_samples@.len() == RECENT_SAMPLES_CAPACITY {
        before.recent_samples@.drop_first()
    } else {
        before.recent_samples@
    };
    &&& after.in_flight_chunks@ == before.in_flight_chunks@.remove(chunk_id)
    &&& after.in_flight_bytes == (if was_in_flight {
        if before.in_flight_bytes >= bytes {
            (before.in_flight_bytes - bytes) as u64
        } else {
            0
        }
    } else {
        before.in_flight_bytes
    })
    &&& after.last_busy_start_us == (if after.in_flight_chunks@ == Set::<u32>::empty() {
        None
    } else {
        before.last_busy_start_us
    })
    &&& after.busy_time_us == (match before.last_busy_start_us {
        Some(start) => if after.in_flight_chunks@ == Set::<u32>::empty() {
            (before.busy_time_us + elapsed_us(start, now_us)) as u64
        } else {
            before.busy_time_us
        },
        None => before.busy_time_us,
    })
    &&& after.last_inter_ack_us == (match before.last_ack_time_us {
        Some(last) => Some(elapsed_us(last, now_us)),
        None => before.last_inter_ack_us,
    })
    &&& after.last_ack_time_us == Some(now_us)
    &&& (match before.ack_window_start_us {
        Some(ws) => if elapsed_us(ws, now_us) >= ONE_SECOND_US {
            after.ack_window_start_us == Some(now_us) && after.ack_window_bytes == bytes
        } else {
            after.ack_window_start_us == Some(ws) && after.ack_window_bytes == before.ack_window_bytes + bytes
        },
        None => after.ack_window_start_us == Some(now_us) && after.ack_window_bytes == bytes,
    })
    &&& after.total_chunks_acked == before.total_chunks_acked + 1
    &&& after.total_bytes_acked == before.total_bytes_acked + bytes
    &&& after.recent_samples@ == kept.push(sample)
    &&& after.consecutive_severe_samples == sev
    &&& after.consecutive_healthy_samples == (if after.state == ChannelState::Probing && before.state
        == ChannelState::Degraded {
        0
    } else {
        hea
    })
    &&& after.state == spec_next_state(
        before.state,
        sev as nat,
        hea as nat,
        after.total_chunks_acked as nat,
        before.last_degraded_time_us,
        now_us,
    )
    &&& after.last_degraded_time_us == (if after.state == ChannelState::Degraded && before.state
        != ChannelState::Degraded {
        Some(now_us)
    } else {
        before.last_degraded_time_us
    })
    &&& after.name == before.name
    &&& after.session_start_us == before.session_start_us
    &&& after.total_chunks_sent == before.total_chunks_sent
    &&& after.total_chunks_nacked == before.total_chunks_nacked
    &&& after.total_bytes_sent == before.total_bytes_sent
    &&& after.disconnect_count == before.disconnect_count
    &&& after.max_in_flight_observed == before.max_in_flight_observed
}

/// `after` is `before` once the negative acknowledgment of chunk `chunk_id`
/// (`bytes` bytes) is recorded at `now_us`: the chunk and its bytes leave flight,
/// the failure count and the severity streak grow by one, and an active channel
/// whose streak reaches four is degraded at `now_us`; every other field is
/// unchanged.
pub open spec fn nack_recorded(
    before: ChannelTracker,
    after: ChannelTracker,
    chunk_id: u32,
    bytes: u64,
    now_us: u64,
) -> bool {
    let was_in_flight = before.in_flight_chunks@.contains(chunk_id);
    let degrade = before.consecutive_severe_samples + 1 >= 4 && before.state == ChannelState::Active;
    &&& after.in_flight_chunks@ == before.in_flight_chunks@.remove(chunk_id)
    &&& after.in_flight_bytes == (if was_in_flight {
        if before.in_flight_bytes >= bytes {
            (before.in_flight_bytes - bytes) as u64
        } else {
            0
        }
    } else {
        before.in_flight_bytes
    })
    &&& after.total_chunks_nacked == before.total_chunks_nacked + 1
    &&& after.consecutive_severe_samples == before.consecutive_severe_samples + 1
    &&& after.state == (if degrade {
        ChannelState::Degraded
    } else {
        before.state
    })
    &&& after.last_degraded_time_us == (if degrade {
        Some(now_us)
    } else {
        before.last_degraded_time_us
    })
    &&& after.name == before.name
    &&& after.session_start_us == before.session_start_us
    &&& after.max_in_flight_observed == before.max_in_flight_observed
    &&& after.total_chunks_sent == before.total_chunks_sent
    &&& after.total_chunks_acked == before.total_chunks_acked
    &&& after.total_bytes_sent == before.total_bytes_sent
    &&& after.total_bytes_acked == before.total_bytes_acked
    &&& after.disconnect_count == before.disconnect_count
    &&& after.last_ack_time_us == before.last_ack_time_us
    &&& after.ack_window_start_us == before.ack_window_start_us
    &&& after.ack_window_bytes == before.ack_window_bytes
    &&& after.last_inter_ack_us == before.last_inter_ack_us
    &&& after.busy_time_us == before.busy_time_us
    &&& after.last_busy_start_us == before.last_busy_start_us
    &&& after.consecutive_healthy_samples == before.consecutive_healthy_samples
    &&& after.recent_samples@ == before.recent_samples@
}

/// Ground-truth tracker for an individual transport channel.
pub struct ChannelTracker {
    pub name: String,
    pub state: ChannelState,
    pub session_start_us: u64,
    pub in_flight_chunks: HashSet<u32>,
    pub in_flight_bytes: u64,
    pub max_in_flight_observed: usize,
    pub total_chunks_sent: u64,
    pub total_chunks_acked: u64,
    pub total_chunks_nacked: u64,
    pub total_bytes_sent: u64,
    pub total_bytes_acked: u64,
    pub disconnect_count: u32,
    pub last_ack_time_us: Option<u64>,
    pub ack_window_start_us: Option<u64>,
    pub ack_window_bytes: u64,
    pub last_inter_ack_us: Option<u64>,
    pub busy_time_us: u64,
    pub last_busy_start_us: Option<u64>,
    pub consecutive_severe_samples: usize,
    pub consecutive_healthy_samples: usize,
    pub last_degraded_time_us: Option<u64>,
    pub recent_samples: Vec<AckSample>,
}

/// The state after the hysteresis rules see one more sample, given the updated
/// severe/healthy streaks, the acknowledged count, the last degradation time and now.
pub open spec fn spec_next_state(
    state: ChannelState,
    severe_streak: nat,
    healthy_streak: nat,
    acked: nat,
    last_degraded: Option<u64>,
    now_us: u64,
) -> ChannelState {
    match state {
        ChannelState::Unknown => ChannelState::WarmingUp,
        ChannelState::WarmingUp => if acked >= 3 {
            ChannelState::Active
        } else {
            ChannelState::WarmingUp
        },
        ChannelState::Active => if severe_streak >= 4 {
            ChannelState::Degraded
        } else {
            ChannelState::Active
        },
        ChannelState::Degraded => match last_degraded {
            Some(t) => if elapsed_us(t, now_us) >= 1_000_000 {
                ChannelState::Probing
            } else {
                ChannelState::Degraded
            },
            None => ChannelState::Degraded,
        },
        ChannelState::Probing => if healthy_streak >= 6 {
            ChannelState::Active
        } else if severe_streak >= 2 {
            ChannelState::Degraded
        } else {
            ChannelState::Probing
        },
    }
}

impl ChannelTracker {
    /// The counters that the recording methods increment stay below these bounds.
    pub open spec fn counters_below(&self, bytes: u64) -> bool {
        &&& self.in_flight_bytes + bytes <= u64::MAX
        &&& self.total_chunks_sent < u64::MAX
        &&& self.total_chunks_acked < u64::MAX
        &&& self.total_chunks_nacked < u64::MAX
        &&& self.total_bytes_sent + bytes <= u64::MAX
        &&& self.total_bytes_acked + bytes <= u64::MAX
        &&& self.ack_window_bytes + bytes <= u64::MAX
        &&& self.consecutive_severe_samples < usize::MAX
        &&& self.consecutive_healthy_samples < usize::MAX
    }

    /// At most 32 recent samples are kept.
    pub open spec fn wf(&self) -> bool {
        self.recent_samples@.len() <= RECENT_SAMPLES_CAPACITY
    }

    /// A tracker for a channel registered at time `now_us`.
    pub fn new(name: String, now_us: u64) -> (t: Self)
        ensures
            t.wf(),
            t.name == name,
            t.state == ChannelState::Unknown,
            t.session_start_us == now_us,
            t.in_flight_chunks@ == Set::<u32>::empty(),
            t.in_flight_bytes == 0,
            t.max_in_flight_observed == 0,
            t.total_chunks_sent == 0,
            t.total_chunks_acked == 0,
            t.total_chunks_nacked == 0,
            t.total_bytes_sent == 0,
            t.total_bytes_acked == 0,
            t.disconnect_count == 0,
            t.last_ack_time_us is None,
            t.ack_window_start_us is None,
            t.ack_window_bytes == 0,
            t.last_inter_ack_us is None,
            t.busy_time_us == 0,
            t.last_busy_start_us is None,
            t.consecutive_severe_samples == 0,
            t.consecutive_healthy_samples == 0,
            t.last_degraded_time_us is None,
            t.recent_samples@ == Seq::<AckSample>::empty(),
    {
        Self {
            name,
            state: ChannelState::Unknown,
            session_start_us: now_us,
            in_flight_chunks: HashSet::new(),
            in_flight_bytes: 0,
            max_in_flight_observed: 0,
            total_chunks_sent: 0,
            total_chunks_acked: 0,
            total_chunks_nacked: 0,
            total_bytes_sent: 0,
            total_bytes_acked: 0,
            disconnect_count: 0,
            last_ack_time_us: None,
            ack_window_start_us: None,
            ack_window_bytes: 0,
            last_inter_ack_us: None,
            busy_time_us: 0,
            last_busy_start_us: None,
            consecutive_severe_samples: 0,
            consecutive_healthy_samples: 0,
            last_degraded_time_us: None,
            recent_samples: Vec::new(),
        }
    }

    /// Records when a chunk is dispatched on this channel at time `now_us`.
    pub fn record_chunk_sent(&mut self, chunk_id: u32, bytes: u64, now_us: u64)
        requires
            old(self).counters_below(bytes),
        ensures
            final(self).in_flight_chunks@ == old(self).in_flight_chunks@.insert(chunk_id),
            final(self).in_flight_bytes == old(self).in_flight_bytes + bytes,
            final(self).total_chunks_sent == old(self).total_chunks_sent + 1,
            final(self).total_bytes_sent == old(self).total_bytes_sent + bytes,
            final(self).last_busy_start_us == (if old(self).in_flight_chunks@ == Set::<u32>::empty()
                && old(self).last_busy_start_us is None {
                Some(now_us)
            } else {
                old(self).last_busy_start_us
            }),
            final(self).max_in_flight_observed == (if final(self).in_flight_chunks@.len()
                > old(self).max_in_flight_observed {
                final(self).in_flight_chunks@.len() as usize
            } else {
                old(self).max_in_flight_observed
            }),
            final(self).state == (if old(self).state == ChannelState::Unknown {
                ChannelState::WarmingUp
            } else {
                old(self).state
            }),
            final(self).name == old(self).name,
            final(self).session_start_us == old(self).session_start_us,
            final(self).total_chunks_acked == old(self).total_chunks_acked,
            final(self).total_chunks_nacked == old(self).total_chunks_nacked,
            final(self).total_bytes_acked == old(self).total_bytes_acked,
            final(self).disconnect_count == old(self).disconnect_count,
            final(self).last_ack_time_us == old(self).last_ack_time_us,
            final(self).ack_window_start_us == old(self).ack_window_start_us,
            final(self).ack_window_bytes == old(self).ack_window_bytes,
            final(self).last_inter_ack_us == old(self).last_inter_ack_us,
            final(self).busy_time_us == old(self).busy_time_us,
            final(self).consecutive_severe_samples == old(self).consecutive_severe_samples,
            final(self).consecutive_healthy_samples == old(self).consecutive_healthy_samples,
            final(self).last_degraded_time_us == old(self).last_degraded_time_us,
            final(self).recent_samples@ == old(self).recent_samples@,
    {
        if self.in_flight_chunks.is_empty() && self.last_busy_start_us.is_none() {
            self.last_busy_start_us = Some(now_us);
        }
        self.in_flight_chunks.insert(chunk_id);
        self.in_flight_bytes = self.in_flight_bytes + bytes;
        self.total_chunks_sent = self.total_chunks_sent + 1;
        self.total_bytes_sent = self.total_bytes_sent + bytes;
        let cur_len = self.in_flight_chunks.len();
        if cur_len > self.max_in_flight_observed {
            self.max_in_flight_observed = cur_len;
        }
        if self.state == ChannelState::Unknown {
            self.state = ChannelState::WarmingUp;
        }
    }

    /// Records when an ACK is received for a chunk at time `now_us`; returns the sample.
    pub fn record_chunk_ack(
        &mut self,
        chunk_id: u32,
        bytes: u64,
        ack_turnaround_us: u64,
        socket_send_duration_us: u64,
        receiver_verify_us: Option<u32>,
        now_us: u64,
    ) -> (r: Option<AckSample>)
        requires
            old(self).wf(),
            old(self).counters_below(bytes),
            old(self).busy_time_us + now_us <= u64::MAX,
        ensures
            final(self).wf(),
            r == Some(
                ack_sample(chunk_id, bytes, ack_turnaround_us, socket_send_duration_us, receiver_verify_us, now_us),
            ),
            ack_recorded(
                *old(self),
                *final(self),
                chunk_id,
                bytes,
                ack_turnaround_us,
                socket_send_duration_us,
                receiver_verify_us,
                now_us,
            ),
    {
        let was_in_flight = self.in_flight_chunks.remove(&chunk_id);
        if was_in_flight {
            self.in_flight_bytes = self.in_flight_bytes.saturating_sub(bytes);
        }
        if self.in_flight_chunks.is_empty() {
            match self.last_busy_start_us {
                Some(start) => {
                    self.busy_time_us = self.busy_time_us + now_us.saturating_sub(start);
                    self.last_busy_start_us = None;
                },
                None => {},
            }
        }
        match self.last_ack_time_us {
            Some(last_ack) => {
                self.last_inter_ack_us = Some(now_us.saturating_sub(last_ack));
            },
            None => {},
        }
        self.last_ack_time_us = Some(now_us);
        match self.ack_window_start_us {
            Some(win_start) => {
                if now_us.saturating_sub(win_start) >= ONE_SECOND_US {
                    self.ack_window_start_us = Some(now_us);
                    self.ack_window_bytes = bytes;
                } else {
                    self.ack_window_bytes = self.ack_window_bytes + bytes;
                }
            },
            None => {
                self.ack_window_start_us = Some(now_us);
                self.ack_window_bytes = bytes;
            },
        }
        self.total_chunks_acked = self.total_chunks_acked + 1;
        self.total_bytes_acked = self.total_bytes_acked + bytes;
        let verify_val: u64 = match receiver_verify_us {
            Some(v) => v as u64,
            None => 0,
        };
        let ack_residual_us = ack_turnaround_us.saturating_sub(verify_val);
        let sample = AckSample {
            chunk_id,
            bytes,
            ack_turnaround_us,
            socket_send_duration_us,
            receiver_verify_us,
            ack_residual_us,
            timestamp_us: now_us,
        };
        if self.recent_samples.len() == RECENT_SAMPLES_CAPACITY {
            self.recent_samples.remove(0);
        }
        self.recent_samples.push(sample);
        self.update_state_machine_on_sample(&sample, now_us);
        Some(sample)
    }

    /// Records when a NACK for a chunk of `bytes` bytes is received at time `now_us`:
    /// the chunk leaves flight (see `nack_recorded`).
    pub fn record_chunk_nack(&mut self, chunk_id: u32, bytes: u64, _reason: &str, now_us: u64)
        requires
            old(self).total_chunks_nacked < u64::MAX,
            old(self).consecutive_severe_samples < usize::MAX,
        ensures
            nack_recorded(*old(self), *final(self), chunk_id, bytes, now_us),
            old(self).wf() ==> final(self).wf(),
    {
        let was_in_flight = self.in_flight_chunks.remove(&chunk_id);
        if was_in_flight {
            self.in_flight_bytes = self.in_flight_bytes.saturating_sub(bytes);
        }
        self.total_chunks_nacked = self.total_chunks_nacked + 1;
        self.consecutive_severe_samples = self.consecutive_severe_samples + 1;
        if self.consecutive_severe_samples >= 4 && self.state == ChannelState::Active {
            self.state = ChannelState::Degraded;
            self.last_degraded_time_us = Some(now_us);
        }
    }

    /// Records a transport disconnect at time `now_us`: nothing stays in flight and
    /// the channel is degraded.
    pub fn record_disconnect(&mut self, _reason: &str, now_us: u64)
        requires
            old(self).disconnect_count < u32::MAX,
        ensures
            final(self).disconnect_count == old(self).disconnect_count + 1,
            final(self).in_flight_chunks@ == Set::<u32>::empty(),
            final(self).in_flight_bytes == 0,
            final(self).state == ChannelState::Degraded,
            final(self).last_degraded_time_us == Some(now_us),
            final(self).total_chunks_sent == old(self).total_chunks_sent,
            final(self).total_chunks_acked == old(self).total_chunks_acked,
            final(self).total_chunks_nacked == old(self).total_chunks_nacked,
            final(self).recent_samples@ == old(self).recent_samples@,
            final(self).consecutive_severe_samples == old(self).consecutive_severe_samples,
            final(self).consecutive_healthy_samples == old(self).consecutive_healthy_samples,
            final(self).total_bytes_sent == old(self).total_bytes_sent,
            final(self).total_bytes_acked == old(self).total_bytes_acked,
            final(self).name == old(self).name,
            final(self).session_start_us == old(self).session_start_us,
            final(self).max_in_flight_observed == old(self).max_in_flight_observed,
            final(self).last_ack_time_us == old(self).last_ack_time_us,
            final(self).ack_window_start_us == old(self).ack_window_start_us,
            final(self).ack_window_bytes == old(self).ack_window_bytes,
            final(self).last_inter_ack_us == old(self).last_inter_ack_us,
            final(self).busy_time_us == old(self).busy_time_us,
            final(self).last_busy_start_us == old(self).last_busy_start_us,
            old(self).wf() ==> final(self).wf(),
    {
        self.disconnect_count = self.disconnect_count + 1;
        self.in_flight_chunks.clear();
        self.in_flight_bytes = 0;
        self.state = ChannelState::Degraded;
        self.last_degraded_time_us = Some(now_us);
    }

    /// Updates the channel state machine with the hysteresis rules.
    fn update_state_machine_on_sample(&mut self, sample: &AckSample, now_us: u64)
        requires
            old(self).consecutive_severe_samples < usize::MAX,
            old(self).consecutive_healthy_samples < usize::MAX,
        ensures
            ({
                let sev = if is_severe(*sample) {
                    old(self).consecutive_severe_samples + 1
                } else {
                    0
                };
                let hea = if is_severe(*sample) {
                    0
                } else if is_healthy(*sample) {
                    old(self).consecutive_healthy_samples + 1
                } else {
                    0
                };
                &&& final(self).state == spec_next_state(
                    old(self).state,
                    sev as nat,
                    hea as nat,
                    old(self).total_chunks_acked as nat,
                    old(self).last_degraded_time_us,
                    now_us,
                )
                &&& final(self).consecutive_severe_samples == sev
                &&& final(self).consecutive_healthy_samples == (if final(self).state
                    == ChannelState::Probing && old(self).state == ChannelState::Degraded {
                    0
                } else {
                    hea
                })
                &&& final(self).last_degraded_time_us == (if final(self).state
                    == ChannelState::Degraded && old(self).state != ChannelState::Degraded {
                    Some(now_us)
                } else {
                    old(self).last_degraded_time_us
                })
            }),
            final(self).name == old(self).name,
            final(self).session_start_us == old(self).session_start_us,
            final(self).in_flight_chunks@ == old(self).in_flight_chunks@,
            final(self).in_flight_bytes == old(self).in_flight_bytes,
            final(self).max_in_flight_observed == old(self).max_in_flight_observed,
            final(self).total_chunks_sent == old(self).total_chunks_sent,
            final(self).total_chunks_acked == old(self).total_chunks_acked,
            final(self).total_chunks_nacked == old(self).total_chunks_nacked,
            final(self).total_bytes_sent == old(self).total_bytes_sent,
            final(self).total_bytes_acked == old(self).total_bytes_acked,
            final(self).disconnect_count == old(self).disconnect_count,
            final(self).last_ack_time_us == old(self).last_ack_time_us,
            final(self).ack_window_start_us == old(self).ack_window_start_us,
            final(self).ack_window_bytes == old(self).ack_window_bytes,
            final(self).last_inter_ack_us == old(self).last_inter_ack_us,
            final(self).busy_time_us == old(self).busy_time_us,
            final(self).last_busy_start_us == old(self).last_busy_start_us,
            final(self).recent_samples@ == old(self).recent_samples@,
    {
        let is_severe = sample.socket_send_duration_us > 100_000 || sample.ack_turnaround_us
            > 1_500_000;
        let is_healthy = sample.socket_send_duration_us < 10_000 && sample.ack_turnaround_us
            < 500_000;
        if is_severe {
            self.consecutive_severe_samples = self.consecutive_severe_samples + 1;
            self.consecutive_healthy_samples = 0;
        } else if is_healthy {
            self.consecutive_healthy_samples = self.consecutive_healthy_samples + 1;
            self.consecutive_severe_samples = 0;
        } else {
            self.consecutive_severe_samples = 0;
            self.consecutive_healthy_samples = 0;
        }
        match self.state {
            ChannelState::Unknown => {
                self.state = ChannelState::WarmingUp;
            },
            ChannelState::WarmingUp => {
                if self.total_chunks_acked >= 3 {
                    self.state = ChannelState::Active;
                }
            },
            ChannelState::Active => {
                if self.consecutive_severe_samples >= 4 {
                    self.state = ChannelState::Degraded;
                    self.last_degraded_time_us = Some(now_us);
                }
            },
            ChannelState::Degraded => {
                match self.last_degraded_time_us {
                    Some(t_deg) => {
                        if now_us.saturating_sub(t_deg) >= ONE_SECOND_US {
                            self.state = ChannelState::Probing;
                            self.consecutive_healthy_samples = 0;
                        }
                    },
                    None => {},
                }
            },
            ChannelState::Probing => {
                if self.consecutive_healthy_samples >= 6 {
                    self.state = ChannelState::Active;
                } else if self.consecutive_severe_samples >= 2 {
                    self.state = ChannelState::Degraded;
                    self.last_degraded_time_us = Some(now_us);
                }
            },
        }
    }

    /// Returns the number of chunks currently in flight on this channel.
    pub fn in_flight_count(&self) -> (n: usize)
        ensures
            n == self.in_flight_chunks@.len(),
    {
        self.in_flight_chunks.len()
    }

    /// Returns the total bytes currently in flight on this channel.
    pub fn in_flight_bytes(&self) -> (n: u64)
        ensures
            n == self.in_flight_bytes,
    {
        self.in_flight_bytes
    }

    /// Returns the inter-ACK arrival interval in microseconds if available.
    pub fn inter_ack_interval_us(&self) -> (r: Option<u64>)
        ensures
            r == self.last_inter_ack_us,
    {
        self.last_inter_ack_us
    }

    /// The recent acknowledgment samples, oldest first.
    pub fn recent_samples(&self) -> (s: &[AckSample])
        ensures
            s@ == self.recent_samples@,
    {
        self.recent_samples.as_slice()
    }

    /// Busy time (time with at least one chunk in flight) accumulated up to `now_us`.
    pub fn busy_time_at(&self, now_us: u64) -> (b: u64)
        ensures
            b == (match self.last_busy_start_us {
                Some(start) => if self.busy_time_us + elapsed_us(start, now_us) <= u64::MAX {
                    (self.busy_time_us + elapsed_us(start, now_us)) as u64
                } else {
                    u64::MAX
                },
                None => self.busy_time_us,
            }),
    {
        match self.last_busy_start_us {
            Some(start) => self.busy_time_us.saturating_add(now_us.saturating_sub(start)),
            None => self.busy_time_us,
        }
    }

    /// Number of recent samples whose socket send took longer than 10 ms.
    pub fn blocked_sample_count(&self) -> (n: usize)
        ensures
            n == self.recent_samples@.filter(|s: AckSample| s.socket_send_duration_us > 10_000).len(),
    {
        let mut n: usize = 0;
        let mut i: usize = 0;
        let ghost pred = |s: AckSample| s.socket_send_duration_us > 10_000;
        proof {
            assert(self.recent_samples@.take(0) =~= Seq::<AckSample>::empty());
        }
        while i < self.recent_samples.len()
            invariant
                i <= self.recent_samples@.len(),
                pred == (|s: AckSample| s.socket_send_duration_us > 10_000),
                n <= i,
                n == self.recent_samples@.take(i as int).filter(pred).len(),
            decreases self.recent_samples@.len() - i,
        {
            proof {
                let t = self.recent_samples@.take(i + 1);
                assert(t.drop_last() =~= self.recent_samples@.take(i as int));
                reveal_with_fuel(Seq::<AckSample>::filter, 1);
                assert(t.last() == self.recent_samples@[i as int]);
                assert(pred(t.last()) == (self.recent_samples@[i as int].socket_send_duration_us
                    > 10_000));
                assert(t.filter(pred) == (if pred(t.last()) {
                    t.drop_last().filter(pred).push(t.last())
                } else {
                    t.drop_last().filter(pred)
                }));
            }
            if self.recent_samples[i].socket_send_duration_us > 10_000 {
                n = n + 1;
            }
            i = i + 1;
        }
        proof {
            assert(self.recent_samples@.take(i as int) =~= self.recent_samples@);
        }
        n
    }
}


/// How one acknowledgment moves a channel's health state, given the time its send
/// blocked and the time its acknowledgment took:
/// - a new channel starts warming up, and is active once its third acknowledgment
///   is counted;
/// - an active channel degrades on its fourth severe sample in a row (send over
///   100 ms or acknowledgment over 1.5 s), recording when, and stays active
///   otherwise;
/// - a degraded channel starts probing once a second has passed since it degraded,
///   with a fresh healthy streak, and stays degraded before that;
/// - a probing channel is active again on its sixth healthy sample in a row (send
///   under 10 ms and acknowledgment under 0.5 s), degrades again on its second
///   severe one in a row, and keeps probing otherwise.
pub proof fn lemma_ack_moves_health_state(
    before: ChannelTracker,
    after: ChannelTracker,
    chunk_id: u32,
    bytes: u64,
    ack_turnaround_us: u64,
    socket_send_duration_us: u64,
    receiver_verify_us: Option<u32>,
    now_us: u64,
)
    requires
        ack_recorded(
            before,
            after,
            chunk_id,
            bytes,
            ack_turnaround_us,
            socket_send_duration_us,
            receiver_verify_us,
            now_us,
        ),
    ensures
        ({
            let severe = socket_send_duration_us > 100_000 || ack_turnaround_us > 1_500_000;
            let healthy = socket_send_duration_us < 10_000 && ack_turnaround_us < 500_000;
            &&& before.state == ChannelState::Unknown ==> after.state == ChannelState::WarmingUp
            &&& before.state == ChannelState::WarmingUp ==> after.state == (if before.total_chunks_acked
                + 1 >= 3 {
                ChannelState::Active
            } else {
                ChannelState::WarmingUp
            })
            &&& before.state == ChannelState::Active && severe && before.consecutive_severe_samples
                >= 3 ==> after.state == ChannelState::Degraded && after.last_degraded_time_us
                == Some(now_us)
            &&& before.state == ChannelState::Active && !(severe && before.consecutive_severe_samples
                >= 3) ==> after.state == ChannelState::Active
            &&& before.state == ChannelState::Degraded ==> after.state == (match before.last_degraded_time_us {
                Some(t) => if now_us >= t + 1_000_000 {
                    ChannelState::Probing
                } else {
                    ChannelState::Degraded
                },
                None => ChannelState::Degraded,
            })
            &&& before.state == ChannelState::Degraded && after.state == ChannelState::Probing
                ==> after.consecutive_healthy_samples == 0
            &&& before.state == ChannelState::Probing && healthy && before.consecutive_healthy_samples
                >= 5 ==> after.state == ChannelState::Active
            &&& before.state == ChannelState::Probing && severe && before.consecutive_severe_samples
                >= 1 ==> after.state == ChannelState::Degraded && after.last_degraded_time_us
                == Some(now_us)
            &&& before.state == ChannelState::Probing && !(healthy
                && before.consecutive_healthy_samples >= 5) && !(severe
                && before.consecutive_severe_samples >= 1) ==> after.state == ChannelState::Probing
        }),
{
}

/// A channel that degraded recovers: for every probing channel that has already
/// counted five healthy acknowledgments in a row, one more healthy acknowledgment
/// makes it active again.
pub proof fn lemma_probing_channel_recovers(
    before: ChannelTracker,
    after: ChannelTracker,
    chunk_id: u32,
    bytes: u64,
    ack_turnaround_us: u64,
    socket_send_duration_us: u64,
    receiver_verify_us: Option<u32>,
    now_us: u64,
)
    requires
        before.state == ChannelState::Probing,
        before.consecutive_healthy_samples >= 5,
        socket_send_duration_us < 10_000,
        ack_turnaround_us < 500_000,
        ack_recorded(
            before,
            after,
            chunk_id,
            bytes,
            ack_turnaround_us,
            socket_send_duration_us,
            receiver_verify_us,
            now_us,
        ),
    ensures
        after.state == ChannelState::Active,
{
    lemma_ack_moves_health_state(
        before,
        after,
        chunk_id,
        bytes,
        ack_turnaround_us,
        socket_send_duration_us,
        receiver_verify_us,
        now_us,
    );
}

} // verus!
