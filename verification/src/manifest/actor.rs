//! The metadata actor's state: it folds chunk events into the transfer record and
//! decides when the record must be written to disk. The task that receives the
//! messages, keeps the timer and writes the file drives this state.
use std::collections::HashSet;
use vstd::prelude::*;
use vstd::std_specs::hash::group_hash_axioms;

use super::schema::{
    coalesce_ranges, canonical_ranges, ranges_set, TransferMeta, TransferStatus, TransportStats,
};

verus! {

broadcast use group_hash_axioms;

/// Chunk completions that are batched before a flush.
pub const COMPLETION_FLUSH_THRESHOLD: usize = 50;

/// Failure and status events that are batched before a flush.
pub const EVENT_FLUSH_THRESHOLD: usize = 10;

/// The physical transport an event came from.
#[derive(Debug, Clone, Copy, PartialEq, Eq, Structural)]
pub enum TransportType {
    Usb,
    WifiDirect,
}

/// A message to the metadata actor. A request for the record carries no reply
/// channel here: the driver answers it with `meta()` after `handle_message`.
#[derive(Debug, Clone, Copy, PartialEq, Eq, Structural)]
pub enum ActorMessage {
    ChunkCompleted { chunk_id: u32, transport: TransportType, bytes: u64 },
    ChunkFailed { chunk_id: u32, transport: TransportType },
    TransportStatusChanged { transport: TransportType, connected: bool },
    Pause,
    Cancel,
    GetMeta,
}

/// What the driver does after one message.
#[derive(Debug, Clone, Copy, PartialEq, Eq, Structural)]
pub enum MessageOutcome {
    Continue,
    Flush,
    Exit,
}

/// The counters of one transport within the record.
pub open spec fn stats_of(m: TransferMeta, t: TransportType) -> TransportStats {
    match t {
        TransportType::Usb => m.transport_stats.usb,
        TransportType::WifiDirect => m.transport_stats.wifi_direct,
    }
}

/// The record and the in-memory completed set of one transfer.
pub struct MetaActorState {
    meta: TransferMeta,
    completed_set: HashSet<u32>,
    dirty_events: usize,
}

impl MetaActorState {
    /// The record as it will next be written.
    pub closed spec fn record(&self) -> TransferMeta {
        self.meta
    }

    /// The completed chunk ids.
    pub closed spec fn completed(&self) -> Set<u32> {
        self.completed_set@
    }

    /// The events since the last flush.
    pub closed spec fn dirty(&self) -> usize {
        self.dirty_events
    }

    /// Starts from a record and the completed set read back for it (empty for a new
    /// transfer).
    pub fn new(meta: TransferMeta, completed_set: HashSet<u32>) -> (s: Self)
        ensures
            s.record() == meta,
            s.completed() == completed_set@,
            s.dirty() == 0,
    {
        MetaActorState { meta, completed_set, dirty_events: 0 }
    }

    /// The record.
    pub fn meta(&self) -> (m: &TransferMeta)
        ensures
            *m == self.record(),
    {
        &self.meta
    }

    /// The completed chunk ids.
    pub fn completed_set(&self) -> (c: &HashSet<u32>)
        ensures
            c@ == self.completed(),
    {
        &self.completed_set
    }

    /// The number of events not yet written.
    pub fn dirty_events(&self) -> (n: usize)
        ensures
            n == self.dirty(),
    {
        self.dirty_events
    }

    /// Whether a timer tick or the closing of the channel must flush.
    pub fn needs_flush(&self) -> (b: bool)
        ensures
            b == (self.dirty() > 0),
    {
        self.dirty_events > 0
    }

    /// Prepares the record for writing at time `now`: the completed ranges become
    /// the canonical ranges of the completed set, the update time becomes `now`,
    /// and the dirty count restarts at zero.
    pub fn flush(&mut self, now: String)
        ensures
            canonical_ranges(final(self).record().completed_ranges@),
            ranges_set(final(self).record().completed_ranges@) == old(self).completed(),
            final(self).record().updated_at@ == now@,
            final(self).record().status == old(self).record().status,
            final(self).record().transport_stats == old(self).record().transport_stats,
            final(self).record().transfer_id == old(self).record().transfer_id,
            final(self).completed() == old(self).completed(),
            final(self).dirty() == 0,
    {
        self.meta.completed_ranges = coalesce_ranges(&self.completed_set);
        self.meta.updated_at = now;
        self.dirty_events = 0;
    }

    /// Folds one message into the state. A completion joins the completed set and
    /// adds its bytes to its transport; a failure counts an error and a retry on its
    /// transport; a status change only counts as an event. Completions flush once 50
    /// events are pending, other events once 10 are. Pause and cancel set the status
    /// and end the actor; a record request refreshes the completed ranges.
    pub fn handle_message(&mut self, msg: ActorMessage) -> (out: MessageOutcome)
        requires
            old(self).dirty() < usize::MAX,
            msg matches ActorMessage::ChunkCompleted { transport, bytes, .. } ==> stats_of(
                old(self).record(),
                transport,
            ).bytes + bytes <= u64::MAX,
            msg matches ActorMessage::ChunkFailed { transport, .. } ==> stats_of(
                old(self).record(),
                transport,
            ).errors < u64::MAX && stats_of(old(self).record(), transport).retries < u64::MAX,
        ensures
            match msg {
                ActorMessage::ChunkCompleted { chunk_id, transport, bytes } => {
                    &&& final(self).completed() == old(self).completed().insert(chunk_id)
                    &&& stats_of(final(self).record(), transport) == (TransportStats {
                        bytes: (stats_of(old(self).record(), transport).bytes + bytes) as u64,
                        ..stats_of(old(self).record(), transport)
                    })
                    &&& final(self).dirty() == old(self).dirty() + 1
                    &&& out == if final(self).dirty() >= 50 {
                        MessageOutcome::Flush
                    } else {
                        MessageOutcome::Continue
                    }
                },
                ActorMessage::ChunkFailed { transport, .. } => {
                    &&& final(self).completed() == old(self).completed()
                    &&& stats_of(final(self).record(), transport) == (TransportStats {
                        errors: (stats_of(old(self).record(), transport).errors + 1) as u64,
                        retries: (stats_of(old(self).record(), transport).retries + 1) as u64,
                        ..stats_of(old(self).record(), transport)
                    })
                    &&& final(self).dirty() == old(self).dirty() + 1
                    &&& out == if final(self).dirty() >= 10 {
                        MessageOutcome::Flush
                    } else {
                        MessageOutcome::Continue
                    }
                },
                ActorMessage::TransportStatusChanged { .. } => {
                    &&& final(self).completed() == old(self).completed()
                    &&& final(self).record() == old(self).record()
                    &&& final(self).dirty() == old(self).dirty() + 1
                    &&& out == if final(self).dirty() >= 10 {
                        MessageOutcome::Flush
                    } else {
                        MessageOutcome::Continue
                    }
                },
                ActorMessage::Pause => {
                    &&& final(self).completed() == old(self).completed()
                    &&& final(self).record().status == TransferStatus::Paused
                    &&& final(self).record().transport_stats == old(self).record().transport_stats
                    &&& final(self).dirty() == old(self).dirty()
                    &&& out == MessageOutcome::Exit
                },
                ActorMessage::Cancel => {
                    &&& final(self).completed() == old(self).completed()
                    &&& final(self).record().status == TransferStatus::Cancelled
                    &&& final(self).record().transport_stats == old(self).record().transport_stats
                    &&& final(self).dirty() == old(self).dirty()
                    &&& out == MessageOutcome::Exit
                },
                ActorMessage::GetMeta => {
                    &&& final(self).completed() == old(self).completed()
                    &&& canonical_ranges(final(self).record().completed_ranges@)
                    &&& ranges_set(final(self).record().completed_ranges@) == old(self).completed()
                    &&& final(self).record().status == old(self).record().status
                    &&& final(self).record().transport_stats == old(self).record().transport_stats
                    &&& final(self).dirty() == old(self).dirty()
                    &&& out == MessageOutcome::Continue
                },
            },
            msg !is GetMeta ==> final(self).record().completed_ranges@
                == old(self).record().completed_ranges@,
            final(self).record().transfer_id == old(self).record().transfer_id,
    {
        match msg {
            ActorMessage::ChunkCompleted { chunk_id, transport, bytes } => {
                self.completed_set.insert(chunk_id);
                match transport {
                    TransportType::Usb => {
                        self.meta.transport_stats.usb.bytes = self.meta.transport_stats.usb.bytes
                            + bytes;
                    },
                    TransportType::WifiDirect => {
                        self.meta.transport_stats.wifi_direct.bytes =
                            self.meta.transport_stats.wifi_direct.bytes + bytes;
                    },
                }
                self.dirty_events = self.dirty_events + 1;
                if self.dirty_events >= COMPLETION_FLUSH_THRESHOLD {
                    MessageOutcome::Flush
                } else {
                    MessageOutcome::Continue
                }
            },
            ActorMessage::ChunkFailed { transport, .. } => {
                match transport {
                    TransportType::Usb => {
                        self.meta.transport_stats.usb.errors = self.meta.transport_stats.usb.errors
                            + 1;
                        self.meta.transport_stats.usb.retries =
                            self.meta.transport_stats.usb.retries + 1;
                    },
                    TransportType::WifiDirect => {
                        self.meta.transport_stats.wifi_direct.errors =
                            self.meta.transport_stats.wifi_direct.errors + 1;
                        self.meta.transport_stats.wifi_direct.retries =
                            self.meta.transport_stats.wifi_direct.retries + 1;
                    },
                }
                self.dirty_events = self.dirty_events + 1;
                if self.dirty_events >= EVENT_FLUSH_THRESHOLD {
                    MessageOutcome::Flush
                } else {
                    MessageOutcome::Continue
                }
            },
            ActorMessage::TransportStatusChanged { .. } => {
                self.dirty_events = self.dirty_events + 1;
                if self.dirty_events >= EVENT_FLUSH_THRESHOLD {
                    MessageOutcome::Flush
                } else {
                    MessageOutcome::Continue
                }
            },
            ActorMessage::Pause => {
                self.meta.status = TransferStatus::Paused;
                MessageOutcome::Exit
            },
            ActorMessage::Cancel => {
                self.meta.status = TransferStatus::Cancelled;
                MessageOutcome::Exit
            },
            ActorMessage::GetMeta => {
                self.meta.completed_ranges = coalesce_ranges(&self.completed_set);
                MessageOutcome::Continue
            },
        }
    }
}

} // verus!
