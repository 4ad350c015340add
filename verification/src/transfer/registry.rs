//! The table of active transfers that progress queries and control requests
//! consult. Times are microseconds on the driver's monotonic clock; the byte and
//! chunk counters, which several tasks bump, advance modulo their width.
use std::collections::HashMap;
use vstd::prelude::*;
use vstd::std_specs::hash::group_hash_axioms;
use vstd::std_specs::iter::IteratorSpec;

use crate::manifest::schema::{TransferMeta, TransferRole, TransferStatus};
use crate::text::{contains_text, has_infix};

verus! {

broadcast use group_hash_axioms;

/// One active transfer.
#[derive(Debug, Clone)]
pub struct TransferRecord {
    pub transfer_id: u128,
    pub file_name: String,
    pub file_size: u64,
    pub bytes_transferred: u64,
    pub usb_bytes_transferred: u64,
    pub wifi_bytes_transferred: u64,
    pub completed_chunks: u32,
    pub total_chunks: u32,
    pub start_time_us: u64,
    pub end_time_us: Option<u64>,
    pub role: TransferRole,
    pub status: TransferStatus,
    pub transport_name: String,
    pub last_error: Option<String>,
    pub source_file_path: Option<String>,
    pub last_sample_time_us: u64,
    pub last_sample_bytes: u64,
}

/// A transfer in the transfer list.
#[derive(Debug, Clone)]
pub struct TransferSummary {
    pub transfer_id: u128,
    pub file_name: String,
    pub file_size: u64,
    pub status: TransferStatus,
    pub role: TransferRole,
}

/// A status that ends a transfer.
pub open spec fn is_terminal(s: TransferStatus) -> bool {
    s == TransferStatus::Completed || s == TransferStatus::Failed || s == TransferStatus::Cancelled
}

/// The record after `set_transfer_status`: the status changes; a terminal status
/// stamps the end time once, resuming clears it; an error message replaces the last.
pub open spec fn with_status(
    r: TransferRecord,
    status: TransferStatus,
    error_msg: Option<String>,
    now_us: u64,
) -> TransferRecord {
    TransferRecord {
        status,
        end_time_us: if is_terminal(status) {
            if r.end_time_us is None {
                Some(now_us)
            } else {
                r.end_time_us
            }
        } else if status == TransferStatus::InProgress {
            None
        } else {
            r.end_time_us
        },
        last_error: if error_msg is Some {
            error_msg
        } else {
            r.last_error
        },
        ..r
    }
}

/// A status request reaches the sessions: once `set_transfer_status` has recorded
/// `status` for a registered transfer, `transfer_control_status` reports exactly
/// that status, whatever the status was before, and the other transfers keep theirs.
pub proof fn lemma_status_read_after_write(
    before: Map<u128, TransferRecord>,
    transfer_id: u128,
    status: TransferStatus,
    error_msg: Option<String>,
    now_us: u64,
    other: u128,
)
    requires
        before.contains_key(transfer_id),
    ensures
        ({
            let after = before.insert(transfer_id, with_status(before[transfer_id], status, error_msg, now_us));
            &&& after.contains_key(transfer_id)
            &&& after[transfer_id].status == status
            &&& other != transfer_id ==> after.contains_key(other) == before.contains_key(other)
                && (before.contains_key(other) ==> after[other].status == before[other].status)
        }),
{
}

/// The status a transfer found only on disk is listed with: completed, or paused
/// (resumable).
pub open spec fn listed_status(s: TransferStatus) -> TransferStatus {
    if s == TransferStatus::Completed {
        TransferStatus::Completed
    } else {
        TransferStatus::Paused
    }
}

/// The active transfers, by id.
pub struct TransferRegistry {
    transfers: HashMap<u128, TransferRecord>,
}

impl TransferRegistry {
    /// The records by transfer id.
    pub closed spec fn records(&self) -> Map<u128, TransferRecord> {
        self.transfers@
    }

    /// An empty registry.
    pub fn new() -> (r: Self)
        ensures
            r.records() == Map::<u128, TransferRecord>::empty(),
    {
        TransferRegistry { transfers: HashMap::new() }
    }

    /// The record of a transfer.
    pub fn get(&self, transfer_id: u128) -> (r: Option<&TransferRecord>)
        ensures
            r matches Some(x) ==> self.records().contains_key(transfer_id) && *x == self.records()[transfer_id],
            r is None ==> !self.records().contains_key(transfer_id),
    {
        self.transfers.get(&transfer_id)
    }

    /// Registers a transfer, or refreshes one already registered. A receiver never
    /// takes over the record of a sender. A refreshed record resumes (status in
    /// progress), takes the new transport name, the source path when one is given,
    /// and the initial counts when `initial_bytes` is not zero. A new record starts
    /// at `now_us` with the initial counts.
    pub fn register_active_transfer_with_path(
        &mut self,
        transfer_id: u128,
        file_name: String,
        file_size: u64,
        role: TransferRole,
        total_chunks: u32,
        transport_name: String,
        source_file_path: Option<String>,
        initial_bytes: u64,
        initial_chunks: u32,
        now_us: u64,
    )
        ensures
            ({
                let old_map = old(self).records();
                if old_map.contains_key(transfer_id) {
                    let e = old_map[transfer_id];
                    if e.role == TransferRole::Sender && role == TransferRole::Receiver {
                        final(self).records() == old_map
                    } else {
                        final(self).records() == old_map.insert(
                            transfer_id,
                            TransferRecord {
                                source_file_path: if source_file_path is Some {
                                    source_file_path
                                } else {
                                    e.source_file_path
                                },
                                bytes_transferred: if initial_bytes > 0 {
                                    initial_bytes
                                } else {
                                    e.bytes_transferred
                                },
                                completed_chunks: if initial_bytes > 0 {
                                    initial_chunks
                                } else {
                                    e.completed_chunks
                                },
                                last_sample_bytes: if initial_bytes > 0 {
                                    initial_bytes
                                } else {
                                    e.last_sample_bytes
                                },
                                status: TransferStatus::InProgress,
                                transport_name,
                                ..e
                            },
                        )
                    }
                } else {
                    final(self).records() == old_map.insert(
                        transfer_id,
                        TransferRecord {
                            transfer_id,
                            file_name,
                            file_size,
                            bytes_transferred: initial_bytes,
                            usb_bytes_transferred: 0,
                            wifi_bytes_transferred: 0,
                            completed_chunks: initial_chunks,
                            total_chunks,
                            start_time_us: now_us,
                            end_time_us: None,
                            role,
                            status: TransferStatus::InProgress,
                            transport_name,
                            last_error: None,
                            source_file_path,
                            last_sample_time_us: now_us,
                            last_sample_bytes: initial_bytes,
                        },
                    )
                }
            }),
    {
        match self.transfers.remove(&transfer_id) {
            Some(e) => {
                if e.role == TransferRole::Sender && role == TransferRole::Receiver {
                    self.transfers.insert(transfer_id, e);
                    proof {
                        assert(self.transfers@ =~= old(self).transfers@);
                    }
                    return;
                }
                let refreshed = TransferRecord {
                    source_file_path: if source_file_path.is_some() {
                        source_file_path
                    } else {
                        e.source_file_path
                    },
                    bytes_transferred: if initial_bytes > 0 {
                        initial_bytes
                    } else {
                        e.bytes_transferred
                    },
                    completed_chunks: if initial_bytes > 0 {
                        initial_chunks
                    } else {
                        e.completed_chunks
                    },
                    last_sample_bytes: if initial_bytes > 0 {
                        initial_bytes
                    } else {
                        e.last_sample_bytes
                    },
                    status: TransferStatus::InProgress,
                    transport_name,
                    ..e
                };
                self.transfers.insert(transfer_id, refreshed);
                proof {
                    assert(self.transfers@ =~= old(self).transfers@.insert(transfer_id, refreshed));
                }
            },
            None => {
                let record = TransferRecord {
                    transfer_id,
                    file_name,
                    file_size,
                    bytes_transferred: initial_bytes,
                    usb_bytes_transferred: 0,
                    wifi_bytes_transferred: 0,
                    completed_chunks: initial_chunks,
                    total_chunks,
                    start_time_us: now_us,
                    end_time_us: None,
                    role,
                    status: TransferStatus::InProgress,
                    transport_name,
                    last_error: None,
                    source_file_path,
                    last_sample_time_us: now_us,
                    last_sample_bytes: initial_bytes,
                };
                self.transfers.insert(transfer_id, record);
            },
        }
    }

    /// Registers a transfer with no source path and no progress yet.
    pub fn register_active_transfer(
        &mut self,
        transfer_id: u128,
        file_name: String,
        file_size: u64,
        role: TransferRole,
        total_chunks: u32,
        transport_name: String,
        now_us: u64,
    )
        ensures
            ({
                let old_map = old(self).records();
                if old_map.contains_key(transfer_id) {
                    let e = old_map[transfer_id];
                    if e.role == TransferRole::Sender && role == TransferRole::Receiver {
                        final(self).records() == old_map
                    } else {
                        final(self).records() == old_map.insert(
                            transfer_id,
                            TransferRecord { status: TransferStatus::InProgress, transport_name, ..e },
                        )
                    }
                } else {
                    final(self).records() == old_map.insert(
                        transfer_id,
                        TransferRecord {
                            transfer_id,
                            file_name,
                            file_size,
                            bytes_transferred: 0,
                            usb_bytes_transferred: 0,
                            wifi_bytes_transferred: 0,
                            completed_chunks: 0,
                            total_chunks,
                            start_time_us: now_us,
                            end_time_us: None,
                            role,
                            status: TransferStatus::InProgress,
                            transport_name,
                            last_error: None,
                            source_file_path: None,
                            last_sample_time_us: now_us,
                            last_sample_bytes: 0,
                        },
                    )
                }
            }),
    {
        self.register_active_transfer_with_path(
            transfer_id,
            file_name,
            file_size,
            role,
            total_chunks,
            transport_name,
            None,
            0,
            0,
            now_us,
        );
    }

    /// Stores the progress counters of a transfer (nothing for an unknown id).
    pub fn update_transfer_progress(&mut self, transfer_id: u128, bytes: u64, chunks_done: u32)
        ensures
            old(self).records().contains_key(transfer_id) ==> final(self).records()
                == old(self).records().insert(
                transfer_id,
                TransferRecord {
                    bytes_transferred: bytes,
                    completed_chunks: chunks_done,
                    ..old(self).records()[transfer_id]
                },
            ),
            !old(self).records().contains_key(transfer_id) ==> final(self).records() == old(
                self,
            ).records(),
    {
        if let Some(r) = self.transfers.remove(&transfer_id) {
            let u = TransferRecord { bytes_transferred: bytes, completed_chunks: chunks_done, ..r };
            self.transfers.insert(transfer_id, u);
        } else {
            proof {
                assert(self.transfers@ =~= old(self).transfers@);
            }
        }
    }

    /// Adds payload bytes carried by the USB or the Wi-Fi channel.
    pub fn record_channel_bytes(&mut self, transfer_id: u128, is_usb: bool, bytes: u64)
        ensures
            old(self).records().contains_key(transfer_id) ==> final(self).records()
                == old(self).records().insert(
                transfer_id,
                if is_usb {
                    TransferRecord {
                        usb_bytes_transferred: old(self).records()[transfer_id].usb_bytes_transferred.wrapping_add(bytes),
                        ..old(self).records()[transfer_id]
                    }
                } else {
                    TransferRecord {
                        wifi_bytes_transferred: old(self).records()[transfer_id].wifi_bytes_transferred.wrapping_add(bytes),
                        ..old(self).records()[transfer_id]
                    }
                },
            ),
            !old(self).records().contains_key(transfer_id) ==> final(self).records() == old(
                self,
            ).records(),
    {
        if let Some(r) = self.transfers.remove(&transfer_id) {
            let u = if is_usb {
                let v = r.usb_bytes_transferred.wrapping_add(bytes);
                TransferRecord { usb_bytes_transferred: v, ..r }
            } else {
                let v = r.wifi_bytes_transferred.wrapping_add(bytes);
                TransferRecord { wifi_bytes_transferred: v, ..r }
            };
            self.transfers.insert(transfer_id, u);
        } else {
            proof {
                assert(self.transfers@ =~= old(self).transfers@);
            }
        }
    }

    /// Restarts the clock of a transfer at `now_us`, when data starts to flow.
    pub fn reset_transfer_start_time(&mut self, transfer_id: u128, now_us: u64)
        ensures
            old(self).records().contains_key(transfer_id) ==> final(self).records()
                == old(self).records().insert(
                transfer_id,
                TransferRecord {
                    start_time_us: now_us,
                    last_sample_time_us: now_us,
                    ..old(self).records()[transfer_id]
                },
            ),
            !old(self).records().contains_key(transfer_id) ==> final(self).records() == old(
                self,
            ).records(),
    {
        if let Some(r) = self.transfers.remove(&transfer_id) {
            let u = TransferRecord { start_time_us: now_us, last_sample_time_us: now_us, ..r };
            self.transfers.insert(transfer_id, u);
        } else {
            proof {
                assert(self.transfers@ =~= old(self).transfers@);
            }
        }
    }

    /// Sets the status of a transfer at time `now_us` (see `with_status`).
    pub fn set_transfer_status(
        &mut self,
        transfer_id: u128,
        status: TransferStatus,
        error_msg: Option<String>,
        now_us: u64,
    )
        ensures
            old(self).records().contains_key(transfer_id) ==> final(self).records()
                == old(self).records().insert(
                transfer_id,
                with_status(old(self).records()[transfer_id], status, error_msg, now_us),
            ),
            !old(self).records().contains_key(transfer_id) ==> final(self).records() == old(
                self,
            ).records(),
    {
        if let Some(r) = self.transfers.remove(&transfer_id) {
            let terminal = status == TransferStatus::Completed || status == TransferStatus::Failed
                || status == TransferStatus::Cancelled;
            let end = if terminal {
                if r.end_time_us.is_none() {
                    Some(now_us)
                } else {
                    r.end_time_us
                }
            } else if status == TransferStatus::InProgress {
                None
            } else {
                r.end_time_us
            };
            let err = if error_msg.is_some() {
                error_msg
            } else {
                r.last_error
            };
            let u = TransferRecord { status, end_time_us: end, last_error: err, ..r };
            self.transfers.insert(transfer_id, u);
        } else {
            proof {
                assert(self.transfers@ =~= old(self).transfers@);
            }
        }
    }

    /// The status the user last requested, for an active transfer.
    pub fn transfer_control_status(&self, transfer_id: u128) -> (s: Option<TransferStatus>)
        ensures
            s == if self.records().contains_key(transfer_id) {
                Some(self.records()[transfer_id].status)
            } else {
                None
            },
    {
        match self.transfers.get(&transfer_id) {
            Some(r) => Some(r.status),
            None => None,
        }
    }

    /// The last error of a transfer.
    pub fn get_transfer_error(&self, transfer_id: u128) -> (e: Option<&String>)
        ensures
            e matches Some(x) ==> self.records().contains_key(transfer_id)
                && self.records()[transfer_id].last_error == Some(*x),
            e is None ==> !self.records().contains_key(transfer_id)
                || self.records()[transfer_id].last_error is None,
    {
        match self.transfers.get(&transfer_id) {
            Some(r) => match &r.last_error {
                Some(m) => Some(m),
                None => None,
            },
            None => None,
        }
    }

    /// Forgets a transfer.
    pub fn remove_active_transfer(&mut self, transfer_id: u128)
        ensures
            final(self).records() == old(self).records().remove(transfer_id),
    {
        self.transfers.remove(&transfer_id);
    }

    /// Makes sure a transfer has a record when its metadata actor is attached (the
    /// driver keeps the actor's handle): an unknown transfer gets a blank record, an
    /// in-progress sender with no name, size or progress, started at `now_us`; a
    /// known one is left as it is.
    pub fn set_transfer_actor_handle(&mut self, transfer_id: u128, now_us: u64)
        ensures
            old(self).records().contains_key(transfer_id) ==> final(self).records() == old(
                self,
            ).records(),
            !old(self).records().contains_key(transfer_id) ==> ({
                let r = final(self).records()[transfer_id];
                &&& final(self).records() == old(self).records().insert(transfer_id, r)
                &&& r.transfer_id == transfer_id && r.file_name@ == Seq::<char>::empty()
                &&& r.file_size == 0 && r.total_chunks == 0 && r.completed_chunks == 0
                &&& r.bytes_transferred == 0 && r.usb_bytes_transferred == 0
                &&& r.wifi_bytes_transferred == 0 && r.start_time_us == now_us
                &&& r.end_time_us is None && r.role == TransferRole::Sender
                &&& r.status == TransferStatus::InProgress && r.transport_name@ == Seq::<char>::empty()
                &&& r.last_error is None && r.source_file_path is None
                &&& r.last_sample_time_us == now_us && r.last_sample_bytes == 0
            }),
    {
        if !self.transfers.contains_key(&transfer_id) {
            let r = TransferRecord {
                transfer_id,
                file_name: String::new(),
                file_size: 0,
                bytes_transferred: 0,
                usb_bytes_transferred: 0,
                wifi_bytes_transferred: 0,
                completed_chunks: 0,
                total_chunks: 0,
                start_time_us: now_us,
                end_time_us: None,
                role: TransferRole::Sender,
                status: TransferStatus::InProgress,
                transport_name: String::new(),
                last_error: None,
                source_file_path: None,
                last_sample_time_us: now_us,
                last_sample_bytes: 0,
            };
            self.transfers.insert(transfer_id, r);
        }
    }

    /// Renames the transport of a transfer.
    pub fn update_transfer_transport_name(&mut self, transfer_id: u128, name: String)
        ensures
            old(self).records().contains_key(transfer_id) ==> final(self).records()
                == old(self).records().insert(
                transfer_id,
                TransferRecord { transport_name: name, ..old(self).records()[transfer_id] },
            ),
            !old(self).records().contains_key(transfer_id) ==> final(self).records() == old(
                self,
            ).records(),
    {
        if let Some(r) = self.transfers.remove(&transfer_id) {
            let u = TransferRecord { transport_name: name, ..r };
            self.transfers.insert(transfer_id, u);
        } else {
            proof {
                assert(self.transfers@ =~= old(self).transfers@);
            }
        }
    }

    /// The summaries of the active transfers, in table order.
    fn active_summaries(&self) -> (out: Vec<TransferSummary>)
        ensures
            distinct_ids(out@),
            forall|i: int| 0 <= i < out@.len() ==> listed_from(#[trigger] out@[i], self.records(), Seq::empty()),
            forall|id: u128| self.records().contains_key(id) ==> #[trigger] has_id(out@, id),
    {
        let mut out: Vec<TransferSummary> = Vec::new();
        let ghost m = self.transfers@;
        for entry in it: self.transfers.iter()
            invariant
                m == self.transfers@,
                it.seq() == self.transfers.iter().remaining(),
                it.seq().no_duplicates(),
                out@.len() == it.index(),
                forall|i: int|
                    0 <= i < it.index() ==> (#[trigger] out@[i]).transfer_id == *it.seq()[i].0
                        && listed_from(out@[i], m, Seq::empty()),
        {
            let (id, r) = entry;
            proof {
                assert(m.contains_key(*it.seq()[it.index() as int].0));
            }
            out.push(
                TransferSummary {
                    transfer_id: *id,
                    file_name: r.file_name.clone(),
                    file_size: r.file_size,
                    status: r.status,
                    role: r.role,
                },
            );
        }
        proof {
            let v = self.transfers.iter().remaining();
            assert forall|i: int, k: int| 0 <= i < k < out@.len() implies out@[i].transfer_id
                != out@[k].transfer_id by {
                if out@[i].transfer_id == out@[k].transfer_id {
                    assert(m[*v[i].0] == *v[i].1);
                    assert(m[*v[k].0] == *v[k].1);
                    assert(v.unref()[i] == v.unref()[k]);
                    assert(v[i] == v[k]);
                }
            }
            assert forall|id: u128| m.contains_key(id) implies #[trigger] has_id(out@, id) by {
                assert(v.contains((&id, &m[id])));
                let i = choose|i: int| 0 <= i < v.len() && v[i] == (&id, &m[id]);
                assert(out@[i].transfer_id == id);
            }
        }
        out
    }

    /// The summaries of the active transfers, followed by those of the transfers
    /// known only from records on disk (the first record of each id), listed as
    /// completed or as paused (resumable). Each id is listed once.
    pub fn transfer_summaries(&self, on_disk: &Vec<TransferMeta>) -> (out: Vec<TransferSummary>)
        ensures
            distinct_ids(out@),
            forall|i: int| 0 <= i < out@.len() ==> listed_from(#[trigger] out@[i], self.records(), on_disk@),
            forall|id: u128| self.records().contains_key(id) ==> #[trigger] has_id(out@, id),
            forall|j: int| 0 <= j < on_disk@.len() ==> has_id(out@, #[trigger] on_disk@[j].transfer_id),
    {
        let mut out = self.active_summaries();
        let ghost m = self.transfers@;
        proof {
            assert forall|i: int| 0 <= i < out@.len() implies listed_from(#[trigger] out@[i], m, on_disk@.take(0)) by {
                assert(listed_from(out@[i], m, Seq::empty()));
                assert(on_disk@.take(0) =~= Seq::<TransferMeta>::empty());
            }
        }
        let mut j: usize = 0;
        while j < on_disk.len()
            invariant
                m == self.transfers@,
                j <= on_disk@.len(),
                distinct_ids(out@),
                forall|i: int| 0 <= i < out@.len() ==> listed_from(#[trigger] out@[i], m, on_disk@.take(j as int)),
                forall|id: u128| m.contains_key(id) ==> #[trigger] has_id(out@, id),
                forall|k: int| 0 <= k < j ==> has_id(out@, #[trigger] on_disk@[k].transfer_id),
            decreases on_disk@.len() - j,
        {
            let meta = &on_disk[j];
            let seen = summary_ids_contain(&out, meta.transfer_id);
            let ghost before = out@;
            if !seen {
                let status = if meta.status == TransferStatus::Completed {
                    TransferStatus::Completed
                } else {
                    TransferStatus::Paused
                };
                out.push(
                    TransferSummary {
                        transfer_id: meta.transfer_id,
                        file_name: meta.file_name.clone(),
                        file_size: meta.file_size,
                        status,
                        role: meta.role,
                    },
                );
                proof {
                    let n = before.len() as int;
                    assert(!m.contains_key(meta.transfer_id));
                    lemma_has_id_push(before, out@[n]);
                    assert forall|i: int, k: int| 0 <= i < k < out@.len() implies out@[i].transfer_id
                        != out@[k].transfer_id by {
                        assert(out@[i] == before[i]);
                        if k < n {
                            assert(out@[k] == before[k]);
                        } else if out@[i].transfer_id == out@[k].transfer_id {
                            assert(has_id(before, meta.transfer_id));
                        }
                    }
                }
            }
            proof {
                let d1 = on_disk@.take(j + 1);
                assert(d1[j as int] == *meta);
                assert forall|i: int| 0 <= i < out@.len() implies listed_from(#[trigger] out@[i], m, d1) by {
                    if i < before.len() {
                        assert(out@[i] == before[i]);
                        lemma_listed_from_grow(out@[i], m, on_disk@.take(j as int), d1);
                    } else {
                        assert(d1[j as int].transfer_id == out@[i].transfer_id);
                    }
                }
                assert forall|k: int| 0 <= k < j + 1 implies has_id(out@, #[trigger] on_disk@[k].transfer_id) by {
                    if k < j {
                        lemma_has_id_keep(before, out@, on_disk@[k].transfer_id);
                    } else if seen {
                        lemma_has_id_keep(before, out@, on_disk@[k].transfer_id);
                    } else {
                        assert(out@[before.len() as int].transfer_id == on_disk@[k].transfer_id);
                    }
                }
                assert forall|id: u128| m.contains_key(id) implies #[trigger] has_id(out@, id) by {
                    lemma_has_id_keep(before, out@, id);
                }
            }
            j = j + 1;
        }
        proof {
            assert(on_disk@.take(j as int) =~= on_disk@);
        }
        out
    }
}

/// No id occurs twice.
pub open spec fn distinct_ids(v: Seq<TransferSummary>) -> bool {
    forall|i: int, k: int| 0 <= i < k < v.len() ==> v[i].transfer_id != v[k].transfer_id
}

/// Some summary has the id.
pub open spec fn has_id(v: Seq<TransferSummary>, id: u128) -> bool {
    exists|i: int| 0 <= i < v.len() && v[i].transfer_id == id
}

/// A summary describes an active record, or else the first record on disk with its
/// id (completed, or paused when resumable).
pub open spec fn listed_from(s: TransferSummary, active: Map<u128, TransferRecord>, disk: Seq<TransferMeta>) -> bool {
    if active.contains_key(s.transfer_id) {
        let r = active[s.transfer_id];
        s.file_name@ == r.file_name@ && s.file_size == r.file_size && s.status == r.status && s.role
            == r.role
    } else {
        exists|j: int|
            0 <= j < disk.len() && #[trigger] disk[j].transfer_id == s.transfer_id && s.file_name@
                == disk[j].file_name@ && s.file_size == disk[j].file_size && s.status
                == listed_status(disk[j].status) && s.role == disk[j].role
    }
}

proof fn lemma_listed_from_grow(
    s: TransferSummary,
    active: Map<u128, TransferRecord>,
    d0: Seq<TransferMeta>,
    d1: Seq<TransferMeta>,
)
    requires
        listed_from(s, active, d0),
        d0.len() <= d1.len(),
        forall|k: int| 0 <= k < d0.len() ==> d0[k] == d1[k],
    ensures
        listed_from(s, active, d1),
{
    if !active.contains_key(s.transfer_id) {
        let j = choose|j: int|
            0 <= j < d0.len() && #[trigger] d0[j].transfer_id == s.transfer_id && s.file_name@
                == d0[j].file_name@ && s.file_size == d0[j].file_size && s.status
                == listed_status(d0[j].status) && s.role == d0[j].role;
        assert(d1[j] == d0[j]);
    }
}

proof fn lemma_has_id_keep(before: Seq<TransferSummary>, after: Seq<TransferSummary>, id: u128)
    requires
        before.len() <= after.len(),
        forall|i: int| 0 <= i < before.len() ==> after[i] == before[i],
    ensures
        has_id(before, id) ==> has_id(after, id),
{
    if has_id(before, id) {
        let i = choose|i: int| 0 <= i < before.len() && before[i].transfer_id == id;
        assert(after[i] == before[i]);
    }
}

proof fn lemma_has_id_push(before: Seq<TransferSummary>, s: TransferSummary)
    ensures
        forall|i: int| 0 <= i < before.len() ==> before.push(s)[i] == before[i],
{
}

fn summary_ids_contain(v: &Vec<TransferSummary>, id: u128) -> (b: bool)
    ensures
        b == has_id(v@, id),
{
    let mut i: usize = 0;
    while i < v.len()
        invariant
            i <= v@.len(),
            forall|q: int| 0 <= q < i ==> v@[q].transfer_id != id,
        decreases v@.len() - i,
    {
        if v[i].transfer_id == id {
            return true;
        }
        i = i + 1;
    }
    false
}

/// Which channels a transport name mentions: USB (`USB`, `ADB`, the loopback
/// address) and Wi-Fi (`Wi-Fi`, `Hotspot`, `P2P`, or an address in `10.18.` or
/// `192.168.`).
pub open spec fn spec_name_channels(name: Seq<char>) -> (bool, bool) {
    (
        has_infix(name, "USB"@) || has_infix(name, "ADB"@) || has_infix(name, "127.0.0.1"@),
        has_infix(name, "Wi-Fi"@) || has_infix(name, "Hotspot"@) || has_infix(name, "P2P"@)
            || has_infix(name, "10.18."@) || has_infix(name, "192.168."@),
    )
}

/// Reads from a transport name which channels carried the transfer, for splitting
/// its throughput when no per-channel counters exist.
pub fn name_channels(name: &str) -> (r: (bool, bool))
    ensures
        r == spec_name_channels(name@),
{
    let usb = contains_text(name, "USB") || contains_text(name, "ADB") || contains_text(name, "127.0.0.1");
    let wifi = contains_text(name, "Wi-Fi") || contains_text(name, "Hotspot") || contains_text(name, "P2P")
        || contains_text(name, "10.18.") || contains_text(name, "192.168.");
    (usb, wifi)
}

} // verus!
