//! Verified core logic of a multipath file-transfer engine: chunk planning,
//! checksums, framing, range bookkeeping, schedulers and channel trackers.
use vstd::prelude::*;

pub mod benchmark;
pub mod checksum;
pub mod ffi;
pub mod chunk;
pub mod manifest;
pub mod protocol;
pub mod scheduler;
pub mod text;
pub mod transfer;
pub mod transport;

verus! {
} // verus!
