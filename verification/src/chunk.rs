//! Chunk planning: how a file of a given size is cut into fixed-size chunks.
use vstd::prelude::*;

use crate::checksum::{compute_xxhash64, spec_xxh64};

verus! {

/// Number of chunks of `chunk_size` bytes needed to cover `file_size` bytes
/// (the last chunk may be short), before it is narrowed to 32 bits.
pub open spec fn spec_chunk_count(file_size: u64, chunk_size: u32) -> nat {
    if file_size == 0 || chunk_size == 0 {
        0
    } else {
        ((file_size + chunk_size - 1) / (chunk_size as int)) as nat
    }
}

/// Calculates the total number of chunks needed for a given file size and chunk size.
///
/// The count is narrowed to `u32` by truncation, as `as u32` does.
pub fn total_chunks(file_size: u64, chunk_size: u32) -> (n: u32)
    requires
        file_size == 0 || chunk_size == 0 || file_size + chunk_size <= u64::MAX,
    ensures
        n == spec_chunk_count(file_size, chunk_size) as u32,
{
    if file_size == 0 || chunk_size == 0 {
        return 0;
    }
    let q: u64 = (file_size + chunk_size as u64 - 1) / chunk_size as u64;
    (#[verifier::truncate] (q as u32))
}


/// Represents the planned offset and size for a chunk without reading file contents into memory.
#[derive(Debug, Clone, PartialEq, Eq, Structural)]
pub struct ChunkPlanEntry {
    pub chunk_id: u32,
    pub file_offset: u64,
    pub payload_length: u32,
}

/// The `i`-th entry of the plan for a file: it starts `i` chunks into the file and
/// holds what is left of the file there, at most one chunk.
pub open spec fn spec_plan_entry(file_size: u64, chunk_size: u32, i: nat) -> ChunkPlanEntry {
    let offset = i * chunk_size;
    let remaining = if file_size >= offset {
        file_size - offset
    } else {
        0
    };
    ChunkPlanEntry {
        chunk_id: i as u32,
        file_offset: offset as u64,
        payload_length: (if remaining < chunk_size {
            remaining
        } else {
            chunk_size as int
        }) as u32,
    }
}

/// Generates the chunk plan for a file given its size and chunk size.
pub fn calculate_chunk_plan(file_size: u64, chunk_size: u32) -> (plan: Vec<ChunkPlanEntry>)
    requires
        file_size == 0 || chunk_size == 0 || file_size + chunk_size <= u64::MAX,
    ensures
        plan@.len() == spec_chunk_count(file_size, chunk_size) as u32,
        forall|i: int|
            0 <= i < plan@.len() ==> #[trigger] plan@[i] == spec_plan_entry(
                file_size,
                chunk_size,
                i as nat,
            ),
{
    let num_chunks = total_chunks(file_size, chunk_size);
    let mut plan: Vec<ChunkPlanEntry> = Vec::new();
    let mut i: u32 = 0;
    while i < num_chunks
        invariant
            i <= num_chunks,
            plan@.len() == i,
            forall|j: int|
                0 <= j < i ==> #[trigger] plan@[j] == spec_plan_entry(
                    file_size,
                    chunk_size,
                    j as nat,
                ),
        decreases num_chunks - i,
    {
        assert(i * chunk_size <= u32::MAX * u32::MAX) by (nonlinear_arith)
            requires
                i <= u32::MAX,
                chunk_size <= u32::MAX,
        ;
        let file_offset: u64 = i as u64 * chunk_size as u64;
        let remaining: u64 = file_size.saturating_sub(file_offset);
        let payload_length: u32 = if remaining < chunk_size as u64 {
            remaining as u32
        } else {
            chunk_size
        };
        plan.push(ChunkPlanEntry { chunk_id: i, file_offset, payload_length });
        i = i + 1;
    }
    plan
}

/// The plan tiles the file: entries are numbered in order, the first starts at
/// offset zero, each starts where the previous one ends, only the last may be
/// short, and the last ends at the end of the file (when the chunk count fits in
/// 32 bits).
pub proof fn lemma_chunk_plan_tiles_file(file_size: u64, chunk_size: u32)
    requires
        chunk_size > 0,
        file_size + chunk_size <= u64::MAX,
        spec_chunk_count(file_size, chunk_size) <= u32::MAX,
    ensures
        ({
            let n = spec_chunk_count(file_size, chunk_size);
            &&& n * chunk_size >= file_size
            &&& n == 0 || (n - 1) * chunk_size < file_size
            &&& forall|i: nat|
                i < n ==> (#[trigger] spec_plan_entry(file_size, chunk_size, i)).chunk_id == i
                    && spec_plan_entry(file_size, chunk_size, i).file_offset == i * chunk_size
            &&& forall|i: nat|
                i + 1 < n ==> #[trigger] spec_plan_entry(file_size, chunk_size, i).payload_length
                    == chunk_size
            &&& n > 0 ==> spec_plan_entry(file_size, chunk_size, (n - 1) as nat).file_offset
                + spec_plan_entry(file_size, chunk_size, (n - 1) as nat).payload_length
                == file_size
        }),
{
    let n = spec_chunk_count(file_size, chunk_size);
    let c = chunk_size as int;
    if file_size > 0 {
        let q = (file_size + c - 1) / c;
        assert(q * c <= file_size + c - 1) by (nonlinear_arith)
            requires
                q == (file_size + c - 1) / c,
                c > 0,
        ;
        assert(q * c > file_size - 1) by (nonlinear_arith)
            requires
                q == (file_size + c - 1) / c,
                c > 0,
        ;
        assert((q - 1) * c == q * c - c) by (nonlinear_arith);
    }
    assert forall|i: nat| i < n implies (#[trigger] spec_plan_entry(file_size, chunk_size, i)).chunk_id
        == i && spec_plan_entry(file_size, chunk_size, i).file_offset == i * chunk_size by {
        assert(i * c <= (n - 1) * c) by (nonlinear_arith)
            requires
                i < n,
                c > 0,
        ;
    }
    assert forall|i: nat| i + 1 < n implies #[trigger] spec_plan_entry(
        file_size,
        chunk_size,
        i,
    ).payload_length == chunk_size by {
        assert(i * c + c <= (n - 1) * c) by (nonlinear_arith)
            requires
                i + 1 < n,
                c > 0,
        ;
    }
}

/// Represents a single stateless data-plane chunk.
#[derive(Debug, Clone, PartialEq, Eq)]
pub struct Chunk {
    pub transfer_id: u128,
    pub file_id: u128,
    /// Sequence index, 0-based
    pub chunk_id: u32,
    pub file_offset: u64,
    pub payload_length: u32,
    /// xxHash64 of payload
    pub checksum: u64,
    pub payload: Vec<u8>,
}

/// Constructs a full `Chunk` from a `ChunkPlanEntry` and the payload bytes read for it.
pub fn create_chunk(transfer_id: u128, file_id: u128, entry: &ChunkPlanEntry, payload: Vec<u8>) -> (chunk: Chunk)
    ensures
        chunk.transfer_id == transfer_id,
        chunk.file_id == file_id,
        chunk.chunk_id == entry.chunk_id,
        chunk.file_offset == entry.file_offset,
        chunk.payload_length == entry.payload_length,
        chunk.checksum == spec_xxh64(payload@, 0),
        chunk.payload@ == payload@,
{
    let checksum = compute_xxhash64(payload.as_slice());
    Chunk {
        transfer_id,
        file_id,
        chunk_id: entry.chunk_id,
        file_offset: entry.file_offset,
        payload_length: entry.payload_length,
        checksum,
        payload,
    }
}

} // verus!
