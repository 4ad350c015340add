//! The ledger of per-chunk CRC32C values from which both ends compute the
//! whole-file checksum without reading the file again.
use std::collections::HashMap;
use vstd::prelude::*;
use vstd::std_specs::hash::group_hash_axioms;

use crate::checksum::{compute_crc32c, crc32c_spec, Crc32cAccumulator};

verus! {

broadcast use group_hash_axioms;

/// The recorded chunks with ids below `n`, concatenated in id order; missing ids
/// contribute nothing.
pub open spec fn ledger_concat(chunks: Map<u32, Seq<u8>>, n: nat) -> Seq<u8>
    decreases n,
{
    if n == 0 {
        Seq::empty()
    } else {
        let rest = ledger_concat(chunks, (n - 1) as nat);
        let i = (n - 1) as u32;
        if chunks.contains_key(i) {
            rest + chunks[i]
        } else {
            rest
        }
    }
}

proof fn lemma_ledger_concat_monotone(chunks: Map<u32, Seq<u8>>, a: nat, b: nat)
    requires
        a <= b,
    ensures
        ledger_concat(chunks, a).len() <= ledger_concat(chunks, b).len(),
    decreases b,
{
    if a < b {
        lemma_ledger_concat_monotone(chunks, a, (b - 1) as nat);
    }
}

/// The CRC32C and length of each chunk seen so far, from which the whole-file
/// checksum is combined once every chunk is known.
pub struct ChunkCrcLedger {
    crcs: HashMap<u32, (u32, usize)>,
    data: Ghost<Map<u32, Seq<u8>>>,
}

impl ChunkCrcLedger {
    /// The bytes of each recorded chunk.
    pub closed spec fn chunks(&self) -> Map<u32, Seq<u8>> {
        self.data@
    }

    /// The table holds the checksum and length of each recorded chunk.
    #[verifier::type_invariant]
    closed spec fn wf(&self) -> bool {
        &&& self.crcs@.dom() == self.data@.dom()
        &&& forall|k: u32| #[trigger]
            self.crcs@.contains_key(k) ==> self.crcs@[k].0 == crc32c_spec(self.data@[k])
                && self.crcs@[k].1 == self.data@[k].len()
    }

    /// An empty ledger.
    pub fn new() -> (l: Self)
        ensures
            l.chunks() == Map::<u32, Seq<u8>>::empty(),
    {
        ChunkCrcLedger { crcs: HashMap::new(), data: Ghost(Map::empty()) }
    }

    /// Records the bytes of a chunk (replacing an earlier record of the same id).
    pub fn record(&mut self, chunk_id: u32, bytes: &[u8])
        ensures
            final(self).chunks() == old(self).chunks().insert(chunk_id, bytes@),
    {
        let c = compute_crc32c(bytes);
        let mut taken = ChunkCrcLedger::new();
        std::mem::swap(&mut taken, self);
        proof {
            use_type_invariant(&taken);
        }
        let ChunkCrcLedger { mut crcs, data } = taken;
        crcs.insert(chunk_id, (c, bytes.len()));
        let ghost after = data@.insert(chunk_id, bytes@);
        proof {
            assert(crcs@.dom() =~= after.dom());
        }
        *self = ChunkCrcLedger { crcs, data: Ghost(after) };
    }

    /// Whether a chunk with this id is recorded.
    pub fn contains(&self, chunk_id: u32) -> (b: bool)
        ensures
            b == self.chunks().contains_key(chunk_id),
    {
        proof {
            use_type_invariant(self);
        }
        self.crcs.contains_key(&chunk_id)
    }

    /// The number of recorded chunks.
    pub fn len(&self) -> (n: usize)
        ensures
            n == self.chunks().dom().len(),
    {
        proof {
            use_type_invariant(self);
        }
        self.crcs.len()
    }

    /// The checksum of the whole file once exactly `total` chunks are recorded:
    /// the recorded chunks below `total`, in id order, combined. `None` when the
    /// count differs, or when the combined length would not fit in 64 bits.
    pub fn file_crc(&self, total: u32) -> (r: Option<u32>)
        ensures
            r matches Some(c) ==> self.chunks().dom().len() == total && c == crc32c_spec(
                ledger_concat(self.chunks(), total as nat),
            ),
            self.chunks().dom().len() == total && ledger_concat(self.chunks(), total as nat).len()
                <= u64::MAX ==> r is Some,
    {
        proof {
            use_type_invariant(self);
        }
        if self.crcs.len() != total as usize {
            return None;
        }
        let mut acc = Crc32cAccumulator::new();
        let mut cid: u32 = 0;
        proof {
            assert(ledger_concat(self.data@, 0) =~= Seq::<u8>::empty());
        }
        while cid < total
            invariant
                self.wf(),
                cid <= total,
                acc.holds(ledger_concat(self.data@, cid as nat)),
            decreases total - cid,
        {
            proof {
                lemma_ledger_concat_monotone(self.data@, (cid + 1) as nat, total as nat);
            }
            match self.crcs.get(&cid) {
                Some(entry) => {
                    let (crc, len) = *entry;
                    if u64::MAX - acc.total_bytes() < len as u64 {
                        return None;
                    }
                    acc.combine(crc, len);
                    proof {
                        assert(acc.holds(ledger_concat(self.data@, (cid + 1) as nat)));
                    }
                },
                None => {},
            }
            cid = cid + 1;
        }
        Some(acc.finalize())
    }
}

} // verus!
