//! Chunk completion tracking on the receiving side, for idempotent writes and resume.
use std::collections::{HashMap, HashSet};
use vstd::prelude::*;
use vstd::std_specs::hash::group_hash_axioms;
use vstd::std_specs::iter::IteratorSpec;

use crate::manifest::schema::{canonical_ranges, coalesce_ranges, ranges_set};

verus! {

broadcast use group_hash_axioms;

/// A completed chunk: transfer id, file id, chunk id and payload checksum.
pub type ChunkKey = (u128, u128, u32, u64);

/// Tracks which chunks have been completed and written.
pub trait ChunkTracker {
    /// Whether a chunk matching `(transfer_id, file_id, chunk_id, checksum)` has
    /// already been completed.
    fn is_chunk_completed(&self, transfer_id: u128, file_id: u128, chunk_id: u32, checksum: u64) -> bool;

    /// Marks a chunk as completed.
    fn mark_chunk_completed(&mut self, transfer_id: u128, file_id: u128, chunk_id: u32, checksum: u64);

    /// The coalesced inclusive ranges of completed chunk ids, `None` when nothing
    /// is completed.
    fn get_completed_ranges(&self) -> Option<Vec<(u32, u32)>>;
}

/// An in-memory chunk tracker. Entries are grouped by chunk id; a checksum of 0
/// marks a chunk restored from resume ranges, which matches any checksum.
#[derive(Debug, Clone)]
pub struct InMemoryChunkTracker {
    by_chunk: HashMap<u32, Vec<(u128, u128, u64)>>,
}

impl InMemoryChunkTracker {
    /// The completed keys.
    pub closed spec fn keys(&self) -> Set<ChunkKey> {
        Set::new(
            |k: ChunkKey|
                self.by_chunk@.contains_key(k.2) && self.by_chunk@[k.2]@.contains((k.0, k.1, k.3)),
        )
    }

    /// The chunk ids that have at least one completed key.
    pub closed spec fn chunk_ids(&self) -> Set<u32> {
        self.by_chunk@.dom()
    }

    /// Every chunk id in the table has at least one key.
    pub closed spec fn wf(&self) -> bool {
        forall|c: u32| #[trigger] self.by_chunk@.contains_key(c) ==> self.by_chunk@[c]@.len() > 0
    }

    /// The chunk ids are the ids of the keys.
    pub proof fn lemma_chunk_ids(&self)
        requires
            self.wf(),
        ensures
            forall|c: u32|
                self.chunk_ids().contains(c) <==> exists|k: ChunkKey| #[trigger]
                    self.keys().contains(k) && k.2 == c,
    {
        assert forall|c: u32| self.chunk_ids().contains(c) implies exists|k: ChunkKey| #[trigger]
            self.keys().contains(k) && k.2 == c by {
            let e = self.by_chunk@[c]@[0];
            assert(self.by_chunk@[c]@.contains(e));
            assert(self.keys().contains((e.0, e.1, c, e.2)));
        }
    }

    /// An empty tracker.
    pub fn new() -> (t: Self)
        ensures
            t.wf(),
            t.keys() == Set::<ChunkKey>::empty(),
            t.chunk_ids() == Set::<u32>::empty(),
    {
        let t = InMemoryChunkTracker { by_chunk: HashMap::new() };
        proof {
            assert(t.keys() =~= Set::<ChunkKey>::empty());
        }
        t
    }

    /// A tracker holding, for every id in the inclusive `ranges`, the key with
    /// checksum 0 (restored from a resume record).
    pub fn from_ranges(transfer_id: u128, file_id: u128, ranges: &[(u32, u32)]) -> (t: Self)
        ensures
            t.wf(),
            t.keys() == Set::new(
                |k: ChunkKey|
                    k.0 == transfer_id && k.1 == file_id && k.3 == 0 && ranges_set(ranges@).contains(
                        k.2,
                    ),
            ),
            t.chunk_ids() == ranges_set(ranges@),
    {
        let mut t = Self::new();
        let ghost target = |r: Seq<(u32, u32)>|
            Set::new(
                |k: ChunkKey|
                    k.0 == transfer_id && k.1 == file_id && k.3 == 0 && ranges_set(r).contains(k.2),
            );
        let mut r: usize = 0;
        proof {
            assert(t.keys() =~= target(ranges@.take(0)));
            assert(t.chunk_ids() =~= ranges_set(ranges@.take(0)));
        }
        while r < ranges.len()
            invariant
                r <= ranges@.len(),
                t.wf(),
                t.keys() == target(ranges@.take(r as int)),
                t.chunk_ids() == ranges_set(ranges@.take(r as int)),
                target == (|r: Seq<(u32, u32)>|
                    Set::new(
                        |k: ChunkKey|
                            k.0 == transfer_id && k.1 == file_id && k.3 == 0 && ranges_set(
                                r,
                            ).contains(k.2),
                    )),
            decreases ranges@.len() - r,
        {
            let (start, end) = ranges[r];
            let ghost base_keys = t.keys();
            let ghost base_ids = t.chunk_ids();
            proof {
                assert(ranges@.take(r + 1) =~= ranges@.take(r as int).push((start, end)));
                crate::manifest::schema::lemma_ranges_set_push(ranges@.take(r as int), start, end);
            }
            if start <= end {
                let mut id = start;
                loop
                    invariant_except_break
                        t.keys() == base_keys.union(
                            Set::new(
                                |k: ChunkKey|
                                    k.0 == transfer_id && k.1 == file_id && k.3 == 0 && start <= k.2
                                        < id,
                            ),
                        ),
                        t.chunk_ids() == base_ids.union(Set::new(|x: u32| start <= x < id)),
                    invariant
                        start <= id <= end,
                        t.wf(),
                    ensures
                        t.wf(),
                        t.keys() == base_keys.union(
                            Set::new(
                                |k: ChunkKey|
                                    k.0 == transfer_id && k.1 == file_id && k.3 == 0 && start <= k.2
                                        <= end,
                            ),
                        ),
                        t.chunk_ids() == base_ids.union(Set::new(|x: u32| start <= x <= end)),
                    decreases end - id,
                {
                    let ghost before = t.keys();
                    let ghost before_ids = t.chunk_ids();
                    t.mark_chunk_completed(transfer_id, file_id, id, 0);
                    if id == end {
                        proof {
                            assert(t.keys() =~= base_keys.union(
                                Set::new(
                                    |k: ChunkKey|
                                        k.0 == transfer_id && k.1 == file_id && k.3 == 0 && start
                                            <= k.2 <= end,
                                ),
                            ));
                            assert(t.chunk_ids() =~= base_ids.union(
                                Set::new(|x: u32| start <= x <= end),
                            ));
                        }
                        break;
                    }
                    id = id + 1;
                    proof {
                        assert(t.keys() =~= base_keys.union(
                            Set::new(
                                |k: ChunkKey|
                                    k.0 == transfer_id && k.1 == file_id && k.3 == 0 && start <= k.2
                                        < id,
                            ),
                        ));
                        assert(t.chunk_ids() =~= base_ids.union(Set::new(|x: u32| start <= x < id)));
                    }
                }
                proof {
                    assert(t.keys() =~= target(ranges@.take(r + 1)));
                    assert(t.chunk_ids() =~= ranges_set(ranges@.take(r + 1)));
                }
            } else {
                proof {
                    assert(t.keys() =~= target(ranges@.take(r + 1)));
                    assert(t.chunk_ids() =~= ranges_set(ranges@.take(r + 1)));
                }
            }
            r = r + 1;
        }
        proof {
            assert(ranges@.take(ranges@.len() as int) =~= ranges@);
        }
        t
    }
}

fn entry_contains(v: &Vec<(u128, u128, u64)>, e: (u128, u128, u64)) -> (b: bool)
    ensures
        b == v@.contains(e),
{
    let mut i: usize = 0;
    while i < v.len()
        invariant
            i <= v@.len(),
            forall|j: int| 0 <= j < i ==> v@[j] != e,
        decreases v@.len() - i,
    {
        if v[i].0 == e.0 && v[i].1 == e.1 && v[i].2 == e.2 {
            proof {
                assert(v@[i as int] == e);
            }
            return true;
        }
        i = i + 1;
    }
    false
}

impl ChunkTracker for InMemoryChunkTracker {
    /// True when the exact key is completed, or the chunk was restored from resume
    /// ranges (checksum 0).
    fn is_chunk_completed(&self, transfer_id: u128, file_id: u128, chunk_id: u32, checksum: u64) -> (b:
        bool)
        ensures
            b == (self.keys().contains((transfer_id, file_id, chunk_id, checksum))
                || self.keys().contains((transfer_id, file_id, chunk_id, 0))),
    {
        match self.by_chunk.get(&chunk_id) {
            None => false,
            Some(v) => entry_contains(v, (transfer_id, file_id, checksum)) || entry_contains(
                v,
                (transfer_id, file_id, 0),
            ),
        }
    }

    /// Adds the key.
    fn mark_chunk_completed(&mut self, transfer_id: u128, file_id: u128, chunk_id: u32, checksum: u64)
        ensures
            old(self).wf() ==> final(self).wf(),
            final(self).keys() == old(self).keys().insert((transfer_id, file_id, chunk_id, checksum)),
            final(self).chunk_ids() == old(self).chunk_ids().insert(chunk_id),
    {
        let ghost before = *self;
        let mut v = match self.by_chunk.remove(&chunk_id) {
            Some(v) => v,
            None => Vec::new(),
        };
        let e = (transfer_id, file_id, checksum);
        if !entry_contains(&v, e) {
            v.push(e);
            proof {
                assert(v@[v@.len() - 1] == e);
            }
        }
        assert(v@.contains(e));
        self.by_chunk.insert(chunk_id, v);
        proof {
            let k0 = (transfer_id, file_id, chunk_id, checksum);
            assert forall|k: ChunkKey| #[trigger] self.keys().contains(k) <==> before.keys().insert(
                k0,
            ).contains(k) by {
                if k.2 == chunk_id && before.by_chunk@.contains_key(chunk_id) {
                    if before.by_chunk@[chunk_id]@.contains((k.0, k.1, k.3)) {
                        let j = choose|j: int|
                            0 <= j < before.by_chunk@[chunk_id]@.len()
                                && before.by_chunk@[chunk_id]@[j] == (k.0, k.1, k.3);
                        assert(self.by_chunk@[chunk_id]@[j] == (k.0, k.1, k.3));
                    }
                }
                if k == k0 {
                    assert(self.by_chunk@[chunk_id]@.contains(e));
                }
            }
            assert(self.keys() =~= before.keys().insert(k0));
            assert(self.chunk_ids() =~= before.chunk_ids().insert(chunk_id));
        }
    }

    /// The canonical ranges of the completed chunk ids, or `None` when no chunk is
    /// completed.
    fn get_completed_ranges(&self) -> (r: Option<Vec<(u32, u32)>>)
        ensures
            r is None <==> self.chunk_ids().is_empty(),
            r matches Some(v) ==> canonical_ranges(v@) && ranges_set(v@) == self.chunk_ids(),
    {
        if self.by_chunk.is_empty() {
            return None;
        }
        let mut ids: HashSet<u32> = HashSet::new();
        for c in it: self.by_chunk.keys()
            invariant
                it.seq() == self.by_chunk.keys().remaining(),
                forall|x: u32|
                    ids@.contains(x) <==> exists|j: int| 0 <= j < it.index() && *it.seq()[j] == x,
            ensures
                forall|x: u32|
                    ids@.contains(x) <==> exists|j: int| 0 <= j < it.seq().len() && *it.seq()[j] == x,
        {
            let ghost idx = it.index();
            ids.insert(*c);
            proof {
                let s = it.seq();
                assert(*s[idx] == *c);
                assert forall|x: u32|
                    ids@.contains(x) <==> exists|j: int| 0 <= j < idx + 1 && *s[j] == x by {
                    if exists|j: int| 0 <= j < idx + 1 && *s[j] == x {
                        let j = choose|j: int| 0 <= j < idx + 1 && *s[j] == x;
                        if j < idx {
                            assert(exists|j: int| 0 <= j < idx && *s[j] == x);
                        }
                    }
                }
            }
        }
        proof {
            let s = self.by_chunk.keys().remaining();
            assert forall|x: u32| ids@.contains(x) <==> self.by_chunk@.dom().contains(x) by {
                if ids@.contains(x) {
                    let j = choose|j: int| 0 <= j < s.len() && *s[j] == x;
                    assert(s.unref().to_set().contains(s.unref()[j]));
                }
                if self.by_chunk@.dom().contains(x) {
                    assert(s.unref().to_set().contains(x));
                    let j = choose|j: int| 0 <= j < s.unref().len() && s.unref()[j] == x;
                    assert(*s[j] == x);
                }
            }
            assert(ids@ =~= self.by_chunk@.dom());
        }
        Some(coalesce_ranges(&ids))
    }
}

} // verus!
