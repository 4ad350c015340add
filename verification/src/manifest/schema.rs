//! Transfer metadata schema and the completed-range bookkeeping used for resume.
use std::collections::HashSet;
use vstd::prelude::*;
use vstd::std_specs::hash::group_hash_axioms;
use vstd::std_specs::iter::IteratorSpec;

use crate::chunk::{spec_chunk_count, total_chunks};

verus! {

broadcast use group_hash_axioms;

/// Which side of a transfer a record describes.
#[derive(Debug, Clone, Copy, PartialEq, Eq, Structural)]
pub enum TransferRole {
    Sender,
    Receiver,
}

/// Lifecycle status of a transfer.
#[derive(Debug, Clone, Copy, PartialEq, Eq, Structural)]
pub enum TransferStatus {
    InProgress,
    Paused,
    Completed,
    Cancelled,
    Failed,
}

/// Per-transport byte, error and retry counters.
#[derive(Debug, Clone, Default, PartialEq, Eq, Structural)]
pub struct TransportStats {
    pub bytes: u64,
    pub errors: u64,
    pub retries: u64,
}

/// Counters for both physical transports.
#[derive(Debug, Clone, Default, PartialEq, Eq, Structural)]
pub struct TransportStatsMap {
    pub usb: TransportStats,
    pub wifi_direct: TransportStats,
}

impl TransportStats {
    /// All counters at zero.
    pub fn zero() -> (s: Self)
        ensures
            s == (TransportStats { bytes: 0, errors: 0, retries: 0 }),
    {
        TransportStats { bytes: 0, errors: 0, retries: 0 }
    }
}

impl TransportStatsMap {
    /// All counters of both transports at zero.
    pub fn zero() -> (s: Self)
        ensures
            s.usb == (TransportStats { bytes: 0, errors: 0, retries: 0 }),
            s.wifi_direct == (TransportStats { bytes: 0, errors: 0, retries: 0 }),
    {
        TransportStatsMap { usb: TransportStats::zero(), wifi_direct: TransportStats::zero() }
    }
}

/// The persistent record of one transfer, kept beside the file for resume. Ids are
/// the 128-bit values of the transfer's UUIDs; times are RFC 3339 strings.
#[derive(Debug, Clone)]
pub struct TransferMeta {
    pub transfer_id: u128,
    pub file_id: u128,
    pub file_name: String,
    pub file_size: u64,
    pub chunk_size: u32,
    pub total_chunks: u32,
    pub role: TransferRole,
    pub peer_device_id: u128,
    pub status: TransferStatus,
    pub completed_ranges: Vec<(u32, u32)>,
    pub created_at: String,
    pub updated_at: String,
    pub transport_stats: TransportStatsMap,
}

/// The current UTC time in RFC 3339 form; calls chrono's `Utc::now().to_rfc3339()`.
/// Nothing is promised of the text: it depends on the clock.
#[verifier::external_body]
fn now_rfc3339() -> (s: String) {
    chrono::Utc::now().to_rfc3339()
}

impl TransferMeta {
    /// A fresh in-progress record with no completed chunks and zeroed counters,
    /// created and updated at `now`.
    pub fn new_at(
        transfer_id: u128,
        file_id: u128,
        file_name: String,
        file_size: u64,
        chunk_size: u32,
        total_chunks: u32,
        role: TransferRole,
        peer_device_id: u128,
        now: String,
    ) -> (m: Self)
        ensures
            m.transfer_id == transfer_id,
            m.file_id == file_id,
            m.file_name@ == file_name@,
            m.file_size == file_size,
            m.chunk_size == chunk_size,
            m.total_chunks == total_chunks,
            m.role == role,
            m.peer_device_id == peer_device_id,
            m.status == TransferStatus::InProgress,
            m.completed_ranges@ == Seq::<(u32, u32)>::empty(),
            m.created_at@ == now@,
            m.updated_at@ == now@,
            m.transport_stats.usb == (TransportStats { bytes: 0, errors: 0, retries: 0 }),
            m.transport_stats.wifi_direct == (TransportStats { bytes: 0, errors: 0, retries: 0 }),
    {
        let created = now.clone();
        TransferMeta {
            transfer_id,
            file_id,
            file_name,
            file_size,
            chunk_size,
            total_chunks,
            role,
            peer_device_id,
            status: TransferStatus::InProgress,
            completed_ranges: Vec::new(),
            created_at: created,
            updated_at: now,
            transport_stats: TransportStatsMap::zero(),
        }
    }

    /// A fresh in-progress record stamped with the current time (see `new_at`).
    pub fn new(
        transfer_id: u128,
        file_id: u128,
        file_name: String,
        file_size: u64,
        chunk_size: u32,
        total_chunks: u32,
        role: TransferRole,
        peer_device_id: u128,
    ) -> (m: Self)
        ensures
            m.transfer_id == transfer_id,
            m.file_id == file_id,
            m.file_name@ == file_name@,
            m.file_size == file_size,
            m.chunk_size == chunk_size,
            m.total_chunks == total_chunks,
            m.role == role,
            m.peer_device_id == peer_device_id,
            m.status == TransferStatus::InProgress,
            m.completed_ranges@ == Seq::<(u32, u32)>::empty(),
            m.created_at@ == m.updated_at@,
            m.transport_stats.usb == (TransportStats { bytes: 0, errors: 0, retries: 0 }),
            m.transport_stats.wifi_direct == (TransportStats { bytes: 0, errors: 0, retries: 0 }),
    {
        let now = now_rfc3339();
        Self::new_at(
            transfer_id,
            file_id,
            file_name,
            file_size,
            chunk_size,
            total_chunks,
            role,
            peer_device_id,
            now,
        )
    }
}

/// File metadata and chunk count announced in a transfer offer.
#[derive(Debug, Clone)]
pub struct FileManifest {
    pub file_id: u128,
    pub file_name: String,
    pub file_size: u64,
    pub chunk_size: u32,
    pub total_chunks: u32,
}

impl FileManifest {
    /// The manifest of a file of `file_size` bytes cut into `chunk_size`-byte chunks.
    pub fn describe(file_id: u128, file_name: String, file_size: u64, chunk_size: u32) -> (m: Self)
        requires
            file_size == 0 || chunk_size == 0 || file_size + chunk_size <= u64::MAX,
        ensures
            m.file_id == file_id,
            m.file_name@ == file_name@,
            m.file_size == file_size,
            m.chunk_size == chunk_size,
            m.total_chunks == spec_chunk_count(file_size, chunk_size) as u32,
    {
        let total = total_chunks(file_size, chunk_size);
        FileManifest { file_id, file_name, file_size, chunk_size, total_chunks: total }
    }
}

// ---------------------------------------------------------------------------
// Inclusive chunk-id ranges
// ---------------------------------------------------------------------------
/// The ids `a ..= b`.
pub open spec fn interval(a: u32, b: u32) -> Set<u32> {
    Set::new(|x: u32| a <= x <= b)
}

/// Some range of `ranges` contains `x`.
pub open spec fn ranges_contain(ranges: Seq<(u32, u32)>, x: u32) -> bool {
    exists|i: int| 0 <= i < ranges.len() && #[trigger] ranges[i].0 <= x && x <= ranges[i].1
}

/// The set of ids covered by a list of inclusive ranges.
pub open spec fn ranges_set(ranges: Seq<(u32, u32)>) -> Set<u32> {
    Set::new(|x: u32| ranges_contain(ranges, x))
}

/// Ranges are non-empty, sorted, non-overlapping and non-adjacent.
pub open spec fn canonical_ranges(ranges: Seq<(u32, u32)>) -> bool {
    &&& forall|i: int| 0 <= i < ranges.len() ==> #[trigger] ranges[i].0 <= ranges[i].1
    &&& forall|i: int, j: int|
        0 <= i < j < ranges.len() ==> #[trigger] ranges[i].1 + 1 < #[trigger] ranges[j].0
}

/// Appending a range adds its interval to the covered ids.
pub proof fn lemma_ranges_set_push(ranges: Seq<(u32, u32)>, a: u32, b: u32)
    ensures
        ranges_set(ranges.push((a, b))) == ranges_set(ranges).union(interval(a, b)),
{
    let r2 = ranges.push((a, b));
    assert forall|x: u32| ranges_set(r2).contains(x) implies ranges_set(ranges).union(
        interval(a, b),
    ).contains(x) by {
        let i = choose|i: int| 0 <= i < r2.len() && #[trigger] r2[i].0 <= x && x <= r2[i].1;
        if i < ranges.len() {
            assert(ranges[i] == r2[i]);
            assert(ranges_contain(ranges, x));
        } else {
            assert(r2[i] == (a, b));
            assert(interval(a, b).contains(x));
        }
    }
    assert forall|x: u32| ranges_set(ranges).union(interval(a, b)).contains(x) implies ranges_set(
        r2,
    ).contains(x) by {
        if ranges_contain(ranges, x) {
            let i = choose|i: int|
                0 <= i < ranges.len() && #[trigger] ranges[i].0 <= x && x <= ranges[i].1;
            assert(r2[i] == ranges[i]);
            assert(ranges_contain(r2, x));
        } else {
            let i = ranges.len() as int;
            assert(r2[i] == (a, b));
            assert(a <= x <= b);
            assert(r2[i].0 <= x && x <= r2[i].1);
            assert(ranges_contain(r2, x));
        }
    }
    assert(ranges_set(r2) =~= ranges_set(ranges).union(interval(a, b)));
}

proof fn lemma_canonical_push(ranges: Seq<(u32, u32)>, a: u32, b: u32)
    requires
        canonical_ranges(ranges),
        a <= b,
        ranges.len() > 0 ==> ranges.last().1 + 1 < a,
    ensures
        canonical_ranges(ranges.push((a, b))),
{
    let r2 = ranges.push((a, b));
    let n = ranges.len() as int;
    assert forall|i: int| 0 <= i < r2.len() implies #[trigger] r2[i].0 <= r2[i].1 by {
        if i < n {
            assert(r2[i] == ranges[i]);
        }
    }
    assert forall|i: int, j: int| 0 <= i < j < r2.len() implies #[trigger] r2[i].1 + 1
        < #[trigger] r2[j].0 by {
        assert(r2[i] == ranges[i]);
        if j < n {
            assert(r2[j] == ranges[j]);
        } else {
            assert(r2[j] == (a, b));
            if i < n - 1 {
                assert(ranges[i].1 + 1 < ranges[n - 1].0);
                assert(ranges[n - 1].0 <= ranges[n - 1].1);
            }
        }
    }
}

proof fn lemma_canonical_first(r: Seq<(u32, u32)>)
    requires
        canonical_ranges(r),
        r.len() > 0,
    ensures
        ranges_set(r).contains(r[0].0),
        forall|x: u32| ranges_set(r).contains(x) ==> r[0].0 <= x,
        r[0].1 < u32::MAX ==> !ranges_set(r).contains((r[0].1 + 1) as u32),
        interval(r[0].0, r[0].1).subset_of(ranges_set(r)),
        ranges_set(r.drop_first()) == ranges_set(r).difference(interval(r[0].0, r[0].1)),
        canonical_ranges(r.drop_first()),
{
    assert(r[0].0 <= r[0].1);
    assert(ranges_contain(r, r[0].0));
    assert forall|x: u32| ranges_set(r).contains(x) implies r[0].0 <= x by {
        let i = choose|i: int| 0 <= i < r.len() && #[trigger] r[i].0 <= x && x <= r[i].1;
        if i > 0 {
            assert(r[0].1 + 1 < r[i].0);
        }
    }
    if r[0].1 < u32::MAX {
        let y = (r[0].1 + 1) as u32;
        if ranges_contain(r, y) {
            let i = choose|i: int| 0 <= i < r.len() && #[trigger] r[i].0 <= y && y <= r[i].1;
            if i > 0 {
                assert(r[0].1 + 1 < r[i].0);
            }
        }
    }
    assert forall|x: u32| interval(r[0].0, r[0].1).contains(x) implies ranges_set(r).contains(x) by {
        assert(r[0].0 <= x && x <= r[0].1);
        assert(ranges_contain(r, x));
    }
    let t = r.drop_first();
    assert forall|x: u32| ranges_set(t).contains(x) <==> ranges_set(r).difference(
        interval(r[0].0, r[0].1),
    ).contains(x) by {
        if ranges_contain(t, x) {
            let i = choose|i: int| 0 <= i < t.len() && #[trigger] t[i].0 <= x && x <= t[i].1;
            assert(t[i] == r[i + 1]);
            assert(r[0].1 + 1 < r[i + 1].0);
            assert(ranges_contain(r, x));
        }
        if ranges_contain(r, x) && !interval(r[0].0, r[0].1).contains(x) {
            let i = choose|i: int| 0 <= i < r.len() && #[trigger] r[i].0 <= x && x <= r[i].1;
            assert(i != 0);
            assert(t[i - 1] == r[i]);
            assert(ranges_contain(t, x));
        }
    }
    assert(ranges_set(t) =~= ranges_set(r).difference(interval(r[0].0, r[0].1)));
    assert forall|i: int| 0 <= i < t.len() implies #[trigger] t[i].0 <= t[i].1 by {
        assert(t[i] == r[i + 1]);
    }
    assert forall|i: int, j: int| 0 <= i < j < t.len() implies #[trigger] t[i].1 + 1
        < #[trigger] t[j].0 by {
        assert(t[i] == r[i + 1] && t[j] == r[j + 1]);
    }
}

/// Canonical range lists are unique: two sorted, non-overlapping, non-adjacent lists
/// of inclusive ranges that cover the same ids are the same list. So coalescing the
/// expansion of a canonical list gives that list back.
pub proof fn lemma_canonical_ranges_unique(r1: Seq<(u32, u32)>, r2: Seq<(u32, u32)>)
    requires
        canonical_ranges(r1),
        canonical_ranges(r2),
        ranges_set(r1) == ranges_set(r2),
    ensures
        r1 == r2,
    decreases r1.len(),
{
    if r1.len() == 0 {
        if r2.len() > 0 {
            lemma_canonical_first(r2);
            assert(ranges_set(r1).contains(r2[0].0));
        }
        assert(r1 =~= r2);
    } else if r2.len() == 0 {
        lemma_canonical_first(r1);
        assert(ranges_set(r2).contains(r1[0].0));
    } else {
        lemma_canonical_first(r1);
        lemma_canonical_first(r2);
        let (a1, b1) = r1[0];
        let (a2, b2) = r2[0];
        assert(a1 == a2);
        if b1 < b2 {
            assert(interval(a2, b2).contains((b1 + 1) as u32));
        }
        if b2 < b1 {
            assert(interval(a1, b1).contains((b2 + 1) as u32));
        }
        assert(r1[0] == r2[0]);
        lemma_canonical_ranges_unique(r1.drop_first(), r2.drop_first());
        assert(r1 =~= seq![r1[0]] + r1.drop_first());
        assert(r2 =~= seq![r2[0]] + r2.drop_first());
    }
}

/// The range list written for a completed set expands back to exactly that set,
/// and a canonical list coalesces back to itself: resume state survives a
/// coalesce / expand round trip in both directions.
pub proof fn lemma_ranges_roundtrip(completed: Set<u32>, written: Seq<(u32, u32)>, reread: Set<u32>)
    requires
        canonical_ranges(written),
        ranges_set(written) == completed,
        reread == ranges_set(written),
    ensures
        reread == completed,
        forall|r: Seq<(u32, u32)>| canonical_ranges(r) && ranges_set(r) == reread ==> r == written,
{
    assert forall|r: Seq<(u32, u32)>| canonical_ranges(r) && ranges_set(r) == reread implies r
        == written by {
        lemma_canonical_ranges_unique(r, written);
    }
}

/// The ids at positions below `m`.
pub open spec fn prefix_set(ids: Seq<u32>, m: int) -> Set<u32> {
    Set::new(|x: u32| exists|i: int| 0 <= i < m && #[trigger] ids[i] == x)
}

/// Sorts ids ascending; calls the standard library's `sort_unstable`.
#[verifier::external_body]
fn sort_ids(ids: &mut Vec<u32>)
    ensures
        final(ids)@.to_multiset() == old(ids)@.to_multiset(),
        forall|i: int, j: int| 0 <= i < j < final(ids)@.len() ==> final(ids)@[i] <= final(ids)@[j],
{
    ids.sort_unstable();
}

/// Coalesces an in-memory `HashSet<u32>` of completed chunk IDs into a minimal,
/// sorted list of non-overlapping, non-adjacent inclusive `[start, end]` ranges.
pub fn coalesce_ranges(completed_chunks: &HashSet<u32>) -> (ranges: Vec<(u32, u32)>)
    ensures
        canonical_ranges(ranges@),
        ranges_set(ranges@) == completed_chunks@,
{
    if completed_chunks.is_empty() {
        proof {
            assert(ranges_set(Seq::<(u32, u32)>::empty()) =~= completed_chunks@);
        }
        return Vec::new();
    }
    let mut chunk_ids: Vec<u32> = Vec::new();
    for x in it: completed_chunks.iter()
        invariant
            chunk_ids@ == it.seq().take(it.index()).unref(),
    {
        proof {
            assert(it.seq().take(it.index() + 1) =~= it.seq().take(it.index()).push(x));
        }
        chunk_ids.push(*x);
        proof {
            assert(chunk_ids@ =~= it.seq().take(it.index() + 1).unref());
        }
    }
    let ghost unsorted = chunk_ids@;
    proof {
        let rem = completed_chunks.iter().remaining();
        assert(unsorted =~= rem.unref());
        assert(unsorted.to_set() == completed_chunks@);
        assert(unsorted.no_duplicates());
    }
    sort_ids(&mut chunk_ids);
    let ghost ids = chunk_ids@;
    proof {
        lemma_sorted_permutation_props(unsorted, ids, completed_chunks@);
    }
    let n = chunk_ids.len();
    let mut ranges: Vec<(u32, u32)> = Vec::new();
    let mut start = chunk_ids[0];
    let mut prev = start;
    let ghost mut k: int = 0;
    let mut j: usize = 1;
    proof {
        assert(ranges_set(ranges@) =~= prefix_set(ids, 0));
    }
    while j < n
        invariant
            n == ids.len(),
            ids == chunk_ids@,
            n >= 1,
            forall|a: int, b: int| 0 <= a < b < n ==> ids[a] < ids[b],
            1 <= j <= n,
            0 <= k < j,
            start == ids[k],
            prev == ids[j - 1],
            forall|i: int| k <= i < j ==> #[trigger] ids[i] == start + (i - k),
            canonical_ranges(ranges@),
            ranges@.len() > 0 ==> ranges@.last().1 + 1 < start,
            ranges_set(ranges@) == prefix_set(ids, k),
        decreases n - j,
    {
        let id = chunk_ids[j];
        assert(prev < id);
        if id == prev + 1 {
            prev = id;
        } else {
            proof {
                lemma_run_is_interval(ids, k, j as int, start, prev);
                lemma_ranges_set_push(ranges@, start, prev);
                assert(ids[j - 1] == start + (j - 1 - k));
                lemma_canonical_push(ranges@, start, prev);
            }
            ranges.push((start, prev));
            start = id;
            prev = id;
            proof {
                k = j as int;
            }
        }
        j = j + 1;
    }
    proof {
        lemma_run_is_interval(ids, k, n as int, start, prev);
        lemma_ranges_set_push(ranges@, start, prev);
        assert(ids[n - 1] == start + (n - 1 - k));
        lemma_canonical_push(ranges@, start, prev);
        assert(prefix_set(ids, n as int) =~= completed_chunks@) by {
            assert forall|x: u32| prefix_set(ids, n as int).contains(x) implies completed_chunks@.contains(x) by {
                let i = choose|i: int| 0 <= i < n && #[trigger] ids[i] == x;
                assert(ids.contains(x));
                assert(ids.to_set().contains(x));
            }
            assert forall|x: u32| completed_chunks@.contains(x) implies prefix_set(ids, n as int).contains(x) by {
                assert(ids.to_set().contains(x));
                assert(ids.contains(x));
                let i = choose|i: int| 0 <= i < ids.len() && ids[i] == x;
                assert(ids[i] == x);
            }
        }
    }
    ranges.push((start, prev));
    ranges
}

proof fn lemma_sorted_permutation_props(unsorted: Seq<u32>, ids: Seq<u32>, s: Set<u32>)
    requires
        unsorted.to_set() == s,
        unsorted.no_duplicates(),
        ids.to_multiset() == unsorted.to_multiset(),
        forall|i: int, j: int| 0 <= i < j < ids.len() ==> ids[i] <= ids[j],
    ensures
        ids.to_set() == s,
        ids.len() == unsorted.len(),
        forall|i: int, j: int| 0 <= i < j < ids.len() ==> ids[i] < ids[j],
{
    broadcast use vstd::seq_lib::group_to_multiset_ensures;

    unsorted.lemma_multiset_has_no_duplicates();
    assert(ids.to_multiset().len() == ids.len());
    assert(unsorted.to_multiset().len() == unsorted.len());
    assert forall|x: u32| ids.to_multiset().count(x) <= 1 by {
        if unsorted.to_multiset().count(x) > 1 {
            assert(unsorted.to_multiset().contains(x));
        }
    }
    assert(ids.to_multiset().len() == unsorted.to_multiset().len());
    assert forall|x: u32| ids.to_set().contains(x) <==> s.contains(x) by {
        assert(ids.contains(x) <==> ids.to_multiset().contains(x));
        assert(unsorted.contains(x) <==> unsorted.to_multiset().contains(x));
        assert(unsorted.to_set().contains(x) <==> unsorted.contains(x));
        assert(ids.to_set().contains(x) <==> ids.contains(x));
    }
    assert(ids.to_set() =~= s);
    assert forall|i: int, j: int| 0 <= i < j < ids.len() implies ids[i] < ids[j] by {
        if ids[i] == ids[j] {
            lemma_two_positions_count(ids, i, j);
        }
    }
}

proof fn lemma_two_positions_count(s: Seq<u32>, i: int, j: int)
    requires
        0 <= i < j < s.len(),
        s[i] == s[j],
    ensures
        s.to_multiset().count(s[i]) >= 2,
    decreases s.len(),
{
    broadcast use vstd::seq_lib::group_to_multiset_ensures;

    let last = s.len() - 1;
    let d = s.drop_last();
    assert(s =~= d.push(s.last()));
    if j == last {
        assert(d[i] == s[i]);
        assert(d.contains(s[i]));
        assert(d.to_multiset().count(s[i]) >= 1);
    } else {
        assert(d[i] == s[i] && d[j] == s[j]);
        lemma_two_positions_count(d, i, j);
    }
}

proof fn lemma_run_is_interval(ids: Seq<u32>, k: int, j: int, start: u32, prev: u32)
    requires
        0 <= k < j <= ids.len(),
        start == ids[k],
        prev == ids[j - 1],
        forall|i: int| k <= i < j ==> #[trigger] ids[i] == start + (i - k),
    ensures
        prefix_set(ids, j) == prefix_set(ids, k).union(interval(start, prev)),
{
    assert forall|x: u32| prefix_set(ids, j).contains(x) <==> prefix_set(ids, k).union(
        interval(start, prev),
    ).contains(x) by {
        if prefix_set(ids, j).contains(x) {
            let i = choose|i: int| 0 <= i < j && #[trigger] ids[i] == x;
            if i >= k {
                assert(ids[i] == start + (i - k));
            } else {
                assert(prefix_set(ids, k).contains(x));
            }
        }
        if interval(start, prev).contains(x) {
            let i = k + (x - start);
            assert(ids[i] == start + (i - k));
            assert(prefix_set(ids, j).contains(x));
        }
        if prefix_set(ids, k).contains(x) {
            let i = choose|i: int| 0 <= i < k && #[trigger] ids[i] == x;
            assert(prefix_set(ids, j).contains(x));
        }
    }
    assert(prefix_set(ids, j) =~= prefix_set(ids, k).union(interval(start, prev)));
}

/// Expands a list of inclusive `[start, end]` ranges back into an in-memory `HashSet<u32>`.
pub fn expand_ranges(ranges: &[(u32, u32)]) -> (set: HashSet<u32>)
    ensures
        set@ == ranges_set(ranges@),
{
    let mut set: HashSet<u32> = HashSet::new();
    let mut r: usize = 0;
    proof {
        assert(ranges_set(ranges@.take(0)) =~= Set::<u32>::empty());
    }
    while r < ranges.len()
        invariant
            r <= ranges@.len(),
            set@ == ranges_set(ranges@.take(r as int)),
        decreases ranges@.len() - r,
    {
        let (start, end) = ranges[r];
        let ghost base = set@;
        if start <= end {
            let mut id = start;
            loop
                invariant_except_break
                    set@ == base.union(Set::new(|x: u32| start <= x < id)),
                invariant
                    start <= id <= end,
                ensures
                    set@ == base.union(interval(start, end)),
                decreases end - id,
            {
                set.insert(id);
                if id == end {
                    proof {
                        assert(set@ =~= base.union(interval(start, end)));
                    }
                    break;
                }
                id = id + 1;
                proof {
                    assert(set@ =~= base.union(Set::new(|x: u32| start <= x < id)));
                }
            }
        } else {
            proof {
                assert(interval(start, end) =~= Set::<u32>::empty());
                assert(set@ =~= base.union(interval(start, end)));
            }
        }
        proof {
            assert(ranges@.take(r + 1) =~= ranges@.take(r as int).push((start, end)));
            lemma_ranges_set_push(ranges@.take(r as int), start, end);
        }
        r = r + 1;
    }
    proof {
        assert(ranges@.take(ranges@.len() as int) =~= ranges@);
    }
    set
}

} // verus!
