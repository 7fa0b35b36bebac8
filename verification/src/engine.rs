//! Decisions of the sharded server engine: checking its configuration,
//! merging recovered WAL records, numbering and placing new records, the
//! ring of sealed windows, and when calibration is due.

use vstd::prelude::*;
use vstd::std_specs::hash::*;

use std::collections::HashSet;
use std::collections::VecDeque;

use crate::scan::{is_top, top_indices};
use crate::wal::{records_view, WalRecord};

verus! {

/// Why the engine refuses to open or to search.
#[derive(Clone, Copy, Debug, PartialEq, Eq, Structural)]
pub enum EngineError {
    /// The embedder pool is empty.
    NoEmbedder,
    /// No write shard was configured.
    NoShard,
    /// A search asked for zero results.
    ZeroResults,
}

/// Checks the pool and shard counts before the engine opens.
pub fn check_open(embedders: usize, shards: usize) -> (r: Result<(), EngineError>)
    ensures
        embedders == 0 ==> r == Err::<(), EngineError>(EngineError::NoEmbedder),
        embedders > 0 && shards == 0 ==> r == Err::<(), EngineError>(EngineError::NoShard),
        embedders > 0 && shards > 0 ==> r is Ok,
{
    if embedders == 0 {
        return Err(EngineError::NoEmbedder);
    }
    if shards == 0 {
        return Err(EngineError::NoShard);
    }
    Ok(())
}

/// Checks the result count of a search.
pub fn check_search_k(k: usize) -> (r: Result<(), EngineError>)
    ensures
        k == 0 ==> r == Err::<(), EngineError>(EngineError::ZeroResults),
        k > 0 ==> r is Ok,
{
    if k == 0 {
        Err(EngineError::ZeroResults)
    } else {
        Ok(())
    }
}

/// The id derived from the clock: milliseconds shifted left by 20 bits
/// (wrapping, as the `u64` arithmetic does).
pub open spec fn clock_id(now_millis: i64) -> u64 {
    ((now_millis as u64) << 20u64) as u64
}

/// The first id a freshly opened engine hands out: the clock-derived id,
/// raised above every id recovered from the WAL.
pub fn next_start_id(now_millis: i64, max_replayed_id: u64) -> (id: u64)
    requires
        max_replayed_id < u64::MAX,
    ensures
        id == (if clock_id(now_millis) > max_replayed_id + 1 { clock_id(now_millis) } else { (max_replayed_id + 1) as u64 }),
        id > max_replayed_id,
{
    let clock = (now_millis as u64) << 20u64;
    let floor = max_replayed_id + 1;
    if clock > floor { clock } else { floor }
}

/// The shard a record with this id is written to.
pub fn shard_index(id: u64, shards: usize) -> (i: usize)
    requires
        shards > 0,
    ensures
        i == (id as usize) % shards,
        i < shards,
{
    (id as usize) % shards
}

/// How many sealed windows a shard's ring keeps: the configured depth,
/// at least one.
pub fn ring_capacity(ring_windows: usize) -> (n: usize)
    ensures
        n == (if ring_windows < 1 { 1 } else { ring_windows }),
        n >= 1,
{
    if ring_windows < 1 { 1 } else { ring_windows }
}

/// Whether enough distinct template vectors are buffered to fit the
/// detector: `buffered_values / dim` templates against the target.
pub fn calibration_due(buffered_values: usize, dim: usize, target: usize) -> (b: bool)
    requires
        dim > 0,
    ensures
        b == (buffered_values / dim >= target),
{
    buffered_values / dim >= target
}

/// Whether an earlier record of `s` (before position `k`) has id `id`.
pub open spec fn id_seen_before(s: Seq<(u64, Seq<u8>)>, k: int, id: u64) -> bool {
    exists|j: int| 0 <= j < k && #[trigger] s[j].0 == id
}

/// The records of `s` without repeated ids: each id keeps its first record,
/// in input order.
pub open spec fn dedup_spec(s: Seq<(u64, Seq<u8>)>) -> Seq<(u64, Seq<u8>)>
    decreases s.len(),
{
    if s.len() == 0 {
        Seq::empty()
    } else if id_seen_before(s, s.len() - 1, s.last().0) {
        dedup_spec(s.drop_last())
    } else {
        dedup_spec(s.drop_last()).push(s.last())
    }
}

/// The ids of a run of records.
pub open spec fn id_set(s: Seq<(u64, Seq<u8>)>) -> Set<u64> {
    Set::new(|id: u64| exists|j: int| 0 <= j < s.len() && #[trigger] s[j].0 == id)
}

/// Merging recovered records loses no id and repeats none: every id of the
/// input appears in the result exactly once, carried by the input's first
/// record with that id.
pub proof fn lemma_dedup_one_record_per_id(s: Seq<(u64, Seq<u8>)>)
    ensures
        id_set(dedup_spec(s)) == id_set(s),
        forall|i: int, j: int|
            0 <= i < j < dedup_spec(s).len() ==> #[trigger] dedup_spec(s)[i].0 != #[trigger] dedup_spec(s)[j].0,
        forall|i: int| #![trigger dedup_spec(s)[i]] 0 <= i < dedup_spec(s).len() ==> exists|j: int|
            0 <= j < s.len() && #[trigger] s[j] == dedup_spec(s)[i] && !id_seen_before(s, j, s[j].0),
    decreases s.len(),
{
    if s.len() == 0 {
        assert(id_set(dedup_spec(s)) =~= id_set(s));
    } else {
        let p = s.drop_last();
        let x = s.last();
        let k = s.len() - 1;
        lemma_dedup_one_record_per_id(p);
        let dp = dedup_spec(p);
        let d = dedup_spec(s);
        assert forall|y: u64| id_set(s).contains(y) == id_set(p).insert(x.0).contains(y) by {
            if id_set(s).contains(y) {
                let j = choose|j: int| 0 <= j < s.len() && #[trigger] s[j].0 == y;
                if j < k {
                    assert(p[j].0 == y);
                }
            }
            if id_set(p).contains(y) {
                let j = choose|j: int| 0 <= j < p.len() && #[trigger] p[j].0 == y;
                assert(s[j].0 == y);
            }
            if y == x.0 {
                assert(s[k].0 == y);
            }
        }
        assert(id_set(s) =~= id_set(p).insert(x.0));
        // Positions of `p` are positions of `s`, with the same earlier records.
        assert forall|j: int| 0 <= j < p.len() implies #[trigger] id_seen_before(p, j, p[j].0) == id_seen_before(s, j, s[j].0) by {
            if id_seen_before(s, j, s[j].0) {
                let q = choose|q: int| 0 <= q < j && #[trigger] s[q].0 == s[j].0;
                assert(p[q].0 == p[j].0);
            }
            if id_seen_before(p, j, p[j].0) {
                let q = choose|q: int| 0 <= q < j && #[trigger] p[q].0 == p[j].0;
                assert(s[q].0 == s[j].0);
            }
        }
        if id_seen_before(s, k, x.0) {
            let q = choose|q: int| 0 <= q < k && #[trigger] s[q].0 == x.0;
            assert(p[q].0 == x.0);
            assert(id_set(p).contains(x.0));
            assert(id_set(p).insert(x.0) =~= id_set(p));
            assert forall|i: int| #![trigger d[i]] 0 <= i < d.len() implies exists|j: int|
                0 <= j < s.len() && #[trigger] s[j] == d[i] && !id_seen_before(s, j, s[j].0) by {
                let j = choose|j: int| 0 <= j < p.len() && #[trigger] p[j] == dp[i] && !id_seen_before(p, j, p[j].0);
                assert(s[j] == d[i]);
                assert(id_seen_before(p, j, p[j].0) == id_seen_before(s, j, s[j].0));
            }
        } else {
            assert(d == dp.push(x));
            assert(!id_set(p).contains(x.0)) by {
                if id_set(p).contains(x.0) {
                    let j = choose|j: int| 0 <= j < p.len() && #[trigger] p[j].0 == x.0;
                    assert(s[j].0 == x.0);
                }
            }
            assert forall|y: u64| id_set(d).contains(y) == id_set(dp).insert(x.0).contains(y) by {
                if id_set(d).contains(y) {
                    let j = choose|j: int| 0 <= j < d.len() && #[trigger] d[j].0 == y;
                    if j < dp.len() {
                        assert(dp[j].0 == y);
                    }
                }
                if id_set(dp).contains(y) {
                    let j = choose|j: int| 0 <= j < dp.len() && #[trigger] dp[j].0 == y;
                    assert(d[j].0 == y);
                }
                if y == x.0 {
                    assert(d[dp.len() as int].0 == y);
                }
            }
            assert(id_set(d) =~= id_set(dp).insert(x.0));
            assert forall|i: int, j: int| 0 <= i < j < d.len() implies #[trigger] d[i].0 != #[trigger] d[j].0 by {
                if j < dp.len() {
                    assert(d[i] == dp[i] && d[j] == dp[j]);
                } else {
                    assert(d[i] == dp[i]);
                    assert(id_set(dp).contains(dp[i].0));
                }
            }
            assert forall|i: int| #![trigger d[i]] 0 <= i < d.len() implies exists|j: int|
                0 <= j < s.len() && #[trigger] s[j] == d[i] && !id_seen_before(s, j, s[j].0) by {
                if i < dp.len() {
                    let j = choose|j: int| 0 <= j < p.len() && #[trigger] p[j] == dp[i] && !id_seen_before(p, j, p[j].0);
                    assert(s[j] == d[i]);
                    assert(id_seen_before(p, j, p[j].0) == id_seen_before(s, j, s[j].0));
                } else {
                    assert(s[k] == d[i]);
                }
            }
        }
    }
}

/// Merges the records recovered for a shard (sealed leftovers oldest first,
/// then the active WAL) so each id appears once, with its first record.
pub fn dedup_by_id(entries: Vec<WalRecord>) -> (out: Vec<WalRecord>)
    ensures
        records_view(out@) == dedup_spec(records_view(entries@)),
{
    broadcast use group_hash_axioms;
    let ghost all = entries@;
    let mut seen: HashSet<u64> = HashSet::new();
    let mut out: Vec<WalRecord> = Vec::new();
    assert(records_view(all.take(0)) =~= Seq::<(u64, Seq<u8>)>::empty());
    assert(id_set(records_view(all.take(0))) =~= Set::<u64>::empty());
    for r in it: entries.into_iter()
        invariant
            it.seq() == all,
            records_view(out@) == dedup_spec(records_view(all.take(it.index()))),
            seen@ == id_set(records_view(all.take(it.index()))),
    {
        let ghost k = it.index();
        let ghost pre = records_view(all.take(k));
        let ghost next = records_view(all.take(k + 1));
        let ghost seen_before = seen@;
        let ghost out_before = out@;
        proof {
            assert(r == all[k]);
            assert(next.drop_last() =~= pre);
            assert(next.last() == (r.id, r.payload@));
            if id_seen_before(next, k, r.id) {
                let j = choose|j: int| 0 <= j < k && #[trigger] next[j].0 == r.id;
                assert(pre[j].0 == r.id);
                assert(id_set(pre).contains(r.id));
            }
            if id_set(pre).contains(r.id) {
                let j = choose|j: int| 0 <= j < pre.len() && #[trigger] pre[j].0 == r.id;
                assert(next[j].0 == r.id);
            }
        }
        let id = r.id;
        let fresh = seen.insert(id);
        if fresh {
            out.push(r);
            proof {
                assert(records_view(out@) =~= records_view(out_before).push(next.last()));
            }
        }
        proof {
            assert forall|x: u64| seen@.contains(x) == id_set(next).contains(x) by {
                if id_set(next).contains(x) {
                    let j = choose|j: int| 0 <= j < next.len() && #[trigger] next[j].0 == x;
                    if j < k {
                        assert(pre[j].0 == x);
                        assert(id_set(pre).contains(x));
                    }
                }
                if id_set(pre).contains(x) {
                    let j = choose|j: int| 0 <= j < pre.len() && #[trigger] pre[j].0 == x;
                    assert(next[j].0 == x);
                }
                if x == id {
                    assert(next[k].0 == x);
                }
            }
            assert(seen@ =~= id_set(next));
        }
    }
    assert(all.take(all.len() as int) =~= all);
    out
}

/// The order keys of search hits, each `(id, key)`; a larger key stands for
/// a larger score.
pub open spec fn hit_keys(hits: Seq<(u64, u32)>) -> Seq<u32> {
    hits.map_values(|h: (u64, u32)| h.1)
}

/// The hits at positions `r`, in that order.
pub open spec fn picked(hits: Seq<(u64, u32)>, r: Seq<usize>) -> Seq<(u64, u32)> {
    r.map_values(|i: usize| hits[i as int])
}

/// Merges the hits of every shard's windows into the search result: the
/// `k` best by score, best first, hits of equal score in the order given
/// (a stable sort by descending score, cut to `k`).
pub fn merge_hits(hits: &Vec<(u64, u32)>, k: usize) -> (out: Vec<(u64, u32)>)
    ensures
        exists|r: Seq<usize>| is_top(hit_keys(hits@), k as nat, r) && out@ == #[trigger] picked(hits@, r),
{
    let mut keys: Vec<u32> = Vec::new();
    let mut i: usize = 0;
    while i < hits.len()
        invariant
            i <= hits@.len(),
            keys@ == hit_keys(hits@).take(i as int),
        decreases hits@.len() - i,
    {
        keys.push(hits[i].1);
        assert(hit_keys(hits@).take(i as int + 1) =~= hit_keys(hits@).take(i as int).push(hits@[i as int].1));
        i = i + 1;
    }
    assert(keys@ =~= hit_keys(hits@));
    let ranks = top_indices(&keys, k);
    let mut out: Vec<(u64, u32)> = Vec::new();
    let mut j: usize = 0;
    while j < ranks.len()
        invariant
            j <= ranks@.len(),
            is_top(hit_keys(hits@), k as nat, ranks@),
            hits@.len() == hit_keys(hits@).len(),
            out@ == picked(hits@, ranks@.take(j as int)),
        decreases ranks@.len() - j,
    {
        let p = ranks[j];
        assert(p < hits@.len());
        out.push(hits[p]);
        assert(picked(hits@, ranks@.take(j as int + 1)) =~= picked(hits@, ranks@.take(j as int)).push(hits@[p as int]));
        j = j + 1;
    }
    assert(ranks@.take(j as int) =~= ranks@);
    out
}

/// A shard's ring after a window is sealed: the new window first, then the
/// windows it held, newest first, keeping at most `ring_capacity(ring_windows)`.
pub open spec fn rotated<T>(ring: Seq<T>, sealed: T, ring_windows: usize) -> Seq<T> {
    let all = seq![sealed] + ring;
    let cap: int = if ring_windows < 1 { 1 } else { ring_windows as int };
    if all.len() <= cap { all } else { all.take(cap) }
}

/// Publishes a sealed window into a shard's ring of recent windows (newest
/// first), dropping the oldest beyond the configured depth.
pub fn rotate_ring<T>(ring: &mut VecDeque<T>, sealed: T, ring_windows: usize)
    ensures
        final(ring)@ == rotated(old(ring)@, sealed, ring_windows),
        final(ring)@.len() >= 1,
{
    let ghost before = ring@;
    ring.push_front(sealed);
    assert(ring@ =~= seq![sealed] + before);
    let cap = ring_capacity(ring_windows);
    if ring.len() > cap {
        ring.truncate(cap);
    }
}

/// The engine's running numbers: the next record id and the records
/// ingested so far (both wrap at `u64::MAX`, as the atomic counters do).
pub struct IngestCounters {
    pub next_id: u64,
    pub ingested_total: u64,
}

impl IngestCounters {
    /// Counters of an engine that starts handing out ids at `start_id`,
    /// with `recovered` records already ingested from the WAL.
    pub fn new(start_id: u64, recovered: u64) -> (c: IngestCounters)
        ensures
            c.next_id == start_id,
            c.ingested_total == recovered,
    {
        IngestCounters { next_id: start_id, ingested_total: recovered }
    }

    /// One ingested record: returns its id, moves the next id on by one and
    /// counts the record. Ids handed out in turn strictly increase until
    /// the counter reaches `u64::MAX`.
    pub fn ingest(&mut self) -> (id: u64)
        ensures
            id == old(self).next_id,
            final(self).next_id == crate::metrics::wrap_add(old(self).next_id, 1),
            final(self).ingested_total == crate::metrics::wrap_add(old(self).ingested_total, 1),
            old(self).next_id < u64::MAX ==> final(self).next_id == id + 1 && final(self).next_id > id,
    {
        let id = self.next_id;
        self.next_id = self.next_id.wrapping_add(1);
        self.ingested_total = self.ingested_total.wrapping_add(1);
        id
    }
}

/// The shards a swap tick seals: those whose pending window holds at least
/// one record, in shard order.
pub open spec fn shards_to_swap_spec(pending: Seq<usize>) -> Seq<usize>
    decreases pending.len(),
{
    if pending.len() == 0 {
        Seq::empty()
    } else if pending.last() > 0 {
        shards_to_swap_spec(pending.drop_last()).push((pending.len() - 1) as usize)
    } else {
        shards_to_swap_spec(pending.drop_last())
    }
}

/// Plans a swap tick from each shard's pending-window length: which shards
/// seal (empty windows are skipped), and whether any shard swaps — what
/// the tick reports.
pub fn swap_plan(pending: &Vec<usize>) -> (r: (Vec<usize>, bool))
    ensures
        r.0@ == shards_to_swap_spec(pending@),
        r.1 == (r.0@.len() > 0),
{
    let mut out: Vec<usize> = Vec::new();
    let mut i: usize = 0;
    while i < pending.len()
        invariant
            i <= pending@.len(),
            out@ == shards_to_swap_spec(pending@.take(i as int)),
        decreases pending@.len() - i,
    {
        assert(pending@.take(i as int + 1).drop_last() =~= pending@.take(i as int));
        if pending[i] > 0 {
            out.push(i);
        }
        i = i + 1;
    }
    assert(pending@.take(i as int) =~= pending@);
    let any = out.len() > 0;
    (out, any)
}

/// The hour of a clock reading of `now_secs` whole seconds (read as an
/// `i64`, as the `as i64` cast leaves it, and divided toward zero), and
/// whether the retention sweep is due: once each time the hour changes.
pub fn sweep_due(last_sweep_hour: i64, now_secs: u64) -> (r: (i64, bool))
    ensures
        r.0 == crate::chunks::div_toward_zero((now_secs as i64) as int, 3600),
        r.1 == (r.0 != last_sweep_hour),
{
    #[verifier::truncate]
    let s = now_secs as i64;
    let hour: i64 = if s >= 0 {
        s / 3600
    } else if s == i64::MIN {
        -2_562_047_788_015_215i64
    } else {
        -((-s) / 3600)
    };
    (hour, hour != last_sweep_hour)
}

} // verus!
