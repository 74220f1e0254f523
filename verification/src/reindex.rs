//! Background reindex: the decisions around rebuilding an index.
//!
//! When tombstones exceed 20 % of the indexed entries, a rebuild is due.
//! A rebuild works from a snapshot of the points; the points added or
//! removed while it ran are then applied to the new index as a delta.
use crate::bm25::string_views;
use crate::time::unix_now;
use vstd::prelude::*;

verus! {

/// Status of a reindex job.
#[derive(Debug, Clone, Copy, PartialEq, Eq, Structural)]
pub enum ReindexStatus {
    /// Queued, waiting to start.
    Queued,
    /// Building the new index.
    Building,
    /// Swapping the old index for the new one.
    Swapping,
    /// Finished successfully.
    Completed,
    /// Failed.
    Failed,
}

/// Statistics of a reindex run.
#[derive(Debug, Clone)]
pub struct ReindexStats {
    /// Points processed so far.
    pub points_processed: usize,
    /// Points to process.
    pub points_total: usize,
    /// Tombstones the rebuild removed.
    pub tombstones_cleaned: usize,
    /// Estimated size of the old index in bytes.
    pub old_index_size_bytes: usize,
    /// Estimated size of the new index in bytes.
    pub new_index_size_bytes: usize,
}

impl Default for ReindexStats {
    fn default() -> (s: Self)
        ensures
            s.points_processed == 0,
            s.points_total == 0,
            s.tombstones_cleaned == 0,
            s.old_index_size_bytes == 0,
            s.new_index_size_bytes == 0,
    {
        ReindexStats {
            points_processed: 0,
            points_total: 0,
            tombstones_cleaned: 0,
            old_index_size_bytes: 0,
            new_index_size_bytes: 0,
        }
    }
}

/// A reindex is due: the tombstones are more than 20 % of the indexed
/// entries (`total_indexed` counts live points and tombstones).
pub open spec fn reindex_due(tombstone_count: nat, total_indexed: nat) -> bool {
    total_indexed > 0 && 5 * tombstone_count > total_indexed
}

/// Whether tombstones exceed 20 % of the indexed entries. `total_indexed`
/// must count the index's entries, live and tombstoned alike.
pub fn needs_reindex(tombstone_count: usize, total_indexed: usize) -> (b: bool)
    ensures
        b == reindex_due(tombstone_count as nat, total_indexed as nat),
{
    if total_indexed == 0 {
        return false;
    }
    (tombstone_count as u128) * 5 > total_indexed as u128
}

/// Estimated size of an index in bytes: the vectors (4 bytes per component)
/// plus 8 bytes per graph link, `m` links per point.
pub fn estimate_index_size(num_points: usize, dimension: usize, m: usize) -> (size: usize)
    requires
        num_points * dimension * 4 + num_points * m * 8 <= usize::MAX,
    ensures
        size == num_points * dimension * 4 + num_points * m * 8,
{
    proof {
        assert(0 <= num_points * dimension * 4 <= usize::MAX) by (nonlinear_arith)
            requires
                num_points * dimension * 4 + num_points * m * 8 <= usize::MAX,
        ;
        assert(0 <= num_points * dimension <= usize::MAX) by (nonlinear_arith)
            requires
                0 <= num_points * dimension * 4 <= usize::MAX,
        ;
        assert(0 <= num_points * m * 8 <= usize::MAX) by (nonlinear_arith)
            requires
                num_points * dimension * 4 + num_points * m * 8 <= usize::MAX,
        ;
        assert(0 <= num_points * m <= usize::MAX) by (nonlinear_arith)
            requires
                0 <= num_points * m * 8 <= usize::MAX,
        ;
    }
    let vector_size = num_points * dimension * 4;
    let hnsw_overhead = num_points * m * 8;
    vector_size + hnsw_overhead
}

/// The current Unix time in seconds (0 if the clock reads before the epoch).
pub fn now_secs() -> (s: u64) {
    unix_now()
}

/// The elements of `xs` that `ys` does not hold, in order.
pub open spec fn missing_from(xs: Seq<Seq<char>>, ys: Seq<Seq<char>>) -> Seq<Seq<char>>
    decreases xs.len(),
{
    if xs.len() == 0 {
        Seq::empty()
    } else {
        let prev = missing_from(xs.drop_last(), ys);
        if ys.contains(xs.last()) {
            prev
        } else {
            prev.push(xs.last())
        }
    }
}

fn contains_id(v: &Vec<String>, x: &String) -> (b: bool)
    ensures
        b == string_views(v@).contains(x@),
{
    let mut i: usize = 0;
    while i < v.len()
        invariant
            i <= v.len(),
            forall|k: int| 0 <= k < i ==> v@[k]@ != x@,
        decreases v.len() - i,
    {
        if v[i] == *x {
            proof {
                assert(string_views(v@)[i as int] == x@);
            }
            return true;
        }
        i += 1;
    }
    proof {
        if string_views(v@).contains(x@) {
            let k = choose|k: int| 0 <= k < string_views(v@).len() && string_views(v@)[k] == x@;
            assert(v@[k]@ == x@);
        }
    }
    false
}

fn ids_missing_from(xs: &Vec<String>, ys: &Vec<String>) -> (out: Vec<String>)
    ensures
        string_views(out@) == missing_from(string_views(xs@), string_views(ys@)),
{
    let ghost xv = string_views(xs@);
    let mut out: Vec<String> = Vec::new();
    let mut i: usize = 0;
    while i < xs.len()
        invariant
            i <= xs.len(),
            xv == string_views(xs@),
            string_views(out@) == missing_from(xv.take(i as int), string_views(ys@)),
        decreases xs.len() - i,
    {
        proof {
            assert(xv.take(i + 1).drop_last() =~= xv.take(i as int));
            assert(xv.take(i + 1).last() == xs@[i as int]@);
        }
        if !contains_id(ys, &xs[i]) {
            out.push(xs[i].clone());
            proof {
                assert(string_views(out@) =~= missing_from(xv.take(i as int), string_views(ys@)).push(xs@[i as int]@));
            }
        }
        i += 1;
    }
    proof {
        assert(xv.take(xs.len() as int) =~= xv);
    }
    out
}

/// The delta to apply to an index built from a snapshot: the ids added since
/// the snapshot (in the order of `current_ids`) and the ids removed since
/// (in the order of `snapshot_ids`).
pub fn plan_delta(snapshot_ids: &Vec<String>, current_ids: &Vec<String>) -> (delta: (Vec<String>, Vec<String>))
    ensures
        string_views(delta.0@) == missing_from(string_views(current_ids@), string_views(snapshot_ids@)),
        string_views(delta.1@) == missing_from(string_views(snapshot_ids@), string_views(current_ids@)),
{
    let added = ids_missing_from(current_ids, snapshot_ids);
    let removed = ids_missing_from(snapshot_ids, current_ids);
    (added, removed)
}

proof fn lemma_missing_from_contains(xs: Seq<Seq<char>>, ys: Seq<Seq<char>>, x: Seq<char>)
    ensures
        missing_from(xs, ys).contains(x) <==> xs.contains(x) && !ys.contains(x),
    decreases xs.len(),
{
    if xs.len() > 0 {
        let p = xs.drop_last();
        lemma_missing_from_contains(p, ys, x);
        let prev = missing_from(p, ys);
        if xs.contains(x) && !ys.contains(x) {
            let i = choose|i: int| 0 <= i < xs.len() && xs[i] == x;
            if i < xs.len() - 1 {
                assert(p[i] == x);
                if !ys.contains(xs.last()) {
                    let j = choose|j: int| 0 <= j < prev.len() && prev[j] == x;
                    assert(missing_from(xs, ys)[j] == x);
                }
            } else {
                assert(missing_from(xs, ys)[missing_from(xs, ys).len() - 1] == x);
            }
        }
        if missing_from(xs, ys).contains(x) {
            let j = choose|j: int| 0 <= j < missing_from(xs, ys).len() && missing_from(xs, ys)[j] == x;
            if j < prev.len() {
                assert(prev[j] == x);
                let i = choose|i: int| 0 <= i < p.len() && p[i] == x;
                assert(xs[i] == x);
            } else {
                assert(xs[xs.len() - 1] == x);
            }
        }
    }
}

/// Applying the delta to the snapshot gives the current ids: an id is
/// current exactly when it was in the snapshot and not removed, or was
/// added.
pub proof fn law_delta_rebuilds_current(snapshot: Seq<Seq<char>>, current: Seq<Seq<char>>, x: Seq<char>)
    ensures
        (snapshot.contains(x) && !missing_from(snapshot, current).contains(x)) || missing_from(
            current,
            snapshot,
        ).contains(x) <==> current.contains(x),
{
    lemma_missing_from_contains(snapshot, current, x);
    lemma_missing_from_contains(current, snapshot, x);
}

/// Bytes held by `tombstones` tombstoned points of a quantized index until
/// its next rebuild: one byte per component of the quantized vector, four
/// per component of the kept original vector (when originals are kept),
/// about 64 for the id, and eight per word of QJL sign bits.
pub open spec fn tombstone_waste(tombstones: nat, dim: nat, keeps_originals: bool, qjl_words: nat) -> nat {
    tombstones * dim + (if keeps_originals {
        tombstones * dim * 4
    } else {
        0
    }) + tombstones * 64 + tombstones * qjl_words * 8
}

/// The memory tombstoned points of a quantized index still hold (see
/// `tombstone_waste`).
pub fn tombstone_memory_waste(tombstones: usize, dim: usize, keeps_originals: bool, qjl_words: usize) -> (bytes: usize)
    requires
        tombstone_waste(tombstones as nat, dim as nat, keeps_originals, qjl_words as nat)
            <= usize::MAX,
    ensures
        bytes == tombstone_waste(tombstones as nat, dim as nat, keeps_originals, qjl_words as nat),
{
    proof {
        let t = tombstones as nat;
        let d = dim as nat;
        let q = qjl_words as nat;
        assert(0 <= t * d && 0 <= t * d * 4 && 0 <= t * 64 && 0 <= t * q * 8 && t * q <= t * q * 8
            && t * d <= t * d * 4) by (nonlinear_arith);
    }
    let quantized = tombstones * dim;
    let original = if keeps_originals {
        tombstones * dim * 4
    } else {
        0
    };
    let ids = tombstones * 64;
    let qjl = tombstones * qjl_words * 8;
    quantized + original + ids + qjl
}

} // verus!
