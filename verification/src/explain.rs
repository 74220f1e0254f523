//! Plain records that explain a search.
use vstd::prelude::*;

verus! {

/// What an index reports of one search.
#[derive(Debug, Clone, Copy)]
pub struct ExplainMeta {
    /// Candidates visited by the search.
    pub candidates_visited: usize,
    /// Graph layers traversed.
    pub layers_traversed: usize,
    /// Tombstones skipped.
    pub tombstones_skipped: usize,
}

/// Index statistics at the time of a search.
#[derive(Debug, Clone, Copy)]
pub struct IndexStats {
    /// Points in the index (tombstones excluded).
    pub total_points: usize,
    /// Maximum number of graph layers.
    pub hnsw_layers: usize,
    /// ef_search used by the search.
    pub ef_search_used: usize,
    /// Tombstones skipped by the search.
    pub tombstones_skipped: usize,
}

/// `limit * 10`, or `usize::MAX` where that does not fit.
pub open spec fn times_ten_saturating(limit: usize) -> int {
    if limit * 10 > usize::MAX {
        usize::MAX as int
    } else {
        limit * 10
    }
}

/// How many candidates an explained search asks the index for: `limit`
/// without a filter; with one, ten times as many (saturating), but no more
/// than the larger of the collection's size and `limit`.
pub fn explain_search_limit(limit: usize, has_filter: bool, num_points: usize) -> (n: usize)
    ensures
        !has_filter ==> n == limit,
        has_filter ==> n == (if times_ten_saturating(limit) <= (if num_points >= limit {
            num_points
        } else {
            limit
        }) {
            times_ten_saturating(limit)
        } else if num_points >= limit {
            num_points as int
        } else {
            limit as int
        }),
{
    if !has_filter {
        return limit;
    }
    let expanded = match limit.checked_mul(10) {
        Some(e) => e,
        None => usize::MAX,
    };
    let max_points = if num_points >= limit {
        num_points
    } else {
        limit
    };
    if expanded <= max_points {
        expanded
    } else {
        max_points
    }
}

/// Number of resolved candidates that passed the filter.
pub open spec fn passed_count(s: Seq<Option<bool>>) -> nat
    decreases s.len(),
{
    if s.len() == 0 {
        0
    } else {
        passed_count(s.drop_last()) + if s.last() == Some(true) {
            1nat
        } else {
            0nat
        }
    }
}

/// For each resolved candidate, in order: its rank among all candidates
/// (from 1), and its rank among those that passed the filter (0 when it
/// did not pass). An unresolved candidate (`None`) is left out but keeps
/// its place in the first ranking.
pub open spec fn explain_ranks_of(s: Seq<Option<bool>>) -> Seq<(int, int)>
    decreases s.len(),
{
    if s.len() == 0 {
        Seq::empty()
    } else {
        let prev = explain_ranks_of(s.drop_last());
        match s.last() {
            None => prev,
            Some(p) => prev.push(
                (
                    s.len() as int,
                    if p {
                        passed_count(s) as int
                    } else {
                        0
                    },
                ),
            ),
        }
    }
}

/// The rank pairs as integers.
pub open spec fn rank_pairs(v: Seq<(usize, usize)>) -> Seq<(int, int)> {
    v.map_values(|p: (usize, usize)| (p.0 as int, p.1 as int))
}

/// The ranks of an explained search's candidates, given for each raw
/// candidate, in the index's order, whether its point was found (`Some`)
/// and then whether it passed the filter (always `true` without one).
/// Returns the rank pairs of the found candidates and how many passed.
pub fn explain_ranks(outcomes: &Vec<Option<bool>>) -> (r: (Vec<(usize, usize)>, usize))
    ensures
        rank_pairs(r.0@) == explain_ranks_of(outcomes@),
        r.1 == passed_count(outcomes@),
{
    let mut out: Vec<(usize, usize)> = Vec::new();
    let mut passed: usize = 0;
    let mut i: usize = 0;
    while i < outcomes.len()
        invariant
            i <= outcomes.len(),
            passed <= i,
            passed == passed_count(outcomes@.take(i as int)),
            rank_pairs(out@) == explain_ranks_of(outcomes@.take(i as int)),
        decreases outcomes.len() - i,
    {
        let ghost prev = out@;
        proof {
            assert(outcomes@.take(i + 1).drop_last() =~= outcomes@.take(i as int));
        }
        match outcomes[i] {
            None => {},
            Some(p) => {
                if p {
                    passed += 1;
                    out.push((i + 1, passed));
                } else {
                    out.push((i + 1, 0));
                }
                proof {
                    assert(rank_pairs(out@) =~= rank_pairs(prev).push(
                        ((i + 1) as int, out@.last().1 as int),
                    ));
                }
            },
        }
        i += 1;
    }
    proof {
        assert(outcomes@.take(outcomes.len() as int) =~= outcomes@);
    }
    (out, passed)
}

} // verus!
