//! Rank bookkeeping for hybrid search fusion.
//!
//! Fusion combines several rankings (best first) of document ids. What it
//! needs of them is, for every id that occurs in any ranking, its 1-based
//! position in each ranking (`u32::MAX` where it does not occur; for an id
//! listed twice, its last position). The scores computed from these ranks
//! are floating point and are not part of this module.
use crate::bm25::string_views;
use vstd::prelude::*;

verus! {

/// The usual constant of Reciprocal Rank Fusion.
pub const DEFAULT_RRF_K: usize = 60;

/// The rank of `id` in `ranking`: the 1-based position of its last
/// occurrence, or `u32::MAX` when it does not occur.
pub open spec fn rank_in(ranking: Seq<Seq<char>>, id: Seq<char>) -> u32
    decreases ranking.len(),
{
    if ranking.len() == 0 {
        u32::MAX
    } else if ranking.last() == id {
        ranking.len() as u32
    } else {
        rank_in(ranking.drop_last(), id)
    }
}

/// The rankings as sequences of ids.
pub open spec fn ranking_views(rankings: Seq<Vec<String>>) -> Seq<Seq<Seq<char>>> {
    rankings.map_values(|r: Vec<String>| string_views(r@))
}

/// `id` occurs in one of `rankings`.
pub open spec fn ranked(rankings: Seq<Seq<Seq<char>>>, id: Seq<char>) -> bool {
    exists|r: int| 0 <= r < rankings.len() && rankings[r].contains(id)
}

/// `table` lists `k`.
pub open spec fn table_has(table: Seq<(String, Vec<u32>)>, k: Seq<char>) -> bool {
    exists|i: int| 0 <= i < table.len() && (#[trigger] table[i]).0@ == k
}

/// `k` occurs in one of the first `r` rankings.
pub open spec fn seen_before(rv: Seq<Seq<Seq<char>>>, r: int, k: Seq<char>) -> bool {
    exists|q: int| 0 <= q < r && (#[trigger] rv[q]).contains(k)
}

/// `k` occurs among the first `p` ids of `row`.
pub open spec fn seen_in_prefix(row: Seq<Seq<char>>, p: int, k: Seq<char>) -> bool {
    exists|j: int| 0 <= j < p && #[trigger] row[j] == k
}

/// The rank of `id` in `ranking` (see `rank_in`).
pub fn rank_of(ranking: &Vec<String>, id: &String) -> (rank: u32)
    requires
        ranking@.len() < u32::MAX,
    ensures
        rank == rank_in(string_views(ranking@), id@),
{
    let ghost rv = string_views(ranking@);
    let mut i: usize = ranking.len();
    proof {
        assert(rv.take(i as int) =~= rv);
    }
    while i > 0
        invariant
            i <= ranking@.len() < u32::MAX,
            rv == string_views(ranking@),
            rank_in(rv, id@) == rank_in(rv.take(i as int), id@),
        decreases i,
    {
        let ghost t = rv.take(i as int);
        proof {
            assert(t.drop_last() =~= rv.take(i - 1));
            assert(t.last() == ranking@[i - 1]@);
        }
        if ranking[i - 1] == *id {
            return i as u32;
        }
        i -= 1;
    }
    proof {
        assert(rv.take(0) =~= Seq::<Seq<char>>::empty());
    }
    u32::MAX
}

/// Whether `out` already lists `id`.
fn listed(out: &Vec<(String, Vec<u32>)>, id: &String) -> (b: bool)
    ensures
        b == table_has(out@, id@),
{
    let mut i: usize = 0;
    while i < out.len()
        invariant
            i <= out.len(),
            forall|j: int| 0 <= j < i ==> (#[trigger] out@[j]).0@ != id@,
        decreases out.len() - i,
    {
        if out[i].0 == *id {
            return true;
        }
        i += 1;
    }
    false
}

/// Every id that occurs in any of `rankings`, once, in order of first
/// occurrence (ranking by ranking), with its rank in each ranking.
pub fn rank_table(rankings: &Vec<Vec<String>>) -> (table: Vec<(String, Vec<u32>)>)
    requires
        forall|r: int| 0 <= r < rankings@.len() ==> (#[trigger] rankings@[r])@.len() < u32::MAX,
    ensures
        forall|a: int, b: int| 0 <= a < b < table@.len() ==> table@[a].0@ != table@[b].0@,
        forall|k: Seq<char>|
            #![trigger ranked(ranking_views(rankings@), k)]
            #![trigger table_has(table@, k)]
            ranked(ranking_views(rankings@), k) <==> table_has(table@, k),
        forall|i: int|
            0 <= i < table@.len() ==> (#[trigger] table@[i]).1@.len() == rankings@.len(),
        forall|i: int, r: int|
            0 <= i < table@.len() && 0 <= r < rankings@.len() ==> (#[trigger] table@[i]).1@[r]
                == rank_in(string_views((#[trigger] rankings@[r])@), table@[i].0@),
{
    let ghost rv = ranking_views(rankings@);
    let mut table: Vec<(String, Vec<u32>)> = Vec::new();
    let mut r: usize = 0;
    proof {
        assert forall|k: Seq<char>| !seen_before(rv, 0, k) by {}
    }
    while r < rankings.len()
        invariant
            r <= rankings.len(),
            rv == ranking_views(rankings@),
            forall|q: int| 0 <= q < rankings@.len() ==> (#[trigger] rankings@[q])@.len() < u32::MAX,
            forall|a: int, b: int| 0 <= a < b < table@.len() ==> table@[a].0@ != table@[b].0@,
            forall|k: Seq<char>|
                #![trigger seen_before(rv, r as int, k)]
                #![trigger table_has(table@, k)]
                seen_before(rv, r as int, k) <==> table_has(table@, k),
            forall|i: int| 0 <= i < table@.len() ==> (#[trigger] table@[i]).1@.len() == rankings@.len(),
            forall|i: int, q: int|
                0 <= i < table@.len() && 0 <= q < rankings@.len() ==> (#[trigger] table@[i]).1@[q]
                    == rank_in(string_views((#[trigger] rankings@[q])@), table@[i].0@),
        decreases rankings.len() - r,
    {
        let mut p: usize = 0;
        let ghost before_r = table@;
        while p < rankings[r].len()
            invariant
                r < rankings.len(),
                p <= rankings@[r as int]@.len(),
                rv == ranking_views(rankings@),
                forall|q: int| 0 <= q < rankings@.len() ==> (#[trigger] rankings@[q])@.len() < u32::MAX,
                forall|a: int, b: int| 0 <= a < b < table@.len() ==> table@[a].0@ != table@[b].0@,
                forall|k: Seq<char>|
                    #![trigger seen_before(rv, r as int, k)]
                    #![trigger seen_in_prefix(rv[r as int], p as int, k)]
                    #![trigger table_has(table@, k)]
                    seen_before(rv, r as int, k) || seen_in_prefix(rv[r as int], p as int, k)
                        <==> table_has(table@, k),
                forall|i: int| 0 <= i < table@.len() ==> (#[trigger] table@[i]).1@.len() == rankings@.len(),
                forall|i: int, q: int|
                    0 <= i < table@.len() && 0 <= q < rankings@.len() ==> (#[trigger] table@[i]).1@[q]
                        == rank_in(string_views((#[trigger] rankings@[q])@), table@[i].0@),
            decreases rankings@[r as int]@.len() - p,
        {
            let id = &rankings[r][p];
            let ghost before_p = table@;
            if !listed(&table, id) {
                let mut ranks: Vec<u32> = Vec::new();
                let mut q: usize = 0;
                while q < rankings.len()
                    invariant
                        q <= rankings.len(),
                        ranks@.len() == q,
                        forall|q2: int| 0 <= q2 < rankings@.len() ==> (#[trigger] rankings@[q2])@.len() < u32::MAX,
                        forall|q2: int|
                            0 <= q2 < q ==> (#[trigger] ranks@[q2]) == rank_in(
                                string_views(rankings@[q2]@),
                                id@,
                            ),
                    decreases rankings.len() - q,
                {
                    ranks.push(rank_of(&rankings[q], id));
                    q += 1;
                }
                let ghost before = table@;
                table.push((id.clone(), ranks));
                proof {
                    assert forall|a: int, b: int| 0 <= a < b < table@.len() implies table@[a].0@
                        != table@[b].0@ by {
                        if b == table@.len() - 1 {
                            assert(table@[a] == before[a]);
                        }
                    }
                    assert forall|i: int, q2: int|
                        0 <= i < table@.len() && 0 <= q2 < rankings@.len() implies (
                        #[trigger] table@[i]).1@[q2] == rank_in(
                        string_views((#[trigger] rankings@[q2])@),
                        table@[i].0@,
                    ) by {
                        if i < before.len() {
                            assert(table@[i] == before[i]);
                        }
                    }
                }
            }
            proof {
                let row = rv[r as int];
                assert(row == string_views(rankings@[r as int]@));
                let idv = row[p as int];
                assert(idv == rankings@[r as int]@[p as int]@);
                assert(table_has(table@, idv)) by {
                    if !table_has(before_p, idv) {
                        assert(table@[table@.len() - 1].0@ == idv);
                    } else {
                        let i = choose|i: int| 0 <= i < before_p.len() && (#[trigger] before_p[i]).0@ == idv;
                        assert(table@[i] == before_p[i]);
                    }
                }
                assert forall|k: Seq<char>|
                    seen_before(rv, r as int, k) || seen_in_prefix(row, p + 1, k)
                        <==> table_has(table@, k) by {
                    if seen_in_prefix(row, p + 1, k) && !seen_in_prefix(row, p as int, k) {
                        let j = choose|j: int| 0 <= j < p + 1 && #[trigger] row[j] == k;
                        assert(j == p);
                    }
                    if seen_in_prefix(row, p as int, k) {
                        let j = choose|j: int| 0 <= j < p && #[trigger] row[j] == k;
                        assert(row[j] == k);
                    }
                    if table_has(before_p, k) {
                        let i = choose|i: int| 0 <= i < before_p.len() && (#[trigger] before_p[i]).0@ == k;
                        assert(table@[i] == before_p[i]);
                    }
                    if table_has(table@, k) && !table_has(before_p, k) {
                        let i = choose|i: int| 0 <= i < table@.len() && (#[trigger] table@[i]).0@ == k;
                        if i < before_p.len() {
                            assert(table@[i] == before_p[i]);
                        }
                        assert(k == idv);
                    }
                }
            }
            p += 1;
        }
        proof {
            assert forall|k: Seq<char>|
                seen_before(rv, r + 1, k) <==> seen_before(rv, r as int, k) || seen_in_prefix(
                    rv[r as int],
                    rankings@[r as int]@.len() as int,
                    k,
                ) by {
                let row = rv[r as int];
                assert(row == string_views(rankings@[r as int]@));
                assert(row.len() == rankings@[r as int]@.len());
                if seen_before(rv, r + 1, k) {
                    let q = choose|q: int| 0 <= q < r + 1 && (#[trigger] rv[q]).contains(k);
                    if q == r {
                        let j = choose|j: int| 0 <= j < row.len() && row[j] == k;
                        assert(seen_in_prefix(row, row.len() as int, k));
                    }
                }
                if seen_in_prefix(row, row.len() as int, k) {
                    let j = choose|j: int| 0 <= j < row.len() && #[trigger] row[j] == k;
                    assert(rv[r as int].contains(k));
                }
                if seen_before(rv, r as int, k) {
                    let q = choose|q: int| 0 <= q < r && (#[trigger] rv[q]).contains(k);
                    assert(rv[q].contains(k));
                }
            }
        }
        r += 1;
    }
    proof {
        assert forall|k: Seq<char>|
            ranked(ranking_views(rankings@), k) <==> seen_before(rv, rankings@.len() as int, k) by {
            if ranked(ranking_views(rankings@), k) {
                let q = choose|q: int| 0 <= q < rv.len() && rv[q].contains(k);
                assert(rv[q].contains(k));
            }
        }
    }
    table
}

} // verus!
