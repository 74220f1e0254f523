//! The id bookkeeping of an approximate-nearest-neighbour graph index.
//!
//! The graph names its points by dense numeric data ids, given in insertion
//! order; the engine names them by storage id. The map keeps, per data id,
//! the storage id it was inserted under, and per storage id its latest data
//! id. The graph cannot delete: a removed point is tombstoned by storage id
//! and filtered out of results until the graph is rebuilt or the point is
//! added again. Only the latest node of a point can be live, so a point
//! added again retires its old node. The graph itself
//! (and the floating-point distances it returns) is driven by the caller;
//! this type decides what its results mean.
use crate::assoc::{
    has_key, keys_distinct, kv_find, kv_map, kv_pairs, kv_upsert, lemma_to_map_dom,
    lemma_to_map_len, to_map,
};
use crate::bm25::string_views;
use vstd::prelude::*;

verus! {

/// The position of `x` in `v`, if it is there.
fn position_of(v: &Vec<String>, x: &String) -> (r: Option<usize>)
    ensures
        match r {
            Some(j) => j < v.len() && string_views(v@)[j as int] == x@,
            None => !string_views(v@).contains(x@),
        },
{
    let mut j: usize = 0;
    while j < v.len()
        invariant
            j <= v.len(),
            forall|a: int| 0 <= a < j ==> v@[a]@ != x@,
        decreases v.len() - j,
    {
        if v[j] == *x {
            return Some(j);
        }
        j += 1;
    }
    proof {
        if string_views(v@).contains(x@) {
            let a = choose|a: int| 0 <= a < string_views(v@).len() && string_views(v@)[a] == x@;
            assert(v@[a]@ == x@);
        }
    }
    None
}

/// Data id → storage id, storage id → latest data id, and tombstones.
pub struct IdMap {
    ids: Vec<String>,
    reverse: Vec<(String, usize)>,
    tombstones: Vec<String>,
}

/// Data id `d` is live: it is the latest data id of its storage id, and
/// that storage id is not tombstoned. An earlier data id of a point that
/// was added again is never live, so each point has at most one live node.
pub open spec fn is_live(
    ids: Seq<Seq<char>>,
    latest: Map<Seq<char>, usize>,
    removed: Set<Seq<char>>,
    d: int,
) -> bool {
    &&& 0 <= d < ids.len()
    &&& latest.contains_key(ids[d])
    &&& latest[ids[d]] == d
    &&& !removed.contains(ids[d])
}

/// The positions of `d_ids` whose data id is live, in order.
pub open spec fn live_positions(
    d_ids: Seq<usize>,
    ids: Seq<Seq<char>>,
    latest: Map<Seq<char>, usize>,
    removed: Set<Seq<char>>,
) -> Seq<int>
    decreases d_ids.len(),
{
    if d_ids.len() == 0 {
        Seq::empty()
    } else {
        let prev = live_positions(d_ids.drop_last(), ids, latest, removed);
        if is_live(ids, latest, removed, d_ids.last() as int) {
            prev.push(d_ids.len() - 1)
        } else {
            prev
        }
    }
}

/// The positions of `d_ids` whose data id is known.
pub open spec fn known_positions(d_ids: Seq<usize>, count: nat) -> Seq<int>
    decreases d_ids.len(),
{
    if d_ids.len() == 0 {
        Seq::empty()
    } else {
        let prev = known_positions(d_ids.drop_last(), count);
        if d_ids.last() < count {
            prev.push(d_ids.len() - 1)
        } else {
            prev
        }
    }
}

/// The smaller of `a` and `b`.
pub open spec fn min_nat(a: nat, b: nat) -> nat {
    if a <= b {
        a
    } else {
        b
    }
}

/// The larger of `a` and `b`.
pub open spec fn max_nat(a: nat, b: nat) -> nat {
    if a >= b {
        a
    } else {
        b
    }
}

/// The first `k` elements of `s` (all of them when it has fewer).
pub open spec fn first_k(s: Seq<int>, k: nat) -> Seq<int> {
    s.take(min_nat(k, s.len()) as int)
}

impl IdMap {
    /// The storage id of each data id, in data id order.
    pub closed spec fn data_ids(&self) -> Seq<Seq<char>> {
        string_views(self.ids@)
    }

    /// The latest data id of each storage id.
    pub closed spec fn latest(&self) -> Map<Seq<char>, usize> {
        kv_map(self.reverse@)
    }

    /// The tombstoned storage ids.
    pub closed spec fn removed(&self) -> Set<Seq<char>> {
        string_views(self.tombstones@).to_set()
    }

    /// The three tables agree.
    pub closed spec fn wf(&self) -> bool {
        &&& keys_distinct(kv_pairs(self.reverse@))
        &&& forall|k: Seq<char>|
            #[trigger] self.latest().contains_key(k) ==> self.latest()[k] < self.ids@.len()
                && self.data_ids()[self.latest()[k] as int] == k
        &&& forall|i: int|
            0 <= i < self.ids@.len() ==> self.latest().contains_key(#[trigger] self.data_ids()[i])
        &&& string_views(self.tombstones@).no_duplicates()
        &&& forall|t: Seq<char>| #[trigger] self.removed().contains(t) ==> self.latest().contains_key(t)
        &&& self.reverse@.len() <= self.ids@.len()
        &&& self.tombstones@.len() <= self.reverse@.len()
    }

    /// An empty map.
    pub fn new() -> (m: Self)
        ensures
            m.wf(),
            m.data_ids() == Seq::<Seq<char>>::empty(),
            m.latest() == Map::<Seq<char>, usize>::empty(),
            m.removed() == Set::<Seq<char>>::empty(),
    {
        let m = IdMap { ids: Vec::new(), reverse: Vec::new(), tombstones: Vec::new() };
        proof {
            assert(string_views(m.ids@) =~= Seq::empty());
            assert(kv_pairs(m.reverse@) =~= Seq::empty());
            assert(m.latest() =~= Map::empty());
            assert(string_views(m.tombstones@) =~= Seq::empty());
            assert(m.removed() =~= Set::empty());
        }
        m
    }

    /// Gives point `sid` the next data id and returns it. The new node is
    /// live: a tombstone on `sid` is lifted, and a previous data id of
    /// `sid` stays in the graph but is no longer its latest, so it is
    /// retired.
    pub fn add(&mut self, sid: String) -> (data_id: usize)
        requires
            old(self).wf(),
        ensures
            final(self).wf(),
            data_id == old(self).data_ids().len(),
            final(self).data_ids() == old(self).data_ids().push(sid@),
            final(self).latest() == old(self).latest().insert(sid@, data_id),
            final(self).removed() == old(self).removed().remove(sid@),
    {
        self.lift_tombstone(&sid);
        let ghost s = sid@;
        let data_id = self.ids.len();
        let ghost old_latest = self.latest();
        let ghost old_ids = self.data_ids();
        proof {
            lemma_to_map_dom(kv_pairs(self.reverse@));
        }
        let existed = kv_find(&self.reverse, &sid).is_some();
        self.ids.push(sid.clone());
        kv_upsert(&mut self.reverse, sid, data_id);
        proof {
            assert(self.data_ids() =~= old_ids.push(s));
            lemma_to_map_dom(kv_pairs(self.reverse@));
            lemma_to_map_len(kv_pairs(self.reverse@));
            lemma_to_map_len(kv_pairs(old(self).reverse@));
            if existed {
                assert(self.latest().dom() =~= old_latest.dom());
            } else {
                assert(self.latest().dom() =~= old_latest.dom().insert(s));
            }
            assert forall|k: Seq<char>| #[trigger] self.latest().contains_key(k) implies self.latest()[k]
                < self.ids@.len() && self.data_ids()[self.latest()[k] as int] == k by {
                if k != s {
                    assert(old_latest.contains_key(k));
                }
            }
            assert forall|i: int| 0 <= i < self.ids@.len() implies self.latest().contains_key(
                #[trigger] self.data_ids()[i],
            ) by {
                if i < old_ids.len() {
                    assert(old_latest.contains_key(old_ids[i]));
                }
            }
            assert forall|t: Seq<char>| #[trigger] self.removed().contains(t) implies self.latest().contains_key(t) by {
                assert(old_latest.contains_key(t));
            }
        }
        data_id
    }

    /// Lifts the tombstone on `sid`, if it has one.
    fn lift_tombstone(&mut self, sid: &String)
        requires
            old(self).wf(),
        ensures
            final(self).wf(),
            final(self).data_ids() == old(self).data_ids(),
            final(self).latest() == old(self).latest(),
            final(self).removed() == old(self).removed().remove(sid@),
            final(self).ids == old(self).ids,
            final(self).reverse == old(self).reverse,
    {
        let j = match position_of(&self.tombstones, sid) {
            Some(j) => j,
            None => {
                proof {
                    assert(self.removed() =~= self.removed().remove(sid@));
                }
                return;
            },
        };
        let ghost before = string_views(self.tombstones@);
        proof {
            assert(before[j as int] == sid@);
        }
        self.tombstones.remove(j);
        proof {
            let after = string_views(self.tombstones@);
            assert(after =~= before.remove(j as int));
            assert forall|a: int, b: int| 0 <= a < after.len() && 0 <= b < after.len() && a != b
                implies after[a] != after[b] by {
                let a2 = if a < j { a } else { a + 1 };
                let b2 = if b < j { b } else { b + 1 };
                assert(after[a] == before[a2] && after[b] == before[b2]);
            }
            assert forall|t: Seq<char>| #[trigger] after.to_set().contains(t) <==> before.to_set().remove(
                sid@,
            ).contains(t) by {
                if after.contains(t) {
                    let a = choose|a: int| 0 <= a < after.len() && after[a] == t;
                    let a2 = if a < j { a } else { a + 1 };
                    assert(before[a2] == t);
                    assert(a2 != j);
                    assert(before.contains(t));
                }
                if before.contains(t) && t != sid@ {
                    let a = choose|a: int| 0 <= a < before.len() && before[a] == t;
                    assert(a != j);
                    if a < j {
                        assert(after[a] == t);
                    } else {
                        assert(after[a - 1] == t);
                    }
                }
            }
            assert(after.no_duplicates());
            assert(self.removed() =~= old(self).removed().remove(sid@));
            assert forall|t: Seq<char>| #[trigger] self.removed().contains(t) implies self.latest().contains_key(t) by {
                assert(old(self).removed().contains(t));
            }
        }
    }

    /// Tombstones point `sid`, if the map knows it.
    pub fn tombstone(&mut self, sid: &str)
        requires
            old(self).wf(),
        ensures
            final(self).wf(),
            final(self).data_ids() == old(self).data_ids(),
            final(self).latest() == old(self).latest(),
            final(self).removed() == (if old(self).latest().contains_key(sid@) {
                old(self).removed().insert(sid@)
            } else {
                old(self).removed()
            }),
    {
        let key = sid.to_owned();
        proof {
            lemma_to_map_dom(kv_pairs(self.reverse@));
        }
        if kv_find(&self.reverse, &key).is_none() {
            return;
        }
        if self.is_tombstoned(&key) {
            proof {
                assert(self.removed().insert(key@) =~= self.removed());
            }
            return;
        }
        let ghost before = string_views(self.tombstones@);
        proof {
            assert(!before.contains(key@)) by {
                if before.contains(key@) {
                    assert(before.to_set().contains(key@));
                }
            }
            // the tombstones after the push are distinct storage ids, all known
            let after = before.push(key@);
            assert(after.no_duplicates()) by {
                assert forall|a: int, b: int| 0 <= a < after.len() && 0 <= b < after.len() && a != b
                    implies after[a] != after[b] by {
                    if a < before.len() && b < before.len() {
                    } else if a < before.len() {
                        assert(before.contains(after[a]));
                    } else {
                        assert(before.contains(after[b]));
                    }
                }
            }
            after.unique_seq_to_set();
            lemma_to_map_len(kv_pairs(self.reverse@));
            assert(after.to_set().subset_of(self.latest().dom())) by {
                assert forall|t: Seq<char>| after.to_set().contains(t) implies self.latest().dom().contains(t) by {
                    if t != key@ {
                        assert(before.to_set().contains(t)) by {
                            let j = choose|j: int| 0 <= j < after.len() && after[j] == t;
                            assert(before[j] == t);
                        }
                    }
                }
            }
            vstd::set_lib::lemma_len_subset(after.to_set(), self.latest().dom());
        }
        self.tombstones.push(key);
        proof {
            let now = string_views(self.tombstones@);
            assert(now =~= before.push(sid@));
            assert forall|t: Seq<char>|
                #[trigger] now.to_set().contains(t) <==> before.to_set().insert(sid@).contains(t) by {
                if now.contains(t) {
                    let j = choose|j: int| 0 <= j < now.len() && now[j] == t;
                    if j < before.len() {
                        assert(before[j] == t);
                        assert(before.contains(t));
                    }
                }
                if before.contains(t) {
                    let j = choose|j: int| 0 <= j < before.len() && before[j] == t;
                    assert(now[j] == t);
                }
                if t == sid@ {
                    assert(now[now.len() - 1] == t);
                }
            }
            assert(self.removed() =~= old(self).removed().insert(sid@));
        }
    }

    /// Number of points with a live node: storage ids the graph holds that
    /// are not tombstoned.
    pub fn live_count(&self) -> (n: usize)
        requires
            self.wf(),
        ensures
            n == self.latest().len() - self.removed().len(),
    {
        proof {
            string_views(self.tombstones@).unique_seq_to_set();
            lemma_to_map_len(kv_pairs(self.reverse@));
        }
        self.reverse.len() - self.tombstones.len()
    }

    /// Number of data ids given out.
    pub fn id_count(&self) -> (n: usize)
        ensures
            n == self.data_ids().len(),
    {
        self.ids.len()
    }

    /// Number of dead nodes the graph still holds until it is rebuilt: data
    /// ids given out minus the live ones (tombstoned points, and earlier
    /// nodes of points added again).
    pub fn tombstone_count(&self) -> (n: usize)
        requires
            self.wf(),
        ensures
            n == self.data_ids().len() - (self.latest().len() - self.removed().len()),
    {
        proof {
            string_views(self.tombstones@).unique_seq_to_set();
            lemma_to_map_len(kv_pairs(self.reverse@));
        }
        self.ids.len() - (self.reverse.len() - self.tombstones.len())
    }

    /// Whether storage id `sid` is tombstoned.
    pub fn is_tombstoned(&self, sid: &String) -> (b: bool)
        requires
            self.wf(),
        ensures
            b == self.removed().contains(sid@),
    {
        let mut i: usize = 0;
        while i < self.tombstones.len()
            invariant
                i <= self.tombstones.len(),
                forall|j: int| 0 <= j < i ==> self.tombstones@[j]@ != sid@,
            decreases self.tombstones.len() - i,
        {
            if self.tombstones[i] == *sid {
                proof {
                    assert(string_views(self.tombstones@)[i as int] == sid@);
                }
                return true;
            }
            i += 1;
        }
        proof {
            if self.removed().contains(sid@) {
                let j = choose|j: int|
                    0 <= j < string_views(self.tombstones@).len() && string_views(self.tombstones@)[j]
                        == sid@;
                assert(self.tombstones@[j]@ == sid@);
            }
        }
        false
    }

    /// The storage id that data id `d` was given to, if the map knows `d`.
    pub fn stored_id(&self, d: usize) -> (r: Option<&String>)
        ensures
            d < self.data_ids().len() ==> (r matches Some(s) && s@ == self.data_ids()[d as int]),
            d >= self.data_ids().len() ==> r is None,
    {
        if d < self.ids.len() {
            Some(&self.ids[d])
        } else {
            None
        }
    }

    /// The storage id of data id `d`, when `d` is live (what a search filter
    /// lets through).
    pub fn live_id(&self, d: usize) -> (r: Option<&String>)
        requires
            self.wf(),
        ensures
            is_live(self.data_ids(), self.latest(), self.removed(), d as int) ==> (r matches Some(s)
                && s@ == self.data_ids()[d as int]),
            !is_live(self.data_ids(), self.latest(), self.removed(), d as int) ==> r is None,
    {
        if d >= self.ids.len() {
            return None;
        }
        proof {
            assert(self.data_ids()[d as int] == self.ids@[d as int]@);
            assert(self.latest().contains_key(self.data_ids()[d as int]));
        }
        match kv_find(&self.reverse, &self.ids[d]) {
            Some(i) => {
                if self.reverse[i].1 != d {
                    return None;
                }
            },
            None => {
                return None;
            },
        }
        if self.is_tombstoned(&self.ids[d]) {
            None
        } else {
            Some(&self.ids[d])
        }
    }

    /// Of the data ids a search returned, the positions to keep for an
    /// unfiltered search: those whose point is known and not tombstoned,
    /// at most `k` of them, in order.
    pub fn live_results(&self, d_ids: &Vec<usize>, k: usize) -> (pos: Vec<usize>)
        requires
            self.wf(),
        ensures
            pos@.map_values(|p: usize| p as int) == first_k(
                live_positions(d_ids@, self.data_ids(), self.latest(), self.removed()),
                k as nat,
            ),
    {
        let mut pos: Vec<usize> = Vec::new();
        let mut i: usize = 0;
        while i < d_ids.len()
            invariant
                self.wf(),
                i <= d_ids.len(),
                pos@.map_values(|p: usize| p as int) == first_k(
                    live_positions(d_ids@.take(i as int), self.data_ids(), self.latest(), self.removed()),
                    k as nat,
                ),
                pos@.len() <= k,
            decreases d_ids.len() - i,
        {
            let ghost lp = live_positions(d_ids@.take(i as int), self.data_ids(), self.latest(), self.removed());
            proof {
                assert(d_ids@.take(i + 1).drop_last() =~= d_ids@.take(i as int));
                assert(d_ids@.take(i + 1).last() == d_ids@[i as int]);
            }
            let keep = match self.live_id(d_ids[i]) {
                Some(_) => true,
                None => false,
            };
            if keep && pos.len() < k {
                let ghost before = pos@;
                pos.push(i);
                proof {
                    assert(pos@.map_values(|p: usize| p as int) =~= before.map_values(
                        |p: usize| p as int,
                    ).push(i as int));
                    assert(first_k(lp.push(i as int), k as nat) =~= first_k(lp, k as nat).push(
                        i as int,
                    ));
                }
            } else if keep {
                proof {
                    assert(first_k(lp.push(i as int), k as nat) =~= first_k(lp, k as nat));
                }
            }
            i += 1;
        }
        proof {
            assert(d_ids@.take(d_ids.len() as int) =~= d_ids@);
        }
        pos
    }

    /// Of the data ids a filtered search returned (the filter has already
    /// dropped tombstones), the positions whose data id the map knows.
    pub fn known_results(&self, d_ids: &Vec<usize>) -> (pos: Vec<usize>)
        ensures
            pos@.map_values(|p: usize| p as int) == known_positions(d_ids@, self.data_ids().len()),
    {
        let mut pos: Vec<usize> = Vec::new();
        let mut i: usize = 0;
        while i < d_ids.len()
            invariant
                i <= d_ids.len(),
                self.data_ids().len() == self.ids@.len(),
                pos@.map_values(|p: usize| p as int) == known_positions(
                    d_ids@.take(i as int),
                    self.data_ids().len(),
                ),
            decreases d_ids.len() - i,
        {
            proof {
                assert(d_ids@.take(i + 1).drop_last() =~= d_ids@.take(i as int));
                assert(d_ids@.take(i + 1).last() == d_ids@[i as int]);
            }
            if d_ids[i] < self.ids.len() {
                let ghost before = pos@;
                pos.push(i);
                proof {
                    assert(pos@.map_values(|p: usize| p as int) =~= before.map_values(
                        |p: usize| p as int,
                    ).push(i as int));
                }
            }
            i += 1;
        }
        proof {
            assert(d_ids@.take(d_ids.len() as int) =~= d_ids@);
        }
        pos
    }

    /// Forgets every data id and tombstone (before a rebuild).
    pub fn clear(&mut self)
        ensures
            final(self).wf(),
            final(self).data_ids() == Seq::<Seq<char>>::empty(),
            final(self).latest() == Map::<Seq<char>, usize>::empty(),
            final(self).removed() == Set::<Seq<char>>::empty(),
    {
        *self = IdMap::new();
    }
}

/// For an unfiltered search of `k` results over a graph of `count` data
/// ids of which `tombstones` are tombstoned, with run-time `ef_search`:
/// the results wanted (`k`, at most `count`), the neighbours to ask for
/// (that plus the tombstones, at most `count`) and the search width (at
/// least that many).
pub fn search_sizes(k: usize, count: usize, tombstones: usize, ef_search: usize) -> (r: (
    usize,
    usize,
    usize,
))
    ensures
        r.0 == min_nat(k as nat, count as nat),
        r.1 == min_nat((r.0 + tombstones) as nat, count as nat),
        r.2 == max_nat(ef_search as nat, r.1 as nat),
{
    let k = if k < count {
        k
    } else {
        count
    };
    let extra = k.saturating_add(tombstones);
    let extra = if extra < count {
        extra
    } else {
        count
    };
    let ef = if ef_search >= extra {
        ef_search
    } else {
        extra
    };
    (k, extra, ef)
}

/// The first search width of a filtered search: at least `ef_search` and
/// five times the results wanted, at most `count`.
pub fn filtered_initial_ef(ef_search: usize, k: usize, count: usize) -> (ef: usize)
    ensures
        ef == min_nat(max_nat(ef_search as nat, 5 * k as nat), count as nat),
{
    let five_k = match k.checked_mul(5) {
        Some(v) => v,
        None => usize::MAX,
    };
    let wide = if ef_search >= five_k {
        ef_search
    } else {
        five_k
    };
    if wide < count {
        wide
    } else {
        count
    }
}

/// The next, doubled, width of a filtered search that found too few
/// results, capped at `count`; `None` once the width covers the graph or
/// would not grow.
pub fn filtered_next_ef(ef: usize, count: usize) -> (next: Option<usize>)
    ensures
        ef >= count || min_nat(2 * ef as nat, count as nat) <= ef ==> next is None,
        ef < count && min_nat(2 * ef as nat, count as nat) > ef ==> next == Some(
            min_nat(2 * ef as nat, count as nat) as usize,
        ),
{
    if ef >= count {
        return None;
    }
    let doubled = match ef.checked_mul(2) {
        Some(v) => v,
        None => usize::MAX,
    };
    let next = if doubled < count {
        doubled
    } else {
        count
    };
    if next <= ef {
        None
    } else {
        Some(next)
    }
}

proof fn lemma_live_positions_sound(
    d_ids: Seq<usize>,
    ids: Seq<Seq<char>>,
    latest: Map<Seq<char>, usize>,
    removed: Set<Seq<char>>,
)
    ensures
        forall|j: int|
            0 <= j < live_positions(d_ids, ids, latest, removed).len() ==> {
                let p = #[trigger] live_positions(d_ids, ids, latest, removed)[j];
                &&& 0 <= p < d_ids.len()
                &&& is_live(ids, latest, removed, d_ids[p] as int)
            },
    decreases d_ids.len(),
{
    if d_ids.len() > 0 {
        let prev = d_ids.drop_last();
        lemma_live_positions_sound(prev, ids, latest, removed);
        assert forall|j: int| 0 <= j < live_positions(d_ids, ids, latest, removed).len() implies {
            let p = #[trigger] live_positions(d_ids, ids, latest, removed)[j];
            &&& 0 <= p < d_ids.len()
            &&& is_live(ids, latest, removed, d_ids[p] as int)
        } by {
            let lp = live_positions(prev, ids, latest, removed);
            if j < lp.len() {
                assert(live_positions(d_ids, ids, latest, removed)[j] == lp[j]);
                assert(d_ids[lp[j]] == prev[lp[j]]);
            }
        }
    }
}

/// An unfiltered search returns only live nodes: never a tombstoned point,
/// and never the old node of a point that was added again.
pub proof fn law_tombstoned_points_are_not_returned(
    d_ids: Seq<usize>,
    ids: Seq<Seq<char>>,
    latest: Map<Seq<char>, usize>,
    removed: Set<Seq<char>>,
    k: nat,
)
    ensures
        forall|j: int|
            0 <= j < first_k(live_positions(d_ids, ids, latest, removed), k).len() ==> {
                let p = #[trigger] first_k(live_positions(d_ids, ids, latest, removed), k)[j];
                &&& 0 <= p < d_ids.len()
                &&& d_ids[p] < ids.len()
                &&& !removed.contains(ids[d_ids[p] as int])
                &&& latest[ids[d_ids[p] as int]] == d_ids[p]
            },
{
    lemma_live_positions_sound(d_ids, ids, latest, removed);
    assert forall|j: int| 0 <= j < first_k(live_positions(d_ids, ids, latest, removed), k).len() implies {
        let p = #[trigger] first_k(live_positions(d_ids, ids, latest, removed), k)[j];
        &&& 0 <= p < d_ids.len()
        &&& d_ids[p] < ids.len()
        &&& !removed.contains(ids[d_ids[p] as int])
        &&& latest[ids[d_ids[p] as int]] == d_ids[p]
    } by {
        assert(first_k(live_positions(d_ids, ids, latest, removed), k)[j] == live_positions(
            d_ids,
            ids,
            latest,
            removed,
        )[j]);
    }
}

/// A point has at most one live node: two live data ids of the same
/// storage id are the same data id.
pub proof fn law_one_live_node_per_point(
    ids: Seq<Seq<char>>,
    latest: Map<Seq<char>, usize>,
    removed: Set<Seq<char>>,
    d1: int,
    d2: int,
)
    requires
        is_live(ids, latest, removed, d1),
        is_live(ids, latest, removed, d2),
        ids[d1] == ids[d2],
    ensures
        d1 == d2,
{
}

} // verus!
