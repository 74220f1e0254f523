//! A collection's point table and the two indexes kept beside it: the id
//! bookkeeping of its nearest-neighbour graph and its optional keyword
//! index.
//!
//! A point enters as its storage id, the length of its main vector and the
//! text that the keyword index reads from its metadata (empty when it has
//! none). The graph itself, with its floating-point vectors, is driven by
//! the caller: this type decides which ids the graph holds, in which order,
//! and whether a batch rebuilds it or extends it.
use crate::assoc::{
    has_key, keys_distinct, kv_find, kv_map, kv_pairs, kv_remove, kv_upsert, lemma_to_map_dom,
    lemma_to_map_len,
};
use crate::bm25::{indexed, BM25Index, DocStats};
use crate::error::FerresError;
use crate::id_map::{is_live, IdMap};
use crate::point_id::{storage_id_from_parts, storage_key, validate_dimension};
use crate::stats::{deletion_outcome, join_comma};
use crate::bm25::string_views;
use crate::search_cache::{emptied, looked_up, stored_in, CacheEntries, SearchCache};
use vstd::prelude::*;

verus! {

/// Batches longer than this rebuild the graph from every point instead of
/// adding their points one by one.
pub const BATCH_REBUILD_THRESHOLD: usize = 100;

/// Whether a batch of `n` points rebuilds the graph.
pub open spec fn rebuilds(n: int) -> bool {
    n > BATCH_REBUILD_THRESHOLD
}

/// The storage ids of a batch, in order.
pub open spec fn batch_ids(b: Seq<(String, usize, String)>) -> Seq<Seq<char>> {
    b.map_values(|it: (String, usize, String)| it.0@)
}

/// The storage ids of a point table, in order.
pub open spec fn point_keys(s: Seq<(String, usize)>) -> Seq<Seq<char>> {
    s.map_values(|p: (String, usize)| p.0@)
}

/// Every point of the batch has a main vector of length `dim`.
pub open spec fn all_of_dimension(b: Seq<(String, usize, String)>, dim: usize) -> bool {
    forall|i: int| 0 <= i < b.len() ==> #[trigger] b[i].1 == dim
}

/// The point table after upserting the batch in order: a later point
/// replaces an earlier one with the same id.
pub open spec fn upserted(m: Map<Seq<char>, usize>, b: Seq<(String, usize, String)>) -> Map<
    Seq<char>,
    usize,
>
    decreases b.len(),
{
    if b.len() == 0 {
        m
    } else {
        upserted(m, b.drop_last()).insert(b.last().0@, b.last().1)
    }
}

/// The keyword index after indexing the batch's texts in order.
pub open spec fn keyword_indexed(m: Map<Seq<char>, DocStats>, b: Seq<(String, usize, String)>) -> Map<
    Seq<char>,
    DocStats,
>
    decreases b.len(),
{
    if b.len() == 0 {
        m
    } else {
        indexed(keyword_indexed(m, b.drop_last()), b.last().0@, b.last().2@)
    }
}

/// The graph ids after a rebuild: the ids of the points held before, each
/// once and in the table's order, then the batch's ids in order.
pub open spec fn rebuilt_from(
    ids: Seq<Seq<char>>,
    before: Map<Seq<char>, usize>,
    b: Seq<(String, usize, String)>,
) -> bool {
    let n = before.len() as int;
    &&& ids.len() == n + b.len()
    &&& ids.take(n).no_duplicates()
    &&& ids.take(n).to_set() == before.dom()
    &&& ids.skip(n) == batch_ids(b)
}

/// An id in the upserted table was in the table before or in the batch.
pub proof fn lemma_upserted_dom(m: Map<Seq<char>, usize>, b: Seq<(String, usize, String)>, k: Seq<char>)
    ensures
        upserted(m, b).contains_key(k) <==> (m.contains_key(k) || batch_ids(b).contains(k)),
    decreases b.len(),
{
    if b.len() > 0 {
        lemma_upserted_dom(m, b.drop_last(), k);
        assert(batch_ids(b.drop_last()) =~= batch_ids(b).drop_last());
        if batch_ids(b).contains(k) && !batch_ids(b.drop_last()).contains(k) {
            let i = choose|i: int| 0 <= i < batch_ids(b).len() && batch_ids(b)[i] == k;
            if i < b.len() - 1 {
                assert(batch_ids(b.drop_last())[i] == k);
            }
        }
        if batch_ids(b.drop_last()).contains(k) {
            let i = choose|i: int|
                0 <= i < batch_ids(b.drop_last()).len() && batch_ids(b.drop_last())[i] == k;
            assert(batch_ids(b)[i] == k);
        }
        if k == b.last().0@ {
            assert(batch_ids(b)[b.len() - 1] == k);
        }
    }
}

/// The keys of a table with distinct keys are distinct, and are the
/// domain of the map it denotes.
proof fn lemma_point_keys(s: Seq<(String, usize)>)
    requires
        keys_distinct(kv_pairs(s)),
    ensures
        point_keys(s).no_duplicates(),
        point_keys(s).to_set() == kv_map(s).dom(),
        point_keys(s).len() == kv_map(s).len(),
{
    lemma_to_map_dom(kv_pairs(s));
    lemma_to_map_len(kv_pairs(s));
    assert forall|i: int, j: int|
        0 <= i < point_keys(s).len() && 0 <= j < point_keys(s).len() && i != j implies point_keys(s)[i]
        != point_keys(s)[j] by {
        assert(kv_pairs(s)[i].0 == point_keys(s)[i]);
        assert(kv_pairs(s)[j].0 == point_keys(s)[j]);
    }
    assert forall|k: Seq<char>| point_keys(s).to_set().contains(k) <==> kv_map(s).dom().contains(k) by {
        if point_keys(s).to_set().contains(k) {
            let i = choose|i: int| 0 <= i < point_keys(s).len() && point_keys(s)[i] == k;
            assert(kv_pairs(s)[i].0 == k);
        }
        if kv_map(s).dom().contains(k) {
            assert(has_key(kv_pairs(s), k));
            let i = choose|i: int| 0 <= i < kv_pairs(s).len() && kv_pairs(s)[i].0 == k;
            assert(point_keys(s)[i] == k);
        }
    }
    assert(point_keys(s).to_set() =~= kv_map(s).dom());
}

/// The position of the first point whose main vector does not have length
/// `dim`, if any.
fn first_mismatch(batch: &Vec<(String, usize, String)>, dim: usize) -> (r: Option<usize>)
    ensures
        match r {
            Some(i) => i < batch.len() && batch@[i as int].1 != dim && forall|j: int|
                0 <= j < i ==> #[trigger] batch@[j].1 == dim,
            None => all_of_dimension(batch@, dim),
        },
{
    let mut i: usize = 0;
    while i < batch.len()
        invariant
            i <= batch.len(),
            forall|j: int| 0 <= j < i ==> #[trigger] batch@[j].1 == dim,
        decreases batch.len() - i,
    {
        if batch[i].1 != dim {
            return Some(i);
        }
        i += 1;
    }
    None
}

/// Gives each point of the batch the next data id, in order.
fn add_batch_to_graph(graph: &mut IdMap, batch: &Vec<(String, usize, String)>)
    requires
        old(graph).wf(),
    ensures
        final(graph).wf(),
        final(graph).data_ids() == old(graph).data_ids() + batch_ids(batch@),
        final(graph).removed() == old(graph).removed().difference(batch_ids(batch@).to_set()),
        forall|k: Seq<char>| #[trigger]
            old(graph).latest().contains_key(k) ==> final(graph).latest().contains_key(k),
        forall|k: Seq<char>| #[trigger]
            batch_ids(batch@).contains(k) ==> final(graph).latest().contains_key(k),
{
    let ghost g0 = *graph;
    proof {
        assert(g0.removed().difference(batch_ids(batch@).take(0).to_set()) =~= g0.removed());
    }
    let mut i: usize = 0;
    while i < batch.len()
        invariant
            graph.wf(),
            i <= batch.len(),
            graph.data_ids() == g0.data_ids() + batch_ids(batch@).take(i as int),
            graph.removed() == g0.removed().difference(batch_ids(batch@).take(i as int).to_set()),
            forall|k: Seq<char>| #[trigger] g0.latest().contains_key(k) ==> graph.latest().contains_key(k),
            forall|j: int| 0 <= j < i ==> graph.latest().contains_key(#[trigger] batch_ids(batch@)[j]),
        decreases batch.len() - i,
    {
        let id = batch[i].0.clone();
        let ghost r0 = graph.removed();
        graph.add(id);
        proof {
            let t0 = batch_ids(batch@).take(i as int);
            let x = batch@[i as int].0@;
            assert(batch_ids(batch@).take(i + 1) =~= t0.push(x));
            t0.lemma_push_to_set_commute(x);
            assert(graph.removed() =~= g0.removed().difference(t0.push(x).to_set()));
        }
        i += 1;
    }
    proof {
        assert(batch_ids(batch@).take(batch.len() as int) =~= batch_ids(batch@));
    }
}

/// Gives each point of the table the next data id, in the table's order.
fn add_table_to_graph(graph: &mut IdMap, points: &Vec<(String, usize)>)
    requires
        old(graph).wf(),
    ensures
        final(graph).wf(),
        final(graph).data_ids() == old(graph).data_ids() + point_keys(points@),
        final(graph).removed() == old(graph).removed().difference(point_keys(points@).to_set()),
        forall|k: Seq<char>| #[trigger]
            point_keys(points@).contains(k) ==> final(graph).latest().contains_key(k),
{
    let ghost g0 = *graph;
    proof {
        assert(g0.removed().difference(point_keys(points@).take(0).to_set()) =~= g0.removed());
    }
    let mut i: usize = 0;
    while i < points.len()
        invariant
            graph.wf(),
            i <= points.len(),
            graph.data_ids() == g0.data_ids() + point_keys(points@).take(i as int),
            graph.removed() == g0.removed().difference(point_keys(points@).take(i as int).to_set()),
            forall|j: int| 0 <= j < i ==> graph.latest().contains_key(#[trigger] point_keys(points@)[j]),
        decreases points.len() - i,
    {
        let id = points[i].0.clone();
        graph.add(id);
        proof {
            let t0 = point_keys(points@).take(i as int);
            let x = points@[i as int].0@;
            assert(point_keys(points@).take(i + 1) =~= t0.push(x));
            t0.lemma_push_to_set_commute(x);
            assert(graph.removed() =~= g0.removed().difference(t0.push(x).to_set()));
        }
        i += 1;
    }
    proof {
        assert(point_keys(points@).take(points.len() as int) =~= point_keys(points@));
    }
}

/// Deleting `ids` (under namespace `ns`) in order from the table `m`: the
/// table afterwards, and the ids that were not found, in order (an id
/// named twice is not found the second time).
pub open spec fn deletion_run(m: Map<Seq<char>, usize>, ns: Option<Seq<char>>, ids: Seq<Seq<char>>) -> (
    Map<Seq<char>, usize>,
    Seq<Seq<char>>,
)
    decreases ids.len(),
{
    if ids.len() == 0 {
        (m, Seq::empty())
    } else {
        let prev = deletion_run(m, ns, ids.drop_last());
        let key = storage_key(ns, ids.last());
        if prev.0.contains_key(key) {
            (prev.0.remove(key), prev.1)
        } else {
            (prev.0, prev.1.push(ids.last()))
        }
    }
}

/// A namespace as a plain value.
pub open spec fn ns_view(namespace: Option<&str>) -> Option<Seq<char>> {
    match namespace {
        Some(n) => Some(n@),
        None => None,
    }
}

/// Whether a batch of `n` points rebuilds the graph rather than extending it.
pub fn needs_rebuild(n: usize) -> (b: bool)
    ensures
        b == rebuilds(n as int),
{
    n > BATCH_REBUILD_THRESHOLD
}

/// A collection's points, by storage id, with the bookkeeping of its graph
/// and its keyword index.
pub struct CollectionIndex {
    dimension: usize,
    points: Vec<(String, usize)>,
    graph: IdMap,
    keyword_enabled: bool,
    keyword: BM25Index,
    cache: SearchCache,
}

impl CollectionIndex {
    /// The points held: storage id → length of the main vector.
    pub closed spec fn view(&self) -> Map<Seq<char>, usize> {
        kv_map(self.points@)
    }

    /// The dimension that every main vector has.
    pub closed spec fn dim(&self) -> usize {
        self.dimension
    }

    /// The storage id of each data id of the graph, in data id order.
    pub closed spec fn graph_ids(&self) -> Seq<Seq<char>> {
        self.graph.data_ids()
    }

    /// The latest data id of each storage id in the graph.
    pub closed spec fn graph_latest(&self) -> Map<Seq<char>, usize> {
        self.graph.latest()
    }

    /// The storage ids tombstoned in the graph.
    pub closed spec fn graph_removed(&self) -> Set<Seq<char>> {
        self.graph.removed()
    }

    /// Graph node `d` is live: a search may return it.
    pub open spec fn node_live(&self, d: int) -> bool {
        is_live(self.graph_ids(), self.graph_latest(), self.graph_removed(), d)
    }

    /// The keyword index's documents, when the collection keeps one.
    pub closed spec fn keyword_docs(&self) -> Option<Map<Seq<char>, DocStats>> {
        if self.keyword_enabled {
            Some(self.keyword@)
        } else {
            None
        }
    }

    /// The collection's search cache.
    pub closed spec fn search_cache(&self) -> SearchCache {
        self.cache
    }

    /// The tables agree: ids are unique, the indexes are consistent, and
    /// every point held has a data id in the graph.
    pub closed spec fn wf(&self) -> bool {
        &&& keys_distinct(kv_pairs(self.points@))
        &&& self.graph.wf()
        &&& self.keyword.wf()
        &&& forall|k: Seq<char>| #[trigger] self@.contains_key(k) ==> self.graph.latest().contains_key(k)
    }

    /// An empty collection of vectors of length `dimension`, with a keyword
    /// index when `enable_bm25` is set and a search cache of
    /// `search_cache_size` entries (none when it is 0).
    pub fn new(dimension: usize, enable_bm25: bool, search_cache_size: usize) -> (c: Self)
        ensures
            search_cache_size == 0 ==> c.search_cache().entries() is None,
            search_cache_size > 0 ==> c.search_cache().entries() == Some(CacheEntries::empty()),
            c.search_cache().capacity() == search_cache_size,
            c.search_cache().hit_count() == 0,
            c.search_cache().miss_count() == 0,
            c.wf(),
            c@ == Map::<Seq<char>, usize>::empty(),
            c.dim() == dimension,
            c.graph_ids() == Seq::<Seq<char>>::empty(),
            c.graph_removed() == Set::<Seq<char>>::empty(),
            c.keyword_docs() == (if enable_bm25 {
                Some(Map::<Seq<char>, DocStats>::empty())
            } else {
                None
            }),
    {
        let c = CollectionIndex {
            dimension,
            points: Vec::new(),
            graph: IdMap::new(),
            keyword_enabled: enable_bm25,
            keyword: BM25Index::new(),
            cache: SearchCache::new(search_cache_size),
        };
        proof {
            assert(kv_pairs(c.points@) =~= Seq::empty());
        }
        c
    }

    /// Upserts the batch's points into the table and the keyword index,
    /// in order; every id must already have a data id in the graph.
    fn place_batch(&mut self, batch: &Vec<(String, usize, String)>)
        requires
            keys_distinct(kv_pairs(old(self).points@)),
            old(self).graph.wf(),
            old(self).keyword.wf(),
            forall|k: Seq<char>| #[trigger]
                old(self)@.contains_key(k) ==> old(self).graph.latest().contains_key(k),
            forall|k: Seq<char>| #[trigger]
                batch_ids(batch@).contains(k) ==> old(self).graph.latest().contains_key(k),
        ensures
            final(self).wf(),
            final(self)@ == upserted(old(self)@, batch@),
            old(self).keyword_enabled ==> final(self).keyword@ == keyword_indexed(
                old(self).keyword@,
                batch@,
            ),
            !old(self).keyword_enabled ==> final(self).keyword == old(self).keyword,
            final(self).graph == old(self).graph,
            final(self).dimension == old(self).dimension,
            final(self).keyword_enabled == old(self).keyword_enabled,
            final(self).cache == old(self).cache,
    {
        let ghost s0 = *self;
        let mut i: usize = 0;
        while i < batch.len()
            invariant
                i <= batch.len(),
                keys_distinct(kv_pairs(self.points@)),
                self.keyword.wf(),
                self.graph == s0.graph,
                self.graph.wf(),
                self.dimension == s0.dimension,
                self.keyword_enabled == s0.keyword_enabled,
                self.cache == s0.cache,
                self@ == upserted(s0@, batch@.take(i as int)),
                s0.keyword_enabled ==> self.keyword@ == keyword_indexed(
                    s0.keyword@,
                    batch@.take(i as int),
                ),
                !s0.keyword_enabled ==> self.keyword == s0.keyword,
                forall|k: Seq<char>| #[trigger] self@.contains_key(k) ==> self.graph.latest().contains_key(k),
                forall|k: Seq<char>| #[trigger]
                    batch_ids(batch@).contains(k) ==> self.graph.latest().contains_key(k),
            decreases batch.len() - i,
        {
            let ghost before = self@;
            let id = batch[i].0.clone();
            kv_upsert(&mut self.points, id, batch[i].1);
            if self.keyword_enabled {
                self.keyword.index_document(batch[i].0.as_str(), batch[i].2.as_str());
            }
            proof {
                assert(batch@.take(i + 1).drop_last() =~= batch@.take(i as int));
                assert(batch_ids(batch@)[i as int] == batch@[i as int].0@);
                assert(batch_ids(batch@).contains(batch@[i as int].0@));
                assert forall|k: Seq<char>| #[trigger] self@.contains_key(k) implies self.graph.latest().contains_key(k) by {
                    if k != batch@[i as int].0@ {
                        assert(before.contains_key(k));
                    }
                }
            }
            i += 1;
        }
        proof {
            assert(batch@.take(batch.len() as int) =~= batch@);
        }
    }

    /// Inserts a batch of points: storage id, length of the main vector and
    /// keyword text of each. The first point whose vector does not have the
    /// collection's dimension fails the whole batch, which then changes
    /// nothing. Otherwise every point is upserted in order (a later point
    /// with the same id wins), and its text indexed; a batch longer than
    /// the rebuild threshold rebuilds the graph from all the points, a
    /// shorter one adds its points to it. Returns the number of points.
    pub fn insert_batch(&mut self, batch: &Vec<(String, usize, String)>) -> (r: Result<usize, FerresError>)
        requires
            old(self).wf(),
        ensures
            final(self).wf(),
            batch.len() == 0 ==> *final(self) == *old(self),
            all_of_dimension(batch@, old(self).dim()) ==> {
                &&& r == Ok::<usize, FerresError>(batch.len())
                &&& final(self)@ == upserted(old(self)@, batch@)
                &&& final(self).dim() == old(self).dim()
                &&& final(self).keyword_docs() == match old(self).keyword_docs() {
                    Some(m) => Some(keyword_indexed(m, batch@)),
                    None => None,
                }
                &&& batch.len() > 0 ==> emptied(old(self).search_cache(), final(self).search_cache())
                &&& rebuilds(batch.len() as int) ==> {
                    &&& rebuilt_from(final(self).graph_ids(), old(self)@, batch@)
                    &&& final(self).graph_removed() == Set::<Seq<char>>::empty()
                }
                &&& !rebuilds(batch.len() as int) ==> {
                    &&& final(self).graph_ids() == old(self).graph_ids() + batch_ids(batch@)
                    &&& final(self).graph_removed() == old(self).graph_removed().difference(
                        batch_ids(batch@).to_set(),
                    )
                }
                &&& forall|k: Seq<char>| #[trigger]
                    batch_ids(batch@).contains(k) ==> final(self).graph_latest().contains_key(k)
                        && !final(self).graph_removed().contains(k)
            },
            !all_of_dimension(batch@, old(self).dim()) ==> {
                &&& *final(self) == *old(self)
                &&& exists|i: int|
                    0 <= i < batch.len() && batch@[i].1 != old(self).dim() && (forall|j: int|
                        0 <= j < i ==> #[trigger] batch@[j].1 == old(self).dim()) && r == Err::<
                        usize,
                        FerresError,
                    >(FerresError::DimensionMismatch { expected: old(self).dim(), got: batch@[i].1 })
            },
    {
        let n = batch.len();
        if n == 0 {
            return Ok(0);
        }
        match first_mismatch(batch, self.dimension) {
            Some(i) => {
                return Err(FerresError::DimensionMismatch { expected: self.dimension, got: batch[i].1 });
            },
            None => {},
        }
        let ghost s0 = *self;
        if needs_rebuild(n) {
            proof {
                lemma_point_keys(self.points@);
            }
            self.graph.clear();
            add_table_to_graph(&mut self.graph, &self.points);
            add_batch_to_graph(&mut self.graph, batch);
            proof {
                let ids = self.graph.data_ids();
                let pk = point_keys(s0.points@);
                assert(ids =~= pk + batch_ids(batch@));
                assert(ids.take(pk.len() as int) =~= pk);
                assert(ids.skip(pk.len() as int) =~= batch_ids(batch@));
                assert forall|k: Seq<char>| #[trigger] s0@.contains_key(k) implies self.graph.latest().contains_key(k) by {
                    assert(pk.to_set().contains(k));
                }
            }
        } else {
            add_batch_to_graph(&mut self.graph, batch);
            proof {
                assert forall|k: Seq<char>| #[trigger] s0@.contains_key(k) implies self.graph.latest().contains_key(k) by {
                    assert(s0.graph.latest().contains_key(k));
                }
            }
        }
        proof {
            assert(self.points@ == s0.points@);
            assert(self@ == s0@);
        }
        self.place_batch(batch);
        self.cache.invalidate();
        Ok(n)
    }

    /// Inserts (or replaces) one point, adding it to the graph. A main
    /// vector of another length than the collection's dimension is refused.
    pub fn insert(&mut self, id: String, vector_len: usize, text: &str) -> (r: Result<(), FerresError>)
        requires
            old(self).wf(),
        ensures
            final(self).wf(),
            vector_len != old(self).dim() ==> *final(self) == *old(self) && r == Err::<(), FerresError>(
                FerresError::DimensionMismatch { expected: old(self).dim(), got: vector_len },
            ),
            vector_len == old(self).dim() ==> {
                &&& r == Ok::<(), FerresError>(())
                &&& final(self)@ == old(self)@.insert(id@, vector_len)
                &&& final(self).dim() == old(self).dim()
                &&& final(self).keyword_docs() == match old(self).keyword_docs() {
                    Some(m) => Some(indexed(m, id@, text@)),
                    None => None,
                }
                &&& final(self).graph_ids() == old(self).graph_ids().push(id@)
                &&& final(self).graph_latest() == old(self).graph_latest().insert(
                    id@,
                    old(self).graph_ids().len() as usize,
                )
                &&& final(self).graph_removed() == old(self).graph_removed().remove(id@)
                &&& forall|d: int|
                    #[trigger] final(self).node_live(d) <==> (d == old(self).graph_ids().len() || (
                    old(self).node_live(d) && old(self).graph_ids()[d] != id@))
                &&& emptied(old(self).search_cache(), final(self).search_cache())
            },
    {
        if vector_len != self.dimension {
            return Err(FerresError::DimensionMismatch { expected: self.dimension, got: vector_len });
        }
        let ghost before = self@;
        self.graph.add(id.clone());
        if self.keyword_enabled {
            self.keyword.index_document(id.as_str(), text);
        }
        kv_upsert(&mut self.points, id, vector_len);
        self.cache.invalidate();
        proof {
            assert forall|k: Seq<char>| #[trigger] self@.contains_key(k) implies self.graph.latest().contains_key(k) by {
                if k != id@ {
                    assert(before.contains_key(k));
                }
            }
        }
        Ok(())
    }

    /// The cached results of an unfiltered search: `key` is the hash of the
    /// query vector's bits, the number of results and the vector field.
    /// Only the cache and its counters change.
    pub fn cached_search(&mut self, key: &(u64, usize, Option<String>)) -> (r: Option<Vec<(String, u32)>>)
        ensures
            looked_up(old(self).search_cache(), final(self).search_cache(), *key, r),
            final(self)@ == old(self)@,
            final(self).dim() == old(self).dim(),
            final(self).keyword_docs() == old(self).keyword_docs(),
            final(self).graph_ids() == old(self).graph_ids(),
            final(self).graph_latest() == old(self).graph_latest(),
            final(self).graph_removed() == old(self).graph_removed(),
            old(self).wf() ==> final(self).wf(),
    {
        let ghost s0 = *self;
        let r = self.cache.lookup(key);
        proof {
            assert(self.points == s0.points);
            assert(self.graph == s0.graph);
            assert(self.keyword == s0.keyword);
            assert(self@ == s0@);
            if s0.wf() {
                assert forall|k: Seq<char>| #[trigger] self@.contains_key(k) implies self.graph.latest().contains_key(k) by {
                    assert(s0@.contains_key(k));
                }
            }
        }
        r
    }

    /// Keeps the results of an unfiltered search for `key`. Only the cache
    /// changes.
    pub fn cache_search(&mut self, key: (u64, usize, Option<String>), results: Vec<(String, u32)>)
        ensures
            stored_in(old(self).search_cache(), final(self).search_cache(), key, results),
            final(self)@ == old(self)@,
            final(self).dim() == old(self).dim(),
            final(self).keyword_docs() == old(self).keyword_docs(),
            final(self).graph_ids() == old(self).graph_ids(),
            final(self).graph_latest() == old(self).graph_latest(),
            final(self).graph_removed() == old(self).graph_removed(),
            old(self).wf() ==> final(self).wf(),
    {
        let ghost s0 = *self;
        self.cache.store(key, results);
        proof {
            assert(self.points == s0.points);
            assert(self.graph == s0.graph);
            assert(self.keyword == s0.keyword);
            assert(self@ == s0@);
            if s0.wf() {
                assert forall|k: Seq<char>| #[trigger] self@.contains_key(k) implies self.graph.latest().contains_key(k) by {
                    assert(s0@.contains_key(k));
                }
            }
        }
    }

    /// Removes point `id` from the collection: from the table, from the
    /// keyword index, and from search results (it is tombstoned in the
    /// graph). An id the collection does not hold is `PointNotFound`.
    pub fn remove(&mut self, id: &str) -> (r: Result<(), FerresError>)
        requires
            old(self).wf(),
        ensures
            final(self).wf(),
            !old(self)@.contains_key(id@) ==> *final(self) == *old(self) && (r matches Err(
                FerresError::PointNotFound(m),
            ) && m@ == id@),
            old(self)@.contains_key(id@) ==> {
                &&& r is Ok
                &&& final(self)@ == old(self)@.remove(id@)
                &&& final(self).dim() == old(self).dim()
                &&& final(self).keyword_docs() == match old(self).keyword_docs() {
                    Some(m) => Some(m.remove(id@)),
                    None => None,
                }
                &&& final(self).graph_ids() == old(self).graph_ids()
                &&& final(self).graph_latest() == old(self).graph_latest()
                &&& final(self).graph_removed() == old(self).graph_removed().insert(id@)
                &&& forall|d: int|
                    #[trigger] final(self).node_live(d) <==> (old(self).node_live(d)
                        && old(self).graph_ids()[d] != id@)
                &&& emptied(old(self).search_cache(), final(self).search_cache())
            },
    {
        let key = id.to_owned();
        if kv_find(&self.points, &key).is_none() {
            return Err(FerresError::PointNotFound(key));
        }
        let ghost before = self@;
        kv_remove(&mut self.points, &key);
        self.graph.tombstone(id);
        if self.keyword_enabled {
            self.keyword.remove_document(id);
        }
        self.cache.invalidate();
        proof {
            assert forall|k: Seq<char>| #[trigger] self@.contains_key(k) implies self.graph.latest().contains_key(k) by {
                assert(before.contains_key(k));
            }
        }
        Ok(())
    }

    /// Drops point `id`'s data (table and keyword index) but keeps its node
    /// in the graph, for a point that moves to a colder storage tier.
    /// Returns the length of its main vector, or `None` (changing nothing)
    /// when the collection does not hold it.
    pub fn remove_data_only(&mut self, id: &str) -> (r: Option<usize>)
        requires
            old(self).wf(),
        ensures
            final(self).wf(),
            !old(self)@.contains_key(id@) ==> r is None && *final(self) == *old(self),
            old(self)@.contains_key(id@) ==> {
                &&& r == Some(old(self)@[id@])
                &&& final(self)@ == old(self)@.remove(id@)
                &&& final(self).dim() == old(self).dim()
                &&& final(self).keyword_docs() == match old(self).keyword_docs() {
                    Some(m) => Some(m.remove(id@)),
                    None => None,
                }
                &&& final(self).graph_ids() == old(self).graph_ids()
                &&& final(self).graph_latest() == old(self).graph_latest()
                &&& final(self).graph_removed() == old(self).graph_removed()
                &&& emptied(old(self).search_cache(), final(self).search_cache())
            },
    {
        let key = id.to_owned();
        let len = match kv_find(&self.points, &key) {
            None => return None,
            Some(i) => self.points[i].1,
        };
        let ghost before = self@;
        kv_remove(&mut self.points, &key);
        if self.keyword_enabled {
            self.keyword.remove_document(id);
        }
        self.cache.invalidate();
        proof {
            assert forall|k: Seq<char>| #[trigger] self@.contains_key(k) implies self.graph.latest().contains_key(k) by {
                assert(before.contains_key(k));
            }
        }
        Some(len)
    }

    /// Tombstones point `id` in the graph only (its data stays), before the
    /// point is added to the graph again under a new data id.
    pub fn tombstone_in_index(&mut self, id: &str)
        requires
            old(self).wf(),
        ensures
            final(self).wf(),
            final(self)@ == old(self)@,
            final(self).dim() == old(self).dim(),
            final(self).keyword_docs() == old(self).keyword_docs(),
            final(self).search_cache() == old(self).search_cache(),
            final(self).graph_ids() == old(self).graph_ids(),
            final(self).graph_latest() == old(self).graph_latest(),
            final(self).graph_removed() == (if old(self).graph_latest().contains_key(id@) {
                old(self).graph_removed().insert(id@)
            } else {
                old(self).graph_removed()
            }),
    {
        let ghost s0 = *self;
        self.graph.tombstone(id);
        proof {
            assert(self.points == s0.points);
            assert forall|k: Seq<char>| #[trigger] self@.contains_key(k) implies self.graph.latest().contains_key(k) by {
                assert(s0@.contains_key(k));
                assert(s0.graph.latest().contains_key(k));
            }
        }
    }

    /// Deletes the points `ids` of namespace `namespace`, trying every id.
    /// When some were not found, `PointNotFound` names them (joined by
    /// ", "), after the others were deleted; otherwise returns how many
    /// were deleted.
    pub fn delete_points(&mut self, ids: &Vec<String>, namespace: Option<&str>) -> (r: Result<
        usize,
        FerresError,
    >)
        requires
            old(self).wf(),
        ensures
            final(self).wf(),
            final(self).dim() == old(self).dim(),
            final(self)@ == deletion_run(old(self)@, ns_view(namespace), string_views(ids@)).0,
            deletion_run(old(self)@, ns_view(namespace), string_views(ids@)).1.len() > 0 ==> (r matches Err(
                FerresError::PointNotFound(m),
            ) && m@ == join_comma(deletion_run(old(self)@, ns_view(namespace), string_views(ids@)).1)),
            deletion_run(old(self)@, ns_view(namespace), string_views(ids@)).1.len() == 0 ==> r
                == Ok::<usize, FerresError>(ids.len()),
    {
        let ghost s0 = *self;
        let ghost ns = ns_view(namespace);
        let mut not_found: Vec<String> = Vec::new();
        let mut i: usize = 0;
        while i < ids.len()
            invariant
                self.wf(),
                self.dimension == s0.dimension,
                i <= ids.len(),
                ns == ns_view(namespace),
                self@ == deletion_run(s0@, ns, string_views(ids@).take(i as int)).0,
                string_views(not_found@) == deletion_run(s0@, ns, string_views(ids@).take(i as int)).1,
                not_found@.len() <= i,
            decreases ids.len() - i,
        {
            let ghost nf = not_found@;
            let key = storage_id_from_parts(namespace, ids[i].as_str());
            proof {
                let t = string_views(ids@).take(i + 1);
                assert(t.drop_last() =~= string_views(ids@).take(i as int));
                assert(t.last() == ids@[i as int]@);
            }
            match self.remove(key.as_str()) {
                Ok(()) => {},
                Err(_) => {
                    not_found.push(ids[i].clone());
                    proof {
                        assert(string_views(not_found@) =~= string_views(nf).push(ids@[i as int]@));
                    }
                },
            }
            i += 1;
        }
        proof {
            assert(string_views(ids@).take(ids.len() as int) =~= string_views(ids@));
        }
        deletion_outcome(ids.len(), &not_found)
    }

    /// Whether a vector of length `vector_len` fits the collection:
    /// `DimensionMismatch` when it does not.
    pub fn validate_dimension(&self, vector_len: usize) -> (r: Result<(), FerresError>)
        ensures
            vector_len == self.dim() ==> r is Ok,
            vector_len != self.dim() ==> r == Err::<(), FerresError>(
                FerresError::DimensionMismatch { expected: self.dim(), got: vector_len },
            ),
    {
        validate_dimension(self.dimension, vector_len)
    }

    /// Number of points held.
    pub fn len(&self) -> (n: usize)
        requires
            self.wf(),
        ensures
            n == self@.len(),
    {
        proof {
            lemma_to_map_len(kv_pairs(self.points@));
        }
        self.points.len()
    }

    /// The dimension of the collection's vectors.
    pub fn dimension(&self) -> (d: usize)
        ensures
            d == self.dim(),
    {
        self.dimension
    }

    /// The length of point `id`'s main vector, if the collection holds it.
    pub fn get(&self, id: &String) -> (r: Option<usize>)
        requires
            self.wf(),
        ensures
            match r {
                Some(n) => self@.contains_key(id@) && self@[id@] == n,
                None => !self@.contains_key(id@),
            },
    {
        match kv_find(&self.points, id) {
            Some(i) => Some(self.points[i].1),
            None => None,
        }
    }

    /// The graph's id bookkeeping.
    pub fn id_map(&self) -> (m: &IdMap)
        ensures
            m.data_ids() == self.graph_ids(),
            m.latest() == self.graph_latest(),
            m.removed() == self.graph_removed(),
    {
        &self.graph
    }

    /// The keyword index, when the collection keeps one.
    pub fn keyword_index(&self) -> (k: Option<&BM25Index>)
        requires
            self.wf(),
        ensures
            match k {
                Some(b) => b.wf() && self.keyword_docs() == Some(b@),
                None => self.keyword_docs() is None,
            },
    {
        if self.keyword_enabled {
            Some(&self.keyword)
        } else {
            None
        }
    }
}

/// Every point a collection holds has a data id in its graph, after any
/// batch, whether it rebuilt the graph or extended it.
pub proof fn law_points_stay_in_graph(c: CollectionIndex, k: Seq<char>)
    requires
        c.wf(),
        c@.contains_key(k),
    ensures
        c.graph_latest().contains_key(k),
{
}

/// Inserting a point the collection does not hold and then removing it
/// gives back the table it had.
pub proof fn law_insert_then_remove(m: Map<Seq<char>, usize>, id: Seq<char>, vector_len: usize)
    requires
        !m.contains_key(id),
    ensures
        m.insert(id, vector_len).remove(id) == m,
{
    assert(m.insert(id, vector_len).remove(id) =~= m);
}

/// A batch ending in `x` does what the batch before `x` followed by
/// `insert(x)` does: to the table, to the keyword index, to the graph's
/// ids (one node pushed) and to its tombstones (the one on `x` lifted). So,
/// by induction from the empty batch, a batch that does not rebuild the
/// graph equals inserting its points one by one.
pub proof fn law_batch_is_repeated_inserts(
    m: Map<Seq<char>, usize>,
    kw: Map<Seq<char>, DocStats>,
    ids: Seq<Seq<char>>,
    removed: Set<Seq<char>>,
    b: Seq<(String, usize, String)>,
    x: (String, usize, String),
)
    ensures
        upserted(m, b.push(x)) == upserted(m, b).insert(x.0@, x.1),
        keyword_indexed(kw, b.push(x)) == indexed(keyword_indexed(kw, b), x.0@, x.2@),
        ids + batch_ids(b.push(x)) == (ids + batch_ids(b)).push(x.0@),
        removed.difference(batch_ids(b.push(x)).to_set()) == removed.difference(
            batch_ids(b).to_set(),
        ).remove(x.0@),
{
    assert(b.push(x).drop_last() =~= b);
    assert(batch_ids(b.push(x)) =~= batch_ids(b).push(x.0@));
    assert(ids + batch_ids(b.push(x)) =~= (ids + batch_ids(b)).push(x.0@));
    batch_ids(b).lemma_push_to_set_commute(x.0@);
    assert(removed.difference(batch_ids(b.push(x)).to_set()) =~= removed.difference(
        batch_ids(b).to_set(),
    ).remove(x.0@));
}

} // verus!
