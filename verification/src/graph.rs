//! Relations between points and breadth-first traversal over them.
//!
//! Each point may name other points (by storage id) as related; the
//! resulting graph is navigated breadth-first up to a number of hops.
use crate::assoc::{
    has_key, keys_distinct, lemma_to_map_dom, lemma_to_map_index, lemma_to_map_len,
    lemma_to_map_push, lemma_to_map_update, to_map,
};
use crate::bm25::string_views;
use crate::error::FerresError;
use vstd::prelude::*;

verus! {

/// An edge of graph `g`: `u` is a node that names `v`, and `v` is a
/// non-empty id of a node of `g`.
pub open spec fn edge(g: Map<Seq<char>, Seq<Seq<char>>>, u: Seq<char>, v: Seq<char>) -> bool {
    g.contains_key(u) && g[u].contains(v) && v.len() > 0 && g.contains_key(v)
}

/// `v` is reachable from node `s` of `g` in at most `k` hops.
pub open spec fn reachable_within(
    g: Map<Seq<char>, Seq<Seq<char>>>,
    s: Seq<char>,
    v: Seq<char>,
    k: nat,
) -> bool
    decreases k,
{
    if k == 0 {
        v == s && g.contains_key(s)
    } else {
        reachable_within(g, s, v, (k - 1) as nat) || exists|u: Seq<char>|
            reachable_within(g, s, u, (k - 1) as nat) && #[trigger] edge(g, u, v)
    }
}

/// A point's id and the ids of the points it is related to.
pub struct GraphNode {
    id: String,
    relations: Vec<String>,
}

/// The relation graph: storage id → related storage ids.
pub struct RelationGraph {
    nodes: Vec<GraphNode>,
}

spec fn node_pairs(s: Seq<GraphNode>) -> Seq<(Seq<char>, Seq<Seq<char>>)> {
    s.map_values(|n: GraphNode| (n.id@, string_views(n.relations@)))
}

/// `x` appended to `s` unless `s` already holds it.
pub open spec fn with_member(s: Seq<Seq<char>>, x: Seq<char>) -> Seq<Seq<char>> {
    if s.contains(x) {
        s
    } else {
        s.push(x)
    }
}

fn contains_string(v: &Vec<String>, x: &String) -> (b: bool)
    ensures
        b == string_views(v@).contains(x@),
{
    let mut i: usize = 0;
    while i < v.len()
        invariant
            i <= v.len(),
            forall|k: int| 0 <= k < i ==> v@[k]@ != x@,
        decreases v.len() - i,
    {
        if v[i] == *x {
            proof {
                assert(string_views(v@)[i as int] == x@);
            }
            return true;
        }
        i += 1;
    }
    proof {
        if string_views(v@).contains(x@) {
            let k = choose|k: int| 0 <= k < string_views(v@).len() && string_views(v@)[k] == x@;
            assert(v@[k]@ == x@);
        }
    }
    false
}

impl RelationGraph {
    /// The graph: node id → the ids it names, in order.
    pub closed spec fn view(&self) -> Map<Seq<char>, Seq<Seq<char>>> {
        to_map(node_pairs(self.nodes@))
    }

    /// Node ids are unique.
    pub closed spec fn wf(&self) -> bool {
        keys_distinct(node_pairs(self.nodes@))
    }

    /// An empty graph.
    pub fn new() -> (g: Self)
        ensures
            g.wf(),
            g@ == Map::<Seq<char>, Seq<Seq<char>>>::empty(),
    {
        let g = RelationGraph { nodes: Vec::new() };
        proof {
            assert(node_pairs(g.nodes@) =~= Seq::empty());
        }
        g
    }

    fn find_node(&self, id: &String) -> (r: Option<usize>)
        requires
            self.wf(),
        ensures
            match r {
                Some(i) => i < self.nodes.len() && self.nodes@[i as int].id@ == id@
                    && self@.contains_key(id@) && self@[id@] == string_views(
                    self.nodes@[i as int].relations@,
                ),
                None => !self@.contains_key(id@),
            },
    {
        proof {
            lemma_to_map_dom(node_pairs(self.nodes@));
        }
        let mut i: usize = 0;
        while i < self.nodes.len()
            invariant
                self.wf(),
                i <= self.nodes.len(),
                forall|k: int| 0 <= k < i ==> self.nodes@[k].id@ != id@,
            decreases self.nodes.len() - i,
        {
            if self.nodes[i].id == *id {
                proof {
                    lemma_to_map_index(node_pairs(self.nodes@), i as int);
                }
                return Some(i);
            }
            i += 1;
        }
        proof {
            if has_key(node_pairs(self.nodes@), id@) {
                let k = choose|k: int| 0 <= k < node_pairs(self.nodes@).len() && node_pairs(self.nodes@)[k].0 == id@;
                assert(self.nodes@[k].id@ == id@);
            }
        }
        None
    }

    /// Number of nodes.
    pub fn len(&self) -> (n: usize)
        requires
            self.wf(),
        ensures
            n == self@.len(),
    {
        proof {
            lemma_to_map_len(node_pairs(self.nodes@));
        }
        self.nodes.len()
    }

    /// Whether `id` is a node.
    pub fn contains(&self, id: &str) -> (b: bool)
        requires
            self.wf(),
        ensures
            b == self@.contains_key(id@),
    {
        let id = id.to_owned();
        self.find_node(&id).is_some()
    }

    /// Adds node `id` with the given relations, replacing any node of that id.
    pub fn insert_node(&mut self, id: &str, relations: Vec<String>)
        requires
            old(self).wf(),
        ensures
            final(self).wf(),
            final(self)@ == old(self)@.insert(id@, string_views(relations@)),
    {
        let id = id.to_owned();
        let ghost rv = string_views(relations@);
        let ghost p = node_pairs(self.nodes@);
        match self.find_node(&id) {
            Some(i) => {
                self.nodes.set(i, GraphNode { id, relations });
                proof {
                    assert(node_pairs(self.nodes@) =~= p.update(i as int, (p[i as int].0, rv)));
                    lemma_to_map_update(p, i as int, rv);
                }
            },
            None => {
                proof {
                    lemma_to_map_dom(p);
                }
                let ghost idv = id@;
                self.nodes.push(GraphNode { id, relations });
                proof {
                    assert(node_pairs(self.nodes@) =~= p.push((idv, rv)));
                    lemma_to_map_push(p, idv, rv);
                }
            },
        }
    }

    /// The relations of node `id`, if it is a node.
    pub fn relations_of(&self, id: &str) -> (r: Option<Vec<String>>)
        requires
            self.wf(),
        ensures
            match r {
                Some(v) => self@.contains_key(id@) && string_views(v@) == self@[id@],
                None => !self@.contains_key(id@),
            },
    {
        let id = id.to_owned();
        match self.find_node(&id) {
            Some(i) => {
                let mut out: Vec<String> = Vec::new();
                let mut k: usize = 0;
                while k < self.nodes[i].relations.len()
                    invariant
                        i < self.nodes.len(),
                        k <= self.nodes@[i as int].relations@.len(),
                        string_views(out@) =~= string_views(self.nodes@[i as int].relations@).take(k as int),
                    decreases self.nodes@[i as int].relations@.len() - k,
                {
                    out.push(self.nodes[i].relations[k].clone());
                    proof {
                        let rv = string_views(self.nodes@[i as int].relations@);
                        assert(rv.take(k + 1) =~= rv.take(k as int).push(rv[k as int]));
                    }
                    k += 1;
                }
                proof {
                    assert(string_views(self.nodes@[i as int].relations@).take(k as int) =~= string_views(self.nodes@[i as int].relations@));
                }
                Some(out)
            },
            None => None,
        }
    }

    /// Ensures `x` is among the relations of node `i`.
    fn relate(&mut self, i: usize, x: &String)
        requires
            old(self).wf(),
            i < old(self).nodes.len(),
        ensures
            final(self).wf(),
            final(self)@ == old(self)@.insert(
                old(self).nodes@[i as int].id@,
                with_member(string_views(old(self).nodes@[i as int].relations@), x@),
            ),
    {
        let ghost p = node_pairs(self.nodes@);
        let ghost rv = string_views(self.nodes@[i as int].relations@);
        if contains_string(&self.nodes[i].relations, x) {
            proof {
                lemma_to_map_index(p, i as int);
                assert(old(self)@.insert(p[i as int].0, rv) =~= old(self)@);
            }
        } else {
            let node = self.nodes.remove(i);
            let mut rels = node.relations;
            rels.push(x.clone());
            self.nodes.insert(i, GraphNode { id: node.id, relations: rels });
            proof {
                assert(string_views(rels@) =~= rv.push(x@));
                assert(node_pairs(self.nodes@) =~= p.update(i as int, (p[i as int].0, rv.push(x@))));
                lemma_to_map_update(p, i as int, rv.push(x@));
            }
        }
    }

    /// Adds an undirected relation between two distinct nodes: each gains the
    /// other among its relations (if it did not have it already).
    pub fn add_relation(&mut self, from_id: &str, to_id: &str) -> (r: Result<(), FerresError>)
        requires
            old(self).wf(),
        ensures
            final(self).wf(),
            from_id@ == to_id@ ==> (r matches Err(FerresError::InvalidPointId(m))
                && m@ == "from and to must be different points"@) && final(self)@ == old(self)@,
            from_id@ != to_id@ && !old(self)@.contains_key(from_id@) ==> (r matches Err(
                FerresError::PointNotFound(m),
            ) && m@ == from_id@) && final(self)@ == old(self)@,
            from_id@ != to_id@ && old(self)@.contains_key(from_id@) && !old(self)@.contains_key(
                to_id@,
            ) ==> (r matches Err(FerresError::PointNotFound(m)) && m@ == to_id@) && final(self)@
                == old(self)@,
            from_id@ != to_id@ && old(self)@.contains_key(from_id@) && old(self)@.contains_key(
                to_id@,
            ) ==> r is Ok && final(self)@ == old(self)@.insert(
                from_id@,
                with_member(old(self)@[from_id@], to_id@),
            ).insert(to_id@, with_member(old(self)@[to_id@], from_id@)),
    {
        let from = from_id.to_owned();
        let to = to_id.to_owned();
        if from == to {
            return Err(FerresError::InvalidPointId("from and to must be different points".to_owned()));
        }
        let fi = match self.find_node(&from) {
            Some(i) => i,
            None => return Err(FerresError::PointNotFound(from)),
        };
        let ti = match self.find_node(&to) {
            Some(i) => i,
            None => return Err(FerresError::PointNotFound(to)),
        };
        let ghost g0 = self@;
        self.relate(fi, &to);
        let ghost g1 = self@;
        proof {
            lemma_to_map_index(node_pairs(old(self).nodes@), ti as int);
        }
        match self.find_node(&to) {
            Some(tj) => {
                self.relate(tj, &from);
            },
            None => {
                proof {
                    assert(g1.contains_key(to@));
                }
            },
        }
        Ok(())
    }
}

// ─── Breadth-first traversal ────────────────────────────────────────

spec fn in_found(f: Seq<(String, u32)>, v: Seq<char>) -> bool {
    exists|b: int| 0 <= b < f.len() && #[trigger] f[b].0@ == v
}

spec fn found_le(f: Seq<(String, u32)>, v: Seq<char>, k: int) -> bool {
    exists|b: int| 0 <= b < f.len() && #[trigger] f[b].0@ == v && f[b].1 <= k
}

proof fn lemma_reach_mono(g: Map<Seq<char>, Seq<Seq<char>>>, s: Seq<char>, v: Seq<char>, k: nat, m: nat)
    requires
        reachable_within(g, s, v, k),
        k <= m,
    ensures
        reachable_within(g, s, v, m),
    decreases m - k,
{
    if k < m {
        assert(reachable_within(g, s, v, (k + 1) as nat));
        lemma_reach_mono(g, s, v, (k + 1) as nat, m);
    }
}

proof fn lemma_complete(
    g: Map<Seq<char>, Seq<Seq<char>>>,
    s: Seq<char>,
    f: Seq<(String, u32)>,
    max: nat,
    head: int,
    v: Seq<char>,
    k: nat,
)
    requires
        f.len() > 0,
        f[0].0@ == s,
        f[0].1 == 0,
        forall|a: int, w: Seq<char>|
            0 <= a < head && f[a].1 < max && #[trigger] edge(g, f[a].0@, w) ==> found_le(
                f,
                w,
                f[a].1 + 1,
            ),
        forall|a: int| 0 <= a < f.len() && f[a].1 < k ==> a < head,
        reachable_within(g, s, v, k),
        k <= max,
    ensures
        found_le(f, v, k as int),
    decreases k,
{
    if k == 0 {
        assert(f[0].0@ == v);
    } else {
        let k1 = (k - 1) as nat;
        if reachable_within(g, s, v, k1) {
            lemma_complete(g, s, f, max, head, v, k1);
            let b = choose|b: int| 0 <= b < f.len() && #[trigger] f[b].0@ == v && f[b].1 <= k1;
            assert(f[b].0@ == v);
        } else {
            let u = choose|u: Seq<char>| reachable_within(g, s, u, k1) && #[trigger] edge(g, u, v);
            lemma_complete(g, s, f, max, head, u, k1);
            let b = choose|b: int| 0 <= b < f.len() && #[trigger] f[b].0@ == u && f[b].1 <= k1;
            assert(edge(g, f[b].0@, v));
            let c = choose|c: int| 0 <= c < f.len() && #[trigger] f[c].0@ == v && f[c].1 <= f[b].1 + 1;
            assert(f[c].0@ == v);
        }
    }
}

/// Every hop budget that reaches a later id of `ids` from `s` reaches each
/// earlier one: the ids come in order of their hop distance from `s`.
pub open spec fn in_hop_order(g: Map<Seq<char>, Seq<Seq<char>>>, s: Seq<char>, ids: Seq<Seq<char>>) -> bool {
    forall|i: int, j: int, k: nat|
        #![trigger reachable_within(g, s, ids[j], k), ids[i]]
        0 <= i < j < ids.len() && reachable_within(g, s, ids[j], k) ==> reachable_within(g, s, ids[i], k)
}

/// Breadth-first search from `start_id`, at most `max_depth` hops.
///
/// Returns the ids of the nodes reached, each once, the start first, in
/// order of discovery. Fails with `InvalidPointId` for an empty start id and
/// with `PointNotFound` when the start is not a node.
pub fn traverse_bfs(graph: &RelationGraph, start_id: &str, max_depth: u32) -> (r: Result<
    Vec<String>,
    FerresError,
>)
    requires
        graph.wf(),
    ensures
        start_id@.len() == 0 ==> (r matches Err(FerresError::InvalidPointId(m))
            && m@ == "traverse_bfs: start_id cannot be empty"@),
        start_id@.len() > 0 && !graph@.contains_key(start_id@) ==> (r matches Err(
            FerresError::PointNotFound(m),
        ) && m@ == start_id@),
        start_id@.len() > 0 && graph@.contains_key(start_id@) ==> (r matches Ok(ids) && {
            &&& ids@.len() > 0
            &&& ids@[0]@ == start_id@
            &&& forall|i: int, j: int| 0 <= i < j < ids@.len() ==> ids@[i]@ != ids@[j]@
            &&& in_hop_order(graph@, start_id@, string_views(ids@))
            &&& forall|v: Seq<char>|
                string_views(ids@).contains(v) <==> reachable_within(
                    graph@,
                    start_id@,
                    v,
                    max_depth as nat,
                )
        }),
{
    if start_id.is_empty() {
        return Err(FerresError::InvalidPointId("traverse_bfs: start_id cannot be empty".to_owned()));
    }
    let start = start_id.to_owned();
    if graph.find_node(&start).is_none() {
        return Err(FerresError::PointNotFound(start));
    }
    let ghost g = graph@;
    let ghost s = start@;
    let ghost max = max_depth as nat;
    proof {
        lemma_to_map_len(node_pairs(graph.nodes@));
        lemma_to_map_dom(node_pairs(graph.nodes@));
    }
    let mut visited: Vec<String> = Vec::new();
    visited.push(start.clone());
    let mut found: Vec<(String, u32)> = Vec::new();
    found.push((start, 0));
    let mut head: usize = 0;
    proof {
        assert(visited@[0]@ == s);
        assert(string_views(visited@)[0] == s);
        assert(found@[0].0@ == s);
        assert(reachable_within(g, s, s, 0));
        lemma_found_bound(found@, g);
    }
    while head < found.len()
        invariant
            graph.wf(),
            g == graph@,
            g.dom().finite(),
            g.len() == graph.nodes@.len(),
            g.contains_key(s),
            max == max_depth as nat,
            0 < found@.len(),
            head <= found@.len(),
            found@.len() <= graph.nodes@.len(),
            found@[0].0@ == s,
            found@[0].1 == 0,
            forall|a: int, b: int| 0 <= a < b < found@.len() ==> found@[a].0@ != found@[b].0@,
            forall|a: int| 0 <= a < found@.len() ==> g.contains_key(#[trigger] found@[a].0@) && found@[a].1 <= max
                && reachable_within(g, s, found@[a].0@, found@[a].1 as nat),
            forall|a: int| 0 <= a < found@.len() && found@[a].1 > 0 ==> !reachable_within(g, s, #[trigger] found@[a].0@, (found@[a].1 - 1) as nat),
            forall|a: int, b: int| 0 <= a <= b < found@.len() ==> found@[a].1 <= found@[b].1,
            head < found@.len() ==> forall|b: int| 0 <= b < found@.len() ==> found@[b].1 <= found@[head as int].1 + 1,
            forall|a: int, w: Seq<char>|
                0 <= a < head && found@[a].1 < max && #[trigger] edge(g, found@[a].0@, w) ==> found_le(found@, w, found@[a].1 + 1),
            forall|a: int| 0 <= a < found@.len() ==> string_views(visited@).contains(#[trigger] found@[a].0@),
            forall|x: Seq<char>| string_views(visited@).contains(x) && g.contains_key(x) ==> in_found(found@, x),
        decreases graph.nodes@.len() - head,
    {
        let d = found[head].1;
        let ghost u = found@[head as int].0@;
        if d < max_depth {
            let ni = match graph.find_node(&found[head].0) {
                Some(i) => i,
                None => {
                    proof {
                        assert(g.contains_key(found@[head as int].0@));
                    }
                    head += 1;
                    continue;
                },
            };
            let ghost rels = g[u];
            let nrel = graph.nodes[ni].relations.len();
            let mut r: usize = 0;
            while r < nrel
                invariant
                    graph.wf(),
                    g == graph@,
                    g.dom().finite(),
                    g.len() == graph.nodes@.len(),
                    g.contains_key(s),
                    max == max_depth as nat,
                    ni < graph.nodes@.len(),
                    nrel == graph.nodes@[ni as int].relations@.len(),
                    rels == string_views(graph.nodes@[ni as int].relations@),
                    rels == g[u],
                    r <= nrel,
                    (d as nat) < max,
                    head < found@.len(),
                    found@[head as int].0@ == u,
                    found@[head as int].1 == d,
                    found@.len() <= graph.nodes@.len(),
                    found@[0].0@ == s,
                    found@[0].1 == 0,
                    forall|a: int, b: int| 0 <= a < b < found@.len() ==> found@[a].0@ != found@[b].0@,
                    forall|a: int| 0 <= a < found@.len() ==> g.contains_key(#[trigger] found@[a].0@) && found@[a].1 <= max
                        && reachable_within(g, s, found@[a].0@, found@[a].1 as nat),
                    forall|a: int| 0 <= a < found@.len() && found@[a].1 > 0 ==> !reachable_within(g, s, #[trigger] found@[a].0@, (found@[a].1 - 1) as nat),
                    forall|a: int, b: int| 0 <= a <= b < found@.len() ==> found@[a].1 <= found@[b].1,
                    forall|b: int| 0 <= b < found@.len() ==> found@[b].1 <= d + 1,
                    forall|a: int, w: Seq<char>|
                        0 <= a < head && found@[a].1 < max && #[trigger] edge(g, found@[a].0@, w) ==> found_le(found@, w, found@[a].1 + 1),
                    forall|q: int| 0 <= q < r && #[trigger] edge(g, u, rels[q]) ==> found_le(found@, rels[q], d + 1),
                    forall|a: int| 0 <= a < found@.len() ==> string_views(visited@).contains(#[trigger] found@[a].0@),
                    forall|x: Seq<char>| string_views(visited@).contains(x) && g.contains_key(x) ==> in_found(found@, x),
                decreases nrel - r,
            {
                let ghost fo = found@;
                let ghost vo = visited@;
                let ghost w = rels[r as int];
                proof {
                    assert(graph.nodes@[ni as int].relations@[r as int]@ == w);
                }
                if !graph.nodes[ni].relations[r].as_str().is_empty() && !contains_string(&visited, &graph.nodes[ni].relations[r]) {
                    visited.push(graph.nodes[ni].relations[r].clone());
                    proof {
                        assert(string_views(visited@) =~= string_views(vo).push(w));
                    }
                    if graph.find_node(&graph.nodes[ni].relations[r]).is_some() {
                        found.push((graph.nodes[ni].relations[r].clone(), d + 1));
                        proof {
                            let nb = fo.len() as int;
                            assert(found@[nb].0@ == w);
                            assert(!in_found(fo, w)) by {
                                if in_found(fo, w) {
                                    let b = choose|b: int| 0 <= b < fo.len() && #[trigger] fo[b].0@ == w;
                                    assert(string_views(vo).contains(fo[b].0@));
                                }
                            }
                            assert forall|a: int, b: int| 0 <= a < b < found@.len() implies found@[a].0@ != found@[b].0@ by {
                                if b == nb {
                                    assert(found@[a] == fo[a]);
                                    if fo[a].0@ == w {
                                        assert(in_found(fo, w));
                                    }
                                } else {
                                    assert(found@[a] == fo[a] && found@[b] == fo[b]);
                                }
                            }
                            assert(edge(g, u, w)) by {
                                assert(rels[r as int] == w);
                            }
                            assert(!reachable_within(g, s, w, d as nat)) by {
                                if reachable_within(g, s, w, d as nat) {
                                    assert forall|a: int| 0 <= a < fo.len() && fo[a].1 < d implies a < head by {
                                        if a >= head {
                                            assert(fo[head as int].1 <= fo[a].1);
                                        }
                                    }
                                    lemma_complete(g, s, fo, max, head as int, w, d as nat);
                                    let b = choose|b: int| 0 <= b < fo.len() && #[trigger] fo[b].0@ == w && fo[b].1 <= d;
                                    assert(in_found(fo, w));
                                }
                            }
                            assert forall|a: int| 0 <= a < found@.len() && found@[a].1 > 0 implies !reachable_within(g, s, #[trigger] found@[a].0@, (found@[a].1 - 1) as nat) by {
                                if a < nb {
                                    assert(found@[a] == fo[a]);
                                } else {
                                    assert(found@[a].1 == d + 1);
                                    assert(found@[a].0@ == w);
                                }
                            }
                            assert(reachable_within(g, s, w, (d + 1) as nat)) by {
                                assert(reachable_within(g, s, u, d as nat));
                                assert((d + 1) as nat - 1 == d as nat);
                            }
                            assert forall|a: int| 0 <= a < found@.len() implies g.contains_key(#[trigger] found@[a].0@) && found@[a].1 <= max
                                && reachable_within(g, s, found@[a].0@, found@[a].1 as nat) by {
                                if a < nb {
                                    assert(found@[a] == fo[a]);
                                }
                            }
                            assert forall|a: int, b: int| 0 <= a <= b < found@.len() implies found@[a].1 <= found@[b].1 by {
                                if b < nb {
                                    assert(found@[a] == fo[a] && found@[b] == fo[b]);
                                } else if a < nb {
                                    assert(found@[a] == fo[a]);
                                }
                            }
                            assert forall|a: int, x: Seq<char>|
                                0 <= a < head && found@[a].1 < max && #[trigger] edge(g, found@[a].0@, x) implies found_le(found@, x, found@[a].1 + 1) by {
                                assert(found@[a] == fo[a]);
                                assert(found_le(fo, x, fo[a].1 + 1));
                                let b = choose|b: int| 0 <= b < fo.len() && #[trigger] fo[b].0@ == x && fo[b].1 <= fo[a].1 + 1;
                                assert(found@[b] == fo[b]);
                            }
                            assert forall|q: int| 0 <= q < r + 1 && #[trigger] edge(g, u, rels[q]) implies found_le(found@, rels[q], d + 1) by {
                                if q < r {
                                    assert(found_le(fo, rels[q], d + 1));
                                    let b = choose|b: int| 0 <= b < fo.len() && #[trigger] fo[b].0@ == rels[q] && fo[b].1 <= d + 1;
                                    assert(found@[b] == fo[b]);
                                } else {
                                    assert(found@[nb].0@ == rels[q]);
                                }
                            }
                            assert forall|a: int| 0 <= a < found@.len() implies string_views(visited@).contains(#[trigger] found@[a].0@) by {
                                if a < nb {
                                    assert(found@[a] == fo[a]);
                                    assert(string_views(vo).contains(fo[a].0@));
                                    let k = choose|k: int| 0 <= k < string_views(vo).len() && string_views(vo)[k] == fo[a].0@;
                                    assert(string_views(visited@)[k] == fo[a].0@);
                                } else {
                                    assert(string_views(visited@)[vo.len() as int] == w);
                                }
                            }
                            assert forall|x: Seq<char>| string_views(visited@).contains(x) && g.contains_key(x) implies in_found(found@, x) by {
                                if x == w {
                                    assert(found@[nb].0@ == x);
                                } else {
                                    let k = choose|k: int| 0 <= k < string_views(visited@).len() && string_views(visited@)[k] == x;
                                    assert(string_views(vo)[k] == x);
                                    assert(in_found(fo, x));
                                    let b = choose|b: int| 0 <= b < fo.len() && #[trigger] fo[b].0@ == x;
                                    assert(found@[b] == fo[b]);
                                }
                            }
                            lemma_found_bound(found@, g);
                        }
                    } else {
                        proof {
                            assert(!g.contains_key(w));
                            assert forall|q: int| 0 <= q < r + 1 && #[trigger] edge(g, u, rels[q]) implies found_le(found@, rels[q], d + 1) by {
                                if q == r {
                                    assert(!edge(g, u, rels[q]));
                                }
                            }
                            assert forall|a: int| 0 <= a < found@.len() implies string_views(visited@).contains(#[trigger] found@[a].0@) by {
                                assert(string_views(vo).contains(found@[a].0@));
                                let k = choose|k: int| 0 <= k < string_views(vo).len() && string_views(vo)[k] == found@[a].0@;
                                assert(string_views(visited@)[k] == found@[a].0@);
                            }
                            assert forall|x: Seq<char>| string_views(visited@).contains(x) && g.contains_key(x) implies in_found(found@, x) by {
                                if x != w {
                                    let k = choose|k: int| 0 <= k < string_views(visited@).len() && string_views(visited@)[k] == x;
                                    assert(string_views(vo)[k] == x);
                                }
                            }
                        }
                    }
                } else {
                    proof {
                        assert forall|q: int| 0 <= q < r + 1 && #[trigger] edge(g, u, rels[q]) implies found_le(found@, rels[q], d + 1) by {
                            if q == r {
                                assert(w.len() > 0);
                                assert(string_views(visited@).contains(w));
                                assert(in_found(found@, w));
                                let b = choose|b: int| 0 <= b < found@.len() && #[trigger] found@[b].0@ == w;
                                assert(found@[b].1 <= d + 1);
                            }
                        }
                    }
                }
                r += 1;
            }
            proof {
                assert forall|a: int, w: Seq<char>|
                    0 <= a < head + 1 && found@[a].1 < max && #[trigger] edge(g, found@[a].0@, w) implies found_le(found@, w, found@[a].1 + 1) by {
                    if a == head {
                        assert(g[u].contains(w));
                        let q = choose|q: int| 0 <= q < rels.len() && rels[q] == w;
                        assert(edge(g, u, rels[q]));
                    }
                }
            }
        } else {
            proof {
                assert forall|a: int, w: Seq<char>|
                    0 <= a < head + 1 && found@[a].1 < max && #[trigger] edge(g, found@[a].0@, w) implies found_le(found@, w, found@[a].1 + 1) by {
                    if a == head {
                        assert(found@[a].1 >= max);
                    }
                }
            }
        }
        head += 1;
    }
    let mut ids: Vec<String> = Vec::new();
    let mut i: usize = 0;
    while i < found.len()
        invariant
            i <= found@.len(),
            ids@.len() == i,
            forall|a: int| 0 <= a < i ==> #[trigger] ids@[a]@ == found@[a].0@,
        decreases found@.len() - i,
    {
        ids.push(found[i].0.clone());
        i += 1;
    }
    proof {
        assert forall|v: Seq<char>| string_views(ids@).contains(v) <==> reachable_within(g, s, v, max) by {
            if string_views(ids@).contains(v) {
                let k = choose|k: int| 0 <= k < string_views(ids@).len() && string_views(ids@)[k] == v;
                assert(ids@[k]@ == found@[k].0@);
                assert(reachable_within(g, s, found@[k].0@, found@[k].1 as nat));
                lemma_reach_mono(g, s, v, found@[k].1 as nat, max);
            }
            if reachable_within(g, s, v, max) {
                lemma_complete(g, s, found@, max, found@.len() as int, v, max);
                let b = choose|b: int| 0 <= b < found@.len() && #[trigger] found@[b].0@ == v && found@[b].1 <= max;
                assert(string_views(ids@)[b] == v);
            }
        }
        assert forall|a: int, b: int| 0 <= a < b < ids@.len() implies ids@[a]@ != ids@[b]@ by {
            assert(ids@[a]@ == found@[a].0@ && ids@[b]@ == found@[b].0@);
        }
        assert(ids@[0]@ == s);
        let sv = string_views(ids@);
        assert forall|i: int, j: int, k: nat|
            #![trigger reachable_within(g, s, sv[j], k), sv[i]]
            0 <= i < j < sv.len() && reachable_within(g, s, sv[j], k) implies reachable_within(g, s, sv[i], k) by {
            assert(sv[i] == found@[i].0@ && sv[j] == found@[j].0@);
            if k < found@[j].1 {
                if found@[j].1 > 0 {
                    lemma_reach_mono(g, s, sv[j], k, (found@[j].1 - 1) as nat);
                }
            }
            lemma_reach_mono(g, s, sv[i], found@[i].1 as nat, k);
        }
    }
    Ok(ids)
}

proof fn lemma_found_bound(f: Seq<(String, u32)>, g: Map<Seq<char>, Seq<Seq<char>>>)
    requires
        g.dom().finite(),
        forall|a: int, b: int| 0 <= a < b < f.len() ==> f[a].0@ != f[b].0@,
        forall|a: int| 0 <= a < f.len() ==> g.contains_key(#[trigger] f[a].0@),
    ensures
        f.len() <= g.len(),
{
    let ids = f.map_values(|p: (String, u32)| p.0@);
    assert(ids.no_duplicates()) by {
        assert forall|a: int, b: int| 0 <= a < ids.len() && 0 <= b < ids.len() && a != b implies ids[a] != ids[b] by {
            if a < b {
                assert(f[a].0@ != f[b].0@);
            } else {
                assert(f[b].0@ != f[a].0@);
            }
        }
    }
    ids.unique_seq_to_set();
    assert(ids.to_set().subset_of(g.dom())) by {
        assert forall|x: Seq<char>| ids.to_set().contains(x) implies g.dom().contains(x) by {
            let k = choose|k: int| 0 <= k < ids.len() && ids[k] == x;
            assert(g.contains_key(f[k].0@));
        }
    }
    vstd::set_lib::lemma_len_subset(ids.to_set(), g.dom());
}

/// The graph after relating `a` and `b`, as `RelationGraph::add_relation`
/// leaves it.
pub open spec fn related(g: Map<Seq<char>, Seq<Seq<char>>>, a: Seq<char>, b: Seq<char>) -> Map<
    Seq<char>,
    Seq<Seq<char>>,
> {
    g.insert(a, with_member(g[a], b)).insert(b, with_member(g[b], a))
}

/// Once two distinct points with non-empty ids are related, a traversal of
/// one hop from either of them reaches the other.
pub proof fn law_related_points_are_neighbours(
    g: Map<Seq<char>, Seq<Seq<char>>>,
    a: Seq<char>,
    b: Seq<char>,
)
    requires
        g.contains_key(a),
        g.contains_key(b),
        a != b,
        a.len() > 0,
        b.len() > 0,
    ensures
        reachable_within(related(g, a, b), a, b, 1),
        reachable_within(related(g, a, b), b, a, 1),
{
    let h = related(g, a, b);
    assert(h.contains_key(a) && h.contains_key(b));
    assert(h[a] == with_member(g[a], b));
    assert(h[b] == with_member(g[b], a));
    assert(with_member(g[a], b).contains(b)) by {
        if !g[a].contains(b) {
            assert(g[a].push(b)[g[a].len() as int] == b);
        }
    }
    assert(with_member(g[b], a).contains(a)) by {
        if !g[b].contains(a) {
            assert(g[b].push(a)[g[b].len() as int] == a);
        }
    }
    assert(reachable_within(h, a, a, 0));
    assert(edge(h, a, b));
    assert(reachable_within(h, b, b, 0));
    assert(edge(h, b, a));
}

} // verus!
