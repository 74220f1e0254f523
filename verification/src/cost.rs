//! The integer side of query cost estimation: the optimization advice that
//! the shape of a query calls for, and the memory it is expected to use.
//! The latency model itself is floating point and is not part of this
//! module.
use vstd::prelude::*;

verus! {

/// Average size of a point's metadata, in bytes.
pub const AVG_METADATA_SIZE_BYTES: usize = 256;

/// Advice for a `limit` above 100.
pub open spec fn advice_limit() -> Seq<char> {
    "Considere reduzir limit para melhor performance"@
}

/// Advice for a filter over more than 100 000 points.
pub open spec fn advice_filter_large() -> Seq<char> {
    "Filtros em coleções grandes podem ser lentos. Considere pré-filtrar ou usar índices dedicados"@
}

/// Advice for vectors of more than 1024 dimensions.
pub open spec fn advice_dimension() -> Seq<char> {
    "Vetores de alta dimensão impactam latência. Considere redução de dimensionalidade (PCA, autoencoders)"@
}

/// Advice for an `ef_search` above 200.
pub open spec fn advice_ef_search() -> Seq<char> {
    "ef_search alto aumenta precisão mas impacta latência. Avalie se o recall atual já é suficiente"@
}

/// Advice for an unfiltered search over more than 1 000 000 points.
pub open spec fn advice_no_filter() -> Seq<char> {
    "Coleção com mais de 1M pontos: considere adicionar filtros para reduzir o espaço de busca"@
}

/// `s` followed by `x` when `cond` holds.
pub open spec fn push_if(s: Seq<Seq<char>>, cond: bool, x: Seq<char>) -> Seq<Seq<char>> {
    if cond {
        s.push(x)
    } else {
        s
    }
}

/// The advice for a query, in this order: large limit, filter over a large
/// collection, high dimension, high `ef_search`, unfiltered search over a
/// very large collection.
pub open spec fn advice_for(
    limit: nat,
    has_filter: bool,
    collection_size: nat,
    dimension: nat,
    ef_search: nat,
) -> Seq<Seq<char>> {
    let a = push_if(Seq::empty(), limit > 100, advice_limit());
    let b = push_if(a, has_filter && collection_size > 100_000, advice_filter_large());
    let c = push_if(b, dimension > 1024, advice_dimension());
    let d = push_if(c, ef_search > 200, advice_ef_search());
    push_if(d, collection_size > 1_000_000 && !has_filter, advice_no_filter())
}

/// The five pieces of advice are different texts.
proof fn lemma_advice_distinct()
    ensures
        advice_limit() != advice_filter_large(),
        advice_limit() != advice_dimension(),
        advice_limit() != advice_ef_search(),
        advice_limit() != advice_no_filter(),
        advice_filter_large() != advice_dimension(),
        advice_filter_large() != advice_ef_search(),
        advice_filter_large() != advice_no_filter(),
        advice_dimension() != advice_ef_search(),
        advice_dimension() != advice_no_filter(),
        advice_ef_search() != advice_no_filter(),
{
    reveal_strlit("Considere reduzir limit para melhor performance");
    reveal_strlit("Filtros em coleções grandes podem ser lentos. Considere pré-filtrar ou usar índices dedicados");
    reveal_strlit("Vetores de alta dimensão impactam latência. Considere redução de dimensionalidade (PCA, autoencoders)");
    reveal_strlit("ef_search alto aumenta precisão mas impacta latência. Avalie se o recall atual já é suficiente");
    reveal_strlit("Coleção com mais de 1M pontos: considere adicionar filtros para reduzir o espaço de busca");
    assert(advice_limit()[0] != advice_filter_large()[0]);
    assert(advice_limit()[0] != advice_dimension()[0]);
    assert(advice_limit()[0] != advice_ef_search()[0]);
    assert(advice_limit()[2] != advice_no_filter()[2]);
    assert(advice_filter_large()[0] != advice_dimension()[0]);
    assert(advice_filter_large()[0] != advice_ef_search()[0]);
    assert(advice_filter_large()[0] != advice_no_filter()[0]);
    assert(advice_dimension()[0] != advice_ef_search()[0]);
    assert(advice_dimension()[0] != advice_no_filter()[0]);
    assert(advice_ef_search()[0] != advice_no_filter()[0]);
}

proof fn lemma_push_if_contains(s: Seq<Seq<char>>, cond: bool, x: Seq<char>, y: Seq<char>)
    ensures
        push_if(s, cond, x).contains(y) <==> s.contains(y) || (cond && y == x),
{
    if cond {
        if s.push(x).contains(y) {
            let k = choose|k: int| 0 <= k < s.push(x).len() && s.push(x)[k] == y;
            if k < s.len() {
                assert(s[k] == y);
            }
        }
        if s.contains(y) {
            let k = choose|k: int| 0 <= k < s.len() && s[k] == y;
            assert(s.push(x)[k] == y);
        }
        if y == x {
            assert(s.push(x)[s.len() as int] == y);
        }
    }
}

/// Each piece of advice is given exactly when its condition holds: a limit
/// above 100; a filter over more than 100 000 points; more than 1024
/// dimensions; an `ef_search` above 200; no filter over more than
/// 1 000 000 points. Nothing else is ever advised.
pub proof fn law_advice_exactly_when(
    limit: nat,
    has_filter: bool,
    collection_size: nat,
    dimension: nat,
    ef_search: nat,
)
    ensures
        advice_for(limit, has_filter, collection_size, dimension, ef_search).contains(advice_limit())
            <==> limit > 100,
        advice_for(limit, has_filter, collection_size, dimension, ef_search).contains(
            advice_filter_large(),
        ) <==> has_filter && collection_size > 100_000,
        advice_for(limit, has_filter, collection_size, dimension, ef_search).contains(
            advice_dimension(),
        ) <==> dimension > 1024,
        advice_for(limit, has_filter, collection_size, dimension, ef_search).contains(
            advice_ef_search(),
        ) <==> ef_search > 200,
        advice_for(limit, has_filter, collection_size, dimension, ef_search).contains(
            advice_no_filter(),
        ) <==> collection_size > 1_000_000 && !has_filter,
        forall|t: Seq<char>|
            #[trigger] advice_for(limit, has_filter, collection_size, dimension, ef_search).contains(t)
                ==> t == advice_limit() || t == advice_filter_large() || t == advice_dimension() || t
                == advice_ef_search() || t == advice_no_filter(),
{
    lemma_advice_distinct();
    let e = Seq::<Seq<char>>::empty();
    let a = push_if(e, limit > 100, advice_limit());
    let b = push_if(a, has_filter && collection_size > 100_000, advice_filter_large());
    let c = push_if(b, dimension > 1024, advice_dimension());
    let d = push_if(c, ef_search > 200, advice_ef_search());
    let f = push_if(d, collection_size > 1_000_000 && !has_filter, advice_no_filter());
    assert forall|t: Seq<char>| f.contains(t) <==> ((limit > 100 && t == advice_limit()) || (has_filter
        && collection_size > 100_000 && t == advice_filter_large()) || (dimension > 1024 && t
        == advice_dimension()) || (ef_search > 200 && t == advice_ef_search()) || (collection_size
        > 1_000_000 && !has_filter && t == advice_no_filter())) by {
        lemma_push_if_contains(e, limit > 100, advice_limit(), t);
        lemma_push_if_contains(a, has_filter && collection_size > 100_000, advice_filter_large(), t);
        lemma_push_if_contains(b, dimension > 1024, advice_dimension(), t);
        lemma_push_if_contains(c, ef_search > 200, advice_ef_search(), t);
        lemma_push_if_contains(d, collection_size > 1_000_000 && !has_filter, advice_no_filter(), t);
    }
    assert(f.contains(advice_limit()) <==> limit > 100);
    assert(f.contains(advice_filter_large()) <==> has_filter && collection_size > 100_000);
    assert(f.contains(advice_dimension()) <==> dimension > 1024);
    assert(f.contains(advice_ef_search()) <==> ef_search > 200);
    assert(f.contains(advice_no_filter()) <==> collection_size > 1_000_000 && !has_filter);
}

/// The place of each piece of advice in the order in which it is given.
pub open spec fn advice_rank(t: Seq<char>) -> int {
    if t == advice_limit() {
        0
    } else if t == advice_filter_large() {
        1
    } else if t == advice_dimension() {
        2
    } else if t == advice_ef_search() {
        3
    } else {
        4
    }
}

proof fn lemma_push_if_ranked(s: Seq<Seq<char>>, cond: bool, x: Seq<char>, r: int)
    requires
        forall|i: int, j: int| 0 <= i < j < s.len() ==> advice_rank(s[i]) < advice_rank(s[j]),
        forall|i: int| 0 <= i < s.len() ==> advice_rank(#[trigger] s[i]) < r,
        advice_rank(x) == r,
    ensures
        forall|i: int, j: int|
            0 <= i < j < push_if(s, cond, x).len() ==> advice_rank(push_if(s, cond, x)[i])
                < advice_rank(push_if(s, cond, x)[j]),
        forall|i: int| 0 <= i < push_if(s, cond, x).len() ==> advice_rank(#[trigger] push_if(s, cond, x)[i]) <= r,
{
    if cond {
        assert forall|i: int, j: int| 0 <= i < j < s.push(x).len() implies advice_rank(s.push(x)[i])
            < advice_rank(s.push(x)[j]) by {
            assert(s.push(x)[i] == s[i]);
            if j < s.len() {
                assert(s.push(x)[j] == s[j]);
            }
        }
        assert forall|i: int| 0 <= i < s.push(x).len() implies advice_rank(#[trigger] s.push(x)[i]) <= r by {
            if i < s.len() {
                assert(s.push(x)[i] == s[i]);
            }
        }
    }
}

/// The advice always comes in the same order (large limit, filter over a
/// large collection, high dimension, high `ef_search`, unfiltered very
/// large collection), each piece at most once.
pub proof fn law_advice_in_order(
    limit: nat,
    has_filter: bool,
    collection_size: nat,
    dimension: nat,
    ef_search: nat,
)
    ensures
        forall|i: int, j: int|
            0 <= i < j < advice_for(limit, has_filter, collection_size, dimension, ef_search).len()
                ==> advice_rank(advice_for(limit, has_filter, collection_size, dimension, ef_search)[i])
                < advice_rank(advice_for(limit, has_filter, collection_size, dimension, ef_search)[j]),
{
    lemma_advice_distinct();
    let e = Seq::<Seq<char>>::empty();
    let a = push_if(e, limit > 100, advice_limit());
    let b = push_if(a, has_filter && collection_size > 100_000, advice_filter_large());
    let c = push_if(b, dimension > 1024, advice_dimension());
    let d = push_if(c, ef_search > 200, advice_ef_search());
    lemma_push_if_ranked(e, limit > 100, advice_limit(), 0);
    lemma_push_if_ranked(a, has_filter && collection_size > 100_000, advice_filter_large(), 1);
    lemma_push_if_ranked(b, dimension > 1024, advice_dimension(), 2);
    lemma_push_if_ranked(c, ef_search > 200, advice_ef_search(), 3);
    lemma_push_if_ranked(d, collection_size > 1_000_000 && !has_filter, advice_no_filter(), 4);
}

fn push_advice(out: &mut Vec<String>, cond: bool, text: &str)
    ensures
        out_views(final(out)@) == push_if(out_views(old(out)@), cond, text@),
{
    if cond {
        out.push(text.to_owned());
        proof {
            assert(out_views(final(out)@) =~= out_views(old(out)@).push(text@));
        }
    }
}

/// The character sequences of a list of strings.
pub open spec fn out_views(v: Seq<String>) -> Seq<Seq<char>> {
    v.map_values(|s: String| s@)
}

/// The optimization advice for a query of `limit` results (at least 1 is
/// counted), with or without a metadata filter, over `collection_size`
/// points of `dimension` components, searched with `ef_search`.
pub fn search_recommendations(
    limit: usize,
    has_filter: bool,
    collection_size: usize,
    dimension: usize,
    ef_search: usize,
) -> (advice: Vec<String>)
    ensures
        out_views(advice@) == advice_for(
            if limit == 0 { 1 } else { limit as nat },
            has_filter,
            collection_size as nat,
            dimension as nat,
            ef_search as nat,
        ),
        out_views(advice@).contains(advice_limit()) <==> limit > 100,
        out_views(advice@).contains(advice_filter_large()) <==> has_filter && collection_size
            > 100_000,
        out_views(advice@).contains(advice_dimension()) <==> dimension > 1024,
        out_views(advice@).contains(advice_ef_search()) <==> ef_search > 200,
        out_views(advice@).contains(advice_no_filter()) <==> collection_size > 1_000_000
            && !has_filter,
        forall|i: int, j: int|
            0 <= i < j < advice@.len() ==> advice_rank(out_views(advice@)[i]) < advice_rank(
                out_views(advice@)[j],
            ),
{
    let limit = if limit == 0 { 1 } else { limit };
    let mut out: Vec<String> = Vec::new();
    push_advice(&mut out, limit > 100, "Considere reduzir limit para melhor performance");
    push_advice(
        &mut out,
        has_filter && collection_size > 100_000,
        "Filtros em coleções grandes podem ser lentos. Considere pré-filtrar ou usar índices dedicados",
    );
    push_advice(
        &mut out,
        dimension > 1024,
        "Vetores de alta dimensão impactam latência. Considere redução de dimensionalidade (PCA, autoencoders)",
    );
    push_advice(
        &mut out,
        ef_search > 200,
        "ef_search alto aumenta precisão mas impacta latência. Avalie se o recall atual já é suficiente",
    );
    push_advice(
        &mut out,
        collection_size > 1_000_000 && !has_filter,
        "Coleção com mais de 1M pontos: considere adicionar filtros para reduzir o espaço de busca",
    );
    proof {
        assert(out_views(Seq::<String>::empty()) =~= Seq::<Seq<char>>::empty());
        law_advice_in_order(
            limit as nat,
            has_filter,
            collection_size as nat,
            dimension as nat,
            ef_search as nat,
        );
        law_advice_exactly_when(
            limit as nat,
            has_filter,
            collection_size as nat,
            dimension as nat,
            ef_search as nat,
        );
    }
    out
}

/// Memory a search is expected to use: each visited node holds a vector of
/// `dimension` 4-byte components plus 64 bytes of graph overhead, and each
/// of the `limit` results (at least 1) a vector plus its metadata.
pub open spec fn search_memory(nodes_visited: nat, dimension: nat, limit: nat) -> nat {
    nodes_visited * (dimension * 4 + 64) + limit * (dimension * 4 + AVG_METADATA_SIZE_BYTES as nat)
}

/// The memory estimate of a search (see `search_memory`); `limit` 0 counts
/// as 1.
pub fn estimated_memory_bytes(nodes_visited: usize, dimension: usize, limit: usize) -> (bytes: usize)
    requires
        search_memory(
            nodes_visited as nat,
            dimension as nat,
            if limit == 0 { 1 } else { limit as nat },
        ) <= usize::MAX,
    ensures
        bytes == search_memory(
            nodes_visited as nat,
            dimension as nat,
            if limit == 0 { 1 } else { limit as nat },
        ),
{
    let limit = if limit == 0 { 1 } else { limit };
    proof {
        let per_node = dimension * 4 + 64;
        let per_result = dimension * 4 + AVG_METADATA_SIZE_BYTES;
        let total = search_memory(nodes_visited as nat, dimension as nat, limit as nat);
        assert(total == nodes_visited * per_node + limit * per_result);
        assert(0 <= nodes_visited * per_node) by (nonlinear_arith)
            requires
                nodes_visited >= 0,
                per_node >= 0,
        ;
        assert(per_result <= limit * per_result) by (nonlinear_arith)
            requires
                limit >= 1,
                per_result >= 0,
        ;
        assert(0 <= limit * per_result) by (nonlinear_arith)
            requires
                limit >= 1,
                per_result >= 0,
        ;
    }
    let per_node = dimension * 4 + 64;
    let per_result = dimension * 4 + AVG_METADATA_SIZE_BYTES;
    nodes_visited * per_node + limit * per_result
}

} // verus!
