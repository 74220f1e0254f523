//! Collections: the rules a new one must meet, their statistics and their
//! listings.
use crate::bm25::string_views;
use crate::error::FerresError;
use crate::text::push_str;
use crate::time::unix_now;
use vstd::prelude::*;

verus! {

/// Statistics of a collection.
#[derive(Debug, Clone, Copy)]
pub struct CollectionStats {
    /// Points in the collection.
    pub num_points: usize,
    /// Estimated index size in bytes.
    pub index_size_bytes: usize,
    /// Unix time (seconds) of the last update.
    pub last_updated: u64,
}

/// What a listing shows of a collection.
#[derive(Debug, Clone)]
pub struct CollectionInfo {
    /// Collection name.
    pub name: String,
    /// Vector dimension.
    pub dimension: usize,
    /// Points in the collection.
    pub num_points: usize,
    /// Unix time (seconds) of creation: that of the oldest point.
    pub created_at: u64,
}

/// The largest of a non-empty list of timestamps.
pub open spec fn max_of(s: Seq<u64>) -> u64
    decreases s.len(),
{
    if s.len() <= 1 {
        s[0]
    } else {
        let m = max_of(s.drop_last());
        if s.last() > m {
            s.last()
        } else {
            m
        }
    }
}

/// The smallest of a non-empty list of timestamps.
pub open spec fn min_of(s: Seq<u64>) -> u64
    decreases s.len(),
{
    if s.len() <= 1 {
        s[0]
    } else {
        let m = min_of(s.drop_last());
        if s.last() < m {
            s.last()
        } else {
            m
        }
    }
}

/// The newest of a non-empty list of timestamps is at least each of them
/// and is one of them.
pub proof fn law_max_is_newest(s: Seq<u64>)
    requires
        s.len() > 0,
    ensures
        forall|i: int| 0 <= i < s.len() ==> s[i] <= max_of(s),
        exists|i: int| 0 <= i < s.len() && s[i] == max_of(s),
    decreases s.len(),
{
    if s.len() > 1 {
        let p = s.drop_last();
        law_max_is_newest(p);
        assert forall|i: int| 0 <= i < s.len() implies s[i] <= max_of(s) by {
            if i < s.len() - 1 {
                assert(s[i] == p[i]);
            }
        }
        if s.last() > max_of(p) {
            assert(s[s.len() - 1] == max_of(s));
        } else {
            let k = choose|k: int| 0 <= k < p.len() && p[k] == max_of(p);
            assert(s[k] == max_of(s));
        }
    } else {
        assert(s[0] == max_of(s));
    }
}

/// The oldest of a non-empty list of timestamps is at most each of them
/// and is one of them.
pub proof fn law_min_is_oldest(s: Seq<u64>)
    requires
        s.len() > 0,
    ensures
        forall|i: int| 0 <= i < s.len() ==> min_of(s) <= s[i],
        exists|i: int| 0 <= i < s.len() && s[i] == min_of(s),
    decreases s.len(),
{
    if s.len() > 1 {
        let p = s.drop_last();
        law_min_is_oldest(p);
        assert forall|i: int| 0 <= i < s.len() implies min_of(s) <= s[i] by {
            if i < s.len() - 1 {
                assert(s[i] == p[i]);
            }
        }
        if s.last() < min_of(p) {
            assert(s[s.len() - 1] == min_of(s));
        } else {
            let k = choose|k: int| 0 <= k < p.len() && p[k] == min_of(p);
            assert(s[k] == min_of(s));
        }
    } else {
        assert(s[0] == min_of(s));
    }
}

/// The largest timestamp of a non-empty list.
fn max_timestamp(ts: &Vec<u64>) -> (m: u64)
    requires
        ts@.len() > 0,
    ensures
        m == max_of(ts@),
        forall|i: int| 0 <= i < ts@.len() ==> ts@[i] <= m,
        exists|i: int| 0 <= i < ts@.len() && ts@[i] == m,
{
    let mut m = ts[0];
    let mut i: usize = 1;
    proof {
        assert(ts@.take(1) =~= seq![ts@[0]]);
    }
    while i < ts.len()
        invariant
            1 <= i <= ts.len(),
            m == max_of(ts@.take(i as int)),
        decreases ts.len() - i,
    {
        proof {
            assert(ts@.take(i + 1).drop_last() =~= ts@.take(i as int));
        }
        if ts[i] > m {
            m = ts[i];
        }
        i += 1;
    }
    proof {
        assert(ts@.take(ts.len() as int) =~= ts@);
        law_max_is_newest(ts@);
        law_min_is_oldest(ts@);
    }
    m
}

/// The smallest timestamp of a non-empty list.
fn min_timestamp(ts: &Vec<u64>) -> (m: u64)
    requires
        ts@.len() > 0,
    ensures
        m == min_of(ts@),
        forall|i: int| 0 <= i < ts@.len() ==> m <= ts@[i],
        exists|i: int| 0 <= i < ts@.len() && ts@[i] == m,
{
    let mut m = ts[0];
    let mut i: usize = 1;
    proof {
        assert(ts@.take(1) =~= seq![ts@[0]]);
    }
    while i < ts.len()
        invariant
            1 <= i <= ts.len(),
            m == min_of(ts@.take(i as int)),
        decreases ts.len() - i,
    {
        proof {
            assert(ts@.take(i + 1).drop_last() =~= ts@.take(i as int));
        }
        if ts[i] < m {
            m = ts[i];
        }
        i += 1;
    }
    proof {
        assert(ts@.take(ts.len() as int) =~= ts@);
        law_max_is_newest(ts@);
        law_min_is_oldest(ts@);
    }
    m
}

impl CollectionStats {
    /// The statistics of a collection of `num_points` points of `dimension`
    /// components, indexed with `m` links per point, whose points were
    /// created at the times `created_at`: the index size is estimated as
    /// 4 bytes per component plus 8 bytes per link, and the last update is
    /// the newest creation time (the current time when there is no point).
    pub fn from_parts(num_points: usize, dimension: usize, m: usize, created_at: &Vec<u64>) -> (s: Self)
        requires
            num_points * dimension * 4 + num_points * m * 8 <= usize::MAX,
        ensures
            s.num_points == num_points,
            s.index_size_bytes == num_points * dimension * 4 + num_points * m * 8,
            created_at@.len() > 0 ==> s.last_updated == max_of(created_at@),
            forall|i: int| 0 <= i < created_at@.len() ==> created_at@[i] <= s.last_updated,
            created_at@.len() > 0 ==> exists|i: int|
                0 <= i < created_at@.len() && created_at@[i] == s.last_updated,
    {
        let index_size_bytes = crate::reindex::estimate_index_size(num_points, dimension, m);
        let last_updated = if created_at.len() > 0 {
            max_timestamp(created_at)
        } else {
            unix_now()
        };
        CollectionStats { num_points, index_size_bytes, last_updated }
    }
}

impl CollectionInfo {
    /// The listing entry of a collection whose points were created at the
    /// times `created_at`: created when its oldest point was (0 when it
    /// has none).
    pub fn from_parts(name: String, dimension: usize, num_points: usize, created_at: &Vec<u64>) -> (i: Self)
        ensures
            i.name == name,
            i.dimension == dimension,
            i.num_points == num_points,
            i.created_at == (if created_at@.len() > 0 {
                min_of(created_at@)
            } else {
                0
            }),
            forall|k: int| 0 <= k < created_at@.len() ==> i.created_at <= created_at@[k],
            created_at@.len() > 0 ==> exists|k: int|
                0 <= k < created_at@.len() && created_at@[k] == i.created_at,
    {
        let created = if created_at.len() > 0 {
            min_timestamp(created_at)
        } else {
            0
        };
        CollectionInfo { name, dimension, num_points, created_at: created }
    }
}

/// Checks a request to create collection `name` of `dimension`
/// components, where `exists` tells whether a collection of that name is
/// already there: that is `CollectionAlreadyExists(name)`; otherwise a
/// dimension of 0 is `InvalidVector`.
pub fn validate_new_collection(exists: bool, name: &str, dimension: usize) -> (r: Result<(), FerresError>)
    ensures
        exists ==> (r matches Err(FerresError::CollectionAlreadyExists(n)) && n@ == name@),
        !exists && dimension == 0 ==> (r matches Err(FerresError::InvalidVector { reason })
            && reason@ == "dimension must be greater than 0"@),
        !exists && dimension > 0 ==> r is Ok,
{
    if exists {
        return Err(FerresError::CollectionAlreadyExists(name.to_owned()));
    }
    if dimension == 0 {
        return Err(FerresError::InvalidVector { reason: "dimension must be greater than 0".to_owned() });
    }
    Ok(())
}

/// `parts` joined with `", "`.
pub open spec fn join_comma(parts: Seq<Seq<char>>) -> Seq<char>
    decreases parts.len(),
{
    if parts.len() == 0 {
        Seq::empty()
    } else if parts.len() == 1 {
        parts[0]
    } else {
        join_comma(parts.drop_last()) + ", "@ + parts.last()
    }
}

/// The outcome of deleting `requested` points, after every deletion was
/// tried, where the ids in `not_found` did not exist: when any of them was
/// missing, `PointNotFound` naming the missing ones; otherwise the number
/// deleted (all of them).
pub fn deletion_outcome(requested: usize, not_found: &Vec<String>) -> (r: Result<usize, FerresError>)
    requires
        not_found@.len() <= requested,
    ensures
        not_found@.len() > 0 ==> (r matches Err(FerresError::PointNotFound(m)) && m@ == join_comma(
            string_views(not_found@),
        )),
        not_found@.len() == 0 ==> r == Ok::<usize, FerresError>(requested),
{
    if not_found.len() > 0 {
        let ghost v = string_views(not_found@);
        let mut m = String::new();
        let mut i: usize = 0;
        while i < not_found.len()
            invariant
                i <= not_found@.len(),
                v == string_views(not_found@),
                m@ == join_comma(v.take(i as int)),
            decreases not_found@.len() - i,
        {
            proof {
                assert(v.take(i + 1).drop_last() =~= v.take(i as int));
                assert(v.take(i + 1).last() == not_found@[i as int]@);
            }
            if i > 0 {
                push_str(&mut m, ", ");
            } else {
                proof {
                    assert(m@ =~= Seq::<char>::empty());
                    assert(v.take(1)[0] == not_found@[0]@);
                }
            }
            push_str(&mut m, not_found[i].as_str());
            proof {
                if i == 0 {
                    assert(m@ =~= v.take(1)[0]);
                }
            }
            i += 1;
        }
        proof {
            assert(v.take(not_found@.len() as int) =~= v);
        }
        return Err(FerresError::PointNotFound(m));
    }
    Ok(requested)
}

} // verus!
