//! Points: their storage keys, the checks a new point must pass, which
//! vector a search field names, and when a point has expired.
//!
//! A point is stored under its id, or, when it belongs to a namespace
//! (multitenancy), under `namespace`, a NUL character, then the id.
use crate::bm25::string_views;
use crate::error::FerresError;
use crate::text::{push_str, str_chars, string_from_chars};
use vstd::prelude::*;

verus! {

/// The storage key of a point with namespace `ns` and id `id`.
pub open spec fn storage_key(ns: Option<Seq<char>>, id: Seq<char>) -> Seq<char> {
    match ns {
        Some(n) => n + seq!['\0'] + id,
        None => id,
    }
}

/// `s` holds no NUL character.
pub open spec fn nul_free(s: Seq<char>) -> bool {
    forall|i: int| 0 <= i < s.len() ==> s[i] != '\0'
}

/// The (namespace, id) that a storage key denotes: split at the first NUL,
/// or no namespace if there is none.
pub open spec fn split_key(s: Seq<char>) -> (Option<Seq<char>>, Seq<char>) {
    if nul_free(s) {
        (None, s)
    } else {
        let p = choose|p: int| 0 <= p < s.len() && s[p] == '\0' && nul_free(s.take(p));
        (Some(s.take(p)), s.skip(p + 1))
    }
}

/// Builds the storage key from a namespace and an id.
pub fn storage_id_from_parts(namespace: Option<&str>, id: &str) -> (key: String)
    ensures
        key@ == storage_key(
            match namespace {
                Some(n) => Some(n@),
                None => None,
            },
            id@,
        ),
{
    match namespace {
        Some(n) => {
            let mut s = n.to_owned();
            push_str(&mut s, "\0");
            push_str(&mut s, id);
            proof {
                reveal_strlit("\0");
                assert(s@ =~= n@ + seq!['\0'] + id@);
            }
            s
        },
        None => id.to_owned(),
    }
}

/// Splits a storage key into (namespace, id): at the first NUL if there is
/// one, otherwise the whole key is the id.
pub fn parse_storage_id(storage_id: &str) -> (r: (Option<String>, String))
    ensures
        (match r.0 {
            Some(n) => Some(n@),
            None => None,
        }, r.1@) == split_key(storage_id@),
{
    let cs = str_chars(storage_id);
    let mut p: usize = 0;
    while p < cs.len()
        invariant
            p <= cs.len(),
            cs@ == storage_id@,
            nul_free(cs@.take(p as int)),
        ensures
            p <= cs.len(),
            cs@ == storage_id@,
            nul_free(cs@.take(p as int)),
            p < cs.len() ==> cs@[p as int] == '\0',
        decreases cs.len() - p,
    {
        if cs[p] == '\0' {
            break;
        }
        proof {
            assert(cs@.take(p + 1) =~= cs@.take(p as int).push(cs@[p as int]));
        }
        p += 1;
    }
    if p == cs.len() {
        proof {
            assert(cs@.take(p as int) =~= cs@);
        }
        (None, storage_id.to_owned())
    } else {
        let mut ns: Vec<char> = Vec::new();
        let mut i: usize = 0;
        while i < p
            invariant
                i <= p,
                p < cs.len(),
                ns@ == cs@.take(i as int),
            decreases p - i,
        {
            ns.push(cs[i]);
            proof {
                assert(cs@.take(i + 1) =~= cs@.take(i as int).push(cs@[i as int]));
            }
            i += 1;
        }
        let mut rest: Vec<char> = Vec::new();
        let mut j: usize = p + 1;
        while j < cs.len()
            invariant
                p < j <= cs.len(),
                rest@ == cs@.subrange(p + 1, j as int),
            decreases cs.len() - j,
        {
            rest.push(cs[j]);
            proof {
                assert(cs@.subrange(p + 1, j + 1) =~= cs@.subrange(p + 1, j as int).push(cs@[j as int]));
            }
            j += 1;
        }
        proof {
            let s = cs@;
            assert(s[p as int] == '\0');
            assert(!nul_free(s));
            let q = choose|q: int| 0 <= q < s.len() && s[q] == '\0' && nul_free(s.take(q));
            if q < p {
                assert(s.take(p as int)[q] == '\0');
            }
            if p < q {
                assert(s.take(q)[p as int] == '\0');
            }
            assert(q == p);
            assert(rest@ =~= s.skip(p + 1));
        }
        (Some(string_from_chars(&ns)), string_from_chars(&rest))
    }
}

/// Splitting the key built from a namespace and an id gives them back,
/// provided the namespace (or, without one, the id) holds no NUL.
pub proof fn law_storage_id_roundtrip(ns: Option<Seq<char>>, id: Seq<char>)
    requires
        match ns {
            Some(n) => nul_free(n),
            None => nul_free(id),
        },
    ensures
        split_key(storage_key(ns, id)) == (ns, id),
{
    match ns {
        None => {},
        Some(n) => {
            let s = n + seq!['\0'] + id;
            let p = n.len() as int;
            assert(s[p] == '\0');
            assert(s.take(p) =~= n);
            assert(!nul_free(s));
            let q = choose|q: int| 0 <= q < s.len() && s[q] == '\0' && nul_free(s.take(q));
            if q < p {
                assert(s[q] == n[q]);
            }
            if p < q {
                assert(s.take(q)[p] == '\0');
            }
            assert(q == p);
            assert(s.skip(p + 1) =~= id);
        },
    }
}

// ─── Validation, fields and expiry ──────────────────────────────────

/// Checks the id and the vector length of a new point: the id must not be
/// empty (`InvalidPointId`), then the vector must have a component
/// (`EmptyVector`). Whether the components are finite is checked by the
/// caller, after this.
pub fn validate_point_shape(id: &str, vector_len: usize) -> (r: Result<(), FerresError>)
    ensures
        id@.len() == 0 ==> (r matches Err(FerresError::InvalidPointId(m))
            && m@ == "point id cannot be empty"@),
        id@.len() > 0 && vector_len == 0 ==> r matches Err(FerresError::EmptyVector),
        id@.len() > 0 && vector_len > 0 ==> r is Ok,
{
    if id.is_empty() {
        return Err(FerresError::InvalidPointId("point id cannot be empty".to_owned()));
    }
    if vector_len == 0 {
        return Err(FerresError::EmptyVector);
    }
    Ok(())
}

/// Checks that a vector of `got` components fits a collection of
/// dimension `expected`; otherwise `DimensionMismatch`.
pub fn validate_dimension(expected: usize, got: usize) -> (r: Result<(), FerresError>)
    ensures
        got == expected ==> r is Ok,
        got != expected ==> r == Err::<(), FerresError>(FerresError::DimensionMismatch { expected, got }),
{
    if got != expected {
        return Err(FerresError::DimensionMismatch { expected, got });
    }
    Ok(())
}

/// A search field that names a point's main vector: no field, or
/// `"default"`.
pub open spec fn is_main_field(field: Option<Seq<char>>) -> bool {
    match field {
        None => true,
        Some(f) => f == "default"@,
    }
}

/// Whether `field` names the main vector of a point (otherwise it names
/// one of its named vectors).
pub fn names_main_vector(field: Option<&str>) -> (b: bool)
    ensures
        b == is_main_field(
            match field {
                Some(f) => Some(f@),
                None => None,
            },
        ),
{
    match field {
        None => true,
        Some(f) => {
            let owned = f.to_owned();
            let d = "default".to_owned();
            owned == d
        },
    }
}

/// A point with expiry time `expires_at` has expired at time `now`: it
/// has an expiry time and that time is before `now`.
pub open spec fn has_expired(expires_at: Option<u64>, now: u64) -> bool {
    match expires_at {
        Some(e) => e < now,
        None => false,
    }
}

/// The ids of the points, given with their expiry times, that have expired
/// at time `now`, in the order given.
pub open spec fn expired_ids(points: Seq<(Seq<char>, Option<u64>)>, now: u64) -> Seq<Seq<char>>
    decreases points.len(),
{
    if points.len() == 0 {
        Seq::empty()
    } else {
        let prev = expired_ids(points.drop_last(), now);
        if has_expired(points.last().1, now) {
            prev.push(points.last().0)
        } else {
            prev
        }
    }
}

/// The points with their ids viewed as character sequences.
pub open spec fn expiry_views(v: Seq<(String, Option<u64>)>) -> Seq<(Seq<char>, Option<u64>)> {
    v.map_values(|p: (String, Option<u64>)| (p.0@, p.1))
}

/// The ids of the expired points at time `now` (points without an expiry
/// time never expire).
pub fn expired_points(points: &Vec<(String, Option<u64>)>, now: u64) -> (ids: Vec<String>)
    ensures
        string_views(ids@) == expired_ids(expiry_views(points@), now),
{
    let ghost pv = expiry_views(points@);
    let mut ids: Vec<String> = Vec::new();
    let mut i: usize = 0;
    while i < points.len()
        invariant
            i <= points.len(),
            pv == expiry_views(points@),
            string_views(ids@) == expired_ids(pv.take(i as int), now),
        decreases points.len() - i,
    {
        proof {
            assert(pv.take(i + 1).drop_last() =~= pv.take(i as int));
            assert(pv.take(i + 1).last() == (points@[i as int].0@, points@[i as int].1));
        }
        let expired = match points[i].1 {
            Some(e) => e < now,
            None => false,
        };
        if expired {
            let ghost before = ids@;
            ids.push(points[i].0.clone());
            proof {
                assert(string_views(ids@) =~= string_views(before).push(points@[i as int].0@));
            }
        }
        i += 1;
    }
    proof {
        assert(pv.take(points.len() as int) =~= pv);
    }
    ids
}

/// A point without an expiry time is never among the expired ones, and a
/// point listed as expired has an expiry time before `now`.
pub proof fn law_only_past_expiry_is_vacuumed(points: Seq<(Seq<char>, Option<u64>)>, now: u64)
    requires
        forall|i: int, j: int|
            0 <= i < j < points.len() ==> points[i].0 != points[j].0,
    ensures
        forall|i: int|
            0 <= i < points.len() ==> (expired_ids(points, now).contains(#[trigger] points[i].0)
                <==> has_expired(points[i].1, now)),
    decreases points.len(),
{
    if points.len() > 0 {
        let p = points.drop_last();
        law_only_past_expiry_is_vacuumed(p, now);
        lemma_expired_ids_subset(p, now);
        let last = points.last();
        assert forall|i: int|
            0 <= i < points.len() implies (expired_ids(points, now).contains(#[trigger] points[i].0)
                <==> has_expired(points[i].1, now)) by {
            if i < points.len() - 1 {
                assert(p[i] == points[i]);
                assert(points[i].0 != last.0);
                if has_expired(last.1, now) {
                    assert(expired_ids(points, now) == expired_ids(p, now).push(last.0));
                    if expired_ids(points, now).contains(points[i].0) {
                        let k = choose|k: int| 0 <= k < expired_ids(points, now).len() && expired_ids(points, now)[k] == points[i].0;
                        if k < expired_ids(p, now).len() {
                            assert(expired_ids(p, now)[k] == points[i].0);
                        }
                    }
                    if expired_ids(p, now).contains(points[i].0) {
                        let k = choose|k: int| 0 <= k < expired_ids(p, now).len() && expired_ids(p, now)[k] == points[i].0;
                        assert(expired_ids(points, now)[k] == points[i].0);
                    }
                }
            } else {
                if has_expired(last.1, now) {
                    assert(expired_ids(points, now)[expired_ids(p, now).len() as int] == last.0);
                } else {
                    if expired_ids(p, now).contains(last.0) {
                        let k = choose|k: int| 0 <= k < expired_ids(p, now).len() && expired_ids(p, now)[k] == last.0;
                        let j = choose|j: int| 0 <= j < p.len() && p[j].0 == expired_ids(p, now)[k];
                        assert(points[j].0 == last.0);
                    }
                }
            }
        }
    }
}

/// Every expired id is the id of one of the points.
proof fn lemma_expired_ids_subset(points: Seq<(Seq<char>, Option<u64>)>, now: u64)
    ensures
        forall|k: int|
            0 <= k < expired_ids(points, now).len() ==> exists|j: int|
                0 <= j < points.len() && points[j].0 == #[trigger] expired_ids(points, now)[k],
    decreases points.len(),
{
    if points.len() > 0 {
        let p = points.drop_last();
        lemma_expired_ids_subset(p, now);
        assert forall|k: int|
            0 <= k < expired_ids(points, now).len() implies exists|j: int|
                0 <= j < points.len() && points[j].0 == #[trigger] expired_ids(points, now)[k] by {
            if k < expired_ids(p, now).len() {
                let j = choose|j: int| 0 <= j < p.len() && p[j].0 == expired_ids(p, now)[k];
                assert(points[j].0 == expired_ids(points, now)[k]);
            } else {
                assert(points[points.len() - 1].0 == expired_ids(points, now)[k]);
            }
        }
    }
}

} // verus!
