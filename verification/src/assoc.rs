//! Association lists keyed by strings: the mathematical facts that let the
//! engine keep its string-keyed tables in plain vectors and reason about
//! them as maps.
use vstd::prelude::*;

verus! {

/// No key occurs twice in the list.
pub open spec fn keys_distinct<V>(s: Seq<(Seq<char>, V)>) -> bool {
    forall|i: int, j: int| 0 <= i < s.len() && 0 <= j < s.len() && i != j ==> s[i].0 != s[j].0
}

/// Some entry of the list has key `k`.
pub open spec fn has_key<V>(s: Seq<(Seq<char>, V)>, k: Seq<char>) -> bool {
    exists|i: int| 0 <= i < s.len() && s[i].0 == k
}

/// The map that the list denotes (a later entry wins over an earlier one).
pub open spec fn to_map<V>(s: Seq<(Seq<char>, V)>) -> Map<Seq<char>, V>
    decreases s.len(),
{
    if s.len() == 0 {
        Map::empty()
    } else {
        to_map(s.drop_last()).insert(s.last().0, s.last().1)
    }
}

pub proof fn lemma_to_map_dom<V>(s: Seq<(Seq<char>, V)>)
    ensures
        to_map(s).dom().finite(),
        forall|k: Seq<char>| #[trigger] to_map(s).contains_key(k) <==> has_key(s, k),
    decreases s.len(),
{
    if s.len() > 0 {
        let p = s.drop_last();
        lemma_to_map_dom(p);
        assert forall|k: Seq<char>| #[trigger] to_map(s).contains_key(k) <==> has_key(s, k) by {
            if has_key(s, k) {
                let i = choose|i: int| 0 <= i < s.len() && s[i].0 == k;
                if i < s.len() - 1 {
                    assert(p[i].0 == k);
                }
            }
            if to_map(s).contains_key(k) && k != s.last().0 {
                let i = choose|i: int| 0 <= i < p.len() && p[i].0 == k;
                assert(s[i].0 == k);
            }
            if k == s.last().0 {
                assert(s[s.len() - 1].0 == k);
            }
        }
    }
}

pub proof fn lemma_to_map_index<V>(s: Seq<(Seq<char>, V)>, i: int)
    requires
        keys_distinct(s),
        0 <= i < s.len(),
    ensures
        to_map(s).contains_key(s[i].0),
        to_map(s)[s[i].0] == s[i].1,
    decreases s.len(),
{
    if i < s.len() - 1 {
        let p = s.drop_last();
        assert(keys_distinct(p));
        lemma_to_map_index(p, i);
        assert(p[i] == s[i]);
        assert(s[i].0 != s.last().0);
    }
}

pub proof fn lemma_to_map_remove<V>(s: Seq<(Seq<char>, V)>, i: int)
    requires
        keys_distinct(s),
        0 <= i < s.len(),
    ensures
        keys_distinct(s.remove(i)),
        to_map(s.remove(i)) =~= to_map(s).remove(s[i].0),
    decreases s.len(),
{
    let r = s.remove(i);
    assert(keys_distinct(r)) by {
        assert forall|a: int, b: int| 0 <= a < r.len() && 0 <= b < r.len() && a != b implies r[a].0 != r[b].0 by {
            let sa = if a < i { a } else { a + 1 };
            let sb = if b < i { b } else { b + 1 };
            assert(r[a] == s[sa]);
            assert(r[b] == s[sb]);
        }
    }
    lemma_to_map_dom(s);
    lemma_to_map_dom(r);
    assert forall|k: Seq<char>| #[trigger] to_map(r).contains_key(k) <==> to_map(s).remove(s[i].0).contains_key(k) by {
        if has_key(r, k) {
            let a = choose|a: int| 0 <= a < r.len() && r[a].0 == k;
            let sa = if a < i { a } else { a + 1 };
            assert(r[a] == s[sa]);
            assert(has_key(s, k));
        }
        if has_key(s, k) && k != s[i].0 {
            let b = choose|b: int| 0 <= b < s.len() && s[b].0 == k;
            let ra = if b < i { b } else { b - 1 };
            assert(r[ra] == s[b]);
            assert(has_key(r, k));
        }
    }
    assert forall|k: Seq<char>| #[trigger] to_map(r).contains_key(k) implies to_map(r)[k] == to_map(s)[k] by {
        let a = choose|a: int| 0 <= a < r.len() && r[a].0 == k;
        let sa = if a < i { a } else { a + 1 };
        assert(r[a] == s[sa]);
        lemma_to_map_index(r, a);
        lemma_to_map_index(s, sa);
    }
}

pub proof fn lemma_to_map_update<V>(s: Seq<(Seq<char>, V)>, i: int, v: V)
    requires
        keys_distinct(s),
        0 <= i < s.len(),
    ensures
        keys_distinct(s.update(i, (s[i].0, v))),
        to_map(s.update(i, (s[i].0, v))) =~= to_map(s).insert(s[i].0, v),
{
    let u = s.update(i, (s[i].0, v));
    assert(keys_distinct(u)) by {
        assert forall|a: int, b: int| 0 <= a < u.len() && 0 <= b < u.len() && a != b implies u[a].0 != u[b].0 by {
            assert(u[a].0 == s[a].0);
            assert(u[b].0 == s[b].0);
        }
    }
    lemma_to_map_dom(s);
    lemma_to_map_dom(u);
    assert forall|k: Seq<char>| #[trigger] to_map(u).contains_key(k) <==> to_map(s).insert(s[i].0, v).contains_key(k) by {
        if has_key(u, k) {
            let a = choose|a: int| 0 <= a < u.len() && u[a].0 == k;
            assert(s[a].0 == k);
        }
        if has_key(s, k) {
            let a = choose|a: int| 0 <= a < s.len() && s[a].0 == k;
            assert(u[a].0 == k);
        }
        assert(u[i].0 == s[i].0);
    }
    assert forall|k: Seq<char>| #[trigger] to_map(u).contains_key(k) implies to_map(u)[k] == to_map(s).insert(s[i].0, v)[k] by {
        let a = choose|a: int| 0 <= a < u.len() && u[a].0 == k;
        lemma_to_map_index(u, a);
        if a != i {
            lemma_to_map_index(s, a);
        }
    }
}

pub proof fn lemma_to_map_push<V>(s: Seq<(Seq<char>, V)>, k: Seq<char>, v: V)
    requires
        keys_distinct(s),
        !has_key(s, k),
    ensures
        keys_distinct(s.push((k, v))),
        to_map(s.push((k, v))) == to_map(s).insert(k, v),
{
    let t = s.push((k, v));
    assert(t.drop_last() =~= s);
    assert(keys_distinct(t)) by {
        assert forall|a: int, b: int| 0 <= a < t.len() && 0 <= b < t.len() && a != b implies t[a].0 != t[b].0 by {
            if a < s.len() && b < s.len() {
                assert(t[a] == s[a] && t[b] == s[b]);
            } else if a < s.len() {
                assert(t[a] == s[a]);
            } else {
                assert(t[b] == s[b]);
            }
        }
    }
}

} // verus!

verus! {

pub proof fn lemma_to_map_len<V>(s: Seq<(Seq<char>, V)>)
    requires
        keys_distinct(s),
    ensures
        to_map(s).len() == s.len(),
    decreases s.len(),
{
    if s.len() > 0 {
        let p = s.drop_last();
        assert(keys_distinct(p));
        lemma_to_map_len(p);
        lemma_to_map_dom(p);
        assert(!has_key(p, s.last().0)) by {
            if has_key(p, s.last().0) {
                let i = choose|i: int| 0 <= i < p.len() && p[i].0 == s.last().0;
                assert(s[i].0 == s[s.len() - 1].0);
            }
        }
    }
}

} // verus!

verus! {

/// The (key, value) pairs of a list of string-keyed entries.
pub open spec fn kv_pairs<V>(s: Seq<(String, V)>) -> Seq<(Seq<char>, V)> {
    s.map_values(|p: (String, V)| (p.0@, p.1))
}

/// The map that a list of string-keyed entries denotes.
pub open spec fn kv_map<V>(s: Seq<(String, V)>) -> Map<Seq<char>, V> {
    to_map(kv_pairs(s))
}

/// Position of key `k` in `v`, if any.
pub fn kv_find<V>(v: &Vec<(String, V)>, k: &String) -> (r: Option<usize>)
    requires
        keys_distinct(kv_pairs(v@)),
    ensures
        match r {
            Some(i) => i < v.len() && v@[i as int].0@ == k@ && kv_map(v@).contains_key(k@)
                && kv_map(v@)[k@] == v@[i as int].1,
            None => !kv_map(v@).contains_key(k@),
        },
{
    proof {
        lemma_to_map_dom(kv_pairs(v@));
    }
    let mut i: usize = 0;
    while i < v.len()
        invariant
            keys_distinct(kv_pairs(v@)),
            i <= v.len(),
            forall|j: int| 0 <= j < i ==> v@[j].0@ != k@,
        decreases v.len() - i,
    {
        if v[i].0 == *k {
            proof {
                lemma_to_map_index(kv_pairs(v@), i as int);
            }
            return Some(i);
        }
        i += 1;
    }
    proof {
        if has_key(kv_pairs(v@), k@) {
            let j = choose|j: int| 0 <= j < kv_pairs(v@).len() && kv_pairs(v@)[j].0 == k@;
            assert(v@[j].0@ == k@);
        }
    }
    None
}

/// The value under key `k`, if any.
pub fn kv_get<V: Copy>(v: &Vec<(String, V)>, k: &String) -> (r: Option<V>)
    requires
        keys_distinct(kv_pairs(v@)),
    ensures
        match r {
            Some(x) => kv_map(v@).contains_key(k@) && kv_map(v@)[k@] == x,
            None => !kv_map(v@).contains_key(k@),
        },
{
    match kv_find(v, k) {
        Some(i) => Some(v[i].1),
        None => None,
    }
}

/// Sets key `k` to `x`.
pub fn kv_upsert<V>(v: &mut Vec<(String, V)>, k: String, x: V)
    requires
        keys_distinct(kv_pairs(old(v)@)),
    ensures
        keys_distinct(kv_pairs(final(v)@)),
        kv_map(final(v)@) == kv_map(old(v)@).insert(k@, x),
{
    let ghost p = kv_pairs(v@);
    let ghost kv = k@;
    match kv_find(v, &k) {
        Some(i) => {
            let ghost xi = x;
            v.set(i, (k, x));
            proof {
                assert(kv_pairs(v@) =~= p.update(i as int, (p[i as int].0, xi)));
                lemma_to_map_update(p, i as int, xi);
            }
        },
        None => {
            proof {
                lemma_to_map_dom(p);
            }
            let ghost xi = x;
            v.push((k, x));
            proof {
                assert(kv_pairs(v@) =~= p.push((kv, xi)));
                lemma_to_map_push(p, kv, xi);
            }
        },
    }
}

/// Removes key `k`, if present.
pub fn kv_remove<V>(v: &mut Vec<(String, V)>, k: &String)
    requires
        keys_distinct(kv_pairs(old(v)@)),
    ensures
        keys_distinct(kv_pairs(final(v)@)),
        kv_map(final(v)@) == kv_map(old(v)@).remove(k@),
{
    let ghost p = kv_pairs(v@);
    match kv_find(v, k) {
        Some(i) => {
            v.remove(i);
            proof {
                assert(kv_pairs(v@) =~= p.remove(i as int));
                lemma_to_map_remove(p, i as int);
            }
        },
        None => {
            proof {
                assert(kv_map(v@) =~= kv_map(v@).remove(k@));
            }
        },
    }
}

} // verus!
