//! The search cache of a collection: recent unfiltered search results,
//! kept in an LRU cache of the `lru` crate and emptied whenever the
//! collection changes.
//!
//! A search is keyed by the hash of its query vector (computed by the
//! caller from the vector's bits), the number of results asked for, and
//! the named vector field searched (`None` for the main vector). Results
//! are storage ids with the bits of their floating-point scores.
use lru::LruCache;
use vstd::prelude::*;

verus! {

#[verifier::external_type_specification]
#[verifier::external_body]
#[verifier::reject_recursive_types(K)]
#[verifier::reject_recursive_types(V)]
#[verifier::reject_recursive_types(S)]
pub struct ExLruCache<K, V, S>(LruCache<K, V, S>);

#[verifier::external_type_specification]
#[verifier::external_body]
pub struct ExLruHasher(lru::DefaultHasher);

/// What a search cache holds: search key → results, as plain values.
pub type CacheEntries = Map<(u64, usize, Option<Seq<char>>), Seq<(Seq<char>, u32)>>;

/// A cache key as the cache compares it.
pub open spec fn key_view(k: (u64, usize, Option<String>)) -> (u64, usize, Option<Seq<char>>) {
    (
        k.0,
        k.1,
        match k.2 {
            Some(s) => Some(s@),
            None => None,
        },
    )
}

/// Cached results as plain values.
pub open spec fn results_view(v: Seq<(String, u32)>) -> Seq<(Seq<char>, u32)> {
    v.map_values(|p: (String, u32)| (p.0@, p.1))
}

/// The entries that an LRU cache holds: key → results.
pub uninterp spec fn lru_entries(c: LruCache<(u64, usize, Option<String>), Vec<(String, u32)>>) -> Map<
    (u64, usize, Option<Seq<char>>),
    Seq<(Seq<char>, u32)>,
>;

/// The capacity that an LRU cache was made with.
pub uninterp spec fn lru_capacity(c: LruCache<(u64, usize, Option<String>), Vec<(String, u32)>>) -> nat;

/// The entries after putting `v` under `k` into a cache of capacity `cap`
/// holding `old`: where `k` is held or the cache is not full, `k` is set;
/// otherwise one entry (the least recently used) leaves and `k` is set.
pub open spec fn put_outcome(
    old: Map<(u64, usize, Option<Seq<char>>), Seq<(Seq<char>, u32)>>,
    new: Map<(u64, usize, Option<Seq<char>>), Seq<(Seq<char>, u32)>>,
    k: (u64, usize, Option<Seq<char>>),
    v: Seq<(Seq<char>, u32)>,
    cap: nat,
) -> bool {
    if old.contains_key(k) || old.len() < cap {
        new == old.insert(k, v)
    } else {
        exists|e: (u64, usize, Option<Seq<char>>)|
            old.contains_key(e) && new == old.remove(e).insert(k, v)
    }
}

/// Calls `LruCache::new` with capacity `cap`: an empty cache of that
/// capacity.
#[verifier::external_body]
fn lru_new(cap: usize) -> (c: LruCache<(u64, usize, Option<String>), Vec<(String, u32)>>)
    requires
        cap > 0,
    ensures
        lru_entries(c) == CacheEntries::empty(),
        lru_capacity(c) == cap,
{
    LruCache::new(std::num::NonZeroUsize::new(cap).unwrap())
}

/// Calls `LruCache::get` and clones the results found: the entry under
/// `k`, if any. The entries stay the same (only their recency changes).
#[verifier::external_body]
fn lru_get(
    c: &mut LruCache<(u64, usize, Option<String>), Vec<(String, u32)>>,
    k: &(u64, usize, Option<String>),
) -> (r: Option<Vec<(String, u32)>>)
    ensures
        lru_entries(*final(c)) == lru_entries(*old(c)),
        lru_capacity(*final(c)) == lru_capacity(*old(c)),
        match r {
            Some(v) => lru_entries(*old(c)).contains_key(key_view(*k)) && results_view(v@)
                == lru_entries(*old(c))[key_view(*k)],
            None => !lru_entries(*old(c)).contains_key(key_view(*k)),
        },
{
    c.get(k).cloned()
}

/// Calls `LruCache::put`: sets `k` to `v`, evicting the least recently
/// used entry when `k` is new and the cache is full.
#[verifier::external_body]
fn lru_put(
    c: &mut LruCache<(u64, usize, Option<String>), Vec<(String, u32)>>,
    k: (u64, usize, Option<String>),
    v: Vec<(String, u32)>,
)
    ensures
        put_outcome(
            lru_entries(*old(c)),
            lru_entries(*final(c)),
            key_view(k),
            results_view(v@),
            lru_capacity(*old(c)),
        ),
        lru_capacity(*final(c)) == lru_capacity(*old(c)),
{
    c.put(k, v);
}

/// Calls `LruCache::clear`: no entry is left.
#[verifier::external_body]
fn lru_clear(c: &mut LruCache<(u64, usize, Option<String>), Vec<(String, u32)>>)
    ensures
        lru_entries(*final(c)) == CacheEntries::empty(),
        lru_capacity(*final(c)) == lru_capacity(*old(c)),
{
    c.clear();
}

/// A collection's search cache (absent when its size is zero) with its hit
/// and miss counters.
pub struct SearchCache {
    cache: Option<LruCache<(u64, usize, Option<String>), Vec<(String, u32)>>>,
    hits: u64,
    misses: u64,
}

/// `new` is `old` after looking up `key` with result `r`: without a cache
/// nothing is found or counted; with one, the entry under `key` is
/// returned and a hit counted, or a miss is counted.
pub open spec fn looked_up(
    old: SearchCache,
    new: SearchCache,
    key: (u64, usize, Option<String>),
    r: Option<Vec<(String, u32)>>,
) -> bool {
    &&& new.entries() == old.entries()
    &&& new.capacity() == old.capacity()
    &&& match old.entries() {
        None => r is None && new.hit_count() == old.hit_count() && new.miss_count() == old.miss_count(),
        Some(m) => match r {
            Some(v) => m.contains_key(key_view(key)) && results_view(v@) == m[key_view(key)]
                && new.hit_count() == old.hit_count().wrapping_add(1) && new.miss_count()
                == old.miss_count(),
            None => !m.contains_key(key_view(key)) && new.miss_count() == old.miss_count().wrapping_add(
                1,
            ) && new.hit_count() == old.hit_count(),
        },
    }
}

/// `new` is `old` after storing `results` for `key`.
pub open spec fn stored_in(
    old: SearchCache,
    new: SearchCache,
    key: (u64, usize, Option<String>),
    results: Vec<(String, u32)>,
) -> bool {
    &&& new.capacity() == old.capacity()
    &&& new.hit_count() == old.hit_count()
    &&& new.miss_count() == old.miss_count()
    &&& match old.entries() {
        None => new.entries() is None,
        Some(m) => new.entries() matches Some(n) && put_outcome(
            m,
            n,
            key_view(key),
            results_view(results@),
            old.capacity(),
        ),
    }
}

/// `new` is `old` emptied.
pub open spec fn emptied(old: SearchCache, new: SearchCache) -> bool {
    &&& new.capacity() == old.capacity()
    &&& new.hit_count() == old.hit_count()
    &&& new.miss_count() == old.miss_count()
    &&& match old.entries() {
        None => new.entries() is None,
        Some(_) => new.entries() == Some(CacheEntries::empty()),
    }
}

impl SearchCache {
    /// The cached entries, when the collection keeps a cache.
    pub closed spec fn entries(&self) -> Option<Map<(u64, usize, Option<Seq<char>>), Seq<(Seq<char>, u32)>>> {
        match self.cache {
            Some(c) => Some(lru_entries(c)),
            None => None,
        }
    }

    /// The cache's capacity (0 when there is none).
    pub closed spec fn capacity(&self) -> nat {
        match self.cache {
            Some(c) => lru_capacity(c),
            None => 0,
        }
    }

    /// Lookups answered from the cache.
    pub closed spec fn hit_count(&self) -> u64 {
        self.hits
    }

    /// Lookups the cache could not answer.
    pub closed spec fn miss_count(&self) -> u64 {
        self.misses
    }

    /// A cache of `size` entries; none at all when `size` is 0.
    pub fn new(size: usize) -> (c: Self)
        ensures
            size == 0 ==> c.entries() is None,
            size > 0 ==> c.entries() == Some(
                CacheEntries::empty(),
            ),
            c.capacity() == size,
            c.hit_count() == 0,
            c.miss_count() == 0,
    {
        let cache = if size > 0 {
            Some(lru_new(size))
        } else {
            None
        };
        SearchCache { cache, hits: 0, misses: 0 }
    }

    /// The cached results of the search `key`. Without a cache nothing is
    /// found and nothing counted; with one, a hit or a miss is counted
    /// (the counters wrap around as atomic counters do).
    pub fn lookup(&mut self, key: &(u64, usize, Option<String>)) -> (r: Option<Vec<(String, u32)>>)
        ensures
            looked_up(*old(self), *final(self), *key, r),
    {
        match &mut self.cache {
            None => None,
            Some(c) => {
                let r = lru_get(c, key);
                match r {
                    Some(_) => {
                        self.hits = self.hits.wrapping_add(1);
                    },
                    None => {
                        self.misses = self.misses.wrapping_add(1);
                    },
                }
                r
            },
        }
    }

    /// Keeps `results` as the answer to the search `key`, when there is a
    /// cache.
    pub fn store(&mut self, key: (u64, usize, Option<String>), results: Vec<(String, u32)>)
        ensures
            stored_in(*old(self), *final(self), key, results),
    {
        match &mut self.cache {
            None => {},
            Some(c) => {
                lru_put(c, key, results);
            },
        }
    }

    /// Forgets every cached result (after the collection changes).
    pub fn invalidate(&mut self)
        ensures
            emptied(*old(self), *final(self)),
    {
        match &mut self.cache {
            None => {},
            Some(c) => {
                lru_clear(c);
            },
        }
    }

    /// Lookups answered from the cache.
    pub fn hits(&self) -> (n: u64)
        ensures
            n == self.hit_count(),
    {
        self.hits
    }

    /// Lookups the cache could not answer.
    pub fn misses(&self) -> (n: u64)
        ensures
            n == self.miss_count(),
    {
        self.misses
    }
}

/// A stored search is found again: after putting `v` under `k`, the
/// cache holds `v` under `k`, whatever it evicted.
pub proof fn law_stored_results_are_found(
    old: Map<(u64, usize, Option<Seq<char>>), Seq<(Seq<char>, u32)>>,
    new: Map<(u64, usize, Option<Seq<char>>), Seq<(Seq<char>, u32)>>,
    k: (u64, usize, Option<Seq<char>>),
    v: Seq<(Seq<char>, u32)>,
    cap: nat,
)
    requires
        put_outcome(old, new, k, v, cap),
    ensures
        new.contains_key(k),
        new[k] == v,
{
    if !(old.contains_key(k) || old.len() < cap) {
        let e = choose|e: (u64, usize, Option<Seq<char>>)|
            old.contains_key(e) && new == old.remove(e).insert(k, v);
    }
}

/// A cache never holds more entries than its capacity: a put into a
/// finite cache within its capacity leaves it within its capacity, and
/// every other entry kept has the results it had.
pub proof fn law_cache_stays_within_capacity(
    old: Map<(u64, usize, Option<Seq<char>>), Seq<(Seq<char>, u32)>>,
    new: Map<(u64, usize, Option<Seq<char>>), Seq<(Seq<char>, u32)>>,
    k: (u64, usize, Option<Seq<char>>),
    v: Seq<(Seq<char>, u32)>,
    cap: nat,
)
    requires
        put_outcome(old, new, k, v, cap),
        old.dom().finite(),
        old.len() <= cap,
        cap > 0,
    ensures
        new.dom().finite(),
        new.len() <= cap,
        forall|j: (u64, usize, Option<Seq<char>>)|
            j != k && #[trigger] new.contains_key(j) ==> old.contains_key(j) && new[j] == old[j],
{
    if old.contains_key(k) || old.len() < cap {
        if old.contains_key(k) {
            assert(new.dom() =~= old.dom());
        } else {
            assert(new.dom() =~= old.dom().insert(k));
        }
    } else {
        let e = choose|e: (u64, usize, Option<Seq<char>>)|
            old.contains_key(e) && new == old.remove(e).insert(k, v);
        assert(old.remove(e).dom() =~= old.dom().remove(e));
        assert(new.dom() =~= old.dom().remove(e).insert(k));
    }
}

} // verus!
