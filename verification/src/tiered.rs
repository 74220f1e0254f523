//! Tier decisions for tiered storage.
//!
//! Points live in one of three tiers: Hot (RAM), Warm (memory-mapped file)
//! or Cold (disk, loaded on demand). The tier a point should be in follows
//! from how long ago it was last accessed; compaction only ever demotes
//! (Hot→Warm, Hot→Cold, Warm→Cold), promotion happens on access.
use crate::assoc::{kv_find, kv_get, kv_map, kv_pairs, kv_remove, kv_upsert, keys_distinct, to_map, lemma_to_map_dom, lemma_to_map_index, has_key};
use crate::time::unix_now;
use vstd::prelude::*;

verus! {

/// Tiered storage configuration.
pub struct TieredStorageConfig {
    /// Whether tiered storage is on (default: false).
    pub enabled: bool,
    /// Points accessed within this many hours stay Hot (default: 24).
    pub hot_threshold_hours: u64,
    /// Points accessed within this many hours stay Warm (default: 168).
    pub warm_threshold_hours: u64,
    /// Seconds between compaction runs (default: 3600).
    pub compaction_interval_secs: u64,
}

/// Default Hot threshold in hours.
pub fn default_hot_threshold() -> (h: u64)
    ensures
        h == 24,
{
    24
}

/// Default Warm threshold in hours.
pub fn default_warm_threshold() -> (h: u64)
    ensures
        h == 168,
{
    168
}

/// Default compaction interval in seconds.
pub fn default_compaction_interval() -> (s: u64)
    ensures
        s == 3600,
{
    3600
}

impl Default for TieredStorageConfig {
    fn default() -> (c: Self)
        ensures
            !c.enabled,
            c.hot_threshold_hours == 24,
            c.warm_threshold_hours == 168,
            c.compaction_interval_secs == 3600,
    {
        TieredStorageConfig {
            enabled: false,
            hot_threshold_hours: default_hot_threshold(),
            warm_threshold_hours: default_warm_threshold(),
            compaction_interval_secs: default_compaction_interval(),
        }
    }
}

/// Storage tier of a point.
#[derive(Debug, Clone, Copy, PartialEq, Eq, Structural)]
pub enum StorageTier {
    /// In RAM.
    Hot,
    /// Memory-mapped.
    Warm,
    /// On disk, loaded on demand.
    Cold,
}

impl StorageTier {
    /// The tier's name: "hot", "warm" or "cold".
    pub fn name(&self) -> (s: &'static str)
        ensures
            *self == StorageTier::Hot ==> s@ == "hot"@,
            *self == StorageTier::Warm ==> s@ == "warm"@,
            *self == StorageTier::Cold ==> s@ == "cold"@,
    {
        match self {
            StorageTier::Hot => "hot",
            StorageTier::Warm => "warm",
            StorageTier::Cold => "cold",
        }
    }
}

/// The tier a point belongs in, given its last access (if any) and the
/// current time: Cold if never accessed; otherwise by whole hours elapsed.
pub open spec fn ideal_tier(last: Option<u64>, config: TieredStorageConfig, now: u64) -> StorageTier {
    match last {
        None => StorageTier::Cold,
        Some(ts) => {
            let hours = now.saturating_sub(ts) / 3600;
            if hours < config.hot_threshold_hours {
                StorageTier::Hot
            } else if hours < config.warm_threshold_hours {
                StorageTier::Warm
            } else {
                StorageTier::Cold
            }
        },
    }
}

/// Moving from `current` to `ideal` is a demotion.
pub open spec fn is_demotion(current: StorageTier, ideal: StorageTier) -> bool {
    (current == StorageTier::Hot && ideal == StorageTier::Warm) || (current == StorageTier::Hot
        && ideal == StorageTier::Cold) || (current == StorageTier::Warm && ideal
        == StorageTier::Cold)
}

/// Computes the ideal tier from a last-access time.
pub fn get_tier_at_from_last_access(last_ts: Option<u64>, config: &TieredStorageConfig, now: u64) -> (t: StorageTier)
    ensures
        t == ideal_tier(last_ts, *config, now),
{
    let last = match last_ts {
        Some(ts) => ts,
        None => return StorageTier::Cold,
    };
    let hours_since = now.saturating_sub(last) / 3600;
    if hours_since < config.hot_threshold_hours {
        StorageTier::Hot
    } else if hours_since < config.warm_threshold_hours {
        StorageTier::Warm
    } else {
        StorageTier::Cold
    }
}

/// Whether moving from `current` to `ideal` is a demotion.
pub fn should_demote(current: &StorageTier, ideal: &StorageTier) -> (b: bool)
    ensures
        b == is_demotion(*current, *ideal),
{
    match (current, ideal) {
        (StorageTier::Hot, StorageTier::Warm) => true,
        (StorageTier::Hot, StorageTier::Cold) => true,
        (StorageTier::Warm, StorageTier::Cold) => true,
        _ => false,
    }
}

/// Tracks, per point, its last access time and its number of accesses.
#[derive(Debug)]
pub struct AccessTracker {
    last_access: Vec<(String, u64)>,
    access_count: Vec<(String, u64)>,
}

/// The demotions that `current` calls for: every entry whose ideal tier is
/// lower than its current one, with that ideal tier, in the order of
/// `current`.
pub open spec fn demotions(
    current: Seq<(Seq<char>, StorageTier)>,
    last: Map<Seq<char>, u64>,
    config: TieredStorageConfig,
    now: u64,
) -> Seq<(Seq<char>, StorageTier)>
    decreases current.len(),
{
    if current.len() == 0 {
        Seq::empty()
    } else {
        let prev = demotions(current.drop_last(), last, config, now);
        let (id, tier) = current.last();
        let ideal = ideal_tier(
            if last.contains_key(id) {
                Some(last[id])
            } else {
                None
            },
            config,
            now,
        );
        if is_demotion(tier, ideal) {
            prev.push((id, ideal))
        } else {
            prev
        }
    }
}

/// The last access of `id` in map `m`, as an option.
pub open spec fn lookup(m: Map<Seq<char>, u64>, id: Seq<char>) -> Option<u64> {
    if m.contains_key(id) {
        Some(m[id])
    } else {
        None
    }
}

impl AccessTracker {
    /// Last access time per point.
    pub closed spec fn last_map(&self) -> Map<Seq<char>, u64> {
        kv_map(self.last_access@)
    }

    /// Access count per point (a point never accessed is absent).
    pub closed spec fn count_map(&self) -> Map<Seq<char>, u64> {
        kv_map(self.access_count@)
    }

    /// Each table holds a point at most once.
    pub closed spec fn wf(&self) -> bool {
        keys_distinct(kv_pairs(self.last_access@)) && keys_distinct(kv_pairs(self.access_count@))
    }

    /// The number of recorded accesses of `id` (0 if none).
    pub open spec fn count_of(&self, id: Seq<char>) -> u64 {
        if self.count_map().contains_key(id) {
            self.count_map()[id]
        } else {
            0
        }
    }

    /// An empty tracker.
    pub fn new() -> (t: Self)
        ensures
            t.wf(),
            t.last_map() == Map::<Seq<char>, u64>::empty(),
            t.count_map() == Map::<Seq<char>, u64>::empty(),
    {
        let t = AccessTracker { last_access: Vec::new(), access_count: Vec::new() };
        proof {
            assert(kv_pairs(t.last_access@) =~= Seq::empty());
            assert(kv_pairs(t.access_count@) =~= Seq::empty());
        }
        t
    }

    /// Records an access of `id` at `timestamp`.
    pub fn record_access_at(&mut self, id: &str, timestamp: u64)
        requires
            old(self).wf(),
            old(self).count_of(id@) < u64::MAX,
        ensures
            final(self).wf(),
            final(self).last_map() == old(self).last_map().insert(id@, timestamp),
            final(self).count_map() == old(self).count_map().insert(id@, (old(self).count_of(id@) + 1) as u64),
    {
        kv_upsert(&mut self.last_access, id.to_owned(), timestamp);
        let key = id.to_owned();
        let c = match kv_get(&self.access_count, &key) {
            Some(c) => c,
            None => 0,
        };
        kv_upsert(&mut self.access_count, key, c + 1);
    }

    /// Records an access of `id` now.
    pub fn record_access(&mut self, id: &str)
        requires
            old(self).wf(),
            old(self).count_of(id@) < u64::MAX,
        ensures
            final(self).wf(),
            exists|now: u64| final(self).last_map() == old(self).last_map().insert(id@, now),
            final(self).count_map() == old(self).count_map().insert(id@, (old(self).count_of(id@) + 1) as u64),
    {
        let now = unix_now();
        self.record_access_at(id, now);
    }

    /// The tier `id` belongs in at time `now`.
    pub fn get_tier_at(&self, id: &str, config: &TieredStorageConfig, now: u64) -> (t: StorageTier)
        requires
            self.wf(),
        ensures
            t == ideal_tier(lookup(self.last_map(), id@), *config, now),
    {
        let key = id.to_owned();
        let last = kv_get(&self.last_access, &key);
        get_tier_at_from_last_access(last, config, now)
    }

    /// The tier `id` belongs in now.
    pub fn get_tier(&self, id: &str, config: &TieredStorageConfig) -> (t: StorageTier)
        requires
            self.wf(),
        ensures
            exists|now: u64| t == ideal_tier(lookup(self.last_map(), id@), *config, now),
    {
        let now = unix_now();
        self.get_tier_at(id, config, now)
    }

    /// The demotions due at time `now` among the points of `current_tiers`:
    /// (id, new tier) for each point whose ideal tier is lower than its
    /// current one. Promotions are not listed: they happen on access.
    pub fn points_to_demote_at(
        &self,
        config: &TieredStorageConfig,
        current_tiers: &Vec<(String, StorageTier)>,
        now: u64,
    ) -> (changes: Vec<(String, StorageTier)>)
        requires
            self.wf(),
        ensures
            kv_pairs(changes@) == demotions(kv_pairs(current_tiers@), self.last_map(), *config, now),
    {
        let ghost cur = kv_pairs(current_tiers@);
        let mut changes: Vec<(String, StorageTier)> = Vec::new();
        let mut i: usize = 0;
        while i < current_tiers.len()
            invariant
                self.wf(),
                i <= current_tiers.len(),
                cur == kv_pairs(current_tiers@),
                kv_pairs(changes@) == demotions(cur.take(i as int), self.last_map(), *config, now),
            decreases current_tiers.len() - i,
        {
            let ideal = self.get_tier_at(current_tiers[i].0.as_str(), config, now);
            let current = current_tiers[i].1;
            proof {
                assert(cur.take(i + 1).drop_last() =~= cur.take(i as int));
                assert(cur.take(i + 1).last() == cur[i as int]);
            }
            if should_demote(&current, &ideal) {
                changes.push((current_tiers[i].0.clone(), ideal));
                proof {
                    assert(kv_pairs(changes@) =~= demotions(cur.take(i as int), self.last_map(), *config, now).push((cur[i as int].0, ideal)));
                }
            }
            i += 1;
        }
        proof {
            assert(cur.take(current_tiers.len() as int) =~= cur);
        }
        changes
    }

    /// The demotions due now (see `points_to_demote_at`).
    pub fn points_to_demote(
        &self,
        config: &TieredStorageConfig,
        current_tiers: &Vec<(String, StorageTier)>,
    ) -> (changes: Vec<(String, StorageTier)>)
        requires
            self.wf(),
        ensures
            exists|now: u64| kv_pairs(changes@) == demotions(kv_pairs(current_tiers@), self.last_map(), *config, now),
    {
        let now = unix_now();
        self.points_to_demote_at(config, current_tiers, now)
    }

    /// Last access time of `id` (None if never accessed).
    pub fn last_access(&self, id: &str) -> (t: Option<u64>)
        requires
            self.wf(),
        ensures
            t == lookup(self.last_map(), id@),
    {
        kv_get(&self.last_access, &id.to_owned())
    }

    /// Number of recorded accesses of `id`.
    pub fn access_count(&self, id: &str) -> (n: u64)
        requires
            self.wf(),
        ensures
            n == self.count_of(id@),
    {
        match kv_get(&self.access_count, &id.to_owned()) {
            Some(c) => c,
            None => 0,
        }
    }

    /// Forgets `id` (when the point is deleted).
    pub fn remove(&mut self, id: &str)
        requires
            old(self).wf(),
        ensures
            final(self).wf(),
            final(self).last_map() == old(self).last_map().remove(id@),
            final(self).count_map() == old(self).count_map().remove(id@),
    {
        let key = id.to_owned();
        kv_remove(&mut self.last_access, &key);
        kv_remove(&mut self.access_count, &key);
    }

    /// A copy of the last-access table.
    pub fn last_access_snapshot(&self) -> (snap: Vec<(String, u64)>)
        requires
            self.wf(),
        ensures
            keys_distinct(kv_pairs(snap@)),
            kv_map(snap@) == self.last_map(),
    {
        let mut snap: Vec<(String, u64)> = Vec::new();
        let mut i: usize = 0;
        while i < self.last_access.len()
            invariant
                self.wf(),
                i <= self.last_access.len(),
                kv_pairs(snap@) =~= kv_pairs(self.last_access@).take(i as int),
            decreases self.last_access.len() - i,
        {
            snap.push((self.last_access[i].0.clone(), self.last_access[i].1));
            proof {
                assert(kv_pairs(self.last_access@).take(i + 1) =~= kv_pairs(self.last_access@).take(i as int).push(kv_pairs(self.last_access@)[i as int]));
            }
            i += 1;
        }
        proof {
            assert(kv_pairs(self.last_access@).take(i as int) =~= kv_pairs(self.last_access@));
        }
        snap
    }
}

impl Default for AccessTracker {
    fn default() -> (t: Self)
        ensures
            t.wf(),
            t.last_map() == Map::<Seq<char>, u64>::empty(),
            t.count_map() == Map::<Seq<char>, u64>::empty(),
    {
        Self::new()
    }
}


// ─── Compaction planning ────────────────────────────────────────────

/// What a compaction run is to do.
pub struct CompactionPlan {
    /// Every demotion due: (id, new tier).
    pub changes: Vec<(String, StorageTier)>,
    /// Points to move out of Hot first (Hot→Warm and Hot→Cold both pass
    /// through Warm).
    pub to_warm: Vec<String>,
    /// Points that end in Cold.
    pub to_cold: Vec<String>,
}

/// Ids of the demotions whose new tier is Cold.
pub open spec fn cold_ids(ch: Seq<(Seq<char>, StorageTier)>) -> Seq<Seq<char>>
    decreases ch.len(),
{
    if ch.len() == 0 {
        Seq::empty()
    } else {
        let prev = cold_ids(ch.drop_last());
        if ch.last().1 == StorageTier::Cold {
            prev.push(ch.last().0)
        } else {
            prev
        }
    }
}

/// Ids of the points that `current` holds in Hot and that are due for a
/// demotion.
pub open spec fn hot_demotion_ids(
    current: Seq<(Seq<char>, StorageTier)>,
    last: Map<Seq<char>, u64>,
    config: TieredStorageConfig,
    now: u64,
) -> Seq<Seq<char>>
    decreases current.len(),
{
    if current.len() == 0 {
        Seq::empty()
    } else {
        let prev = hot_demotion_ids(current.drop_last(), last, config, now);
        let (id, tier) = current.last();
        let ideal = ideal_tier(lookup(last, id), config, now);
        if tier == StorageTier::Hot && is_demotion(tier, ideal) {
            prev.push(id)
        } else {
            prev
        }
    }
}

proof fn lemma_cold_ids_push(ch: Seq<(Seq<char>, StorageTier)>, e: (Seq<char>, StorageTier))
    ensures
        cold_ids(ch.push(e)) == if e.1 == StorageTier::Cold {
            cold_ids(ch).push(e.0)
        } else {
            cold_ids(ch)
        },
{
    assert(ch.push(e).drop_last() =~= ch);
}

/// Plans a compaction run at time `now` from the current tier of each
/// point and the last-access table: the demotions due, the points to move
/// out of Hot, and the points that end in Cold. With tiered storage
/// disabled there is nothing to do.
pub fn plan_compaction(
    tiers: &Vec<(String, StorageTier)>,
    last_access: &Vec<(String, u64)>,
    config: &TieredStorageConfig,
    now: u64,
) -> (plan: CompactionPlan)
    requires
        keys_distinct(kv_pairs(last_access@)),
    ensures
        !config.enabled ==> plan.changes@.len() == 0 && plan.to_warm@.len() == 0
            && plan.to_cold@.len() == 0,
        config.enabled ==> kv_pairs(plan.changes@) == demotions(kv_pairs(tiers@), kv_map(last_access@), *config, now),
        config.enabled ==> crate::bm25::string_views(plan.to_warm@) == hot_demotion_ids(kv_pairs(tiers@), kv_map(last_access@), *config, now),
        config.enabled ==> crate::bm25::string_views(plan.to_cold@) == cold_ids(kv_pairs(plan.changes@)),
{
    if !config.enabled {
        return CompactionPlan { changes: Vec::new(), to_warm: Vec::new(), to_cold: Vec::new() };
    }
    let ghost cur = kv_pairs(tiers@);
    let ghost last = kv_map(last_access@);
    let mut changes: Vec<(String, StorageTier)> = Vec::new();
    let mut to_warm: Vec<String> = Vec::new();
    let mut to_cold: Vec<String> = Vec::new();
    let mut i: usize = 0;
    while i < tiers.len()
        invariant
            keys_distinct(kv_pairs(last_access@)),
            last == kv_map(last_access@),
            i <= tiers.len(),
            cur == kv_pairs(tiers@),
            kv_pairs(changes@) == demotions(cur.take(i as int), last, *config, now),
            crate::bm25::string_views(to_warm@) == hot_demotion_ids(cur.take(i as int), last, *config, now),
            crate::bm25::string_views(to_cold@) == cold_ids(kv_pairs(changes@)),
        decreases tiers.len() - i,
    {
        let ideal = get_tier_at_from_last_access(kv_get(last_access, &tiers[i].0), config, now);
        let current = tiers[i].1;
        proof {
            assert(cur.take(i + 1).drop_last() =~= cur.take(i as int));
            assert(cur.take(i + 1).last() == cur[i as int]);
        }
        if should_demote(&current, &ideal) {
            let ghost before = kv_pairs(changes@);
            changes.push((tiers[i].0.clone(), ideal));
            proof {
                assert(kv_pairs(changes@) =~= before.push((cur[i as int].0, ideal)));
                lemma_cold_ids_push(before, (cur[i as int].0, ideal));
            }
            match current {
                StorageTier::Hot => {
                    to_warm.push(tiers[i].0.clone());
                },
                _ => {},
            }
            match ideal {
                StorageTier::Cold => {
                    to_cold.push(tiers[i].0.clone());
                },
                _ => {},
            }
            proof {
                assert(crate::bm25::string_views(to_warm@) =~= hot_demotion_ids(cur.take(i + 1), last, *config, now));
                assert(crate::bm25::string_views(to_cold@) =~= cold_ids(kv_pairs(changes@)));
            }
        } else {
            proof {
                assert(crate::bm25::string_views(to_warm@) =~= hot_demotion_ids(cur.take(i + 1), last, *config, now));
            }
        }
        i += 1;
    }
    proof {
        assert(cur.take(tiers.len() as int) =~= cur);
    }
    CompactionPlan { changes, to_warm, to_cold }
}

// ─── Tier distribution ──────────────────────────────────────────────

/// Number of points per tier, with a memory estimate for each tier.
#[derive(Debug, Clone)]
pub struct TierDistribution {
    /// Points in Hot (RAM).
    pub hot: usize,
    /// Points in Warm (mmap).
    pub warm: usize,
    /// Points in Cold (disk).
    pub cold: usize,
    /// Estimated memory of the Hot tier (bytes).
    pub hot_memory_bytes: usize,
    /// Estimated memory of the Warm tier (bytes).
    pub warm_memory_bytes: usize,
    /// Estimated memory of the Cold tier (bytes).
    pub cold_memory_bytes: usize,
}

/// How many entries of `s` are `t`.
pub open spec fn count_tier(s: Seq<StorageTier>, t: StorageTier) -> nat
    decreases s.len(),
{
    if s.len() == 0 {
        0
    } else {
        count_tier(s.drop_last(), t) + if s.last() == t {
            1nat
        } else {
            0nat
        }
    }
}

proof fn lemma_count_tier_le(s: Seq<StorageTier>, t: StorageTier)
    ensures
        count_tier(s, t) <= s.len(),
    decreases s.len(),
{
    if s.len() > 0 {
        lemma_count_tier_le(s.drop_last(), t);
    }
}

impl TierDistribution {
    /// Counts the points of each tier and estimates each tier's memory:
    /// a Hot point costs its vector (`dimension` × 4 bytes) plus about 200
    /// bytes of metadata and 128 of graph node; a Warm point about 200 + 64;
    /// a Cold point about 64.
    pub fn from_tiers(tiers: &Vec<StorageTier>, dimension: usize) -> (d: Self)
        requires
            dimension * 4 + 328 <= usize::MAX,
            count_tier(tiers@, StorageTier::Hot) * (dimension * 4 + 328) <= usize::MAX,
            count_tier(tiers@, StorageTier::Warm) * 264 <= usize::MAX,
            count_tier(tiers@, StorageTier::Cold) * 64 <= usize::MAX,
        ensures
            d.hot == count_tier(tiers@, StorageTier::Hot),
            d.warm == count_tier(tiers@, StorageTier::Warm),
            d.cold == count_tier(tiers@, StorageTier::Cold),
            d.hot_memory_bytes == d.hot * (dimension * 4 + 328),
            d.warm_memory_bytes == d.warm * 264,
            d.cold_memory_bytes == d.cold * 64,
    {
        let mut hot: usize = 0;
        let mut warm: usize = 0;
        let mut cold: usize = 0;
        let mut i: usize = 0;
        while i < tiers.len()
            invariant
                i <= tiers.len(),
                hot == count_tier(tiers@.take(i as int), StorageTier::Hot),
                warm == count_tier(tiers@.take(i as int), StorageTier::Warm),
                cold == count_tier(tiers@.take(i as int), StorageTier::Cold),
            decreases tiers.len() - i,
        {
            proof {
                assert(tiers@.take(i + 1).drop_last() =~= tiers@.take(i as int));
                lemma_count_tier_le(tiers@.take(i as int), StorageTier::Hot);
                lemma_count_tier_le(tiers@.take(i as int), StorageTier::Warm);
                lemma_count_tier_le(tiers@.take(i as int), StorageTier::Cold);
            }
            match tiers[i] {
                StorageTier::Hot => hot += 1,
                StorageTier::Warm => warm += 1,
                StorageTier::Cold => cold += 1,
            }
            i += 1;
        }
        proof {
            assert(tiers@.take(tiers.len() as int) =~= tiers@);
        }
        let vector_bytes = dimension * 4;
        let metadata_est: usize = 200;
        let hnsw_node_est: usize = 128;
        TierDistribution {
            hot,
            warm,
            cold,
            hot_memory_bytes: hot * (vector_bytes + metadata_est + hnsw_node_est),
            warm_memory_bytes: warm * (metadata_est + 64),
            cold_memory_bytes: cold * 64,
        }
    }
}

// ─── Tier metadata ──────────────────────────────────────────────────

/// Tier metadata for persistence: each point's tier, last access and
/// access count.
pub struct TierMetadata {
    /// Current tier of each point.
    pub point_tiers: Vec<(String, StorageTier)>,
    /// Last access of each point that has one.
    pub last_access: Vec<(String, u64)>,
    /// Access count of each point accessed at least once.
    pub access_count: Vec<(String, u64)>,
}

/// (id, last access) for each id of `ids` that has one, in order.
pub open spec fn present_last(ids: Seq<Seq<char>>, m: Map<Seq<char>, u64>) -> Seq<(Seq<char>, u64)>
    decreases ids.len(),
{
    if ids.len() == 0 {
        Seq::empty()
    } else {
        let prev = present_last(ids.drop_last(), m);
        if m.contains_key(ids.last()) {
            prev.push((ids.last(), m[ids.last()]))
        } else {
            prev
        }
    }
}

/// (id, count) for each id of `ids` with a count above zero, in order.
pub open spec fn positive_counts(ids: Seq<Seq<char>>, m: Map<Seq<char>, u64>) -> Seq<(Seq<char>, u64)>
    decreases ids.len(),
{
    if ids.len() == 0 {
        Seq::empty()
    } else {
        let prev = positive_counts(ids.drop_last(), m);
        if m.contains_key(ids.last()) && m[ids.last()] > 0 {
            prev.push((ids.last(), m[ids.last()]))
        } else {
            prev
        }
    }
}

impl TierMetadata {
    /// Exports the tiers of the points and, for each of them, what the
    /// tracker knows: its last access if any, its access count if above 0.
    pub fn from_parts(point_tiers: Vec<(String, StorageTier)>, tracker: &AccessTracker) -> (m: Self)
        requires
            tracker.wf(),
        ensures
            m.point_tiers@ == point_tiers@,
            kv_pairs(m.last_access@) == present_last(kv_pairs(point_tiers@).map_values(|p: (Seq<char>, StorageTier)| p.0), tracker.last_map()),
            kv_pairs(m.access_count@) == positive_counts(kv_pairs(point_tiers@).map_values(|p: (Seq<char>, StorageTier)| p.0), tracker.count_map()),
    {
        let ghost ids = kv_pairs(point_tiers@).map_values(|p: (Seq<char>, StorageTier)| p.0);
        let mut last_access: Vec<(String, u64)> = Vec::new();
        let mut access_count: Vec<(String, u64)> = Vec::new();
        let mut i: usize = 0;
        while i < point_tiers.len()
            invariant
                tracker.wf(),
                i <= point_tiers.len(),
                ids == kv_pairs(point_tiers@).map_values(|p: (Seq<char>, StorageTier)| p.0),
                kv_pairs(last_access@) == present_last(ids.take(i as int), tracker.last_map()),
                kv_pairs(access_count@) == positive_counts(ids.take(i as int), tracker.count_map()),
            decreases point_tiers.len() - i,
        {
            proof {
                assert(ids.take(i + 1).drop_last() =~= ids.take(i as int));
                assert(ids.take(i + 1).last() == point_tiers@[i as int].0@);
            }
            let id = point_tiers[i].0.as_str();
            let ghost la = kv_pairs(last_access@);
            let ghost ac = kv_pairs(access_count@);
            match tracker.last_access(id) {
                Some(ts) => {
                    last_access.push((point_tiers[i].0.clone(), ts));
                    proof {
                        assert(kv_pairs(last_access@) =~= la.push((point_tiers@[i as int].0@, ts)));
                    }
                },
                None => {},
            }
            let count = tracker.access_count(id);
            if count > 0 {
                access_count.push((point_tiers[i].0.clone(), count));
                proof {
                    assert(kv_pairs(access_count@) =~= ac.push((point_tiers@[i as int].0@, count)));
                }
            }
            i += 1;
        }
        proof {
            assert(ids.take(point_tiers.len() as int) =~= ids);
        }
        TierMetadata { point_tiers, last_access, access_count }
    }
}

/// The position of a tier from fastest to slowest: Hot 0, Warm 1, Cold 2.
pub open spec fn tier_rank(t: StorageTier) -> int {
    match t {
        StorageTier::Hot => 0,
        StorageTier::Warm => 1,
        StorageTier::Cold => 2,
    }
}

/// A point accessed at time `now` belongs in Hot at that time, whenever
/// the Hot window is not empty.
pub proof fn law_accessed_point_is_hot(
    last: Map<Seq<char>, u64>,
    id: Seq<char>,
    config: TieredStorageConfig,
    now: u64,
)
    requires
        config.hot_threshold_hours > 0,
    ensures
        ideal_tier(lookup(last.insert(id, now), id), config, now) == StorageTier::Hot,
{
}

/// Without a new access, a point's tier never rises as time passes: at a
/// later time it belongs in the same tier or a slower one.
pub proof fn law_tier_never_rises_with_time(
    last: Option<u64>,
    config: TieredStorageConfig,
    earlier: u64,
    later: u64,
)
    requires
        earlier <= later,
    ensures
        tier_rank(ideal_tier(last, config, earlier)) <= tier_rank(ideal_tier(last, config, later)),
{
    if let Some(ts) = last {
        let a = earlier.saturating_sub(ts);
        let b = later.saturating_sub(ts);
        assert(a <= b);
        vstd::arithmetic::div_mod::lemma_div_is_ordered(a as int, b as int, 3600);
    }
}

} // verus!
