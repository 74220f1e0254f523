//! Search configuration shared by every index backend: distance metrics
//! and their names, HNSW parameters, and the auto-tuning of `ef_search`.
use crate::bm25::{lowercase_of, to_lower};
use crate::error::FerresError;
use crate::text::push_str;
use vstd::prelude::*;

verus! {

/// Distance metrics.
///
/// - `Cosine`: 1 − cos(a, b).
/// - `DotProduct`: negated dot product.
/// - `Euclidean`: L2 distance.
#[derive(Debug, Clone, Copy, PartialEq, Eq, Structural)]
pub enum DistanceMetric {
    Cosine,
    DotProduct,
    Euclidean,
}

/// The metric a name denotes, case aside: `cosine`, `euclidean`, and
/// `dotproduct` or `dot`.
pub open spec fn metric_named(name: Seq<char>) -> Option<DistanceMetric> {
    let l = lowercase_of(name);
    if l == "cosine"@ {
        Some(DistanceMetric::Cosine)
    } else if l == "euclidean"@ {
        Some(DistanceMetric::Euclidean)
    } else if l == "dotproduct"@ || l == "dot"@ {
        Some(DistanceMetric::DotProduct)
    } else {
        None
    }
}

/// The distance metric named `s` (case aside); another name is refused
/// with `Storage` and a message listing the valid ones.
pub fn parse_distance(s: &str) -> (r: Result<DistanceMetric, FerresError>)
    ensures
        metric_named(s@) matches Some(d) ==> r == Ok::<DistanceMetric, FerresError>(d),
        metric_named(s@) is None ==> (r matches Err(FerresError::Storage(m)) && m@
            == "invalid distance metric: "@ + s@ + ". Valid options: cosine, euclidean, dotproduct"@),
{
    let l = to_lower(&s.to_owned());
    if l == "cosine".to_owned() {
        Ok(DistanceMetric::Cosine)
    } else if l == "euclidean".to_owned() {
        Ok(DistanceMetric::Euclidean)
    } else if l == "dotproduct".to_owned() || l == "dot".to_owned() {
        Ok(DistanceMetric::DotProduct)
    } else {
        let mut m = "invalid distance metric: ".to_owned();
        push_str(&mut m, s);
        push_str(&mut m, ". Valid options: cosine, euclidean, dotproduct");
        Err(FerresError::Storage(m))
    }
}

/// HNSW construction parameters.
#[derive(Debug, Clone)]
pub struct HnswConfig {
    /// Neighbours per node (M).
    pub max_nb_connection: usize,
    /// Capacity allocated up front.
    pub max_elements: usize,
    /// Maximum number of layers.
    pub max_layer: usize,
    /// Candidate list size while building.
    pub ef_construction: usize,
    /// Candidate list size while searching.
    pub ef_search: usize,
}

impl Default for HnswConfig {
    fn default() -> (c: Self)
        ensures
            c.max_nb_connection == 16,
            c.max_elements == 10_000,
            c.max_layer == 16,
            c.ef_construction == 200,
            c.ef_search == 50,
    {
        HnswConfig {
            max_nb_connection: 16,
            max_elements: 10_000,
            max_layer: 16,
            ef_construction: 200,
            ef_search: 50,
        }
    }
}

// ─── ef_search auto-tuning ──────────────────────────────────────────

/// The smallest `ef_search` that auto-tuning goes down to.
pub const EF_MIN: usize = 10;

/// The largest `ef_search` that auto-tuning goes up to.
pub const EF_MAX: usize = 200;

/// How much one auto-tuning step changes `ef_search`.
pub const EF_STEP: usize = 10;

/// The band auto-tuning keeps `ef_search` in, around the configured value
/// `base`: from half of it (at least `EF_MIN`) to twice it (at most
/// `EF_MAX`).
pub open spec fn ef_band(base: nat) -> (int, int) {
    let lo = if base / 2 > EF_MIN { base / 2 } else { EF_MIN as nat };
    let hi = if 2 * base < EF_MAX { 2 * base } else { EF_MAX as nat };
    (lo as int, hi as int)
}

/// The `ef_search` after one auto-tuning step from `current`: one step up
/// (within the band) when latency is low and recall has priority, one step
/// down (within the band) when latency is high, otherwise unchanged.
pub open spec fn tuned_ef(
    current: nat,
    base: nat,
    latency_low: bool,
    latency_high: bool,
    recall_priority: bool,
) -> int {
    let (lo, hi) = ef_band(base);
    if latency_low && recall_priority && current < hi {
        if current + EF_STEP < hi {
            current + EF_STEP
        } else {
            hi
        }
    } else if latency_high && current > lo {
        let down = if current >= EF_STEP { current - EF_STEP } else { 0 };
        if down > lo {
            down
        } else {
            lo
        }
    } else {
        current as int
    }
}

/// One auto-tuning step of `ef_search`, from its current value `current`
/// and the configured value `base`. Whether the observed p95 latency is
/// low (under 10 ms) or high (over 50 ms) is decided by the caller.
pub fn auto_tune_ef_search(
    current: usize,
    base: usize,
    latency_low: bool,
    latency_high: bool,
    recall_priority: bool,
) -> (ef: usize)
    ensures
        ef == tuned_ef(current as nat, base as nat, latency_low, latency_high, recall_priority),
{
    let lo = if base / 2 > EF_MIN { base / 2 } else { EF_MIN };
    let hi = if base < EF_MAX / 2 { 2 * base } else { EF_MAX };
    if latency_low && recall_priority && current < hi {
        if current + EF_STEP < hi {
            current + EF_STEP
        } else {
            hi
        }
    } else if latency_high && current > lo {
        let down = current.saturating_sub(EF_STEP);
        if down > lo {
            down
        } else {
            lo
        }
    } else {
        current
    }
}

/// An auto-tuning step changes `ef_search` by at most one step, and from a
/// value inside the band it never leaves the band.
pub proof fn law_auto_tune_stays_in_band(
    current: nat,
    base: nat,
    latency_low: bool,
    latency_high: bool,
    recall_priority: bool,
)
    ensures
        ({
            let ef = tuned_ef(current, base, latency_low, latency_high, recall_priority);
            &&& current - EF_STEP <= ef <= current + EF_STEP
            &&& ef_band(base).0 <= current <= ef_band(base).1 ==> ef_band(base).0 <= ef <= ef_band(
                base,
            ).1
        }),
{
}

} // verus!
