//! Storage-side logic: what the persisted files hold and how their
//! integrity is checked, and the circuit breaker that guards disk I/O.
//!
//! A collection's points are stored one serialized point per line
//! (`points.jsonl`), with the MD5 checksum of that file beside it; a load
//! whose checksum does not match is refused. The circuit breaker:
//!
//! - **Closed**: calls go through; failures are counted.
//! - **Open**: after `failure_threshold` consecutive failures, calls are
//!   rejected at once, without touching the disk.
//! - **HalfOpen**: once `reset_timeout_secs` have passed since the last
//!   failure, one call is let through; success closes the circuit, failure
//!   opens it again.
use crate::bm25::string_views;
use crate::error::FerresError;
use crate::jsonl::{
    encode_jsonl, jsonl_body, jsonl_records, law_jsonl_roundtrip, numbered_records, plain_record,
};
use crate::report::{decimal, decimal_string};
use crate::search::{DistanceMetric, HnswConfig};
use crate::text::{is_white_space, push_char, push_str, trim_of};
use crate::time::unix_now;
use vstd::prelude::*;
use vstd::utf8::encode_utf8;

verus! {

/// Circuit state: calls go through.
pub const CB_CLOSED: u8 = 0;

/// Circuit state: calls are rejected.
pub const CB_OPEN: u8 = 1;

/// Circuit state: one trial call is let through.
pub const CB_HALF_OPEN: u8 = 2;

/// Circuit breaker for storage operations.
#[derive(Debug)]
pub struct StorageCircuitBreaker {
    failure_count: u64,
    last_failure: u64,
    state: u8,
    failure_threshold: u64,
    reset_timeout_secs: u64,
}

/// The observable state of a circuit breaker.
pub struct BreakerView {
    pub state: u8,
    pub failure_count: u64,
    pub last_failure: u64,
    pub failure_threshold: u64,
    pub reset_timeout_secs: u64,
}

/// The reset timeout has elapsed at time `now`.
pub open spec fn reset_due(v: BreakerView, now: u64) -> bool {
    v.last_failure.saturating_add(v.reset_timeout_secs) <= now
}

/// A call at time `now` is rejected without running.
pub open spec fn rejects(v: BreakerView, now: u64) -> bool {
    v.state == CB_OPEN && !reset_due(v, now)
}

/// The state in which an admitted call runs: an open circuit whose timeout
/// elapsed becomes half-open.
pub open spec fn admitted(v: BreakerView) -> BreakerView {
    if v.state == CB_OPEN {
        BreakerView { state: CB_HALF_OPEN, ..v }
    } else {
        v
    }
}

/// The state after a successful call.
pub open spec fn after_success(v: BreakerView) -> BreakerView {
    BreakerView { failure_count: 0, state: CB_CLOSED, ..v }
}

/// The state after a failed call at time `now`.
pub open spec fn after_failure(v: BreakerView, now: u64) -> BreakerView {
    BreakerView {
        failure_count: (v.failure_count + 1) as u64,
        last_failure: now,
        state: if v.failure_count + 1 >= v.failure_threshold {
            CB_OPEN
        } else if v.state == CB_HALF_OPEN {
            CB_OPEN
        } else {
            v.state
        },
        ..v
    }
}

/// The state after `k` calls in a row that were let through and failed,
/// all at time `now`.
pub open spec fn fail_times(v: BreakerView, k: nat, now: u64) -> BreakerView
    decreases k,
{
    if k == 0 {
        v
    } else {
        after_failure(admitted(fail_times(v, (k - 1) as nat, now)), now)
    }
}

/// A closed circuit with no failures stays closed through fewer than
/// `failure_threshold` consecutive failures, counting them, and opens at the
/// `failure_threshold`-th; when the reset timeout is not zero it then
/// rejects calls made at that same moment.
pub proof fn law_breaker_opens_after_threshold(v: BreakerView, now: u64)
    requires
        v.state == CB_CLOSED,
        v.failure_count == 0,
        v.failure_threshold > 0,
    ensures
        forall|k: nat|
            k < v.failure_threshold ==> (#[trigger] fail_times(v, k, now)).state == CB_CLOSED
                && fail_times(v, k, now).failure_count == k,
        fail_times(v, v.failure_threshold as nat, now).state == CB_OPEN,
        v.reset_timeout_secs > 0 && now < u64::MAX ==> rejects(
            fail_times(v, v.failure_threshold as nat, now),
            now,
        ),
{
    assert forall|k: nat| k < v.failure_threshold implies (#[trigger] fail_times(
        v,
        k,
        now,
    )).state == CB_CLOSED && fail_times(v, k, now).failure_count == k by {
        lemma_fail_times_closed(v, k, now);
    }
    let t = v.failure_threshold as nat;
    lemma_fail_times_closed(v, (t - 1) as nat, now);
    let w = fail_times(v, t, now);
    assert(w.last_failure == now);
    assert(w.reset_timeout_secs == v.reset_timeout_secs);
}

proof fn lemma_fail_times_closed(v: BreakerView, k: nat, now: u64)
    requires
        v.state == CB_CLOSED,
        v.failure_count == 0,
        k < v.failure_threshold,
    ensures
        fail_times(v, k, now).state == CB_CLOSED,
        fail_times(v, k, now).failure_count == k,
        fail_times(v, k, now).failure_threshold == v.failure_threshold,
        fail_times(v, k, now).reset_timeout_secs == v.reset_timeout_secs,
    decreases k,
{
    if k > 0 {
        lemma_fail_times_closed(v, (k - 1) as nat, now);
    }
}

/// The outcome of one completed call through a circuit breaker: rejected
/// without running, or run and succeeded, or run and failed at `now`.
pub enum BreakerEvent {
    Rejected,
    Succeeded,
    Failed(u64),
}

/// The state after one completed call, as `call` and `call_at` leave it.
pub open spec fn breaker_step(v: BreakerView, e: BreakerEvent) -> BreakerView {
    match e {
        BreakerEvent::Rejected => v,
        BreakerEvent::Succeeded => after_success(admitted(v)),
        BreakerEvent::Failed(now) => after_failure(admitted(v), now),
    }
}

/// The state after a sequence of completed calls.
pub open spec fn breaker_run(v: BreakerView, es: Seq<BreakerEvent>) -> BreakerView
    decreases es.len(),
{
    if es.len() == 0 {
        v
    } else {
        breaker_step(breaker_run(v, es.drop_last()), es.last())
    }
}

/// Between calls a breaker is closed or open, and open exactly when its
/// failure count has reached its threshold (of at least one).
pub open spec fn breaker_consistent(v: BreakerView) -> bool {
    &&& v.failure_threshold >= 1
    &&& v.state == CB_CLOSED || v.state == CB_OPEN
    &&& (v.state == CB_OPEN <==> v.failure_count >= v.failure_threshold)
}

/// Number of failed calls among `es`.
pub open spec fn failures_in(es: Seq<BreakerEvent>) -> nat
    decreases es.len(),
{
    if es.len() == 0 {
        0
    } else {
        failures_in(es.drop_last()) + if es.last() is Failed {
            1nat
        } else {
            0nat
        }
    }
}

/// Some call among `es` succeeded.
pub open spec fn had_success(es: Seq<BreakerEvent>) -> bool
    decreases es.len(),
{
    es.len() > 0 && (es.last() is Succeeded || had_success(es.drop_last()))
}

/// The calls after the last successful one (all of them when none succeeded).
pub open spec fn since_last_success(es: Seq<BreakerEvent>) -> Seq<BreakerEvent>
    decreases es.len(),
{
    if es.len() == 0 {
        es
    } else if es.last() is Succeeded {
        Seq::empty()
    } else {
        since_last_success(es.drop_last()).push(es.last())
    }
}

proof fn lemma_breaker_run_frame(v: BreakerView, es: Seq<BreakerEvent>)
    ensures
        breaker_run(v, es).failure_count <= v.failure_count + es.len(),
        breaker_run(v, es).failure_threshold == v.failure_threshold,
        breaker_run(v, es).reset_timeout_secs == v.reset_timeout_secs,
    decreases es.len(),
{
    if es.len() > 0 {
        lemma_breaker_run_frame(v, es.drop_last());
    }
}

/// A breaker made by `with_config` with a threshold of at least one is
/// consistent.
pub proof fn law_fresh_breaker_consistent(failure_threshold: u64, reset_timeout_secs: u64)
    requires
        failure_threshold >= 1,
    ensures
        breaker_consistent(
            BreakerView {
                state: CB_CLOSED,
                failure_count: 0,
                last_failure: 0,
                failure_threshold,
                reset_timeout_secs,
            },
        ),
{
}

/// Every completed call keeps a breaker consistent: between calls it is
/// never half-open, and it is open exactly when the failure count has
/// reached the threshold.
pub proof fn law_breaker_stays_consistent(v: BreakerView, es: Seq<BreakerEvent>)
    requires
        breaker_consistent(v),
        v.failure_count + es.len() < u64::MAX,
    ensures
        breaker_consistent(breaker_run(v, es)),
    decreases es.len(),
{
    if es.len() > 0 {
        law_breaker_stays_consistent(v, es.drop_last());
        lemma_breaker_run_frame(v, es.drop_last());
    }
}

/// A breaker's failure count is the number of failed calls since the last
/// successful one; before any success, it adds to the count it started
/// with. Rejected calls run nothing and count nothing.
pub proof fn law_breaker_counts_failures_since_success(v: BreakerView, es: Seq<BreakerEvent>)
    requires
        v.failure_count + es.len() < u64::MAX,
    ensures
        breaker_run(v, es).failure_count == (if had_success(es) {
            0
        } else {
            v.failure_count as int
        }) + failures_in(since_last_success(es)),
    decreases es.len(),
{
    if es.len() > 0 {
        let p = es.drop_last();
        law_breaker_counts_failures_since_success(v, p);
        lemma_breaker_run_frame(v, p);
        if !(es.last() is Succeeded) {
            let s = since_last_success(p);
            assert(s.push(es.last()).drop_last() =~= s);
        }
    }
}

impl View for StorageCircuitBreaker {
    type V = BreakerView;

    closed spec fn view(&self) -> BreakerView {
        BreakerView {
            state: self.state,
            failure_count: self.failure_count,
            last_failure: self.last_failure,
            failure_threshold: self.failure_threshold,
            reset_timeout_secs: self.reset_timeout_secs,
        }
    }
}

impl StorageCircuitBreaker {
    /// A circuit breaker with the default limits: 5 failures, 60 s timeout.
    pub fn new() -> (cb: Self)
        ensures
            cb@ == (BreakerView {
                state: CB_CLOSED,
                failure_count: 0,
                last_failure: 0,
                failure_threshold: 5,
                reset_timeout_secs: 60,
            }),
    {
        Self::with_config(5, 60)
    }

    /// A circuit breaker with the given threshold and timeout.
    pub fn with_config(failure_threshold: u64, reset_timeout_secs: u64) -> (cb: Self)
        ensures
            cb@ == (BreakerView {
                state: CB_CLOSED,
                failure_count: 0,
                last_failure: 0,
                failure_threshold,
                reset_timeout_secs,
            }),
    {
        StorageCircuitBreaker {
            failure_count: 0,
            last_failure: 0,
            state: CB_CLOSED,
            failure_threshold,
            reset_timeout_secs,
        }
    }

    fn should_attempt_reset(&self, now: u64) -> (b: bool)
        ensures
            b == reset_due(self@, now),
    {
        self.last_failure.saturating_add(self.reset_timeout_secs) <= now
    }

    /// Decides whether a call at time `now` runs: an open circuit whose
    /// timeout has elapsed turns half-open and lets it through.
    fn let_through(&mut self, now: u64) -> (ok: bool)
        ensures
            ok == !rejects(old(self)@, now),
            ok ==> final(self)@ == admitted(old(self)@),
            !ok ==> final(self)@ == old(self)@,
    {
        if self.state == CB_OPEN {
            if self.should_attempt_reset(now) {
                self.state = CB_HALF_OPEN;
            } else {
                return false;
            }
        }
        true
    }

    fn on_success(&mut self)
        ensures
            final(self)@ == after_success(old(self)@),
    {
        self.failure_count = 0;
        self.state = CB_CLOSED;
    }

    fn on_failure(&mut self, now: u64)
        requires
            old(self)@.failure_count < u64::MAX,
        ensures
            final(self)@ == after_failure(old(self)@, now),
    {
        let prev = self.failure_count;
        self.failure_count = prev + 1;
        self.last_failure = now;
        if prev + 1 >= self.failure_threshold {
            self.state = CB_OPEN;
        } else if self.state == CB_HALF_OPEN {
            self.state = CB_OPEN;
        }
    }

    /// Runs the storage operation `f` under the breaker, with `now` as the
    /// current time. An open circuit whose timeout has not elapsed rejects
    /// the call with `Storage("circuit breaker open")` and does not run `f`.
    pub fn call_at<F, T>(&mut self, now: u64, f: F) -> (r: Result<T, FerresError>) where
        F: FnOnce() -> Result<T, FerresError>,

        requires
            f.requires(()),
            old(self)@.failure_count < u64::MAX,
        ensures
            rejects(old(self)@, now) ==> (r matches Err(FerresError::Storage(m))
                && m@ == "circuit breaker open"@) && final(self)@ == old(self)@,
            !rejects(old(self)@, now) ==> f.ensures((), r),
            !rejects(old(self)@, now) && r is Ok ==> final(self)@ == after_success(
                admitted(old(self)@),
            ),
            !rejects(old(self)@, now) && r is Err ==> final(self)@ == after_failure(
                admitted(old(self)@),
                now,
            ),
    {
        if !self.let_through(now) {
            return Err(FerresError::Storage("circuit breaker open".to_owned()));
        }
        match f() {
            Ok(v) => {
                self.on_success();
                Ok(v)
            },
            Err(e) => {
                self.on_failure(now);
                Err(e)
            },
        }
    }

    /// Runs the storage operation `f` under the breaker, at the current
    /// time: `call_at` with the clock's reading. Which reading came back is
    /// not fixed; whatever it was, the outcome is `call_at`'s for it, and a
    /// circuit that is not open always runs `f`.
    pub fn call<F, T>(&mut self, f: F) -> (r: Result<T, FerresError>) where
        F: FnOnce() -> Result<T, FerresError>,

        requires
            f.requires(()),
            old(self)@.failure_count < u64::MAX,
        ensures
            exists|now: u64|
                #![trigger rejects(old(self)@, now)]
                {
                    &&& rejects(old(self)@, now) ==> (r matches Err(FerresError::Storage(m))
                        && m@ == "circuit breaker open"@) && final(self)@ == old(self)@
                    &&& !rejects(old(self)@, now) ==> f.ensures((), r)
                    &&& !rejects(old(self)@, now) && r is Ok ==> final(self)@ == after_success(
                        admitted(old(self)@),
                    )
                    &&& !rejects(old(self)@, now) && r is Err ==> final(self)@ == after_failure(
                        admitted(old(self)@),
                        now,
                    )
                },
            old(self)@.state != CB_OPEN ==> f.ensures((), r),
    {
        let now = unix_now();
        let r = self.call_at(now, f);
        proof {
            assert(rejects(old(self)@, now) || !rejects(old(self)@, now));
        }
        r
    }

    /// Current state (0 = Closed, 1 = Open, 2 = HalfOpen).
    pub fn state(&self) -> (s: u8)
        ensures
            s == self@.state,
    {
        self.state
    }

    /// Consecutive failures (reset to zero on success).
    pub fn failure_count(&self) -> (n: u64)
        ensures
            n == self@.failure_count,
    {
        self.failure_count
    }
}

impl Default for StorageCircuitBreaker {
    fn default() -> (cb: Self)
        ensures
            cb@ == (BreakerView {
                state: CB_CLOSED,
                failure_count: 0,
                last_failure: 0,
                failure_threshold: 5,
                reset_timeout_secs: 60,
            }),
    {
        Self::new()
    }
}


/// Persisted metadata of a collection.
#[derive(Debug, Clone)]
pub struct CollectionMeta {
    pub name: String,
    pub dimension: usize,
    pub distance: DistanceMetric,
    pub hnsw_config: HnswConfig,
}

// ─── Integrity checksums ────────────────────────────────────────────

/// The MD5 digest of `data`, as `md5::compute` returns it.
pub uninterp spec fn md5_of(data: Seq<u8>) -> Seq<u8>;

/// Calls `md5::compute` and keeps the 16 digest bytes.
#[verifier::external_body]
fn md5_digest(data: &[u8]) -> (digest: Vec<u8>)
    ensures
        digest@ == md5_of(data@),
        digest@.len() == 16,
{
    md5::compute(data).0.to_vec()
}

/// `s` without its leading and trailing whitespace, as `str::trim` gives it.

/// An ASCII letter or digit (never whitespace).
pub open spec fn ascii_alphanumeric(c: char) -> bool {
    ('0' <= c && c <= '9') || ('a' <= c && c <= 'z') || ('A' <= c && c <= 'Z')
}

/// Calls `str::trim` and copies the result: `s` without leading and
/// trailing whitespace.
#[verifier::external_body]
fn trimmed(s: &str) -> (t: String)
    ensures
        t@ == trim_of(s@),
{
    s.trim().to_owned()
}

/// The lower-case hex digit of `n` (0 ≤ n < 16).
pub open spec fn lower_hex_digit(n: int) -> char {
    if n < 10 {
        (48 + n) as char
    } else {
        (87 + n) as char
    }
}

/// Two lower-case hex digits per byte, as `{:02x}` prints them.
pub open spec fn lower_hex(bs: Seq<u8>) -> Seq<char>
    decreases bs.len(),
{
    if bs.len() == 0 {
        Seq::empty()
    } else {
        lower_hex(bs.drop_last()).push(lower_hex_digit(bs.last() as int / 16)).push(
            lower_hex_digit(bs.last() as int % 16),
        )
    }
}

/// Text that starts and ends with ASCII letters or digits is left as it
/// is by trimming.
proof fn lemma_trim_keeps(s: Seq<char>)
    requires
        s.len() > 0 ==> ascii_alphanumeric(s[0]) && ascii_alphanumeric(s.last()),
    ensures
        trim_of(s) == s,
{
    if s.len() > 0 {
        assert(!is_white_space(s[0]));
        assert(!is_white_space(s.last()));
    }
}

proof fn lemma_lower_hex_shape(bs: Seq<u8>)
    ensures
        lower_hex(bs).len() == 2 * bs.len(),
        forall|i: int| 0 <= i < lower_hex(bs).len() ==> ascii_alphanumeric(#[trigger] lower_hex(bs)[i]),
    decreases bs.len(),
{
    if bs.len() > 0 {
        lemma_lower_hex_shape(bs.drop_last());
        let hi = bs.last() as int / 16;
        let lo = bs.last() as int % 16;
        assert(ascii_alphanumeric(lower_hex_digit(hi)));
        assert(ascii_alphanumeric(lower_hex_digit(lo)));
        let prev = lower_hex(bs.drop_last());
        assert forall|i: int| 0 <= i < lower_hex(bs).len() implies ascii_alphanumeric(
            #[trigger] lower_hex(bs)[i],
        ) by {
            if i < prev.len() {
                assert(lower_hex(bs)[i] == prev[i]);
            }
        }
    }
}

fn lower_hex_char(n: u8) -> (c: char)
    requires
        n < 16,
    ensures
        c == lower_hex_digit(n as int),
{
    if n < 10 {
        (48 + n) as char
    } else {
        (87 + n) as char
    }
}

/// The MD5 checksum of `data` in lower-case hex (32 characters).
pub fn checksum_hex(data: &[u8]) -> (s: String)
    ensures
        s@ == lower_hex(md5_of(data@)),
{
    let digest = md5_digest(data);
    let mut s = String::new();
    let mut i: usize = 0;
    while i < digest.len()
        invariant
            i <= digest.len(),
            s@ == lower_hex(digest@.take(i as int)),
        decreases digest.len() - i,
    {
        let b = digest[i];
        push_char(&mut s, lower_hex_char(b / 16));
        push_char(&mut s, lower_hex_char(b % 16));
        proof {
            assert(digest@.take(i + 1).drop_last() =~= digest@.take(i as int));
        }
        i += 1;
    }
    proof {
        assert(digest@.take(digest.len() as int) =~= digest@);
    }
    s
}

/// Whether a stored checksum (surrounding whitespace ignored) is the MD5
/// checksum of `content`.
pub fn checksum_matches(content: &[u8], stored: &str) -> (ok: bool)
    ensures
        ok == (trim_of(stored@) == lower_hex(md5_of(content@))),
{
    let computed = checksum_hex(content);
    let stored = trimmed(stored);
    stored == computed
}


// ─── DiskStorage ────────────────────────────────────────────────────

/// Storage of several collections under one base directory: each
/// collection has a directory of its own holding `meta.json` and
/// `points.jsonl`. The file system calls are made by the caller; this type
/// holds the base directory and decides what goes into `points.jsonl` and
/// what is read out of it.
pub struct DiskStorage {
    base_path: String,
}

impl DiskStorage {
    /// The base directory.
    pub closed spec fn base(&self) -> Seq<char> {
        self.base_path@
    }

    /// The storage rooted at `base_path` (the caller creates the directory).
    pub fn new(base_path: &str) -> (s: Self)
        ensures
            s.base() == base_path@,
    {
        DiskStorage { base_path: base_path.to_owned() }
    }

    /// The base directory.
    pub fn base_path(&self) -> (p: &str)
        ensures
            p@ == self.base(),
    {
        self.base_path.as_str()
    }

    /// The `points.jsonl` body for the serialized points: one per line.
    pub fn points_body(serialized: &Vec<String>) -> (body: String)
        ensures
            body@ == jsonl_body(string_views(serialized@)),
    {
        encode_jsonl(serialized)
    }

    /// The serialized points in a `points.jsonl` body: its non-empty lines,
    /// in order.
    pub fn points_from_body(content: &str) -> (serialized: Vec<String>)
        ensures
            string_views(serialized@) == numbered_records(content@).map_values(
                |p: (nat, Seq<char>)| p.1,
            ),
    {
        let recs = jsonl_records(content);
        let mut out: Vec<String> = Vec::new();
        let mut i: usize = 0;
        while i < recs.len()
            invariant
                i <= recs.len(),
                crate::jsonl::numbered_views(recs@) == numbered_records(content@),
                string_views(out@) == numbered_records(content@).take(i as int).map_values(
                    |p: (nat, Seq<char>)| p.1,
                ),
            decreases recs.len() - i,
        {
            let line = recs[i].1.clone();
            proof {
                let nv = crate::jsonl::numbered_views(recs@);
                assert(nv[i as int] == (recs@[i as int].0 as nat, recs@[i as int].1@));
                assert(line@ == numbered_records(content@)[i as int].1);
            }
            let ghost before = out@;
            out.push(line);
            proof {
                let nr = numbered_records(content@);
                assert(string_views(out@) =~= string_views(before).push(line@));
                assert(nr.take(i + 1).map_values(|p: (nat, Seq<char>)| p.1) =~= nr.take(
                    i as int,
                ).map_values(|p: (nat, Seq<char>)| p.1).push(nr[i as int].1));
            }
            i += 1;
        }
        proof {
            assert(numbered_records(content@).take(recs.len() as int) =~= numbered_records(
                content@,
            ));
        }
        out
    }
}

/// The serialized points that `DiskStorage::points_body` writes are what
/// `DiskStorage::points_from_body` reads back, unchanged and in order,
/// provided none is empty, holds a line break or ends with `\r` (which
/// serialized JSON never does).
pub proof fn law_points_roundtrip(serialized: Seq<Seq<char>>)
    requires
        forall|i: int| 0 <= i < serialized.len() ==> plain_record(#[trigger] serialized[i]),
    ensures
        numbered_records(jsonl_body(serialized)).map_values(|p: (nat, Seq<char>)| p.1)
            == serialized,
{
    law_jsonl_roundtrip(serialized);
    assert(numbered_records(jsonl_body(serialized)).map_values(|p: (nat, Seq<char>)| p.1)
        =~= serialized);
}

// ─── FileStorage ────────────────────────────────────────────────────

/// Persistence of one collection in a directory of its own, with an
/// integrity check: `points.jsonl` is stored with its MD5 checksum in
/// `checksum.md5`, and a load whose checksum does not match is refused.
/// The file system calls and (de)serialization are made by the caller.
pub struct FileStorage;

/// The error message of a failed integrity check.
pub open spec fn integrity_message(points_path: Seq<char>, stored: Seq<char>, computed: Seq<char>) -> Seq<char> {
    "integrity check failed for "@ + points_path + ": expected MD5 "@ + trim_of(stored) + ", got "@
        + computed
}

/// The error message for a line of `points.jsonl` that does not parse.
pub open spec fn corrupted_message(line: nat, points_path: Seq<char>, detail: Seq<char>) -> Seq<char> {
    "corrupted point at line "@ + decimal(line) + " in "@ + points_path + ": "@ + detail
}

impl FileStorage {
    /// The `points.jsonl` body for the serialized points and the checksum
    /// to store beside it (MD5 of the body's UTF-8 bytes, lower-case hex).
    pub fn points_file(serialized: &Vec<String>) -> (r: (String, String))
        ensures
            r.0@ == jsonl_body(string_views(serialized@)),
            r.1@ == lower_hex(md5_of(encode_utf8(r.0@))),
    {
        let body = encode_jsonl(serialized);
        let sum = checksum_hex(body.as_str().as_bytes());
        (body, sum)
    }

    /// Checks `points.jsonl` content against the stored checksum. A
    /// mismatch is `Storage` with a message naming both checksums.
    pub fn check_integrity(points_path: &str, content: &str, stored: &str) -> (r: Result<(), FerresError>)
        ensures
            r is Ok <==> trim_of(stored@) == lower_hex(md5_of(encode_utf8(content@))),
            stored@ == lower_hex(md5_of(encode_utf8(content@))) ==> r is Ok,
            r is Err ==> (r matches Err(FerresError::Storage(m)) && m@ == integrity_message(
                points_path@,
                stored@,
                lower_hex(md5_of(encode_utf8(content@))),
            )),
    {
        let computed = checksum_hex(content.as_bytes());
        let t = trimmed(stored);
        proof {
            lemma_lower_hex_shape(md5_of(encode_utf8(content@)));
            if stored@ == computed@ {
                if stored@.len() > 0 {
                    assert(ascii_alphanumeric(stored@[0]));
                    assert(ascii_alphanumeric(stored@[stored@.len() - 1]));
                }
                lemma_trim_keeps(stored@);
            }
        }
        if t == computed {
            Ok(())
        } else {
            let mut m = "integrity check failed for ".to_owned();
            push_str(&mut m, points_path);
            push_str(&mut m, ": expected MD5 ");
            push_str(&mut m, t.as_str());
            push_str(&mut m, ", got ");
            push_str(&mut m, computed.as_str());
            Err(FerresError::Storage(m))
        }
    }

    /// The error for line `line` of `points.jsonl` that does not parse,
    /// with the parser's own explanation `detail`.
    pub fn corrupted_point(line: usize, points_path: &str, detail: &str) -> (e: FerresError)
        ensures
            e matches FerresError::Storage(m) && m@ == corrupted_message(line as nat, points_path@, detail@),
    {
        let mut m = "corrupted point at line ".to_owned();
        let d = decimal_string(line as u64);
        push_str(&mut m, d.as_str());
        push_str(&mut m, " in ");
        push_str(&mut m, points_path);
        push_str(&mut m, ": ");
        push_str(&mut m, detail);
        FerresError::Storage(m)
    }

    /// The non-empty lines of `points.jsonl` with their line numbers.
    pub fn point_lines(content: &str) -> (lines: Vec<(usize, String)>)
        ensures
            crate::jsonl::numbered_views(lines@) == numbered_records(content@),
    {
        jsonl_records(content)
    }
}

} // verus!
