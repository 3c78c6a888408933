use vstd::prelude::*;

use std::sync::Arc;
use std::sync::atomic::AtomicU64;

use crate::time::Duration;

use super::event::{AttemptEvent, AttemptKind, DecisionEvent, DecisionKind, ReadinessFailure, attempt_slot, decision_slot};
use super::observer::Observer;

verus! {

/// Attempt latency buckets: the bounds plus one overflow bucket.
pub const ATTEMPT_LATENCY_BUCKET_COUNT: usize = 11;

/// The upper bound of latency bucket `i`, in nanoseconds.
pub open spec fn bound_nanos(i: int) -> int {
    if i == 0 {
        1_000_000
    } else if i == 1 {
        5_000_000
    } else if i == 2 {
        10_000_000
    } else if i == 3 {
        25_000_000
    } else if i == 4 {
        50_000_000
    } else if i == 5 {
        100_000_000
    } else if i == 6 {
        250_000_000
    } else if i == 7 {
        500_000_000
    } else if i == 8 {
        1_000_000_000
    } else {
        5_000_000_000
    }
}

/// The upper bounds of the attempt latency buckets: 1, 5, 10, 25, 50, 100,
/// 250 and 500 milliseconds, then 1 and 5 seconds.
pub fn attempt_latency_bounds() -> (b: [Duration; 10])
    ensures
        forall|i: int| 0 <= i < 10 ==> (#[trigger] b@[i])@ == bound_nanos(i),
{
    [
        Duration::from_millis(1),
        Duration::from_millis(5),
        Duration::from_millis(10),
        Duration::from_millis(25),
        Duration::from_millis(50),
        Duration::from_millis(100),
        Duration::from_millis(250),
        Duration::from_millis(500),
        Duration::from_secs(1),
        Duration::from_secs(5),
    ]
}

/// The bucket an attempt of `elapsed` nanoseconds falls in: the first whose
/// bound it does not exceed, or the overflow bucket.
pub open spec fn bucket_of(elapsed: int) -> int {
    if elapsed <= bound_nanos(0) {
        0
    } else if elapsed <= bound_nanos(1) {
        1
    } else if elapsed <= bound_nanos(2) {
        2
    } else if elapsed <= bound_nanos(3) {
        3
    } else if elapsed <= bound_nanos(4) {
        4
    } else if elapsed <= bound_nanos(5) {
        5
    } else if elapsed <= bound_nanos(6) {
        6
    } else if elapsed <= bound_nanos(7) {
        7
    } else if elapsed <= bound_nanos(8) {
        8
    } else if elapsed <= bound_nanos(9) {
        9
    } else {
        10
    }
}

/// Finds the latency bucket of an attempt.
pub fn latency_bucket(elapsed: Duration) -> (i: usize)
    ensures
        i == bucket_of(elapsed@ as int),
        i < ATTEMPT_LATENCY_BUCKET_COUNT,
{
    let bounds = attempt_latency_bounds();
    let mut i: usize = 0;
    while i < 10
        invariant
            i <= 10,
            forall|j: int| 0 <= j < 10 ==> (#[trigger] bounds@[j])@ == bound_nanos(j),
            forall|j: int| 0 <= j < i ==> elapsed@ > bound_nanos(j),
        decreases 10 - i,
    {
        if elapsed.as_nanos() <= bounds[i].as_nanos() {
            return i;
        }
        i = i + 1;
    }
    10
}

/// Whole microseconds of a duration, saturating at `u64::MAX`.
pub fn saturating_micros(elapsed: Duration) -> (m: u64)
    ensures
        m as int == if elapsed@ / 1000 <= u64::MAX { (elapsed@ / 1000) as int } else { u64::MAX as int },
{
    let micros = elapsed.as_nanos() / 1000;
    if micros <= u64::MAX as u128 {
        micros as u64
    } else {
        u64::MAX
    }
}

/// The saturating sum, always present.
pub fn saturated_sum(current: u64, amount: u64) -> (r: Option<u64>)
    ensures
        r == Some(if current + amount <= u64::MAX { (current + amount) as u64 } else { u64::MAX }),
{
    Some(current.saturating_add(amount))
}

/// `AtomicU64::fetch_update` with the saturating sum: adds `amount`,
/// stopping at `u64::MAX`. Other threads may change the counter, so
/// nothing is stated of its value.
#[verifier::external_body]
fn counter_add(counter: &AtomicU64, amount: u64) {
    let _ = counter.fetch_update(
        std::sync::atomic::Ordering::Relaxed,
        std::sync::atomic::Ordering::Relaxed,
        |current| saturated_sum(current, amount),
    );
}

/// The counter's value at some moment; other threads may change it, so
/// nothing is stated of it.
fn counter_read(counter: &AtomicU64) -> u64 {
    counter.load(std::sync::atomic::Ordering::Relaxed)
}

/// One cumulative latency bucket: attempts no slower than its bound.
#[derive(Clone, Copy, Debug, PartialEq, Eq, Structural, Hash)]
pub struct LatencyBucket {
    upper_bound: Option<Duration>,
    count: u64,
}

impl LatencyBucket {
    /// The bucket's bound, or `None` for the overflow bucket.
    pub closed spec fn spec_upper_bound(self) -> Option<Duration> {
        self.upper_bound
    }

    /// The cumulative count.
    pub closed spec fn spec_count(self) -> u64 {
        self.count
    }

    /// Returns the bucket's bound, or `None` for the overflow bucket.
    pub fn upper_bound(self) -> (b: Option<Duration>)
        ensures
            b == self.spec_upper_bound(),
    {
        self.upper_bound
    }

    /// Returns the cumulative count.
    pub fn count(self) -> (c: u64)
        ensures
            c == self.spec_count(),
    {
        self.count
    }
}

/// The saturating sum of the first `k` counts.
pub open spec fn saturating_prefix(counts: Seq<u64>, k: int) -> int
    decreases k,
{
    if k <= 0 {
        0
    } else {
        let s = saturating_prefix(counts, k - 1) + counts[k - 1];
        if s <= u64::MAX {
            s
        } else {
            u64::MAX as int
        }
    }
}

/// A cumulative attempt-latency histogram.
#[derive(Clone, Copy, Debug, PartialEq, Eq, Hash)]
pub struct LatencyHistogram {
    buckets: [LatencyBucket; 11],
    sum: Duration,
}

impl LatencyHistogram {
    /// The buckets, in bound order.
    pub closed spec fn spec_buckets(self) -> Seq<LatencyBucket> {
        self.buckets@
    }

    /// The summed latency.
    pub closed spec fn spec_sum(self) -> Duration {
        self.sum
    }

    /// Builds a cumulative histogram from per-bucket counts and a latency
    /// sum in microseconds.
    pub fn from_counts(exact: [u64; 11], sum_micros: u64) -> (h: Self)
        ensures
            h.spec_buckets().len() == 11,
            forall|i: int|
                0 <= i < 11 ==> (#[trigger] h.spec_buckets()[i]).spec_count() == saturating_prefix(exact@, i + 1)
                    && (i < 10 ==> (h.spec_buckets()[i].spec_upper_bound() matches Some(b) && b@ == bound_nanos(i)))
                    && (i == 10 ==> h.spec_buckets()[i].spec_upper_bound() is None),
            h.spec_sum()@ == sum_micros * 1000,
    {
        let bounds = attempt_latency_bounds();
        let mut buckets = [LatencyBucket { upper_bound: None, count: 0 }; 11];
        let mut cumulative: u64 = 0;
        let mut i: usize = 0;
        while i < 11
            invariant
                i <= 11,
                forall|j: int| 0 <= j < 10 ==> (#[trigger] bounds@[j])@ == bound_nanos(j),
                cumulative == saturating_prefix(exact@, i as int),
                forall|j: int|
                    0 <= j < i ==> (#[trigger] buckets@[j]).spec_count() == saturating_prefix(exact@, j + 1)
                        && (j < 10 ==> (buckets@[j].spec_upper_bound() matches Some(b) && b@ == bound_nanos(j)))
                        && (j == 10 ==> buckets@[j].spec_upper_bound() is None),
            decreases 11 - i,
        {
            cumulative = cumulative.saturating_add(exact[i]);
            let upper_bound = if i < 10 {
                Some(bounds[i])
            } else {
                None
            };
            buckets[i] = LatencyBucket { upper_bound, count: cumulative };
            i = i + 1;
        }
        LatencyHistogram { buckets, sum: Duration::from_nanos(sum_micros as u128 * 1000) }
    }

    /// Returns the buckets.
    pub fn buckets(self) -> (b: [LatencyBucket; 11])
        ensures
            b@ == self.spec_buckets(),
    {
        self.buckets
    }

    /// Returns the number of attempts, the overflow bucket's cumulative count.
    pub fn count(self) -> (c: u64)
        ensures
            c == self.spec_buckets()[10].spec_count(),
    {
        self.buckets[10].count
    }

    /// Returns the summed latency.
    pub fn sum(self) -> (d: Duration)
        ensures
            d == self.spec_sum(),
    {
        self.sum
    }
}

/// Counter values read from [`Metrics`].
#[derive(Clone, Copy, Debug, PartialEq, Eq, Hash)]
pub struct MetricsSnapshot {
    decisions: [u64; 10],
    attempts: [u64; 5],
    readiness_failures: u64,
    latency: LatencyHistogram,
}

impl MetricsSnapshot {
    /// Decision counts, by kind position.
    pub closed spec fn spec_decisions(self) -> Seq<u64> {
        self.decisions@
    }

    /// Attempt counts, by kind position.
    pub closed spec fn spec_attempts(self) -> Seq<u64> {
        self.attempts@
    }

    /// The readiness-failure count.
    pub closed spec fn spec_readiness_failures(self) -> u64 {
        self.readiness_failures
    }

    /// The latency histogram.
    pub closed spec fn spec_latency(self) -> LatencyHistogram {
        self.latency
    }

    /// Assembles a snapshot.
    pub fn new(decisions: [u64; 10], attempts: [u64; 5], readiness_failures: u64, latency: LatencyHistogram) -> (s: Self)
        ensures
            s.spec_decisions() == decisions@,
            s.spec_attempts() == attempts@,
            s.spec_readiness_failures() == readiness_failures,
            s.spec_latency() == latency,
    {
        MetricsSnapshot { decisions, attempts, readiness_failures, latency }
    }

    /// Returns the count of decisions of `kind`.
    pub fn decisions(self, kind: DecisionKind) -> (n: u64)
        ensures
            n == self.spec_decisions()[decision_slot(kind)],
    {
        self.decisions[kind.index()]
    }

    /// Returns the count of attempts of `kind`.
    pub fn attempts(self, kind: AttemptKind) -> (n: u64)
        ensures
            n == self.spec_attempts()[attempt_slot(kind)],
    {
        self.attempts[kind.index()]
    }

    /// Returns the readiness-failure count.
    pub fn readiness_failures(self) -> (n: u64)
        ensures
            n == self.spec_readiness_failures(),
    {
        self.readiness_failures
    }

    /// Returns the latency histogram.
    pub fn attempt_latency(self) -> (h: LatencyHistogram)
        ensures
            h == self.spec_latency(),
    {
        self.latency
    }
}

/// Whether `h` is a cumulative latency histogram as snapshots build it:
/// eleven buckets with the attempt latency bounds in order, the last one
/// unbounded, counts that never decrease from bucket to bucket, and a sum
/// in whole microseconds.
pub open spec fn is_cumulative_histogram(h: LatencyHistogram) -> bool {
    &&& h.spec_buckets().len() == 11
    &&& forall|i: int|
        0 <= i < 10 ==> ((#[trigger] h.spec_buckets()[i]).spec_upper_bound() matches Some(b) && b@ == bound_nanos(i))
    &&& h.spec_buckets()[10].spec_upper_bound() is None
    &&& forall|i: int, j: int|
        0 <= i <= j < 11 ==> (#[trigger] h.spec_buckets()[i]).spec_count() <= (#[trigger] h.spec_buckets()[j]).spec_count()
    &&& h.spec_sum()@ % 1000 == 0
}

proof fn lemma_prefix_mono(counts: Seq<u64>, a: int, b: int)
    requires
        0 <= a <= b,
    ensures
        saturating_prefix(counts, a) <= saturating_prefix(counts, b),
    decreases b - a,
{
    if a < b {
        lemma_prefix_mono(counts, a, b - 1);
        lemma_prefix_bounds(counts, b - 1);
    }
}

proof fn lemma_prefix_bounds(counts: Seq<u64>, k: int)
    ensures
        0 <= saturating_prefix(counts, k) <= u64::MAX,
    decreases k,
{
    if k > 0 {
        lemma_prefix_bounds(counts, k - 1);
    }
}

struct MetricsCells {
    decisions: [AtomicU64; 10],
    attempts: [AtomicU64; 5],
    readiness_failures: AtomicU64,
    latency_buckets: [AtomicU64; 11],
    latency_micros: AtomicU64,
}

/// Lock-free, saturating counters of decisions, attempts, readiness
/// failures, and attempt latency. Clones share the counters.
#[derive(Clone)]
pub struct Metrics {
    cells: Arc<MetricsCells>,
}

impl Metrics {
    /// Creates zeroed counters.
    pub fn new() -> (m: Self) {
        let cells = MetricsCells {
            decisions: [
                AtomicU64::new(0),
                AtomicU64::new(0),
                AtomicU64::new(0),
                AtomicU64::new(0),
                AtomicU64::new(0),
                AtomicU64::new(0),
                AtomicU64::new(0),
                AtomicU64::new(0),
                AtomicU64::new(0),
                AtomicU64::new(0),
            ],
            attempts: [AtomicU64::new(0), AtomicU64::new(0), AtomicU64::new(0), AtomicU64::new(0), AtomicU64::new(0)],
            readiness_failures: AtomicU64::new(0),
            latency_buckets: [
                AtomicU64::new(0),
                AtomicU64::new(0),
                AtomicU64::new(0),
                AtomicU64::new(0),
                AtomicU64::new(0),
                AtomicU64::new(0),
                AtomicU64::new(0),
                AtomicU64::new(0),
                AtomicU64::new(0),
                AtomicU64::new(0),
                AtomicU64::new(0),
            ],
            latency_micros: AtomicU64::new(0),
        };
        Metrics { cells: Arc::new(cells) }
    }

    /// Counts one decision under its kind.
    pub fn record_decision(&self, event: DecisionEvent) {
        counter_add(&self.cells.decisions[event.kind().index()], 1);
    }

    /// Counts one attempt under its kind and latency bucket, and adds its
    /// latency in microseconds.
    pub fn record_attempt(&self, event: AttemptEvent) {
        counter_add(&self.cells.attempts[event.kind().index()], 1);
        counter_add(&self.cells.latency_buckets[latency_bucket(event.elapsed())], 1);
        counter_add(&self.cells.latency_micros, saturating_micros(event.elapsed()));
    }

    /// Counts one readiness failure.
    pub fn record_readiness_failure(&self, event: ReadinessFailure) {
        counter_add(&self.cells.readiness_failures, 1);
    }

    /// Reads every counter into a snapshot with a cumulative histogram.
    pub fn snapshot(&self) -> (s: MetricsSnapshot)
        ensures
            s.spec_decisions().len() == 10,
            s.spec_attempts().len() == 5,
            is_cumulative_histogram(s.spec_latency()),
    {
        let cells = &*self.cells;
        let mut decisions = [0u64; 10];
        let mut i: usize = 0;
        while i < 10
            decreases 10 - i,
        {
            decisions[i] = counter_read(&cells.decisions[i]);
            i = i + 1;
        }
        let mut attempts = [0u64; 5];
        i = 0;
        while i < 5
            decreases 5 - i,
        {
            attempts[i] = counter_read(&cells.attempts[i]);
            i = i + 1;
        }
        let mut exact = [0u64; 11];
        i = 0;
        while i < 11
            decreases 11 - i,
        {
            exact[i] = counter_read(&cells.latency_buckets[i]);
            i = i + 1;
        }
        let sum_micros = counter_read(&cells.latency_micros);
        let latency = LatencyHistogram::from_counts(exact, sum_micros);
        proof {
            assert forall|i: int, j: int| 0 <= i <= j < 11 implies (#[trigger] latency.spec_buckets()[i]).spec_count()
                <= (#[trigger] latency.spec_buckets()[j]).spec_count() by {
                lemma_prefix_mono(exact@, i + 1, j + 1);
            }
            vstd::arithmetic::div_mod::lemma_mod_multiples_basic(sum_micros as int, 1000);
        }
        MetricsSnapshot::new(decisions, attempts, counter_read(&cells.readiness_failures), latency)
    }
}

impl Default for Metrics {
    fn default() -> (m: Self) {
        Metrics::new()
    }
}

impl Observer for Metrics {
    fn observe_decision(&self, event: DecisionEvent) {
        self.record_decision(event);
    }

    fn observe_attempt(&self, event: AttemptEvent) {
        self.record_attempt(event);
    }

    fn observe_readiness_failure(&self, event: ReadinessFailure) {
        self.record_readiness_failure(event);
    }
}

} // verus!
