use vstd::prelude::*;

use crate::text::{decimal_digits, decimal_text};

use crate::time::Duration;

verus! {

/// A source that produces one stable, orderable load sample.
///
/// Selection policies call `measure` at most once per compared candidate.
/// Smaller means less loaded.
pub trait LoadMetric {
    /// The sampled value.
    spec fn spec_measure(&self) -> int;

    /// Samples the current load.
    fn measure(&self) -> (m: i128)
        ensures
            m as int == self.spec_measure(),
    ;
}

/// A load metric that is a count of concurrent work, as needed by the
/// bounded-load policy.
pub trait LoadCount {
    /// The sampled count.
    spec fn spec_count(&self) -> u64;

    /// Samples the current count.
    fn count(&self) -> (c: u64)
        ensures
            c == self.spec_count(),
    ;
}

impl LoadMetric for () {
    open spec fn spec_measure(&self) -> int {
        0
    }

    fn measure(&self) -> (m: i128) {
        0
    }
}

impl LoadMetric for bool {
    open spec fn spec_measure(&self) -> int {
        if *self { 1 } else { 0 }
    }

    fn measure(&self) -> (m: i128) {
        if *self { 1 } else { 0 }
    }
}

impl LoadMetric for u8 {
    open spec fn spec_measure(&self) -> int {
        *self as int
    }

    fn measure(&self) -> (m: i128) {
        *self as i128
    }
}

impl LoadMetric for u16 {
    open spec fn spec_measure(&self) -> int {
        *self as int
    }

    fn measure(&self) -> (m: i128) {
        *self as i128
    }
}

impl LoadMetric for u32 {
    open spec fn spec_measure(&self) -> int {
        *self as int
    }

    fn measure(&self) -> (m: i128) {
        *self as i128
    }
}

impl LoadMetric for u64 {
    open spec fn spec_measure(&self) -> int {
        *self as int
    }

    fn measure(&self) -> (m: i128) {
        *self as i128
    }
}

impl LoadMetric for usize {
    open spec fn spec_measure(&self) -> int {
        *self as int
    }

    fn measure(&self) -> (m: i128) {
        *self as i128
    }
}

impl LoadMetric for i8 {
    open spec fn spec_measure(&self) -> int {
        *self as int
    }

    fn measure(&self) -> (m: i128) {
        *self as i128
    }
}

impl LoadMetric for i16 {
    open spec fn spec_measure(&self) -> int {
        *self as int
    }

    fn measure(&self) -> (m: i128) {
        *self as i128
    }
}

impl LoadMetric for i32 {
    open spec fn spec_measure(&self) -> int {
        *self as int
    }

    fn measure(&self) -> (m: i128) {
        *self as i128
    }
}

impl LoadMetric for i64 {
    open spec fn spec_measure(&self) -> int {
        *self as int
    }

    fn measure(&self) -> (m: i128) {
        *self as i128
    }
}

impl LoadMetric for isize {
    open spec fn spec_measure(&self) -> int {
        *self as int
    }

    fn measure(&self) -> (m: i128) {
        *self as i128
    }
}

/// Every integer load measures in the order of its value, whatever its
/// type: a smaller load measures smaller, so it counts as less loaded, and
/// equal loads measure equal. A busy flag counts as more loaded than an idle
/// one, and the unit load makes every candidate equally loaded.
pub proof fn lemma_integer_loads_order_by_value(
    a8: u8,
    b8: u8,
    a16: u16,
    b16: u16,
    a32: u32,
    b32: u32,
    a64: u64,
    b64: u64,
    au: usize,
    bu: usize,
    ai8: i8,
    bi8: i8,
    ai16: i16,
    bi16: i16,
    ai32: i32,
    bi32: i32,
    ai64: i64,
    bi64: i64,
    ai: isize,
    bi: isize,
    busy: bool,
    idle: bool,
    unit_a: (),
    unit_b: (),
)
    ensures
        a8 < b8 <==> a8.spec_measure() < b8.spec_measure(),
        a8 == b8 <==> a8.spec_measure() == b8.spec_measure(),
        a16 < b16 <==> a16.spec_measure() < b16.spec_measure(),
        a16 == b16 <==> a16.spec_measure() == b16.spec_measure(),
        a32 < b32 <==> a32.spec_measure() < b32.spec_measure(),
        a32 == b32 <==> a32.spec_measure() == b32.spec_measure(),
        a64 < b64 <==> a64.spec_measure() < b64.spec_measure(),
        a64 == b64 <==> a64.spec_measure() == b64.spec_measure(),
        au < bu <==> au.spec_measure() < bu.spec_measure(),
        au == bu <==> au.spec_measure() == bu.spec_measure(),
        ai8 < bi8 <==> ai8.spec_measure() < bi8.spec_measure(),
        ai8 == bi8 <==> ai8.spec_measure() == bi8.spec_measure(),
        ai16 < bi16 <==> ai16.spec_measure() < bi16.spec_measure(),
        ai16 == bi16 <==> ai16.spec_measure() == bi16.spec_measure(),
        ai32 < bi32 <==> ai32.spec_measure() < bi32.spec_measure(),
        ai32 == bi32 <==> ai32.spec_measure() == bi32.spec_measure(),
        ai64 < bi64 <==> ai64.spec_measure() < bi64.spec_measure(),
        ai64 == bi64 <==> ai64.spec_measure() == bi64.spec_measure(),
        ai < bi <==> ai.spec_measure() < bi.spec_measure(),
        ai == bi <==> ai.spec_measure() == bi.spec_measure(),
        busy && !idle ==> idle.spec_measure() < busy.spec_measure(),
        busy == idle <==> busy.spec_measure() == idle.spec_measure(),
        unit_a.spec_measure() == unit_b.spec_measure(),
{
}

/// A `u64` load counts as that many attempts in flight: an idle load
/// counts zero, and a larger load always counts more.
pub proof fn lemma_u64_loads_count_in_order(a: u64, b: u64)
    ensures
        0u64.spec_count() == 0,
        a < b <==> a.spec_count() < b.spec_count(),
        a == b <==> a.spec_count() == b.spec_count(),
{
}

impl LoadCount for u64 {
    open spec fn spec_count(&self) -> u64 {
        *self
    }

    fn count(&self) -> (c: u64) {
        *self
    }
}

/// An attempt could not enter an in-flight tracker.
#[derive(Clone, Copy, Debug, PartialEq, Eq, Structural, Hash)]
pub struct AtCapacity {
    limit: Option<u64>,
}

impl AtCapacity {
    /// Creates the rejection for a tracker with the given limit, or `None`
    /// when the raw counter was exhausted.
    pub fn new(limit: Option<u64>) -> (e: Self)
        ensures
            e.spec_limit() == limit,
    {
        AtCapacity { limit }
    }

    /// The configured limit.
    pub closed spec fn spec_limit(self) -> Option<u64> {
        self.limit
    }

    /// Returns the configured limit, or `None` if the raw counter was exhausted.
    pub fn limit(self) -> (l: Option<u64>)
        ensures
            l == self.spec_limit(),
    {
        self.limit
    }

    /// Describes the rejection.
    pub fn message(&self) -> (m: String)
        ensures
            m@ == (match self.spec_limit() {
                Some(limit) => "the in-flight limit of "@ + decimal_digits(limit as nat) + " has been reached"@,
                None => "the in-flight counter is exhausted"@,
            }),
    {
        match self.limit {
            Some(limit) => {
                let count = decimal_text(limit);
                String::from_str("the in-flight limit of ").concat(count.as_str()).concat(" has been reached")
            },
            None => String::from_str("the in-flight counter is exhausted"),
        }
    }
}

/// Decides whether a counter at `current` may admit one more attempt.
///
/// An attempt is refused at the configured limit and when the unbounded
/// counter is exhausted.
pub fn admit_attempt(current: u64, limit: Option<u64>) -> (r: Result<u64, AtCapacity>)
    ensures
        match r {
            Ok(next) => next == current + 1 && current < u64::MAX && (limit matches Some(l)
                ==> current < l),
            Err(e) => e.spec_limit() == limit && (current == u64::MAX || (limit matches Some(l)
                && current >= l)),
        },
{
    let unavailable = match limit {
        Some(l) => current >= l,
        None => false,
    };
    if unavailable || current == u64::MAX {
        Err(AtCapacity::new(limit))
    } else {
        Ok(current + 1)
    }
}

/// Invalid peak-EWMA configuration.
#[derive(Clone, Copy, Debug, PartialEq, Eq, Structural, Hash)]
pub enum PeakEwmaConfigError {
    /// A zero default latency would make cold backends unrealistically free.
    ZeroDefaultRtt,
    /// A zero half-life makes exponential decay undefined.
    ZeroHalfLife,
}

impl PeakEwmaConfigError {
    /// Describes the error.
    pub fn message(&self) -> (m: String)
        ensures
            m@ == (match *self {
                PeakEwmaConfigError::ZeroDefaultRtt => "peak EWMA default RTT must be non-zero"@,
                PeakEwmaConfigError::ZeroHalfLife => "peak EWMA half-life must be non-zero"@,
            }),
    {
        match self {
            PeakEwmaConfigError::ZeroDefaultRtt => String::from_str(
                "peak EWMA default RTT must be non-zero",
            ),
            PeakEwmaConfigError::ZeroHalfLife => String::from_str(
                "peak EWMA half-life must be non-zero",
            ),
        }
    }
}

/// Validates a peak-EWMA configuration: both the default latency and the
/// decay half-life must be non-zero, the latency checked first.
pub fn check_peak_ewma(default_rtt: Duration, half_life: Duration) -> (r: Result<(), PeakEwmaConfigError>)
    ensures
        default_rtt@ == 0 ==> r == Err::<(), PeakEwmaConfigError>(PeakEwmaConfigError::ZeroDefaultRtt),
        default_rtt@ != 0 && half_life@ == 0 ==> r == Err::<(), PeakEwmaConfigError>(PeakEwmaConfigError::ZeroHalfLife),
        default_rtt@ != 0 && half_life@ != 0 ==> r is Ok,
{
    if default_rtt.is_zero() {
        return Err(PeakEwmaConfigError::ZeroDefaultRtt);
    }
    if half_life.is_zero() {
        return Err(PeakEwmaConfigError::ZeroHalfLife);
    }
    Ok(())
}

} // verus!
