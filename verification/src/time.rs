//! Nanosecond durations and instants for time-driven state machines.

use vstd::prelude::*;

verus! {

/// A span of time in nanoseconds.
#[derive(Clone, Copy, Debug, PartialEq, Eq, Structural, PartialOrd, Ord, Hash)]
pub struct Duration {
    nanos: u128,
}

impl View for Duration {
    type V = u128;

    closed spec fn view(&self) -> u128 {
        self.nanos
    }
}

impl Duration {
    /// The empty duration.
    pub fn zero() -> (d: Self)
        ensures
            d@ == 0,
    {
        Duration { nanos: 0 }
    }

    /// A duration of whole nanoseconds.
    pub fn from_nanos(nanos: u128) -> (d: Self)
        ensures
            d@ == nanos,
    {
        Duration { nanos }
    }

    /// A duration of whole milliseconds.
    pub fn from_millis(millis: u64) -> (d: Self)
        ensures
            d@ == millis * 1_000_000,
    {
        Duration { nanos: millis as u128 * 1_000_000 }
    }

    /// A duration of whole seconds.
    pub fn from_secs(secs: u64) -> (d: Self)
        ensures
            d@ == secs * 1_000_000_000,
    {
        Duration { nanos: secs as u128 * 1_000_000_000 }
    }

    /// Returns the length in nanoseconds.
    pub fn as_nanos(self) -> (n: u128)
        ensures
            n == self@,
    {
        self.nanos
    }

    /// Returns whether the duration is empty.
    pub fn is_zero(self) -> (b: bool)
        ensures
            b == (self@ == 0),
    {
        self.nanos == 0
    }

    /// Subtracts, stopping at zero.
    pub fn saturating_sub(self, other: Duration) -> (d: Duration)
        ensures
            d@ == if self@ >= other@ { self@ - other@ } else { 0 },
    {
        if self.nanos >= other.nanos {
            Duration { nanos: self.nanos - other.nanos }
        } else {
            Duration { nanos: 0 }
        }
    }

    /// Adds, or returns `None` on overflow.
    pub fn checked_add(self, other: Duration) -> (d: Option<Duration>)
        ensures
            self@ + other@ <= u128::MAX ==> d == Some(Duration::from_nanos_spec((self@ + other@) as u128)),
            self@ + other@ > u128::MAX ==> d is None,
    {
        match self.nanos.checked_add(other.nanos) {
            Some(n) => Some(Duration { nanos: n }),
            None => None,
        }
    }

    /// The duration of `nanos` nanoseconds.
    pub closed spec fn from_nanos_spec(nanos: u128) -> Duration {
        Duration { nanos }
    }

    /// Durations are their lengths.
    pub proof fn lemma_view(nanos: u128)
        ensures
            Duration::from_nanos_spec(nanos)@ == nanos,
    {
    }

    /// Whether the duration fits `std::time::Duration`: its whole seconds fit
    /// in a `u64`.
    pub open spec fn fits_std(self) -> bool {
        self@ / 1_000_000_000 <= u64::MAX
    }

    /// The text `{:?}` prints for this duration as a `std::time::Duration`.
    pub open spec fn spec_debug_text(self) -> Seq<char> {
        duration_debug_text((self@ / 1_000_000_000) as u64, (self@ % 1_000_000_000) as u32)
    }

    /// Writes the duration as `{:?}` prints a `std::time::Duration`.
    pub fn debug_text(self) -> (s: String)
        requires
            self.fits_std(),
        ensures
            s@ == self.spec_debug_text(),
    {
        let secs = (self.nanos / 1_000_000_000) as u64;
        let subsec = (self.nanos % 1_000_000_000) as u32;
        duration_debug(secs, subsec)
    }
}

/// The text that `{:?}` prints for `std::time::Duration::new(secs, nanos)`.
pub uninterp spec fn duration_debug_text(secs: u64, nanos: u32) -> Seq<char>;

/// `Debug` of `std::time::Duration`, for a duration of `secs` seconds and
/// `nanos` nanoseconds: the printed text, which depends on these alone.
/// `Duration::new` cannot panic here, as the nanoseconds stay below a second.
#[verifier::external_body]
fn duration_debug(secs: u64, nanos: u32) -> (s: String)
    requires
        nanos < 1_000_000_000,
    ensures
        s@ == duration_debug_text(secs, nanos),
{
    format!("{:?}", std::time::Duration::new(secs, nanos))
}

/// A point in time, in nanoseconds since an arbitrary origin.
#[derive(Clone, Copy, Debug, PartialEq, Eq, Structural, PartialOrd, Ord, Hash)]
pub struct Instant {
    nanos: u128,
}

impl View for Instant {
    type V = u128;

    closed spec fn view(&self) -> u128 {
        self.nanos
    }
}

impl Instant {
    /// The instant `nanos` nanoseconds after the origin.
    pub fn from_nanos(nanos: u128) -> (t: Self)
        ensures
            t@ == nanos,
    {
        Instant { nanos }
    }

    /// Returns the nanoseconds since the origin.
    pub fn as_nanos(self) -> (n: u128)
        ensures
            n == self@,
    {
        self.nanos
    }

    /// The time elapsed from `earlier` to `self`, or zero if `earlier` is
    /// later.
    pub fn saturating_duration_since(self, earlier: Instant) -> (d: Duration)
        ensures
            d@ == if self@ >= earlier@ { self@ - earlier@ } else { 0 },
    {
        if self.nanos >= earlier.nanos {
            Duration::from_nanos(self.nanos - earlier.nanos)
        } else {
            Duration::zero()
        }
    }

    /// The instant `duration` later, or `None` on overflow.
    pub fn checked_add(self, duration: Duration) -> (t: Option<Instant>)
        ensures
            self@ + duration@ <= u128::MAX ==> (t matches Some(u) && u@ == self@ + duration@),
            self@ + duration@ > u128::MAX ==> t is None,
    {
        match self.nanos.checked_add(duration.as_nanos()) {
            Some(n) => Some(Instant { nanos: n }),
            None => None,
        }
    }
}

} // verus!
