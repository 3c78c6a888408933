//! Configuration and decisions of a scheduler that drives an active health
//! check: when to wait, when to give up, and how a probe that ran out of time
//! is classified.

use vstd::prelude::*;

use crate::health::active::{ActiveSnapshot, ProbeRejected, ProbeResult};
use crate::time::Duration;

verus! {

/// Calls `tokio::time::Instant::now` and adds `secs` seconds and `nanos`
/// nanoseconds with `tokio::time::Instant::checked_add`, telling whether the
/// sum exists. The answer depends on the clock, so nothing is stated of it.
#[verifier::external_body]
fn tokio_deadline_fits(secs: u64, nanos: u32) -> (r: bool)
    requires
        nanos < 1_000_000_000,
{
    match tokio::time::Instant::now().checked_add(std::time::Duration::new(secs, nanos)) {
        Some(_) => true,
        None => false,
    }
}

/// How a timed-out probe affects active-health state.
#[derive(Clone, Copy, Debug, PartialEq, Eq, Structural, Hash)]
pub enum ProbeTimeoutPolicy {
    /// Record the timeout as an unhealthy probe result.
    Unhealthy,
    /// Cancel the reservation without changing health classification.
    Cancel,
}

impl Default for ProbeTimeoutPolicy {
    fn default() -> (p: Self)
        ensures
            p == ProbeTimeoutPolicy::Unhealthy,
    {
        ProbeTimeoutPolicy::Unhealthy
    }
}

/// Invalid runner configuration.
#[derive(Clone, Copy, Debug, PartialEq, Eq, Structural, Hash)]
pub enum ProbeRunnerConfigError {
    /// A zero timeout would deterministically prevent every probe.
    ZeroTimeout,
    /// The deadline cannot be represented by the runtime's monotonic clock.
    TimeoutTooLarge,
}

impl ProbeRunnerConfigError {
    /// Describes the error.
    pub fn message(&self) -> (m: String)
        ensures
            m@ == (match *self {
                ProbeRunnerConfigError::ZeroTimeout => "probe timeout must be non-zero"@,
                ProbeRunnerConfigError::TimeoutTooLarge => "probe timeout is too large"@,
            }),
    {
        match self {
            ProbeRunnerConfigError::ZeroTimeout => String::from_str("probe timeout must be non-zero"),
            ProbeRunnerConfigError::TimeoutTooLarge => String::from_str("probe timeout is too large"),
        }
    }
}

/// Runtime policy of a probe runner: an optional timeout, and what a
/// timeout means.
#[derive(Clone, Copy, Debug, PartialEq, Eq, Structural, Hash)]
pub struct ProbeRunnerConfig {
    timeout: Option<Duration>,
    timeout_policy: ProbeTimeoutPolicy,
}

/// The largest whole number of seconds the runtime's durations hold.
pub open spec fn seconds_fit(d: Duration) -> bool {
    d@ / 1_000_000_000 <= u64::MAX
}

impl ProbeRunnerConfig {
    /// The timeout, or `None` when disabled.
    pub closed spec fn spec_timeout(self) -> Option<Duration> {
        self.timeout
    }

    /// The timeout classification policy.
    pub closed spec fn spec_timeout_policy(self) -> ProbeTimeoutPolicy {
        self.timeout_policy
    }

    /// Creates a runner policy with a finite, non-zero timeout, given whether
    /// the runtime clock can represent the deadline it sets.
    pub fn from_deadline(timeout: Duration, representable: bool) -> (r: Result<Self, ProbeRunnerConfigError>)
        ensures
            timeout@ == 0 ==> r == Err::<Self, ProbeRunnerConfigError>(ProbeRunnerConfigError::ZeroTimeout),
            timeout@ != 0 && !representable ==> r == Err::<Self, ProbeRunnerConfigError>(
                ProbeRunnerConfigError::TimeoutTooLarge,
            ),
            timeout@ != 0 && representable ==> (r matches Ok(c) && c.spec_timeout() == Some(timeout)
                && c.spec_timeout_policy() == ProbeTimeoutPolicy::Unhealthy),
    {
        if timeout.is_zero() {
            return Err(ProbeRunnerConfigError::ZeroTimeout);
        }
        if !representable {
            return Err(ProbeRunnerConfigError::TimeoutTooLarge);
        }
        Ok(ProbeRunnerConfig { timeout: Some(timeout), timeout_policy: ProbeTimeoutPolicy::Unhealthy })
    }

    /// Creates a runner policy with a finite, non-zero timeout whose deadline
    /// the runtime clock can represent from now.
    pub fn new(timeout: Duration) -> (r: Result<Self, ProbeRunnerConfigError>)
        ensures
            timeout@ == 0 ==> r == Err::<Self, ProbeRunnerConfigError>(ProbeRunnerConfigError::ZeroTimeout),
            timeout@ != 0 && !seconds_fit(timeout) ==> r == Err::<Self, ProbeRunnerConfigError>(
                ProbeRunnerConfigError::TimeoutTooLarge,
            ),
            r matches Err(e) ==> (e == ProbeRunnerConfigError::ZeroTimeout <==> timeout@ == 0),
            r matches Ok(c) ==> c.spec_timeout() == Some(timeout) && c.spec_timeout_policy()
                == ProbeTimeoutPolicy::Unhealthy,
    {
        if timeout.is_zero() {
            return Err(ProbeRunnerConfigError::ZeroTimeout);
        }
        let nanos = timeout.as_nanos();
        let secs = nanos / 1_000_000_000;
        if secs > 0xffff_ffff_ffff_ffff {
            return Err(ProbeRunnerConfigError::TimeoutTooLarge);
        }
        let fits = tokio_deadline_fits(secs as u64, (nanos % 1_000_000_000) as u32);
        Self::from_deadline(timeout, fits)
    }

    /// Creates a policy that never times out a started probe.
    pub fn without_timeout() -> (c: Self)
        ensures
            c.spec_timeout() is None,
            c.spec_timeout_policy() == ProbeTimeoutPolicy::Unhealthy,
    {
        ProbeRunnerConfig { timeout: None, timeout_policy: ProbeTimeoutPolicy::Unhealthy }
    }

    /// Sets the classification applied when a finite timeout expires.
    pub fn with_timeout_policy(self, policy: ProbeTimeoutPolicy) -> (c: Self)
        ensures
            c.spec_timeout() == self.spec_timeout(),
            c.spec_timeout_policy() == policy,
    {
        ProbeRunnerConfig { timeout: self.timeout, timeout_policy: policy }
    }

    /// Returns the configured timeout, or `None` when disabled.
    pub fn timeout(self) -> (t: Option<Duration>)
        ensures
            t == self.spec_timeout(),
    {
        self.timeout
    }

    /// Returns the timeout classification policy.
    pub fn timeout_policy(self) -> (p: ProbeTimeoutPolicy)
        ensures
            p == self.spec_timeout_policy(),
    {
        self.timeout_policy
    }
}

impl Default for ProbeRunnerConfig {
    /// A five-second timeout recorded as unhealthy.
    fn default() -> (c: Self)
        ensures
            c.spec_timeout() matches Some(t) && t@ == 5_000_000_000,
            c.spec_timeout_policy() == ProbeTimeoutPolicy::Unhealthy,
    {
        ProbeRunnerConfig { timeout: Some(Duration::from_nanos(5_000_000_000)), timeout_policy: ProbeTimeoutPolicy::Unhealthy }
    }
}

/// The result of one scheduled probe attempt.
#[derive(Clone, Copy, Debug, PartialEq, Eq, Structural, Hash)]
pub struct ProbeReport {
    result: Option<ProbeResult>,
    timed_out: bool,
    snapshot: ActiveSnapshot,
}

impl ProbeReport {
    /// The recorded result.
    pub closed spec fn spec_result(self) -> Option<ProbeResult> {
        self.result
    }

    /// Whether the probe reached its deadline.
    pub closed spec fn spec_timed_out(self) -> bool {
        self.timed_out
    }

    /// The state right after the result was committed.
    pub closed spec fn spec_snapshot(self) -> ActiveSnapshot {
        self.snapshot
    }

    /// Assembles a report from a probe's classification and the state after
    /// it was committed.
    pub fn new(outcome: ProbeOutcome, snapshot: ActiveSnapshot) -> (r: Self)
        ensures
            r.spec_result() == outcome.result,
            r.spec_timed_out() == outcome.timed_out,
            r.spec_snapshot() == snapshot,
    {
        ProbeReport { result: outcome.result, timed_out: outcome.timed_out, snapshot }
    }

    /// Returns the recorded result, or `None` when a timeout was cancelled.
    pub fn result(self) -> (r: Option<ProbeResult>)
        ensures
            r == self.spec_result(),
    {
        self.result
    }

    /// Returns whether the probe future reached its deadline.
    pub fn timed_out(self) -> (b: bool)
        ensures
            b == self.spec_timed_out(),
    {
        self.timed_out
    }

    /// Returns the active-health state immediately after finalization.
    pub fn snapshot(self) -> (s: ActiveSnapshot)
        ensures
            s == self.spec_snapshot(),
    {
        self.snapshot
    }
}

/// Failure to acquire the single active-probe reservation.
#[derive(Clone, Copy, Debug, PartialEq, Eq, Structural, Hash)]
pub enum ProbeRunnerError {
    /// Another caller already owns an active probe for this state machine.
    ProbeAlreadyRunning,
    /// The reservation was rejected for a reason this runner does not
    /// classify specially.
    ReservationRejected(ProbeRejected),
}

impl ProbeRunnerError {
    /// Describes the error.
    pub fn message(&self) -> (m: String)
        requires
            self matches ProbeRunnerError::ReservationRejected(e) ==> e.printable(),
        ensures
            m@ == (match *self {
                ProbeRunnerError::ProbeAlreadyRunning => "an active-health probe is already running"@,
                ProbeRunnerError::ReservationRejected(e) => "probe reservation rejected: "@ + e.spec_message(),
            }),
    {
        match self {
            ProbeRunnerError::ProbeAlreadyRunning => String::from_str("an active-health probe is already running"),
            ProbeRunnerError::ReservationRejected(e) => {
                let inner = e.message();
                String::from_str("probe reservation rejected: ").concat(inner.as_str())
            },
        }
    }
}

/// What a runner does after a reservation attempt was rejected.
#[derive(Clone, Copy, Debug, PartialEq, Eq, Structural, Hash)]
pub enum ReservationStep {
    /// Sleep for the duration, then try again.
    Wait(Duration),
    /// Give up with the error.
    Fail(ProbeRunnerError),
}

/// Decides what follows a rejected reservation: a probe that is not yet due
/// is waited for; one that is already running is reported instead of being
/// polled.
pub fn after_rejection(rejection: ProbeRejected) -> (s: ReservationStep)
    ensures
        rejection matches ProbeRejected::NotDue { retry_after } ==> s == ReservationStep::Wait(retry_after),
        rejection is Running ==> s == ReservationStep::Fail(ProbeRunnerError::ProbeAlreadyRunning),
{
    match rejection {
        ProbeRejected::NotDue { retry_after } => ReservationStep::Wait(retry_after),
        ProbeRejected::Running => ReservationStep::Fail(ProbeRunnerError::ProbeAlreadyRunning),
    }
}

/// How one probe attempt ended: the result to commit, if any, and whether
/// the deadline passed.
#[derive(Clone, Copy, Debug, PartialEq, Eq, Structural, Hash)]
pub struct ProbeOutcome {
    /// The result to commit; `None` cancels the reservation.
    pub result: Option<ProbeResult>,
    /// Whether the probe reached its deadline.
    pub timed_out: bool,
}

/// Classifies a probe attempt: a finished probe commits its result; one that
/// reached its deadline is unhealthy or cancelled by `policy`.
pub fn probe_outcome(finished: Option<ProbeResult>, policy: ProbeTimeoutPolicy) -> (o: ProbeOutcome)
    ensures
        finished matches Some(result) ==> o == (ProbeOutcome { result: Some(result), timed_out: false }),
        finished is None && policy == ProbeTimeoutPolicy::Unhealthy ==> o == (ProbeOutcome {
            result: Some(ProbeResult::Unhealthy),
            timed_out: true,
        }),
        finished is None && policy == ProbeTimeoutPolicy::Cancel ==> o == (ProbeOutcome {
            result: None,
            timed_out: true,
        }),
{
    match finished {
        Some(result) => ProbeOutcome { result: Some(result), timed_out: false },
        None => match policy {
            ProbeTimeoutPolicy::Unhealthy => ProbeOutcome { result: Some(ProbeResult::Unhealthy), timed_out: true },
            ProbeTimeoutPolicy::Cancel => ProbeOutcome { result: None, timed_out: true },
        },
    }
}

} // verus!
