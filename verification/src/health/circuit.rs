use vstd::prelude::*;

use crate::text::{decimal_digits, decimal_text};

use crate::feedback::Outcome;
use crate::time::{Duration, Instant};

verus! {

/// Circuit-breaker thresholds and timing.
#[derive(Clone, Copy, Debug, PartialEq, Eq, Structural, Hash)]
pub struct CircuitConfig {
    failure_threshold: u32,
    success_threshold: u32,
    open_for: Duration,
    half_open_max_in_flight: u32,
}

/// Invalid circuit configuration.
#[derive(Clone, Copy, Debug, PartialEq, Eq, Structural, Hash)]
pub enum CircuitConfigError {
    /// The open duration is zero.
    ZeroOpenDuration,
}

impl CircuitConfigError {
    /// Describes the error.
    pub fn message(&self) -> (m: String)
        ensures
            m@ == "circuit open duration must be non-zero"@,
    {
        String::from_str("circuit open duration must be non-zero")
    }
}

impl CircuitConfig {
    #[verifier::type_invariant]
    spec fn config_valid(self) -> bool {
        &&& self.failure_threshold > 0
        &&& self.success_threshold > 0
        &&& self.open_for@ > 0
        &&& self.half_open_max_in_flight > 0
    }

    /// Consecutive failures that open a closed circuit.
    pub closed spec fn spec_failure_threshold(self) -> u32 {
        self.failure_threshold
    }

    /// Consecutive half-open successes that close the circuit.
    pub closed spec fn spec_success_threshold(self) -> u32 {
        self.success_threshold
    }

    /// How long the circuit stays open before probing.
    pub closed spec fn spec_open_for(self) -> Duration {
        self.open_for
    }

    /// Concurrent half-open probes allowed.
    pub closed spec fn spec_half_open_max_in_flight(self) -> u32 {
        self.half_open_max_in_flight
    }

    /// Creates a configuration that opens after `failure_threshold`
    /// consecutive failures and stays open for `open_for`, with one probe
    /// and one success to close.
    pub fn new(failure_threshold: u32, open_for: Duration) -> (r: Result<Self, CircuitConfigError>)
        requires
            failure_threshold > 0,
        ensures
            open_for@ == 0 ==> r == Err::<Self, CircuitConfigError>(CircuitConfigError::ZeroOpenDuration),
            open_for@ > 0 ==> (r matches Ok(c) && c.spec_failure_threshold() == failure_threshold
                && c.spec_success_threshold() == 1 && c.spec_open_for() == open_for
                && c.spec_half_open_max_in_flight() == 1),
    {
        if open_for.is_zero() {
            return Err(CircuitConfigError::ZeroOpenDuration);
        }
        Ok(CircuitConfig { failure_threshold, success_threshold: 1, open_for, half_open_max_in_flight: 1 })
    }

    /// Sets the consecutive half-open successes that close the circuit.
    pub fn with_success_threshold(self, threshold: u32) -> (c: Self)
        requires
            threshold > 0,
        ensures
            c.spec_success_threshold() == threshold,
            c.spec_failure_threshold() == self.spec_failure_threshold(),
            c.spec_open_for() == self.spec_open_for(),
            c.spec_half_open_max_in_flight() == self.spec_half_open_max_in_flight(),
    {
        proof {
            use_type_invariant(self);
        }
        CircuitConfig { success_threshold: threshold, ..self }
    }

    /// Sets the concurrent half-open probe limit.
    pub fn with_half_open_max_in_flight(self, limit: u32) -> (c: Self)
        requires
            limit > 0,
        ensures
            c.spec_half_open_max_in_flight() == limit,
            c.spec_failure_threshold() == self.spec_failure_threshold(),
            c.spec_success_threshold() == self.spec_success_threshold(),
            c.spec_open_for() == self.spec_open_for(),
    {
        proof {
            use_type_invariant(self);
        }
        CircuitConfig { half_open_max_in_flight: limit, ..self }
    }

    /// Returns the failure threshold, at least one.
    pub fn failure_threshold(self) -> (t: u32)
        ensures
            t == self.spec_failure_threshold(),
            t > 0,
    {
        proof {
            use_type_invariant(self);
        }
        self.failure_threshold
    }

    /// Returns the success threshold, at least one.
    pub fn success_threshold(self) -> (t: u32)
        ensures
            t == self.spec_success_threshold(),
            t > 0,
    {
        proof {
            use_type_invariant(self);
        }
        self.success_threshold
    }

    /// Returns the open duration, never zero.
    pub fn open_for(self) -> (d: Duration)
        ensures
            d == self.spec_open_for(),
            d@ > 0,
    {
        proof {
            use_type_invariant(self);
        }
        self.open_for
    }

    /// Returns the half-open probe limit, at least one.
    pub fn half_open_max_in_flight(self) -> (l: u32)
        ensures
            l == self.spec_half_open_max_in_flight(),
            l > 0,
    {
        proof {
            use_type_invariant(self);
        }
        self.half_open_max_in_flight
    }
}

impl Default for CircuitConfig {
    fn default() -> (c: Self)
        ensures
            c.spec_failure_threshold() == 5,
            c.spec_success_threshold() == 1,
            c.spec_open_for()@ == 30_000_000_000,
            c.spec_half_open_max_in_flight() == 1,
    {
        CircuitConfig {
            failure_threshold: 5,
            success_threshold: 1,
            open_for: Duration::from_secs(30),
            half_open_max_in_flight: 1,
        }
    }
}

/// A circuit breaker's state.
#[derive(Clone, Copy, Debug, PartialEq, Eq, Structural, Hash)]
pub enum CircuitMode {
    /// Requests flow; failures are counted.
    Closed { consecutive_failures: u32 },
    /// Requests are rejected until the open duration passes.
    Open { opened_at: Instant },
    /// A limited number of probes test recovery.
    HalfOpen { in_flight: u32, successes: u32 },
}

/// An observable view of a circuit.
#[derive(Clone, Copy, Debug, PartialEq, Eq, Structural, Hash)]
pub enum CircuitSnapshot {
    /// Requests flow.
    Closed { consecutive_failures: u32 },
    /// Requests are rejected for another `retry_after`.
    Open { retry_after: Duration },
    /// Probes test recovery.
    HalfOpen { in_flight: u32, successes: u32, max_in_flight: u32 },
}

/// Why a circuit refused a request.
#[derive(Clone, Copy, Debug, PartialEq, Eq, Structural, Hash)]
pub enum Rejected {
    /// The circuit is open for another `retry_after`.
    Open { retry_after: Duration },
    /// Every half-open probe slot is taken.
    ProbeLimit { limit: u32 },
}

impl Rejected {
    /// Returns how long until the circuit may probe, if it is open.
    pub fn retry_after(self) -> (d: Option<Duration>)
        ensures
            self matches Rejected::Open { retry_after } ==> d == Some(retry_after),
            self is ProbeLimit ==> d is None,
    {
        match self {
            Rejected::Open { retry_after } => Some(retry_after),
            Rejected::ProbeLimit { .. } => None,
        }
    }

    /// Describes the rejection.
    pub fn message(&self) -> (m: String)
        requires
            self matches Rejected::Open { retry_after } ==> retry_after.fits_std(),
        ensures
            m@ == (match *self {
                Rejected::Open { retry_after } => "circuit is open for another "@ + retry_after.spec_debug_text(),
                Rejected::ProbeLimit { limit } => "all "@ + decimal_digits(limit as nat)
                    + " half-open probe slots are occupied"@,
            }),
    {
        match self {
            Rejected::Open { retry_after } => {
                let wait = retry_after.debug_text();
                String::from_str("circuit is open for another ").concat(wait.as_str())
            },
            Rejected::ProbeLimit { limit } => {
                let count = decimal_text(*limit as u64);
                String::from_str("all ").concat(count.as_str()).concat(" half-open probe slots are occupied")
            },
        }
    }
}

/// What kind of request a permit admitted.
#[derive(Clone, Copy, Debug, PartialEq, Eq, Structural, Hash)]
pub enum PermitKind {
    /// A request through a closed circuit.
    Closed,
    /// A half-open probe.
    Probe,
}

/// The mode after the open duration is checked at `now`: an open circuit
/// whose duration has passed is half-open with no probes yet.
pub open spec fn spec_refreshed(config: CircuitConfig, mode: CircuitMode, now: Instant) -> CircuitMode {
    match mode {
        CircuitMode::Open { opened_at } => if now@ >= opened_at@ && now@ - opened_at@ >= config.spec_open_for()@ {
            CircuitMode::HalfOpen { in_flight: 0, successes: 0 }
        } else {
            mode
        },
        _ => mode,
    }
}

/// The time left before an open circuit may probe.
pub open spec fn spec_retry_after(config: CircuitConfig, opened_at: Instant, now: Instant) -> int {
    let elapsed: int = if now@ >= opened_at@ { now@ - opened_at@ } else { 0 };
    if config.spec_open_for()@ >= elapsed {
        config.spec_open_for()@ - elapsed
    } else {
        0
    }
}

/// The mode after a permit of `kind` finishes with `outcome` at `now`.
pub open spec fn spec_finished(config: CircuitConfig, mode: CircuitMode, kind: PermitKind, outcome: Outcome, now: Instant) -> CircuitMode {
    match (kind, mode) {
        (PermitKind::Closed, CircuitMode::Closed { consecutive_failures }) => match outcome {
            Outcome::Success => CircuitMode::Closed { consecutive_failures: 0 },
            Outcome::Failure | Outcome::Overloaded => {
                let failures: u32 = if consecutive_failures == u32::MAX {
                    u32::MAX
                } else {
                    (consecutive_failures + 1) as u32
                };
                if failures >= config.spec_failure_threshold() {
                    CircuitMode::Open { opened_at: now }
                } else {
                    CircuitMode::Closed { consecutive_failures: failures }
                }
            },
            Outcome::Cancelled => mode,
        },
        (PermitKind::Probe, CircuitMode::HalfOpen { in_flight, successes }) => {
            let remaining: u32 = if in_flight == 0 {
                0
            } else {
                (in_flight - 1) as u32
            };
            match outcome {
                Outcome::Success => {
                    let done: u32 = if successes == u32::MAX {
                        u32::MAX
                    } else {
                        (successes + 1) as u32
                    };
                    if done >= config.spec_success_threshold() {
                        CircuitMode::Closed { consecutive_failures: 0 }
                    } else {
                        CircuitMode::HalfOpen { in_flight: remaining, successes: done }
                    }
                },
                Outcome::Failure | Outcome::Overloaded => CircuitMode::Open { opened_at: now },
                Outcome::Cancelled => CircuitMode::HalfOpen { in_flight: remaining, successes },
            }
        },
        _ => mode,
    }
}

/// The state of a circuit breaker, driven by explicit times.
///
/// Consecutive failures open a closed circuit; after the open duration a
/// limited number of probes may run, and enough consecutive probe successes
/// close it again while any probe failure reopens it.
pub struct CircuitState {
    config: CircuitConfig,
    mode: CircuitMode,
}

impl CircuitState {
    /// The configuration.
    pub closed spec fn spec_config(&self) -> CircuitConfig {
        self.config
    }

    /// The stored mode.
    pub closed spec fn spec_mode(&self) -> CircuitMode {
        self.mode
    }

    /// Creates a closed circuit.
    pub fn new(config: CircuitConfig) -> (s: Self)
        ensures
            s.spec_config() == config,
            s.spec_mode() == (CircuitMode::Closed { consecutive_failures: 0 }),
    {
        CircuitState { config, mode: CircuitMode::Closed { consecutive_failures: 0 } }
    }

    /// Returns the configuration.
    pub fn config(&self) -> (c: CircuitConfig)
        ensures
            c == self.spec_config(),
    {
        self.config
    }

    /// Returns the stored mode.
    pub fn mode(&self) -> (m: CircuitMode)
        ensures
            m == self.spec_mode(),
    {
        self.mode
    }

    fn retry_after(&self, opened_at: Instant, now: Instant) -> (d: Duration)
        ensures
            d@ == spec_retry_after(self.spec_config(), opened_at, now),
    {
        self.config.open_for.saturating_sub(now.saturating_duration_since(opened_at))
    }

    /// Moves an open circuit whose duration has passed to half-open.
    pub fn refresh(&mut self, now: Instant)
        ensures
            final(self).spec_config() == old(self).spec_config(),
            final(self).spec_mode() == spec_refreshed(old(self).spec_config(), old(self).spec_mode(), now),
    {
        proof {
            use_type_invariant(&self.config);
        }
        if let CircuitMode::Open { opened_at } = self.mode {
            if now.saturating_duration_since(opened_at).as_nanos() >= self.config.open_for.as_nanos() {
                self.mode = CircuitMode::HalfOpen { in_flight: 0, successes: 0 };
            }
        }
    }

    /// Admits a request at `now`, or reports why the circuit refuses it.
    pub fn try_acquire(&mut self, now: Instant) -> (r: Result<PermitKind, Rejected>)
        ensures
            final(self).spec_config() == old(self).spec_config(),
            ({
                let config = old(self).spec_config();
                let mode = spec_refreshed(config, old(self).spec_mode(), now);
                match mode {
                    CircuitMode::Closed { .. } => r == Ok::<PermitKind, Rejected>(PermitKind::Closed)
                        && final(self).spec_mode() == mode,
                    CircuitMode::Open { opened_at } => (r matches Err(Rejected::Open { retry_after })
                        && retry_after@ == spec_retry_after(config, opened_at, now))
                        && final(self).spec_mode() == mode,
                    CircuitMode::HalfOpen { in_flight, successes } => if in_flight
                        >= config.spec_half_open_max_in_flight() {
                        r == Err::<PermitKind, Rejected>(
                            Rejected::ProbeLimit { limit: config.spec_half_open_max_in_flight() },
                        ) && final(self).spec_mode() == mode
                    } else {
                        r == Ok::<PermitKind, Rejected>(PermitKind::Probe) && final(self).spec_mode()
                            == (CircuitMode::HalfOpen { in_flight: (in_flight + 1) as u32, successes })
                    },
                }
            }),
    {
        self.refresh(now);
        match self.mode {
            CircuitMode::Closed { .. } => Ok(PermitKind::Closed),
            CircuitMode::Open { opened_at } => Err(Rejected::Open { retry_after: self.retry_after(opened_at, now) }),
            CircuitMode::HalfOpen { in_flight, successes } => {
                let limit = self.config.half_open_max_in_flight;
                if in_flight >= limit {
                    return Err(Rejected::ProbeLimit { limit });
                }
                self.mode = CircuitMode::HalfOpen { in_flight: in_flight + 1, successes };
                Ok(PermitKind::Probe)
            },
        }
    }

    /// Whether a request would be admitted at `now`.
    pub fn is_available(&mut self, now: Instant) -> (b: bool)
        ensures
            final(self).spec_config() == old(self).spec_config(),
            final(self).spec_mode() == spec_refreshed(old(self).spec_config(), old(self).spec_mode(), now),
            b == match final(self).spec_mode() {
                CircuitMode::Closed { .. } => true,
                CircuitMode::Open { .. } => false,
                CircuitMode::HalfOpen { in_flight, .. } => in_flight < old(self).spec_config().spec_half_open_max_in_flight(),
            },
    {
        self.refresh(now);
        match self.mode {
            CircuitMode::Closed { .. } => true,
            CircuitMode::Open { .. } => false,
            CircuitMode::HalfOpen { in_flight, .. } => in_flight < self.config.half_open_max_in_flight,
        }
    }

    /// Reports the circuit's state at `now`.
    pub fn snapshot(&mut self, now: Instant) -> (s: CircuitSnapshot)
        ensures
            final(self).spec_config() == old(self).spec_config(),
            final(self).spec_mode() == spec_refreshed(old(self).spec_config(), old(self).spec_mode(), now),
            match final(self).spec_mode() {
                CircuitMode::Closed { consecutive_failures } => s == (CircuitSnapshot::Closed { consecutive_failures }),
                CircuitMode::Open { opened_at } => (s matches CircuitSnapshot::Open { retry_after }
                    && retry_after@ == spec_retry_after(old(self).spec_config(), opened_at, now)),
                CircuitMode::HalfOpen { in_flight, successes } => s == (CircuitSnapshot::HalfOpen {
                    in_flight,
                    successes,
                    max_in_flight: old(self).spec_config().spec_half_open_max_in_flight(),
                }),
            },
    {
        self.refresh(now);
        match self.mode {
            CircuitMode::Closed { consecutive_failures } => CircuitSnapshot::Closed { consecutive_failures },
            CircuitMode::Open { opened_at } => CircuitSnapshot::Open { retry_after: self.retry_after(opened_at, now) },
            CircuitMode::HalfOpen { in_flight, successes } => CircuitSnapshot::HalfOpen {
                in_flight,
                successes,
                max_in_flight: self.config.half_open_max_in_flight,
            },
        }
    }

    /// Opens the circuit at `now`.
    pub fn force_open(&mut self, now: Instant)
        ensures
            final(self).spec_config() == old(self).spec_config(),
            final(self).spec_mode() == (CircuitMode::Open { opened_at: now }),
    {
        self.mode = CircuitMode::Open { opened_at: now };
    }

    /// Closes the circuit and clears its failure count.
    pub fn force_close(&mut self)
        ensures
            final(self).spec_config() == old(self).spec_config(),
            final(self).spec_mode() == (CircuitMode::Closed { consecutive_failures: 0 }),
    {
        self.mode = CircuitMode::Closed { consecutive_failures: 0 };
    }

    /// Records the outcome of a permit of `kind` at `now`. A permit from a
    /// state the circuit has since left changes nothing.
    pub fn finish(&mut self, kind: PermitKind, outcome: Outcome, now: Instant)
        ensures
            final(self).spec_config() == old(self).spec_config(),
            final(self).spec_mode() == spec_finished(old(self).spec_config(), old(self).spec_mode(), kind, outcome, now),
    {
        match (kind, self.mode) {
            (PermitKind::Closed, CircuitMode::Closed { consecutive_failures }) => match outcome {
                Outcome::Success => {
                    self.mode = CircuitMode::Closed { consecutive_failures: 0 };
                },
                Outcome::Failure | Outcome::Overloaded => {
                    let failures = consecutive_failures.saturating_add(1);
                    if failures >= self.config.failure_threshold {
                        self.mode = CircuitMode::Open { opened_at: now };
                    } else {
                        self.mode = CircuitMode::Closed { consecutive_failures: failures };
                    }
                },
                Outcome::Cancelled => {},
            },
            (PermitKind::Probe, CircuitMode::HalfOpen { in_flight, successes }) => {
                let remaining = in_flight.saturating_sub(1);
                match outcome {
                    Outcome::Success => {
                        let done = successes.saturating_add(1);
                        if done >= self.config.success_threshold {
                            self.mode = CircuitMode::Closed { consecutive_failures: 0 };
                        } else {
                            self.mode = CircuitMode::HalfOpen { in_flight: remaining, successes: done };
                        }
                    },
                    Outcome::Failure | Outcome::Overloaded => {
                        self.mode = CircuitMode::Open { opened_at: now };
                    },
                    Outcome::Cancelled => {
                        self.mode = CircuitMode::HalfOpen { in_flight: remaining, successes };
                    },
                }
            },
            _ => {},
        }
    }
}

} // verus!
