use vstd::prelude::*;

use crate::time::{Duration, Instant};

verus! {

/// How an unprobed target is treated.
#[derive(Clone, Copy, Debug, PartialEq, Eq, Structural, Hash)]
pub enum UnknownPolicy {
    /// Unknown targets are available.
    Allow,
    /// Unknown targets are unavailable until a probe succeeds.
    Deny,
}

impl Default for UnknownPolicy {
    fn default() -> (p: Self)
        ensures
            p == UnknownPolicy::Allow,
    {
        UnknownPolicy::Allow
    }
}

/// The probed health of a target.
#[derive(Clone, Copy, Debug, PartialEq, Eq, Structural, Hash)]
pub enum ActiveStatus {
    /// Not enough probes have finished to decide.
    Unknown,
    /// Enough consecutive probes succeeded.
    Healthy,
    /// Enough consecutive probes failed.
    Unhealthy,
}

impl Default for ActiveStatus {
    fn default() -> (s: Self)
        ensures
            s == ActiveStatus::Unknown,
    {
        ActiveStatus::Unknown
    }
}

/// The result of one probe.
#[derive(Clone, Copy, Debug, PartialEq, Eq, Structural, Hash)]
pub enum ProbeResult {
    /// The target answered as healthy.
    Healthy,
    /// The target failed the probe.
    Unhealthy,
}

/// Active health-check timing and thresholds.
#[derive(Clone, Copy, Debug, PartialEq, Eq, Structural, Hash)]
pub struct ActiveHealthConfig {
    interval: Duration,
    healthy_threshold: u32,
    unhealthy_threshold: u32,
    unknown_policy: UnknownPolicy,
}

/// Invalid active health configuration.
#[derive(Clone, Copy, Debug, PartialEq, Eq, Structural, Hash)]
pub enum ActiveHealthConfigError {
    /// The probe interval is zero.
    ZeroInterval,
}

impl ActiveHealthConfigError {
    /// Describes the error.
    pub fn message(&self) -> (m: String)
        ensures
            m@ == "active health probe interval must be non-zero"@,
    {
        String::from_str("active health probe interval must be non-zero")
    }
}

impl ActiveHealthConfig {
    #[verifier::type_invariant]
    spec fn config_valid(self) -> bool {
        &&& self.interval@ > 0
        &&& self.healthy_threshold > 0
        &&& self.unhealthy_threshold > 0
    }

    /// The time between one probe's end and the next probe.
    pub closed spec fn spec_interval(self) -> Duration {
        self.interval
    }

    /// Consecutive successes that mark the target healthy.
    pub closed spec fn spec_healthy_threshold(self) -> u32 {
        self.healthy_threshold
    }

    /// Consecutive failures that mark the target unhealthy.
    pub closed spec fn spec_unhealthy_threshold(self) -> u32 {
        self.unhealthy_threshold
    }

    /// How an unprobed target is treated.
    pub closed spec fn spec_unknown_policy(self) -> UnknownPolicy {
        self.unknown_policy
    }

    /// Creates a configuration; the interval must be non-zero.
    pub fn new(interval: Duration, healthy_threshold: u32, unhealthy_threshold: u32) -> (r: Result<
        Self,
        ActiveHealthConfigError,
    >)
        requires
            healthy_threshold > 0,
            unhealthy_threshold > 0,
        ensures
            interval@ == 0 ==> r == Err::<Self, ActiveHealthConfigError>(ActiveHealthConfigError::ZeroInterval),
            interval@ > 0 ==> (r matches Ok(c) && c.spec_interval() == interval && c.spec_healthy_threshold()
                == healthy_threshold && c.spec_unhealthy_threshold() == unhealthy_threshold
                && c.spec_unknown_policy() == UnknownPolicy::Allow),
    {
        if interval.is_zero() {
            return Err(ActiveHealthConfigError::ZeroInterval);
        }
        Ok(ActiveHealthConfig { interval, healthy_threshold, unhealthy_threshold, unknown_policy: UnknownPolicy::Allow })
    }

    /// Sets how an unprobed target is treated.
    pub fn with_unknown_policy(self, policy: UnknownPolicy) -> (c: Self)
        ensures
            c.spec_unknown_policy() == policy,
            c.spec_interval() == self.spec_interval(),
            c.spec_healthy_threshold() == self.spec_healthy_threshold(),
            c.spec_unhealthy_threshold() == self.spec_unhealthy_threshold(),
    {
        proof {
            use_type_invariant(self);
        }
        ActiveHealthConfig { unknown_policy: policy, ..self }
    }

    /// Returns the probe interval, never zero.
    pub fn interval(self) -> (d: Duration)
        ensures
            d == self.spec_interval(),
            d@ > 0,
    {
        proof {
            use_type_invariant(self);
        }
        self.interval
    }

    /// Returns the healthy threshold, at least one.
    pub fn healthy_threshold(self) -> (t: u32)
        ensures
            t == self.spec_healthy_threshold(),
            t > 0,
    {
        proof {
            use_type_invariant(self);
        }
        self.healthy_threshold
    }

    /// Returns the unhealthy threshold, at least one.
    pub fn unhealthy_threshold(self) -> (t: u32)
        ensures
            t == self.spec_unhealthy_threshold(),
            t > 0,
    {
        proof {
            use_type_invariant(self);
        }
        self.unhealthy_threshold
    }

    /// Returns how an unprobed target is treated.
    pub fn unknown_policy(self) -> (p: UnknownPolicy)
        ensures
            p == self.spec_unknown_policy(),
    {
        self.unknown_policy
    }
}

impl Default for ActiveHealthConfig {
    fn default() -> (c: Self)
        ensures
            c.spec_interval()@ == 10_000_000_000,
            c.spec_healthy_threshold() == 2,
            c.spec_unhealthy_threshold() == 3,
            c.spec_unknown_policy() == UnknownPolicy::Allow,
    {
        ActiveHealthConfig {
            interval: Duration::from_secs(10),
            healthy_threshold: 2,
            unhealthy_threshold: 3,
            unknown_policy: UnknownPolicy::Allow,
        }
    }
}

/// An observable view of an active health check.
#[derive(Clone, Copy, Debug, PartialEq, Eq, Structural, Hash)]
pub struct ActiveSnapshot {
    status: ActiveStatus,
    consecutive_healthy: u32,
    consecutive_unhealthy: u32,
    probe_in_flight: bool,
    due_in: Duration,
}

impl ActiveSnapshot {
    /// The probed status.
    pub closed spec fn spec_status(self) -> ActiveStatus {
        self.status
    }

    /// The run of successful probes.
    pub closed spec fn spec_consecutive_healthy(self) -> u32 {
        self.consecutive_healthy
    }

    /// The run of failed probes.
    pub closed spec fn spec_consecutive_unhealthy(self) -> u32 {
        self.consecutive_unhealthy
    }

    /// Whether a probe is running.
    pub closed spec fn spec_probe_in_flight(self) -> bool {
        self.probe_in_flight
    }

    /// The time until the next probe is due.
    pub closed spec fn spec_due_in(self) -> Duration {
        self.due_in
    }

    /// Returns the probed status.
    pub fn status(self) -> (s: ActiveStatus)
        ensures
            s == self.spec_status(),
    {
        self.status
    }

    /// Returns the run of successful probes.
    pub fn consecutive_healthy(self) -> (n: u32)
        ensures
            n == self.spec_consecutive_healthy(),
    {
        self.consecutive_healthy
    }

    /// Returns the run of failed probes.
    pub fn consecutive_unhealthy(self) -> (n: u32)
        ensures
            n == self.spec_consecutive_unhealthy(),
    {
        self.consecutive_unhealthy
    }

    /// Returns whether a probe is running.
    pub fn probe_in_flight(self) -> (b: bool)
        ensures
            b == self.spec_probe_in_flight(),
    {
        self.probe_in_flight
    }

    /// Returns the time until the next probe is due.
    pub fn due_in(self) -> (d: Duration)
        ensures
            d == self.spec_due_in(),
    {
        self.due_in
    }
}

/// Why a probe could not start.
#[derive(Clone, Copy, Debug, PartialEq, Eq, Structural, Hash)]
pub enum ProbeRejected {
    /// A probe is already running.
    Running,
    /// The next probe is due after `retry_after`.
    NotDue { retry_after: Duration },
}

impl ProbeRejected {
    /// Returns how long until a probe is due, if that is the reason.
    pub fn retry_after(self) -> (d: Option<Duration>)
        ensures
            self is Running ==> d is None,
            self matches ProbeRejected::NotDue { retry_after } ==> d == Some(retry_after),
    {
        match self {
            ProbeRejected::Running => None,
            ProbeRejected::NotDue { retry_after } => Some(retry_after),
        }
    }

    /// Whether the message can show the rejection: a wait short enough for
    /// `std::time::Duration`.
    pub open spec fn printable(self) -> bool {
        self matches ProbeRejected::NotDue { retry_after } ==> retry_after.fits_std()
    }

    /// The description of the rejection.
    pub open spec fn spec_message(self) -> Seq<char> {
        match self {
            ProbeRejected::Running => "an active health probe is already running"@,
            ProbeRejected::NotDue { retry_after } => "the next active health probe is due in "@
                + retry_after.spec_debug_text(),
        }
    }

    /// Describes the rejection.
    pub fn message(&self) -> (m: String)
        requires
            self.printable(),
        ensures
            m@ == self.spec_message(),
    {
        match self {
            ProbeRejected::Running => String::from_str("an active health probe is already running"),
            ProbeRejected::NotDue { retry_after } => {
                let wait = retry_after.debug_text();
                String::from_str("the next active health probe is due in ").concat(wait.as_str())
            },
        }
    }
}

/// The time until a probe is due: none before the first probe finishes,
/// otherwise what is left of the interval since the last one finished.
pub open spec fn spec_due_in(interval: Duration, last_finished: Option<Instant>, now: Instant) -> int {
    match last_finished {
        None => 0,
        Some(last) => {
            let elapsed: int = if now@ >= last@ { now@ - last@ } else { 0 };
            if interval@ >= elapsed {
                interval@ - elapsed
            } else {
                0
            }
        },
    }
}

/// The state of an active health check, driven by explicit times.
///
/// At most one probe runs at a time, and a new one is due an interval after
/// the previous one finished. Consecutive results past a threshold decide the
/// status. Forcing a status starts a new generation: results of probes from
/// earlier generations are ignored.
pub struct ActiveHealthState {
    config: ActiveHealthConfig,
    status: ActiveStatus,
    consecutive_healthy: u32,
    consecutive_unhealthy: u32,
    in_flight: bool,
    last_finished: Option<Instant>,
    generation: u64,
}

impl ActiveHealthState {
    /// The configuration.
    pub closed spec fn spec_config(&self) -> ActiveHealthConfig {
        self.config
    }

    /// The probed status.
    pub closed spec fn spec_status(&self) -> ActiveStatus {
        self.status
    }

    /// The run of successful probes.
    pub closed spec fn spec_consecutive_healthy(&self) -> u32 {
        self.consecutive_healthy
    }

    /// The run of failed probes.
    pub closed spec fn spec_consecutive_unhealthy(&self) -> u32 {
        self.consecutive_unhealthy
    }

    /// Whether a probe is running.
    pub closed spec fn spec_in_flight(&self) -> bool {
        self.in_flight
    }

    /// When the last probe finished.
    pub closed spec fn spec_last_finished(&self) -> Option<Instant> {
        self.last_finished
    }

    /// The current generation.
    pub closed spec fn spec_generation(&self) -> u64 {
        self.generation
    }

    /// Creates an unknown target with no probe history.
    pub fn new(config: ActiveHealthConfig) -> (s: Self)
        ensures
            s.spec_config() == config,
            s.spec_status() == ActiveStatus::Unknown,
            s.spec_consecutive_healthy() == 0,
            s.spec_consecutive_unhealthy() == 0,
            !s.spec_in_flight(),
            s.spec_last_finished() is None,
            s.spec_generation() == 0,
    {
        ActiveHealthState {
            config,
            status: ActiveStatus::Unknown,
            consecutive_healthy: 0,
            consecutive_unhealthy: 0,
            in_flight: false,
            last_finished: None,
            generation: 0,
        }
    }

    /// Returns the configuration.
    pub fn config(&self) -> (c: ActiveHealthConfig)
        ensures
            c == self.spec_config(),
    {
        self.config
    }

    fn due_in(&self, now: Instant) -> (d: Duration)
        ensures
            d@ == spec_due_in(self.spec_config().spec_interval(), self.spec_last_finished(), now),
    {
        match self.last_finished {
            None => Duration::zero(),
            Some(last) => self.config.interval.saturating_sub(now.saturating_duration_since(last)),
        }
    }

    /// Starts a probe at `now`, returning its generation, unless one is
    /// running or the next is not yet due.
    pub fn try_start_probe_at(&mut self, now: Instant) -> (r: Result<u64, ProbeRejected>)
        ensures
            final(self).spec_config() == old(self).spec_config(),
            final(self).spec_status() == old(self).spec_status(),
            final(self).spec_generation() == old(self).spec_generation(),
            final(self).spec_last_finished() == old(self).spec_last_finished(),
            final(self).spec_consecutive_healthy() == old(self).spec_consecutive_healthy(),
            final(self).spec_consecutive_unhealthy() == old(self).spec_consecutive_unhealthy(),
            old(self).spec_in_flight() ==> r == Err::<u64, ProbeRejected>(ProbeRejected::Running)
                && final(self).spec_in_flight(),
            ({
                let due = spec_due_in(old(self).spec_config().spec_interval(), old(self).spec_last_finished(), now);
                &&& !old(self).spec_in_flight() && due > 0 ==> (r matches Err(ProbeRejected::NotDue { retry_after })
                    && retry_after@ == due && !final(self).spec_in_flight())
                &&& !old(self).spec_in_flight() && due == 0 ==> r == Ok::<u64, ProbeRejected>(
                    old(self).spec_generation(),
                ) && final(self).spec_in_flight()
            }),
    {
        if self.in_flight {
            return Err(ProbeRejected::Running);
        }
        let due = self.due_in(now);
        if !due.is_zero() {
            return Err(ProbeRejected::NotDue { retry_after: due });
        }
        self.in_flight = true;
        Ok(self.generation)
    }

    /// Whether a probe may start at `now`.
    pub fn is_probe_due_at(&self, now: Instant) -> (b: bool)
        ensures
            b == (!self.spec_in_flight() && spec_due_in(self.spec_config().spec_interval(), self.spec_last_finished(), now) == 0),
    {
        !self.in_flight && self.due_in(now).is_zero()
    }

    /// Reports the check's state at `now`.
    pub fn snapshot_at(&self, now: Instant) -> (s: ActiveSnapshot)
        ensures
            s.spec_status() == self.spec_status(),
            s.spec_consecutive_healthy() == self.spec_consecutive_healthy(),
            s.spec_consecutive_unhealthy() == self.spec_consecutive_unhealthy(),
            s.spec_probe_in_flight() == self.spec_in_flight(),
            s.spec_due_in()@ == spec_due_in(self.spec_config().spec_interval(), self.spec_last_finished(), now),
    {
        ActiveSnapshot {
            status: self.status,
            consecutive_healthy: self.consecutive_healthy,
            consecutive_unhealthy: self.consecutive_unhealthy,
            probe_in_flight: self.in_flight,
            due_in: self.due_in(now),
        }
    }

    /// Sets the status, clears both runs, abandons a running probe, and
    /// starts a new generation.
    pub fn force_status(&mut self, status: ActiveStatus)
        ensures
            final(self).spec_config() == old(self).spec_config(),
            final(self).spec_status() == status,
            final(self).spec_consecutive_healthy() == 0,
            final(self).spec_consecutive_unhealthy() == 0,
            !final(self).spec_in_flight(),
            final(self).spec_last_finished() == old(self).spec_last_finished(),
            final(self).spec_generation() == (if old(self).spec_generation() == u64::MAX { 0 } else { old(self).spec_generation() + 1 }),
    {
        self.status = status;
        self.consecutive_healthy = 0;
        self.consecutive_unhealthy = 0;
        self.in_flight = false;
        self.generation = self.generation.wrapping_add(1);
    }

    /// Records the end of the probe of `generation` at `now`, with its
    /// result or `None` if it was cancelled. A probe from another generation,
    /// or when none is running, changes nothing.
    pub fn finish_at(&mut self, generation: u64, result: Option<ProbeResult>, now: Instant)
        ensures
            final(self).spec_config() == old(self).spec_config(),
            final(self).spec_generation() == old(self).spec_generation(),
            generation != old(self).spec_generation() || !old(self).spec_in_flight() ==> final(self).spec_status()
                == old(self).spec_status() && final(self).spec_in_flight() == old(self).spec_in_flight()
                && final(self).spec_last_finished() == old(self).spec_last_finished()
                && final(self).spec_consecutive_healthy() == old(self).spec_consecutive_healthy()
                && final(self).spec_consecutive_unhealthy() == old(self).spec_consecutive_unhealthy(),
            generation == old(self).spec_generation() && old(self).spec_in_flight() ==> {
                let healthy = old(self).spec_consecutive_healthy();
                let unhealthy = old(self).spec_consecutive_unhealthy();
                let config = old(self).spec_config();
                &&& !final(self).spec_in_flight()
                &&& final(self).spec_last_finished() == Some(now)
                &&& result is None ==> final(self).spec_status() == old(self).spec_status()
                    && final(self).spec_consecutive_healthy() == healthy
                    && final(self).spec_consecutive_unhealthy() == unhealthy
                &&& result == Some(ProbeResult::Healthy) ==> {
                    let run: u32 = if healthy == u32::MAX { u32::MAX } else { (healthy + 1) as u32 };
                    &&& final(self).spec_consecutive_healthy() == run
                    &&& final(self).spec_consecutive_unhealthy() == 0
                    &&& final(self).spec_status() == if run >= config.spec_healthy_threshold() {
                        ActiveStatus::Healthy
                    } else {
                        old(self).spec_status()
                    }
                }
                &&& result == Some(ProbeResult::Unhealthy) ==> {
                    let run: u32 = if unhealthy == u32::MAX { u32::MAX } else { (unhealthy + 1) as u32 };
                    &&& final(self).spec_consecutive_unhealthy() == run
                    &&& final(self).spec_consecutive_healthy() == 0
                    &&& final(self).spec_status() == if run >= config.spec_unhealthy_threshold() {
                        ActiveStatus::Unhealthy
                    } else {
                        old(self).spec_status()
                    }
                }
            },
    {
        if generation != self.generation || !self.in_flight {
            return;
        }
        self.in_flight = false;
        self.last_finished = Some(now);
        match result {
            None => {},
            Some(ProbeResult::Healthy) => {
                self.consecutive_unhealthy = 0;
                self.consecutive_healthy = self.consecutive_healthy.saturating_add(1);
                if self.consecutive_healthy >= self.config.healthy_threshold {
                    self.status = ActiveStatus::Healthy;
                }
            },
            Some(ProbeResult::Unhealthy) => {
                self.consecutive_healthy = 0;
                self.consecutive_unhealthy = self.consecutive_unhealthy.saturating_add(1);
                if self.consecutive_unhealthy >= self.config.unhealthy_threshold {
                    self.status = ActiveStatus::Unhealthy;
                }
            },
        }
    }

    /// Whether the target may receive traffic: healthy yes, unhealthy no,
    /// unknown as the configured policy says.
    pub fn is_available(&self) -> (b: bool)
        ensures
            b == match self.spec_status() {
                ActiveStatus::Healthy => true,
                ActiveStatus::Unhealthy => false,
                ActiveStatus::Unknown => self.spec_config().spec_unknown_policy() == UnknownPolicy::Allow,
            },
    {
        match self.status {
            ActiveStatus::Healthy => true,
            ActiveStatus::Unhealthy => false,
            ActiveStatus::Unknown => self.config.unknown_policy == UnknownPolicy::Allow,
        }
    }
}

} // verus!
