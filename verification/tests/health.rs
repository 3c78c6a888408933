use poise::health::active::{
    ActiveHealthConfig, ActiveHealthConfigError, ActiveHealthState, ActiveStatus, ProbeRejected, ProbeResult,
    UnknownPolicy,
};
use poise::health::candidate::{HealthChecked, HealthSignal};
use poise::health::circuit::{CircuitConfig, CircuitConfigError, CircuitMode, CircuitState, PermitKind, Rejected};
use poise::health::outcome_window::{OutcomeWindowConfig, OutcomeWindowConfigError, OutcomeWindowState};
use poise::health::outlier::{
    check_max_ejection_percent, ejection_cap, order_ejections, EjectionCandidate, OutlierConfigError,
};
use poise::health::runner::{
    after_rejection, probe_outcome, ProbeOutcome, ProbeReport, ProbeRunnerConfig, ProbeRunnerConfigError,
    ProbeRunnerError, ProbeTimeoutPolicy, ReservationStep,
};
use poise::policy::RoundRobin;
use poise::time::{Duration, Instant};
use poise::{Backend, Candidate, Outcome, Policy, Status};

fn at(millis: u64) -> Instant {
    Instant::from_nanos(u128::from(millis) * 1_000_000)
}

#[test]
fn zero_interval_is_rejected() {
    assert_eq!(
        ActiveHealthConfig::new(Duration::zero(), 1, 1),
        Err(ActiveHealthConfigError::ZeroInterval)
    );
}

#[test]
fn zero_open_duration_is_rejected_without_limiting_large_durations() {
    let threshold = 1;
    assert_eq!(
        CircuitConfig::new(threshold, Duration::zero()),
        Err(CircuitConfigError::ZeroOpenDuration)
    );
    let max = Duration::from_nanos(u128::from(u64::MAX) * 1_000_000_000 + 999_999_999);
    assert!(CircuitConfig::new(threshold, max).is_ok());
}

#[test]
fn invalid_minimum_is_rejected() {
    let result = OutcomeWindowConfig::new(2).with_minimum_samples(3);
    assert_eq!(result, Err(OutcomeWindowConfigError::MinimumExceedsCapacity));
}

#[test]
fn runner_config_rejects_invalid_timeouts() {
    assert_eq!(
        ProbeRunnerConfig::new(Duration::zero()),
        Err(ProbeRunnerConfigError::ZeroTimeout)
    );
    let max = Duration::from_nanos(u128::from(u64::MAX) * 1_000_000_000 + 999_999_999);
    assert_eq!(
        ProbeRunnerConfig::new(max),
        Err(ProbeRunnerConfigError::TimeoutTooLarge)
    );
}

#[test]
fn runner_config_accepts_a_representable_timeout() {
    let config = ProbeRunnerConfig::new(Duration::from_secs(3)).unwrap();
    assert_eq!(config.timeout(), Some(Duration::from_secs(3)));
    assert_eq!(config.timeout_policy(), ProbeTimeoutPolicy::Unhealthy);
    let cancel = config.with_timeout_policy(ProbeTimeoutPolicy::Cancel);
    assert_eq!(cancel.timeout_policy(), ProbeTimeoutPolicy::Cancel);
    assert_eq!(cancel.timeout(), Some(Duration::from_secs(3)));
    assert_eq!(ProbeRunnerConfig::without_timeout().timeout(), None);
    assert_eq!(ProbeRunnerConfig::default().timeout(), Some(Duration::from_secs(5)));
    assert_eq!(
        ProbeRunnerConfig::from_deadline(Duration::from_secs(1), false),
        Err(ProbeRunnerConfigError::TimeoutTooLarge)
    );
}

#[test]
fn runner_waits_for_due_probes_and_reports_running_ones() {
    let wait = Duration::from_secs(2);
    assert_eq!(
        after_rejection(ProbeRejected::NotDue { retry_after: wait }),
        ReservationStep::Wait(wait)
    );
    assert_eq!(
        after_rejection(ProbeRejected::Running),
        ReservationStep::Fail(ProbeRunnerError::ProbeAlreadyRunning)
    );
}

#[test]
fn timeouts_are_classified_by_policy() {
    assert_eq!(
        probe_outcome(Some(ProbeResult::Healthy), ProbeTimeoutPolicy::Cancel),
        ProbeOutcome { result: Some(ProbeResult::Healthy), timed_out: false }
    );
    assert_eq!(
        probe_outcome(None, ProbeTimeoutPolicy::Unhealthy),
        ProbeOutcome { result: Some(ProbeResult::Unhealthy), timed_out: true }
    );
    assert_eq!(
        probe_outcome(None, ProbeTimeoutPolicy::Cancel),
        ProbeOutcome { result: None, timed_out: true }
    );
}

#[test]
fn completed_probe_report_carries_the_committed_state() {
    let config = ActiveHealthConfig::new(Duration::from_secs(1), 1, 1).unwrap();
    let mut health = ActiveHealthState::new(config);
    let generation = health.try_start_probe_at(at(0)).unwrap();
    let outcome = probe_outcome(Some(ProbeResult::Healthy), ProbeTimeoutPolicy::Unhealthy);
    health.finish_at(generation, outcome.result, at(10));
    let report = ProbeReport::new(outcome, health.snapshot_at(at(10)));
    assert_eq!(report.result(), Some(ProbeResult::Healthy));
    assert!(!report.timed_out());
    assert_eq!(report.snapshot().status(), ActiveStatus::Healthy);
    assert!(!report.snapshot().probe_in_flight());
}

#[test]
fn cancelled_timeout_leaves_the_classification_unknown() {
    let config = ActiveHealthConfig::new(Duration::from_secs(1), 1, 1).unwrap();
    let mut health = ActiveHealthState::new(config);
    let generation = health.try_start_probe_at(at(0)).unwrap();
    let outcome = probe_outcome(None, ProbeTimeoutPolicy::Cancel);
    health.finish_at(generation, outcome.result, at(3_000));
    let snapshot = health.snapshot_at(at(3_000));
    assert_eq!(snapshot.status(), ActiveStatus::Unknown);
    assert_eq!(snapshot.consecutive_unhealthy(), 0);
    assert!(!snapshot.probe_in_flight());
}

#[test]
fn active_probes_are_exclusive_and_spaced_by_the_interval() {
    let config = ActiveHealthConfig::new(Duration::from_secs(1), 2, 2).unwrap();
    let mut health = ActiveHealthState::new(config);
    let generation = health.try_start_probe_at(at(0)).unwrap();
    assert_eq!(health.try_start_probe_at(at(1)), Err(ProbeRejected::Running));
    health.finish_at(generation, Some(ProbeResult::Unhealthy), at(100));
    assert_eq!(health.snapshot_at(at(100)).status(), ActiveStatus::Unknown);
    assert_eq!(
        health.try_start_probe_at(at(600)),
        Err(ProbeRejected::NotDue { retry_after: Duration::from_millis(500) })
    );
    let second = health.try_start_probe_at(at(1_100)).unwrap();
    health.finish_at(second, Some(ProbeResult::Unhealthy), at(1_200));
    assert_eq!(health.snapshot_at(at(1_200)).status(), ActiveStatus::Unhealthy);
    assert!(!health.is_available());
}

#[test]
fn unknown_policy_controls_initial_eligibility() {
    let allowed = ActiveHealthState::new(ActiveHealthConfig::new(Duration::from_secs(1), 1, 1).unwrap());
    let denied = ActiveHealthState::new(
        ActiveHealthConfig::new(Duration::from_secs(1), 1, 1)
            .unwrap()
            .with_unknown_policy(UnknownPolicy::Deny),
    );
    assert!(allowed.is_available());
    assert!(!denied.is_available());
}

#[test]
fn health_checked_candidates_follow_their_signal() {
    let config = ActiveHealthConfig::new(Duration::from_secs(1), 1, 1)
        .unwrap()
        .with_unknown_policy(UnknownPolicy::Deny);
    let denied = HealthChecked::new(Backend::new("a"), ActiveHealthState::new(config));
    let allowed = HealthChecked::new(
        Backend::new("b"),
        ActiveHealthState::new(ActiveHealthConfig::new(Duration::from_secs(1), 1, 1).unwrap()),
    );
    assert_eq!(denied.status(), Status::Unavailable);
    assert!(!denied.is_eligible());
    assert!(HealthSignal::is_available(allowed.health()));
    assert_eq!(allowed.status(), Status::Ready);

    let candidates = [denied, allowed];
    let selected = RoundRobin::new().pick(&candidates, &()).unwrap();
    assert_eq!(candidates[selected.index()].id(), &"b");

    let draining = HealthChecked::new(
        Backend::new("c").with_status(Status::Draining),
        ActiveHealthState::new(config),
    );
    assert_eq!(draining.status(), Status::Draining);
}

#[test]
fn circuit_opens_after_consecutive_failures_and_recovers_through_probes() {
    let config = CircuitConfig::new(2, Duration::from_secs(1)).unwrap();
    let mut circuit = CircuitState::new(config);
    let permit = circuit.try_acquire(at(0)).unwrap();
    assert_eq!(permit, PermitKind::Closed);
    circuit.finish(permit, Outcome::Failure, at(1));
    let permit = circuit.try_acquire(at(2)).unwrap();
    circuit.finish(permit, Outcome::Failure, at(3));
    assert_eq!(
        circuit.try_acquire(at(500)),
        Err(Rejected::Open { retry_after: Duration::from_millis(503) })
    );
    let probe = circuit.try_acquire(at(1_003)).unwrap();
    assert_eq!(probe, PermitKind::Probe);
    assert_eq!(circuit.try_acquire(at(1_004)), Err(Rejected::ProbeLimit { limit: 1 }));
    circuit.finish(probe, Outcome::Success, at(1_010));
    assert_eq!(circuit.mode(), CircuitMode::Closed { consecutive_failures: 0 });
}

#[test]
fn outcome_window_forgets_the_oldest_outcome() {
    let config = OutcomeWindowConfig::new(2).with_minimum_samples(2).unwrap();
    let mut window = OutcomeWindowState::new(config);
    window.record(Outcome::Failure);
    assert!(!window.totals().warmed_up);
    window.record(Outcome::Success);
    window.record(Outcome::Success);
    let totals = window.totals();
    assert_eq!(totals.samples, 2);
    assert_eq!(totals.failures, 0);
    assert_eq!(totals.successes, 2);
    assert!(totals.warmed_up);
}

#[test]
fn outcome_window_keeps_the_latest_observations_and_skips_cancellations() {
    let config = OutcomeWindowConfig::new(2);
    let mut window = OutcomeWindowState::new(config);
    window.record(Outcome::Success);
    window.record(Outcome::Failure);
    window.record(Outcome::Cancelled);
    window.record(Outcome::Overloaded);
    let totals = window.totals();
    assert_eq!(totals.samples, 2);
    assert_eq!(totals.successes, 0);
    assert_eq!(totals.failures, 1);
    assert_eq!(totals.overloaded, 1);
}

#[test]
fn outlier_ejection_limits_are_integer_rules() {
    assert_eq!(check_max_ejection_percent(100), Ok(()));
    assert_eq!(
        check_max_ejection_percent(101),
        Err(OutlierConfigError::InvalidMaxEjectionPercent)
    );
    assert_eq!(ejection_cap(10, 50, 1), 5);
    assert_eq!(ejection_cap(10, 50, 8), 2);
    assert_eq!(ejection_cap(3, 50, 5), 0);
    assert_eq!(ejection_cap(199, 10, 0), 19);
    assert_eq!(ejection_cap(usize::MAX, 100, 0), usize::MAX);
}

fn below(index: usize, rate: f64) -> EjectionCandidate {
    EjectionCandidate { index, rate_bits: rate.to_bits() }
}

#[test]
fn ejections_run_from_the_worst_rate_and_stop_at_the_cap() {
    let hosts = [below(1, 0.9), below(2, 0.8), below(3, 0.7), below(4, 0.6)];
    assert_eq!(order_ejections(&hosts, 2), vec![4, 3]);
    assert_eq!(order_ejections(&hosts, 10), vec![4, 3, 2, 1]);
    assert_eq!(order_ejections(&hosts, 0), Vec::<usize>::new());
    let cap = ejection_cap(5, 40, 0);
    assert_eq!(order_ejections(&hosts, cap), vec![4, 3]);
}

#[test]
fn equal_ejection_rates_keep_slice_order() {
    let hosts = [below(3, 0.0), below(2, 0.0), below(5, 0.25)];
    assert_eq!(order_ejections(&hosts, 3), vec![2, 3, 5]);
    let mixed = [below(0, 0.5), below(1, -0.0), below(2, 0.0)];
    assert_eq!(order_ejections(&mixed, 3), vec![1, 2, 0]);
}

#[test]
fn rejection_messages_carry_their_values() {
    assert_eq!(
        ProbeRunnerError::ReservationRejected(ProbeRejected::Running).message(),
        "probe reservation rejected: an active health probe is already running"
    );
    assert_eq!(
        ProbeRejected::NotDue { retry_after: Duration::from_millis(5) }.message(),
        format!("the next active health probe is due in {:?}", std::time::Duration::from_millis(5))
    );
    assert_eq!(
        Rejected::Open { retry_after: Duration::from_millis(1_500) }.message(),
        "circuit is open for another 1.5s"
    );
    assert_eq!(Rejected::ProbeLimit { limit: 12 }.message(), "all 12 half-open probe slots are occupied");
    assert_eq!(poise::AtCapacity::new(Some(7)).message(), "the in-flight limit of 7 has been reached");
    assert_eq!(poise::AtCapacity::new(None).message(), "the in-flight counter is exhausted");
    assert_eq!(poise::text::decimal_text(0), "0");
    assert_eq!(poise::text::decimal_text(u64::MAX), u64::MAX.to_string());
}
