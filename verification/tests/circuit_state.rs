use poise::health::circuit::{CircuitConfig, CircuitSnapshot, CircuitState, Rejected};
use poise::time::{Duration, Instant};
use poise::Outcome;

fn at(millis: u64) -> Instant {
    Instant::from_nanos(u128::from(millis) * 1_000_000)
}

fn config(failures: u32, open_for: Duration) -> CircuitConfig {
    CircuitConfig::new(failures, open_for).unwrap()
}

#[test]
fn consecutive_failures_open_the_circuit() {
    let mut health = CircuitState::new(config(2, Duration::from_secs(1)));
    let permit = health.try_acquire(at(0)).unwrap();
    health.finish(permit, Outcome::Failure, at(0));
    assert_eq!(health.snapshot(at(0)), CircuitSnapshot::Closed { consecutive_failures: 1 });

    let permit = health.try_acquire(at(0)).unwrap();
    health.finish(permit, Outcome::Overloaded, at(0));
    assert!(matches!(health.snapshot(at(0)), CircuitSnapshot::Open { .. }));
    assert!(!health.is_available(at(0)));
    assert!(matches!(health.try_acquire(at(0)), Err(Rejected::Open { .. })));
}

#[test]
fn success_and_cancellation_reset_or_preserve_failure_accrual() {
    let mut health = CircuitState::new(config(2, Duration::from_secs(1)));
    let permit = health.try_acquire(at(0)).unwrap();
    health.finish(permit, Outcome::Failure, at(0));
    let permit = health.try_acquire(at(0)).unwrap();
    health.finish(permit, Outcome::Cancelled, at(0));
    assert_eq!(health.snapshot(at(0)), CircuitSnapshot::Closed { consecutive_failures: 1 });

    let permit = health.try_acquire(at(0)).unwrap();
    health.finish(permit, Outcome::Success, at(0));
    assert_eq!(health.snapshot(at(0)), CircuitSnapshot::Closed { consecutive_failures: 0 });
}

#[test]
fn cooldown_admits_only_the_configured_probe_count() {
    let mut health = CircuitState::new(config(1, Duration::from_millis(2)));
    let permit = health.try_acquire(at(0)).unwrap();
    health.finish(permit, Outcome::Failure, at(0));

    let probe = health.try_acquire(at(10)).unwrap();
    assert!(matches!(health.try_acquire(at(10)), Err(Rejected::ProbeLimit { .. })));
    health.finish(probe, Outcome::Success, at(10));
    assert_eq!(health.snapshot(at(10)), CircuitSnapshot::Closed { consecutive_failures: 0 });
}

#[test]
fn failed_probe_reopens_for_a_fresh_cooldown() {
    let mut health = CircuitState::new(config(1, Duration::from_millis(5)));
    let permit = health.try_acquire(at(0)).unwrap();
    health.finish(permit, Outcome::Failure, at(0));
    let probe = health.try_acquire(at(10)).unwrap();
    health.finish(probe, Outcome::Failure, at(10));

    let CircuitSnapshot::Open { retry_after } = health.snapshot(at(10)) else {
        panic!("expected reopened circuit");
    };
    assert!(retry_after > Duration::zero());
}

#[test]
fn multiple_successful_probes_can_be_required() {
    let config = config(1, Duration::from_millis(2)).with_success_threshold(2);
    let mut health = CircuitState::new(config);
    let permit = health.try_acquire(at(0)).unwrap();
    health.finish(permit, Outcome::Failure, at(0));

    let probe = health.try_acquire(at(10)).unwrap();
    health.finish(probe, Outcome::Success, at(10));
    assert!(matches!(health.snapshot(at(10)), CircuitSnapshot::HalfOpen { successes: 1, .. }));
    let probe = health.try_acquire(at(10)).unwrap();
    health.finish(probe, Outcome::Success, at(10));
    assert!(matches!(health.snapshot(at(10)), CircuitSnapshot::Closed { .. }));
}

#[test]
fn late_result_from_an_old_epoch_is_ignored() {
    let mut health = CircuitState::new(config(1, Duration::from_secs(1)));
    let late_success = health.try_acquire(at(0)).unwrap();
    let permit = health.try_acquire(at(0)).unwrap();
    health.finish(permit, Outcome::Failure, at(0));
    health.finish(late_success, Outcome::Success, at(0));

    assert!(matches!(health.snapshot(at(0)), CircuitSnapshot::Open { .. }));
}

#[test]
fn force_operations_are_immediate() {
    let mut health = CircuitState::new(config(3, Duration::from_secs(1)));
    health.force_open(at(0));
    assert!(!health.is_available(at(0)));
    health.force_close();
    assert!(health.is_available(at(0)));
}
