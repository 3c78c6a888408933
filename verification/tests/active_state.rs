use poise::health::active::{ActiveHealthConfig, ActiveHealthState, ActiveStatus, ProbeRejected, ProbeResult, UnknownPolicy};
use poise::time::{Duration, Instant};

const TEST_INTERVAL_MILLIS: u64 = 5;

fn config(healthy_threshold: u32, unhealthy_threshold: u32, unknown_policy: UnknownPolicy) -> ActiveHealthConfig {
    ActiveHealthConfig::new(Duration::from_millis(TEST_INTERVAL_MILLIS), healthy_threshold, unhealthy_threshold)
        .unwrap()
        .with_unknown_policy(unknown_policy)
}

fn at(millis: u64) -> Instant {
    Instant::from_nanos(u128::from(millis) * 1_000_000)
}

fn probe(health: &mut ActiveHealthState, now: Instant, result: Option<ProbeResult>) {
    let generation = health.try_start_probe_at(now).unwrap();
    health.finish_at(generation, result, now);
}

#[test]
fn caller_provided_clock_controls_reservation_and_completion() {
    let mut health = ActiveHealthState::new(config(1, 1, UnknownPolicy::Allow));
    let started = at(1_000);
    probe(&mut health, started, Some(ProbeResult::Healthy));

    let almost_due = Instant::from_nanos(at(1_000 + TEST_INTERVAL_MILLIS).as_nanos() - 1);
    assert_eq!(
        health.try_start_probe_at(almost_due).unwrap_err(),
        ProbeRejected::NotDue { retry_after: Duration::from_nanos(1) }
    );
    assert_eq!(health.snapshot_at(almost_due).due_in(), Duration::from_nanos(1));

    let due = at(1_000 + TEST_INTERVAL_MILLIS);
    assert!(health.is_probe_due_at(due));
    probe(&mut health, due, None);
}

#[test]
fn thresholds_require_consecutive_results() {
    let mut health = ActiveHealthState::new(config(2, 2, UnknownPolicy::Deny));
    let mut now = 1_000;

    probe(&mut health, at(now), Some(ProbeResult::Unhealthy));
    let snapshot = health.snapshot_at(at(now));
    assert_eq!(snapshot.status(), ActiveStatus::Unknown);
    assert_eq!(snapshot.consecutive_unhealthy(), 1);

    now += TEST_INTERVAL_MILLIS + 5;
    assert!(health.is_probe_due_at(at(now)));
    probe(&mut health, at(now), Some(ProbeResult::Healthy));
    let snapshot = health.snapshot_at(at(now));
    assert_eq!(snapshot.status(), ActiveStatus::Unknown);
    assert_eq!(snapshot.consecutive_healthy(), 1);
    assert_eq!(snapshot.consecutive_unhealthy(), 0);

    now += TEST_INTERVAL_MILLIS + 5;
    probe(&mut health, at(now), Some(ProbeResult::Healthy));
    assert_eq!(health.snapshot_at(at(now)).status(), ActiveStatus::Healthy);
    assert!(health.is_available());

    now += TEST_INTERVAL_MILLIS + 5;
    probe(&mut health, at(now), Some(ProbeResult::Unhealthy));
    assert_eq!(health.snapshot_at(at(now)).status(), ActiveStatus::Healthy);

    now += TEST_INTERVAL_MILLIS + 5;
    probe(&mut health, at(now), Some(ProbeResult::Unhealthy));
    assert_eq!(health.snapshot_at(at(now)).status(), ActiveStatus::Unhealthy);
    assert!(!health.is_available());
}

#[test]
fn cancellation_preserves_classification_and_reschedules() {
    let mut health = ActiveHealthState::new(config(1, 1, UnknownPolicy::Allow));
    health.force_status(ActiveStatus::Healthy);

    probe(&mut health, at(1_000), None);
    let snapshot = health.snapshot_at(at(1_000));
    assert_eq!(snapshot.status(), ActiveStatus::Healthy);
    assert_eq!(snapshot.consecutive_healthy(), 0);
    assert_eq!(snapshot.consecutive_unhealthy(), 0);
    assert!(!snapshot.probe_in_flight());
    assert!(!snapshot.due_in().is_zero());
    assert!(matches!(
        health.try_start_probe_at(at(1_000)),
        Err(ProbeRejected::NotDue { retry_after }) if !retry_after.is_zero()
    ));
}

#[test]
fn forced_status_invalidates_a_stale_probe_without_touching_a_new_one() {
    let mut health = ActiveHealthState::new(config(1, 1, UnknownPolicy::Allow));
    let now = at(1_000);
    let stale = health.try_start_probe_at(now).unwrap();
    health.force_status(ActiveStatus::Healthy);

    let current = health.try_start_probe_at(now).unwrap();
    health.finish_at(stale, Some(ProbeResult::Unhealthy), now);
    assert!(health.snapshot_at(now).probe_in_flight());
    assert_eq!(health.snapshot_at(now).status(), ActiveStatus::Healthy);

    health.finish_at(current, Some(ProbeResult::Unhealthy), now);
    assert!(!health.snapshot_at(now).probe_in_flight());
    assert_eq!(health.snapshot_at(now).status(), ActiveStatus::Unhealthy);
}

#[test]
fn very_large_intervals_do_not_require_future_instant_arithmetic() {
    let max = Duration::from_nanos(u128::from(u64::MAX) * 1_000_000_000 + 999_999_999);
    let config = ActiveHealthConfig::new(max, 1, 1).unwrap();
    let mut health = ActiveHealthState::new(config);

    probe(&mut health, at(1_000), Some(ProbeResult::Healthy));
    assert!(matches!(
        health.try_start_probe_at(at(1_000)),
        Err(ProbeRejected::NotDue { retry_after }) if !retry_after.is_zero()
    ));
}
