use poise::observe::event::{ATTEMPT_KIND_COUNT, DECISION_KIND_COUNT};
use poise::observe::metrics::{latency_bucket, saturated_sum, saturating_micros};
use poise::observe::{
    Attempt, AttemptEvent, AttemptKind, DecisionEvent, DecisionKind, Fanout, Metrics, NoopObserver, ObservedPolicy,
    Observer, ReadinessFailure, TowerObserver, TracedPolicy, ATTEMPT_LATENCY_BUCKET_COUNT, attempt_latency_bounds,
};
use poise::policy::RoundRobin;
use poise::time::{Duration, Instant};
use poise::{Backend, PickError, Policy};

#[test]
fn appended_failures_have_stable_classifications() {
    assert_eq!(DecisionKind::OtherFailure.index(), 6);
    assert_eq!(DecisionKind::LoadOverflow.index(), 7);
    assert_eq!(DecisionKind::PanicRejected.index(), 8);
    assert_eq!(DecisionKind::InconsistentTopology.index(), 9);
    assert_eq!(DecisionKind::from_error(PickError::LoadOverflow), DecisionKind::LoadOverflow);
    assert_eq!(DecisionKind::LoadOverflow.as_str(), "load_overflow");
    assert_eq!(DecisionKind::from_error(PickError::PanicRejected), DecisionKind::PanicRejected);
    assert_eq!(DecisionKind::PanicRejected.as_str(), "panic_rejected");
    assert_eq!(
        DecisionKind::from_error(PickError::InconsistentTopology),
        DecisionKind::InconsistentTopology
    );
}

#[test]
fn decision_kinds_are_listed_in_counter_order() {
    for (position, kind) in DecisionKind::all().into_iter().enumerate() {
        assert_eq!(kind.index(), position);
    }
    for (position, kind) in AttemptKind::all().into_iter().enumerate() {
        assert_eq!(kind.index(), position);
    }
}

#[test]
fn counter_cardinality_matches_the_documented_total() {
    let total = DECISION_KIND_COUNT + ATTEMPT_KIND_COUNT + 1 + ATTEMPT_LATENCY_BUCKET_COUNT + 1;
    assert_eq!(total, 28, "counter cardinality changed");
    assert_eq!(DecisionKind::all().len(), DECISION_KIND_COUNT);
    assert_eq!(AttemptKind::all().len(), ATTEMPT_KIND_COUNT);
    assert_eq!(attempt_latency_bounds().len() + 1, ATTEMPT_LATENCY_BUCKET_COUNT);
}

#[test]
fn metrics_use_fixed_dimensions_and_cumulative_latency_buckets() {
    let metrics = Metrics::new();
    metrics.record_decision(DecisionEvent::new(DecisionKind::Selected, 10_000, Some(9_999)));
    metrics.record_attempt(AttemptEvent::new(AttemptKind::Success, Duration::from_millis(4)));
    metrics.record_attempt(AttemptEvent::new(AttemptKind::Failure, Duration::from_secs(8)));
    for endpoint in 0..10_000 {
        metrics.record_readiness_failure(ReadinessFailure::new(endpoint));
    }

    let snapshot = metrics.snapshot();
    assert_eq!(snapshot.decisions(DecisionKind::Selected), 1);
    assert_eq!(snapshot.attempts(AttemptKind::Success), 1);
    assert_eq!(snapshot.attempts(AttemptKind::Failure), 1);
    assert_eq!(snapshot.readiness_failures(), 10_000);

    let buckets = snapshot.attempt_latency().buckets();
    assert_eq!(buckets[0].count(), 0);
    assert_eq!(buckets[1].count(), 1);
    assert_eq!(buckets.last().unwrap().upper_bound(), None);
    assert_eq!(buckets.last().unwrap().count(), 2);
    assert_eq!(snapshot.attempt_latency().sum(), Duration::from_millis(8_004));
}

#[test]
fn counters_saturate_instead_of_wrapping() {
    assert_eq!(saturated_sum(u64::MAX - 1, 1), Some(u64::MAX));
    assert_eq!(saturated_sum(u64::MAX, 1), Some(u64::MAX));
    assert_eq!(saturated_sum(2, 3), Some(5));
    assert_eq!(saturating_micros(Duration::from_nanos(u128::MAX)), u64::MAX);
    assert_eq!(saturating_micros(Duration::from_millis(3)), 3_000);
}

#[test]
fn latency_buckets_are_inclusive_upper_bounds() {
    assert_eq!(latency_bucket(Duration::zero()), 0);
    assert_eq!(latency_bucket(Duration::from_millis(1)), 0);
    assert_eq!(latency_bucket(Duration::from_nanos(1_000_001)), 1);
    assert_eq!(latency_bucket(Duration::from_secs(5)), 9);
    assert_eq!(latency_bucket(Duration::from_nanos(5_000_000_001)), 10);
}

#[test]
fn fanout_delivers_to_both_observers() {
    let first = Metrics::new();
    let second = Metrics::new();
    let observer = Fanout::new(first.clone(), second.clone());

    observer.observe_decision(DecisionEvent::new(DecisionKind::Selected, 1, Some(0)));

    assert_eq!(first.snapshot().decisions(DecisionKind::Selected), 1);
    assert_eq!(second.snapshot().decisions(DecisionKind::Selected), 1);
}

#[test]
fn decorator_preserves_policy_results_and_state() {
    let candidates = [Backend::new("a"), Backend::new("b")];
    let metrics = Metrics::new();
    let mut policy = ObservedPolicy::new(RoundRobin::new(), metrics.clone());

    assert_eq!(policy.pick(&candidates, &()).unwrap().index(), 0);
    assert_eq!(policy.pick(&candidates, &()).unwrap().index(), 1);
    let empty: [Backend<&str>; 0] = [];
    assert_eq!(policy.pick(&empty, &()), Err(PickError::Empty));

    let snapshot = metrics.snapshot();
    assert_eq!(snapshot.decisions(DecisionKind::Selected), 2);
    assert_eq!(snapshot.decisions(DecisionKind::Empty), 1);
}

#[test]
fn adapter_counts_without_partitioning_by_endpoint_or_error() {
    let metrics = Metrics::new();
    let mut observer = TowerObserver::new(metrics.clone());

    observer.observe(1, &"first");
    observer.observe(usize::MAX, &"unbounded user-controlled detail");

    assert_eq!(metrics.snapshot().readiness_failures(), 2);
}

#[test]
fn traced_policy_preserves_selection_without_a_subscriber() {
    let candidates = [Backend::new("a"), Backend::new("b")];
    let mut policy = TracedPolicy::new(RoundRobin::new());

    assert_eq!(policy.pick(&candidates, &()).unwrap().index(), 0);
    assert_eq!(policy.pick(&candidates, &()).unwrap().index(), 1);
}

#[test]
fn completion_and_drop_are_classified_exactly_once() {
    let metrics = Metrics::new();
    let start = Instant::from_nanos(0);
    let delivered = Attempt::new(metrics.clone(), start).success(Instant::from_nanos(2_000_000));
    assert_eq!(delivered.map(|event| event.kind()), Some(AttemptKind::Success));

    let mut abandoned = Attempt::new(metrics.clone(), start);
    let cancelled = abandoned.finish(AttemptKind::Cancelled, Instant::from_nanos(1_000));
    assert_eq!(cancelled.map(|event| event.elapsed()), Some(Duration::from_nanos(1_000)));
    assert_eq!(abandoned.finish(AttemptKind::Cancelled, Instant::from_nanos(5_000)), None);
    assert_eq!(abandoned.cancel(Instant::from_nanos(9_000)), None);

    let snapshot = metrics.snapshot();
    assert_eq!(snapshot.attempts(AttemptKind::Success), 1);
    assert_eq!(snapshot.attempts(AttemptKind::Cancelled), 1);
    assert_eq!(snapshot.attempt_latency().count(), 2);
}

#[test]
fn attempt_clock_running_backwards_counts_as_no_time() {
    let attempt = Attempt::new(NoopObserver, Instant::from_nanos(10));
    let event = attempt.failure(Instant::from_nanos(5)).unwrap();
    assert_eq!(event.kind(), AttemptKind::Failure);
    assert_eq!(event.elapsed(), Duration::zero());
}
