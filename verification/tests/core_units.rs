use poise::policy::{
    LeastLoaded, Localized, PanicMode, Prioritized, PriorityCandidate, PriorityConfig, PriorityConfigError,
    Rendezvous, RoundRobin,
};
use poise::policy::locality::LocalityCandidate;
use poise::probe::{ProbeDecisionError, ProbePoolConfig, ProbePoolConfigError, ProbePoolState, ProbeReading};
use poise::time::{Duration, Instant};
use poise::{
    check_peak_ewma, mix64, Backend, Candidate, Fnv1a64, InvalidWeight, PeakEwmaConfigError, PickError, Policy, Status,
    Weight,
};

#[test]
fn builder_preserves_independent_fields() {
    let backend = Backend::new("api")
        .with_data("https://api.example")
        .with_load(7_u32)
        .with_weight(Weight::new(3).unwrap())
        .with_status(Status::Draining);

    assert_eq!(backend.id(), &"api");
    assert_eq!(backend.data(), &"https://api.example");
    assert_eq!(backend.load(), &7);
    assert_eq!(backend.weight().get(), 3);
    assert_eq!(backend.status(), Status::Draining);
    assert!(!backend.is_eligible());
}

#[test]
fn matches_published_fnv1a_vector() {
    let mut hasher = Fnv1a64::default();
    hasher.write(b"hello");
    assert_eq!(hasher.finish(), 0xa430_d846_80aa_bd0b);
}

#[test]
fn integer_encoding_is_explicitly_little_endian() {
    let mut through_method = Fnv1a64::default();
    through_method.write_u64(0x0102_0304_0506_0708);

    let mut through_bytes = Fnv1a64::default();
    through_bytes.write(&[8, 7, 6, 5, 4, 3, 2, 1]);

    assert_eq!(through_method.finish(), through_bytes.finish());
}

#[test]
fn avalanche_finalizer_has_stable_vectors() {
    assert_eq!(mix64(0), 0);
    assert_eq!(mix64(1), 0x5692_161d_100b_05e5);
    assert_eq!(mix64(u64::MAX), 0xb4d0_55fc_f2cb_bd7b);
}

#[test]
fn rejects_zero() {
    assert_eq!(Weight::new(0), Err(InvalidWeight));
}

#[test]
fn weight_keeps_positive_values() {
    assert_eq!(Weight::new(1).unwrap().get(), 1);
    assert_eq!(Weight::new(u32::MAX).unwrap().get(), u32::MAX);
    assert_eq!(Weight::default().get(), 1);
}

#[test]
fn cycles_and_skips_ineligible_candidates() {
    let candidates = [
        Backend::new("a"),
        Backend::new("b").with_status(Status::Draining),
        Backend::new("c"),
    ];
    let mut policy = RoundRobin::new();

    let indices: Vec<_> = (0..5)
        .map(|_| policy.pick(&candidates, &()).unwrap().index())
        .collect();

    assert_eq!(indices, [0, 2, 0, 2, 0]);
}

#[test]
fn round_robin_distinguishes_empty_from_ineligible() {
    let mut policy = RoundRobin::new();
    let empty: [Backend<&str>; 0] = [];
    assert_eq!(policy.pick(&empty, &()), Err(PickError::Empty));

    let candidates = [Backend::new("a").with_status(Status::Unavailable)];
    assert_eq!(
        policy.pick(&candidates, &()),
        Err(PickError::NoEligibleCandidates)
    );
}

#[test]
fn round_robin_cursor_wraps_at_the_slice_length() {
    let candidates = [Backend::new("a"), Backend::new("b"), Backend::new("c")];
    let mut policy = RoundRobin::with_cursor(4);
    assert_eq!(policy.pick(&candidates, &()).unwrap().index(), 1);
    assert_eq!(policy.pick(&candidates, &()).unwrap().index(), 2);
    assert_eq!(policy.pick(&candidates, &()).unwrap().index(), 0);
}

#[test]
fn selects_smallest_load_and_skips_ineligible() {
    let candidates = [
        Backend::new("a").with_load(5),
        Backend::new("b")
            .with_load(1)
            .with_status(Status::Unavailable),
        Backend::new("c").with_load(2),
    ];
    let mut policy = LeastLoaded::new();

    assert_eq!(policy.pick(&candidates, &()).unwrap().index(), 2);
}

#[test]
fn rotates_equal_load_ties() {
    let candidates = [
        Backend::new("a").with_load(1),
        Backend::new("b").with_load(1),
        Backend::new("c").with_load(1),
    ];
    let mut policy = LeastLoaded::new();

    let indices: Vec<_> = (0..6)
        .map(|_| policy.pick(&candidates, &()).unwrap().index())
        .collect();
    assert_eq!(indices, [0, 1, 2, 0, 1, 2]);
}

#[test]
fn least_loaded_distinguishes_empty_from_ineligible() {
    let mut policy = LeastLoaded::new();
    let empty: [Backend<&str, (), u32>; 0] = [];
    assert_eq!(policy.pick(&empty, &()), Err(PickError::Empty));
    let drained = [Backend::new("a").with_load(0_u32).with_status(Status::Draining)];
    assert_eq!(policy.pick(&drained, &()), Err(PickError::NoEligibleCandidates));
}

#[test]
fn decisions_are_deterministic() {
    let candidates = [Backend::new("a"), Backend::new("b"), Backend::new("c")];
    let mut left = Rendezvous::new();
    let mut right = Rendezvous::new();

    for key in 0..1_000_u64 {
        assert_eq!(left.pick(&candidates, &key), right.pick(&candidates, &key));
    }
}

#[test]
fn rendezvous_removing_a_backend_only_remaps_its_keys() {
    let all = [Backend::new("a"), Backend::new("b"), Backend::new("c")];
    let without_b = [Backend::new("a"), Backend::new("c")];
    let mut policy = Rendezvous::new();

    for key in 0..10_000_u64 {
        let old_id = all[policy.pick(&all, &key).unwrap().index()].id();
        let new_id = without_b[policy.pick(&without_b, &key).unwrap().index()].id();
        if old_id != &"b" {
            assert_eq!(old_id, new_id, "key {key} moved unnecessarily");
        }
    }
}

#[test]
fn excludes_ineligible_winners() {
    let candidates = [
        Backend::new("a").with_status(Status::Unavailable),
        Backend::new("b"),
    ];
    let mut policy = Rendezvous::new();

    for key in 0..100_u64 {
        assert_eq!(policy.pick(&candidates, &key).unwrap().index(), 1);
    }
}

#[test]
fn configuration_validates_percentages() {
    assert_eq!(
        PriorityConfig::new(99, 50, PanicMode::UseAll),
        Err(PriorityConfigError::Underprovisioned)
    );
    assert_eq!(
        PriorityConfig::new(140, 101, PanicMode::UseAll),
        Err(PriorityConfigError::InvalidPanicThreshold)
    );
    assert_eq!(
        PriorityConfig::default().overprovisioning_factor_percent(),
        140
    );
    assert_eq!(PriorityConfig::default().panic_threshold_percent(), 50);
}

#[test]
fn configuration_rejects_a_zero_maximum_age() {
    assert_eq!(
        ProbePoolConfig::new(1, 1, Duration::zero()),
        Err(ProbePoolConfigError::ZeroMaxAge)
    );
    assert_eq!(
        ProbePoolConfig::new(4, 2, Duration::from_secs(1)).unwrap().capacity(),
        4
    );
}

type TestBackend = Localized<Prioritized<Backend<&'static str>>, &'static str>;

fn localized(id: &'static str, priority: u32, locality: &'static str, locality_weight: u32, endpoint_weight: u32, status: Status) -> TestBackend {
    Localized::new(
        Prioritized::new(
            Backend::new(id)
                .with_weight(Weight::new(endpoint_weight).unwrap())
                .with_status(status),
            priority,
        ),
        locality,
    )
    .with_locality_weight(Weight::new(locality_weight).unwrap())
}

#[test]
fn wrapper_delegates_candidate_and_priority_metadata() {
    let mut candidate = localized("api", 3, "west", 7, 5, Status::Ready);
    assert_eq!(candidate.id(), &"api");
    assert_eq!(PriorityCandidate::priority(&candidate), 3);
    assert_eq!(LocalityCandidate::locality(&candidate), &"west");
    assert_eq!(LocalityCandidate::locality_weight(&candidate).get(), 7);
    assert_eq!(candidate.weight().get(), 5);
    candidate.inner_mut().set_priority(4);
    assert_eq!(PriorityCandidate::priority(&candidate), 4);
    assert_eq!(candidate.into_inner().into_inner().id(), &"api");
}

#[test]
fn peak_ewma_configuration_rejects_zero_durations_latency_first() {
    assert_eq!(
        check_peak_ewma(Duration::zero(), Duration::zero()),
        Err(PeakEwmaConfigError::ZeroDefaultRtt)
    );
    assert_eq!(
        check_peak_ewma(Duration::from_millis(30), Duration::zero()),
        Err(PeakEwmaConfigError::ZeroHalfLife)
    );
    assert_eq!(check_peak_ewma(Duration::from_millis(30), Duration::from_secs(10)), Ok(()));
}

#[test]
fn probe_pool_stays_within_capacity_reuse_and_age_limits() {
    let config = ProbePoolConfig::new(2, 2, Duration::from_secs(10)).unwrap();
    let mut pool: ProbePoolState<u32> = ProbePoolState::new(config);
    let at = |secs: u64| Instant::from_nanos(u128::from(secs) * 1_000_000_000);
    let reading = ProbeReading::new(1, Duration::from_millis(5));

    pool.record_at(1, reading, at(1));
    pool.record_at(2, reading, at(2));
    pool.record_at(3, reading, at(3));
    assert_eq!(pool.len_at(at(3)), 2);

    let first = pool.decide_at(at(4), |entries| entries.iter().position(|e| *e.id() == 2)).unwrap();
    assert_eq!(*first.id(), 2);
    assert_eq!(first.remaining_uses(), 1);
    assert_eq!(pool.len_at(at(4)), 2);
    let second = pool.decide_at(at(4), |entries| entries.iter().position(|e| *e.id() == 2)).unwrap();
    assert_eq!(second.remaining_uses(), 0);
    assert_eq!(pool.len_at(at(4)), 1);

    assert_eq!(pool.len_at(at(13)), 0);
    assert_eq!(pool.decide_at(at(13), |_| Some(0)).unwrap_err(), ProbeDecisionError::NoProbes);
}

#[test]
fn one_round_robin_cycle_from_any_cursor_visits_each_eligible_once() {
    let candidates = [
        Backend::new("a"),
        Backend::new("b").with_status(Status::Unavailable),
        Backend::new("c"),
        Backend::new("d"),
        Backend::new("e").with_status(Status::Draining),
    ];
    for cursor in [0_usize, 1, 3, 4, 7, usize::MAX] {
        let mut policy = RoundRobin::with_cursor(cursor);
        let mut picked: Vec<_> = (0..3)
            .map(|_| policy.pick(&candidates, &()).unwrap().index())
            .collect();
        picked.sort_unstable();
        assert_eq!(picked, [0, 2, 3]);
    }
}
