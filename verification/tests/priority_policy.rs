use poise::policy::{PanicMode, Prioritized, PriorityConfig, PriorityMode, PriorityWeightedRandom};
use poise::{Backend, PickError, Policy, Status, Weight};

fn config(overprovisioning: u32, threshold: u32, mode: PanicMode) -> PriorityConfig {
    PriorityConfig::new(overprovisioning, threshold, mode).unwrap()
}

fn backend(id: &'static str, priority: u32, status: Status, weight: u32) -> Prioritized<Backend<&'static str>> {
    Prioritized::new(Backend::new(id).with_status(status).with_weight(Weight::new(weight).unwrap()), priority)
}

#[test]
fn fully_available_primary_receives_all_traffic() {
    let candidates = [
        backend("primary-a", 0, Status::Ready, 1),
        backend("primary-b", 0, Status::Ready, 1),
        backend("failover", 1, Status::Ready, 1),
    ];
    let mut policy = PriorityWeightedRandom::seeded(1);

    for _ in 0..1_000 {
        assert_eq!(policy.decide(&candidates).unwrap().priority(), 0);
    }
}

#[test]
fn lower_priority_receives_only_the_capacity_shortfall() {
    let candidates = [
        backend("p0-ready", 0, Status::Ready, 1),
        backend("p0-down", 0, Status::Unavailable, 1),
        backend("p1-ready", 1, Status::Ready, 2),
    ];
    let mut policy = PriorityWeightedRandom::seeded_with(config(100, 50, PanicMode::UseAll), 2);
    let mut primary = 0_u32;

    for _ in 0..20_000 {
        primary += u32::from(policy.decide(&candidates).unwrap().priority() == 0);
    }
    assert!((9_700..=10_300).contains(&primary), "primary count {primary}");
}

#[test]
fn overprovisioning_absorbs_documented_primary_headroom() {
    let candidates = [
        backend("ready-a", 0, Status::Ready, 1),
        backend("ready-b", 0, Status::Ready, 1),
        backend("ready-c", 0, Status::Ready, 1),
        backend("ready-d", 0, Status::Ready, 1),
        backend("ready-e", 0, Status::Ready, 1),
        backend("down-a", 0, Status::Unavailable, 1),
        backend("down-b", 0, Status::Unavailable, 1),
        backend("failover", 1, Status::Ready, 1),
    ];
    let mut policy = PriorityWeightedRandom::seeded(11);

    for _ in 0..1_000 {
        assert_eq!(policy.decide(&candidates).unwrap().priority(), 0);
    }
}

#[test]
fn lower_priorities_suppress_panic_when_combined_capacity_is_full() {
    let candidates = [
        backend("p0-ready", 0, Status::Ready, 1),
        backend("p0-down", 0, Status::Unavailable, 3),
        backend("p1-ready", 1, Status::Ready, 4),
    ];
    let mut policy = PriorityWeightedRandom::seeded_with(config(100, 50, PanicMode::FailClosed), 3);

    for _ in 0..1_000 {
        let decision = policy.decide(&candidates).unwrap();
        assert_eq!(decision.mode(), PriorityMode::Healthy);
    }
}

#[test]
fn use_all_panic_can_route_to_unhealthy_members() {
    let candidates = [
        backend("ready", 0, Status::Ready, 1),
        backend("down-a", 0, Status::Unavailable, 1),
        backend("down-b", 0, Status::Unavailable, 1),
        backend("down-c", 0, Status::Unavailable, 1),
    ];
    let mut policy = PriorityWeightedRandom::seeded_with(config(100, 50, PanicMode::UseAll), 4);
    let mut unhealthy_selected = false;

    for _ in 0..100 {
        let decision = policy.decide(&candidates).unwrap();
        assert_eq!(decision.mode(), PriorityMode::Panic);
        unhealthy_selected |= decision.selection().index() != 0;
    }
    assert!(unhealthy_selected);
}

#[test]
fn fail_closed_panic_is_an_explicit_error() {
    let candidates = [
        backend("ready", 0, Status::Ready, 1),
        backend("down-a", 0, Status::Unavailable, 1),
        backend("down-b", 0, Status::Unavailable, 1),
    ];
    let mut policy = PriorityWeightedRandom::seeded_with(config(100, 50, PanicMode::FailClosed), 5);

    assert_eq!(policy.decide(&candidates), Err(PickError::PanicRejected));
}

#[test]
fn zero_threshold_disables_panic() {
    let candidates = [backend("down", 0, Status::Unavailable, 1)];
    let mut policy = PriorityWeightedRandom::seeded_with(config(100, 0, PanicMode::UseAll), 6);

    assert_eq!(policy.decide(&candidates), Err(PickError::NoEligibleCandidates));
}

#[test]
fn draining_and_opted_out_members_are_never_revived() {
    let candidates = [
        backend("draining", 0, Status::Draining, 100),
        backend("excluded", 0, Status::Unavailable, 100).with_panic_eligibility(false),
        backend("panic-safe", 0, Status::Unavailable, 1),
    ];
    let mut policy = PriorityWeightedRandom::seeded_with(config(100, 50, PanicMode::UseAll), 7);

    for _ in 0..100 {
        assert_eq!(policy.pick(&candidates, &()).unwrap().index(), 2);
    }
}

#[test]
fn endpoint_weights_are_respected_within_a_priority() {
    let candidates = [backend("small", 0, Status::Ready, 1), backend("large", 0, Status::Ready, 3)];
    let mut policy = PriorityWeightedRandom::seeded(8);
    let mut large = 0_u32;

    for _ in 0..20_000 {
        large += u32::from(policy.pick(&candidates, &()).unwrap().index() == 1);
    }
    assert!((14_600..=15_400).contains(&large), "large count {large}");
}

#[test]
fn distinguishes_empty_from_no_priority_members() {
    let empty: [Prioritized<Backend<&str>>; 0] = [];
    let draining = [backend("a", 0, Status::Draining, 1)];
    let mut policy = PriorityWeightedRandom::seeded(10);

    assert_eq!(policy.pick(&empty, &()), Err(PickError::Empty));
    assert_eq!(policy.pick(&draining, &()), Err(PickError::NoEligibleCandidates));
}
