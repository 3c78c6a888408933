use poise::policy::{LocalityWeightedRandom, Localized, PanicMode, Prioritized, PriorityConfig, PriorityMode};
use poise::{Backend, PickError, Status, Weight};

type TestBackend = Localized<Prioritized<Backend<&'static str>>, &'static str>;

fn backend(
    id: &'static str,
    priority: u32,
    locality: &'static str,
    locality_weight: u32,
    endpoint_weight: u32,
    status: Status,
) -> TestBackend {
    Localized::new(
        Prioritized::new(Backend::new(id).with_weight(Weight::new(endpoint_weight).unwrap()).with_status(status), priority),
        locality,
    )
    .with_locality_weight(Weight::new(locality_weight).unwrap())
}

#[test]
fn healthy_locality_weights_set_traffic_share() {
    let candidates = [backend("west", 0, "west", 1, 1, Status::Ready), backend("east", 0, "east", 3, 1, Status::Ready)];
    let mut policy = LocalityWeightedRandom::seeded(1);
    let mut west = 0_u32;
    for _ in 0..100_000 {
        west += u32::from(policy.decide(&candidates).unwrap().selection().index() == 0);
    }
    assert!((24_000..26_000).contains(&west), "west={west}");
}

#[test]
fn locality_health_scales_configured_weight() {
    let candidates = [
        backend("x-ready", 0, "x", 1, 1, Status::Ready),
        backend("x-down", 0, "x", 1, 1, Status::Unavailable),
        backend("y-ready", 0, "y", 2, 1, Status::Ready),
    ];
    let mut policy = LocalityWeightedRandom::seeded(2);
    let mut x = 0_u32;
    for _ in 0..100_000 {
        x += u32::from(policy.decide(&candidates).unwrap().selection().index() == 0);
    }
    assert!((25_000..27_000).contains(&x), "x={x}");
}

#[test]
fn overprovisioning_absorbs_small_locality_loss() {
    let mut candidates = Vec::new();
    for index in 0..7 {
        candidates.push(backend(
            if index < 5 { "x-ready" } else { "x-down" },
            0,
            "x",
            1,
            1,
            if index < 5 { Status::Ready } else { Status::Unavailable },
        ));
    }
    candidates.push(backend("y", 0, "y", 2, 1, Status::Ready));
    let mut policy = LocalityWeightedRandom::seeded(3);
    let mut x = 0_u32;
    for _ in 0..100_000 {
        let selected = policy.decide(&candidates).unwrap().selection().index();
        x += u32::from(selected < 5);
    }
    assert!((32_000..35_000).contains(&x), "x={x}");
}

#[test]
fn failover_priority_applies_its_own_locality_weights() {
    let candidates = [
        backend("primary", 0, "a", 1, 1, Status::Unavailable),
        backend("secondary-a", 1, "a", 1, 1, Status::Ready),
        backend("secondary-b", 1, "b", 3, 1, Status::Ready),
    ];
    let mut policy = LocalityWeightedRandom::seeded(5);
    let mut b = 0_u32;
    for _ in 0..100_000 {
        let decision = policy.decide(&candidates).unwrap();
        assert_eq!(decision.priority(), 1);
        b += u32::from(decision.selection().index() == 2);
    }
    assert!((74_000..76_000).contains(&b), "b={b}");
}

#[test]
fn panic_uses_panic_eligible_members_in_each_locality() {
    let candidates = [backend("a", 0, "a", 1, 1, Status::Unavailable), backend("b", 0, "b", 1, 1, Status::Unavailable)];
    let mut policy = LocalityWeightedRandom::seeded(6);
    for _ in 0..100 {
        let decision = policy.decide(&candidates).unwrap();
        assert_eq!(decision.priority_mode(), PriorityMode::Panic);
    }
}

#[test]
fn endpoint_weights_apply_only_inside_selected_locality() {
    let candidates =
        [backend("small", 0, "west", 1, 1, Status::Ready), backend("large", 0, "west", 1, 3, Status::Ready)];
    let mut policy = LocalityWeightedRandom::seeded(8);
    let mut large = 0_u32;
    for _ in 0..100_000 {
        large += u32::from(policy.decide(&candidates).unwrap().selection().index() == 1);
    }
    assert!((74_000..76_000).contains(&large), "large={large}");
}

#[test]
fn standard_empty_fail_closed_and_draining_errors_propagate() {
    let config = PriorityConfig::new(140, 50, PanicMode::FailClosed).unwrap();
    let mut policy = LocalityWeightedRandom::<&str>::seeded_with(config, 11);
    assert_eq!(policy.decide::<TestBackend>(&[]), Err(PickError::Empty));

    let down = [backend("down", 0, "a", 1, 1, Status::Unavailable)];
    assert_eq!(policy.decide(&down), Err(PickError::PanicRejected));

    let draining = [backend("old", 0, "a", 1, 1, Status::Draining)];
    assert_eq!(policy.decide(&draining), Err(PickError::NoEligibleCandidates));
}
