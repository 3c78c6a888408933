use poise::policy::SmoothWeightedRoundRobin;
use poise::{Backend, PickError, Policy, Status, Weight};

#[test]
fn produces_exact_long_run_weight_ratios() {
    let candidates = [
        Backend::new("a").with_weight(Weight::new(5).unwrap()),
        Backend::new("b"),
        Backend::new("c"),
    ];
    let mut policy = SmoothWeightedRoundRobin::new();
    let mut counts = [0_u32; 3];

    for _ in 0..700 {
        counts[policy.pick(&candidates, &()).unwrap().index()] += 1;
    }

    assert_eq!(counts, [500, 100, 100]);
}

#[test]
fn high_weight_selections_are_spread_through_the_cycle() {
    let candidates = [
        Backend::new("a").with_weight(Weight::new(5).unwrap()),
        Backend::new("b"),
        Backend::new("c"),
    ];
    let mut policy = SmoothWeightedRoundRobin::new();
    let sequence: Vec<_> = (0..7)
        .map(|_| policy.pick(&candidates, &()).unwrap().index())
        .collect();

    assert_eq!(sequence, [0, 0, 1, 0, 2, 0, 0]);
}

#[test]
fn state_follows_identity_and_prunes_absent_members() {
    let original = [
        Backend::new(String::from("a")).with_weight(Weight::new(2).unwrap()),
        Backend::new(String::from("b")),
    ];
    let reordered = [original[1].clone(), original[0].clone()];
    let only_a = [original[0].clone()];
    let mut policy = SmoothWeightedRoundRobin::new();

    policy.pick(&original, &()).unwrap();
    policy.pick(&reordered, &()).unwrap();
    assert_eq!(policy.tracked_len(), 2);

    policy.pick(&only_a, &()).unwrap();
    assert_eq!(policy.tracked_len(), 1);
}

#[test]
fn ineligible_state_is_pruned() {
    let candidates = [Backend::new(String::from("a")), Backend::new(String::from("b"))];
    let draining = [
        Backend::new(String::from("a")).with_status(Status::Draining),
        Backend::new(String::from("b")),
    ];
    let mut policy = SmoothWeightedRoundRobin::new();

    policy.pick(&candidates, &()).unwrap();
    policy.pick(&draining, &()).unwrap();
    assert_eq!(policy.tracked_len(), 1);
}

#[test]
fn duplicate_eligible_identity_is_rejected() {
    let candidates = [Backend::new("same"), Backend::new("same")];
    let mut policy = SmoothWeightedRoundRobin::new();

    assert_eq!(policy.pick(&candidates, &()), Err(PickError::DuplicateIdentity));
}

#[test]
fn swrr_reset_forgets_tracked_state() {
    let candidates = [Backend::new(1_u32), Backend::new(2_u32)];
    let mut swrr = SmoothWeightedRoundRobin::new();
    swrr.pick(&candidates, &()).unwrap();
    assert_eq!(swrr.tracked_len(), candidates.len());
    swrr.reset();
    assert_eq!(swrr.tracked_len(), 0);
}

#[test]
fn swrr_distinguishes_empty_from_ineligible() {
    let mut policy = SmoothWeightedRoundRobin::new();
    let empty: [Backend<&str>; 0] = [];
    assert_eq!(policy.pick(&empty, &()), Err(PickError::Empty));
    let drained = [Backend::new("a").with_status(Status::Draining)];
    assert_eq!(policy.pick(&drained, &()), Err(PickError::NoEligibleCandidates));
}

#[test]
fn one_cycle_from_fresh_state_matches_weights_and_skips_ineligible() {
    let candidates = [
        Backend::new("a").with_weight(Weight::new(3).unwrap()),
        Backend::new("b")
            .with_weight(Weight::new(4).unwrap())
            .with_status(Status::Draining),
        Backend::new("c"),
        Backend::new("d").with_weight(Weight::new(2).unwrap()),
    ];
    let mut policy = SmoothWeightedRoundRobin::new();
    let mut counts = [0_u32; 4];
    for _ in 0..6 {
        counts[policy.pick(&candidates, &()).unwrap().index()] += 1;
    }
    assert_eq!(counts, [3, 0, 1, 2]);
}
