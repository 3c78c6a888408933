use poise::policy::{PowerOfTwoChoices, Random, WeightedRandom};
use poise::{Backend, Policy, Status, Weight};

#[test]
fn random_seeded_instances_replay_the_same_decisions() {
    let candidates = [Backend::new("a"), Backend::new("b"), Backend::new("c")];
    let mut left = Random::seeded(42);
    let mut right = Random::seeded(42);

    for _ in 0..100 {
        assert_eq!(left.pick(&candidates, &()), right.pick(&candidates, &()));
    }
}

#[test]
fn never_selects_an_ineligible_candidate() {
    let candidates = [
        Backend::new("a").with_status(Status::Unavailable),
        Backend::new("b"),
        Backend::new("c").with_status(Status::Draining),
    ];
    let mut policy = Random::seeded(7);

    for _ in 0..100 {
        assert_eq!(policy.pick(&candidates, &()).unwrap().index(), 1);
    }
}

#[test]
fn distribution_is_uniform_within_a_generous_bound() {
    let candidates = [Backend::new("a"), Backend::new("b"), Backend::new("c")];
    let mut policy = Random::seeded(9);
    let mut counts = [0_u32; 3];

    for _ in 0..30_000 {
        counts[policy.pick(&candidates, &()).unwrap().index()] += 1;
    }

    for count in counts {
        assert!((9_500..=10_500).contains(&count), "count was {count}");
    }
}

#[test]
fn one_eligible_candidate_is_always_selected() {
    let candidates = [Backend::new("a").with_load(0).with_status(Status::Draining), Backend::new("b").with_load(100)];
    let mut policy = PowerOfTwoChoices::seeded(13);

    assert_eq!(policy.pick(&candidates, &()).unwrap().index(), 1);
}

#[test]
fn globally_worst_candidate_never_wins_a_pair() {
    let candidates = [Backend::new("a").with_load(0), Backend::new("b").with_load(1), Backend::new("c").with_load(2)];
    let mut policy = PowerOfTwoChoices::seeded(14);

    for _ in 0..1_000 {
        assert_ne!(policy.pick(&candidates, &()).unwrap().index(), 2);
    }
}

#[test]
fn power_of_two_seeded_instances_replay_the_same_decisions() {
    let candidates = [Backend::new("a").with_load(1), Backend::new("b").with_load(1), Backend::new("c").with_load(1)];
    let mut left = PowerOfTwoChoices::seeded(15);
    let mut right = PowerOfTwoChoices::seeded(15);

    for _ in 0..100 {
        assert_eq!(left.pick(&candidates, &()), right.pick(&candidates, &()));
    }
}

#[test]
fn distribution_tracks_relative_weights() {
    let candidates = [Backend::new("a"), Backend::new("b").with_weight(Weight::new(3).unwrap())];
    let mut policy = WeightedRandom::seeded(11);
    let mut counts = [0_u32; 2];

    for _ in 0..40_000 {
        counts[policy.pick(&candidates, &()).unwrap().index()] += 1;
    }

    assert!((9_500..=10_500).contains(&counts[0]), "counts: {counts:?}");
    assert!((29_500..=30_500).contains(&counts[1]), "counts: {counts:?}");
}
