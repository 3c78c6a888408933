use poise::health::outlier::considered_hosts;
use poise::policy::locality::{locality_for_ticket, select_in_locality};
use poise::policy::priority::scope_for_ticket;
use poise::policy::random::{reservoir_choice, two_choice};
use poise::policy::{Localized, PanicMode, Prioritized, PriorityConfig, PriorityMode, SmoothWeightedRoundRobin};
use poise::{Backend, OrderKey, PickError, Policy, Status};

fn mixed() -> Vec<Backend<&'static str>> {
    vec![
        Backend::new("a"),
        Backend::new("b").with_status(Status::Unavailable),
        Backend::new("c"),
        Backend::new("d"),
    ]
}

#[test]
fn reservoir_keeps_the_last_eligible_candidate_drawing_zero() {
    let candidates = mixed();
    assert_eq!(reservoir_choice(&candidates, &[0, 1, 0]), 3);
    assert_eq!(reservoir_choice(&candidates, &[0, 0, 1]), 2);
    assert_eq!(reservoir_choice(&candidates, &[0, 1, 2]), 0);
}

#[test]
fn two_choice_compares_the_two_slot_holders() {
    let candidates = [
        Backend::new("a").with_load(5_u64),
        Backend::new("b").with_load(3_u64),
        Backend::new("c").with_load(7_u64),
        Backend::new("d").with_load(1_u64),
    ];
    assert_eq!(two_choice(&candidates, &[2, 0], false), 3);
    assert_eq!(two_choice(&candidates, &[1, 3], false), 0);
    assert_eq!(two_choice(&candidates, &[2, 2], true), 1);
}

#[test]
fn two_choice_coin_breaks_equal_loads_and_one_candidate_wins_alone() {
    let tied = [Backend::new("a").with_load(2_u64), Backend::new("b").with_load(2_u64)];
    assert_eq!(two_choice(&tied, &[], true), 0);
    assert_eq!(two_choice(&tied, &[], false), 1);
    let single = [
        Backend::new("a").with_load(9_u64).with_status(Status::Unavailable),
        Backend::new("b").with_load(9_u64),
    ];
    assert_eq!(two_choice(&single, &[], true), 1);
}

#[test]
fn scope_tickets_split_traffic_by_effective_availability() {
    let candidates = [
        Prioritized::new(Backend::new("p0-ready"), 0),
        Prioritized::new(Backend::new("p0-down").with_status(Status::Unavailable), 0),
        Prioritized::new(Backend::new("p1-ready"), 1),
    ];
    let config = PriorityConfig::new(100, 50, PanicMode::UseAll).unwrap();
    assert_eq!(scope_for_ticket(&candidates, config, 0), Ok((0, PriorityMode::Healthy)));
    assert_eq!(scope_for_ticket(&candidates, config, 499_999), Ok((0, PriorityMode::Healthy)));
    assert_eq!(scope_for_ticket(&candidates, config, 500_000), Ok((1, PriorityMode::Healthy)));
    assert_eq!(scope_for_ticket(&candidates, config, 999_999), Ok((1, PriorityMode::Healthy)));
}

#[test]
fn scope_ticket_in_a_panicking_priority_follows_the_panic_mode() {
    let candidates = [
        Prioritized::new(Backend::new("ready"), 0),
        Prioritized::new(Backend::new("down-a").with_status(Status::Unavailable), 0),
        Prioritized::new(Backend::new("down-b").with_status(Status::Unavailable), 0),
    ];
    let closed = PriorityConfig::new(100, 50, PanicMode::FailClosed).unwrap();
    assert_eq!(scope_for_ticket(&candidates, closed, 0), Err(PickError::PanicRejected));
    let open = PriorityConfig::new(100, 50, PanicMode::UseAll).unwrap();
    assert_eq!(scope_for_ticket(&candidates, open, 0), Ok((0, PriorityMode::Panic)));
}

#[test]
fn locality_tickets_walk_localities_in_key_order() {
    let candidates = [
        Localized::new(Prioritized::new(Backend::new("b1"), 0), "b"),
        Localized::new(Prioritized::new(Backend::new("a1"), 0), "a"),
    ];
    let config = PriorityConfig::new(100, 0, PanicMode::UseAll).unwrap();
    let a = "a".order_encode();
    let b = "b".order_encode();
    assert_eq!(locality_for_ticket(&candidates, config, 0, PriorityMode::Healthy, 0), Ok(a.clone()));
    assert_eq!(locality_for_ticket(&candidates, config, 0, PriorityMode::Healthy, 999_999), Ok(a));
    assert_eq!(locality_for_ticket(&candidates, config, 0, PriorityMode::Healthy, 1_000_000), Ok(b.clone()));
    assert_eq!(locality_for_ticket(&candidates, config, 0, PriorityMode::Healthy, 1_999_999), Ok(b));
}

#[test]
fn smooth_weighted_tracks_each_eligible_identity_and_forgets_all_after_errors() {
    let mut policy = SmoothWeightedRoundRobin::new();
    let candidates = mixed();
    assert!(policy.pick(&candidates, &()).is_ok());
    assert_eq!(policy.tracked_len(), 3);
    let duplicated = [Backend::new("a"), Backend::new("a")];
    assert_eq!(policy.pick(&duplicated, &()), Err(PickError::DuplicateIdentity));
    assert_eq!(policy.tracked_len(), 0);
    assert!(policy.pick(&candidates, &()).is_ok());
    let none: [Backend<&str>; 1] = [Backend::new("a").with_status(Status::Unavailable)];
    assert_eq!(policy.pick(&none, &()), Err(PickError::NoEligibleCandidates));
    assert_eq!(policy.tracked_len(), 0);
}

#[test]
fn considered_hosts_keep_those_with_enough_samples_in_order() {
    assert_eq!(considered_hosts(&[10, 2, 50, 49], 10), vec![0, 2, 3]);
    assert_eq!(considered_hosts(&[1, 2], 3), Vec::<usize>::new());
}

#[test]
fn localities_are_walked_in_their_own_order() {
    let config = PriorityConfig::new(100, 0, PanicMode::UseAll).unwrap();
    let numbers = [
        Localized::new(Prioritized::new(Backend::new("big"), 0), 256_u32),
        Localized::new(Prioritized::new(Backend::new("small"), 0), 1_u32),
    ];
    assert_eq!(locality_for_ticket(&numbers, config, 0, PriorityMode::Healthy, 0), Ok(1_u32.order_encode()));
    assert_eq!(locality_for_ticket(&numbers, config, 0, PriorityMode::Healthy, 1_000_000), Ok(256_u32.order_encode()));
    let names = [
        Localized::new(Prioritized::new(Backend::new("long"), 0), "ab"),
        Localized::new(Prioritized::new(Backend::new("short"), 0), "a"),
    ];
    assert_eq!(locality_for_ticket(&names, config, 0, PriorityMode::Healthy, 0), Ok("a".order_encode()));
    let signed = [
        Localized::new(Prioritized::new(Backend::new("plus"), 0), 1_i32),
        Localized::new(Prioritized::new(Backend::new("minus"), 0), -1_i32),
    ];
    assert_eq!(locality_for_ticket(&signed, config, 0, PriorityMode::Healthy, 0), Ok((-1_i32).order_encode()));
}

#[test]
fn endpoint_tickets_walk_the_locality_members_by_weight() {
    let candidates = [
        Localized::new(Prioritized::new(Backend::new("w1"), 0), "west"),
        Localized::new(Prioritized::new(Backend::new("e1"), 0), "east"),
        Localized::new(
            Prioritized::new(Backend::new("w3").with_weight(poise::Weight::new(3).unwrap()), 0),
            "west",
        ),
    ];
    let west = "west".order_encode();
    assert_eq!(select_in_locality(&candidates, 0, PriorityMode::Healthy, &west, 0), 0);
    assert_eq!(select_in_locality(&candidates, 0, PriorityMode::Healthy, &west, 1), 2);
    assert_eq!(select_in_locality(&candidates, 0, PriorityMode::Healthy, &west, 3), 2);
}
