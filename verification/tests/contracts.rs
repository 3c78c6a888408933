use poise::policy::{
    LocalityWeightedRandom, Localized, Maglev, MaglevConfig, PanicMode, Prioritized, PriorityCandidate, PriorityConfig,
    PriorityMode, PriorityWeightedRandom, RingHash, RingHashConfig, RoundRobin, SmoothWeightedRoundRobin,
};
use poise::{AtCapacity, Backend, Candidate, Fnv1a64, Outcome, PeakEwmaConfigError, PickError, Policy, Status, Weight};

#[test]
fn backend_mutators_change_only_the_requested_field() {
    let mut backend = Backend::new("api")
        .with_data(7_u8)
        .with_load(11_u64)
        .with_weight(Weight::new(2).unwrap());
    backend.set_load(13);
    backend.set_weight(Weight::new(3).unwrap());
    backend.set_status(Status::Unavailable);

    assert_eq!(backend.id(), &"api");
    assert_eq!(backend.data(), &7);
    assert_eq!(backend.load(), &13);
    assert_eq!(backend.weight().get(), 3);
    assert_eq!(backend.status(), Status::Unavailable);
}

#[test]
fn every_outcome_has_an_explicit_failure_and_observation_classification() {
    assert!(!Outcome::Success.is_failure());
    assert!(Outcome::Success.is_observation());
    assert!(Outcome::Failure.is_failure());
    assert!(Outcome::Failure.is_observation());
    assert!(Outcome::Overloaded.is_failure());
    assert!(Outcome::Overloaded.is_observation());
    assert!(!Outcome::Cancelled.is_failure());
    assert!(!Outcome::Cancelled.is_observation());
}

#[test]
fn fnv_typed_writes_match_explicit_little_endian_bytes() {
    fn same(typed: Fnv1a64, bytes: &[u8]) {
        let mut explicit = Fnv1a64::default();
        explicit.write(bytes);
        assert_eq!(typed.finish(), explicit.finish());
    }

    let mut h = Fnv1a64::default();
    h.write_u8(0xa5_u8);
    same(h, &0xa5_u8.to_le_bytes());
    let mut h = Fnv1a64::default();
    h.write_u16(0xa5c3_u16);
    same(h, &0xa5c3_u16.to_le_bytes());
    let mut h = Fnv1a64::default();
    h.write_u32(0xa5c3_91e7_u32);
    same(h, &0xa5c3_91e7_u32.to_le_bytes());
    let mut h = Fnv1a64::default();
    h.write_u64(0xa5c3_91e7_4268_f0bd_u64);
    same(h, &0xa5c3_91e7_4268_f0bd_u64.to_le_bytes());
    let mut h = Fnv1a64::default();
    h.write_u128(0xa5c3_91e7_4268_f0bd_1029_3847_56ab_cdef_u128);
    same(h, &0xa5c3_91e7_4268_f0bd_1029_3847_56ab_cdef_u128.to_le_bytes());
    let mut h = Fnv1a64::default();
    h.write_usize(usize::MAX / 3);
    same(h, &(usize::MAX / 3).to_le_bytes());
    let mut h = Fnv1a64::default();
    h.write_i8(-37_i8);
    same(h, &(-37_i8).to_le_bytes());
    let mut h = Fnv1a64::default();
    h.write_i16(-12_345_i16);
    same(h, &(-12_345_i16).to_le_bytes());
    let mut h = Fnv1a64::default();
    h.write_i32(-123_456_789_i32);
    same(h, &(-123_456_789_i32).to_le_bytes());
    let mut h = Fnv1a64::default();
    h.write_i64(-1_234_567_890_123_456_i64);
    same(h, &(-1_234_567_890_123_456_i64).to_le_bytes());
    let mut h = Fnv1a64::default();
    h.write_i128(-12_345_678_901_234_567_890_i128);
    same(h, &(-12_345_678_901_234_567_890_i128).to_le_bytes());
    let mut h = Fnv1a64::default();
    h.write_isize(isize::MIN / 3);
    same(h, &(isize::MIN / 3).to_le_bytes());
}

#[derive(Clone, Copy, Debug)]
struct ExplicitTopologyCandidate {
    status: Status,
    member: bool,
    panic: bool,
}

impl Candidate for ExplicitTopologyCandidate {
    type Id = u8;
    type Load = ();

    fn spec_id(&self) -> u8 {
        0
    }

    fn spec_load(&self) {}

    fn spec_weight(&self) -> Weight {
        Weight::one()
    }

    fn spec_status(&self) -> Status {
        self.status
    }

    fn spec_eligible(&self) -> bool {
        self.status == Status::Ready
    }

    fn id(&self) -> &Self::Id {
        &0
    }

    fn weight(&self) -> Weight {
        Weight::one()
    }

    fn load(&self) -> &Self::Load {
        &()
    }

    fn status(&self) -> Status {
        self.status
    }

    fn is_eligible(&self) -> bool {
        self.status == Status::Ready
    }
}

impl PriorityCandidate for ExplicitTopologyCandidate {
    fn spec_priority(&self) -> u32 {
        0
    }

    fn spec_priority_member(&self) -> bool {
        self.member
    }

    fn spec_panic_eligible(&self) -> bool {
        self.panic
    }
    fn priority(&self) -> u32 {
        0
    }

    fn is_priority_member(&self) -> bool {
        self.member
    }

    fn is_panic_eligible(&self) -> bool {
        self.panic
    }
}

#[test]
fn topology_wrappers_delegate_explicit_membership_and_panic_exclusions() {
    let excluded = ExplicitTopologyCandidate { status: Status::Ready, member: false, panic: false };
    let localized = Localized::new(excluded, "west");
    assert!(!localized.is_priority_member());
    assert!(!localized.is_panic_eligible());

    let prioritized = Prioritized::new(Backend::new("api"), 0).with_panic_eligibility(false);
    assert!(!prioritized.allows_panic());
    assert!(Prioritized::new(Backend::new("api"), 0).allows_panic());

    assert!(Prioritized::new(Backend::new("ready"), 0).is_panic_eligible());
    assert!(!Prioritized::new(Backend::new("gone").with_status(Status::Draining), 0).is_panic_eligible());
}

#[test]
fn round_robin_normalizes_an_arbitrary_initial_cursor_before_scanning() {
    let candidates = [Backend::new("a"), Backend::new("b"), Backend::new("c")];
    let mut policy = RoundRobin::with_cursor(usize::MAX);
    assert_eq!(policy.pick(&candidates, &()).unwrap().index(), usize::MAX % 3);
}

#[test]
fn cached_affinity_policies_and_swrr_reset_all_observable_state() {
    let candidates = [Backend::new(1_u32), Backend::new(2_u32)];

    let mut maglev = Maglev::new(MaglevConfig::new(17).unwrap());
    maglev.pick(&candidates, &9_u64).unwrap();
    assert_eq!(maglev.generation(), 1);
    maglev.reset();
    assert_eq!(maglev.generation(), 0);
    assert_eq!(maglev.member_count(), 0);
    assert_eq!(maglev.populated_table_size(), 0);

    let mut ring = RingHash::new(RingHashConfig::new(2, 64).unwrap());
    ring.pick(&candidates, &9_u64).unwrap();
    assert_eq!(ring.generation(), 1);
    ring.reset();
    assert_eq!(ring.generation(), 0);
    assert_eq!(ring.member_count(), 0);
    assert_eq!(ring.virtual_node_count(), 0);

    let mut swrr = SmoothWeightedRoundRobin::new();
    swrr.pick(&candidates, &()).unwrap();
    assert_eq!(swrr.tracked_len(), candidates.len());
    swrr.reset();
    assert_eq!(swrr.tracked_len(), 0);
}

#[test]
fn peak_ewma_error_variants_remain_distinguishable() {
    assert_ne!(PeakEwmaConfigError::ZeroDefaultRtt, PeakEwmaConfigError::ZeroHalfLife);
    let _ = std::mem::size_of::<AtCapacity>();
}

#[test]
fn exact_panic_threshold_remains_healthy_and_global_panic_samples_every_member() {
    let threshold = [
        Prioritized::new(Backend::new("ready"), 0),
        Prioritized::new(Backend::new("down").with_status(Status::Unavailable), 0),
    ];
    let config = PriorityConfig::new(100, 50, PanicMode::UseAll).unwrap();
    let decision = PriorityWeightedRandom::seeded_with(config, 4).decide(&threshold).unwrap();
    assert_eq!(decision.mode(), PriorityMode::Healthy);
    assert_eq!(decision.selection().index(), 0);

    let panic = [
        Prioritized::new(Backend::new("down-a").with_status(Status::Unavailable), 0),
        Prioritized::new(Backend::new("down-b").with_status(Status::Unavailable), 1),
    ];
    let mut policy = PriorityWeightedRandom::seeded_with(config, 9);
    let mut seen = [false; 2];
    for _ in 0..100 {
        seen[policy.decide(&panic).unwrap().selection().index()] = true;
    }
    assert!(seen.into_iter().all(|selected| selected));
}

#[test]
fn locality_rounding_keeps_tiny_healthy_localities_and_excludes_empty_ones() {
    let config = PriorityConfig::new(100, 0, PanicMode::UseAll).unwrap();
    let huge = Weight::new(2_000_000).unwrap();
    let locality_boost = Weight::new(u32::MAX).unwrap();
    let candidates = [
        Localized::new(Prioritized::new(Backend::new("tiny"), 0), "tiny").with_locality_weight(locality_boost),
        Localized::new(
            Prioritized::new(Backend::new("tiny-down").with_weight(huge).with_status(Status::Unavailable), 0),
            "tiny",
        )
        .with_locality_weight(locality_boost),
        Localized::new(Prioritized::new(Backend::new("healthy").with_weight(huge), 0), "healthy"),
        Localized::new(
            Prioritized::new(Backend::new("empty").with_weight(huge).with_status(Status::Unavailable), 0),
            "empty",
        )
        .with_locality_weight(locality_boost),
    ];
    let mut policy = LocalityWeightedRandom::seeded_with(config, 17);
    for _ in 0..100 {
        let index = policy.decide(&candidates).unwrap().selection().index();
        assert_eq!(index, 0, "the boosted tiny locality should dominate");
    }
}

#[test]
fn locality_ticket_boundary_can_reach_the_second_unit_weight_locality() {
    let config = PriorityConfig::new(100, 0, PanicMode::UseAll).unwrap();
    let down_weight = Weight::new(999_999).unwrap();
    let candidates = [
        Localized::new(Prioritized::new(Backend::new("a"), 0), "a"),
        Localized::new(
            Prioritized::new(Backend::new("a-down").with_weight(down_weight).with_status(Status::Unavailable), 0),
            "a",
        ),
        Localized::new(Prioritized::new(Backend::new("b"), 0), "b"),
        Localized::new(
            Prioritized::new(Backend::new("b-down").with_weight(down_weight).with_status(Status::Unavailable), 0),
            "b",
        ),
    ];
    let mut policy = LocalityWeightedRandom::seeded_with(config, 23);
    let mut seen = [false; 2];
    for _ in 0..100 {
        let index = policy.decide(&candidates).unwrap().selection().index();
        seen[usize::from(index >= 2)] = true;
    }
    assert!(seen.into_iter().all(|selected| selected));
}

#[test]
fn topology_decisions_report_exact_effective_weight() {
    let candidates = [Localized::new(Prioritized::new(Backend::new("api"), 0), "west")
        .with_locality_weight(Weight::new(3).unwrap())];
    let decision = LocalityWeightedRandom::seeded(1).decide(&candidates).unwrap();
    assert_eq!(decision.effective_locality_weight(), 3_000_000);
    assert_eq!(decision.locality_weight().get(), 3);
    assert_eq!(decision.priority(), 0);
    assert_eq!(decision.priority_mode(), PriorityMode::Healthy);
}

#[test]
fn conflicting_weights_for_one_locality_are_rejected() {
    let candidates = [
        Localized::new(Prioritized::new(Backend::new("a"), 0), "west"),
        Localized::new(Prioritized::new(Backend::new("b"), 0), "west").with_locality_weight(Weight::new(2).unwrap()),
    ];
    assert_eq!(
        LocalityWeightedRandom::seeded(7).decide(&candidates),
        Err(PickError::InconsistentTopology)
    );
}

#[test]
fn priority_is_selected_before_locality() {
    let candidates = [
        Localized::new(Prioritized::new(Backend::new("primary"), 0), "remote"),
        Localized::new(Prioritized::new(Backend::new("failover"), 1), "local")
            .with_locality_weight(Weight::new(1_000).unwrap()),
    ];
    let mut policy = LocalityWeightedRandom::seeded(4);
    for _ in 0..1_000 {
        let decision = policy.decide(&candidates).unwrap();
        assert_eq!(decision.priority(), 0);
        assert_eq!(decision.selection().index(), 0);
    }
}

#[test]
fn locality_errors_of_the_priority_stage_propagate() {
    let config = PriorityConfig::new(140, 50, PanicMode::FailClosed).unwrap();
    let mut policy = LocalityWeightedRandom::<&str>::seeded_with(config, 11);
    let empty: [Localized<Prioritized<Backend<&str>>, &str>; 0] = [];
    assert_eq!(policy.decide(&empty), Err(PickError::Empty));

    let down = [Localized::new(Prioritized::new(Backend::new("down").with_status(Status::Unavailable), 0), "a")];
    assert_eq!(policy.decide(&down), Err(PickError::PanicRejected));

    let draining = [Localized::new(Prioritized::new(Backend::new("old").with_status(Status::Draining), 0), "a")];
    assert_eq!(policy.decide(&draining), Err(PickError::NoEligibleCandidates));
}

#[test]
fn seeded_locality_decisions_replay() {
    let candidates = [
        Localized::new(Prioritized::new(Backend::new("a"), 0), "a"),
        Localized::new(Prioritized::new(Backend::new("b"), 0), "b").with_locality_weight(Weight::new(2).unwrap()),
        Localized::new(Prioritized::new(Backend::new("c").with_weight(Weight::new(3).unwrap()), 0), "b")
            .with_locality_weight(Weight::new(2).unwrap()),
    ];
    let mut first = LocalityWeightedRandom::seeded(9);
    let mut second = LocalityWeightedRandom::seeded(9);
    for _ in 0..200 {
        assert_eq!(first.decide(&candidates), second.decide(&candidates));
    }
}

#[test]
fn reordering_does_not_change_locality_draws() {
    let original = [
        Localized::new(Prioritized::new(Backend::new("west"), 0), "west"),
        Localized::new(Prioritized::new(Backend::new("east"), 0), "east").with_locality_weight(Weight::new(3).unwrap()),
    ];
    let reordered = [original[1].clone(), original[0].clone()];
    let mut first = LocalityWeightedRandom::seeded(10);
    let mut second = LocalityWeightedRandom::seeded(10);

    for _ in 0..1_000 {
        let first_index = first.decide(&original).unwrap().selection().index();
        let second_index = second.decide(&reordered).unwrap().selection().index();
        assert_eq!(original[first_index].locality(), reordered[second_index].locality());
    }
}
