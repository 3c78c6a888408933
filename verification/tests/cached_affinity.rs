use poise::policy::maglev::{populate_table, Permutation};
use poise::policy::ring_hash::{hash_identity, hash_request};
use poise::policy::{
    Maglev, MaglevConfig, MaglevConfigError, MaglevUpdate, RingHash, RingHashConfig, RingHashConfigError, RingUpdate,
    DEFAULT_TABLE_SIZE, MAX_TABLE_SIZE,
};
use poise::{Backend, Candidate, FnvBuildHasher, PickError, Policy, Status, Weight};

fn ring_config(replicas: u32, maximum: usize) -> RingHashConfig {
    RingHashConfig::new(replicas, maximum).unwrap()
}

fn maglev_config(table_size: usize) -> MaglevConfig {
    MaglevConfig::new(table_size).unwrap()
}

fn backend(id: &'static str, weight: u32) -> Backend<&'static str> {
    Backend::new(id).with_weight(Weight::new(weight).unwrap())
}

#[test]
fn configuration_requires_room_for_one_unit_weight() {
    assert_eq!(
        RingHashConfig::new(2, 1),
        Err(RingHashConfigError::UnitWeightExceedsCapacity)
    );
}

#[test]
fn weighted_ring_is_cached_until_membership_changes() {
    let candidates = [backend("a", 1), backend("b", 3)];
    let mut policy = RingHash::new(ring_config(16, 1_000));

    assert_eq!(
        policy.reconcile(&candidates),
        Ok(RingUpdate::Rebuilt {
            members: 2,
            virtual_nodes: 64
        })
    );
    assert_eq!(policy.member_count(), 2);
    assert_eq!(policy.virtual_node_count(), 64);
    assert_eq!(policy.generation(), 1);
    assert_eq!(policy.reconcile(&candidates), Ok(RingUpdate::Unchanged));
    assert_eq!(policy.generation(), 1);

    for key in 0..100_u64 {
        policy.pick(&candidates, &key).unwrap();
    }
    assert_eq!(policy.generation(), 1);
}

#[test]
fn changing_one_weight_invalidates_the_cached_membership() {
    let initial = [backend("a", 1), backend("b", 1)];
    let changed = [backend("a", 1), backend("b", 3)];
    let mut policy = RingHash::new(ring_config(4, 100));

    policy.reconcile(&initial).unwrap();
    assert_eq!(policy.virtual_node_count(), 8);
    policy.reconcile(&changed).unwrap();
    assert_eq!(policy.generation(), 2);
    assert_eq!(policy.virtual_node_count(), 16);
}

#[test]
fn exact_point_hash_selects_that_point_instead_of_its_successor() {
    let candidates = [backend("a", 1), backend("b", 1)];
    let mut policy = RingHash::new(ring_config(1, 10));
    policy.reconcile(&candidates).unwrap();
    let points = policy.points().to_vec();
    assert_eq!(points.len(), 2);
    for (position, point) in points.iter().enumerate() {
        assert_eq!(policy.lookup(point.position), point.index);
        assert_ne!(point.position, u64::MAX);
        let successor = points[(position + 1) % points.len()];
        if successor.position > point.position + 1 {
            assert_eq!(policy.lookup(point.position + 1), successor.index);
        }
    }
    let request = hash_request(&FnvBuildHasher, &91_u64);
    let chosen = policy.pick(&candidates, &91_u64).unwrap().index();
    assert_eq!(chosen, policy.lookup(request));
}

#[test]
fn identity_hash_is_domain_separated_and_nontrivial() {
    let builder = FnvBuildHasher::default();
    let first = hash_identity(&builder, &1_u64);
    let second = hash_identity(&builder, &2_u64);
    assert_ne!(first, second);
    assert!(![0, 1].contains(&first));
    assert!(![0, 1].contains(&second));
}

#[test]
fn keyspace_distribution_tracks_weights_with_sufficient_points() {
    const KEYS: u32 = 200_000;
    let candidates = [backend("a", 1), backend("b", 3), backend("c", 6)];
    let mut policy = RingHash::new(ring_config(512, 10_000));
    let mut counts = [0_u32; 3];

    for key in 0..KEYS {
        counts[policy.pick(&candidates, &key).unwrap().index()] += 1;
    }

    for (count, expected) in counts.into_iter().zip([0.1_f64, 0.3, 0.6]) {
        let actual = f64::from(count) / f64::from(KEYS);
        assert!(
            (actual - expected).abs() < 0.025,
            "expected {expected:.3}, observed {actual:.3}"
        );
    }
}

#[test]
fn equivalent_weight_ratios_build_identical_rings() {
    let reduced = [backend("a", 1), backend("b", 3)];
    let scaled = [backend("a", 100), backend("b", 300)];
    let mut reduced_policy = RingHash::new(ring_config(16, 1_000));
    let mut scaled_policy = RingHash::new(ring_config(16, 1_000));

    for key in 0..10_000_u64 {
        let reduced_id = reduced[reduced_policy.pick(&reduced, &key).unwrap().index()].id();
        let scaled_id = scaled[scaled_policy.pick(&scaled, &key).unwrap().index()].id();
        assert_eq!(reduced_id, scaled_id);
    }
    assert_eq!(reduced_policy.virtual_node_count(), 64);
    assert_eq!(scaled_policy.virtual_node_count(), 64);
}

#[test]
fn stable_normalization_makes_addition_and_removal_minimally_disruptive() {
    let without_c = [backend("a", 1), backend("b", 3)];
    let with_c = [backend("a", 1), backend("b", 3), backend("c", 2)];
    let mut small = RingHash::new(ring_config(128, 10_000));
    let mut large = RingHash::new(ring_config(128, 10_000));

    for key in 0..50_000_u64 {
        let old_id = without_c[small.pick(&without_c, &key).unwrap().index()].id();
        let new_id = with_c[large.pick(&with_c, &key).unwrap().index()].id();
        if new_id != &"c" {
            assert_eq!(old_id, new_id, "key {key} moved between stable peers");
        }
    }
}

#[test]
fn ring_hash_reordering_rebuilds_indices_without_changing_winning_identity() {
    let left = [backend("a", 1), backend("b", 3), backend("c", 2)];
    let right = [backend("c", 2), backend("a", 1), backend("b", 3)];
    let mut left_policy = RingHash::new(ring_config(128, 10_000));
    let mut right_policy = RingHash::new(ring_config(128, 10_000));

    for key in 0..20_000_u64 {
        let left_id = left[left_policy.pick(&left, &key).unwrap().index()].id();
        let right_id = right[right_policy.pick(&right, &key).unwrap().index()].id();
        assert_eq!(left_id, right_id);
    }
}

#[test]
fn ring_hash_eligibility_changes_rebuild_and_exclude_the_candidate() {
    let ready = [backend("a", 1), backend("b", 1)];
    let unavailable = [backend("a", 1).with_status(Status::Unavailable), backend("b", 1)];
    let mut policy = RingHash::new(ring_config(16, 1_000));

    policy.pick(&ready, &0_u64).unwrap();
    assert_eq!(policy.generation(), 1);
    for key in 0..100_u64 {
        assert_eq!(policy.pick(&unavailable, &key).unwrap().index(), 1);
    }
    assert_eq!(policy.generation(), 2);
}

#[test]
fn duplicate_and_capacity_failures_do_not_replace_the_live_ring() {
    let good = [backend("a", 1), backend("b", 1)];
    let duplicate = [backend("same", 1), backend("same", 1)];
    let oversized = [backend("large", 3), backend("small", 1)];
    let mut policy = RingHash::new(ring_config(2, 4));

    policy.pick(&good, &0_u64).unwrap();
    assert_eq!(policy.generation(), 1);
    assert_eq!(policy.virtual_node_count(), 4);

    assert_eq!(policy.pick(&duplicate, &0_u64), Err(PickError::DuplicateIdentity));
    assert_eq!(policy.pick(&oversized, &0_u64), Err(PickError::StateCapacityExceeded));
    assert_eq!(policy.generation(), 1);
    assert_eq!(policy.virtual_node_count(), 4);
}

#[test]
fn ring_hash_distinguishes_empty_from_nonempty_ineligible_slices() {
    let empty: [Backend<&str>; 0] = [];
    let unavailable = [Backend::new("a").with_status(Status::Unavailable)];
    let mut policy = RingHash::new(ring_config(4, 100));

    assert_eq!(policy.pick(&empty, &0_u64), Err(PickError::Empty));
    assert_eq!(policy.pick(&unavailable, &0_u64), Err(PickError::NoEligibleCandidates));
}

#[test]
fn ring_reset_forgets_every_cached_point() {
    let candidates = [Backend::new(1_u32), Backend::new(2_u32)];
    let mut ring = RingHash::new(RingHashConfig::new(2, 64).unwrap());
    ring.pick(&candidates, &9_u64).unwrap();
    assert_eq!(ring.generation(), 1);
    ring.reset();
    assert_eq!(ring.generation(), 0);
    assert_eq!(ring.member_count(), 0);
    assert_eq!(ring.virtual_node_count(), 0);
}

#[test]
fn configuration_requires_a_bounded_prime() {
    assert_eq!(MaglevConfig::new(0), Err(MaglevConfigError::TooSmall));
    assert_eq!(MaglevConfig::new(1), Err(MaglevConfigError::TooSmall));
    assert_eq!(MaglevConfig::new(4), Err(MaglevConfigError::NotPrime));
    assert_eq!(MaglevConfig::new(MAX_TABLE_SIZE + 1), Err(MaglevConfigError::TooLarge));
    assert_eq!(maglev_config(2).table_size(), 2);
    assert_eq!(maglev_config(DEFAULT_TABLE_SIZE).table_size(), DEFAULT_TABLE_SIZE);
}

#[test]
fn matches_the_published_seven_slot_example() {
    let permutations = vec![
        Permutation { offset: 3, skip: 4, index: 0, order_high: 0, order_low: 0 },
        Permutation { offset: 0, skip: 2, index: 1, order_high: 0, order_low: 0 },
        Permutation { offset: 3, skip: 1, index: 2, order_high: 0, order_low: 0 },
    ];

    assert_eq!(populate_table(7, &permutations).unwrap(), [1, 0, 1, 0, 2, 2, 0]);
}

#[test]
fn table_is_cached_until_membership_changes() {
    let candidates = [backend("a", 1), backend("b", 1), backend("c", 1)];
    let mut policy = Maglev::new(maglev_config(101));

    assert_eq!(
        policy.reconcile(&candidates),
        Ok(MaglevUpdate::Rebuilt {
            members: 3,
            table_size: 101,
        })
    );
    assert_eq!(policy.member_count(), 3);
    assert_eq!(policy.populated_table_size(), 101);
    assert_eq!(policy.generation(), 1);
    assert_eq!(policy.reconcile(&candidates), Ok(MaglevUpdate::Unchanged));
    for key in 0..1_000_u64 {
        policy.pick(&candidates, &key).unwrap();
    }
    assert_eq!(policy.generation(), 1);
}

#[test]
fn deterministic_permutations_have_a_stable_small_table() {
    let candidates = [backend("a", 1), backend("b", 1), backend("c", 1)];
    let mut policy = Maglev::new(maglev_config(11));
    policy.reconcile(&candidates).unwrap();
    assert_eq!(policy.slot_owners(), [1, 2, 1, 2, 1, 0, 0, 2, 0, 1, 0]);
}

#[test]
fn table_slots_are_balanced_to_within_one() {
    let candidates = [backend("a", 1), backend("b", 1), backend("c", 1)];
    let mut policy = Maglev::new(maglev_config(DEFAULT_TABLE_SIZE));
    policy.reconcile(&candidates).unwrap();
    let mut counts = [0_usize; 3];
    for index in policy.slot_owners() {
        counts[*index] += 1;
    }
    assert_eq!(counts.iter().sum::<usize>(), DEFAULT_TABLE_SIZE);
    assert!(counts.iter().max().unwrap() - counts.iter().min().unwrap() <= 1);
}

#[test]
fn maglev_reordering_rebuilds_indices_without_changing_winning_identity() {
    let left = [backend("a", 1), backend("b", 1), backend("c", 1)];
    let right = [backend("c", 1), backend("a", 1), backend("b", 1)];
    let mut left_policy = Maglev::new(maglev_config(65_537));
    let mut right_policy = Maglev::new(maglev_config(65_537));

    for key in 0..20_000_u64 {
        let left_id = left[left_policy.pick(&left, &key).unwrap().index()].id();
        let right_id = right[right_policy.pick(&right, &key).unwrap().index()].id();
        assert_eq!(left_id, right_id);
    }
}

#[test]
fn removing_a_member_preserves_most_other_assignments() {
    let full = [backend("a", 1), backend("b", 1), backend("c", 1), backend("d", 1)];
    let reduced = [backend("a", 1), backend("b", 1), backend("c", 1)];
    let mut full_policy = Maglev::new(maglev_config(65_537));
    let mut reduced_policy = Maglev::new(maglev_config(65_537));
    let mut moved = 0_u32;

    for key in 0..100_000_u64 {
        let before = full[full_policy.pick(&full, &key).unwrap().index()].id();
        let after = reduced[reduced_policy.pick(&reduced, &key).unwrap().index()].id();
        moved += u32::from(before != after);
    }

    assert!(moved > 20_000, "removing a quarter should move its keyspace");
    assert!(moved < 40_000, "observed excessive disruption: {moved}");
}

#[test]
fn weights_do_not_rebuild_or_change_unweighted_selection() {
    let unit = [backend("a", 1), backend("b", 1)];
    let changed = [backend("a", 100), backend("b", 1)];
    let mut policy = Maglev::new(maglev_config(101));
    let mut before = Vec::new();

    for key in 0..1_000_u64 {
        before.push(policy.pick(&unit, &key).unwrap());
    }
    assert_eq!(policy.reconcile(&changed), Ok(MaglevUpdate::Unchanged));
    for (key, expected) in (0..1_000_u64).zip(before) {
        assert_eq!(policy.pick(&changed, &key).unwrap(), expected);
    }
    assert_eq!(policy.generation(), 1);
}

#[test]
fn maglev_eligibility_changes_rebuild_and_exclude_the_candidate() {
    let ready = [backend("a", 1), backend("b", 1)];
    let unavailable = [backend("a", 1).with_status(Status::Unavailable), backend("b", 1)];
    let mut policy = Maglev::new(maglev_config(101));

    policy.pick(&ready, &0_u64).unwrap();
    for key in 0..100_u64 {
        assert_eq!(policy.pick(&unavailable, &key).unwrap().index(), 1);
    }
    assert_eq!(policy.generation(), 2);
}

#[test]
fn duplicate_and_capacity_failures_preserve_the_live_table() {
    let good = [backend("a", 1), backend("b", 1)];
    let duplicate = [backend("same", 1), backend("same", 1)];
    let too_many = [backend("a", 1), backend("b", 1), backend("c", 1)];
    let mut policy = Maglev::new(maglev_config(2));

    policy.reconcile(&good).unwrap();
    let table = policy.slot_owners().to_vec();
    assert_eq!(policy.reconcile(&duplicate), Err(PickError::DuplicateIdentity));
    assert_eq!(policy.reconcile(&too_many), Err(PickError::StateCapacityExceeded));
    assert_eq!(policy.slot_owners(), table.as_slice());
    assert_eq!(policy.generation(), 1);
}

#[test]
fn maglev_distinguishes_empty_from_nonempty_ineligible_slices() {
    let empty: [Backend<&str>; 0] = [];
    let unavailable = [Backend::new("a").with_status(Status::Unavailable)];
    let mut policy = Maglev::new(maglev_config(101));

    assert_eq!(policy.pick(&empty, &0_u64), Err(PickError::Empty));
    assert_eq!(policy.pick(&unavailable, &0_u64), Err(PickError::NoEligibleCandidates));
}

#[test]
fn maglev_reset_forgets_the_table() {
    let candidates = [Backend::new(1_u32), Backend::new(2_u32)];
    let mut maglev = Maglev::new(MaglevConfig::new(17).unwrap());
    maglev.pick(&candidates, &9_u64).unwrap();
    assert_eq!(maglev.generation(), 1);
    maglev.reset();
    assert_eq!(maglev.generation(), 0);
    assert_eq!(maglev.member_count(), 0);
    assert_eq!(maglev.populated_table_size(), 0);
}

#[test]
fn scaling_every_weight_by_one_factor_keeps_the_ring() {
    let unit = [backend("a", 1), backend("b", 2), backend("c", 3)];
    let scaled = [backend("a", 4), backend("b", 8), backend("c", 12)];
    let mut first = RingHash::new(ring_config(8, 1_000));
    let mut second = RingHash::new(ring_config(8, 1_000));
    first.reconcile(&unit).unwrap();
    second.reconcile(&scaled).unwrap();
    assert_eq!(first.virtual_node_count(), 48);
    assert_eq!(first.points(), second.points());
    for key in 0_u64..64 {
        assert_eq!(
            first.pick(&unit, &key).unwrap().index(),
            second.pick(&scaled, &key).unwrap().index()
        );
    }
}
