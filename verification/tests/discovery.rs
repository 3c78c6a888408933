use std::sync::Arc;

use poise::discovery::{
    check_publish, stream_step, StreamStep, Change, Directory, Discovered, Effect, Membership, Revision, RevisionExhausted, Snapshot,
};
use poise::policy::RoundRobin;
use poise::{Backend, Candidate, Policy, Status, Weight};

#[test]
fn removal_drains_before_physical_retirement() {
    let mut directory = Directory::new();
    directory.upsert("a", Backend::new("http://a")).unwrap();
    directory.upsert("b", Backend::new("http://b")).unwrap();

    let applied = directory.begin_drain("a").unwrap();
    assert_eq!(applied.effect(), Effect::DrainStarted);
    assert_eq!(applied.revision(), Revision::new(3));

    let draining = directory.snapshot();
    assert_eq!(draining.len(), 2);
    assert_eq!(draining[0].membership(), Membership::Draining);
    assert_eq!(draining[0].status(), Status::Draining);

    let selected = RoundRobin::new().pick(&draining, &()).unwrap();
    assert_eq!(draining[selected.index()].key(), &"b");

    let applied = directory.finish_drain("a").unwrap();
    assert_eq!(applied.effect(), Effect::DrainFinished);
    let retired = directory.snapshot();
    assert_eq!(retired.len(), 1);
    assert_eq!(retired[0].key(), &"b");

    assert_eq!(draining.len(), 2);
    assert_eq!(draining[0].key(), &"a");
}

#[test]
fn rediscovery_revives_a_draining_member_in_place() {
    let mut directory = Directory::new();
    directory.upsert("a", Backend::new(1)).unwrap();
    directory.begin_drain("a").unwrap();

    let applied = directory.upsert("a", Backend::new(2)).unwrap();
    assert_eq!(applied.effect(), Effect::Revived);

    let snapshot = directory.snapshot();
    assert_eq!(snapshot[0].membership(), Membership::Active);
    assert_eq!(snapshot[0].backend().id(), &2);
}

#[test]
fn no_op_lifecycle_requests_do_not_advance_revision() {
    let mut directory: Directory<&str, Backend<usize>> = Directory::new();

    let missing = directory.begin_drain("missing").unwrap();
    assert_eq!(missing.effect(), Effect::NotFound);
    assert!(!missing.changed());
    assert_eq!(missing.revision(), Revision::initial());

    directory.upsert("a", Backend::new(1)).unwrap();
    let active = directory.finish_drain("a").unwrap();
    assert_eq!(active.effect(), Effect::NotDraining);
    assert_eq!(active.revision(), Revision::new(1));

    directory.begin_drain("a").unwrap();
    let repeated = directory.begin_drain("a").unwrap();
    assert_eq!(repeated.effect(), Effect::AlreadyDraining);
    assert_eq!(repeated.revision(), Revision::new(2));
}

#[test]
fn updates_and_retirement_preserve_relative_order() {
    let mut directory = Directory::new();
    for key in ["a", "b", "c", "d"] {
        directory.upsert(key, Backend::new(key)).unwrap();
    }
    directory.upsert("c", Backend::new("c2")).unwrap();
    directory.begin_drain("b").unwrap();
    directory.finish_drain("b").unwrap();

    let keys: Vec<_> = directory.snapshot().iter().map(Discovered::key).copied().collect();
    assert_eq!(keys, ["a", "c", "d"]);
}

#[test]
fn revision_overflow_is_transactional() {
    let mut directory: Directory<&str, Backend<usize>> = Directory::with_revision(Revision::new(u64::MAX));

    assert_eq!(directory.upsert("a", Backend::new(1)), Err(RevisionExhausted));
    assert!(directory.is_empty());
    assert_eq!(directory.revision(), Revision::new(u64::MAX));
}

#[test]
fn batch_is_all_or_nothing() {
    let mut directory: Directory<&str, Backend<usize>> = Directory::with_revision(Revision::new(u64::MAX - 1));

    let result = directory.apply_batch(vec![
        Change::Upsert("a", Backend::new(1)),
        Change::Upsert("b", Backend::new(2)),
    ]);

    assert_eq!(result, Err(RevisionExhausted));
    assert!(directory.is_empty());
    assert_eq!(directory.revision(), Revision::new(u64::MAX - 1));
}

#[test]
fn batch_reports_each_effect_and_commits_once_complete() {
    let mut directory = Directory::new();
    let outcomes = directory
        .apply_batch(vec![
            Change::Upsert("a", Backend::new(1)),
            Change::Upsert("b", Backend::new(2)),
            Change::Remove("a"),
        ])
        .unwrap();

    let effects: Vec<_> = outcomes.iter().map(|outcome| outcome.effect()).collect();
    assert_eq!(effects, [Effect::Inserted, Effect::Inserted, Effect::DrainStarted]);
    assert_eq!(directory.revision(), Revision::new(3));
    assert_eq!(directory.snapshot()[0].membership(), Membership::Draining);
}

#[test]
fn update_of_an_active_member_replaces_it_in_place() {
    let mut directory = Directory::new();
    directory.upsert("a", Backend::new(1)).unwrap();
    directory.upsert("b", Backend::new(2)).unwrap();
    let applied = directory.upsert("a", Backend::new(3)).unwrap();
    assert_eq!(applied.effect(), Effect::Updated);
    assert!(applied.changed());
    assert_eq!(applied.revision(), Revision::new(3));
    let snapshot = directory.snapshot();
    assert_eq!(snapshot.revision(), Revision::new(3));
    assert_eq!(snapshot[0].backend().id(), &3);
    assert_eq!(snapshot[1].key(), &"b");
}

#[test]
fn delegates_policy_metrics_but_uses_discovery_identity() {
    let backend = Backend::new("transport-id")
        .with_load(7_u32)
        .with_weight(Weight::new(4).unwrap());
    let discovered = Discovered::new(Arc::new("discovery-id"), Arc::new(backend), Membership::Active);

    assert_eq!(discovered.id(), &"discovery-id");
    assert_eq!(discovered.load(), &7);
    assert_eq!(discovered.weight().get(), 4);
    assert_eq!(discovered.status(), Status::Ready);
}

#[test]
fn draining_overrides_backend_eligibility() {
    let discovered = Discovered::new(Arc::new("a"), Arc::new(Backend::new("a")), Membership::Draining);

    assert_eq!(discovered.status(), Status::Draining);
    assert!(!discovered.is_eligible());
}

#[test]
fn snapshot_shares_its_member_allocation() {
    let snapshot = Snapshot::new(Revision::new(4), vec![1_u8, 2, 3]);
    let shared = snapshot.members_arc();
    assert_eq!(shared.as_slice(), snapshot.members());
    assert_eq!(snapshot.revision(), Revision::new(4));
    assert_eq!(Snapshot::<u8>::empty().len(), 0);
}

#[test]
fn publishing_requires_a_strictly_newer_revision() {
    assert!(check_publish(Revision::new(2), Revision::new(3)).is_ok());
    let error = check_publish(Revision::new(3), Revision::new(3)).unwrap_err();
    assert_eq!(error.current(), Revision::new(3));
    assert_eq!(error.attempted(), Revision::new(3));
    assert!(check_publish(Revision::new(4), Revision::new(2)).is_err());
}

#[test]
fn stream_delivers_each_newer_revision_once_then_ends_with_its_publisher() {
    assert_eq!(stream_step(false, None, Revision::new(0), true), StreamStep::Deliver(Revision::new(0)));
    assert_eq!(stream_step(false, Some(Revision::new(0)), Revision::new(0), true), StreamStep::Wait);
    assert_eq!(stream_step(false, Some(Revision::new(0)), Revision::new(2), false), StreamStep::Deliver(Revision::new(2)));
    assert_eq!(stream_step(false, Some(Revision::new(2)), Revision::new(2), false), StreamStep::Terminate);
    assert_eq!(stream_step(true, None, Revision::new(5), true), StreamStep::Ended);
}
