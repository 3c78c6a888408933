use vstd::prelude::*;

use std::sync::Arc;

use crate::hash::{StableKey, bytes_equal};

use super::member::{Discovered, Membership, share};
use super::revision::Revision;
use super::snapshot::Snapshot;

verus! {

/// One discovery event.
#[derive(Clone, Debug, PartialEq, Eq)]
pub enum Change<Key, Backend> {
    /// Inserts a member, replaces its backend, or revives a draining member.
    Upsert(Key, Backend),
    /// Starts draining a member.
    Remove(Key),
}

/// What a lifecycle request did.
#[derive(Clone, Copy, Debug, PartialEq, Eq, Structural, Hash)]
pub enum Effect {
    /// A new member was appended.
    Inserted,
    /// An active member's backend was replaced.
    Updated,
    /// A draining member was replaced and made active again.
    Revived,
    /// An active member started draining.
    DrainStarted,
    /// The member was already draining.
    AlreadyDraining,
    /// A draining member was retired.
    DrainFinished,
    /// No member has the key.
    NotFound,
    /// The member is not draining, so it cannot be retired.
    NotDraining,
}

/// Whether an effect changed the membership.
pub open spec fn spec_changed(effect: Effect) -> bool {
    match effect {
        Effect::Inserted | Effect::Updated | Effect::Revived | Effect::DrainStarted
        | Effect::DrainFinished => true,
        _ => false,
    }
}

impl Effect {
    /// Returns whether the effect changed the membership and advanced the
    /// revision.
    pub fn changed(self) -> (b: bool)
        ensures
            b == spec_changed(self),
    {
        match self {
            Effect::Inserted | Effect::Updated | Effect::Revived | Effect::DrainStarted
            | Effect::DrainFinished => true,
            _ => false,
        }
    }
}

/// The effect of a request and the revision after it.
#[derive(Clone, Copy, Debug, PartialEq, Eq, Structural, Hash)]
pub struct Applied {
    effect: Effect,
    revision: Revision,
}

impl Applied {
    /// The effect.
    pub closed spec fn spec_effect(self) -> Effect {
        self.effect
    }

    /// The revision after the request.
    pub closed spec fn spec_revision(self) -> Revision {
        self.revision
    }

    fn new(effect: Effect, revision: Revision) -> (a: Self)
        ensures
            a.spec_effect() == effect,
            a.spec_revision() == revision,
    {
        Applied { effect, revision }
    }

    /// Returns the effect.
    pub fn effect(self) -> (e: Effect)
        ensures
            e == self.spec_effect(),
    {
        self.effect
    }

    /// Returns the revision after the request.
    pub fn revision(self) -> (r: Revision)
        ensures
            r == self.spec_revision(),
    {
        self.revision
    }

    /// Returns whether the request changed the membership.
    pub fn changed(self) -> (b: bool)
        ensures
            b == spec_changed(self.spec_effect()),
    {
        self.effect.changed()
    }
}

/// The revision clock cannot advance past `u64::MAX`.
#[derive(Clone, Copy, Debug, PartialEq, Eq, Structural, Hash)]
pub struct RevisionExhausted;

impl RevisionExhausted {
    /// Describes the error.
    pub fn message(&self) -> (m: String)
        ensures
            m@ == "the membership revision clock is exhausted"@,
    {
        String::from_str("the membership revision clock is exhausted")
    }
}

struct Entry<Key, Backend> {
    key: Arc<Key>,
    backend: Arc<Backend>,
    membership: Membership,
}

/// One member of a directory: key, backend, membership.
pub type DirectoryEntry<Key, Backend> = (Key, Backend, Membership);

spec fn entry_view<Key, Backend>(e: Entry<Key, Backend>) -> DirectoryEntry<Key, Backend> {
    (*e.key, *e.backend, e.membership)
}

/// Whether the member at `i` has the key encoded as `key`.
pub open spec fn key_at<Key: StableKey, Backend>(es: Seq<DirectoryEntry<Key, Backend>>, key: Seq<u8>, i: int) -> bool {
    0 <= i < es.len() && es[i].0.key_bytes() == key
}

/// Whether some member has the key encoded as `key`.
pub open spec fn has_key<Key: StableKey, Backend>(es: Seq<DirectoryEntry<Key, Backend>>, key: Seq<u8>) -> bool {
    exists|i: int| #[trigger] key_at(es, key, i)
}

/// Whether no two members share a key.
pub open spec fn keys_unique<Key: StableKey, Backend>(es: Seq<DirectoryEntry<Key, Backend>>) -> bool {
    forall|i: int, j: int|
        0 <= i < es.len() && 0 <= j < es.len() && i != j ==> (#[trigger] es[i]).0.key_bytes()
            != (#[trigger] es[j]).0.key_bytes()
}

/// Revisioned membership in discovery order.
///
/// Members keep their relative order across updates and retirement.
/// Removal starts draining; only [`Directory::finish_drain`] retires a
/// member. Every change advances the revision by one; requests that change
/// nothing leave it alone.
pub struct Directory<Key: StableKey, Backend> {
    revision: Revision,
    entries: Vec<Entry<Key, Backend>>,
}

impl<Key: StableKey, Backend> Directory<Key, Backend> {
    #[verifier::type_invariant]
    spec fn well_formed(self) -> bool {
        keys_unique(self.entries@.map_values(|e: Entry<Key, Backend>| entry_view(e)))
    }

    /// The members in order.
    pub closed spec fn spec_entries(&self) -> Seq<DirectoryEntry<Key, Backend>> {
        self.entries@.map_values(|e: Entry<Key, Backend>| entry_view(e))
    }

    /// The current revision.
    pub closed spec fn spec_revision(&self) -> Revision {
        self.revision
    }

    /// Creates an empty directory at the initial revision.
    pub fn new() -> (d: Self)
        ensures
            d.spec_entries() == Seq::<DirectoryEntry<Key, Backend>>::empty(),
            d.spec_revision()@ == 0,
    {
        Self::with_revision(Revision::initial())
    }

    /// Creates an empty directory at `revision`.
    pub fn with_revision(revision: Revision) -> (d: Self)
        ensures
            d.spec_entries() == Seq::<DirectoryEntry<Key, Backend>>::empty(),
            d.spec_revision() == revision,
    {
        let entries: Vec<Entry<Key, Backend>> = Vec::new();
        proof {
            assert(entries@.map_values(|e: Entry<Key, Backend>| entry_view(e)) =~= Seq::<
                DirectoryEntry<Key, Backend>,
            >::empty());
        }
        Directory { revision, entries }
    }

    /// Returns the current revision.
    pub fn revision(&self) -> (r: Revision)
        ensures
            r == self.spec_revision(),
    {
        self.revision
    }

    /// Returns the number of members, draining ones included.
    pub fn len(&self) -> (n: usize)
        ensures
            n == self.spec_entries().len(),
    {
        self.entries.len()
    }

    /// Returns whether the directory has no members.
    pub fn is_empty(&self) -> (b: bool)
        ensures
            b == (self.spec_entries().len() == 0),
    {
        self.entries.len() == 0
    }

    fn position<Q: StableKey + ?Sized>(&self, key: &Q) -> (r: Option<usize>)
        ensures
            r matches Some(i) ==> key_at(self.spec_entries(), key.key_bytes(), i as int),
            r is None ==> !has_key(self.spec_entries(), key.key_bytes()),
    {
        let wanted = key.encode();
        let n = self.entries.len();
        let mut index: usize = 0;
        while index < n
            invariant
                n == self.entries@.len(),
                index <= n,
                wanted@ == key.key_bytes(),
                forall|j: int| 0 <= j < index ==> !#[trigger] key_at(self.spec_entries(), key.key_bytes(), j),
            decreases n - index,
        {
            let encoded = self.entries[index].key.encode();
            if bytes_equal(encoded.as_slice(), wanted.as_slice()) {
                return Some(index);
            }
            index = index + 1;
        }
        None
    }
}

/// Where the member keyed `key` stands, if anywhere.
pub open spec fn find_key<Key: StableKey, Backend>(es: Seq<DirectoryEntry<Key, Backend>>, key: Seq<u8>) -> Option<int> {
    if has_key(es, key) {
        Some(choose|i: int| key_at(es, key, i))
    } else {
        None
    }
}

/// Members and revision after a request, with its effect; `None` when the
/// revision clock is exhausted.
pub type Transition<Key, Backend> = Option<(Seq<DirectoryEntry<Key, Backend>>, u64, Effect)>;

/// Inserting or replacing the member keyed like `key`.
pub open spec fn spec_upsert<Key: StableKey, Backend>(
    es: Seq<DirectoryEntry<Key, Backend>>,
    revision: u64,
    key: Key,
    backend: Backend,
) -> Transition<Key, Backend> {
    if revision == u64::MAX {
        None
    } else {
        match find_key(es, key.key_bytes()) {
            Some(i) => Some(
                (
                    es.update(i, (es[i].0, backend, Membership::Active)),
                    (revision + 1) as u64,
                    if es[i].2 == Membership::Draining {
                        Effect::Revived
                    } else {
                        Effect::Updated
                    },
                ),
            ),
            None => Some((es.push((key, backend, Membership::Active)), (revision + 1) as u64, Effect::Inserted)),
        }
    }
}

/// Starting to drain the member keyed `key`.
pub open spec fn spec_begin_drain<Key: StableKey, Backend>(
    es: Seq<DirectoryEntry<Key, Backend>>,
    revision: u64,
    key: Seq<u8>,
) -> Transition<Key, Backend> {
    match find_key(es, key) {
        None => Some((es, revision, Effect::NotFound)),
        Some(i) => if es[i].2 == Membership::Draining {
            Some((es, revision, Effect::AlreadyDraining))
        } else if revision == u64::MAX {
            None
        } else {
            Some((es.update(i, (es[i].0, es[i].1, Membership::Draining)), (revision + 1) as u64, Effect::DrainStarted))
        },
    }
}

/// Retiring the draining member keyed `key`.
pub open spec fn spec_finish_drain<Key: StableKey, Backend>(
    es: Seq<DirectoryEntry<Key, Backend>>,
    revision: u64,
    key: Seq<u8>,
) -> Transition<Key, Backend> {
    match find_key(es, key) {
        None => Some((es, revision, Effect::NotFound)),
        Some(i) => if es[i].2 != Membership::Draining {
            Some((es, revision, Effect::NotDraining))
        } else if revision == u64::MAX {
            None
        } else {
            Some((es.remove(i), (revision + 1) as u64, Effect::DrainFinished))
        },
    }
}

/// Applying one discovery event.
pub open spec fn spec_apply<Key: StableKey, Backend>(
    es: Seq<DirectoryEntry<Key, Backend>>,
    revision: u64,
    change: Change<Key, Backend>,
) -> Transition<Key, Backend> {
    match change {
        Change::Upsert(key, backend) => spec_upsert(es, revision, key, backend),
        Change::Remove(key) => spec_begin_drain(es, revision, key.key_bytes()),
    }
}

/// Applying events in order: the members, the revision, and each event's
/// effect with the revision after it; `None` if any event exhausts the
/// revision clock.
pub open spec fn spec_apply_all<Key: StableKey, Backend>(
    es: Seq<DirectoryEntry<Key, Backend>>,
    revision: u64,
    changes: Seq<Change<Key, Backend>>,
) -> Option<(Seq<DirectoryEntry<Key, Backend>>, u64, Seq<(Effect, u64)>)>
    decreases changes.len(),
{
    if changes.len() == 0 {
        Some((es, revision, Seq::empty()))
    } else {
        match spec_apply_all(es, revision, changes.drop_last()) {
            None => None,
            Some((es1, r1, outcomes)) => match spec_apply(es1, r1, changes.last()) {
                None => None,
                Some((es2, r2, effect)) => Some((es2, r2, outcomes.push((effect, r2)))),
            },
        }
    }
}

/// Whether the directory holds `state` and `r` reports `t`'s effect, or the
/// exhausted clock with the directory unchanged.
pub open spec fn follows<Key: StableKey, Backend>(
    before: Seq<DirectoryEntry<Key, Backend>>,
    before_revision: u64,
    after: Seq<DirectoryEntry<Key, Backend>>,
    after_revision: u64,
    t: Transition<Key, Backend>,
    r: Result<Applied, RevisionExhausted>,
) -> bool {
    match t {
        None => r == Err::<Applied, RevisionExhausted>(RevisionExhausted) && after == before
            && after_revision == before_revision,
        Some((es, rev, effect)) => r matches Ok(a) && a.spec_effect() == effect && a.spec_revision()@
            == rev && after == es && after_revision == rev,
    }
}

proof fn lemma_find_key<Key: StableKey, Backend>(es: Seq<DirectoryEntry<Key, Backend>>, key: Seq<u8>, i: int)
    requires
        keys_unique(es),
        key_at(es, key, i),
    ensures
        find_key(es, key) == Some(i),
{
    let j = choose|j: int| key_at(es, key, j);
    assert(key_at(es, key, j));
    if j != i {
        assert(es[i].0.key_bytes() != es[j].0.key_bytes());
    }
}

impl<Key: StableKey, Backend> Directory<Key, Backend> {
    /// Inserts a member, replaces its backend, or revives it if draining.
    pub fn upsert(&mut self, key: Key, backend: Backend) -> (r: Result<Applied, RevisionExhausted>)
        ensures
            follows(
                old(self).spec_entries(),
                old(self).spec_revision()@,
                final(self).spec_entries(),
                final(self).spec_revision()@,
                spec_upsert(old(self).spec_entries(), old(self).spec_revision()@, key, backend),
                r,
            ),
    {
        proof {
            use_type_invariant(&*self);
        }
        let next = match self.revision.checked_next() {
            Some(n) => n,
            None => {
                return Err(RevisionExhausted);
            },
        };
        let ghost es = self.spec_entries();
        let effect = match self.position(&key) {
            Some(index) => {
                proof {
                    lemma_find_key(es, key.key_bytes(), index as int);
                }
                let was_draining = self.entries[index].membership == Membership::Draining;
                let entry = Entry {
                    key: share(&self.entries[index].key),
                    backend: Arc::new(backend),
                    membership: Membership::Active,
                };
                let ghost updated = es.update(index as int, (es[index as int].0, backend, Membership::Active));
                proof {
                    assert(self.entries@.update(index as int, entry).map_values(
                        |e: Entry<Key, Backend>| entry_view(e),
                    ) =~= updated);
                    assert(keys_unique(updated)) by {
                        assert forall|i: int, j: int|
                            0 <= i < updated.len() && 0 <= j < updated.len() && i != j implies (
                        #[trigger] updated[i]).0.key_bytes() != (#[trigger] updated[j]).0.key_bytes() by {
                            assert(updated[i].0 == es[i].0);
                            assert(updated[j].0 == es[j].0);
                        }
                    }
                }
                let mut entries: Vec<Entry<Key, Backend>> = Vec::new();
                std::mem::swap(&mut entries, &mut self.entries);
                entries.set(index, entry);
                self.entries = entries;
                if was_draining {
                    Effect::Revived
                } else {
                    Effect::Updated
                }
            },
            None => {
                let entry = Entry {
                    key: Arc::new(key),
                    backend: Arc::new(backend),
                    membership: Membership::Active,
                };
                let ghost pushed = es.push((key, backend, Membership::Active));
                proof {
                    assert(self.entries@.push(entry).map_values(|e: Entry<Key, Backend>| entry_view(e))
                        =~= pushed);
                    assert(keys_unique(pushed)) by {
                        assert forall|i: int, j: int|
                            0 <= i < pushed.len() && 0 <= j < pushed.len() && i != j implies (
                        #[trigger] pushed[i]).0.key_bytes() != (#[trigger] pushed[j]).0.key_bytes() by {
                            if i == es.len() {
                                assert(!key_at(es, key.key_bytes(), j));
                            } else if j == es.len() {
                                assert(!key_at(es, key.key_bytes(), i));
                            }
                        }
                    }
                }
                let mut entries: Vec<Entry<Key, Backend>> = Vec::new();
                std::mem::swap(&mut entries, &mut self.entries);
                entries.push(entry);
                self.entries = entries;
                Effect::Inserted
            },
        };
        self.revision = next;
        Ok(Applied::new(effect, next))
    }
}

impl<Key: StableKey, Backend> Directory<Key, Backend> {
    fn set_membership(&mut self, index: usize, membership: Membership)
        requires
            index < old(self).spec_entries().len(),
        ensures
            final(self).spec_entries() == old(self).spec_entries().update(
                index as int,
                (old(self).spec_entries()[index as int].0, old(self).spec_entries()[index as int].1, membership),
            ),
            final(self).spec_revision() == old(self).spec_revision(),
    {
        proof {
            use_type_invariant(&*self);
        }
        let ghost es = self.spec_entries();
        let entry = Entry {
            key: share(&self.entries[index].key),
            backend: share(&self.entries[index].backend),
            membership,
        };
        let ghost updated = es.update(index as int, (es[index as int].0, es[index as int].1, membership));
        proof {
            assert(self.entries@.update(index as int, entry).map_values(
                |e: Entry<Key, Backend>| entry_view(e),
            ) =~= updated);
            assert(keys_unique(updated)) by {
                assert forall|i: int, j: int|
                    0 <= i < updated.len() && 0 <= j < updated.len() && i != j implies (
                #[trigger] updated[i]).0.key_bytes() != (#[trigger] updated[j]).0.key_bytes() by {
                    assert(updated[i].0 == es[i].0);
                    assert(updated[j].0 == es[j].0);
                }
            }
        }
        let mut entries: Vec<Entry<Key, Backend>> = Vec::new();
        std::mem::swap(&mut entries, &mut self.entries);
        entries.set(index, entry);
        self.entries = entries;
    }

    /// Starts draining a member: it stays in snapshots but receives no new
    /// selections.
    pub fn begin_drain<Q: StableKey + ?Sized>(&mut self, key: &Q) -> (r: Result<Applied, RevisionExhausted>)
        ensures
            follows(
                old(self).spec_entries(),
                old(self).spec_revision()@,
                final(self).spec_entries(),
                final(self).spec_revision()@,
                spec_begin_drain(old(self).spec_entries(), old(self).spec_revision()@, key.key_bytes()),
                r,
            ),
    {
        proof {
            use_type_invariant(&*self);
        }
        let index = match self.position(key) {
            None => {
                return Ok(Applied::new(Effect::NotFound, self.revision));
            },
            Some(i) => i,
        };
        proof {
            lemma_find_key(self.spec_entries(), key.key_bytes(), index as int);
        }
        if self.entries[index].membership == Membership::Draining {
            return Ok(Applied::new(Effect::AlreadyDraining, self.revision));
        }
        let next = match self.revision.checked_next() {
            Some(n) => n,
            None => {
                return Err(RevisionExhausted);
            },
        };
        self.set_membership(index, Membership::Draining);
        self.revision = next;
        Ok(Applied::new(Effect::DrainStarted, next))
    }

    /// Retires a draining member, keeping the order of the others.
    pub fn finish_drain<Q: StableKey + ?Sized>(&mut self, key: &Q) -> (r: Result<Applied, RevisionExhausted>)
        ensures
            follows(
                old(self).spec_entries(),
                old(self).spec_revision()@,
                final(self).spec_entries(),
                final(self).spec_revision()@,
                spec_finish_drain(old(self).spec_entries(), old(self).spec_revision()@, key.key_bytes()),
                r,
            ),
    {
        proof {
            use_type_invariant(&*self);
        }
        let index = match self.position(key) {
            None => {
                return Ok(Applied::new(Effect::NotFound, self.revision));
            },
            Some(i) => i,
        };
        let ghost es = self.spec_entries();
        proof {
            lemma_find_key(es, key.key_bytes(), index as int);
        }
        if self.entries[index].membership != Membership::Draining {
            return Ok(Applied::new(Effect::NotDraining, self.revision));
        }
        let next = match self.revision.checked_next() {
            Some(n) => n,
            None => {
                return Err(RevisionExhausted);
            },
        };
        let ghost removed = es.remove(index as int);
        proof {
            assert(self.entries@.remove(index as int).map_values(|e: Entry<Key, Backend>| entry_view(e))
                =~= removed);
            assert(keys_unique(removed)) by {
                assert forall|i: int, j: int|
                    0 <= i < removed.len() && 0 <= j < removed.len() && i != j implies (
                #[trigger] removed[i]).0.key_bytes() != (#[trigger] removed[j]).0.key_bytes() by {
                    let a = if i < index { i } else { i + 1 };
                    let b = if j < index { j } else { j + 1 };
                    assert(removed[i] == es[a]);
                    assert(removed[j] == es[b]);
                }
            }
        }
        let mut entries: Vec<Entry<Key, Backend>> = Vec::new();
        std::mem::swap(&mut entries, &mut self.entries);
        entries.remove(index);
        self.entries = entries;
        self.revision = next;
        Ok(Applied::new(Effect::DrainFinished, next))
    }

    /// Applies one discovery event: an upsert, or the start of a drain.
    pub fn apply(&mut self, change: Change<Key, Backend>) -> (r: Result<Applied, RevisionExhausted>)
        ensures
            follows(
                old(self).spec_entries(),
                old(self).spec_revision()@,
                final(self).spec_entries(),
                final(self).spec_revision()@,
                spec_apply(old(self).spec_entries(), old(self).spec_revision()@, change),
                r,
            ),
    {
        match change {
            Change::Upsert(key, backend) => self.upsert(key, backend),
            Change::Remove(key) => self.begin_drain(&key),
        }
    }

    /// Publishes the members, in order, at the current revision.
    pub fn snapshot(&self) -> (s: Snapshot<Discovered<Key, Backend>>)
        ensures
            s.spec_revision() == self.spec_revision(),
            s.spec_members().len() == self.spec_entries().len(),
            forall|i: int|
                0 <= i < s.spec_members().len() ==> (#[trigger] s.spec_members()[i]).spec_key()
                    == self.spec_entries()[i].0 && s.spec_members()[i].spec_backend()
                    == self.spec_entries()[i].1 && s.spec_members()[i].spec_membership()
                    == self.spec_entries()[i].2,
    {
        let n = self.entries.len();
        let mut members: Vec<Discovered<Key, Backend>> = Vec::new();
        let mut index: usize = 0;
        while index < n
            invariant
                n == self.entries@.len(),
                index <= n,
                members@.len() == index,
                forall|i: int|
                    0 <= i < index ==> (#[trigger] members@[i]).spec_key() == self.spec_entries()[i].0
                        && members@[i].spec_backend() == self.spec_entries()[i].1
                        && members@[i].spec_membership() == self.spec_entries()[i].2,
            decreases n - index,
        {
            let entry = &self.entries[index];
            members.push(Discovered::new(share(&entry.key), share(&entry.backend), entry.membership));
            index = index + 1;
        }
        Snapshot::new(self.revision, members)
    }
}

impl<Key: StableKey, Backend> Clone for Directory<Key, Backend> {
    fn clone(&self) -> (d: Self)
        ensures
            d.spec_entries() == self.spec_entries(),
            d.spec_revision() == self.spec_revision(),
    {
        proof {
            use_type_invariant(self);
        }
        let n = self.entries.len();
        let mut entries: Vec<Entry<Key, Backend>> = Vec::new();
        let mut index: usize = 0;
        while index < n
            invariant
                n == self.entries@.len(),
                index <= n,
                entries@.len() == index,
                forall|i: int|
                    0 <= i < index ==> entry_view(#[trigger] entries@[i]) == entry_view(self.entries@[i]),
            decreases n - index,
        {
            let entry = &self.entries[index];
            entries.push(
                Entry { key: share(&entry.key), backend: share(&entry.backend), membership: entry.membership },
            );
            index = index + 1;
        }
        proof {
            assert(entries@.map_values(|e: Entry<Key, Backend>| entry_view(e)) =~= self.spec_entries());
        }
        Directory { revision: self.revision, entries }
    }
}

impl<Key: StableKey, Backend> Default for Directory<Key, Backend> {
    fn default() -> (d: Self)
        ensures
            d.spec_entries() == Seq::<DirectoryEntry<Key, Backend>>::empty(),
            d.spec_revision()@ == 0,
    {
        Self::new()
    }
}

impl<Key: StableKey, Backend> Directory<Key, Backend> {
    /// Applies events in order, all or nothing: if any event would exhaust
    /// the revision clock, the directory is left as it was.
    pub fn apply_batch(&mut self, changes: Vec<Change<Key, Backend>>) -> (r: Result<Vec<Applied>, RevisionExhausted>)
        ensures
            match spec_apply_all(old(self).spec_entries(), old(self).spec_revision()@, changes@) {
                None => r == Err::<Vec<Applied>, RevisionExhausted>(RevisionExhausted)
                    && final(self).spec_entries() == old(self).spec_entries()
                    && final(self).spec_revision() == old(self).spec_revision(),
                Some((es, rev, outcomes)) => r matches Ok(applied) && final(self).spec_entries() == es
                    && final(self).spec_revision()@ == rev && applied@.len() == outcomes.len()
                    && forall|i: int|
                    0 <= i < outcomes.len() ==> (#[trigger] applied@[i]).spec_effect() == outcomes[i].0
                        && applied@[i].spec_revision()@ == outcomes[i].1,
            },
    {
        let mut staged = self.clone();
        let ghost all = changes@;
        let mut outcomes: Vec<Applied> = Vec::new();
        let mut rest = changes;
        let n = rest.len();
        let mut k: usize = 0;
        while k < n
            invariant
                n == all.len(),
                all == changes@,
                rest@ == all.skip(k as int),
                k <= n,
                spec_apply_all(old(self).spec_entries(), old(self).spec_revision()@, all.take(k as int))
                    == Some((staged.spec_entries(), staged.spec_revision()@, outcomes_view(outcomes@))),
                self.spec_entries() == old(self).spec_entries(),
                self.spec_revision() == old(self).spec_revision(),
            decreases n - k,
        {
            let change = rest.remove(0);
            assert(change == all[k as int]);
            assert(rest@ =~= all.skip(k + 1));
            let ghost before_staged = (staged.spec_entries(), staged.spec_revision()@);
            proof {
                assert(all.take(k + 1).drop_last() =~= all.take(k as int));
                assert(all.take(k + 1).last() == all[k as int]);
            }
            let ghost old_out = outcomes@;
            match staged.apply(change) {
                Ok(applied) => {
                    outcomes.push(applied);
                    proof {
                        assert(outcomes_view(outcomes@) =~= outcomes_view(old_out).push(
                            (applied.spec_effect(), applied.spec_revision()@),
                        ));
                    }
                },
                Err(e) => {
                    proof {
                        lemma_apply_all_none(old(self).spec_entries(), old(self).spec_revision()@, all, k + 1);
                    }
                    return Err(e);
                },
            }
            k = k + 1;
        }
        proof {
            assert(all.take(n as int) =~= all);
        }
        *self = staged;
        Ok(outcomes)
    }
}

/// The effect and revision of each applied request.
pub open spec fn outcomes_view(applied: Seq<Applied>) -> Seq<(Effect, u64)> {
    applied.map_values(|a: Applied| (a.spec_effect(), a.spec_revision()@))
}

proof fn lemma_apply_all_none<Key: StableKey, Backend>(
    es: Seq<DirectoryEntry<Key, Backend>>,
    revision: u64,
    changes: Seq<Change<Key, Backend>>,
    k: int,
)
    requires
        0 <= k <= changes.len(),
        spec_apply_all(es, revision, changes.take(k)) is None,
    ensures
        spec_apply_all(es, revision, changes) is None,
    decreases changes.len() - k,
{
    if k < changes.len() {
        assert(changes.take(k + 1).drop_last() =~= changes.take(k));
        lemma_apply_all_none(es, revision, changes, k + 1);
    } else {
        assert(changes.take(k) =~= changes);
    }
}

} // verus!
