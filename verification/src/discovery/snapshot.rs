use vstd::prelude::*;

use std::sync::Arc;

use super::member::share;
use super::revision::Revision;

verus! {

/// An immutable membership view at one revision.
pub struct Snapshot<T> {
    revision: Revision,
    members: Arc<Vec<T>>,
}

impl<T> Snapshot<T> {
    /// The snapshot's revision.
    pub closed spec fn spec_revision(&self) -> Revision {
        self.revision
    }

    /// The snapshot's members, in directory order.
    pub closed spec fn spec_members(&self) -> Seq<T> {
        (*self.members)@
    }

    /// Creates a snapshot of `members` at `revision`.
    pub fn new(revision: Revision, members: Vec<T>) -> (s: Self)
        ensures
            s.spec_revision() == revision,
            s.spec_members() == members@,
    {
        Snapshot { revision, members: Arc::new(members) }
    }

    /// Creates an empty snapshot at the initial revision.
    pub fn empty() -> (s: Self)
        ensures
            s.spec_revision()@ == 0,
            s.spec_members() == Seq::<T>::empty(),
    {
        Snapshot::new(Revision::new(0), Vec::new())
    }

    /// Returns the revision.
    pub fn revision(&self) -> (r: Revision)
        ensures
            r == self.spec_revision(),
    {
        self.revision
    }

    /// Returns the members.
    pub fn members(&self) -> (m: &[T])
        ensures
            m@ == self.spec_members(),
    {
        self.members.as_slice()
    }

    /// Returns a shared handle to the member allocation.
    pub fn members_arc(&self) -> (m: Arc<Vec<T>>)
        ensures
            (*m)@ == self.spec_members(),
    {
        share(&self.members)
    }

    /// Returns the number of members.
    pub fn len(&self) -> (n: usize)
        ensures
            n == self.spec_members().len(),
    {
        self.members.len()
    }

    /// Returns whether the snapshot has no members.
    pub fn is_empty(&self) -> (b: bool)
        ensures
            b == (self.spec_members().len() == 0),
    {
        self.members.len() == 0
    }
}

impl<T> Default for Snapshot<T> {
    fn default() -> (s: Self)
        ensures
            s.spec_revision()@ == 0,
            s.spec_members() == Seq::<T>::empty(),
    {
        Snapshot::empty()
    }
}

impl<T> std::ops::Deref for Snapshot<T> {
    type Target = [T];

    fn deref(&self) -> (m: &[T])
        ensures
            m@ == self.spec_members(),
    {
        self.members()
    }
}

/// A snapshot was not newer than the published one.
#[derive(Clone, Copy, Debug, PartialEq, Eq, Structural, Hash)]
pub struct PublishError {
    current: Revision,
    attempted: Revision,
}

impl PublishError {
    /// The published revision.
    pub closed spec fn spec_current(self) -> Revision {
        self.current
    }

    /// The rejected revision.
    pub closed spec fn spec_attempted(self) -> Revision {
        self.attempted
    }

    /// Returns the published revision.
    pub fn current(self) -> (r: Revision)
        ensures
            r == self.spec_current(),
    {
        self.current
    }

    /// Returns the rejected revision.
    pub fn attempted(self) -> (r: Revision)
        ensures
            r == self.spec_attempted(),
    {
        self.attempted
    }

    /// Describes the error.
    pub fn message(&self) -> (m: String)
        ensures
            m@ == "snapshot revision is not newer than the published revision"@,
    {
        String::from_str("snapshot revision is not newer than the published revision")
    }
}

/// Decides whether a snapshot at `attempted` may replace the one published
/// at `current`: revisions only move forward.
pub fn check_publish(current: Revision, attempted: Revision) -> (r: Result<(), PublishError>)
    ensures
        attempted@ > current@ <==> r is Ok,
        r matches Err(e) ==> e.spec_current() == current && e.spec_attempted() == attempted,
{
    if attempted.get() <= current.get() {
        return Err(PublishError { current, attempted });
    }
    Ok(())
}

/// Revisions accepted one after another by [`check_publish`] only grow: a
/// stream that last saw the `i`-th published revision finds the `j`-th one,
/// published since, no newer only when it is the same publication. So a
/// stream waits, or ends, only when it already delivered the current revision.
pub proof fn lemma_published_revisions_grow(published: Seq<Revision>, i: int, j: int)
    requires
        0 <= i <= j < published.len(),
        forall|k: int| 0 < k < published.len() ==> #[trigger] published[k]@ > published[k - 1]@,
    ensures
        published[i]@ <= published[j]@,
        published[j]@ <= published[i]@ ==> i == j,
    decreases j - i,
{
    if i < j {
        lemma_published_revisions_grow(published, i, j - 1);
        assert(published[j]@ > published[j - 1]@);
    }
}

/// What a snapshot stream does after observing the published revision.
#[derive(Clone, Copy, Debug, PartialEq, Eq, Structural, Hash)]
pub enum StreamStep {
    /// The stream already ended.
    Ended,
    /// Deliver the current snapshot and remember its revision.
    Deliver(Revision),
    /// The publisher is gone and nothing newer is left: end the stream.
    Terminate,
    /// Nothing new yet: wait for a wake-up.
    Wait,
}

/// A snapshot stream's next step: an ended stream stays ended; a revision
/// newer than the last one seen (or the first one) is delivered; otherwise
/// the stream ends once the publisher is gone, and waits while it lives.
pub open spec fn spec_stream_step(
    terminated: bool,
    last_seen: Option<Revision>,
    current: Revision,
    publisher_alive: bool,
) -> StreamStep {
    if terminated {
        StreamStep::Ended
    } else if last_seen is None || current@ > last_seen->0@ {
        StreamStep::Deliver(current)
    } else if !publisher_alive {
        StreamStep::Terminate
    } else {
        StreamStep::Wait
    }
}

/// A live stream that last delivered the `i`-th of the revisions published
/// one after another through [`check_publish`], and now finds the `j`-th
/// published, delivers it exactly when it is a later publication, and
/// otherwise waits while the publisher lives and ends once it is gone: it
/// never waits on, nor ends before, a revision it has not delivered.
pub proof fn lemma_stream_follows_publications(
    published: Seq<Revision>,
    i: int,
    j: int,
    publisher_alive: bool,
)
    requires
        0 <= i <= j < published.len(),
        forall|k: int| 0 < k < published.len() ==> #[trigger] published[k]@ > published[k - 1]@,
    ensures
        i < j ==> spec_stream_step(false, Some(published[i]), published[j], publisher_alive)
            == StreamStep::Deliver(published[j]),
        i == j && publisher_alive ==> spec_stream_step(false, Some(published[i]), published[j], publisher_alive)
            == StreamStep::Wait,
        i == j && !publisher_alive ==> spec_stream_step(false, Some(published[i]), published[j], publisher_alive)
            == StreamStep::Terminate,
{
    lemma_published_revisions_grow(published, i, j);
}

/// Decides a snapshot stream's next step: an ended stream stays ended; a
/// revision newer than the last one seen (or the first one) is delivered;
/// otherwise the stream ends once the publisher is gone, and waits while it
/// lives.
pub fn stream_step(terminated: bool, last_seen: Option<Revision>, current: Revision, publisher_alive: bool) -> (s: StreamStep)
    ensures
        s == spec_stream_step(terminated, last_seen, current, publisher_alive),
{
    if terminated {
        return StreamStep::Ended;
    }
    let newer = match last_seen {
        None => true,
        Some(l) => current.get() > l.get(),
    };
    if newer {
        StreamStep::Deliver(current)
    } else if !publisher_alive {
        StreamStep::Terminate
    } else {
        StreamStep::Wait
    }
}

} // verus!
