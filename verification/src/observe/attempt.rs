//! An observation of one backend attempt that is classified exactly once.

use vstd::prelude::*;

use crate::feedback::Outcome;
use crate::time::Instant;

use super::event::{AttemptEvent, AttemptKind};
use super::observer::Observer;

verus! {

/// An observation of one backend attempt, started at an explicit instant.
///
/// The first finish delivers one [`AttemptEvent`] to the observer; any later
/// finish delivers nothing. A caller that owns the attempt across early
/// returns finishes it as cancelled when it is abandoned.
pub struct Attempt<O> {
    observer: O,
    started: Instant,
    finished: bool,
}

/// The event of an attempt of `kind` that started at `started` and finished
/// at `now`; a clock that went backwards counts as no time.
pub open spec fn attempt_event(kind: AttemptKind, started: Instant, now: Instant) -> (AttemptKind, int) {
    (kind, if now@ >= started@ { now@ - started@ } else { 0 })
}

/// The attempt kind of a request outcome.
pub open spec fn outcome_kind(outcome: Outcome) -> AttemptKind {
    match outcome {
        Outcome::Success => AttemptKind::Success,
        Outcome::Failure => AttemptKind::Failure,
        Outcome::Overloaded => AttemptKind::Overloaded,
        Outcome::Cancelled => AttemptKind::Cancelled,
    }
}

impl<O: Observer> Attempt<O> {
    /// The observer.
    pub closed spec fn spec_observer(&self) -> O {
        self.observer
    }

    /// When the attempt started.
    pub closed spec fn spec_started(&self) -> Instant {
        self.started
    }

    /// Whether the attempt has been classified.
    pub closed spec fn spec_finished(&self) -> bool {
        self.finished
    }

    /// Starts an attempt at `started`.
    pub fn new(observer: O, started: Instant) -> (a: Self)
        ensures
            a.spec_observer() == observer,
            a.spec_started() == started,
            !a.spec_finished(),
    {
        Attempt { observer, started, finished: false }
    }

    /// Returns the observer.
    pub fn observer(&self) -> (o: &O)
        ensures
            *o == self.spec_observer(),
    {
        &self.observer
    }

    /// Classifies the attempt as `kind` at `now`, delivering the event to the
    /// observer unless the attempt was already classified. Returns the event
    /// delivered, if any.
    pub fn finish(&mut self, kind: AttemptKind, now: Instant) -> (r: Option<AttemptEvent>)
        ensures
            final(self).spec_finished(),
            final(self).spec_observer() == old(self).spec_observer(),
            final(self).spec_started() == old(self).spec_started(),
            old(self).spec_finished() ==> r is None,
            !old(self).spec_finished() ==> (r matches Some(e) && (e.spec_kind(), e.spec_elapsed()@ as int)
                == attempt_event(kind, old(self).spec_started(), now)),
    {
        if self.finished {
            return None;
        }
        let event = AttemptEvent::new(kind, now.saturating_duration_since(self.started));
        self.observer.observe_attempt(event);
        self.finished = true;
        Some(event)
    }

    /// Completes the attempt at `now` with a protocol-neutral outcome.
    pub fn complete(self, outcome: Outcome, now: Instant) -> (r: Option<AttemptEvent>)
        ensures
            self.spec_finished() ==> r is None,
            !self.spec_finished() ==> (r matches Some(e) && (e.spec_kind(), e.spec_elapsed()@ as int)
                == attempt_event(outcome_kind(outcome), self.spec_started(), now)),
    {
        let kind = AttemptKind::from_outcome(outcome);
        let mut attempt = self;
        attempt.finish(kind, now)
    }

    /// Completes a successful attempt at `now`.
    pub fn success(self, now: Instant) -> (r: Option<AttemptEvent>)
        ensures
            self.spec_finished() ==> r is None,
            !self.spec_finished() ==> (r matches Some(e) && (e.spec_kind(), e.spec_elapsed()@ as int)
                == attempt_event(AttemptKind::Success, self.spec_started(), now)),
    {
        self.complete(Outcome::Success, now)
    }

    /// Completes a failed attempt at `now`.
    pub fn failure(self, now: Instant) -> (r: Option<AttemptEvent>)
        ensures
            self.spec_finished() ==> r is None,
            !self.spec_finished() ==> (r matches Some(e) && (e.spec_kind(), e.spec_elapsed()@ as int)
                == attempt_event(AttemptKind::Failure, self.spec_started(), now)),
    {
        self.complete(Outcome::Failure, now)
    }

    /// Completes an overloaded attempt at `now`.
    pub fn overloaded(self, now: Instant) -> (r: Option<AttemptEvent>)
        ensures
            self.spec_finished() ==> r is None,
            !self.spec_finished() ==> (r matches Some(e) && (e.spec_kind(), e.spec_elapsed()@ as int)
                == attempt_event(AttemptKind::Overloaded, self.spec_started(), now)),
    {
        self.complete(Outcome::Overloaded, now)
    }

    /// Cancels the attempt at `now`.
    pub fn cancel(self, now: Instant) -> (r: Option<AttemptEvent>)
        ensures
            self.spec_finished() ==> r is None,
            !self.spec_finished() ==> (r matches Some(e) && (e.spec_kind(), e.spec_elapsed()@ as int)
                == attempt_event(AttemptKind::Cancelled, self.spec_started(), now)),
    {
        self.complete(Outcome::Cancelled, now)
    }
}

} // verus!
