use vstd::prelude::*;

use std::sync::Arc;

use super::event::{AttemptEvent, DecisionEvent, ReadinessFailure};

verus! {

/// Receives decision, attempt, and readiness events. Every method defaults
/// to ignoring the event.
pub trait Observer {
    /// Receives one policy decision.
    fn observe_decision(&self, event: DecisionEvent) {
    }

    /// Receives one finished backend attempt.
    fn observe_attempt(&self, event: AttemptEvent) {
    }

    /// Receives one readiness failure.
    fn observe_readiness_failure(&self, event: ReadinessFailure) {
    }
}

impl<O: Observer + ?Sized> Observer for &O {
    fn observe_decision(&self, event: DecisionEvent) {
        (**self).observe_decision(event);
    }

    fn observe_attempt(&self, event: AttemptEvent) {
        (**self).observe_attempt(event);
    }

    fn observe_readiness_failure(&self, event: ReadinessFailure) {
        (**self).observe_readiness_failure(event);
    }
}

impl<O: Observer + ?Sized> Observer for Arc<O> {
    fn observe_decision(&self, event: DecisionEvent) {
        (**self).observe_decision(event);
    }

    fn observe_attempt(&self, event: AttemptEvent) {
        (**self).observe_attempt(event);
    }

    fn observe_readiness_failure(&self, event: ReadinessFailure) {
        (**self).observe_readiness_failure(event);
    }
}

/// Ignores every event.
#[derive(Clone, Copy, Debug, Default, PartialEq, Eq, Hash)]
pub struct NoopObserver;

impl Observer for NoopObserver {
}

/// Sends every event to two observers, first to `first`.
#[derive(Clone, Copy, Debug, PartialEq, Eq, Hash)]
pub struct Fanout<A, B> {
    first: A,
    second: B,
}

impl<A, B> Fanout<A, B> {
    /// The first observer.
    pub closed spec fn spec_first(&self) -> A {
        self.first
    }

    /// The second observer.
    pub closed spec fn spec_second(&self) -> B {
        self.second
    }

    /// Combines two observers.
    pub fn new(first: A, second: B) -> (f: Self)
        ensures
            f.spec_first() == first,
            f.spec_second() == second,
    {
        Fanout { first, second }
    }

    /// Returns the first observer.
    pub fn first(&self) -> (a: &A)
        ensures
            *a == self.spec_first(),
    {
        &self.first
    }

    /// Returns the second observer.
    pub fn second(&self) -> (b: &B)
        ensures
            *b == self.spec_second(),
    {
        &self.second
    }

    /// Splits the observers.
    pub fn into_parts(self) -> (r: (A, B))
        ensures
            r.0 == self.spec_first(),
            r.1 == self.spec_second(),
    {
        (self.first, self.second)
    }
}

impl<A: Observer, B: Observer> Observer for Fanout<A, B> {
    fn observe_decision(&self, event: DecisionEvent) {
        self.first.observe_decision(event);
        self.second.observe_decision(event);
    }

    fn observe_attempt(&self, event: AttemptEvent) {
        self.first.observe_attempt(event);
        self.second.observe_attempt(event);
    }

    fn observe_readiness_failure(&self, event: ReadinessFailure) {
        self.first.observe_readiness_failure(event);
        self.second.observe_readiness_failure(event);
    }
}

} // verus!
