use vstd::prelude::*;

use crate::error::PickError;
use crate::policy::Policy;
use crate::selection::Selection;

use super::event::{DecisionEvent, ReadinessFailure};
use super::observer::Observer;

verus! {

/// A policy that reports every decision to an observer.
#[derive(Clone, Copy, Debug, PartialEq, Eq, Hash)]
pub struct ObservedPolicy<P, O> {
    policy: P,
    observer: O,
}

impl<P, O> ObservedPolicy<P, O> {
    /// The wrapped policy.
    pub closed spec fn spec_policy(&self) -> P {
        self.policy
    }

    /// The observer.
    pub closed spec fn spec_observer(&self) -> O {
        self.observer
    }

    /// Wraps a policy.
    pub fn new(policy: P, observer: O) -> (p: Self)
        ensures
            p.spec_policy() == policy,
            p.spec_observer() == observer,
    {
        ObservedPolicy { policy, observer }
    }

    /// Returns the wrapped policy.
    pub fn policy(&self) -> (p: &P)
        ensures
            *p == self.spec_policy(),
    {
        &self.policy
    }

    /// Returns the wrapped policy mutably.
    pub fn policy_mut(&mut self) -> (p: &mut P)
        ensures
            *p == old(self).spec_policy(),
            final(self).spec_policy() == *final(p),
            final(self).spec_observer() == old(self).spec_observer(),
    {
        &mut self.policy
    }

    /// Returns the observer.
    pub fn observer(&self) -> (o: &O)
        ensures
            *o == self.spec_observer(),
    {
        &self.observer
    }

    /// Splits the policy and the observer.
    pub fn into_parts(self) -> (r: (P, O))
        ensures
            r.0 == self.spec_policy(),
            r.1 == self.spec_observer(),
    {
        (self.policy, self.observer)
    }
}

impl<P: Policy<C, Context>, O: Observer, C, Context: ?Sized> Policy<C, Context> for ObservedPolicy<P, O> {
    /// The wrapped policy's outcome, with the observer kept.
    open spec fn pick_outcome(
        &self,
        after: &Self,
        candidates: &[C],
        context: &Context,
        r: Result<Selection, PickError>,
    ) -> bool {
        &&& self.spec_policy().pick_outcome(&after.spec_policy(), candidates, context, r)
        &&& after.spec_observer() == self.spec_observer()
    }

    /// Selects with the wrapped policy and reports the decision.
    fn pick(&mut self, candidates: &[C], context: &Context) -> (r: Result<Selection, PickError>) {
        let result = self.policy.pick(candidates, context);
        self.observer.observe_decision(DecisionEvent::from_result(candidates.len(), &result));
        result
    }
}

/// A policy wrapper that marks each decision for tracing; it selects exactly
/// as the wrapped policy does.
#[derive(Clone, Copy, Debug, PartialEq, Eq, Hash)]
pub struct TracedPolicy<P> {
    policy: P,
}

impl<P> TracedPolicy<P> {
    /// The wrapped policy.
    pub closed spec fn spec_policy(&self) -> P {
        self.policy
    }

    /// Wraps a policy.
    pub fn new(policy: P) -> (p: Self)
        ensures
            p.spec_policy() == policy,
    {
        TracedPolicy { policy }
    }

    /// Returns the wrapped policy.
    pub fn policy(&self) -> (p: &P)
        ensures
            *p == self.spec_policy(),
    {
        &self.policy
    }

    /// Returns the wrapped policy mutably.
    pub fn policy_mut(&mut self) -> (p: &mut P)
        ensures
            *p == old(self).spec_policy(),
            final(self).spec_policy() == *final(p),
    {
        &mut self.policy
    }

    /// Unwraps the policy.
    pub fn into_inner(self) -> (p: P)
        ensures
            p == self.spec_policy(),
    {
        self.policy
    }
}

impl<P: Policy<C, Context>, C, Context: ?Sized> Policy<C, Context> for TracedPolicy<P> {
    /// The wrapped policy's outcome.
    open spec fn pick_outcome(
        &self,
        after: &Self,
        candidates: &[C],
        context: &Context,
        r: Result<Selection, PickError>,
    ) -> bool {
        self.spec_policy().pick_outcome(&after.spec_policy(), candidates, context, r)
    }

    /// Selects with the wrapped policy.
    fn pick(&mut self, candidates: &[C], context: &Context) -> (r: Result<Selection, PickError>) {
        self.policy.pick(candidates, context)
    }
}

/// Reports endpoint readiness failures to an observer.
#[derive(Clone, Copy, Debug, PartialEq, Eq, Hash)]
pub struct TowerObserver<O> {
    observer: O,
}

impl<O> TowerObserver<O> {
    /// The observer.
    pub closed spec fn spec_observer(&self) -> O {
        self.observer
    }

    /// Wraps an observer.
    pub fn new(observer: O) -> (t: Self)
        ensures
            t.spec_observer() == observer,
    {
        TowerObserver { observer }
    }

    /// Returns the observer.
    pub fn observer(&self) -> (o: &O)
        ensures
            *o == self.spec_observer(),
    {
        &self.observer
    }

    /// Unwraps the observer.
    pub fn into_inner(self) -> (o: O)
        ensures
            o == self.spec_observer(),
    {
        self.observer
    }
}

impl<O: Observer> TowerObserver<O> {
    /// Reports that the endpoint at `endpoint` failed readiness; the error
    /// itself is not retained.
    pub fn observe<E: ?Sized>(&mut self, endpoint: usize, error: &E)
        ensures
            final(self).spec_observer() == old(self).spec_observer(),
    {
        self.observer.observe_readiness_failure(ReadinessFailure::new(endpoint));
    }
}

} // verus!
