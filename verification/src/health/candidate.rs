//! Composition of a backend candidate with a health signal.

use vstd::prelude::*;

use crate::backend::{Candidate, Status};
use crate::health::active::{ActiveHealthState, ActiveStatus, UnknownPolicy};
use crate::weight::Weight;

verus! {

/// A health source that can admit or exclude new selections.
///
/// A signal must answer consistently while one selection reads it.
pub trait HealthSignal {
    /// Whether the backend may currently receive a new attempt.
    spec fn spec_available(&self) -> bool;

    /// Returns whether the backend may currently receive a new attempt.
    fn is_available(&self) -> (b: bool)
        ensures
            b == self.spec_available(),
    ;
}

impl HealthSignal for ActiveHealthState {
    open spec fn spec_available(&self) -> bool {
        match self.spec_status() {
            ActiveStatus::Healthy => true,
            ActiveStatus::Unhealthy => false,
            ActiveStatus::Unknown => self.spec_config().spec_unknown_policy() == UnknownPolicy::Allow,
        }
    }

    fn is_available(&self) -> (b: bool) {
        ActiveHealthState::is_available(self)
    }
}

/// A backend candidate composed with a health signal.
#[derive(Clone, Debug)]
pub struct HealthChecked<Backend, Health> {
    backend: Backend,
    health: Health,
}

impl<Backend, Health> HealthChecked<Backend, Health> {
    /// The wrapped backend.
    pub closed spec fn spec_backend(&self) -> Backend {
        self.backend
    }

    /// The health signal.
    pub closed spec fn spec_health(&self) -> Health {
        self.health
    }

    /// Wraps a backend with a health signal.
    pub fn new(backend: Backend, health: Health) -> (c: Self)
        ensures
            c.spec_backend() == backend,
            c.spec_health() == health,
    {
        HealthChecked { backend, health }
    }

    /// Returns the wrapped backend.
    pub fn backend(&self) -> (b: &Backend)
        ensures
            *b == self.spec_backend(),
    {
        &self.backend
    }

    /// Returns the wrapped backend mutably.
    pub fn backend_mut(&mut self) -> (b: &mut Backend)
        ensures
            *b == old(self).spec_backend(),
            final(self).spec_backend() == *final(b),
            final(self).spec_health() == old(self).spec_health(),
    {
        &mut self.backend
    }

    /// Returns the health signal.
    pub fn health(&self) -> (h: &Health)
        ensures
            *h == self.spec_health(),
    {
        &self.health
    }

    /// Decomposes the wrapper into backend and health signal.
    pub fn into_parts(self) -> (r: (Backend, Health))
        ensures
            r.0 == self.spec_backend(),
            r.1 == self.spec_health(),
    {
        (self.backend, self.health)
    }
}

/// The status of a backend whose health signal says `available`: a ready
/// backend that its signal excludes is unavailable; any other status stands.
pub open spec fn checked_status(status: Status, available: bool) -> Status {
    if status == Status::Ready && !available {
        Status::Unavailable
    } else {
        status
    }
}

impl<Backend: Candidate, Health: HealthSignal> Candidate for HealthChecked<Backend, Health> {
    type Id = Backend::Id;

    type Load = Backend::Load;

    open spec fn spec_id(&self) -> Backend::Id {
        self.spec_backend().spec_id()
    }

    open spec fn spec_load(&self) -> Backend::Load {
        self.spec_backend().spec_load()
    }

    open spec fn spec_weight(&self) -> Weight {
        self.spec_backend().spec_weight()
    }

    open spec fn spec_status(&self) -> Status {
        checked_status(self.spec_backend().spec_status(), self.spec_health().spec_available())
    }

    open spec fn spec_eligible(&self) -> bool {
        self.spec_backend().spec_eligible() && self.spec_health().spec_available()
    }

    fn id(&self) -> (r: &Backend::Id) {
        self.backend.id()
    }

    fn weight(&self) -> (w: Weight) {
        self.backend.weight()
    }

    fn load(&self) -> (r: &Backend::Load) {
        self.backend.load()
    }

    fn status(&self) -> (s: Status) {
        let status = self.backend.status();
        if status.is_selectable() && !self.health.is_available() {
            Status::Unavailable
        } else {
            status
        }
    }

    fn is_eligible(&self) -> (b: bool) {
        self.backend.is_eligible() && self.health.is_available()
    }
}

/// An actively checked backend takes new attempts exactly when its check
/// allows: never once the check has found it unhealthy, whatever the unknown
/// policy; always once it has found it healthy; and before any verdict only
/// when the unknown policy allows.
pub proof fn lemma_active_health_gates_availability(state: ActiveHealthState)
    ensures
        state.spec_status() == ActiveStatus::Unhealthy ==> !state.spec_available(),
        state.spec_status() == ActiveStatus::Healthy ==> state.spec_available(),
        state.spec_status() == ActiveStatus::Unknown ==> (state.spec_available()
            <==> state.spec_config().spec_unknown_policy() == UnknownPolicy::Allow),
{
}

/// A backend whose active check has found it unhealthy is neither eligible
/// nor ready, whatever the backend itself reports, so no selection takes it;
/// one the check finds healthy keeps the backend's own eligibility and status.
pub proof fn lemma_unhealthy_checked_backend_is_excluded<Backend: Candidate>(
    candidate: HealthChecked<Backend, ActiveHealthState>,
)
    ensures
        candidate.spec_health().spec_status() == ActiveStatus::Unhealthy ==> {
            &&& !candidate.spec_eligible()
            &&& candidate.spec_status() != Status::Ready
        },
        candidate.spec_health().spec_status() == ActiveStatus::Healthy ==> {
            &&& candidate.spec_eligible() == candidate.spec_backend().spec_eligible()
            &&& candidate.spec_status() == candidate.spec_backend().spec_status()
        },
{
}

} // verus!
