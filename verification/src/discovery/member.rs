use vstd::prelude::*;

use std::sync::Arc;

use crate::backend::{Candidate, Status};
use crate::weight::Weight;

verus! {

/// Whether a discovered member accepts new work.
#[derive(Clone, Copy, Debug, PartialEq, Eq, Structural, Hash)]
pub enum Membership {
    /// The member may be selected according to its backend status.
    Active,
    /// The member finishes existing work but receives no new selections.
    Draining,
}

impl Default for Membership {
    fn default() -> (m: Self)
        ensures
            m == Membership::Active,
    {
        Membership::Active
    }
}

/// `Arc::clone`: another pointer to the same value.
#[verifier::external_body]
pub(crate) fn share<T>(value: &Arc<T>) -> (r: Arc<T>)
    ensures
        r == *value,
{
    Arc::clone(value)
}

/// A discovered member as published in a snapshot: its key, its backend,
/// and its membership state.
pub struct Discovered<Key, Backend> {
    key: Arc<Key>,
    backend: Arc<Backend>,
    membership: Membership,
}

impl<Key, Backend> Discovered<Key, Backend> {
    /// The member's key.
    pub closed spec fn spec_key(&self) -> Key {
        *self.key
    }

    /// The member's backend.
    pub closed spec fn spec_backend(&self) -> Backend {
        *self.backend
    }

    /// The member's membership state.
    pub closed spec fn spec_membership(&self) -> Membership {
        self.membership
    }

    /// Pairs a discovery key with its backend and membership state.
    pub fn new(key: Arc<Key>, backend: Arc<Backend>, membership: Membership) -> (d: Self)
        ensures
            d.spec_key() == *key,
            d.spec_backend() == *backend,
            d.spec_membership() == membership,
    {
        Discovered { key, backend, membership }
    }

    /// Returns the member's key.
    pub fn key(&self) -> (k: &Key)
        ensures
            *k == self.spec_key(),
    {
        &*self.key
    }

    /// Returns the member's backend.
    pub fn backend(&self) -> (b: &Backend)
        ensures
            *b == self.spec_backend(),
    {
        &*self.backend
    }

    /// Returns a shared pointer to the member's backend.
    pub fn backend_arc(&self) -> (b: Arc<Backend>)
        ensures
            *b == self.spec_backend(),
    {
        share(&self.backend)
    }

    /// Returns the member's membership state.
    pub fn membership(&self) -> (m: Membership)
        ensures
            m == self.spec_membership(),
    {
        self.membership
    }
}

impl<Key, Backend> Clone for Discovered<Key, Backend> {
    fn clone(&self) -> (d: Self)
        ensures
            d.spec_key() == self.spec_key(),
            d.spec_backend() == self.spec_backend(),
            d.spec_membership() == self.spec_membership(),
    {
        Discovered { key: share(&self.key), backend: share(&self.backend), membership: self.membership }
    }
}

impl<Key, Backend: Candidate> Candidate for Discovered<Key, Backend> {
    type Id = Key;

    type Load = Backend::Load;

    open spec fn spec_id(&self) -> Key {
        self.spec_key()
    }

    open spec fn spec_load(&self) -> Backend::Load {
        self.spec_backend().spec_load()
    }

    open spec fn spec_weight(&self) -> Weight {
        self.spec_backend().spec_weight()
    }

    /// A draining member reports [`Status::Draining`] whatever its backend
    /// reports.
    open spec fn spec_status(&self) -> Status {
        match self.spec_membership() {
            Membership::Active => self.spec_backend().spec_status(),
            Membership::Draining => Status::Draining,
        }
    }

    open spec fn spec_eligible(&self) -> bool {
        self.spec_membership() == Membership::Active && self.spec_backend().spec_eligible()
    }

    fn id(&self) -> (r: &Key) {
        self.key()
    }

    fn weight(&self) -> (w: Weight) {
        self.backend.weight()
    }

    fn load(&self) -> (r: &Backend::Load) {
        self.backend.load()
    }

    fn status(&self) -> (s: Status) {
        match self.membership {
            Membership::Active => self.backend.status(),
            Membership::Draining => Status::Draining,
        }
    }

    fn is_eligible(&self) -> (b: bool) {
        self.membership == Membership::Active && self.backend.is_eligible()
    }
}

} // verus!
