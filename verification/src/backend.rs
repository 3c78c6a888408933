use vstd::prelude::*;

use crate::weight::Weight;

verus! {

/// Whether a backend may receive new work.
#[derive(Clone, Copy, Debug, PartialEq, Eq, Structural, Hash)]
pub enum Status {
    /// The backend may receive new work.
    Ready,
    /// The backend is being retired and receives no new work.
    Draining,
    /// The backend is known to be unavailable.
    Unavailable,
}

impl Default for Status {
    fn default() -> (s: Self)
        ensures
            s == Status::Ready,
    {
        Status::Ready
    }
}

impl Status {
    /// Returns whether the status permits new selections.
    pub fn is_selectable(self) -> (b: bool)
        ensures
            b <==> self == Status::Ready,
    {
        match self {
            Status::Ready => true,
            _ => false,
        }
    }
}

/// A backend as observed by a selection policy.
///
/// Applications may implement this trait for their own snapshot or handle
/// types. [`Backend`] is the batteries-included implementation.
pub trait Candidate {
    /// Stable identity used by keyed policies.
    type Id;

    /// Load metric used by load-aware policies.
    type Load;

    /// The identity, as a value.
    spec fn spec_id(&self) -> Self::Id;

    /// The load metric, as a value.
    spec fn spec_load(&self) -> Self::Load;

    /// The configured capacity weight.
    spec fn spec_weight(&self) -> Weight;

    /// The administrative and health status.
    spec fn spec_status(&self) -> Status;

    /// Whether this candidate may receive a new selection.
    spec fn spec_eligible(&self) -> bool;

    /// Returns the stable backend identity.
    fn id(&self) -> (r: &Self::Id)
        ensures
            *r == self.spec_id(),
    ;

    /// Returns the backend's configured capacity weight.
    fn weight(&self) -> (w: Weight)
        ensures
            w == self.spec_weight(),
    ;

    /// Returns the current load metric.
    fn load(&self) -> (r: &Self::Load)
        ensures
            *r == self.spec_load(),
    ;

    /// Returns the backend's administrative and health status.
    fn status(&self) -> (s: Status)
        ensures
            s == self.spec_status(),
    ;

    /// Returns whether this candidate may receive a new selection.
    fn is_eligible(&self) -> (b: bool)
        ensures
            b == self.spec_eligible(),
    ;
}

/// A concrete candidate with identity, user data, load, weight, and status.
#[derive(Clone, Debug, PartialEq, Eq)]
pub struct Backend<Id, Data = (), Load = ()> {
    id: Id,
    data: Data,
    load: Load,
    weight: Weight,
    status: Status,
}

impl<Id> Backend<Id> {
    /// Creates a ready backend with unit weight and no attached data or load.
    pub fn new(id: Id) -> (b: Self)
        ensures
            b.spec_id() == id,
            b.spec_weight()@ == 1,
            b.spec_status() == Status::Ready,
    {
        Backend { id, data: (), load: (), weight: Weight::one(), status: Status::Ready }
    }
}

impl<Id, Data, Load> Backend<Id, Data, Load> {
    /// The application-owned data.
    pub closed spec fn spec_data(&self) -> Data {
        self.data
    }

    /// Creates a backend from all of its parts.
    pub fn from_parts(id: Id, data: Data, load: Load, weight: Weight, status: Status) -> (b: Self)
        ensures
            b.spec_id() == id,
            b.spec_data() == data,
            b.spec_load() == load,
            b.spec_weight() == weight,
            b.spec_status() == status,
    {
        Backend { id, data, load, weight, status }
    }

    /// Returns the backend identity.
    pub fn id(&self) -> (r: &Id)
        ensures
            *r == self.spec_id(),
    {
        &self.id
    }

    /// Returns the application-owned backend data.
    pub fn data(&self) -> (r: &Data)
        ensures
            *r == self.spec_data(),
    {
        &self.data
    }

    /// Returns mutable access to the application-owned backend data.
    pub fn data_mut(&mut self) -> (r: &mut Data)
        ensures
            *r == old(self).spec_data(),
            final(self).spec_data() == *final(r),
            final(self).spec_id() == old(self).spec_id(),
            final(self).spec_load() == old(self).spec_load(),
            final(self).spec_weight() == old(self).spec_weight(),
            final(self).spec_status() == old(self).spec_status(),
    {
        &mut self.data
    }

    /// Returns the current load metric.
    pub fn load(&self) -> (r: &Load)
        ensures
            *r == self.spec_load(),
    {
        &self.load
    }

    /// Returns the configured capacity weight.
    pub fn weight(&self) -> (w: Weight)
        ensures
            w == self.spec_weight(),
    {
        self.weight
    }

    /// Returns the current status.
    pub fn status(&self) -> (s: Status)
        ensures
            s == self.spec_status(),
    {
        self.status
    }

    /// Replaces the attached data, preserving the other fields.
    pub fn with_data<NewData>(self, data: NewData) -> (b: Backend<Id, NewData, Load>)
        ensures
            b.spec_id() == self.spec_id(),
            b.spec_data() == data,
            b.spec_load() == self.spec_load(),
            b.spec_weight() == self.spec_weight(),
            b.spec_status() == self.spec_status(),
    {
        Backend { id: self.id, data, load: self.load, weight: self.weight, status: self.status }
    }

    /// Replaces the load metric, preserving the other fields.
    pub fn with_load<NewLoad>(self, load: NewLoad) -> (b: Backend<Id, Data, NewLoad>)
        ensures
            b.spec_id() == self.spec_id(),
            b.spec_data() == self.spec_data(),
            b.spec_load() == load,
            b.spec_weight() == self.spec_weight(),
            b.spec_status() == self.spec_status(),
    {
        Backend { id: self.id, data: self.data, load, weight: self.weight, status: self.status }
    }

    /// Sets the configured capacity weight.
    pub fn with_weight(self, weight: Weight) -> (b: Self)
        ensures
            b.spec_id() == self.spec_id(),
            b.spec_data() == self.spec_data(),
            b.spec_load() == self.spec_load(),
            b.spec_weight() == weight,
            b.spec_status() == self.spec_status(),
    {
        let mut b = self;
        b.weight = weight;
        b
    }

    /// Sets the current status.
    pub fn with_status(self, status: Status) -> (b: Self)
        ensures
            b.spec_id() == self.spec_id(),
            b.spec_data() == self.spec_data(),
            b.spec_load() == self.spec_load(),
            b.spec_weight() == self.spec_weight(),
            b.spec_status() == status,
    {
        let mut b = self;
        b.status = status;
        b
    }

    /// Updates the load metric in place.
    pub fn set_load(&mut self, load: Load)
        ensures
            final(self).spec_id() == old(self).spec_id(),
            final(self).spec_data() == old(self).spec_data(),
            final(self).spec_load() == load,
            final(self).spec_weight() == old(self).spec_weight(),
            final(self).spec_status() == old(self).spec_status(),
    {
        self.load = load;
    }

    /// Updates the configured capacity weight in place.
    pub fn set_weight(&mut self, weight: Weight)
        ensures
            final(self).spec_id() == old(self).spec_id(),
            final(self).spec_data() == old(self).spec_data(),
            final(self).spec_load() == old(self).spec_load(),
            final(self).spec_weight() == weight,
            final(self).spec_status() == old(self).spec_status(),
    {
        self.weight = weight;
    }

    /// Updates the status in place.
    pub fn set_status(&mut self, status: Status)
        ensures
            final(self).spec_id() == old(self).spec_id(),
            final(self).spec_data() == old(self).spec_data(),
            final(self).spec_load() == old(self).spec_load(),
            final(self).spec_weight() == old(self).spec_weight(),
            final(self).spec_status() == status,
    {
        self.status = status;
    }

    /// Decomposes the backend into identity, data, load, weight, and status.
    pub fn into_parts(self) -> (r: (Id, Data, Load, Weight, Status))
        ensures
            r.0 == self.spec_id(),
            r.1 == self.spec_data(),
            r.2 == self.spec_load(),
            r.3 == self.spec_weight(),
            r.4 == self.spec_status(),
    {
        (self.id, self.data, self.load, self.weight, self.status)
    }
}

impl<Id, Data, Load> Candidate for Backend<Id, Data, Load> {
    type Id = Id;

    type Load = Load;

    closed spec fn spec_id(&self) -> Id {
        self.id
    }

    closed spec fn spec_load(&self) -> Load {
        self.load
    }

    closed spec fn spec_weight(&self) -> Weight {
        self.weight
    }

    closed spec fn spec_status(&self) -> Status {
        self.status
    }

    open spec fn spec_eligible(&self) -> bool {
        self.spec_status() == Status::Ready
    }

    fn id(&self) -> (r: &Id) {
        &self.id
    }

    fn weight(&self) -> (w: Weight) {
        self.weight
    }

    fn load(&self) -> (r: &Load) {
        &self.load
    }

    fn status(&self) -> (s: Status) {
        self.status
    }

    fn is_eligible(&self) -> (b: bool) {
        self.status.is_selectable()
    }
}

} // verus!
