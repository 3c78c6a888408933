use vstd::prelude::*;

use crate::error::PickError;
use crate::feedback::Outcome;
use crate::selection::Selection;
use crate::time::Duration;

verus! {

/// The outcome class of one policy decision.
#[derive(Clone, Copy, Debug, PartialEq, Eq, Structural, Hash)]
pub enum DecisionKind {
    /// A candidate was selected.
    Selected,
    /// The candidate set was empty.
    Empty,
    /// No candidate was eligible.
    NoEligibleCandidates,
    /// Weights overflowed.
    WeightOverflow,
    /// Two eligible candidates shared an identity.
    DuplicateIdentity,
    /// The policy's state bound was exceeded.
    StateCapacityExceeded,
    /// Any other failure.
    OtherFailure,
    /// Loads overflowed.
    LoadOverflow,
    /// Panic mode rejected the request.
    PanicRejected,
    /// Topology metadata conflicted.
    InconsistentTopology,
}

/// The number of decision kinds.
pub const DECISION_KIND_COUNT: usize = 10;

/// The position of a decision kind in [`DecisionKind::all`].
pub open spec fn decision_slot(kind: DecisionKind) -> int {
    match kind {
        DecisionKind::Selected => 0,
        DecisionKind::Empty => 1,
        DecisionKind::NoEligibleCandidates => 2,
        DecisionKind::WeightOverflow => 3,
        DecisionKind::DuplicateIdentity => 4,
        DecisionKind::StateCapacityExceeded => 5,
        DecisionKind::OtherFailure => 6,
        DecisionKind::LoadOverflow => 7,
        DecisionKind::PanicRejected => 8,
        DecisionKind::InconsistentTopology => 9,
    }
}

/// The decision kind a selection error maps to.
pub open spec fn spec_kind_of_error(error: PickError) -> DecisionKind {
    match error {
        PickError::Empty => DecisionKind::Empty,
        PickError::NoEligibleCandidates => DecisionKind::NoEligibleCandidates,
        PickError::WeightOverflow => DecisionKind::WeightOverflow,
        PickError::LoadOverflow => DecisionKind::LoadOverflow,
        PickError::DuplicateIdentity => DecisionKind::DuplicateIdentity,
        PickError::StateCapacityExceeded => DecisionKind::StateCapacityExceeded,
        PickError::PanicRejected => DecisionKind::PanicRejected,
        PickError::InconsistentTopology => DecisionKind::InconsistentTopology,
    }
}

impl DecisionKind {
    /// Every decision kind, in counter order.
    pub fn all() -> (kinds: [DecisionKind; 10])
        ensures
            forall|i: int| 0 <= i < 10 ==> decision_slot(#[trigger] kinds@[i]) == i,
    {
        [
            DecisionKind::Selected,
            DecisionKind::Empty,
            DecisionKind::NoEligibleCandidates,
            DecisionKind::WeightOverflow,
            DecisionKind::DuplicateIdentity,
            DecisionKind::StateCapacityExceeded,
            DecisionKind::OtherFailure,
            DecisionKind::LoadOverflow,
            DecisionKind::PanicRejected,
            DecisionKind::InconsistentTopology,
        ]
    }

    /// Returns the kind's counter position.
    pub fn index(self) -> (i: usize)
        ensures
            i == decision_slot(self),
    {
        match self {
            DecisionKind::Selected => 0,
            DecisionKind::Empty => 1,
            DecisionKind::NoEligibleCandidates => 2,
            DecisionKind::WeightOverflow => 3,
            DecisionKind::DuplicateIdentity => 4,
            DecisionKind::StateCapacityExceeded => 5,
            DecisionKind::OtherFailure => 6,
            DecisionKind::LoadOverflow => 7,
            DecisionKind::PanicRejected => 8,
            DecisionKind::InconsistentTopology => 9,
        }
    }

    /// Returns the stable lower-case label of the kind.
    pub fn as_str(self) -> (s: &'static str)
        ensures
            s@ == (match self {
                DecisionKind::Selected => "selected"@,
                DecisionKind::Empty => "empty"@,
                DecisionKind::NoEligibleCandidates => "no_eligible_candidates"@,
                DecisionKind::WeightOverflow => "weight_overflow"@,
                DecisionKind::LoadOverflow => "load_overflow"@,
                DecisionKind::DuplicateIdentity => "duplicate_identity"@,
                DecisionKind::StateCapacityExceeded => "state_capacity_exceeded"@,
                DecisionKind::OtherFailure => "other_failure"@,
                DecisionKind::PanicRejected => "panic_rejected"@,
                DecisionKind::InconsistentTopology => "inconsistent_topology"@,
            }),
    {
        match self {
            DecisionKind::Selected => "selected",
            DecisionKind::Empty => "empty",
            DecisionKind::NoEligibleCandidates => "no_eligible_candidates",
            DecisionKind::WeightOverflow => "weight_overflow",
            DecisionKind::LoadOverflow => "load_overflow",
            DecisionKind::DuplicateIdentity => "duplicate_identity",
            DecisionKind::StateCapacityExceeded => "state_capacity_exceeded",
            DecisionKind::OtherFailure => "other_failure",
            DecisionKind::PanicRejected => "panic_rejected",
            DecisionKind::InconsistentTopology => "inconsistent_topology",
        }
    }

    /// Classifies a selection error.
    pub fn from_error(error: PickError) -> (k: DecisionKind)
        ensures
            k == spec_kind_of_error(error),
    {
        match error {
            PickError::Empty => DecisionKind::Empty,
            PickError::NoEligibleCandidates => DecisionKind::NoEligibleCandidates,
            PickError::WeightOverflow => DecisionKind::WeightOverflow,
            PickError::LoadOverflow => DecisionKind::LoadOverflow,
            PickError::DuplicateIdentity => DecisionKind::DuplicateIdentity,
            PickError::StateCapacityExceeded => DecisionKind::StateCapacityExceeded,
            PickError::PanicRejected => DecisionKind::PanicRejected,
            PickError::InconsistentTopology => DecisionKind::InconsistentTopology,
        }
    }
}

/// One policy decision: its kind, the candidate count, and the selection.
#[derive(Clone, Copy, Debug, PartialEq, Eq, Structural, Hash)]
pub struct DecisionEvent {
    kind: DecisionKind,
    candidate_count: usize,
    selected_index: Option<usize>,
}

impl DecisionEvent {
    /// The decision kind.
    pub closed spec fn spec_kind(self) -> DecisionKind {
        self.kind
    }

    /// How many candidates the policy saw.
    pub closed spec fn spec_candidate_count(self) -> usize {
        self.candidate_count
    }

    /// The selected index, if any.
    pub closed spec fn spec_selected_index(self) -> Option<usize> {
        self.selected_index
    }

    /// Describes the result of a decision over `candidate_count` candidates.
    pub fn from_result(candidate_count: usize, result: &Result<Selection, PickError>) -> (e: Self)
        ensures
            e.spec_candidate_count() == candidate_count,
            match *result {
                Ok(s) => e.spec_kind() == DecisionKind::Selected && e.spec_selected_index() == Some(s@),
                Err(err) => e.spec_kind() == spec_kind_of_error(err) && e.spec_selected_index() is None,
            },
    {
        match result {
            Ok(selection) => DecisionEvent {
                kind: DecisionKind::Selected,
                candidate_count,
                selected_index: Some(selection.index()),
            },
            Err(error) => DecisionEvent {
                kind: DecisionKind::from_error(*error),
                candidate_count,
                selected_index: None,
            },
        }
    }

    /// Creates an event from its parts.
    pub fn new(kind: DecisionKind, candidate_count: usize, selected_index: Option<usize>) -> (e: Self)
        ensures
            e.spec_kind() == kind,
            e.spec_candidate_count() == candidate_count,
            e.spec_selected_index() == selected_index,
    {
        DecisionEvent { kind, candidate_count, selected_index }
    }

    /// Returns the decision kind.
    pub fn kind(self) -> (k: DecisionKind)
        ensures
            k == self.spec_kind(),
    {
        self.kind
    }

    /// Returns how many candidates the policy saw.
    pub fn candidate_count(self) -> (n: usize)
        ensures
            n == self.spec_candidate_count(),
    {
        self.candidate_count
    }

    /// Returns the selected index, if any.
    pub fn selected_index(self) -> (i: Option<usize>)
        ensures
            i == self.spec_selected_index(),
    {
        self.selected_index
    }
}

/// How one backend attempt ended.
#[derive(Clone, Copy, Debug, PartialEq, Eq, Structural, Hash)]
pub enum AttemptKind {
    /// The backend answered successfully.
    Success,
    /// The backend failed.
    Failure,
    /// The backend shed load.
    Overloaded,
    /// The attempt was abandoned.
    Cancelled,
    /// Any other outcome.
    Other,
}

/// The number of attempt kinds.
pub const ATTEMPT_KIND_COUNT: usize = 5;

/// The position of an attempt kind in [`AttemptKind::all`].
pub open spec fn attempt_slot(kind: AttemptKind) -> int {
    match kind {
        AttemptKind::Success => 0,
        AttemptKind::Failure => 1,
        AttemptKind::Overloaded => 2,
        AttemptKind::Cancelled => 3,
        AttemptKind::Other => 4,
    }
}

impl AttemptKind {
    /// Every attempt kind, in counter order.
    pub fn all() -> (kinds: [AttemptKind; 5])
        ensures
            forall|i: int| 0 <= i < 5 ==> attempt_slot(#[trigger] kinds@[i]) == i,
    {
        [AttemptKind::Success, AttemptKind::Failure, AttemptKind::Overloaded, AttemptKind::Cancelled, AttemptKind::Other]
    }

    /// Returns the kind's counter position.
    pub fn index(self) -> (i: usize)
        ensures
            i == attempt_slot(self),
    {
        match self {
            AttemptKind::Success => 0,
            AttemptKind::Failure => 1,
            AttemptKind::Overloaded => 2,
            AttemptKind::Cancelled => 3,
            AttemptKind::Other => 4,
        }
    }

    /// Returns the stable lower-case label of the kind.
    pub fn as_str(self) -> (s: &'static str)
        ensures
            s@ == (match self {
                AttemptKind::Success => "success"@,
                AttemptKind::Failure => "failure"@,
                AttemptKind::Overloaded => "overloaded"@,
                AttemptKind::Cancelled => "cancelled"@,
                AttemptKind::Other => "other"@,
            }),
    {
        match self {
            AttemptKind::Success => "success",
            AttemptKind::Failure => "failure",
            AttemptKind::Overloaded => "overloaded",
            AttemptKind::Cancelled => "cancelled",
            AttemptKind::Other => "other",
        }
    }

    /// Classifies a request outcome.
    pub fn from_outcome(outcome: Outcome) -> (k: AttemptKind)
        ensures
            outcome == Outcome::Success ==> k == AttemptKind::Success,
            outcome == Outcome::Failure ==> k == AttemptKind::Failure,
            outcome == Outcome::Overloaded ==> k == AttemptKind::Overloaded,
            outcome == Outcome::Cancelled ==> k == AttemptKind::Cancelled,
    {
        match outcome {
            Outcome::Success => AttemptKind::Success,
            Outcome::Failure => AttemptKind::Failure,
            Outcome::Overloaded => AttemptKind::Overloaded,
            Outcome::Cancelled => AttemptKind::Cancelled,
        }
    }
}

/// One finished backend attempt and how long it took.
#[derive(Clone, Copy, Debug, PartialEq, Eq, Structural, Hash)]
pub struct AttemptEvent {
    kind: AttemptKind,
    elapsed: Duration,
}

impl AttemptEvent {
    /// How the attempt ended.
    pub closed spec fn spec_kind(self) -> AttemptKind {
        self.kind
    }

    /// How long the attempt took.
    pub closed spec fn spec_elapsed(self) -> Duration {
        self.elapsed
    }

    /// Creates an event.
    pub fn new(kind: AttemptKind, elapsed: Duration) -> (e: Self)
        ensures
            e.spec_kind() == kind,
            e.spec_elapsed() == elapsed,
    {
        AttemptEvent { kind, elapsed }
    }

    /// Returns how the attempt ended.
    pub fn kind(self) -> (k: AttemptKind)
        ensures
            k == self.spec_kind(),
    {
        self.kind
    }

    /// Returns how long the attempt took.
    pub fn elapsed(self) -> (d: Duration)
        ensures
            d == self.spec_elapsed(),
    {
        self.elapsed
    }
}

/// An endpoint failed its readiness check.
#[derive(Clone, Copy, Debug, PartialEq, Eq, Structural, Hash)]
pub struct ReadinessFailure {
    endpoint_index: usize,
}

impl ReadinessFailure {
    /// The failing endpoint's index.
    pub closed spec fn spec_endpoint_index(self) -> usize {
        self.endpoint_index
    }

    /// Creates an event.
    pub fn new(endpoint_index: usize) -> (e: Self)
        ensures
            e.spec_endpoint_index() == endpoint_index,
    {
        ReadinessFailure { endpoint_index }
    }

    /// Returns the failing endpoint's index.
    pub fn endpoint_index(self) -> (i: usize)
        ensures
            i == self.spec_endpoint_index(),
    {
        self.endpoint_index
    }
}

} // verus!
