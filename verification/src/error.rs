use vstd::prelude::*;

verus! {

/// Why a policy could not select a backend.
#[derive(Clone, Copy, Debug, PartialEq, Eq, Structural, Hash)]
pub enum PickError {
    /// The supplied candidate set was empty.
    Empty,
    /// Candidates were supplied, but none accepted new work.
    NoEligibleCandidates,
    /// Summing candidate weights exceeded the supported range.
    WeightOverflow,
    /// Two eligible candidates advertised the same stable identity.
    DuplicateIdentity,
    /// A policy's configured state or table limit cannot represent the
    /// candidate set.
    StateCapacityExceeded,
    /// Summing candidate load samples or the prospective request exceeded the
    /// supported range.
    LoadOverflow,
    /// A selected priority entered fail-closed panic mode.
    PanicRejected,
    /// Candidates reported conflicting metadata for one topology group.
    InconsistentTopology,
}

impl PickError {
    /// Describes the error in one sentence.
    pub fn message(&self) -> (m: String)
        ensures
            m@ == (match *self {
                PickError::Empty => "the candidate set is empty"@,
                PickError::NoEligibleCandidates => "no candidate is eligible to receive new work"@,
                PickError::WeightOverflow => "the total candidate weight overflowed u64"@,
                PickError::DuplicateIdentity => "eligible candidates must have unique stable identities"@,
                PickError::StateCapacityExceeded => "the candidate set exceeds the policy state capacity"@,
                PickError::LoadOverflow => "the total candidate load overflowed u64"@,
                PickError::PanicRejected => "the selected priority rejected traffic in panic"@,
                PickError::InconsistentTopology => "candidates reported inconsistent topology metadata"@,
            }),
    {
        match self {
            PickError::Empty => String::from_str("the candidate set is empty"),
            PickError::NoEligibleCandidates => String::from_str(
                "no candidate is eligible to receive new work",
            ),
            PickError::WeightOverflow => String::from_str("the total candidate weight overflowed u64"),
            PickError::DuplicateIdentity => String::from_str(
                "eligible candidates must have unique stable identities",
            ),
            PickError::StateCapacityExceeded => String::from_str(
                "the candidate set exceeds the policy state capacity",
            ),
            PickError::LoadOverflow => String::from_str("the total candidate load overflowed u64"),
            PickError::PanicRejected => String::from_str(
                "the selected priority rejected traffic in panic",
            ),
            PickError::InconsistentTopology => String::from_str(
                "candidates reported inconsistent topology metadata",
            ),
        }
    }
}

} // verus!
