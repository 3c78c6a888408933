use vstd::prelude::*;

verus! {

/// The protocol-neutral result of one backend attempt.
///
/// Callers decide how transport and application errors map into these classes.
#[derive(Clone, Copy, Debug, PartialEq, Eq, Structural, Hash)]
pub enum Outcome {
    /// The backend successfully handled the attempt.
    Success,
    /// The backend failed the attempt.
    Failure,
    /// The backend explicitly indicated that it lacked capacity.
    Overloaded,
    /// The caller abandoned the attempt without a backend verdict.
    Cancelled,
}

impl Outcome {
    /// Returns whether the outcome is a backend-attributable failure.
    pub fn is_failure(self) -> (b: bool)
        ensures
            b <==> (self is Failure || self is Overloaded),
    {
        match self {
            Outcome::Failure | Outcome::Overloaded => true,
            _ => false,
        }
    }

    /// Returns whether the outcome should contribute a success-rate sample.
    ///
    /// Cancellation is excluded because it has no backend verdict.
    pub fn is_observation(self) -> (b: bool)
        ensures
            b <==> !(self is Cancelled),
    {
        match self {
            Outcome::Cancelled => false,
            _ => true,
        }
    }
}

} // verus!
