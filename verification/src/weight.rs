use vstd::prelude::*;

verus! {

/// A positive backend capacity weight.
///
/// The unit is intentionally unspecified. Only relative weights within one
/// candidate set are meaningful.
#[derive(Clone, Copy, Debug, PartialEq, Eq, Hash, PartialOrd, Ord)]
pub struct Weight {
    value: u32,
}

/// Error returned when constructing a zero [`Weight`].
#[derive(Clone, Copy, Debug, PartialEq, Eq, Structural, Hash)]
pub struct InvalidWeight;

impl View for Weight {
    type V = u32;

    closed spec fn view(&self) -> u32 {
        self.value
    }
}

impl Weight {
    #[verifier::type_invariant]
    spec fn positive(self) -> bool {
        self.value > 0
    }

    /// Unit capacity weight.
    pub fn one() -> (w: Self)
        ensures
            w@ == 1,
    {
        Weight { value: 1 }
    }

    /// Creates a positive weight, or reports [`InvalidWeight`] for zero.
    pub fn new(value: u32) -> (r: Result<Self, InvalidWeight>)
        ensures
            value == 0 <==> r is Err,
            r matches Ok(w) ==> w@ == value,
    {
        if value == 0 {
            Err(InvalidWeight)
        } else {
            Ok(Weight { value })
        }
    }

    /// Returns the integer weight, which is never zero.
    pub fn get(self) -> (v: u32)
        ensures
            v == self@,
            v > 0,
    {
        proof {
            use_type_invariant(&self);
        }
        self.value
    }
}

impl Default for Weight {
    fn default() -> (w: Self)
        ensures
            w@ == 1,
    {
        Weight { value: 1 }
    }
}

impl InvalidWeight {
    /// Describes the error.
    pub fn message(&self) -> (m: String)
        ensures
            m@ == "a backend weight must be greater than zero"@,
    {
        String::from_str("a backend weight must be greater than zero")
    }
}

} // verus!
