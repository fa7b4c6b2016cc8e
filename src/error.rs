use vstd::prelude::*;

verus! {

/// The payments handed to the solver do not hold both a negative and a
/// positive amount.
#[derive(Debug, Clone, Copy, PartialEq, Eq, Structural)]
pub struct InvalidPaymentsError;

impl InvalidPaymentsError {
    /// The human-readable description of this error.
    pub fn message(&self) -> (r: &'static str)
        ensures
            r@ == "negative and positive payments are required"@,
    {
        "negative and positive payments are required"
    }
}

} // verus!
