//! The ways in which assembling or checking a proof can fail.

use vstd::prelude::*;

verus! {

/// An error of the constraint-system verifier.
#[derive(Clone, Debug, PartialEq, Eq)]
pub enum R1CSError {
    /// The generators cover fewer multipliers than the padded circuit has.
    InvalidGeneratorsLength,
    /// The proof does not verify.
    VerificationError,
    /// A gadget refused to extend the constraint system.
    GadgetError { description: String },
}

impl R1CSError {
    /// A sentence that names the error.
    pub fn message(&self) -> (r: String)
        ensures
            self is InvalidGeneratorsLength ==> r@ == "Invalid generators size, too few generators for proof"@,
            self is VerificationError ==> r@ == "R1CSProof did not verify correctly."@,
            self is GadgetError ==> r@ == self->description@,
    {
        match self {
            R1CSError::InvalidGeneratorsLength => {
                "Invalid generators size, too few generators for proof".to_owned()
            },
            R1CSError::VerificationError => "R1CSProof did not verify correctly.".to_owned(),
            R1CSError::GadgetError { description } => description.clone(),
        }
    }
}

} // verus!
