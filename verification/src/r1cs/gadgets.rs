//! The gadgets of the second phase that the library brings along.

use crate::curve::Fr;
use crate::errors::R1CSError;
use crate::r1cs::flatten::{variable_in_range, variable_known};
use crate::r1cs::linear_combination::{LinearCombination, Variable};
use crate::r1cs::verification::{ConstraintModel, RandomizedGadget, RandomizingVerifier};
use crate::transcript::challenge_scalar_of;
use vstd::prelude::*;
use vstd::string::StringSliceAdditionalSpecFns;

verus! {

/// The gadget of a circuit without gadgets: it leaves the constraint system
/// as it is. A verifier that is never handed one stays in one phase.
#[derive(Clone, Copy, Debug)]
pub struct NoGadget;

impl RandomizedGadget for NoGadget {
    open spec fn extension(&self, cs: ConstraintModel) -> (Result<(), R1CSError>, ConstraintModel) {
        (Ok(()), cs)
    }

    fn extend(&self, cs: &mut RandomizingVerifier) -> (r: Result<(), R1CSError>) {
        proof {
            crate::r1cs::verification::lemma_prefix_of_itself(cs@.log);
            crate::r1cs::verification::lemma_prefix_of_itself(cs@.constraints);
        }
        Ok(())
    }
}

/// Asserts that `e * first + second = 0` for a challenge `e` that is drawn
/// under the label `e` when the first phase is committed. Values that are
/// fixed before the challenge satisfy this only where both are zero.
#[derive(Clone, Copy, Debug)]
pub struct ScaledSum {
    pub first: Variable,
    pub second: Variable,
}

impl RandomizedGadget for ScaledSum {
    /// Where both variables exist, a challenge is drawn and one constraint
    /// added; where one does not, the gadget fails and the proof with it.
    open spec fn extension(&self, cs: ConstraintModel) -> (Result<(), R1CSError>, ConstraintModel) {
        if variable_in_range(self.first, cs.num_vars, cs.commitments.len()) && variable_in_range(
            self.second,
            cs.num_vars,
            cs.commitments.len(),
        ) {
            (
                Ok(()),
                cs.after_challenge("e".spec_bytes()).after_constrain(
                    seq![(self.first, challenge_scalar_of(cs.log, "e".spec_bytes())), (self.second, 1int)],
                ),
            )
        } else {
            (Err(R1CSError::VerificationError), cs)
        }
    }

    fn extend(&self, cs: &mut RandomizingVerifier) -> (r: Result<(), R1CSError>) {
        let n = cs.multipliers_len();
        let m = cs.commitments_len();
        if !variable_known(self.first, n, m) || !variable_known(self.second, n, m) {
            return Err(R1CSError::VerificationError);
        }
        let e = cs.challenge_scalar("e".as_bytes());
        let mut sum = LinearCombination::from_term(self.first, e);
        sum.push_term(self.second, Fr::one());
        proof {
            assert(sum@ =~= seq![(self.first, e@), (self.second, 1int)]);
            assert(cs@.extends(old(cs)@));
        }
        let ghost drawn = cs@;
        cs.constrain(sum);
        proof {
            assert(drawn.log.is_prefix_of(cs@.log));
            assert(old(cs)@.log.is_prefix_of(drawn.log));
            assert(old(cs)@.constraints.is_prefix_of(drawn.constraints));
        }
        Ok(())
    }
}

} // verus!
