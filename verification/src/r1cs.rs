//! Rank-1 constraint systems: the circuit a caller describes, the proof that
//! the committed values satisfy it, and the verifier that checks the proof.

pub mod linear_combination;
pub mod flatten;
pub mod linearity;
pub mod r1cs_proof;
pub mod assembly;
pub mod verification;
pub mod batch;
pub mod gadgets;
