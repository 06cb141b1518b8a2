//! A verifier for Bulletproofs over rank-1 constraint systems on the Pallas curve.
//!
//! A caller commits to the inputs of a circuit, describes the circuit by
//! allocating multipliers and asserting linear constraints, and hands over a
//! proof. The verifier replays the transcript of the proof, flattens the
//! constraints under a challenge, and decides the proof by one multiscalar
//! multiplication. Many proofs can be decided at once.
//!
//! The arithmetic of the field and the curve is that of `ark-ff` and
//! `ark-ec`, the transcript is Merlin's; the functions that call them state
//! what is taken on trust of them. Everything else is proved.

pub mod curve;
pub mod errors;
pub mod field;
pub mod generators;
pub mod inner_product_proof;
pub mod limbs;
pub mod r1cs;
pub mod transcript;
pub mod util;
