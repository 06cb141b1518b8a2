//! The proof that committed values satisfy a circuit.

#![allow(non_snake_case)]

use crate::curve::{points_model, Fr, G1Affine, PointModel};
use crate::generators::append_prefix;
use crate::inner_product_proof::InnerProductProof;
use vstd::prelude::*;

verus! {

/// A proof as a prover sends it.
#[derive(Clone, Debug)]
pub struct R1CSProof {
    /// Commitment to the inputs of the first-phase multipliers.
    pub A_I1: G1Affine,
    /// Commitment to the outputs of the first-phase multipliers.
    pub A_O1: G1Affine,
    /// Commitment to the blinding factors of the first phase.
    pub S1: G1Affine,
    /// Commitment to the inputs of the second-phase multipliers.
    pub A_I2: G1Affine,
    /// Commitment to the outputs of the second-phase multipliers.
    pub A_O2: G1Affine,
    /// Commitment to the blinding factors of the second phase.
    pub S2: G1Affine,
    /// Commitment to the coefficient of `x` in `t(x)`.
    pub T_1: G1Affine,
    /// Commitment to the coefficient of `x^3` in `t(x)`.
    pub T_3: G1Affine,
    /// Commitment to the coefficient of `x^4` in `t(x)`.
    pub T_4: G1Affine,
    /// Commitment to the coefficient of `x^5` in `t(x)`.
    pub T_5: G1Affine,
    /// Commitment to the coefficient of `x^6` in `t(x)`.
    pub T_6: G1Affine,
    /// The value of `t(x)` at the challenge.
    pub t_x: Fr,
    /// The blinding factor of the commitment to `t(x)`.
    pub t_x_blinding: Fr,
    /// The blinding factor of the commitment to the inner-product arguments.
    pub e_blinding: Fr,
    /// The proof of the inner product.
    pub ipp_proof: InnerProductProof,
}

/// A proof as the contracts see it.
pub struct ProofModel {
    pub A_I1: PointModel,
    pub A_O1: PointModel,
    pub S1: PointModel,
    pub A_I2: PointModel,
    pub A_O2: PointModel,
    pub S2: PointModel,
    pub T_1: PointModel,
    pub T_3: PointModel,
    pub T_4: PointModel,
    pub T_5: PointModel,
    pub T_6: PointModel,
    pub t_x: int,
    pub t_x_blinding: int,
    pub e_blinding: int,
    pub L: Seq<PointModel>,
    pub R: Seq<PointModel>,
    pub a: int,
    pub b: int,
}

impl View for R1CSProof {
    type V = ProofModel;

    open spec fn view(&self) -> ProofModel {
        ProofModel {
            A_I1: self.A_I1@,
            A_O1: self.A_O1@,
            S1: self.S1@,
            A_I2: self.A_I2@,
            A_O2: self.A_O2@,
            S2: self.S2@,
            T_1: self.T_1@,
            T_3: self.T_3@,
            T_4: self.T_4@,
            T_5: self.T_5@,
            T_6: self.T_6@,
            t_x: self.t_x@,
            t_x_blinding: self.t_x_blinding@,
            e_blinding: self.e_blinding@,
            L: points_model(self.ipp_proof.L_vec@),
            R: points_model(self.ipp_proof.R_vec@),
            a: self.ipp_proof.a@,
            b: self.ipp_proof.b@,
        }
    }
}

/// The points that a proof brings into its verification, in the order of
/// their scalars: the six commitments to the multipliers, the commitments to
/// the inputs, the five commitments to `t`, and the points of the
/// inner-product argument.
pub open spec fn proof_points(p: ProofModel, commitments: Seq<PointModel>) -> Seq<PointModel> {
    seq![p.A_I1, p.A_O1, p.S1, p.A_I2, p.A_O2, p.S2] + commitments + seq![
        p.T_1,
        p.T_3,
        p.T_4,
        p.T_5,
        p.T_6,
    ] + p.L + p.R
}

impl R1CSProof {
    /// Appends to `points` the points that the proof brings into its
    /// verification, with the commitments to the inputs in their place.
    pub fn append_points(&self, commitments: &Vec<G1Affine>, points: &mut Vec<G1Affine>)
        ensures
            points_model(final(points)@) == points_model(old(points)@) + proof_points(
                self@,
                points_model(commitments@),
            ),
    {
        let ghost before = points@;
        let ghost p = self@;
        points.push(self.A_I1);
        points.push(self.A_O1);
        points.push(self.S1);
        points.push(self.A_I2);
        points.push(self.A_O2);
        points.push(self.S2);
        assert(points_model(points@) =~= points_model(before) + seq![
            p.A_I1,
            p.A_O1,
            p.S1,
            p.A_I2,
            p.A_O2,
            p.S2,
        ]);
        append_prefix(commitments, commitments.len(), points);
        assert(points_model(commitments@).take(commitments@.len() as int) =~= points_model(commitments@));
        let ghost with_v = points@;
        points.push(self.T_1);
        points.push(self.T_3);
        points.push(self.T_4);
        points.push(self.T_5);
        points.push(self.T_6);
        assert(points_model(points@) =~= points_model(with_v) + seq![p.T_1, p.T_3, p.T_4, p.T_5, p.T_6]);
        append_prefix(&self.ipp_proof.L_vec, self.ipp_proof.L_vec.len(), points);
        append_prefix(&self.ipp_proof.R_vec, self.ipp_proof.R_vec.len(), points);
        assert(p.L.take(p.L.len() as int) =~= p.L);
        assert(p.R.take(p.R.len() as int) =~= p.R);
        assert(points_model(points@) =~= points_model(before) + proof_points(
            p,
            points_model(commitments@),
        ));
    }
}

} // verus!
