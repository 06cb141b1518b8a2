//! The verifier's side of a constraint system: the circuit is described in
//! two phases, flattened under a challenge, and checked against a proof by
//! one multiscalar multiplication.

#![allow(non_snake_case)]

use crate::curve::{multi_scalar_mul, msm_sum, points_model, scalars_model, Fr, G1Affine, PointModel};
use crate::errors::R1CSError;
use crate::field::fneg;
use crate::generators::{BulletproofGens, PedersenGens};
use crate::inner_product_proof::{
    inverse_squares, ipp_accepts, round_challenges, round_log, s_vector, squares,
};
use crate::r1cs::assembly::{
    assemble_scalars, scalar_vector, Challenges, ChallengesModel, IppScalars, IppScalarsModel,
    RevealedModel, Weights, WeightsModel,
};
use crate::r1cs::flatten::{
    constraints_in_range, constraints_known, constraints_model, flat_committed, flat_constant, flat_left, flat_output,
    flat_right, flatten, terms_in_range, variable_in_range,
};
use crate::r1cs::linear_combination::{LinearCombination, Terms, Variable};
use crate::r1cs::r1cs_proof::{proof_points, ProofModel, R1CSProof};
use crate::transcript::{
    append_point, append_scalar, append_u64, challenge_scalar, challenge_scalar_of, fork,
    r1cs_1phase_domain_sep, r1cs_2phase_domain_sep, r1cs_domain_sep, validate_and_append_point,
    ProofTranscript, with_challenge, with_innerproduct_domain_sep, with_message,
    with_point, with_scalar, with_u64, TranscriptEvent,
};
use crate::util::{checked_next_power_of_two, next_power_of_two};
use vstd::prelude::*;
use vstd::string::StringSliceAdditionalSpecFns;

verus! {

/// A constraint system as the contracts see it.
pub struct ConstraintModel {
    /// What the transcript has absorbed.
    pub log: Seq<TranscriptEvent>,
    /// The sums that are asserted to be zero, in the order of their assertion.
    pub constraints: Seq<Terms>,
    /// The number of multipliers.
    pub num_vars: nat,
    /// The commitments to the inputs, in the order of their commitment.
    pub commitments: Seq<PointModel>,
    /// The multiplier whose left wire is allocated and whose right wire is not, if any.
    pub pending_multiplier: Option<nat>,
}

impl ConstraintModel {
    /// Every variable of every constraint exists, and so does the half-allocated multiplier.
    pub open spec fn well_formed(self) -> bool {
        &&& constraints_in_range(self.constraints, self.num_vars, self.commitments.len())
        &&& self.num_vars <= usize::MAX
        &&& self.commitments.len() <= usize::MAX
        &&& self.pending_multiplier matches Some(i) ==> i < self.num_vars
    }

    /// Whether `self` is `before` grown: the same commitments, and nothing
    /// of the log, the constraints or the multipliers taken back.
    pub open spec fn extends(self, before: ConstraintModel) -> bool {
        &&& before.log.is_prefix_of(self.log)
        &&& before.constraints.is_prefix_of(self.constraints)
        &&& before.num_vars <= self.num_vars
        &&& before.commitments == self.commitments
    }

    /// The system after a commitment.
    pub open spec fn after_commit(self, commitment: PointModel) -> ConstraintModel {
        ConstraintModel {
            commitments: self.commitments.push(commitment),
            log: with_point(self.log, "V".spec_bytes(), commitment),
            ..self
        }
    }

    /// The system after a multiplication of `left` by `right`: a fresh multiplier,
    /// whose left wire is constrained to `left` and whose right wire to `right`.
    pub open spec fn after_multiply(self, left: Terms, right: Terms) -> ConstraintModel {
        ConstraintModel {
            num_vars: self.num_vars + 1,
            constraints: self.constraints.push(
                left.push((Variable::MultiplierLeft(self.num_vars as usize), fneg(1))),
            ).push(right.push((Variable::MultiplierRight(self.num_vars as usize), fneg(1)))),
            ..self
        }
    }

    /// The three wires of the multiplier that comes next.
    pub open spec fn next_multiplier(self) -> (Variable, Variable, Variable) {
        (
            Variable::MultiplierLeft(self.num_vars as usize),
            Variable::MultiplierRight(self.num_vars as usize),
            Variable::MultiplierOutput(self.num_vars as usize),
        )
    }

    /// The wire that an allocation hands out: the right wire of the
    /// half-allocated multiplier, or else the left wire of a fresh one.
    pub open spec fn allocated(self) -> Variable {
        match self.pending_multiplier {
            None => Variable::MultiplierLeft(self.num_vars as usize),
            Some(i) => Variable::MultiplierRight(i as usize),
        }
    }

    /// The system after an allocation.
    pub open spec fn after_allocate(self) -> ConstraintModel {
        match self.pending_multiplier {
            None => ConstraintModel {
                num_vars: self.num_vars + 1,
                pending_multiplier: Some(self.num_vars),
                ..self
            },
            Some(i) => ConstraintModel { pending_multiplier: None, ..self },
        }
    }

    /// The system after `k` allocations in a row.
    pub open spec fn after_allocations(self, k: nat) -> ConstraintModel
        decreases k,
    {
        if k == 0 {
            self
        } else {
            self.after_allocations((k - 1) as nat).after_allocate()
        }
    }

    /// The system after a multiplier was allocated whole.
    pub open spec fn after_allocate_multiplier(self) -> ConstraintModel {
        ConstraintModel { num_vars: self.num_vars + 1, ..self }
    }

    /// The system after `lc` was asserted to be zero.
    pub open spec fn after_constrain(self, lc: Terms) -> ConstraintModel {
        ConstraintModel { constraints: self.constraints.push(lc), ..self }
    }

    /// The system after a challenge was drawn under `label`.
    pub open spec fn after_challenge(self, label: Seq<u8>) -> ConstraintModel {
        ConstraintModel { log: with_challenge(self.log, label), ..self }
    }

    /// The system with another log.
    pub open spec fn with_log(self, log: Seq<TranscriptEvent>) -> ConstraintModel {
        ConstraintModel { log, ..self }
    }
}

/// A constraint system in its second phase, when challenges can be drawn.
/// A gadget receives one; nobody else can make one.
pub struct RandomizingVerifier {
    transcript: ProofTranscript,
    constraints: Vec<LinearCombination>,
    num_vars: usize,
    V: Vec<G1Affine>,
    pending_multiplier: Option<usize>,
}

impl View for RandomizingVerifier {
    type V = ConstraintModel;

    closed spec fn view(&self) -> ConstraintModel {
        ConstraintModel {
            log: self.transcript.log(),
            constraints: constraints_model(self.constraints@),
            num_vars: self.num_vars as nat,
            commitments: points_model(self.V@),
            pending_multiplier: match self.pending_multiplier {
                None => None,
                Some(i) => Some(i as nat),
            },
        }
    }
}

/// A part of a circuit whose constraints depend on challenges: it is handed
/// the constraint system when the first phase is committed.
pub trait RandomizedGadget {
    /// What the gadget makes of a constraint system: whether it succeeds,
    /// and the system it leaves where it does. Prover and verifier must
    /// come to the same circuit, so a gadget is a function of the system it
    /// is handed; this is that function. It is never run: an implementation
    /// in plain Rust gives it a body that cannot be reached.
    spec fn extension(&self, cs: ConstraintModel) -> (Result<(), R1CSError>, ConstraintModel);

    /// Draws challenges and adds multipliers and constraints. The system
    /// can only grow, for it offers nothing that takes back; it stays well
    /// formed where the gadget constrains only variables that exist, which
    /// an implementation in plain Rust has to see to itself.
    fn extend(&self, cs: &mut RandomizingVerifier) -> (r: Result<(), R1CSError>)
        requires
            old(cs)@.well_formed(),
        ensures
            final(cs)@.well_formed(),
            final(cs)@.extends(old(cs)@),
            r == self.extension(old(cs)@).0,
            r.is_ok() ==> final(cs)@ == self.extension(old(cs)@).1,
    ;
}

/// What the gadgets, called in order, make of a constraint system. The first
/// failure ends the run.
pub open spec fn run_gadgets<G: RandomizedGadget>(gadgets: Seq<G>, cs: ConstraintModel) -> (
    Result<(), R1CSError>,
    ConstraintModel,
)
    decreases gadgets.len(),
{
    if gadgets.len() == 0 {
        (Ok(()), cs)
    } else {
        let (r, next) = gadgets[0].extension(cs);
        if r.is_err() {
            (r, cs)
        } else {
            run_gadgets(gadgets.drop_first(), next)
        }
    }
}

/// A sequence is a prefix of itself.
pub proof fn lemma_prefix_of_itself<A>(s: Seq<A>)
    ensures
        s.is_prefix_of(s),
{
    assert(s =~= s.subrange(0, s.len() as int));
}

/// A prefix of a prefix is a prefix.
pub proof fn lemma_prefix_transitive<A>(a: Seq<A>, b: Seq<A>, c: Seq<A>)
    requires
        a.is_prefix_of(b),
        b.is_prefix_of(c),
    ensures
        a.is_prefix_of(c),
{
    assert(a =~= c.subrange(0, a.len() as int)) by {
        assert forall|i: int| 0 <= i < a.len() implies a[i] == c.subrange(0, a.len() as int)[i] by {
            assert(a[i] == b.subrange(0, a.len() as int)[i]);
            assert(b[i] == c.subrange(0, b.len() as int)[i]);
        }
    }
}

/// In a system that grew, the old constraints still speak of variables that exist.
pub proof fn lemma_in_range_grows(cs: Seq<Terms>, n: nat, m: nat, n2: nat, m2: nat)
    requires
        constraints_in_range(cs, n, m),
        n <= n2,
        m <= m2,
    ensures
        constraints_in_range(cs, n2, m2),
{
    assert forall|q: int| 0 <= q < cs.len() implies terms_in_range(#[trigger] cs[q], n2, m2) by {
        assert(terms_in_range(cs[q], n, m));
        assert forall|t: int| 0 <= t < cs[q].len() implies variable_in_range(
            #[trigger] cs[q][t].0,
            n2,
            m2,
        ) by {
            assert(variable_in_range(cs[q][t].0, n, m));
        }
    }
}

/// One more constraint over variables that exist leaves the system well formed.
pub proof fn lemma_in_range_push(cs: Seq<Terms>, lc: Terms, n: nat, m: nat)
    requires
        constraints_in_range(cs, n, m),
        terms_in_range(lc, n, m),
    ensures
        constraints_in_range(cs.push(lc), n, m),
{
    assert forall|q: int| 0 <= q < cs.push(lc).len() implies terms_in_range(
        #[trigger] cs.push(lc)[q],
        n,
        m,
    ) by {
        if q < cs.len() {
            assert(cs.push(lc)[q] == cs[q]);
        }
    }
}

proof fn lemma_terms_grow(lc: Terms, n: nat, m: nat, n2: nat, m2: nat, var: Variable, c: int)
    requires
        terms_in_range(lc, n, m),
        n <= n2,
        m <= m2,
        variable_in_range(var, n2, m2),
    ensures
        terms_in_range(lc.push((var, c)), n2, m2),
{
    assert forall|t: int| 0 <= t < lc.push((var, c)).len() implies variable_in_range(
        #[trigger] lc.push((var, c))[t].0,
        n2,
        m2,
    ) by {
        if t < lc.len() {
            assert(variable_in_range(lc[t].0, n, m));
        }
    }
}

impl RandomizingVerifier {
    /// The number of multipliers.
    pub fn multipliers_len(&self) -> (n: usize)
        ensures
            n == self@.num_vars,
    {
        self.num_vars
    }

    /// The number of committed inputs.
    pub fn commitments_len(&self) -> (m: usize)
        ensures
            m == self@.commitments.len(),
    {
        self.V.len()
    }

    /// The multiplier whose left wire is allocated and whose right wire is not, if any.
    pub fn pending_multiplier(&self) -> (r: Option<usize>)
        ensures
            r is None <==> self@.pending_multiplier is None,
            r is Some ==> r.unwrap() == self@.pending_multiplier.unwrap(),
    {
        self.pending_multiplier
    }

    /// Whether every variable of every constraint exists, and so does the
    /// half-allocated multiplier: what a proof can be checked against.
    pub fn is_well_formed(&self) -> (r: bool)
        ensures
            r == self@.well_formed(),
    {
        let pending_exists = match self.pending_multiplier {
            None => true,
            Some(i) => i < self.num_vars,
        };
        let m = self.V.len();
        pending_exists && constraints_known(&self.constraints, self.num_vars, m)
    }

    /// Allocates a multiplier and constrains its left wire to `left` and its right
    /// wire to `right`; returns the three wires.
    pub fn multiply(&mut self, left: LinearCombination, right: LinearCombination) -> (r: (
        Variable,
        Variable,
        Variable,
    ))
        requires
            old(self)@.num_vars < usize::MAX,
        ensures
            final(self)@ == old(self)@.after_multiply(left@, right@),
            r == old(self)@.next_multiplier(),
            final(self)@.extends(old(self)@),
            old(self)@.well_formed() && terms_in_range(
                left@,
                old(self)@.num_vars,
                old(self)@.commitments.len(),
            ) && terms_in_range(right@, old(self)@.num_vars, old(self)@.commitments.len())
                ==> final(self)@.well_formed(),
    {
        let mut left = left;
        let mut right = right;
        let var = self.num_vars;
        self.num_vars = self.num_vars + 1;
        let l_var = Variable::MultiplierLeft(var);
        let r_var = Variable::MultiplierRight(var);
        let o_var = Variable::MultiplierOutput(var);
        let minus_one = Fr::one().neg();
        let ghost l0 = left@;
        let ghost r0 = right@;
        left.push_term(l_var, minus_one);
        right.push_term(r_var, minus_one);
        proof {
            let n = old(self)@.num_vars;
            let m = old(self)@.commitments.len();
            if old(self)@.well_formed() && terms_in_range(l0, n, m) && terms_in_range(r0, n, m) {
                lemma_terms_grow(l0, n, m, n + 1, m, l_var, fneg(1));
                lemma_terms_grow(r0, n, m, n + 1, m, r_var, fneg(1));
                lemma_in_range_grows(old(self)@.constraints, n, m, n + 1, m);
                lemma_in_range_push(old(self)@.constraints, left@, n + 1, m);
                lemma_in_range_push(old(self)@.constraints.push(left@), right@, n + 1, m);
            }
        }
        self.constraints.push(left);
        self.constraints.push(right);
        proof {
            assert(self@.constraints =~= old(self)@.constraints.push(l0.push((l_var, fneg(1)))).push(
                r0.push((r_var, fneg(1))),
            ));
        }
        (l_var, r_var, o_var)
    }

    /// Allocates one wire: the left wire of a fresh multiplier, or the right wire
    /// of the multiplier whose left wire the last such call allocated. The
    /// argument is a prover's assignment; a verifier has none and ignores it.
    pub fn allocate(&mut self, assignment: Option<Fr>) -> (r: Result<Variable, R1CSError>)
        requires
            old(self)@.pending_multiplier is None ==> old(self)@.num_vars < usize::MAX,
        ensures
            r == Ok::<Variable, R1CSError>(old(self)@.allocated()),
            final(self)@ == old(self)@.after_allocate(),
            final(self)@.extends(old(self)@),
            old(self)@.well_formed() ==> final(self)@.well_formed(),
    {
        match self.pending_multiplier {
            None => {
                let i = self.num_vars;
                self.num_vars = self.num_vars + 1;
                self.pending_multiplier = Some(i);
                proof {
                    if old(self)@.well_formed() {
                        lemma_in_range_grows(
                        old(self)@.constraints,
                        old(self)@.num_vars,
                        old(self)@.commitments.len(),
                        old(self)@.num_vars + 1,
                        old(self)@.commitments.len(),
                    );
                    }
                }
                Ok(Variable::MultiplierLeft(i))
            },
            Some(i) => {
                self.pending_multiplier = None;
                Ok(Variable::MultiplierRight(i))
            },
        }
    }

    /// Allocates a multiplier and returns its three wires, without constraining them.
    pub fn allocate_multiplier(&mut self, input_assignments: Option<(Fr, Fr)>) -> (r: Result<
        (Variable, Variable, Variable),
        R1CSError,
    >)
        requires
            old(self)@.num_vars < usize::MAX,
        ensures
            r == Ok::<(Variable, Variable, Variable), R1CSError>(old(self)@.next_multiplier()),
            final(self)@ == old(self)@.after_allocate_multiplier(),
            final(self)@.extends(old(self)@),
            old(self)@.well_formed() ==> final(self)@.well_formed(),
    {
        let var = self.num_vars;
        self.num_vars = self.num_vars + 1;
        proof {
            if old(self)@.well_formed() {
                lemma_in_range_grows(
                    old(self)@.constraints,
                    old(self)@.num_vars,
                    old(self)@.commitments.len(),
                    old(self)@.num_vars + 1,
                    old(self)@.commitments.len(),
                );
            }
        }
        Ok((Variable::MultiplierLeft(var), Variable::MultiplierRight(var), Variable::MultiplierOutput(var)))
    }

    /// Asserts that `lc` is zero. Any sum is taken; whether its variables
    /// exist is asked when the proof is checked.
    pub fn constrain(&mut self, lc: LinearCombination)
        ensures
            final(self)@ == old(self)@.after_constrain(lc@),
            final(self)@.extends(old(self)@),
            old(self)@.well_formed() && terms_in_range(
                lc@,
                old(self)@.num_vars,
                old(self)@.commitments.len(),
            ) ==> final(self)@.well_formed(),
    {
        proof {
            if old(self)@.well_formed() && terms_in_range(
                lc@,
                old(self)@.num_vars,
                old(self)@.commitments.len(),
            ) {
                lemma_in_range_push(
                    old(self)@.constraints,
                    lc@,
                    old(self)@.num_vars,
                    old(self)@.commitments.len(),
                );
            }
        }
        self.constraints.push(lc);
        proof {
            assert(self@.constraints =~= old(self)@.constraints.push(lc@));
        }
    }

    /// Draws a challenge that is bound to everything the transcript has absorbed.
    pub fn challenge_scalar(&mut self, label: &'static [u8]) -> (r: Fr)
        ensures
            r@ == challenge_scalar_of(old(self)@.log, label@),
            final(self)@ == old(self)@.after_challenge(label@),
            old(self)@.well_formed() ==> final(self)@.well_formed(),
            final(self)@.extends(old(self)@),
    {
        challenge_scalar(&mut self.transcript, label)
    }

    /// The transcript, for a gadget that appends to it or draws from it.
    pub fn transcript(&mut self) -> (t: &mut ProofTranscript)
        ensures
            t.log() == old(self)@.log,
            final(self)@ == old(self)@.with_log(final(t).log()),
    {
        &mut self.transcript
    }

    /// The constraints flattened under the challenge `z`.
    fn flattened_constraints(&self, z: &Fr) -> (w: Weights)
        requires
            self@.well_formed(),
        ensures
            w@ == weights_of(self@, z@),
    {
        let (wL, wR, wO, wV, wc) = flatten(&self.constraints, self.num_vars, self.V.len(), z);
        Weights { wL, wR, wO, wV, wc }
    }
}

/// The constraints of a system, flattened under the challenge `z`.
pub open spec fn weights_of(cs: ConstraintModel, z: int) -> WeightsModel {
    WeightsModel {
        wL: flat_left(cs.constraints, z, cs.num_vars),
        wR: flat_right(cs.constraints, z, cs.num_vars),
        wO: flat_output(cs.constraints, z, cs.num_vars),
        wV: flat_committed(cs.constraints, z, cs.commitments.len()),
        wc: flat_constant(cs.constraints, z),
    }
}


/// A verifier as the contracts see it: its constraint system, and the
/// gadgets that wait for the second phase, in the order of their
/// registration. All gadgets of one verifier are of one type `G`; a circuit
/// with gadgets of several kinds makes `G` an enum of them.
pub struct VerifierModel<G> {
    pub cs: ConstraintModel,
    pub deferred: Seq<G>,
}

/// A constraint system on the verifier's side. The caller commits the
/// inputs, describes the circuit, and hands over a proof to `verify`.
pub struct Verifier<G: RandomizedGadget> {
    cs: RandomizingVerifier,
    deferred_constraints: Vec<G>,
}

impl<G: RandomizedGadget> View for Verifier<G> {
    type V = VerifierModel<G>;

    closed spec fn view(&self) -> VerifierModel<G> {
        VerifierModel { cs: self.cs@, deferred: self.deferred_constraints@ }
    }
}

/// The constraint system that the gadgets are handed: no multiplier is
/// half-allocated any more, and the transcript has absorbed whether there
/// are gadgets at all; and what they make of it.
pub open spec fn randomized<G: RandomizedGadget>(v: VerifierModel<G>) -> (
    Result<(), R1CSError>,
    ConstraintModel,
) {
    let cleared = ConstraintModel { pending_multiplier: None, ..v.cs };
    if v.deferred.len() == 0 {
        (
            Ok(()),
            cleared.with_log(with_message(v.cs.log, "dom-sep".spec_bytes(), "r1cs-1phase".spec_bytes())),
        )
    } else {
        run_gadgets(
            v.deferred,
            cleared.with_log(with_message(v.cs.log, "dom-sep".spec_bytes(), "r1cs-2phase".spec_bytes())),
        )
    }
}

/// The log when the number of commitments and the three commitments of the
/// first phase have been appended.
pub open spec fn log_with_phase1(log: Seq<TranscriptEvent>, m: nat, p: ProofModel) -> Seq<TranscriptEvent> {
    with_point(
        with_point(
            with_point(with_u64(log, "m".spec_bytes(), m as u64), "A_I1".spec_bytes(), p.A_I1),
            "A_O1".spec_bytes(),
            p.A_O1,
        ),
        "S1".spec_bytes(),
        p.S1,
    )
}

/// The log when the three commitments of the second phase have been appended.
pub open spec fn log_with_phase2(log: Seq<TranscriptEvent>, p: ProofModel) -> Seq<TranscriptEvent> {
    with_point(
        with_point(with_point(log, "A_I2".spec_bytes(), p.A_I2), "A_O2".spec_bytes(), p.A_O2),
        "S2".spec_bytes(),
        p.S2,
    )
}

/// The log when `y` and `z` have been drawn and the five commitments to `t` appended.
pub open spec fn log_with_t(log: Seq<TranscriptEvent>, p: ProofModel) -> Seq<TranscriptEvent> {
    with_point(
        with_point(
            with_point(
                with_point(
                    with_point(
                        with_challenge(
                            with_challenge(log_with_phase2(log, p), "y".spec_bytes()),
                            "z".spec_bytes(),
                        ),
                        "T_1".spec_bytes(),
                        p.T_1,
                    ),
                    "T_3".spec_bytes(),
                    p.T_3,
                ),
                "T_4".spec_bytes(),
                p.T_4,
            ),
            "T_5".spec_bytes(),
            p.T_5,
        ),
        "T_6".spec_bytes(),
        p.T_6,
    )
}

/// The log when `u` and `x` have been drawn and the three revealed scalars appended.
pub open spec fn log_with_revealed(log: Seq<TranscriptEvent>, p: ProofModel) -> Seq<TranscriptEvent> {
    with_scalar(
        with_scalar(
            with_scalar(
                with_challenge(with_challenge(log_with_t(log, p), "u".spec_bytes()), "x".spec_bytes()),
                "t_x".spec_bytes(),
                p.t_x,
            ),
            "t_x_blinding".spec_bytes(),
            p.t_x_blinding,
        ),
        "e_blinding".spec_bytes(),
        p.e_blinding,
    )
}

/// The log when `w` has been drawn: the one that the inner-product argument starts from.
pub open spec fn log_before_ipp(log: Seq<TranscriptEvent>, p: ProofModel) -> Seq<TranscriptEvent> {
    with_challenge(log_with_revealed(log, p), "w".spec_bytes())
}

/// The log when the inner-product argument over `padded_n` entries is through.
pub open spec fn log_after_ipp(log: Seq<TranscriptEvent>, p: ProofModel, padded_n: nat) -> Seq<TranscriptEvent> {
    round_log(with_innerproduct_domain_sep(log_before_ipp(log, p), padded_n as u64), p.L, p.R, p.L.len())
}

/// The challenges of a verification whose second phase left the log `log`.
/// The last one, `r`, is drawn from a copy of the transcript and leaves no trace.
pub open spec fn challenges_of(log: Seq<TranscriptEvent>, p: ProofModel, padded_n: nat) -> ChallengesModel {
    ChallengesModel {
        y: challenge_scalar_of(log_with_phase2(log, p), "y".spec_bytes()),
        z: challenge_scalar_of(with_challenge(log_with_phase2(log, p), "y".spec_bytes()), "z".spec_bytes()),
        u: challenge_scalar_of(log_with_t(log, p), "u".spec_bytes()),
        x: challenge_scalar_of(with_challenge(log_with_t(log, p), "u".spec_bytes()), "x".spec_bytes()),
        w: challenge_scalar_of(log_with_revealed(log, p), "w".spec_bytes()),
        r: challenge_scalar_of(log_after_ipp(log, p, padded_n), "r".spec_bytes()),
    }
}

/// The challenges of the inner-product argument in that verification.
pub open spec fn ipp_challenges_of(log: Seq<TranscriptEvent>, p: ProofModel, padded_n: nat) -> Seq<int> {
    round_challenges(with_innerproduct_domain_sep(log_before_ipp(log, p), padded_n as u64), p.L, p.R)
}

/// The scalars that the inner-product argument derives from them.
pub open spec fn ipp_scalars_of(log: Seq<TranscriptEvent>, p: ProofModel, padded_n: nat) -> IppScalarsModel {
    let us = ipp_challenges_of(log, p, padded_n);
    IppScalarsModel { u_sq: squares(us), u_inv_sq: inverse_squares(us), s: s_vector(us) }
}

/// The scalars that a proof reveals.
pub open spec fn revealed(p: ProofModel) -> RevealedModel {
    RevealedModel { t_x: p.t_x, t_x_blinding: p.t_x_blinding, e_blinding: p.e_blinding, a: p.a, b: p.b }
}

/// What becomes of a verification once the second phase has left the system
/// `cs`: the generators may be too few; a commitment to `t` may be the
/// identity, the inner-product argument unfit or `y` zero, so that the proof
/// fails; or else the scalars are those of `scalar_vector`, and the system
/// is left with the log at its end and no multiplier half-allocated. `n1` is
/// the number of multipliers of the first phase.
pub open spec fn finished(cs: ConstraintModel, n1: nat, p: ProofModel, capacity: nat) -> Result<
    (ConstraintModel, Seq<int>),
    R1CSError,
> {
    let padded_n = next_power_of_two(cs.num_vars);
    let c = challenges_of(cs.log, p, padded_n);
    if capacity < padded_n {
        Err(R1CSError::InvalidGeneratorsLength)
    } else if p.T_1.infinity || p.T_3.infinity || p.T_4.infinity || p.T_5.infinity || p.T_6.infinity
        || !ipp_accepts(log_before_ipp(cs.log, p), padded_n, p.L, p.R) || c.y == 0 {
        Err(R1CSError::VerificationError)
    } else {
        Ok(
            (
                ConstraintModel {
                    pending_multiplier: None,
                    ..cs.with_log(log_after_ipp(cs.log, p, padded_n))
                },
                scalar_vector(
                    c,
                    revealed(p),
                    weights_of(cs, c.z),
                    ipp_scalars_of(cs.log, p, padded_n),
                    n1,
                ),
            ),
        )
    }
}

/// What becomes of a verification: a commitment of the first phase may be
/// the identity, so that the proof fails; a gadget may fail, with its own
/// error; or else it goes on as `finished` says. On success the result holds
/// the constraint system as it is left and the scalars of the multiscalar
/// multiplication.
#[verifier::opaque]
pub open spec fn verification_outcome<G: RandomizedGadget>(
    v: VerifierModel<G>,
    p: ProofModel,
    capacity: nat,
) -> Result<
    (ConstraintModel, Seq<int>),
    R1CSError,
> {
    if p.A_I1.infinity || p.A_O1.infinity || p.S1.infinity {
        Err(R1CSError::VerificationError)
    } else {
        let started = VerifierModel {
            cs: v.cs.with_log(log_with_phase1(v.cs.log, v.cs.commitments.len(), p)),
            deferred: v.deferred,
        };
        let (r, cs) = randomized(started);
        match r {
            Err(e) => Err(e),
            Ok(_) => finished(cs, v.cs.num_vars, p, capacity),
        }
    }
}

/// The points of the multiscalar multiplication, in the order of their scalars.
pub open spec fn verification_points(
    b: PointModel,
    b_blinding: PointModel,
    g: Seq<PointModel>,
    h: Seq<PointModel>,
    p: ProofModel,
    commitments: Seq<PointModel>,
    padded_n: nat,
) -> Seq<PointModel> {
    seq![b, b_blinding] + g.take(padded_n as int) + h.take(padded_n as int) + proof_points(
        p,
        commitments,
    )
}

/// Appends the commitments of the second phase, the commitments to `t` and
/// the revealed scalars, and draws `y`, `z`, `u`, `x` and `w` in between. A
/// commitment to `t` that is the identity is refused.
fn draw_challenges(transcript: &mut ProofTranscript, proof: &R1CSProof) -> (r: Result<(Fr, Fr, Fr, Fr, Fr), R1CSError>)
    ensures
        r.is_err() <==> (proof@.T_1.infinity || proof@.T_3.infinity || proof@.T_4.infinity
            || proof@.T_5.infinity || proof@.T_6.infinity),
        r.is_ok() ==> ({
            let log = old(transcript).log();
            let p = proof@;
            let c = r.unwrap();
            &&& c.0@ == challenge_scalar_of(log_with_phase2(log, p), "y".spec_bytes())
            &&& c.1@ == challenge_scalar_of(
                with_challenge(log_with_phase2(log, p), "y".spec_bytes()),
                "z".spec_bytes(),
            )
            &&& c.2@ == challenge_scalar_of(log_with_t(log, p), "u".spec_bytes())
            &&& c.3@ == challenge_scalar_of(
                with_challenge(log_with_t(log, p), "u".spec_bytes()),
                "x".spec_bytes(),
            )
            &&& c.4@ == challenge_scalar_of(log_with_revealed(log, p), "w".spec_bytes())
            &&& final(transcript).log() == log_before_ipp(log, p)
        }),
{
    append_point(transcript, "A_I2".as_bytes(), &proof.A_I2);
    append_point(transcript, "A_O2".as_bytes(), &proof.A_O2);
    append_point(transcript, "S2".as_bytes(), &proof.S2);

    let y = challenge_scalar(transcript, "y".as_bytes());
    let z = challenge_scalar(transcript, "z".as_bytes());

    if validate_and_append_point(transcript, "T_1".as_bytes(), &proof.T_1).is_err() {
        return Err(R1CSError::VerificationError);
    }
    if validate_and_append_point(transcript, "T_3".as_bytes(), &proof.T_3).is_err() {
        return Err(R1CSError::VerificationError);
    }
    if validate_and_append_point(transcript, "T_4".as_bytes(), &proof.T_4).is_err() {
        return Err(R1CSError::VerificationError);
    }
    if validate_and_append_point(transcript, "T_5".as_bytes(), &proof.T_5).is_err() {
        return Err(R1CSError::VerificationError);
    }
    if validate_and_append_point(transcript, "T_6".as_bytes(), &proof.T_6).is_err() {
        return Err(R1CSError::VerificationError);
    }
    let u = challenge_scalar(transcript, "u".as_bytes());
    let x = challenge_scalar(transcript, "x".as_bytes());

    append_scalar(transcript, "t_x".as_bytes(), &proof.t_x);
    append_scalar(transcript, "t_x_blinding".as_bytes(), &proof.t_x_blinding);
    append_scalar(transcript, "e_blinding".as_bytes(), &proof.e_blinding);

    let w = challenge_scalar(transcript, "w".as_bytes());
    Ok((y, z, u, x, w))
}

impl<G: RandomizedGadget> Verifier<G> {
    /// A verifier with an empty circuit. The transcript is the verifier's
    /// own until `verify_and_return_transcript` hands it back.
    pub fn new(transcript: ProofTranscript) -> (v: Verifier<G>)
        ensures
            v@.cs == (ConstraintModel {
                log: with_message(
                    transcript.log(),
                    "dom-sep".spec_bytes(),
                    "r1cs v1".spec_bytes(),
                ),
                constraints: Seq::<Terms>::empty(),
                num_vars: 0,
                commitments: Seq::<PointModel>::empty(),
                pending_multiplier: None,
            }),
            v@.deferred.len() == 0,
            v@.cs.well_formed(),
    {
        let mut transcript = transcript;
        r1cs_domain_sep(&mut transcript);
        let v = Verifier {
            cs: RandomizingVerifier {
                transcript,
                constraints: Vec::new(),
                num_vars: 0,
                V: Vec::new(),
                pending_multiplier: None,
            },
            deferred_constraints: Vec::new(),
        };
        proof {
            assert(v@.cs.constraints =~= Seq::<Terms>::empty());
            assert(v@.cs.commitments =~= Seq::<PointModel>::empty());
        }
        v
    }

    /// Takes in the commitment to an input, binds the transcript to it, and
    /// returns the variable that stands for the input.
    pub fn commit(&mut self, commitment: G1Affine) -> (var: Variable)
        ensures
            var == Variable::Committed(old(self)@.cs.commitments.len() as usize),
            final(self)@.cs == old(self)@.cs.after_commit(commitment@),
            final(self)@.deferred == old(self)@.deferred,
            old(self)@.cs.well_formed() ==> final(self)@.cs.well_formed(),
    {
        let i = self.cs.V.len();
        self.cs.V.push(commitment);
        let m = self.cs.V.len();
        append_point(&mut self.cs.transcript, "V".as_bytes(), &commitment);
        proof {
            assert(self@.cs.commitments =~= old(self)@.cs.commitments.push(commitment@));
            if old(self)@.cs.well_formed() {
                lemma_in_range_grows(
                old(self)@.cs.constraints,
                old(self)@.cs.num_vars,
                old(self)@.cs.commitments.len(),
                old(self)@.cs.num_vars,
                old(self)@.cs.commitments.len() + 1,
            );
            }
        }
        Variable::Committed(i)
    }

    /// The transcript, for a caller that appends to it.
    pub fn transcript(&mut self) -> (t: &mut ProofTranscript)
        ensures
            t.log() == old(self)@.cs.log,
            final(self)@.cs == old(self)@.cs.with_log(final(t).log()),
            final(self)@.deferred == old(self)@.deferred,
    {
        &mut self.cs.transcript
    }

    /// The number of multipliers.
    pub fn multipliers_len(&self) -> (n: usize)
        ensures
            n == self@.cs.num_vars,
    {
        self.cs.multipliers_len()
    }

    /// The number of committed inputs.
    pub fn commitments_len(&self) -> (m: usize)
        ensures
            m == self@.cs.commitments.len(),
    {
        self.cs.commitments_len()
    }

    /// The multiplier whose left wire is allocated and whose right wire is not, if any.
    pub fn pending_multiplier(&self) -> (r: Option<usize>)
        ensures
            r is None <==> self@.cs.pending_multiplier is None,
            r is Some ==> r.unwrap() == self@.cs.pending_multiplier.unwrap(),
    {
        self.cs.pending_multiplier()
    }

    /// Whether every variable of every constraint exists, and so does the
    /// half-allocated multiplier: what `verify` demands of the circuit.
    pub fn is_well_formed(&self) -> (r: bool)
        ensures
            r == self@.cs.well_formed(),
    {
        self.cs.is_well_formed()
    }

    /// Allocates a multiplier and constrains its left wire to `left` and its right
    /// wire to `right`; returns the three wires.
    pub fn multiply(&mut self, left: LinearCombination, right: LinearCombination) -> (r: (
        Variable,
        Variable,
        Variable,
    ))
        requires
            old(self)@.cs.num_vars < usize::MAX,
        ensures
            final(self)@.cs == old(self)@.cs.after_multiply(left@, right@),
            final(self)@.deferred == old(self)@.deferred,
            r == old(self)@.cs.next_multiplier(),
            old(self)@.cs.well_formed() && terms_in_range(
                left@,
                old(self)@.cs.num_vars,
                old(self)@.cs.commitments.len(),
            ) && terms_in_range(right@, old(self)@.cs.num_vars, old(self)@.cs.commitments.len())
                ==> final(self)@.cs.well_formed(),
    {
        self.cs.multiply(left, right)
    }

    /// Allocates one wire: the left wire of a fresh multiplier, or the right wire
    /// of the multiplier whose left wire the last such call allocated. The
    /// argument is a prover's assignment; a verifier has none and ignores it.
    pub fn allocate(&mut self, assignment: Option<Fr>) -> (r: Result<Variable, R1CSError>)
        requires
            old(self)@.cs.pending_multiplier is None ==> old(self)@.cs.num_vars < usize::MAX,
        ensures
            r == Ok::<Variable, R1CSError>(old(self)@.cs.allocated()),
            final(self)@.cs == old(self)@.cs.after_allocate(),
            final(self)@.deferred == old(self)@.deferred,
            old(self)@.cs.well_formed() ==> final(self)@.cs.well_formed(),
    {
        self.cs.allocate(assignment)
    }

    /// Allocates a multiplier and returns its three wires, without constraining them.
    pub fn allocate_multiplier(&mut self, input_assignments: Option<(Fr, Fr)>) -> (r: Result<
        (Variable, Variable, Variable),
        R1CSError,
    >)
        requires
            old(self)@.cs.num_vars < usize::MAX,
        ensures
            r == Ok::<(Variable, Variable, Variable), R1CSError>(old(self)@.cs.next_multiplier()),
            final(self)@.cs == old(self)@.cs.after_allocate_multiplier(),
            final(self)@.deferred == old(self)@.deferred,
            old(self)@.cs.well_formed() ==> final(self)@.cs.well_formed(),
    {
        self.cs.allocate_multiplier(input_assignments)
    }

    /// Asserts that `lc` is zero. Any sum is taken; whether its variables
    /// exist is asked when the proof is checked.
    pub fn constrain(&mut self, lc: LinearCombination)
        ensures
            final(self)@.cs == old(self)@.cs.after_constrain(lc@),
            final(self)@.deferred == old(self)@.deferred,
            old(self)@.cs.well_formed() && terms_in_range(
                lc@,
                old(self)@.cs.num_vars,
                old(self)@.cs.commitments.len(),
            ) ==> final(self)@.cs.well_formed(),
    {
        self.cs.constrain(lc)
    }

    /// Registers a gadget for the second phase. Gadgets run in the order of
    /// their registration.
    pub fn specify_randomized_constraints(&mut self, callback: G) -> (r: Result<
        (),
        R1CSError,
    >)
        ensures
            r.is_ok(),
            final(self)@.cs == old(self)@.cs,
            final(self)@.deferred == old(self)@.deferred.push(callback),
    {
        self.deferred_constraints.push(callback);
        Ok(())
    }

    /// Enters the second phase: tells the transcript whether there are
    /// gadgets, and lets each extend the constraint system.
    #[verifier::rlimit(40)]
    fn create_randomized_constraints(self) -> (r: Result<Verifier<G>, R1CSError>)
        requires
            self@.cs.well_formed(),
        ensures
            match randomized(self@).0 {
                Ok(_) => r.is_ok() && r.unwrap()@.cs == randomized(self@).1 && r.unwrap()@.deferred.len()
                    == 0 && r.unwrap()@.cs.well_formed() && r.unwrap()@.cs.num_vars >= self@.cs.num_vars
                    && r.unwrap()@.cs.commitments == self@.cs.commitments
                    && self@.cs.constraints.is_prefix_of(r.unwrap()@.cs.constraints),
                Err(e) => r.is_err() && r->Err_0 == e,
            },
    {
        let mut cs = self.cs;
        let callbacks = self.deferred_constraints;
        cs.pending_multiplier = None;
        proof {
            lemma_prefix_of_itself(self@.cs.constraints);
        }
        if callbacks.len() == 0 {
            r1cs_1phase_domain_sep(&mut cs.transcript);
            Ok(Verifier { cs, deferred_constraints: callbacks })
        } else {
            r1cs_2phase_domain_sep(&mut cs.transcript);
            let ghost start = cs@;
            let mut i: usize = 0;
            assert(callbacks@.skip(0) =~= callbacks@);
            while i < callbacks.len()
                invariant
                    i <= callbacks@.len(),
                    cs@.well_formed(),
                    cs@.num_vars >= start.num_vars,
                    cs@.commitments == start.commitments,
                    start.constraints == self@.cs.constraints,
                    start.constraints.is_prefix_of(cs@.constraints),
                    randomized(self@) == run_gadgets(callbacks@, start),
                    run_gadgets(callbacks@, start) == run_gadgets(callbacks@.skip(i as int), cs@),
                decreases callbacks@.len() - i,
            {
                let ghost before = cs@;
                let r = callbacks[i].extend(&mut cs);
                proof {
                    let rest = callbacks@.skip(i as int);
                    assert(rest[0] == callbacks@[i as int]);
                    assert(rest.drop_first() =~= callbacks@.skip(i + 1));
                    assert(r == rest[0].extension(before).0);
                    lemma_prefix_transitive(start.constraints, before.constraints, cs@.constraints);
                    if r.is_err() {
                        assert(run_gadgets(rest, before) == (r, before));
                    } else {
                        assert(run_gadgets(rest, before) == run_gadgets(rest.drop_first(), cs@));
                    }
                }
                match r {
                    Err(e) => {
                        return Err(e);
                    },
                    Ok(_) => {},
                }
                i += 1;
            }
            Ok(Verifier { cs, deferred_constraints: Vec::new() })
        }
    }

    /// The second half of `verification_scalars`, from the constraint system
    /// that the second phase has left.
    #[verifier::rlimit(40)]
    fn finish_scalars(self, n1: usize, proof: &R1CSProof, bp_gens: &BulletproofGens) -> (r: Result<
        (Verifier<G>, Vec<Fr>),
        R1CSError,
    >)
        requires
            self@.cs.well_formed(),
            self@.deferred.len() == 0,
        ensures
            match finished(self@.cs, n1 as nat, proof@, bp_gens.g_bases().len()) {
                Ok((cs, scalars)) => r.is_ok() && r.unwrap().0@.cs == cs && r.unwrap().0@.deferred.len()
                    == 0 && scalars_model(r.unwrap().1@) == scalars,
                Err(e) => r.is_err() && r->Err_0 == e,
            },
            r.is_ok() ==> r.unwrap().0@.cs.well_formed() && r.unwrap().0@.cs.constraints
                == self@.cs.constraints && r.unwrap().0@.cs.num_vars == self@.cs.num_vars
                && r.unwrap().0@.cs.commitments == self@.cs.commitments
                && r.unwrap().0@.cs.pending_multiplier is None,
    {
        let ghost log = self@.cs.log;
        let ghost pm = proof@;
        let mut cs = self.cs;
        let n = cs.num_vars;
        let capacity = bp_gens.capacity();
        let padded_n = match checked_next_power_of_two(n) {
            Some(p) => p,
            None => {
                return Err(R1CSError::InvalidGeneratorsLength);
            },
        };
        if capacity < padded_n {
            return Err(R1CSError::InvalidGeneratorsLength);
        }
        let (y, z, u, x, w) = match draw_challenges(&mut cs.transcript, proof) {
            Ok(c) => c,
            Err(_) => {
                return Err(R1CSError::VerificationError);
            },
        };
        let weights = cs.flattened_constraints(&z);

        let (u_sq, u_inv_sq, s) = match proof.ipp_proof.verification_scalars(padded_n, &mut cs.transcript) {
            Ok(t) => t,
            Err(_) => {
                return Err(R1CSError::VerificationError);
            },
        };
        let ipp = IppScalars { u_sq, u_inv_sq, s };
        if y.is_zero() {
            return Err(R1CSError::VerificationError);
        }
        let mut forked = fork(&cs.transcript);
        let r = challenge_scalar(&mut forked, "r".as_bytes());
        let c = Challenges { y, z, u, x, w, r };
        proof {
            crate::util::lemma_next_power_of_two_bounds(n as nat);
            assert(c@ == challenges_of(log, pm, padded_n as nat));
            assert(ipp@ == ipp_scalars_of(log, pm, padded_n as nat));
        }
        let scalars = assemble_scalars(
            &c,
            proof.t_x,
            proof.t_x_blinding,
            proof.e_blinding,
            proof.ipp_proof.a,
            proof.ipp_proof.b,
            &weights,
            &ipp,
            n1,
        );
        cs.pending_multiplier = None;
        Ok((Verifier { cs, deferred_constraints: self.deferred_constraints }, scalars))
    }

    /// The scalars of the multiscalar multiplication that decides `proof`,
    /// in the order of `verification_points`, and the verifier as the
    /// verification leaves it.
    pub fn verification_scalars(self, proof: &R1CSProof, bp_gens: &BulletproofGens) -> (r: Result<
        (Verifier<G>, Vec<Fr>),
        R1CSError,
    >)
        requires
            self@.cs.well_formed(),
        ensures
            match verification_outcome(self@, proof@, bp_gens.g_bases().len()) {
                Ok((cs, scalars)) => r.is_ok() && r.unwrap().0@.cs == cs && r.unwrap().0@.deferred.len()
                    == 0 && scalars_model(r.unwrap().1@) == scalars,
                Err(e) => r.is_err() && r->Err_0 == e,
            },
            r.is_ok() ==> ({
                let left = r.unwrap().0@.cs;
                &&& left.well_formed()
                &&& left.commitments == self@.cs.commitments
                &&& self@.cs.constraints.is_prefix_of(left.constraints)
                &&& left.num_vars >= self@.cs.num_vars
                &&& left.pending_multiplier is None
            }),
    {
        proof {
            reveal(verification_outcome);
        }
        let mut cs = self.cs;
        let deferred_constraints = self.deferred_constraints;
        append_u64(&mut cs.transcript, "m".as_bytes(), cs.V.len() as u64);
        let n1 = cs.num_vars;
        if validate_and_append_point(&mut cs.transcript, "A_I1".as_bytes(), &proof.A_I1).is_err() {
            return Err(R1CSError::VerificationError);
        }
        if validate_and_append_point(&mut cs.transcript, "A_O1".as_bytes(), &proof.A_O1).is_err() {
            return Err(R1CSError::VerificationError);
        }
        if validate_and_append_point(&mut cs.transcript, "S1".as_bytes(), &proof.S1).is_err() {
            return Err(R1CSError::VerificationError);
        }
        let started = Verifier { cs, deferred_constraints };
        let second = match started.create_randomized_constraints() {
            Ok(v) => v,
            Err(e) => {
                return Err(e);
            },
        };
        second.finish_scalars(n1, proof, bp_gens)
    }
}


/// The points of the multiscalar multiplication, in the order of their scalars.
#[verifier::rlimit(40)]
fn gather_points(
    pc_gens: &PedersenGens,
    bp_gens: &BulletproofGens,
    proof: &R1CSProof,
    commitments: &Vec<G1Affine>,
    padded_n: usize,
) -> (points: Vec<G1Affine>)
    requires
        padded_n <= bp_gens.g_bases().len(),
        padded_n <= bp_gens.h_bases().len(),
    ensures
        points_model(points@) == verification_points(
            pc_gens.B@,
            pc_gens.B_blinding@,
            bp_gens.g_bases(),
            bp_gens.h_bases(),
            proof@,
            points_model(commitments@),
            padded_n as nat,
        ),
{
    let mut points: Vec<G1Affine> = Vec::new();
    points.push(pc_gens.B);
    points.push(pc_gens.B_blinding);
    assert(points_model(points@) =~= seq![pc_gens.B@, pc_gens.B_blinding@]);
    bp_gens.append_G(padded_n, &mut points);
    bp_gens.append_H(padded_n, &mut points);
    proof.append_points(commitments, &mut points);
    points
}

/// Whether the multiscalar multiplication of a verification gives the identity.
pub open spec fn multiplication_vanishes(
    pc_gens: PedersenGens,
    bp_gens: BulletproofGens,
    p: ProofModel,
    cs: ConstraintModel,
    scalars: Seq<int>,
) -> bool {
    msm_sum(
        verification_points(
            pc_gens.B@,
            pc_gens.B_blinding@,
            bp_gens.g_bases(),
            bp_gens.h_bases(),
            p,
            cs.commitments,
            next_power_of_two(cs.num_vars),
        ),
        scalars,
    ).infinity
}

/// The challenges that a verification draws, in the order of their drawing:
/// `y`, `z`, `u`, `x`, `w`, those of the inner-product argument, and `r`.
/// They are those of a run in which no step fails.
pub open spec fn challenge_sequence<G: RandomizedGadget>(v: VerifierModel<G>, p: ProofModel) -> Seq<int> {
    let started = VerifierModel {
        cs: v.cs.with_log(log_with_phase1(v.cs.log, v.cs.commitments.len(), p)),
        deferred: v.deferred,
    };
    let cs = randomized(started).1;
    let padded_n = next_power_of_two(cs.num_vars);
    let c = challenges_of(cs.log, p, padded_n);
    seq![c.y, c.z, c.u, c.x, c.w] + ipp_challenges_of(cs.log, p, padded_n) + seq![c.r]
}

/// A verification that reaches its scalars has one scalar for each point,
/// and generators enough for the padded circuit.
pub proof fn lemma_outcome_shape<G: RandomizedGadget>(v: VerifierModel<G>, p: ProofModel, capacity: nat)
    requires
        verification_outcome(v, p, capacity).is_ok(),
    ensures
        ({
            let (cs, scalars) = verification_outcome(v, p, capacity)->Ok_0;
            &&& scalars.len() == 13 + 2 * next_power_of_two(cs.num_vars) + cs.commitments.len() + 2
                * p.L.len()
            &&& p.R.len() == p.L.len()
            &&& next_power_of_two(cs.num_vars) <= capacity
        }),
{
    reveal(verification_outcome);
}

/// Allocations pair up: after `k` allocations in a row, starting with no
/// multiplier half-allocated, there are `ceil(k / 2)` more multipliers, and the wires
/// handed out were the left and the right wire of each in turn.
pub proof fn lemma_pair_allocation(cs: ConstraintModel, k: nat)
    requires
        cs.pending_multiplier is None,
        cs.num_vars + (k + 1) / 2 <= usize::MAX,
    ensures
        cs.after_allocations(k).num_vars == cs.num_vars + (k + 1) / 2,
        cs.after_allocations(k).pending_multiplier == if k % 2 == 1 {
            Some((cs.num_vars + k / 2) as nat)
        } else {
            None
        },
        forall|j: nat|
            j < k ==> #[trigger] cs.after_allocations(j).allocated() == if j % 2 == 0 {
                Variable::MultiplierLeft((cs.num_vars + j / 2) as usize)
            } else {
                Variable::MultiplierRight((cs.num_vars + j / 2) as usize)
            },
    decreases k,
{
    if k > 0 {
        lemma_pair_allocation(cs, (k - 1) as nat);
    }
}

/// A verification leaves no multiplier half-allocated.
pub proof fn lemma_verification_leaves_nothing_pending<G: RandomizedGadget>(
    v: VerifierModel<G>,
    p: ProofModel,
    capacity: nat,
)
    requires
        verification_outcome(v, p, capacity).is_ok(),
    ensures
        (verification_outcome(v, p, capacity)->Ok_0).0.pending_multiplier is None,
{
    reveal(verification_outcome);
}

/// Without gadgets a verification leaves the circuit as it was.
pub proof fn lemma_one_phase_keeps_the_circuit<G: RandomizedGadget>(
    v: VerifierModel<G>,
    p: ProofModel,
    capacity: nat,
)
    requires
        v.deferred.len() == 0,
        verification_outcome(v, p, capacity).is_ok(),
    ensures
        (verification_outcome(v, p, capacity)->Ok_0).0.num_vars == v.cs.num_vars,
        (verification_outcome(v, p, capacity)->Ok_0).0.constraints == v.cs.constraints,
        (verification_outcome(v, p, capacity)->Ok_0).0.commitments == v.cs.commitments,
{
    reveal(verification_outcome);
}

/// The challenges are determined: two verifiers that the contracts cannot
/// tell apart (transcripts with one past, the same commitments, the same
/// circuit) draw the same challenges on proofs that the contracts cannot
/// tell apart, and come to the same end.
pub proof fn lemma_transcript_determinism<G: RandomizedGadget>(
    first: Verifier<G>,
    second: Verifier<G>,
    first_proof: R1CSProof,
    second_proof: R1CSProof,
    capacity: nat,
)
    requires
        first@ == second@,
        first_proof@ == second_proof@,
    ensures
        challenge_sequence(first@, first_proof@) == challenge_sequence(second@, second_proof@),
        verification_outcome(first@, first_proof@, capacity) == verification_outcome(second@, second_proof@, capacity),
{
}

impl<G: RandomizedGadget> Verifier<G> {
    /// Gives up the verifier for the commitments it has taken in.
    pub fn into_commitments(self) -> (r: Vec<G1Affine>)
        ensures
            points_model(r@) == self@.cs.commitments,
    {
        self.cs.V
    }

    /// Checks `proof` against the circuit and the commitments, and hands the
    /// transcript back where the proof holds.
    pub fn verify_and_return_transcript(
        self,
        proof: &R1CSProof,
        pc_gens: &PedersenGens,
        bp_gens: &BulletproofGens,
    ) -> (r: Result<ProofTranscript, R1CSError>)
        requires
            self@.cs.well_formed(),
        ensures
            match verification_outcome(self@, proof@, bp_gens.g_bases().len()) {
                Err(e) => r.is_err() && r->Err_0 == e,
                Ok((cs, scalars)) => if multiplication_vanishes(*pc_gens, *bp_gens, proof@, cs, scalars) {
                    r.is_ok() && r.unwrap().log() == cs.log
                } else {
                    r.is_err() && r->Err_0 == R1CSError::VerificationError
                },
            },
    {
        let ghost model = self@;
        let (verifier, scalars) = match self.verification_scalars(proof, bp_gens) {
            Ok(t) => t,
            Err(e) => {
                return Err(e);
            },
        };
        proof {
            lemma_outcome_shape(model, proof@, bp_gens.g_bases().len());
            bp_gens.lemma_families_of_one_length();
        }
        let padded_n = match checked_next_power_of_two(verifier.cs.num_vars) {
            Some(p) => p,
            None => {
                return Err(R1CSError::InvalidGeneratorsLength);
            },
        };
        let points = gather_points(pc_gens, bp_gens, proof, &verifier.cs.V, padded_n);
        proof {
            assert(points@.len() == points_model(points@).len());
            assert(scalars@.len() == scalars_model(scalars@).len());
        }
        let mega_check = multi_scalar_mul(&points, &scalars);
        if !mega_check.is_identity() {
            return Err(R1CSError::VerificationError);
        }
        Ok(verifier.cs.transcript)
    }

    /// Checks `proof` against the circuit and the commitments.
    pub fn verify(self, proof: &R1CSProof, pc_gens: &PedersenGens, bp_gens: &BulletproofGens) -> (r: Result<
        (),
        R1CSError,
    >)
        requires
            self@.cs.well_formed(),
        ensures
            match verification_outcome(self@, proof@, bp_gens.g_bases().len()) {
                Err(e) => r.is_err() && r->Err_0 == e,
                Ok((cs, scalars)) => if multiplication_vanishes(*pc_gens, *bp_gens, proof@, cs, scalars) {
                    r.is_ok()
                } else {
                    r.is_err() && r->Err_0 == R1CSError::VerificationError
                },
            },
    {
        match self.verify_and_return_transcript(proof, pc_gens, bp_gens) {
            Ok(_) => Ok(()),
            Err(e) => Err(e),
        }
    }
}

} // verus!
