//! Many proofs checked by one multiscalar multiplication: each proof's
//! scalars are scaled by a coefficient of its own, and the scalars of the
//! bases that all proofs share are added up.

#![allow(non_snake_case)]

use crate::curve::{multi_scalar_mul, msm_sum, points_model, scalars_model, Fr, G1Affine, PointModel};
use crate::errors::R1CSError;
use crate::field::{fadd, fmul, is_residue};
use crate::generators::{BulletproofGens, PedersenGens};
use crate::r1cs::assembly::extend_scalars;
use crate::r1cs::r1cs_proof::{proof_points, ProofModel, R1CSProof};
use crate::r1cs::verification::{
    lemma_outcome_shape, verification_outcome, RandomizedGadget, Verifier, VerifierModel,
};
use crate::util::{checked_next_power_of_two, next_power_of_two, zeros};
use vstd::prelude::*;

verus! {

/// One proof of a batch, with the scalars of its verification.
pub struct BatchInstance<'a> {
    /// The commitments that the proof speaks of.
    pub commitments: Vec<G1Affine>,
    /// The proof.
    pub proof: &'a R1CSProof,
    /// The scalars of its verification, in their canonical order.
    pub scalars: Vec<Fr>,
    /// The number of multipliers of its circuit, padded to a power of two.
    pub padded_n: usize,
}

/// One proof of a batch as the contracts see it.
pub struct BatchEntry {
    pub commitments: Seq<PointModel>,
    pub proof: ProofModel,
    pub scalars: Seq<int>,
    pub padded_n: nat,
}

impl<'a> View for BatchInstance<'a> {
    type V = BatchEntry;

    open spec fn view(&self) -> BatchEntry {
        BatchEntry {
            commitments: points_model(self.commitments@),
            proof: (*self.proof)@,
            scalars: scalars_model(self.scalars@),
            padded_n: self.padded_n as nat,
        }
    }
}

/// The instances of a batch as the contracts see them.
pub open spec fn entries_model(instances: Seq<BatchInstance>) -> Seq<BatchEntry> {
    instances.map_values(|i: BatchInstance| i@)
}

/// A base that all proofs of a batch share.
pub enum SharedBase {
    /// The base of committed values.
    B,
    /// The base of blinding factors.
    BBlinding,
    /// A base of the first family.
    G(int),
    /// A base of the second family.
    H(int),
}

impl BatchEntry {
    /// Whether there is one scalar for each point: two for the bases of
    /// commitments, one for each base of both families up to the padded
    /// size, and one for each point of the proof and each commitment.
    pub open spec fn well_formed(self) -> bool {
        &&& self.scalars.len() == 13 + 2 * self.padded_n + self.commitments.len() + 2 * self.proof.L.len()
        &&& self.proof.R.len() == self.proof.L.len()
    }

    /// What the proof, scaled by `alpha`, adds to the scalar of a shared
    /// base. A proof of a small circuit uses the first bases of each family.
    pub open spec fn contribution(self, alpha: int, base: SharedBase) -> int {
        match base {
            SharedBase::B => fmul(alpha, self.scalars[0]),
            SharedBase::BBlinding => fmul(alpha, self.scalars[1]),
            SharedBase::G(i) => if i < self.padded_n {
                fmul(alpha, self.scalars[2 + i])
            } else {
                0
            },
            SharedBase::H(i) => if i < self.padded_n {
                fmul(alpha, self.scalars[2 + self.padded_n + i])
            } else {
                0
            },
        }
    }

    /// The scalars of the points that are the proof's own, scaled by `alpha`.
    pub open spec fn own_scalars(self, alpha: int) -> Seq<int> {
        Seq::new(
            (self.scalars.len() - 2 - 2 * self.padded_n) as nat,
            |i: int| fmul(alpha, self.scalars[2 + 2 * self.padded_n + i]),
        )
    }

    /// The points that are the proof's own, in the order of their scalars.
    pub open spec fn own_points(self) -> Seq<PointModel> {
        proof_points(self.proof, self.commitments)
    }
}

/// The scalar of a shared base: what the proofs add to it, added up.
pub open spec fn shared_scalar(entries: Seq<BatchEntry>, alphas: Seq<int>, base: SharedBase) -> int
    decreases entries.len(),
{
    if entries.len() == 0 {
        0
    } else {
        fadd(
            shared_scalar(entries.drop_last(), alphas.drop_last(), base),
            entries.last().contribution(alphas.last(), base),
        )
    }
}

/// The scaled scalars of the proofs' own points, proof after proof.
pub open spec fn own_scalars(entries: Seq<BatchEntry>, alphas: Seq<int>) -> Seq<int>
    decreases entries.len(),
{
    if entries.len() == 0 {
        Seq::empty()
    } else {
        own_scalars(entries.drop_last(), alphas.drop_last()) + entries.last().own_scalars(alphas.last())
    }
}

/// The proofs' own points, proof after proof.
pub open spec fn own_points(entries: Seq<BatchEntry>) -> Seq<PointModel>
    decreases entries.len(),
{
    if entries.len() == 0 {
        Seq::empty()
    } else {
        own_points(entries.drop_last()) + entries.last().own_points()
    }
}

/// The largest padded size among the proofs; zero for none.
pub open spec fn max_padded(entries: Seq<BatchEntry>) -> nat
    decreases entries.len(),
{
    if entries.len() == 0 {
        0
    } else {
        let rest = max_padded(entries.drop_last());
        if entries.last().padded_n > rest {
            entries.last().padded_n
        } else {
            rest
        }
    }
}

/// The scalars of the batch: those of `B`, of `B_blinding`, of the first
/// `max` bases of each family, and then each proof's own.
pub open spec fn batch_scalars(entries: Seq<BatchEntry>, alphas: Seq<int>, max: nat) -> Seq<int> {
    seq![
        shared_scalar(entries, alphas, SharedBase::B),
        shared_scalar(entries, alphas, SharedBase::BBlinding),
    ] + Seq::new(max, |i: int| shared_scalar(entries, alphas, SharedBase::G(i))) + Seq::new(
        max,
        |i: int| shared_scalar(entries, alphas, SharedBase::H(i)),
    ) + own_scalars(entries, alphas)
}

/// The points of the batch, in the order of their scalars.
pub open spec fn batch_points(
    b: PointModel,
    b_blinding: PointModel,
    g: Seq<PointModel>,
    h: Seq<PointModel>,
    entries: Seq<BatchEntry>,
    max: nat,
) -> Seq<PointModel> {
    seq![b, b_blinding] + g.take(max as int) + h.take(max as int) + own_points(entries)
}

/// Whether the one multiscalar multiplication of the batch gives the identity.
pub open spec fn batch_vanishes(
    pc_gens: PedersenGens,
    bp_gens: BulletproofGens,
    entries: Seq<BatchEntry>,
    alphas: Seq<int>,
) -> bool {
    msm_sum(
        batch_points(
            pc_gens.B@,
            pc_gens.B_blinding@,
            bp_gens.g_bases(),
            bp_gens.h_bases(),
            entries,
            max_padded(entries),
        ),
        batch_scalars(entries, alphas, max_padded(entries)),
    ).infinity
}

/// Adds to the scalars of the shared bases what one proof contributes.
fn add_contribution(b: &mut Fr, b_blinding: &mut Fr, g: &mut Vec<Fr>, h: &mut Vec<Fr>, e: &BatchInstance, alpha: Fr)
    requires
        e@.well_formed(),
        old(g)@.len() == old(h)@.len(),
        e.padded_n <= old(g)@.len(),
    ensures
        final(b)@ == fadd(old(b)@, e@.contribution(alpha@, SharedBase::B)),
        final(b_blinding)@ == fadd(old(b_blinding)@, e@.contribution(alpha@, SharedBase::BBlinding)),
        final(g)@.len() == old(g)@.len(),
        final(h)@.len() == old(h)@.len(),
        forall|i: int|
            0 <= i < old(g)@.len() ==> (#[trigger] final(g)@[i])@ == fadd(
                old(g)@[i]@,
                e@.contribution(alpha@, SharedBase::G(i)),
            ),
        forall|i: int|
            0 <= i < old(h)@.len() ==> (#[trigger] final(h)@[i])@ == fadd(
                old(h)@[i]@,
                e@.contribution(alpha@, SharedBase::H(i)),
            ),
{
    let p = e.padded_n;
    let max = g.len();
    let len = e.scalars.len();
    assert(e@.scalars.len() == len);
    assert(2 + 2 * p <= len);
    *b = b.add(alpha.mul(e.scalars[0]));
    *b_blinding = b_blinding.add(alpha.mul(e.scalars[1]));
    let mut i: usize = 0;
    while i < max
        invariant
            i <= max,
            max == old(g)@.len(),
            g@.len() == max,
            h@.len() == max,
            p == e.padded_n,
            p <= max,
            e@.well_formed(),
            e@.scalars.len() == e.scalars@.len(),
            len == e.scalars@.len(),
            2 + 2 * p <= len,
            forall|j: int|
                0 <= j < i ==> (#[trigger] g@[j])@ == fadd(old(g)@[j]@, e@.contribution(alpha@, SharedBase::G(j))),
            forall|j: int|
                0 <= j < i ==> (#[trigger] h@[j])@ == fadd(old(h)@[j]@, e@.contribution(alpha@, SharedBase::H(j))),
            forall|j: int| i <= j < max ==> #[trigger] g@[j] == old(g)@[j],
            forall|j: int| i <= j < max ==> #[trigger] h@[j] == old(h)@[j],
        decreases max - i,
    {
        let (dg, dh) = if i < p {
            (alpha.mul(e.scalars[2 + i]), alpha.mul(e.scalars[2 + p + i]))
        } else {
            (Fr::zero(), Fr::zero())
        };
        let gi = g[i];
        let hi = h[i];
        g.set(i, gi.add(dg));
        h.set(i, hi.add(dh));
        i += 1;
    }
}

/// Appends one proof's own scalars, scaled, and its own points.
fn append_own(scalars: &mut Vec<Fr>, points: &mut Vec<G1Affine>, e: &BatchInstance, alpha: Fr)
    requires
        e@.well_formed(),
    ensures
        scalars_model(final(scalars)@) == scalars_model(old(scalars)@) + e@.own_scalars(alpha@),
        points_model(final(points)@) == points_model(old(points)@) + e@.own_points(),
{
    let p = e.padded_n;
    let len = e.scalars.len();
    assert(e@.scalars.len() == len);
    assert(2 + 2 * p <= len);
    let start = 2 + 2 * p;
    let count = len - start;
    let mut own: Vec<Fr> = Vec::new();
    let mut i: usize = 0;
    while i < count
        invariant
            i <= count,
            start == 2 + 2 * p,
            p == e.padded_n,
            count == e.scalars@.len() - start,
            len == e.scalars@.len(),
            start <= len,
            e@.scalars.len() == len,
            own@.len() == i,
            forall|j: int| 0 <= j < i ==> (#[trigger] own@[j])@ == fmul(alpha@, e@.scalars[start + j]),
        decreases count - i,
    {
        own.push(alpha.mul(e.scalars[start + i]));
        i += 1;
    }
    assert(scalars_model(own@) =~= e@.own_scalars(alpha@));
    extend_scalars(scalars, &own);

    e.proof.append_points(&e.commitments, points);
}

/// The points and the scalars of the one multiscalar multiplication that
/// decides a batch, for given coefficients. `max_n_padded` is the largest
/// padded size among the proofs.
#[verifier::rlimit(40)]
pub fn batch_combine(
    instances: &Vec<BatchInstance>,
    coefficients: &Vec<Fr>,
    pc_gens: &PedersenGens,
    bp_gens: &BulletproofGens,
    max_n_padded: usize,
) -> (r: (Vec<G1Affine>, Vec<Fr>))
    requires
        coefficients@.len() == instances@.len(),
        forall|k: int| 0 <= k < instances@.len() ==> (#[trigger] instances@[k])@.well_formed(),
        forall|k: int| 0 <= k < instances@.len() ==> (#[trigger] instances@[k]).padded_n <= max_n_padded,
        max_n_padded <= bp_gens.g_bases().len(),
    ensures
        points_model(r.0@) == batch_points(
            pc_gens.B@,
            pc_gens.B_blinding@,
            bp_gens.g_bases(),
            bp_gens.h_bases(),
            entries_model(instances@),
            max_n_padded as nat,
        ),
        scalars_model(r.1@) == batch_scalars(
            entries_model(instances@),
            scalars_model(coefficients@),
            max_n_padded as nat,
        ),
{
    let ghost entries = entries_model(instances@);
    let ghost alphas = scalars_model(coefficients@);
    proof {
        bp_gens.lemma_families_of_one_length();
    }
    let mut b = Fr::zero();
    let mut b_blinding = Fr::zero();
    let mut g = zeros(max_n_padded);
    let mut h = zeros(max_n_padded);
    let mut own: Vec<Fr> = Vec::new();
    let mut points: Vec<G1Affine> = Vec::new();
    points.push(pc_gens.B);
    points.push(pc_gens.B_blinding);
    assert(points_model(points@) =~= seq![pc_gens.B@, pc_gens.B_blinding@]);
    bp_gens.append_G(max_n_padded, &mut points);
    bp_gens.append_H(max_n_padded, &mut points);
    let ghost head = points_model(points@);
    let mut k: usize = 0;
    proof {
        assert(entries.take(0) =~= Seq::<BatchEntry>::empty());
        assert(alphas.take(0) =~= Seq::<int>::empty());
        assert(scalars_model(own@) =~= own_scalars(entries.take(0), alphas.take(0)));
        assert(points_model(points@) =~= head + own_points(entries.take(0)));
    }
    while k < instances.len()
        invariant
            k <= instances@.len(),
            coefficients@.len() == instances@.len(),
            entries == entries_model(instances@),
            alphas == scalars_model(coefficients@),
            forall|j: int| 0 <= j < instances@.len() ==> (#[trigger] instances@[j])@.well_formed(),
            forall|j: int| 0 <= j < instances@.len() ==> (#[trigger] instances@[j]).padded_n <= max_n_padded,
            g@.len() == max_n_padded,
            h@.len() == max_n_padded,
            b@ == shared_scalar(entries.take(k as int), alphas.take(k as int), SharedBase::B),
            b_blinding@ == shared_scalar(entries.take(k as int), alphas.take(k as int), SharedBase::BBlinding),
            forall|i: int|
                0 <= i < max_n_padded ==> (#[trigger] g@[i])@ == shared_scalar(
                    entries.take(k as int),
                    alphas.take(k as int),
                    SharedBase::G(i),
                ),
            forall|i: int|
                0 <= i < max_n_padded ==> (#[trigger] h@[i])@ == shared_scalar(
                    entries.take(k as int),
                    alphas.take(k as int),
                    SharedBase::H(i),
                ),
            scalars_model(own@) == own_scalars(entries.take(k as int), alphas.take(k as int)),
            points_model(points@) == head + own_points(entries.take(k as int)),
        decreases instances@.len() - k,
    {
        let e = &instances[k];
        let alpha = coefficients[k];
        proof {
            assert(instances@[k as int]@.well_formed());
            assert(instances@[k as int].padded_n <= max_n_padded);
            assert(entries.take(k + 1).drop_last() =~= entries.take(k as int));
            assert(alphas.take(k + 1).drop_last() =~= alphas.take(k as int));
            assert(entries.take(k + 1).last() == e@);
            assert(alphas.take(k + 1).last() == alpha@);
        }
        add_contribution(&mut b, &mut b_blinding, &mut g, &mut h, e, alpha);
        append_own(&mut own, &mut points, e, alpha);
        proof {
            assert(points_model(points@) =~= head + own_points(entries.take(k + 1)));
        }
        k += 1;
    }
    let mut scalars: Vec<Fr> = Vec::new();
    scalars.push(b);
    scalars.push(b_blinding);
    assert(scalars_model(scalars@) =~= seq![b@, b_blinding@]);
    extend_scalars(&mut scalars, &g);
    extend_scalars(&mut scalars, &h);
    extend_scalars(&mut scalars, &own);
    proof {
        assert(entries.take(k as int) =~= entries);
        assert(alphas.take(k as int) =~= alphas);
        assert(scalars_model(g@) =~= Seq::new(
            max_n_padded as nat,
            |i: int| shared_scalar(entries, alphas, SharedBase::G(i)),
        ));
        assert(scalars_model(h@) =~= Seq::new(
            max_n_padded as nat,
            |i: int| shared_scalar(entries, alphas, SharedBase::H(i)),
        ));
    }
    (points, scalars)
}


/// The own points of well-formed proofs are as many as their own scalars.
pub proof fn lemma_own_lengths(entries: Seq<BatchEntry>, alphas: Seq<int>)
    requires
        alphas.len() == entries.len(),
        forall|k: int| 0 <= k < entries.len() ==> (#[trigger] entries[k]).well_formed(),
    ensures
        own_points(entries).len() == own_scalars(entries, alphas).len(),
    decreases entries.len(),
{
    if entries.len() > 0 {
        let rest = entries.drop_last();
        assert forall|k: int| 0 <= k < rest.len() implies (#[trigger] rest[k]).well_formed() by {
            assert(rest[k] == entries[k]);
        }
        lemma_own_lengths(rest, alphas.drop_last());
        assert(entries[entries.len() - 1].well_formed());
    }
}

/// The largest padded size among the proofs.
fn largest_padded(instances: &Vec<BatchInstance>) -> (max: usize)
    ensures
        max == max_padded(entries_model(instances@)),
        forall|k: int| 0 <= k < instances@.len() ==> (#[trigger] instances@[k]).padded_n <= max,
{
    let ghost entries = entries_model(instances@);
    let mut max: usize = 0;
    let mut k: usize = 0;
    assert(entries.take(0) =~= Seq::<BatchEntry>::empty());
    while k < instances.len()
        invariant
            k <= instances@.len(),
            entries == entries_model(instances@),
            max == max_padded(entries.take(k as int)),
            forall|j: int| 0 <= j < k ==> (#[trigger] instances@[j]).padded_n <= max,
        decreases instances@.len() - k,
    {
        proof {
            assert(entries.take(k + 1).drop_last() =~= entries.take(k as int));
            assert(entries.take(k + 1).last() == instances@[k as int]@);
        }
        if instances[k].padded_n > max {
            max = instances[k].padded_n;
        }
        k += 1;
    }
    assert(entries.take(k as int) =~= entries);
    max
}

/// Decides a batch for given coefficients, one for each proof: the batch
/// holds where the one multiscalar multiplication gives the identity.
pub fn batch_verify_with_coefficients(
    instances: &Vec<BatchInstance>,
    coefficients: &Vec<Fr>,
    pc_gens: &PedersenGens,
    bp_gens: &BulletproofGens,
) -> (r: Result<(), R1CSError>)
    requires
        coefficients@.len() == instances@.len(),
        forall|k: int| 0 <= k < instances@.len() ==> (#[trigger] instances@[k])@.well_formed(),
        forall|k: int|
            0 <= k < instances@.len() ==> (#[trigger] instances@[k]).padded_n <= bp_gens.g_bases().len(),
    ensures
        r.is_ok() <==> batch_vanishes(
            *pc_gens,
            *bp_gens,
            entries_model(instances@),
            scalars_model(coefficients@),
        ),
        r.is_err() ==> r->Err_0 == R1CSError::VerificationError,
{
    let max_n_padded = largest_padded(instances);
    proof {
        bp_gens.lemma_families_of_one_length();
        if instances@.len() > 0 {
            lemma_max_is_attained(entries_model(instances@));
            let k = choose|k: int|
                0 <= k < instances@.len() && (#[trigger] entries_model(instances@)[k]).padded_n
                    == max_n_padded;
            assert(instances@[k].padded_n <= bp_gens.g_bases().len());
        }
    }
    let (points, scalars) = batch_combine(instances, coefficients, pc_gens, bp_gens, max_n_padded);
    proof {
        let entries = entries_model(instances@);
        let alphas = scalars_model(coefficients@);
        assert forall|k: int| 0 <= k < entries.len() implies (#[trigger] entries[k]).well_formed() by {
            assert(instances@[k]@.well_formed());
        }
        lemma_own_lengths(entries, alphas);
        assert(points@.len() == points_model(points@).len());
        assert(scalars@.len() == scalars_model(scalars@).len());
    }
    let multi_exp = multi_scalar_mul(&points, &scalars);
    if !multi_exp.is_identity() {
        Err(R1CSError::VerificationError)
    } else {
        Ok(())
    }
}

/// The largest padded size is that of some proof.
pub proof fn lemma_max_is_attained(entries: Seq<BatchEntry>)
    requires
        entries.len() > 0,
    ensures
        exists|k: int| 0 <= k < entries.len() && (#[trigger] entries[k]).padded_n == max_padded(entries),
    decreases entries.len(),
{
    let rest = entries.drop_last();
    let last = entries.len() - 1;
    if rest.len() == 0 {
        assert(max_padded(rest) == 0);
        assert(entries[last].padded_n == max_padded(entries));
    } else if entries.last().padded_n > max_padded(rest) {
        assert(entries[last].padded_n == max_padded(entries));
    } else {
        lemma_max_is_attained(rest);
        let k = choose|k: int| 0 <= k < rest.len() && (#[trigger] rest[k]).padded_n == max_padded(rest);
        assert(entries[k] == rest[k]);
    }
}

/// The verifiers and proofs of a batch as the contracts see them.
pub open spec fn instances_model<G: RandomizedGadget>(instances: Seq<(Verifier<G>, &R1CSProof)>) -> Seq<
    (VerifierModel<G>, ProofModel),
> {
    instances.map_values(|i: (Verifier<G>, &R1CSProof)| (i.0@, (*i.1)@))
}

/// What a verification that reaches its scalars brings into a batch.
pub open spec fn entry_of<G: RandomizedGadget>(v: VerifierModel<G>, p: ProofModel, capacity: nat) -> BatchEntry {
    let (cs, scalars) = verification_outcome(v, p, capacity)->Ok_0;
    BatchEntry {
        commitments: cs.commitments,
        proof: p,
        scalars,
        padded_n: next_power_of_two(cs.num_vars),
    }
}

/// What the verifications of a batch bring into it.
pub open spec fn batch_entries<G: RandomizedGadget>(
    models: Seq<(VerifierModel<G>, ProofModel)>,
    capacity: nat,
) -> Seq<BatchEntry> {
    models.map_values(|i: (VerifierModel<G>, ProofModel)| entry_of(i.0, i.1, capacity))
}

/// Whether verification `k` is the first that does not reach its scalars.
pub open spec fn fails_first<G: RandomizedGadget>(
    models: Seq<(VerifierModel<G>, ProofModel)>,
    capacity: nat,
    k: int,
) -> bool {
    &&& 0 <= k < models.len()
    &&& verification_outcome(models[k].0, models[k].1, capacity).is_err()
    &&& forall|j: int| 0 <= j < k ==> verification_outcome(#[trigger] models[j].0, models[j].1, capacity).is_ok()
}

/// Whether every verification reaches its scalars.
pub open spec fn all_reach_scalars<G: RandomizedGadget>(
    models: Seq<(VerifierModel<G>, ProofModel)>,
    capacity: nat,
) -> bool {
    forall|j: int| 0 <= j < models.len() ==> verification_outcome(#[trigger] models[j].0, models[j].1, capacity).is_ok()
}

/// Whether `alphas` are coefficients under which the batch holds: one for
/// each proof, none of them zero, and the multiscalar multiplication gives
/// the identity.
pub open spec fn holds_under(
    pc_gens: PedersenGens,
    bp_gens: BulletproofGens,
    entries: Seq<BatchEntry>,
    alphas: Seq<int>,
) -> bool {
    &&& alphas.len() == entries.len()
    &&& forall|k: int| 0 <= k < alphas.len() ==> is_residue(#[trigger] alphas[k]) && alphas[k] != 0
    &&& batch_vanishes(pc_gens, bp_gens, entries, alphas)
}

/// How often a coefficient is drawn anew when it comes out zero.
pub const COEFFICIENT_DRAWS: usize = 64;

/// A coefficient that is not zero, unless the generator gives zero every time.
fn draw_coefficient(prng: &mut ark_std::rand::rngs::StdRng) -> (r: Option<Fr>)
    ensures
        r.is_some() ==> is_residue(r.unwrap()@) && r.unwrap()@ != 0,
{
    let mut tries: usize = 0;
    while tries < COEFFICIENT_DRAWS
        invariant
            tries <= COEFFICIENT_DRAWS,
        decreases COEFFICIENT_DRAWS - tries,
    {
        let drawn = coefficient_from(Fr::random(prng));
        if drawn.is_some() {
            return drawn;
        }
        tries += 1;
    }
    None
}

/// One coefficient for each of `n` proofs.
fn draw_coefficients(prng: &mut ark_std::rand::rngs::StdRng, n: usize) -> (r: Option<Vec<Fr>>)
    ensures
        r.is_some() ==> r.unwrap()@.len() == n && forall|k: int|
            0 <= k < n ==> is_residue((#[trigger] r.unwrap()@[k])@) && r.unwrap()@[k]@ != 0,
        n == 0 ==> r.is_some() && *final(prng) == *old(prng),
{
    let mut out: Vec<Fr> = Vec::new();
    let mut k: usize = 0;
    while k < n
        invariant
            k <= n,
            out@.len() == k,
            forall|j: int| 0 <= j < k ==> is_residue((#[trigger] out@[j])@) && out@[j]@ != 0,
            k == 0 ==> *prng == *old(prng),
        decreases n - k,
    {
        match draw_coefficient(prng) {
            Some(alpha) => {
                out.push(alpha);
            },
            None => {
                return None;
            },
        }
        k += 1;
    }
    Some(out)
}

/// What a drawn scalar is worth as a coefficient: itself, unless it is zero.
pub fn coefficient_from(candidate: Fr) -> (r: Option<Fr>)
    ensures
        r == if candidate@ != 0 {
            Some(candidate)
        } else {
            None
        },
        r.is_some() ==> is_residue(r.unwrap()@) && r.unwrap()@ != 0,
{
    proof {
        use_type_invariant(&candidate);
    }
    if candidate.is_zero() {
        None
    } else {
        Some(candidate)
    }
}

/// The instances in reverse.
fn reversed<'a, G: RandomizedGadget>(instances: Vec<(Verifier<G>, &'a R1CSProof)>) -> (r: Vec<
    (Verifier<G>, &'a R1CSProof),
>)
    ensures
        r@.len() == instances@.len(),
        forall|i: int| 0 <= i < r@.len() ==> #[trigger] r@[i] == instances@[instances@.len() - 1 - i],
{
    let mut stack = instances;
    let mut out: Vec<(Verifier<G>, &R1CSProof)> = Vec::new();
    let ghost n = instances@.len();
    while stack.len() > 0
        invariant
            stack@.len() <= n,
            n == instances@.len(),
            stack@ == instances@.take(stack@.len() as int),
            out@.len() == n - stack@.len(),
            forall|i: int| 0 <= i < out@.len() ==> #[trigger] out@[i] == instances@[n - 1 - i],
        decreases stack@.len(),
    {
        let ghost before = stack@;
        let item = stack.pop().unwrap();
        assert(stack@ =~= instances@.take(stack@.len() as int));
        out.push(item);
    }
    out
}

/// Runs the verification of one proof up to its scalars.
fn prepare_one<'a, G: RandomizedGadget>(
    verifier: Verifier<G>,
    proof: &'a R1CSProof,
    bp_gens: &BulletproofGens,
) -> (r: Result<
    BatchInstance<'a>,
    R1CSError,
>)
    requires
        verifier@.cs.well_formed(),
    ensures
        match verification_outcome(verifier@, (*proof)@, bp_gens.g_bases().len()) {
            Ok(_) => r.is_ok() && r.unwrap()@ == entry_of(verifier@, (*proof)@, bp_gens.g_bases().len())
                && r.unwrap()@.well_formed() && r.unwrap().padded_n <= bp_gens.g_bases().len(),
            Err(e) => r.is_err() && r->Err_0 == e,
        },
{
    let ghost model = verifier@;
    let ghost capacity = bp_gens.g_bases().len();
    let (verifier, scalars) = match verifier.verification_scalars(proof, bp_gens) {
        Ok(t) => t,
        Err(e) => {
            return Err(e);
        },
    };
    proof {
        lemma_outcome_shape(model, (*proof)@, capacity);
        bp_gens.lemma_families_of_one_length();
    }
    let padded_n = match checked_next_power_of_two(verifier.multipliers_len()) {
        Some(p) => p,
        None => {
            return Err(R1CSError::InvalidGeneratorsLength);
        },
    };
    let commitments = verifier.into_commitments();
    Ok(BatchInstance { commitments, proof, scalars, padded_n })
}

/// Runs the verification of each proof up to its scalars, in order; the
/// first that fails ends the run with its error.
#[verifier::rlimit(40)]
fn prepare<'a, G: RandomizedGadget>(
    instances: Vec<(Verifier<G>, &'a R1CSProof)>,
    bp_gens: &BulletproofGens,
) -> (r: Result<
    Vec<BatchInstance<'a>>,
    R1CSError,
>)
    requires
        forall|k: int| 0 <= k < instances@.len() ==> (#[trigger] instances@[k]).0@.cs.well_formed(),
    ensures
        ({
            let models = instances_model(instances@);
            let capacity = bp_gens.g_bases().len();
            &&& forall|k: int|
                fails_first(models, capacity, k) ==> r.is_err() && r->Err_0 == verification_outcome(
                    models[k].0,
                    models[k].1,
                    capacity,
                )->Err_0
            &&& all_reach_scalars(models, capacity) ==> r.is_ok() && entries_model(r.unwrap()@)
                == batch_entries(models, capacity)
            &&& r.is_ok() ==> forall|k: int|
                0 <= k < r.unwrap()@.len() ==> (#[trigger] r.unwrap()@[k])@.well_formed() && r.unwrap()@[k].padded_n
                    <= capacity
        }),
{
    let ghost models = instances_model(instances@);
    let ghost capacity = bp_gens.g_bases().len();
    let n = instances.len();
    let mut stack = reversed(instances);
    let mut prepared: Vec<BatchInstance> = Vec::new();
    let mut k: usize = 0;
    while k < n
        invariant
            k <= n,
            n == instances@.len(),
            models == instances_model(instances@),
            capacity == bp_gens.g_bases().len(),
            stack@.len() == n - k,
            forall|i: int| 0 <= i < stack@.len() ==> #[trigger] stack@[i] == instances@[n - 1 - i],
            forall|j: int| 0 <= j < n ==> (#[trigger] instances@[j]).0@.cs.well_formed(),
            prepared@.len() == k,
            forall|j: int|
                0 <= j < k ==> verification_outcome(#[trigger] models[j].0, models[j].1, capacity).is_ok(),
            forall|j: int| 0 <= j < k ==> (#[trigger] prepared@[j])@ == entry_of(models[j].0, models[j].1, capacity),
            forall|j: int| 0 <= j < k ==> (#[trigger] prepared@[j])@.well_formed() && prepared@[j].padded_n <= capacity,
        decreases n - k,
    {
        let (verifier, proof) = stack.pop().unwrap();
        let ghost model = verifier@;
        proof {
            assert(instances@[k as int] == (verifier, proof));
            assert(models[k as int] == (model, (*proof)@));
            assert(instances@[k as int].0@.cs.well_formed());
        }
        let instance = match prepare_one(verifier, proof, bp_gens) {
            Ok(i) => i,
            Err(e) => {
                proof {
                    assert(fails_first(models, capacity, k as int));
                    assert forall|j: int| fails_first(models, capacity, j) implies j == k by {
                        if j < k {
                            assert(verification_outcome(models[j].0, models[j].1, capacity).is_ok());
                        } else if j > k {
                            assert(verification_outcome(models[k as int].0, models[k as int].1, capacity).is_ok());
                        }
                    }
                    assert(!all_reach_scalars(models, capacity));
                }
                return Err(e);
            },
        };
        prepared.push(instance);
        k += 1;
    }
    proof {
        assert forall|j: int| fails_first(models, capacity, j) implies false by {
            assert(verification_outcome(models[j].0, models[j].1, capacity).is_ok());
        }
        assert(entries_model(prepared@) =~= batch_entries(models, capacity));
    }
    Ok(prepared)
}

/// Checks many proofs at once, each against its own verifier. The first
/// proof whose verification cannot reach its scalars ends the check with
/// its error. Else each proof gets a coefficient drawn from `prng`, and the
/// batch holds where the one multiscalar multiplication gives the identity.
/// Which proof fails it does not say. A coefficient that comes out zero is
/// drawn anew; where `COEFFICIENT_DRAWS` draws in a row give zero, the batch
/// fails with `VerificationError`. For no proofs nothing is drawn, and the
/// multiplication over the two bases of commitments alone decides.
pub fn batch_verify<'a, G: RandomizedGadget>(
    prng: &mut ark_std::rand::rngs::StdRng,
    instances: Vec<(Verifier<G>, &'a R1CSProof)>,
    pc_gens: &PedersenGens,
    bp_gens: &BulletproofGens,
) -> (r: Result<(), R1CSError>)
    requires
        forall|k: int| 0 <= k < instances@.len() ==> (#[trigger] instances@[k]).0@.cs.well_formed(),
    ensures
        ({
            let models = instances_model(instances@);
            let capacity = bp_gens.g_bases().len();
            &&& forall|k: int|
                fails_first(models, capacity, k) ==> r.is_err() && r->Err_0 == verification_outcome(
                    models[k].0,
                    models[k].1,
                    capacity,
                )->Err_0
            &&& all_reach_scalars(models, capacity) ==> {
                &&& r.is_err() ==> r->Err_0 == R1CSError::VerificationError
                &&& r.is_ok() ==> exists|alphas: Seq<int>|
                    holds_under(*pc_gens, *bp_gens, batch_entries(models, capacity), alphas)
            }
            &&& instances@.len() == 0 ==> (r.is_ok() <==> batch_vanishes(
                *pc_gens,
                *bp_gens,
                Seq::<BatchEntry>::empty(),
                Seq::<int>::empty(),
            ))
        }),
{
    let ghost models = instances_model(instances@);
    let ghost capacity = bp_gens.g_bases().len();
    proof {
        if instances@.len() == 0 {
            assert(all_reach_scalars(models, capacity));
            assert(batch_entries(models, capacity) =~= Seq::<BatchEntry>::empty());
        }
    }
    let prepared = match prepare(instances, bp_gens) {
        Ok(p) => p,
        Err(e) => {
            return Err(e);
        },
    };
    proof {
        if instances@.len() == 0 {
            assert(entries_model(prepared@) =~= Seq::<BatchEntry>::empty());
            assert(prepared@.len() == 0);
        }
    }
    let coefficients = match draw_coefficients(prng, prepared.len()) {
        Some(c) => c,
        None => {
            proof {
                assert forall|k: int| fails_first(models, capacity, k) implies false by {}
            }
            return Err(R1CSError::VerificationError);
        },
    };
    let r = batch_verify_with_coefficients(&prepared, &coefficients, pc_gens, bp_gens);
    proof {
        if instances@.len() == 0 {
            assert(scalars_model(coefficients@) =~= Seq::<int>::empty());
        }
        if all_reach_scalars(models, capacity) && r.is_ok() {
            let alphas = scalars_model(coefficients@);
            assert(holds_under(*pc_gens, *bp_gens, batch_entries(models, capacity), alphas));
        }
    }
    r
}


/// A batch of one proof is that proof scaled: its points are those of the
/// proof's own verification, and its scalars are the proof's scalars, each
/// times the coefficient. So the batch asks of the group what the single
/// verification asks, up to a factor that is not zero.
pub proof fn lemma_batch_of_one(
    b: PointModel,
    b_blinding: PointModel,
    g: Seq<PointModel>,
    h: Seq<PointModel>,
    e: BatchEntry,
    alpha: int,
)
    requires
        e.well_formed(),
    ensures
        max_padded(seq![e]) == e.padded_n,
        batch_points(b, b_blinding, g, h, seq![e], e.padded_n) == crate::r1cs::verification::verification_points(
            b,
            b_blinding,
            g,
            h,
            e.proof,
            e.commitments,
            e.padded_n,
        ),
        batch_scalars(seq![e], seq![alpha], e.padded_n) == Seq::new(
            e.scalars.len(),
            |j: int| fmul(alpha, e.scalars[j]),
        ),
{
    let entries = seq![e];
    let alphas = seq![alpha];
    let none = entries.drop_last();
    assert(none.len() == 0);
    assert(entries.last() == e);
    assert(alphas.last() == alpha);
    assert(max_padded(none) == 0);
    assert(own_points(none) =~= Seq::<PointModel>::empty());
    assert(own_scalars(none, alphas.drop_last()) =~= Seq::<int>::empty());
    assert(own_points(entries) =~= e.own_points());
    assert(own_scalars(entries, alphas) =~= e.own_scalars(alpha));
    assert forall|base: SharedBase| #[trigger]
        shared_scalar(entries, alphas, base) == e.contribution(alpha, base) by {
        assert(shared_scalar(none, alphas.drop_last(), base) == 0);
        crate::field::lemma_fadd_zero(alpha, base_scalar(e, base));
    }
    assert(batch_points(b, b_blinding, g, h, entries, e.padded_n)
        =~= crate::r1cs::verification::verification_points(
        b,
        b_blinding,
        g,
        h,
        e.proof,
        e.commitments,
        e.padded_n,
    ));
    assert(batch_scalars(entries, alphas, e.padded_n) =~= Seq::new(
        e.scalars.len(),
        |j: int| fmul(alpha, e.scalars[j]),
    ));
}

/// The scalar of the proof that goes with a shared base; zero where the
/// proof's circuit is too small to use the base.
spec fn base_scalar(e: BatchEntry, base: SharedBase) -> int {
    match base {
        SharedBase::B => e.scalars[0],
        SharedBase::BBlinding => e.scalars[1],
        SharedBase::G(i) => if i < e.padded_n {
            e.scalars[2 + i]
        } else {
            0
        },
        SharedBase::H(i) => if i < e.padded_n {
            e.scalars[2 + e.padded_n + i]
        } else {
            0
        },
    }
}

} // verus!
