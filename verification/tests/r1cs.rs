//! Whole proofs: a prover written for these tests makes them, the library checks them.

use ark_ec::{AffineCurve, ProjectiveCurve};
use ark_ff::{BigInteger256, Field, One, PrimeField, UniformRand, Zero};
use ark_pallas::{Affine, Fq as ArkFq, Fr as ArkFr, Projective};
use ark_std::rand::rngs::StdRng;
use ark_std::rand::SeedableRng;
use bulletproofs_r1cs::curve::{Fq, Fr, G1Affine};
use bulletproofs_r1cs::errors::R1CSError;
use bulletproofs_r1cs::generators::{BulletproofGens, PedersenGens};
use bulletproofs_r1cs::inner_product_proof::InnerProductProof;
use bulletproofs_r1cs::r1cs::batch::{batch_verify, coefficient_from};
use bulletproofs_r1cs::r1cs::flatten::flatten;
use bulletproofs_r1cs::r1cs::gadgets::ScaledSum;
use bulletproofs_r1cs::r1cs::linear_combination::{LinearCombination, Variable};
use bulletproofs_r1cs::r1cs::r1cs_proof::R1CSProof;
use bulletproofs_r1cs::r1cs::verification::{
    ConstraintModel, RandomizedGadget, RandomizingVerifier, Verifier,
};
use bulletproofs_r1cs::transcript::{
    append_point, append_scalar, append_u64, challenge_scalar, innerproduct_domain_sep, new_transcript,
    r1cs_1phase_domain_sep, r1cs_2phase_domain_sep, r1cs_domain_sep, ProofTranscript,
};
use bulletproofs_r1cs::util::{Poly6, VecPoly3};

fn to_fr(x: ArkFr) -> Fr {
    Fr::from_limbs(x.into_repr().0).unwrap()
}

fn from_fr(x: Fr) -> ArkFr {
    ArkFr::from_repr(BigInteger256(x.limbs())).unwrap()
}

fn to_point(p: Affine) -> G1Affine {
    G1Affine::new(
        Fq::from_limbs(p.x.into_repr().0).unwrap(),
        Fq::from_limbs(p.y.into_repr().0).unwrap(),
        p.infinity,
    )
}

fn from_point(p: &G1Affine) -> Affine {
    Affine::new(
        ArkFq::from_repr(BigInteger256(p.x.limbs())).unwrap(),
        ArkFq::from_repr(BigInteger256(p.y.limbs())).unwrap(),
        p.infinity,
    )
}

fn small(v: i64) -> ArkFr {
    if v < 0 {
        -ArkFr::from((-v) as u64)
    } else {
        ArkFr::from(v as u64)
    }
}

fn lc(terms: &[(Variable, ArkFr)]) -> LinearCombination {
    let mut out = LinearCombination::new();
    for (var, coeff) in terms {
        out.push_term(*var, to_fr(*coeff));
    }
    out
}

struct Gens {
    b: Affine,
    b_blinding: Affine,
    g: Vec<Affine>,
    h: Vec<Affine>,
}

impl Gens {
    fn new(capacity: usize) -> Gens {
        let mut rng = StdRng::seed_from_u64(7);
        let b = Affine::prime_subgroup_generator();
        let b_blinding = Projective::rand(&mut rng).into_affine();
        let g = (0..capacity).map(|_| Projective::rand(&mut rng).into_affine()).collect();
        let h = (0..capacity).map(|_| Projective::rand(&mut rng).into_affine()).collect();
        Gens { b, b_blinding, g, h }
    }

    fn pc(&self) -> PedersenGens {
        PedersenGens { B: to_point(self.b), B_blinding: to_point(self.b_blinding) }
    }

    fn bp(&self, capacity: usize) -> BulletproofGens {
        BulletproofGens::new(
            self.g[..capacity].iter().map(|p| to_point(*p)).collect(),
            self.h[..capacity].iter().map(|p| to_point(*p)).collect(),
        )
        .unwrap()
    }
}

fn msm(points: &[Affine], scalars: &[ArkFr]) -> Projective {
    let mut acc = Projective::zero();
    for (p, s) in points.iter().zip(scalars.iter()) {
        acc += p.mul(*s);
    }
    acc
}

/// The prover's side of a constraint system, with the values of all variables.
struct Prover {
    transcript: ProofTranscript,
    constraints: Vec<Vec<(Variable, ArkFr)>>,
    a_l: Vec<ArkFr>,
    a_r: Vec<ArkFr>,
    a_o: Vec<ArkFr>,
    v: Vec<ArkFr>,
    v_blinding: Vec<ArkFr>,
    deferred: Vec<Box<dyn Fn(&mut Prover)>>,
    pending: Option<usize>,
}

impl Prover {
    fn new(mut transcript: ProofTranscript) -> Prover {
        r1cs_domain_sep(&mut transcript);
        Prover {
            transcript,
            constraints: vec![],
            a_l: vec![],
            a_r: vec![],
            a_o: vec![],
            v: vec![],
            v_blinding: vec![],
            deferred: vec![],
            pending: None,
        }
    }

    fn commit(&mut self, gens: &Gens, v: ArkFr, blinding: ArkFr) -> (G1Affine, Variable) {
        let point = to_point((gens.b.mul(v) + gens.b_blinding.mul(blinding)).into_affine());
        let i = self.v.len();
        self.v.push(v);
        self.v_blinding.push(blinding);
        append_point(&mut self.transcript, b"V", &point);
        (point, Variable::Committed(i))
    }

    fn eval(&self, terms: &[(Variable, ArkFr)]) -> ArkFr {
        terms
            .iter()
            .map(|(var, coeff)| {
                *coeff
                    * match var {
                        Variable::Committed(i) => self.v[*i],
                        Variable::MultiplierLeft(i) => self.a_l[*i],
                        Variable::MultiplierRight(i) => self.a_r[*i],
                        Variable::MultiplierOutput(i) => self.a_o[*i],
                        Variable::One => ArkFr::one(),
                    }
            })
            .sum()
    }

    fn multiply(
        &mut self,
        mut left: Vec<(Variable, ArkFr)>,
        mut right: Vec<(Variable, ArkFr)>,
    ) -> (Variable, Variable, Variable) {
        let l = self.eval(&left);
        let r = self.eval(&right);
        let (l_var, r_var, o_var) = self.allocate_multiplier(l, r);
        left.push((l_var, -ArkFr::one()));
        right.push((r_var, -ArkFr::one()));
        self.constraints.push(left);
        self.constraints.push(right);
        (l_var, r_var, o_var)
    }

    fn allocate_multiplier(&mut self, l: ArkFr, r: ArkFr) -> (Variable, Variable, Variable) {
        let i = self.a_l.len();
        self.a_l.push(l);
        self.a_r.push(r);
        self.a_o.push(l * r);
        (Variable::MultiplierLeft(i), Variable::MultiplierRight(i), Variable::MultiplierOutput(i))
    }

    fn allocate(&mut self, value: ArkFr) -> Variable {
        match self.pending {
            None => {
                let i = self.a_l.len();
                self.a_l.push(value);
                self.a_r.push(ArkFr::zero());
                self.a_o.push(ArkFr::zero());
                self.pending = Some(i);
                Variable::MultiplierLeft(i)
            }
            Some(i) => {
                self.pending = None;
                self.a_r[i] = value;
                self.a_o[i] = self.a_l[i] * value;
                Variable::MultiplierRight(i)
            }
        }
    }

    fn constrain(&mut self, terms: Vec<(Variable, ArkFr)>) {
        self.constraints.push(terms);
    }

    fn challenge(&mut self, label: &'static [u8]) -> ArkFr {
        from_fr(challenge_scalar(&mut self.transcript, label))
    }

    fn prove(mut self, gens: &Gens, rng: &mut StdRng) -> R1CSProof {
        append_u64(&mut self.transcript, b"m", self.v.len() as u64);
        let n1 = self.a_l.len();

        let i_blinding1 = ArkFr::rand(rng);
        let o_blinding1 = ArkFr::rand(rng);
        let s_blinding1 = ArkFr::rand(rng);
        let mut s_l: Vec<ArkFr> = (0..n1).map(|_| ArkFr::rand(rng)).collect();
        let mut s_r: Vec<ArkFr> = (0..n1).map(|_| ArkFr::rand(rng)).collect();

        let a_i1 = (gens.b_blinding.mul(i_blinding1)
            + msm(&gens.g[..n1], &self.a_l)
            + msm(&gens.h[..n1], &self.a_r))
        .into_affine();
        let a_o1 = (gens.b_blinding.mul(o_blinding1) + msm(&gens.g[..n1], &self.a_o)).into_affine();
        let s1 = (gens.b_blinding.mul(s_blinding1) + msm(&gens.g[..n1], &s_l) + msm(&gens.h[..n1], &s_r))
            .into_affine();
        append_point(&mut self.transcript, b"A_I1", &to_point(a_i1));
        append_point(&mut self.transcript, b"A_O1", &to_point(a_o1));
        append_point(&mut self.transcript, b"S1", &to_point(s1));

        self.pending = None;
        if self.deferred.is_empty() {
            r1cs_1phase_domain_sep(&mut self.transcript);
        } else {
            r1cs_2phase_domain_sep(&mut self.transcript);
            let callbacks = std::mem::take(&mut self.deferred);
            for callback in callbacks.iter() {
                callback(&mut self);
            }
        }

        let n = self.a_l.len();
        let n2 = n - n1;
        let padded_n = n.next_power_of_two();
        let pad = padded_n - n;
        assert!(padded_n <= gens.g.len());

        let (i_blinding2, o_blinding2, s_blinding2) = if n2 > 0 {
            (ArkFr::rand(rng), ArkFr::rand(rng), ArkFr::rand(rng))
        } else {
            (ArkFr::zero(), ArkFr::zero(), ArkFr::zero())
        };
        s_l.extend((0..n2).map(|_| ArkFr::rand(rng)));
        s_r.extend((0..n2).map(|_| ArkFr::rand(rng)));
        let (a_i2, a_o2, s2) = if n2 > 0 {
            (
                (gens.b_blinding.mul(i_blinding2)
                    + msm(&gens.g[n1..n], &self.a_l[n1..])
                    + msm(&gens.h[n1..n], &self.a_r[n1..]))
                .into_affine(),
                (gens.b_blinding.mul(o_blinding2) + msm(&gens.g[n1..n], &self.a_o[n1..])).into_affine(),
                (gens.b_blinding.mul(s_blinding2)
                    + msm(&gens.g[n1..n], &s_l[n1..])
                    + msm(&gens.h[n1..n], &s_r[n1..]))
                .into_affine(),
            )
        } else {
            (Affine::zero(), Affine::zero(), Affine::zero())
        };
        append_point(&mut self.transcript, b"A_I2", &to_point(a_i2));
        append_point(&mut self.transcript, b"A_O2", &to_point(a_o2));
        append_point(&mut self.transcript, b"S2", &to_point(s2));

        let y = self.challenge(b"y");
        let z = self.challenge(b"z");

        let constraints: Vec<LinearCombination> = self.constraints.iter().map(|c| lc(c)).collect();
        let (w_l, w_r, w_o, w_v, _) = flatten(&constraints, n, self.v.len(), &to_fr(z));
        let w_l: Vec<ArkFr> = w_l.into_iter().map(from_fr).collect();
        let w_r: Vec<ArkFr> = w_r.into_iter().map(from_fr).collect();
        let w_o: Vec<ArkFr> = w_o.into_iter().map(from_fr).collect();
        let w_v: Vec<ArkFr> = w_v.into_iter().map(from_fr).collect();

        let mut l_poly = VecPoly3::zero(n);
        let mut r_poly = VecPoly3::zero(n);
        let y_inv = y.inverse().unwrap();
        let mut exp_y = ArkFr::one();
        let mut exp_y_inv = vec![ArkFr::one(); padded_n];
        for i in 1..padded_n {
            exp_y_inv[i] = exp_y_inv[i - 1] * y_inv;
        }
        for i in 0..n {
            l_poly.1[i].value = to_fr(self.a_l[i] + exp_y_inv[i] * w_r[i]);
            l_poly.2[i].value = to_fr(self.a_o[i]);
            l_poly.3[i].value = to_fr(s_l[i]);
            r_poly.0[i].value = to_fr(w_o[i] - exp_y);
            r_poly.1[i].value = to_fr(exp_y * self.a_r[i] + w_l[i]);
            r_poly.3[i].value = to_fr(exp_y * s_r[i]);
            exp_y *= y;
        }
        let t_poly = VecPoly3::special_inner_product(&l_poly, &r_poly);

        let t_1_blinding = ArkFr::rand(rng);
        let t_3_blinding = ArkFr::rand(rng);
        let t_4_blinding = ArkFr::rand(rng);
        let t_5_blinding = ArkFr::rand(rng);
        let t_6_blinding = ArkFr::rand(rng);
        let commit_t =
            |t: Fr, blinding: ArkFr| (gens.b.mul(from_fr(t)) + gens.b_blinding.mul(blinding)).into_affine();
        let t_1 = commit_t(t_poly.t1, t_1_blinding);
        let t_3 = commit_t(t_poly.t3, t_3_blinding);
        let t_4 = commit_t(t_poly.t4, t_4_blinding);
        let t_5 = commit_t(t_poly.t5, t_5_blinding);
        let t_6 = commit_t(t_poly.t6, t_6_blinding);
        append_point(&mut self.transcript, b"T_1", &to_point(t_1));
        append_point(&mut self.transcript, b"T_3", &to_point(t_3));
        append_point(&mut self.transcript, b"T_4", &to_point(t_4));
        append_point(&mut self.transcript, b"T_5", &to_point(t_5));
        append_point(&mut self.transcript, b"T_6", &to_point(t_6));

        let u = self.challenge(b"u");
        let x = self.challenge(b"x");

        let t_2_blinding: ArkFr = w_v.iter().zip(self.v_blinding.iter()).map(|(c, b)| *c * *b).sum();
        let t_blinding_poly = Poly6 {
            t1: to_fr(t_1_blinding),
            t2: to_fr(t_2_blinding),
            t3: to_fr(t_3_blinding),
            t4: to_fr(t_4_blinding),
            t5: to_fr(t_5_blinding),
            t6: to_fr(t_6_blinding),
        };
        let t_x = t_poly.eval(to_fr(x));
        let t_x_blinding = t_blinding_poly.eval(to_fr(x));
        let mut l_vec: Vec<ArkFr> = l_poly.eval(to_fr(x)).into_iter().map(from_fr).collect();
        l_vec.extend(vec![ArkFr::zero(); pad]);
        let mut r_vec: Vec<ArkFr> = r_poly.eval(to_fr(x)).into_iter().map(from_fr).collect();
        r_vec.extend(vec![ArkFr::zero(); pad]);
        for i in n..padded_n {
            r_vec[i] = -exp_y;
            exp_y *= y;
        }

        let i_blinding = i_blinding1 + u * i_blinding2;
        let o_blinding = o_blinding1 + u * o_blinding2;
        let s_blinding = s_blinding1 + u * s_blinding2;
        let e_blinding = x * (i_blinding + x * (o_blinding + x * s_blinding));

        append_scalar(&mut self.transcript, b"t_x", &t_x);
        append_scalar(&mut self.transcript, b"t_x_blinding", &t_x_blinding);
        append_scalar(&mut self.transcript, b"e_blinding", &to_fr(e_blinding));

        let w = self.challenge(b"w");
        let q = gens.b.mul(w);

        let g_factors: Vec<ArkFr> =
            (0..padded_n).map(|i| if i < n1 { ArkFr::one() } else { u }).collect();
        let h_factors: Vec<ArkFr> = (0..padded_n).map(|i| exp_y_inv[i] * g_factors[i]).collect();
        let g: Vec<Projective> = (0..padded_n).map(|i| gens.g[i].mul(g_factors[i])).collect();
        let h: Vec<Projective> = (0..padded_n).map(|i| gens.h[i].mul(h_factors[i])).collect();
        let ipp_proof = prove_inner_product(&mut self.transcript, q, g, h, l_vec, r_vec);

        R1CSProof {
            A_I1: to_point(a_i1),
            A_O1: to_point(a_o1),
            S1: to_point(s1),
            A_I2: to_point(a_i2),
            A_O2: to_point(a_o2),
            S2: to_point(s2),
            T_1: to_point(t_1),
            T_3: to_point(t_3),
            T_4: to_point(t_4),
            T_5: to_point(t_5),
            T_6: to_point(t_6),
            t_x,
            t_x_blinding,
            e_blinding: to_fr(e_blinding),
            ipp_proof,
        }
    }
}

fn prove_inner_product(
    transcript: &mut ProofTranscript,
    q: Projective,
    mut g: Vec<Projective>,
    mut h: Vec<Projective>,
    mut a: Vec<ArkFr>,
    mut b: Vec<ArkFr>,
) -> InnerProductProof {
    let mut n = a.len();
    innerproduct_domain_sep(transcript, n as u64);
    let mut l_vec = vec![];
    let mut r_vec = vec![];
    while n > 1 {
        n /= 2;
        let c_l: ArkFr = (0..n).map(|i| a[i] * b[n + i]).sum();
        let c_r: ArkFr = (0..n).map(|i| a[n + i] * b[i]).sum();
        let mut l = q.mul(c_l.into_repr());
        let mut r = q.mul(c_r.into_repr());
        for i in 0..n {
            l += g[n + i].mul(a[i].into_repr()) + h[i].mul(b[n + i].into_repr());
            r += g[i].mul(a[n + i].into_repr()) + h[n + i].mul(b[i].into_repr());
        }
        let l = to_point(l.into_affine());
        let r = to_point(r.into_affine());
        append_point(transcript, b"L", &l);
        append_point(transcript, b"R", &r);
        l_vec.push(l);
        r_vec.push(r);
        let u = from_fr(challenge_scalar(transcript, b"u"));
        let u_inv = u.inverse().unwrap();
        for i in 0..n {
            a[i] = a[i] * u + u_inv * a[n + i];
            b[i] = b[i] * u_inv + u * b[n + i];
            g[i] = g[i].mul(u_inv.into_repr()) + g[n + i].mul(u.into_repr());
            h[i] = h[i].mul(u.into_repr()) + h[n + i].mul(u_inv.into_repr());
        }
        a.truncate(n);
        b.truncate(n);
        g.truncate(n);
        h.truncate(n);
    }
    InnerProductProof { L_vec: l_vec, R_vec: r_vec, a: to_fr(a[0]), b: to_fr(b[0]) }
}

/// The gadgets of these tests, as the one type that their verifiers take.
enum TestGadget {
    Sum(ScaledSum),
    Shuffle(Shuffle),
    Product(ScaledProduct),
    Refusing(Refusing),
}

impl RandomizedGadget for TestGadget {
    fn extension(&self, _: ConstraintModel) -> (Result<(), R1CSError>, ConstraintModel) {
        unreachable!()
    }

    fn extend(&self, cs: &mut RandomizingVerifier) -> Result<(), R1CSError> {
        match self {
            TestGadget::Sum(g) => g.extend(cs),
            TestGadget::Shuffle(g) => g.extend(cs),
            TestGadget::Product(g) => g.extend(cs),
            TestGadget::Refusing(g) => g.extend(cs),
        }
    }
}

/// A proof that the committed value is `expected`, and the verifier for it.
fn constant_circuit(gens: &Gens, value: i64, expected: i64, seed: u64) -> (R1CSProof, Verifier<TestGadget>) {
    let mut rng = StdRng::seed_from_u64(seed);
    let mut prover = Prover::new(new_transcript(b"constant"));
    let (commitment, var) = prover.commit(gens, small(value), ArkFr::rand(&mut rng));
    prover.constrain(vec![(var, ArkFr::one()), (Variable::One, small(-expected))]);
    let proof = prover.prove(gens, &mut rng);

    let mut verifier = Verifier::<TestGadget>::new(new_transcript(b"constant"));
    let var = verifier.commit(commitment);
    verifier.constrain(lc(&[(var, ArkFr::one()), (Variable::One, small(-expected))]));
    (proof, verifier)
}

/// A proof that three committed values satisfy `a * b = c`, and the verifier for it.
fn multiplication_circuit(gens: &Gens, a: i64, b: i64, c: i64, seed: u64) -> (R1CSProof, Verifier<TestGadget>) {
    let mut rng = StdRng::seed_from_u64(seed);
    let mut prover = Prover::new(new_transcript(b"multiplication"));
    let (com_a, var_a) = prover.commit(gens, small(a), ArkFr::rand(&mut rng));
    let (com_b, var_b) = prover.commit(gens, small(b), ArkFr::rand(&mut rng));
    let (com_c, var_c) = prover.commit(gens, small(c), ArkFr::rand(&mut rng));
    let (_, _, o) = prover.multiply(vec![(var_a, ArkFr::one())], vec![(var_b, ArkFr::one())]);
    prover.constrain(vec![(o, ArkFr::one()), (var_c, -ArkFr::one())]);
    let proof = prover.prove(gens, &mut rng);

    let mut verifier = Verifier::<TestGadget>::new(new_transcript(b"multiplication"));
    let var_a = verifier.commit(com_a);
    let var_b = verifier.commit(com_b);
    let var_c = verifier.commit(com_c);
    let (_, _, o) = verifier.multiply(lc(&[(var_a, ArkFr::one())]), lc(&[(var_b, ArkFr::one())]));
    verifier.constrain(lc(&[(o, ArkFr::one()), (var_c, -ArkFr::one())]));
    (proof, verifier)
}

#[test]
fn trivial_circuit_verifies() {
    let gens = Gens::new(1);
    let (proof, verifier) = constant_circuit(&gens, 3, 3, 1);
    assert_eq!(verifier.verify(&proof, &gens.pc(), &gens.bp(1)), Ok(()));
}

#[test]
fn trivial_circuit_rejects_other_value() {
    let gens = Gens::new(1);
    let (proof, verifier) = constant_circuit(&gens, 4, 3, 2);
    assert_eq!(verifier.verify(&proof, &gens.pc(), &gens.bp(1)), Err(R1CSError::VerificationError));
}

#[test]
fn multiplication_gadget_verifies() {
    let gens = Gens::new(1);
    let (proof, verifier) = multiplication_circuit(&gens, 3, 4, 12, 3);
    assert_eq!(verifier.verify(&proof, &gens.pc(), &gens.bp(1)), Ok(()));
}

#[test]
fn multiplication_gadget_rejects_wrong_product() {
    let gens = Gens::new(1);
    let (proof, verifier) = multiplication_circuit(&gens, 3, 4, 13, 4);
    assert_eq!(verifier.verify(&proof, &gens.pc(), &gens.bp(1)), Err(R1CSError::VerificationError));
}

#[test]
fn verification_needs_only_enough_generators() {
    let gens = Gens::new(8);
    let (proof, verifier) = multiplication_circuit(&gens, 5, 6, 30, 5);
    assert_eq!(verifier.verify(&proof, &gens.pc(), &gens.bp(8)), Ok(()));
}

/// Several multiplications in a row: `((v * v) * v) * v ... = out`, with
/// `count` multipliers, so that the circuit is padded where `count` is no power of two.
fn power_circuit(gens: &Gens, v: i64, count: usize, out: i64, seed: u64) -> (R1CSProof, Verifier<TestGadget>) {
    let mut rng = StdRng::seed_from_u64(seed);
    let mut prover = Prover::new(new_transcript(b"power"));
    let (com_v, var_v) = prover.commit(gens, small(v), ArkFr::rand(&mut rng));
    let (com_out, var_out) = prover.commit(gens, small(out), ArkFr::rand(&mut rng));
    let mut acc = var_v;
    for _ in 0..count {
        let (_, _, o) = prover.multiply(vec![(acc, ArkFr::one())], vec![(var_v, ArkFr::one())]);
        acc = o;
    }
    prover.constrain(vec![(acc, ArkFr::one()), (var_out, -ArkFr::one())]);
    let proof = prover.prove(gens, &mut rng);

    let mut verifier = Verifier::<TestGadget>::new(new_transcript(b"power"));
    let var_v = verifier.commit(com_v);
    let var_out = verifier.commit(com_out);
    let mut acc = var_v;
    for _ in 0..count {
        let (_, _, o) = verifier.multiply(lc(&[(acc, ArkFr::one())]), lc(&[(var_v, ArkFr::one())]));
        acc = o;
    }
    verifier.constrain(lc(&[(acc, ArkFr::one()), (var_out, -ArkFr::one())]));
    (proof, verifier)
}

#[test]
fn padded_circuit_verifies() {
    let gens = Gens::new(4);
    // 2^4 = 16 with three multipliers, padded to four
    let (proof, verifier) = power_circuit(&gens, 2, 3, 16, 6);
    assert_eq!(proof.ipp_proof.L_vec.len(), 2);
    assert_eq!(verifier.verify(&proof, &gens.pc(), &gens.bp(4)), Ok(()));
}

#[test]
fn padded_circuit_rejects_wrong_power() {
    let gens = Gens::new(4);
    let (proof, verifier) = power_circuit(&gens, 2, 3, 17, 7);
    assert_eq!(verifier.verify(&proof, &gens.pc(), &gens.bp(4)), Err(R1CSError::VerificationError));
}

#[test]
fn too_few_generators_are_refused() {
    let gens = Gens::new(16);
    // nine multipliers pad to sixteen
    let (proof, verifier) = power_circuit(&gens, 2, 9, 1024, 8);
    assert_eq!(
        verifier.verify(&proof, &gens.pc(), &gens.bp(8)),
        Err(R1CSError::InvalidGeneratorsLength)
    );
    let (proof, verifier) = power_circuit(&gens, 2, 9, 1024, 8);
    assert_eq!(verifier.verify(&proof, &gens.pc(), &gens.bp(16)), Ok(()));
}

#[test]
fn generators_are_checked_before_the_commitments_to_t() {
    let gens = Gens::new(16);
    let (mut proof, verifier) = power_circuit(&gens, 2, 9, 1024, 9);
    proof.T_1 = G1Affine::identity();
    assert_eq!(
        verifier.verify(&proof, &gens.pc(), &gens.bp(8)),
        Err(R1CSError::InvalidGeneratorsLength)
    );
}

#[test]
fn identity_commitments_are_refused() {
    let gens = Gens::new(1);
    let (mut proof, verifier) = multiplication_circuit(&gens, 3, 4, 12, 10);
    proof.A_I1 = G1Affine::identity();
    assert_eq!(verifier.verify(&proof, &gens.pc(), &gens.bp(1)), Err(R1CSError::VerificationError));
    let (mut proof, verifier) = multiplication_circuit(&gens, 3, 4, 12, 10);
    proof.T_5 = G1Affine::identity();
    assert_eq!(verifier.verify(&proof, &gens.pc(), &gens.bp(1)), Err(R1CSError::VerificationError));
}

#[test]
fn misshapen_inner_product_proof_is_refused() {
    let gens = Gens::new(4);
    let (mut proof, verifier) = power_circuit(&gens, 2, 3, 16, 11);
    proof.ipp_proof.R_vec.pop();
    assert_eq!(verifier.verify(&proof, &gens.pc(), &gens.bp(4)), Err(R1CSError::VerificationError));
    let (mut proof, verifier) = power_circuit(&gens, 2, 3, 16, 11);
    proof.ipp_proof.L_vec.pop();
    proof.ipp_proof.R_vec.pop();
    assert_eq!(verifier.verify(&proof, &gens.pc(), &gens.bp(4)), Err(R1CSError::VerificationError));
}

fn scaled_sum_circuit(gens: &Gens, v0: i64, verifier_a: i64, seed: u64) -> (R1CSProof, Verifier<TestGadget>) {
    let mut rng = StdRng::seed_from_u64(seed);
    let mut prover = Prover::new(new_transcript(b"scaled sum"));
    let (com_0, var_0) = prover.commit(gens, small(v0), ArkFr::rand(&mut rng));
    let (com_1, var_1) = prover.commit(gens, small(verifier_a), ArkFr::rand(&mut rng));
    prover.deferred.push(Box::new(move |p: &mut Prover| {
        let e = p.challenge(b"e");
        p.constrain(vec![(var_0, e), (var_1, ArkFr::one())]);
    }));
    let proof = prover.prove(gens, &mut rng);

    let mut verifier = Verifier::<TestGadget>::new(new_transcript(b"scaled sum"));
    let first = verifier.commit(com_0);
    let second = verifier.commit(com_1);
    assert!(verifier.specify_randomized_constraints(TestGadget::Sum(ScaledSum { first, second })).is_ok());
    (proof, verifier)
}

#[test]
fn randomized_gadget_verifies() {
    let gens = Gens::new(1);
    // the commitments are made before `e` is drawn: only zeros satisfy the constraint for every `e`
    let (proof, verifier) = scaled_sum_circuit(&gens, 0, 0, 12);
    assert_eq!(verifier.verify(&proof, &gens.pc(), &gens.bp(1)), Ok(()));
}

#[test]
fn randomized_gadget_fails_on_a_variable_that_does_not_exist() {
    let gens = Gens::new(1);
    let (proof, mut verifier) = constant_circuit(&gens, 3, 3, 27);
    let gadget = ScaledSum { first: Variable::Committed(0), second: Variable::Committed(1) };
    assert!(verifier.specify_randomized_constraints(TestGadget::Sum(gadget)).is_ok());
    assert_eq!(verifier.verify(&proof, &gens.pc(), &gens.bp(1)), Err(R1CSError::VerificationError));
}

#[test]
fn randomized_gadget_rejects_unrelated_values() {
    let gens = Gens::new(1);
    let (proof, verifier) = scaled_sum_circuit(&gens, 1, 5, 13);
    assert_eq!(verifier.verify(&proof, &gens.pc(), &gens.bp(1)), Err(R1CSError::VerificationError));
}

/// Proves that `(y_a, y_b)` is `(x_a, x_b)` in some order: for a challenge `z`,
/// `(x_a - z) * (x_b - z) = (y_a - z) * (y_b - z)`.
struct Shuffle {
    x: (Variable, Variable),
    y: (Variable, Variable),
}

impl RandomizedGadget for Shuffle {
    fn extension(&self, _: ConstraintModel) -> (Result<(), R1CSError>, ConstraintModel) {
        unreachable!()
    }

    fn extend(&self, cs: &mut RandomizingVerifier) -> Result<(), R1CSError> {
        let z = cs.challenge_scalar(b"shuffle challenge");
        let minus_z = z.neg();
        let side = |cs: &mut RandomizingVerifier, a: Variable, b: Variable| {
            let mut left = LinearCombination::from_term(a, Fr::one());
            left.push_term(Variable::One, minus_z);
            let mut right = LinearCombination::from_term(b, Fr::one());
            right.push_term(Variable::One, minus_z);
            cs.multiply(left, right).2
        };
        let x_out = side(cs, self.x.0, self.x.1);
        let y_out = side(cs, self.y.0, self.y.1);
        let mut equal = LinearCombination::from_term(x_out, Fr::one());
        equal.push_term(y_out, Fr::one().neg());
        cs.constrain(equal);
        Ok(())
    }
}

fn shuffle_circuit(gens: &Gens, x: (i64, i64), y: (i64, i64), seed: u64) -> (R1CSProof, Verifier<TestGadget>) {
    let mut rng = StdRng::seed_from_u64(seed);
    let mut prover = Prover::new(new_transcript(b"shuffle"));
    let (com_x1, x_a) = prover.commit(gens, small(x.0), ArkFr::rand(&mut rng));
    let (com_x2, x_b) = prover.commit(gens, small(x.1), ArkFr::rand(&mut rng));
    let (com_y1, y_a) = prover.commit(gens, small(y.0), ArkFr::rand(&mut rng));
    let (com_y2, y_b) = prover.commit(gens, small(y.1), ArkFr::rand(&mut rng));
    // a multiplier of the first phase, so that both phases hold multipliers
    let (_, _, o) = prover.multiply(vec![(x_a, ArkFr::one())], vec![(x_b, ArkFr::one())]);
    prover.constrain(vec![(o, ArkFr::one()), (o, -ArkFr::one())]);
    prover.deferred.push(Box::new(move |p: &mut Prover| {
        let z = p.challenge(b"shuffle challenge");
        let (_, _, x_out) =
            p.multiply(vec![(x_a, ArkFr::one()), (Variable::One, -z)], vec![(x_b, ArkFr::one()), (Variable::One, -z)]);
        let (_, _, y_out) =
            p.multiply(vec![(y_a, ArkFr::one()), (Variable::One, -z)], vec![(y_b, ArkFr::one()), (Variable::One, -z)]);
        p.constrain(vec![(x_out, ArkFr::one()), (y_out, -ArkFr::one())]);
    }));
    let proof = prover.prove(gens, &mut rng);

    let mut verifier = Verifier::<TestGadget>::new(new_transcript(b"shuffle"));
    let x_a = verifier.commit(com_x1);
    let x_b = verifier.commit(com_x2);
    let y_a = verifier.commit(com_y1);
    let y_b = verifier.commit(com_y2);
    let (_, _, o) = verifier.multiply(lc(&[(x_a, ArkFr::one())]), lc(&[(x_b, ArkFr::one())]));
    verifier.constrain(lc(&[(o, ArkFr::one()), (o, -ArkFr::one())]));
    assert!(verifier
        .specify_randomized_constraints(TestGadget::Shuffle(Shuffle { x: (x_a, x_b), y: (y_a, y_b) }))
        .is_ok());
    (proof, verifier)
}

#[test]
fn shuffle_with_multipliers_of_both_phases_verifies() {
    let gens = Gens::new(4);
    let (proof, verifier) = shuffle_circuit(&gens, (3, 8), (8, 3), 14);
    assert_eq!(verifier.verify(&proof, &gens.pc(), &gens.bp(4)), Ok(()));
}

#[test]
fn shuffle_rejects_other_values() {
    let gens = Gens::new(4);
    let (proof, verifier) = shuffle_circuit(&gens, (3, 8), (8, 4), 15);
    assert_eq!(verifier.verify(&proof, &gens.pc(), &gens.bp(4)), Err(R1CSError::VerificationError));
}

/// Binds the transcript to a number, draws `e`, and proves `e * v0 * v1 = e * v2`
/// with a multiplier of the second phase that is allocated whole.
struct ScaledProduct {
    v: (Variable, Variable, Variable),
}

impl RandomizedGadget for ScaledProduct {
    fn extension(&self, _: ConstraintModel) -> (Result<(), R1CSError>, ConstraintModel) {
        unreachable!()
    }

    fn extend(&self, cs: &mut RandomizingVerifier) -> Result<(), R1CSError> {
        let before = cs.multipliers_len();
        append_u64(cs.transcript(), b"bound", 7);
        let e = cs.challenge_scalar(b"e");
        let (l, r, o) = cs.allocate_multiplier(None)?;
        assert_eq!(cs.multipliers_len(), before + 1);
        let mut left = LinearCombination::from_term(l, Fr::one());
        left.push_term(self.v.0, e.neg());
        cs.constrain(left);
        let mut right = LinearCombination::from_term(r, Fr::one());
        right.push_term(self.v.1, Fr::one().neg());
        cs.constrain(right);
        let mut out = LinearCombination::from_term(o, Fr::one());
        out.push_term(self.v.2, e.neg());
        cs.constrain(out);
        // a wire of a multiplier that stays half-allocated
        assert_eq!(cs.allocate(None), Ok(Variable::MultiplierLeft(before + 1)));
        Ok(())
    }
}

fn scaled_product_circuit(gens: &Gens, v: (i64, i64, i64), seed: u64) -> (R1CSProof, Verifier<TestGadget>) {
    let mut rng = StdRng::seed_from_u64(seed);
    let mut prover = Prover::new(new_transcript(b"scaled product"));
    let (com_0, var_0) = prover.commit(gens, small(v.0), ArkFr::rand(&mut rng));
    let (com_1, var_1) = prover.commit(gens, small(v.1), ArkFr::rand(&mut rng));
    let (com_2, var_2) = prover.commit(gens, small(v.2), ArkFr::rand(&mut rng));
    prover.deferred.push(Box::new(move |p: &mut Prover| {
        append_u64(&mut p.transcript, b"bound", 7);
        let e = p.challenge(b"e");
        let (l_value, r_value) = (e * p.v[0], p.v[1]);
        let (l, r, o) = p.allocate_multiplier(l_value, r_value);
        p.constrain(vec![(l, ArkFr::one()), (var_0, -e)]);
        p.constrain(vec![(r, ArkFr::one()), (var_1, -ArkFr::one())]);
        p.constrain(vec![(o, ArkFr::one()), (var_2, -e)]);
        p.allocate(ArkFr::zero());
    }));
    let proof = prover.prove(gens, &mut rng);

    let mut verifier = Verifier::<TestGadget>::new(new_transcript(b"scaled product"));
    let var_0 = verifier.commit(com_0);
    let var_1 = verifier.commit(com_1);
    let var_2 = verifier.commit(com_2);
    assert!(verifier
        .specify_randomized_constraints(TestGadget::Product(ScaledProduct { v: (var_0, var_1, var_2) }))
        .is_ok());
    (proof, verifier)
}

#[test]
fn gadget_with_its_own_multipliers_verifies() {
    let gens = Gens::new(2);
    let (proof, verifier) = scaled_product_circuit(&gens, (3, 5, 15), 50);
    // both multipliers are of the second phase
    assert!(!proof.A_I2.is_identity());
    assert_eq!(verifier.multipliers_len(), 0);
    assert_eq!(verifier.verify(&proof, &gens.pc(), &gens.bp(2)), Ok(()));
}

#[test]
fn gadget_with_its_own_multipliers_rejects_a_wrong_product() {
    let gens = Gens::new(2);
    let (proof, verifier) = scaled_product_circuit(&gens, (3, 5, 16), 51);
    assert_eq!(verifier.verify(&proof, &gens.pc(), &gens.bp(2)), Err(R1CSError::VerificationError));
}

#[test]
fn a_pending_multiplier_is_dropped_when_the_first_phase_ends() {
    let gens = Gens::new(2);
    let mut rng = StdRng::seed_from_u64(52);
    let mut prover = Prover::new(new_transcript(b"pending"));
    let (com, var) = prover.commit(&gens, small(9), ArkFr::rand(&mut rng));
    let left = prover.allocate(small(9));
    prover.constrain(vec![(left, ArkFr::one()), (var, -ArkFr::one())]);
    let proof = prover.prove(&gens, &mut rng);

    let mut verifier = Verifier::<TestGadget>::new(new_transcript(b"pending"));
    let var = verifier.commit(com);
    let left = verifier.allocate(None).unwrap();
    let mut equal = LinearCombination::from_term(left, Fr::one());
    equal.push_term(var, Fr::one().neg());
    verifier.constrain(equal);
    assert_eq!(verifier.multipliers_len(), 1);
    assert_eq!(verifier.verify(&proof, &gens.pc(), &gens.bp(2)), Ok(()));
}

/// A gadget that refuses.
struct Refusing;

impl RandomizedGadget for Refusing {
    fn extension(&self, _: ConstraintModel) -> (Result<(), R1CSError>, ConstraintModel) {
        unreachable!()
    }

    fn extend(&self, _: &mut RandomizingVerifier) -> Result<(), R1CSError> {
        Err(R1CSError::GadgetError { description: "refused".to_string() })
    }
}

#[test]
fn gadget_error_is_handed_on_unchanged() {
    let gens = Gens::new(1);
    let (proof, mut verifier) = scaled_sum_circuit(&gens, 0, 0, 16);
    assert!(verifier.specify_randomized_constraints(TestGadget::Refusing(Refusing)).is_ok());
    assert_eq!(
        verifier.verify(&proof, &gens.pc(), &gens.bp(1)),
        Err(R1CSError::GadgetError { description: "refused".to_string() })
    );
}

#[test]
fn verification_returns_the_transcript() {
    let gens = Gens::new(1);
    let (proof, verifier) = multiplication_circuit(&gens, 3, 4, 12, 17);
    let mut first = verifier.verify_and_return_transcript(&proof, &gens.pc(), &gens.bp(1)).unwrap();
    let (proof, verifier) = multiplication_circuit(&gens, 3, 4, 12, 17);
    let mut second = verifier.verify_and_return_transcript(&proof, &gens.pc(), &gens.bp(1)).unwrap();
    // equal inputs leave equal transcripts, and the draw of `r` has left no trace
    assert_eq!(challenge_scalar(&mut first, b"next"), challenge_scalar(&mut second, b"next"));
    let mut fresh = new_transcript(b"multiplication");
    assert_ne!(challenge_scalar(&mut first, b"next"), challenge_scalar(&mut fresh, b"next"));
}

#[test]
fn equal_verifications_give_equal_scalars() {
    let gens = Gens::new(4);
    let (proof, verifier) = shuffle_circuit(&gens, (3, 8), (8, 3), 18);
    let (_, first) = verifier.verification_scalars(&proof, &gens.bp(4)).ok().unwrap();
    let (proof, verifier) = shuffle_circuit(&gens, (3, 8), (8, 3), 18);
    let (_, second) = verifier.verification_scalars(&proof, &gens.bp(4)).ok().unwrap();
    assert_eq!(first, second);
    // B, B_blinding, four G, four H, six commitments, four inputs, five T, two L, two R
    assert_eq!(first.len(), 2 + 4 + 4 + 6 + 4 + 5 + 2 + 2);
}

#[test]
fn scalars_follow_the_formulas() {
    let gens = Gens::new(1);
    let (proof, verifier) = multiplication_circuit(&gens, 3, 4, 12, 19);
    let (_, scalars) = verifier.verification_scalars(&proof, &gens.bp(1)).ok().unwrap();
    // replay the transcript by hand
    let mut t = new_transcript(b"multiplication");
    r1cs_domain_sep(&mut t);
    let (_, check) = multiplication_circuit(&gens, 3, 4, 12, 19);
    let commitments = check.into_commitments();
    for c in commitments.iter() {
        append_point(&mut t, b"V", c);
    }
    append_u64(&mut t, b"m", 3);
    append_point(&mut t, b"A_I1", &proof.A_I1);
    append_point(&mut t, b"A_O1", &proof.A_O1);
    append_point(&mut t, b"S1", &proof.S1);
    r1cs_1phase_domain_sep(&mut t);
    append_point(&mut t, b"A_I2", &proof.A_I2);
    append_point(&mut t, b"A_O2", &proof.A_O2);
    append_point(&mut t, b"S2", &proof.S2);
    let y = from_fr(challenge_scalar(&mut t, b"y"));
    let z = from_fr(challenge_scalar(&mut t, b"z"));
    append_point(&mut t, b"T_1", &proof.T_1);
    append_point(&mut t, b"T_3", &proof.T_3);
    append_point(&mut t, b"T_4", &proof.T_4);
    append_point(&mut t, b"T_5", &proof.T_5);
    append_point(&mut t, b"T_6", &proof.T_6);
    let u = from_fr(challenge_scalar(&mut t, b"u"));
    let x = from_fr(challenge_scalar(&mut t, b"x"));
    append_scalar(&mut t, b"t_x", &proof.t_x);
    append_scalar(&mut t, b"t_x_blinding", &proof.t_x_blinding);
    append_scalar(&mut t, b"e_blinding", &proof.e_blinding);
    let w = from_fr(challenge_scalar(&mut t, b"w"));
    innerproduct_domain_sep(&mut t, 1);
    let r = from_fr(challenge_scalar(&mut t, b"r"));
    let _ = y;

    let (a, b) = (from_fr(proof.ipp_proof.a), from_fr(proof.ipp_proof.b));
    let t_x = from_fr(proof.t_x);
    // constraints: a - l = 0 (z), b - r = 0 (z^2), o - c = 0 (z^3)
    let (z2, z3) = (z * z, z * z * z);
    let (w_l, w_r, w_o) = (-z, -z2, z3);
    let w_v = [-z, -z2, z3];
    let w_c = ArkFr::zero();
    let delta = w_r * w_l;
    let xx = x * x;
    let got: Vec<ArkFr> = scalars.iter().map(|s| from_fr(*s)).collect();
    assert_eq!(got.len(), 2 + 1 + 1 + 6 + 3 + 5);
    assert_eq!(got[0], w * (t_x - a * b) + r * (xx * (w_c + delta) - t_x));
    assert_eq!(got[1], -from_fr(proof.e_blinding) - r * from_fr(proof.t_x_blinding));
    // s is the one entry 1; the one multiplier is of the first phase
    assert_eq!(got[2], x * w_r - a);
    assert_eq!(got[3], x * w_l + w_o - b - ArkFr::one());
    assert_eq!(&got[4..10], &[x, xx, xx * x, u * x, u * xx, u * xx * x]);
    assert_eq!(&got[10..13], &[w_v[0] * r * xx, w_v[1] * r * xx, w_v[2] * r * xx]);
    let rxx = r * xx;
    assert_eq!(&got[13..18], &[r * x, rxx * x, rxx * xx, rxx * xx * x, rxx * xx * xx]);
}

#[test]
fn batch_of_valid_proofs_verifies() {
    let gens = Gens::new(4);
    let (proof_a, verifier_a) = multiplication_circuit(&gens, 3, 4, 12, 20);
    let (proof_b, verifier_b) = multiplication_circuit(&gens, 5, 6, 30, 21);
    let (proof_c, verifier_c) = multiplication_circuit(&gens, 7, 8, 56, 22);
    let mut rng = StdRng::seed_from_u64(99);
    assert_eq!(
        batch_verify(&mut rng, vec![(verifier_a, &proof_a), (verifier_b, &proof_b), (verifier_c, &proof_c)], &gens.pc(), &gens.bp(4)),
        Ok(())
    );
}

#[test]
fn batch_with_a_corrupted_proof_fails() {
    let gens = Gens::new(4);
    let (proof_a, verifier_a) = multiplication_circuit(&gens, 3, 4, 12, 20);
    let (mut proof_b, verifier_b) = multiplication_circuit(&gens, 5, 6, 30, 21);
    let (proof_c, verifier_c) = multiplication_circuit(&gens, 7, 8, 56, 22);
    proof_b.t_x = proof_b.t_x.add(Fr::one());
    let mut rng = StdRng::seed_from_u64(99);
    assert_eq!(
        batch_verify(&mut rng, vec![(verifier_a, &proof_a), (verifier_b, &proof_b), (verifier_c, &proof_c)], &gens.pc(), &gens.bp(4)),
        Err(R1CSError::VerificationError)
    );
}

#[test]
fn batch_of_circuits_of_different_sizes_verifies() {
    let gens = Gens::new(4);
    let (proof_a, verifier_a) = multiplication_circuit(&gens, 3, 4, 12, 23);
    let (proof_b, verifier_b) = power_circuit(&gens, 2, 3, 16, 24);
    let (proof_c, verifier_c) = constant_circuit(&gens, 3, 3, 25);
    let (proof_d, verifier_d) = shuffle_circuit(&gens, (1, 2), (2, 1), 26);
    let mut rng = StdRng::seed_from_u64(5);
    assert_eq!(
        batch_verify(&mut rng, vec![(verifier_a, &proof_a), (verifier_b, &proof_b), (verifier_c, &proof_c), (verifier_d, &proof_d)], &gens.pc(), &gens.bp(4)),
        Ok(())
    );
}

#[test]
fn batch_agrees_with_single_verification() {
    let gens = Gens::new(4);
    let cases: [(i64, i64, i64); 3] = [(3, 4, 12), (3, 4, 13), (0, 9, 0)];
    for (i, (a, b, c)) in cases.iter().enumerate() {
        let (proof, verifier) = multiplication_circuit(&gens, *a, *b, *c, 30 + i as u64);
        let single = verifier.verify(&proof, &gens.pc(), &gens.bp(4));
        let (proof, verifier) = multiplication_circuit(&gens, *a, *b, *c, 30 + i as u64);
        let mut rng = StdRng::seed_from_u64(3);
        let batch = batch_verify(&mut rng, vec![(verifier, &proof)], &gens.pc(), &gens.bp(4));
        assert_eq!(single, batch);
        assert_eq!(single.is_ok(), a * b == *c);
    }
}

#[test]
fn batch_stops_at_the_first_failing_instance() {
    let gens = Gens::new(16);
    let (proof_a, verifier_a) = multiplication_circuit(&gens, 3, 4, 12, 40);
    let (proof_b, verifier_b) = power_circuit(&gens, 2, 9, 1024, 41);
    let (mut proof_c, verifier_c) = multiplication_circuit(&gens, 3, 4, 12, 42);
    proof_c.S1 = G1Affine::identity();
    let mut rng = StdRng::seed_from_u64(3);
    // the second needs sixteen generators, the third holds an identity: the second fails first
    assert_eq!(
        batch_verify(&mut rng, vec![(verifier_a, &proof_a), (verifier_b, &proof_b), (verifier_c, &proof_c)], &gens.pc(), &gens.bp(8)),
        Err(R1CSError::InvalidGeneratorsLength)
    );
}

#[test]
fn zero_is_no_coefficient() {
    assert_eq!(coefficient_from(Fr::zero()), None);
    assert_eq!(coefficient_from(Fr::one()), Some(Fr::one()));
    assert_eq!(coefficient_from(Fr::from(5u64).neg()), Some(Fr::from(5u64).neg()));
}

#[test]
fn empty_batch_holds() {
    let gens = Gens::new(1);
    let mut rng = StdRng::seed_from_u64(3);
    let none: Vec<(Verifier<TestGadget>, &R1CSProof)> = vec![];
    assert_eq!(batch_verify(&mut rng, none, &gens.pc(), &gens.bp(1)), Ok(()));
}

#[test]
fn multiscalar_multiplication_is_that_of_the_group() {
    let gens = Gens::new(2);
    let points = vec![to_point(gens.g[0]), to_point(gens.g[1]), to_point(gens.h[0])];
    let scalars = vec![Fr::from(3u64), Fr::from(5u64).neg(), Fr::from(0u64)];
    let expected = (gens.g[0].mul(ArkFr::from(3u64)) - gens.g[1].mul(ArkFr::from(5u64))).into_affine();
    let got = bulletproofs_r1cs::curve::multi_scalar_mul(&points, &scalars);
    assert_eq!(from_point(&got), expected);
    // G - G is the identity
    let got = bulletproofs_r1cs::curve::multi_scalar_mul(
        &vec![to_point(gens.g[0]), to_point(gens.g[0])],
        &vec![Fr::from(1u64), Fr::from(1u64).neg()],
    );
    assert!(got.is_identity());
}
