//! The inner-product argument, as far as a verifier needs it: the challenges
//! it draws and the scalars it derives from them.

#![allow(non_snake_case)]

use crate::curve::{points_model, scalars_model, Fr, G1Affine, PointModel};
use crate::errors::R1CSError;
use crate::field::{finv, fmul};
use crate::transcript::{
    challenge_scalar, challenge_scalar_of, innerproduct_domain_sep, validate_and_append_point,
    with_challenge, with_innerproduct_domain_sep, with_point, ProofTranscript, TranscriptEvent,
};
use vstd::arithmetic::power2::{lemma_pow2_unfold, pow2};
use vstd::prelude::*;
use vstd::string::StringSliceAdditionalSpecFns;

verus! {

/// The proof of an inner product: one pair of points for each halving of the
/// vectors, and the two scalars that are left.
#[derive(Clone, Debug)]
pub struct InnerProductProof {
    pub L_vec: Vec<G1Affine>,
    pub R_vec: Vec<G1Affine>,
    pub a: Fr,
    pub b: Fr,
}

/// The log after the first `k` rounds: each appends its two points and draws a challenge.
pub open spec fn round_log(log: Seq<TranscriptEvent>, l: Seq<PointModel>, r: Seq<PointModel>, k: nat) -> Seq<
    TranscriptEvent,
>
    decreases k,
{
    if k == 0 {
        log
    } else {
        with_challenge(
            with_point(
                with_point(round_log(log, l, r, (k - 1) as nat), "L".spec_bytes(), l[k - 1]),
                "R".spec_bytes(),
                r[k - 1],
            ),
            "u".spec_bytes(),
        )
    }
}

/// The log when round `k` has appended its points and not yet drawn.
pub open spec fn round_points_log(log: Seq<TranscriptEvent>, l: Seq<PointModel>, r: Seq<PointModel>, k: nat) -> Seq<
    TranscriptEvent,
> {
    with_point(
        with_point(round_log(log, l, r, k), "L".spec_bytes(), l[k as int]),
        "R".spec_bytes(),
        r[k as int],
    )
}

/// The challenges of all rounds, in the order in which they are drawn.
pub open spec fn round_challenges(log: Seq<TranscriptEvent>, l: Seq<PointModel>, r: Seq<PointModel>) -> Seq<
    int,
> {
    Seq::new(l.len(), |k: int| challenge_scalar_of(round_points_log(log, l, r, k as nat), "u".spec_bytes()))
}

/// Entry `i` of the vector `s`: the product, over the challenges, of the
/// challenge itself where the matching bit of `i` is set and of its inverse
/// where it is not. The last challenge goes with the lowest bit.
pub open spec fn s_entry(us: Seq<int>, i: nat) -> int
    decreases us.len(),
{
    if us.len() == 0 {
        1
    } else {
        fmul(
            s_entry(us.drop_last(), i / 2),
            if i % 2 == 1 {
                us.last()
            } else {
                finv(us.last())
            },
        )
    }
}

/// The squares of the challenges.
pub open spec fn squares(us: Seq<int>) -> Seq<int> {
    Seq::new(us.len(), |k: int| fmul(us[k], us[k]))
}

/// The squares of the inverses of the challenges.
pub open spec fn inverse_squares(us: Seq<int>) -> Seq<int> {
    Seq::new(us.len(), |k: int| fmul(finv(us[k]), finv(us[k])))
}

/// The vector `s` of `2^len` entries.
pub open spec fn s_vector(us: Seq<int>) -> Seq<int> {
    Seq::new(pow2(us.len()), |i: int| s_entry(us, i as nat))
}

/// Whether the argument over `n` entries can be checked at all: the proof
/// has one pair of points, none of them the identity, for each halving of
/// `n`, and no challenge comes out zero.
pub open spec fn ipp_accepts(log: Seq<TranscriptEvent>, n: nat, l: Seq<PointModel>, r: Seq<PointModel>) -> bool {
    &&& l.len() < 32
    &&& r.len() == l.len()
    &&& n == pow2(l.len())
    &&& forall|k: int| 0 <= k < l.len() ==> !(#[trigger] l[k]).infinity
    &&& forall|k: int| 0 <= k < l.len() ==> !(#[trigger] r[k]).infinity
    &&& forall|k: int|
        0 <= k < l.len() ==> #[trigger] round_challenges(
            with_innerproduct_domain_sep(log, n as u64),
            l,
            r,
        )[k] != 0
}

/// `2^k`, for `k` below 32.
fn small_pow2(k: usize) -> (p: u64)
    requires
        k < 32,
    ensures
        p == pow2(k as nat),
        p <= 0x8000_0000,
{
    let mut p: u64 = 1;
    let mut i: usize = 0;
    proof {
        vstd::arithmetic::power2::lemma2_to64();
    }
    while i < k
        invariant
            i <= k,
            k < 32,
            p == pow2(i as nat),
            p <= pow2(31),
            pow2(31) == 0x8000_0000,
        decreases k - i,
    {
        proof {
            lemma_pow2_unfold((i + 1) as nat);
            if i + 1 < 31 {
                vstd::arithmetic::power2::lemma_pow2_strictly_increases((i + 1) as nat, 31);
            }
        }
        p = p * 2;
        i += 1;
    }
    p
}

/// One doubling of `s`: each entry gives two, the first by the inverse of
/// the challenge and the second by the challenge.
fn double_s(s: &Vec<Fr>, u: Fr, u_inv: Fr, Ghost(us): Ghost<Seq<int>>) -> (next: Vec<Fr>)
    requires
        us.len() > 0,
        s@.len() == pow2((us.len() - 1) as nat),
        s@.len() <= 0x4000_0000,
        u@ == us.last(),
        u_inv@ == finv(us.last()),
        forall|i: int| 0 <= i < s@.len() ==> (#[trigger] s@[i])@ == s_entry(us.drop_last(), i as nat),
    ensures
        next@.len() == pow2(us.len()),
        forall|i: int| 0 <= i < next@.len() ==> (#[trigger] next@[i])@ == s_entry(us, i as nat),
{
    let mut next: Vec<Fr> = Vec::new();
    let mut i: usize = 0;
    proof {
        lemma_pow2_unfold(us.len());
    }
    while i < s.len()
        invariant
            i <= s@.len(),
            us.len() > 0,
            s@.len() <= 0x4000_0000,
            next@.len() == 2 * i,
            u@ == us.last(),
            u_inv@ == finv(us.last()),
            forall|j: int| 0 <= j < s@.len() ==> (#[trigger] s@[j])@ == s_entry(us.drop_last(), j as nat),
            forall|j: int| 0 <= j < next@.len() ==> (#[trigger] next@[j])@ == s_entry(us, j as nat),
        decreases s@.len() - i,
    {
        let e = s[i];
        next.push(e.mul(u_inv));
        next.push(e.mul(u));
        proof {
            assert((2 * i) as nat / 2 == i as nat);
            assert((2 * i + 1) as nat / 2 == i as nat);
            assert(next@[2 * i]@ == s_entry(us, (2 * i) as nat));
            assert(next@[2 * i + 1]@ == s_entry(us, (2 * i + 1) as nat));
        }
        i += 1;
    }
    next
}

impl InnerProductProof {
    /// The scalars by which a verifier weighs the bases and the points of
    /// the proof: the squares of the challenges, the squares of their
    /// inverses, and the vector `s`. The challenges are drawn from
    /// `transcript`, which takes in the points of the proof on the way.
    #[verifier::rlimit(40)]
    pub fn verification_scalars(&self, n: usize, transcript: &mut ProofTranscript) -> (r: Result<
        (Vec<Fr>, Vec<Fr>, Vec<Fr>),
        R1CSError,
    >)
        ensures
            r.is_ok() <==> ipp_accepts(
                old(transcript).log(),
                n as nat,
                points_model(self.L_vec@),
                points_model(self.R_vec@),
            ),
            r.is_err() ==> r == Err::<(Vec<Fr>, Vec<Fr>, Vec<Fr>), R1CSError>(R1CSError::VerificationError),
            old(transcript).log().is_prefix_of(final(transcript).log()),
            r.is_ok() ==> ({
                let log = with_innerproduct_domain_sep(old(transcript).log(), n as u64);
                let l = points_model(self.L_vec@);
                let rr = points_model(self.R_vec@);
                let us = round_challenges(log, l, rr);
                &&& scalars_model(r.unwrap().0@) == squares(us)
                &&& scalars_model(r.unwrap().1@) == inverse_squares(us)
                &&& scalars_model(r.unwrap().2@) == s_vector(us)
                &&& final(transcript).log() == round_log(log, l, rr, l.len())
            }),
    {
        let lg_n = self.L_vec.len();
        let ghost l = points_model(self.L_vec@);
        let ghost rr = points_model(self.R_vec@);
        let ghost log0 = transcript.log();
        if lg_n >= 32 || self.R_vec.len() != lg_n {
            return Err(R1CSError::VerificationError);
        }
        if n as u64 != small_pow2(lg_n) {
            return Err(R1CSError::VerificationError);
        }
        innerproduct_domain_sep(transcript, n as u64);
        let ghost log = with_innerproduct_domain_sep(log0, n as u64);
        let ghost us = round_challenges(log, l, rr);
        let mut challenges: Vec<Fr> = Vec::new();
        let mut challenges_sq: Vec<Fr> = Vec::new();
        let mut challenges_inv_sq: Vec<Fr> = Vec::new();
        let mut s: Vec<Fr> = Vec::new();
        s.push(Fr::one());
        proof {
            vstd::arithmetic::power2::lemma2_to64();
            assert(us.take(0).len() == 0);
        }
        let mut k: usize = 0;
        while k < lg_n
            invariant
                k <= lg_n,
                lg_n < 32,
                lg_n == self.L_vec@.len(),
                lg_n == self.R_vec@.len(),
                l == points_model(self.L_vec@),
                rr == points_model(self.R_vec@),
                us == round_challenges(log, l, rr),
                log == with_innerproduct_domain_sep(log0, n as u64),
                log0 == old(transcript).log(),
                log0.is_prefix_of(transcript.log()),
                n as nat == pow2(lg_n as nat),
                transcript.log() == round_log(log, l, rr, k as nat),
                forall|j: int| 0 <= j < k ==> !(#[trigger] l[j]).infinity,
                forall|j: int| 0 <= j < k ==> !(#[trigger] rr[j]).infinity,
                forall|j: int| 0 <= j < k ==> #[trigger] us[j] != 0,
                challenges@.len() == k,
                challenges_sq@.len() == k,
                challenges_inv_sq@.len() == k,
                forall|j: int| 0 <= j < k ==> (#[trigger] challenges@[j])@ == us[j],
                forall|j: int| 0 <= j < k ==> (#[trigger] challenges_sq@[j])@ == fmul(us[j], us[j]),
                forall|j: int|
                    0 <= j < k ==> (#[trigger] challenges_inv_sq@[j])@ == fmul(finv(us[j]), finv(us[j])),
                s@.len() == pow2(k as nat),
                forall|i: int| 0 <= i < s@.len() ==> (#[trigger] s@[i])@ == s_entry(us.take(k as int), i as nat),
            decreases lg_n - k,
        {
            let lk = &self.L_vec[k];
            let rk = &self.R_vec[k];
            assert(l[k as int] == lk@);
            assert(rr[k as int] == rk@);
            if validate_and_append_point(transcript, "L".as_bytes(), lk).is_err() {
                return Err(R1CSError::VerificationError);
            }
            if validate_and_append_point(transcript, "R".as_bytes(), rk).is_err() {
                return Err(R1CSError::VerificationError);
            }
            let u = challenge_scalar(transcript, "u".as_bytes());
            assert(u@ == us[k as int]);
            let u_inv = match u.inverse() {
                Some(inv) => inv,
                None => {
                    assert(round_challenges(with_innerproduct_domain_sep(log0, n as u64), l, rr)[k as int] == 0);
                    return Err(R1CSError::VerificationError);
                },
            };
            proof {
                assert(us.take(k + 1).drop_last() =~= us.take(k as int));
                assert(us.take(k + 1).last() == us[k as int]);
                if k < 30 {
                    vstd::arithmetic::power2::lemma_pow2_strictly_increases(k as nat, 30);
                }
                vstd::arithmetic::power2::lemma2_to64();
            }
            s = double_s(&s, u, u_inv, Ghost(us.take(k + 1)));
            challenges.push(u);
            challenges_sq.push(u.mul(u));
            challenges_inv_sq.push(u_inv.mul(u_inv));
            k += 1;
        }
        proof {
            assert(us.take(lg_n as int) =~= us);
            assert(scalars_model(challenges_sq@) =~= squares(us));
            assert(scalars_model(challenges_inv_sq@) =~= inverse_squares(us));
            assert(scalars_model(s@) =~= s_vector(us));
        }
        Ok((challenges_sq, challenges_inv_sq, s))
    }
}

} // verus!
