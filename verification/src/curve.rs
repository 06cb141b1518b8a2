//! The Pallas curve as this library holds it: scalars and base-field
//! coordinates in canonical limbs, points in affine coordinates. The
//! arithmetic itself is done by `ark-ff` and `ark-ec`; the functions that
//! call them state what they compute over `crate::field`.

use crate::field::{fadd, finv, fmul, fneg, fsub, is_residue, lemma_finv_is, modulus, reduce};
use crate::limbs::{le_bytes32, le_value, U256};
use ark_ec::msm::VariableBaseMSM;
use ark_ff::{BigInteger256, Field, PrimeField, UniformRand};
use vstd::prelude::*;

verus! {

/// The modulus of the field over which the Pallas curve is defined.
pub open spec fn base_modulus() -> int {
    0x992d30ed00000001int + 0x1_0000_0000_0000_0000int * (0x224698fc094cf91bint
        + 0x1_0000_0000_0000_0000int * (0int + 0x1_0000_0000_0000_0000int * 0x4000000000000000int))
}

/// An element of the scalar field: an integer in `[0, modulus())`.
#[derive(Clone, Copy, Debug, PartialEq, Eq)]
pub struct Fr {
    repr: U256,
}

impl View for Fr {
    type V = int;

    closed spec fn view(&self) -> int {
        self.repr@ as int
    }
}

/// A coordinate of a point: an integer in `[0, base_modulus())`.
#[derive(Clone, Copy, Debug, PartialEq, Eq)]
pub struct Fq {
    repr: U256,
}

impl View for Fq {
    type V = int;

    closed spec fn view(&self) -> int {
        self.repr@ as int
    }
}

/// A point in affine coordinates. Nothing here checks that the coordinates
/// satisfy the curve equation.
#[derive(Clone, Copy, Debug, PartialEq, Eq)]
pub struct G1Affine {
    pub x: Fq,
    pub y: Fq,
    pub infinity: bool,
}

/// What a point is to the contracts: its coordinates and whether it is the identity.
pub struct PointModel {
    pub x: int,
    pub y: int,
    pub infinity: bool,
}

impl View for G1Affine {
    type V = PointModel;

    open spec fn view(&self) -> PointModel {
        PointModel { x: self.x@, y: self.y@, infinity: self.infinity }
    }
}

/// The values of a sequence of scalars.
pub open spec fn scalars_model(s: Seq<Fr>) -> Seq<int> {
    s.map_values(|x: Fr| x@)
}

/// The models of a sequence of points.
pub open spec fn points_model(s: Seq<G1Affine>) -> Seq<PointModel> {
    s.map_values(|p: G1Affine| p@)
}

/// The bytes under which a scalar enters a transcript: 32, little-endian.
pub open spec fn scalar_bytes(v: int) -> Seq<u8> {
    le_bytes32(v as nat)
}

/// The bytes under which a point enters a transcript: both coordinates,
/// little-endian, then one byte that is 1 for the identity.
pub open spec fn point_bytes(p: PointModel) -> Seq<u8> {
    le_bytes32(p.x as nat) + le_bytes32(p.y as nat) + seq![if p.infinity { 1u8 } else { 0u8 }]
}

/// The sum of `scalars[i] * points[i]` in the Pallas group, as `ark-ec`
/// computes it for sequences of one length. The group law is not spelled
/// out here: the contracts speak of this sum by name.
pub uninterp spec fn msm_sum(points: Seq<PointModel>, scalars: Seq<int>) -> PointModel;

/// The generator from which random scalars are drawn.
#[verifier::external_type_specification]
#[verifier::external_body]
pub struct ExStdRng(ark_std::rand::rngs::StdRng);

fn scalar_modulus_limbs() -> (m: U256)
    ensures
        m@ == modulus(),
{
    U256::new(0x8c46eb2100000001, 0x224698fc0994a8dd, 0, 0x4000000000000000)
}

fn base_modulus_limbs() -> (m: U256)
    ensures
        m@ == base_modulus(),
{
    U256::new(0x992d30ed00000001, 0x224698fc094cf91b, 0, 0x4000000000000000)
}

/// `ark-ff`'s `+` on the Pallas scalar field: the sum modulo the group order.
#[verifier::external_body]
fn ark_add(a: Fr, b: Fr) -> (r: Fr)
    ensures
        r@ == fadd(a@, b@),
{
    let x = ark_pallas::Fr::from_repr(BigInteger256(a.repr.limbs)).unwrap();
    let y = ark_pallas::Fr::from_repr(BigInteger256(b.repr.limbs)).unwrap();
    Fr { repr: U256 { limbs: (x + y).into_repr().0 } }
}

/// `ark-ff`'s `-` on the Pallas scalar field: the difference modulo the group order.
#[verifier::external_body]
fn ark_sub(a: Fr, b: Fr) -> (r: Fr)
    ensures
        r@ == fsub(a@, b@),
{
    let x = ark_pallas::Fr::from_repr(BigInteger256(a.repr.limbs)).unwrap();
    let y = ark_pallas::Fr::from_repr(BigInteger256(b.repr.limbs)).unwrap();
    Fr { repr: U256 { limbs: (x - y).into_repr().0 } }
}

/// `ark-ff`'s `*` on the Pallas scalar field: the product modulo the group order.
#[verifier::external_body]
fn ark_mul(a: Fr, b: Fr) -> (r: Fr)
    ensures
        r@ == fmul(a@, b@),
{
    let x = ark_pallas::Fr::from_repr(BigInteger256(a.repr.limbs)).unwrap();
    let y = ark_pallas::Fr::from_repr(BigInteger256(b.repr.limbs)).unwrap();
    Fr { repr: U256 { limbs: (x * y).into_repr().0 } }
}

/// `ark-ff`'s unary `-` on the Pallas scalar field: the additive inverse.
#[verifier::external_body]
fn ark_neg(a: Fr) -> (r: Fr)
    ensures
        r@ == fneg(a@),
{
    let x = ark_pallas::Fr::from_repr(BigInteger256(a.repr.limbs)).unwrap();
    Fr { repr: U256 { limbs: (-x).into_repr().0 } }
}

/// `ark_ff::Field::inverse` on the Pallas scalar field: nothing for zero,
/// else the element whose product with the argument is one.
#[verifier::external_body]
fn ark_inverse(a: Fr) -> (r: Option<Fr>)
    ensures
        a@ == 0 <==> r.is_none(),
        r.is_some() ==> fmul(a@, r.unwrap()@) == 1,
{
    let x = ark_pallas::Fr::from_repr(BigInteger256(a.repr.limbs)).unwrap();
    match x.inverse() {
        Some(y) => {
            Some(Fr { repr: U256 { limbs: y.into_repr().0 } })
        },
        None => None,
    }
}

/// `ark_ff::PrimeField::from_le_bytes_mod_order` on the Pallas scalar field:
/// the little-endian number that the bytes spell, modulo the group order.
#[verifier::external_body]
fn ark_from_le_bytes_mod_order(bytes: &[u8; 64]) -> (r: Fr)
    ensures
        r@ == reduce(le_value(bytes@) as int),
{
    Fr { repr: U256 { limbs: ark_pallas::Fr::from_le_bytes_mod_order(bytes).into_repr().0 } }
}

/// `ark_ff::UniformRand::rand` on the Pallas scalar field: some element,
/// chosen by the generator.
#[verifier::external_body]
fn ark_rand(rng: &mut ark_std::rand::rngs::StdRng) -> (r: Fr) {
    Fr { repr: U256 { limbs: ark_pallas::Fr::rand(rng).into_repr().0 } }
}

/// `ark_ec::msm::VariableBaseMSM::multi_scalar_mul` on Pallas, its result
/// brought to affine coordinates.
#[verifier::external_body]
fn ark_multi_scalar_mul(points: &Vec<G1Affine>, scalars: &Vec<Fr>) -> (r: G1Affine)
    requires
        points.len() == scalars.len(),
    ensures
        r@ == msm_sum(points_model(points@), scalars_model(scalars@)),
{
    let bases: Vec<ark_pallas::Affine> = points.iter().map(
        |p| ark_pallas::Affine::new(
            ark_pallas::Fq::from_repr(BigInteger256(p.x.repr.limbs)).unwrap(),
            ark_pallas::Fq::from_repr(BigInteger256(p.y.repr.limbs)).unwrap(),
            p.infinity,
        ),
    ).collect();
    let reprs: Vec<BigInteger256> = scalars.iter().map(|s| BigInteger256(s.repr.limbs)).collect();
    let sum = ark_pallas::Affine::from(VariableBaseMSM::multi_scalar_mul(&bases, &reprs));
    G1Affine {
        x: Fq { repr: U256 { limbs: sum.x.into_repr().0 } },
        y: Fq { repr: U256 { limbs: sum.y.into_repr().0 } },
        infinity: sum.infinity,
    }
}

impl Fr {
    /// Every scalar is a residue.
    #[verifier::type_invariant]
    pub open spec fn canonical(self) -> bool {
        is_residue(self@)
    }

    pub fn zero() -> (r: Fr)
        ensures
            r@ == 0,
    {
        Fr { repr: U256::new(0, 0, 0, 0) }
    }

    pub fn one() -> (r: Fr)
        ensures
            r@ == 1,
    {
        Fr { repr: U256::new(1, 0, 0, 0) }
    }

    /// The scalar of a small number.
    pub closed spec fn spec_from_u64(v: u64) -> Fr {
        Fr { repr: U256 { limbs: [v, 0, 0, 0] } }
    }

    pub fn from_u64(v: u64) -> (r: Fr)
        ensures
            r@ == v,
            r == Fr::spec_from_u64(v),
    {
        Fr { repr: U256 { limbs: [v, 0, 0, 0] } }
    }

    /// The scalar with the given limbs, least significant first, if they
    /// stand for a number below the modulus.
    pub fn from_limbs(limbs: [u64; 4]) -> (r: Option<Fr>)
        ensures
            r.is_some() <==> (U256 { limbs })@ < modulus(),
            r.is_some() ==> r.unwrap()@ == (U256 { limbs })@,
    {
        let repr = U256 { limbs };
        if repr.lt(&scalar_modulus_limbs()) {
            Some(Fr { repr })
        } else {
            None
        }
    }

    /// The limbs of the scalar, least significant first.
    pub fn limbs(&self) -> (r: [u64; 4])
        ensures
            (U256 { limbs: r })@ == self@,
    {
        self.repr.limbs
    }

    /// The scalar that 64 bytes of a challenge stand for.
    pub fn from_wide_bytes(bytes: &[u8; 64]) -> (r: Fr)
        ensures
            r@ == reduce(le_value(bytes@) as int),
    {
        ark_from_le_bytes_mod_order(bytes)
    }

    /// A scalar drawn from `rng`.
    pub fn random(rng: &mut ark_std::rand::rngs::StdRng) -> (r: Fr)
        ensures
            is_residue(r@),
    {
        let r = ark_rand(rng);
        proof {
            use_type_invariant(&r);
        }
        r
    }

    pub fn add(self, rhs: Fr) -> (r: Fr)
        ensures
            r@ == fadd(self@, rhs@),
    {
        ark_add(self, rhs)
    }

    pub fn sub(self, rhs: Fr) -> (r: Fr)
        ensures
            r@ == fsub(self@, rhs@),
    {
        ark_sub(self, rhs)
    }

    pub fn mul(self, rhs: Fr) -> (r: Fr)
        ensures
            r@ == fmul(self@, rhs@),
    {
        ark_mul(self, rhs)
    }

    pub fn neg(self) -> (r: Fr)
        ensures
            r@ == fneg(self@),
    {
        ark_neg(self)
    }

    /// The multiplicative inverse, which every scalar but zero has.
    pub fn inverse(self) -> (r: Option<Fr>)
        ensures
            self@ == 0 <==> r.is_none(),
            r.is_some() ==> r.unwrap()@ == finv(self@) && fmul(self@, r.unwrap()@) == 1,
    {
        let r = ark_inverse(self);
        proof {
            if let Some(inv) = r {
                use_type_invariant(&inv);
                lemma_finv_is(self@, inv@);
            }
        }
        r
    }

    pub fn is_zero(&self) -> (r: bool)
        ensures
            r == (self@ == 0),
    {
        self.repr.limbs[0] == 0 && self.repr.limbs[1] == 0 && self.repr.limbs[2] == 0
            && self.repr.limbs[3] == 0
    }

    /// Whether two scalars have one value.
    pub fn equals(&self, other: &Fr) -> (r: bool)
        ensures
            r == (self@ == other@),
            r == (*self == *other),
    {
        self.repr.equals(&other.repr)
    }

    /// Appends the 32 bytes under which the scalar enters a transcript.
    pub fn append_bytes(&self, out: &mut Vec<u8>)
        ensures
            final(out)@ == old(out)@ + scalar_bytes(self@),
    {
        self.repr.append_le_bytes(out);
    }
}

impl Default for Fr {
    fn default() -> (r: Fr)
        ensures
            r@ == 0,
    {
        Fr::zero()
    }
}

impl From<u64> for Fr {
    fn from(v: u64) -> (r: Fr) {
        Fr::from_u64(v)
    }
}

impl vstd::std_specs::convert::FromSpecImpl<u64> for Fr {
    open spec fn obeys_from_spec() -> bool {
        true
    }

    open spec fn from_spec(v: u64) -> Fr {
        Fr::spec_from_u64(v)
    }
}

impl Fq {
    /// Every coordinate is below the base modulus.
    #[verifier::type_invariant]
    pub open spec fn canonical(self) -> bool {
        0 <= self@ < base_modulus()
    }

    /// The coordinate with the given limbs, least significant first, if they
    /// stand for a number below the base modulus.
    pub fn from_limbs(limbs: [u64; 4]) -> (r: Option<Fq>)
        ensures
            r.is_some() <==> (U256 { limbs })@ < base_modulus(),
            r.is_some() ==> r.unwrap()@ == (U256 { limbs })@,
    {
        let repr = U256 { limbs };
        if repr.lt(&base_modulus_limbs()) {
            Some(Fq { repr })
        } else {
            None
        }
    }

    /// The limbs of the coordinate, least significant first.
    pub fn limbs(&self) -> (r: [u64; 4])
        ensures
            (U256 { limbs: r })@ == self@,
    {
        self.repr.limbs
    }

    fn append_bytes(&self, out: &mut Vec<u8>)
        ensures
            final(out)@ == old(out)@ + le_bytes32(self@ as nat),
    {
        self.repr.append_le_bytes(out);
    }
}

impl G1Affine {
    pub fn new(x: Fq, y: Fq, infinity: bool) -> (r: G1Affine)
        ensures
            r == (G1Affine { x, y, infinity }),
    {
        G1Affine { x, y, infinity }
    }

    /// The identity of the group, with the coordinates `ark-ec` gives it.
    pub fn identity() -> (r: G1Affine)
        ensures
            r@ == (PointModel { x: 0, y: 1, infinity: true }),
    {
        G1Affine {
            x: Fq { repr: U256::new(0, 0, 0, 0) },
            y: Fq { repr: U256::new(1, 0, 0, 0) },
            infinity: true,
        }
    }

    pub fn is_identity(&self) -> (r: bool)
        ensures
            r == self@.infinity,
    {
        self.infinity
    }

    /// Appends the 65 bytes under which the point enters a transcript.
    pub fn append_bytes(&self, out: &mut Vec<u8>)
        ensures
            final(out)@ == old(out)@ + point_bytes(self@),
    {
        self.x.append_bytes(out);
        self.y.append_bytes(out);
        out.push(if self.infinity { 1u8 } else { 0u8 });
        assert(out@ =~= old(out)@ + point_bytes(self@));
    }
}

/// The sum of `scalars[i] * points[i]`.
pub fn multi_scalar_mul(points: &Vec<G1Affine>, scalars: &Vec<Fr>) -> (r: G1Affine)
    requires
        points.len() == scalars.len(),
    ensures
        r@ == msm_sum(points_model(points@), scalars_model(scalars@)),
{
    ark_multi_scalar_mul(points, scalars)
}

} // verus!
