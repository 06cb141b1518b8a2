//! Powers of a scalar, inner products, powers of two, and the polynomials
//! that a prover carries and wipes after use.

use crate::curve::{scalars_model, Fr};
use crate::field::{
    dot, dot_upto, fadd, fmul, fpow, lemma_reduce_add, lemma_reduce_mul, lemma_reduce_small, reduce,
};
use clear_on_drop::clear::Clear;
use vstd::arithmetic::power2::{lemma_pow2_unfold, pow2};
use vstd::prelude::*;

verus! {

/// The smallest power of two that is at least `n`.
pub open spec fn next_power_of_two(n: nat) -> nat
    decreases n,
{
    if n <= 1 {
        1
    } else {
        2 * next_power_of_two((n + 1) / 2)
    }
}

/// A power of two that is at least `n`, while its half is not, is the smallest such.
pub proof fn lemma_next_power_of_two(n: nat, k: nat)
    requires
        n <= pow2(k),
        k > 0 ==> pow2((k - 1) as nat) < n,
    ensures
        next_power_of_two(n) == pow2(k),
    decreases k,
{
    vstd::arithmetic::power2::lemma2_to64();
    if k == 0 {
    } else {
        lemma_pow2_unfold(k);
        if k == 1 {
            lemma_next_power_of_two((n + 1) / 2, 0);
        } else {
            lemma_pow2_unfold((k - 1) as nat);
            lemma_next_power_of_two((n + 1) / 2, (k - 1) as nat);
        }
    }
}

/// The next power of two is at least one and at least `n`.
pub proof fn lemma_next_power_of_two_bounds(n: nat)
    ensures
        next_power_of_two(n) >= n,
        next_power_of_two(n) >= 1,
    decreases n,
{
    if n > 1 {
        lemma_next_power_of_two_bounds((n + 1) / 2);
    }
}

/// The smallest power of two that is at least `n`, where a `usize` holds it.
pub fn checked_next_power_of_two(n: usize) -> (r: Option<usize>)
    ensures
        r.is_some() <==> next_power_of_two(n as nat) <= usize::MAX,
        r.is_some() ==> r.unwrap() == next_power_of_two(n as nat),
{
    let mut p: usize = 1;
    let ghost mut k: nat = 0;
    proof {
        vstd::arithmetic::power2::lemma2_to64();
    }
    while p < n
        invariant
            p >= 1,
            p == pow2(k),
            k > 0 ==> pow2((k - 1) as nat) < n,
        decreases usize::MAX - p,
    {
        proof {
            lemma_pow2_unfold(k + 1);
        }
        if p > usize::MAX / 2 {
            proof {
                lemma_next_power_of_two(n as nat, k + 1);
            }
            return None;
        }
        p = p * 2;
        proof {
            k = k + 1;
        }
    }
    proof {
        lemma_next_power_of_two(n as nat, k);
    }
    Some(p)
}

/// `n` zeros.
pub fn zeros(n: usize) -> (v: Vec<Fr>)
    ensures
        v@.len() == n,
        forall|i: int| 0 <= i < n ==> (#[trigger] v@[i])@ == 0,
{
    let mut v: Vec<Fr> = Vec::new();
    let mut i: usize = 0;
    while i < n
        invariant
            i <= n,
            v@.len() == i,
            forall|j: int| 0 <= j < i ==> (#[trigger] v@[j])@ == 0,
        decreases n - i,
    {
        v.push(Fr::zero());
        i += 1;
    }
    v
}

/// An endless run of the powers of a scalar: `1, x, x^2, ...`.
pub struct FrExp {
    x: Fr,
    next_exp_x: Fr,
}

impl FrExp {
    /// The scalar whose powers these are.
    pub closed spec fn base(&self) -> int {
        self.x@
    }

    /// The power that comes next.
    pub closed spec fn upcoming(&self) -> int {
        self.next_exp_x@
    }

    /// Hands out the next power and moves on by one.
    pub fn next(&mut self) -> (r: Option<Fr>)
        ensures
            r.is_some(),
            r.unwrap()@ == old(self).upcoming(),
            final(self).base() == old(self).base(),
            final(self).upcoming() == fmul(old(self).upcoming(), old(self).base()),
    {
        let exp_x = self.next_exp_x;
        self.next_exp_x = self.next_exp_x.mul(self.x);
        Some(exp_x)
    }

    /// The run never ends.
    pub fn size_hint(&self) -> (r: (usize, Option<usize>))
        ensures
            r == (usize::MAX, None::<usize>),
    {
        (usize::MAX, None)
    }

    /// The next `n` powers, in order.
    pub fn take(self, n: usize) -> (r: Vec<Fr>)
        ensures
            r@.len() == n,
            forall|i: int|
                0 <= i < n ==> (#[trigger] r@[i])@ == reduce(
                    self.upcoming() * vstd::arithmetic::power::pow(self.base(), i as nat),
                ),
    {
        proof {
            use_type_invariant(&self.next_exp_x);
        }
        let mut it = self;
        let mut out: Vec<Fr> = Vec::new();
        let mut i: usize = 0;
        proof {
            lemma_reduce_small(self.upcoming());
            vstd::arithmetic::power::lemma_pow0(self.base());
        }
        while i < n
            invariant
                i <= n,
                out@.len() == i,
                it.base() == self.base(),
                it.upcoming() == reduce(self.upcoming() * vstd::arithmetic::power::pow(self.base(), i as nat)),
                forall|j: int|
                    0 <= j < i ==> (#[trigger] out@[j])@ == reduce(
                        self.upcoming() * vstd::arithmetic::power::pow(self.base(), j as nat),
                    ),
            decreases n - i,
        {
            let next = it.next();
            out.push(next.unwrap());
            proof {
                let b = self.base();
                let p = vstd::arithmetic::power::pow(b, i as nat);
                assert(vstd::arithmetic::power::pow(b, (i + 1) as nat) == b * p) by {
                    reveal(vstd::arithmetic::power::pow);
                }
                lemma_reduce_mul(self.upcoming() * p, b);
                assert((self.upcoming() * p) * b == self.upcoming() * (b * p)) by (nonlinear_arith);
            }
            i += 1;
        }
        out
    }
}

/// The powers of `x`, from `x^0` on.
pub fn exp_iter(x: Fr) -> (it: FrExp)
    ensures
        it.base() == x@,
        it.upcoming() == 1,
{
    let next_exp_x = Fr::one();
    FrExp { x, next_exp_x }
}

/// The first `n` powers of `x`.
pub fn powers(x: Fr, n: usize) -> (r: Vec<Fr>)
    ensures
        r@.len() == n,
        forall|i: int| 0 <= i < n ==> (#[trigger] r@[i])@ == fpow(x@, i as nat),
{
    let r = exp_iter(x).take(n);
    proof {
        assert forall|i: int| 0 <= i < n implies (#[trigger] r@[i])@ == fpow(x@, i as nat) by {
            assert(1 * vstd::arithmetic::power::pow(x@, i as nat) == vstd::arithmetic::power::pow(x@, i as nat));
        }
    }
    r
}

/// The inner product of two vectors of one length.
pub fn inner_product(a: &[Fr], b: &[Fr]) -> (r: Fr)
    requires
        a@.len() == b@.len(),
    ensures
        r@ == reduce(dot(scalars_model(a@), scalars_model(b@))),
{
    let mut out = Fr::zero();
    let mut i: usize = 0;
    let ghost am = scalars_model(a@);
    let ghost bm = scalars_model(b@);
    proof {
        lemma_reduce_small(0);
    }
    while i < a.len()
        invariant
            i <= a.len(),
            a@.len() == b@.len(),
            am == scalars_model(a@),
            bm == scalars_model(b@),
            out@ == reduce(dot_upto(am, bm, i as nat)),
        decreases a.len() - i,
    {
        let prod = a[i].mul(b[i]);
        proof {
            let s = dot_upto(am, bm, i as nat);
            lemma_reduce_add(s, am[i as int] * bm[i as int]);
        }
        out = out.add(prod);
        i += 1;
    }
    out
}


/// `clear_on_drop::clear::Clear::clear` on a scalar: its memory is
/// overwritten with zeros, and the scalar is then the default one, zero.
#[verifier::external_body]
fn clear_on_drop_clear(e: &mut Fr)
    ensures
        final(e)@ == 0,
    opens_invariants none
    no_unwind
{
    Clear::clear(e)
}

/// Wipes a scalar: overwrites it with zero in a way that the compiler
/// cannot remove.
pub fn clear_scalar(e: &mut Fr)
    ensures
        final(e)@ == 0,
    opens_invariants none
    no_unwind
{
    clear_on_drop_clear(e);
}

/// Wipes every scalar of a vector.
pub fn clear_scalars(v: &mut Vec<Fr>)
    ensures
        final(v)@.len() == old(v)@.len(),
        forall|i: int| 0 <= i < final(v)@.len() ==> (#[trigger] final(v)@[i])@ == 0,
{
    let n = v.len();
    let mut i: usize = 0;
    while i < n
        invariant
            i <= n,
            v@.len() == n,
            n == old(v)@.len(),
            forall|j: int| 0 <= j < i ==> (#[trigger] v@[j])@ == 0,
        decreases n - i,
    {
        clear_scalar(&mut v[i]);
        i += 1;
    }
}

/// A scalar that is a prover's secret: it is wiped when it is dropped.
#[derive(Debug, PartialEq, Eq)]
pub struct SecretScalar {
    pub value: Fr,
}

impl View for SecretScalar {
    type V = int;

    open spec fn view(&self) -> int {
        self.value@
    }
}

/// The values of a sequence of secret scalars.
pub open spec fn secrets_model(s: Seq<SecretScalar>) -> Seq<int> {
    s.map_values(|x: SecretScalar| x@)
}

/// `n` secret zeros.
pub fn secret_zeros(n: usize) -> (v: Vec<SecretScalar>)
    ensures
        v@.len() == n,
        forall|i: int| 0 <= i < n ==> (#[trigger] v@[i])@ == 0,
{
    let mut v: Vec<SecretScalar> = Vec::new();
    let mut i: usize = 0;
    while i < n
        invariant
            i <= n,
            v@.len() == i,
            forall|j: int| 0 <= j < i ==> (#[trigger] v@[j])@ == 0,
        decreases n - i,
    {
        v.push(SecretScalar { value: Fr::zero() });
        i += 1;
    }
    v
}

/// The inner product of two vectors of secret scalars of one length.
pub fn secret_inner_product(a: &Vec<SecretScalar>, b: &Vec<SecretScalar>) -> (r: Fr)
    requires
        a@.len() == b@.len(),
    ensures
        r@ == reduce(dot(secrets_model(a@), secrets_model(b@))),
{
    let mut out = Fr::zero();
    let mut i: usize = 0;
    let ghost am = secrets_model(a@);
    let ghost bm = secrets_model(b@);
    proof {
        lemma_reduce_small(0);
    }
    while i < a.len()
        invariant
            i <= a@.len(),
            a@.len() == b@.len(),
            am == secrets_model(a@),
            bm == secrets_model(b@),
            out@ == reduce(dot_upto(am, bm, i as nat)),
        decreases a@.len() - i,
    {
        let prod = a[i].value.mul(b[i].value);
        proof {
            let s = dot_upto(am, bm, i as nat);
            lemma_reduce_add(s, am[i as int] * bm[i as int]);
        }
        out = out.add(prod);
        i += 1;
    }
    out
}

/// Wipes every scalar of a vector of secrets.
pub fn clear_secrets(v: &mut Vec<SecretScalar>)
    ensures
        final(v)@.len() == old(v)@.len(),
        forall|i: int| 0 <= i < final(v)@.len() ==> (#[trigger] final(v)@[i])@ == 0,
{
    let n = v.len();
    let mut i: usize = 0;
    while i < n
        invariant
            i <= n,
            v@.len() == n,
            n == old(v)@.len(),
            forall|j: int| 0 <= j < i ==> (#[trigger] v@[j])@ == 0,
        decreases n - i,
    {
        clear_scalar(&mut v[i].value);
        i += 1;
    }
}

/// A polynomial of degree three whose coefficients are vectors:
/// `a + b * x + c * x^2 + d * x^3`. A prover's secret: each of its scalars
/// is wiped when the polynomial is dropped.
pub struct VecPoly3(
    pub Vec<SecretScalar>,
    pub Vec<SecretScalar>,
    pub Vec<SecretScalar>,
    pub Vec<SecretScalar>,
);

/// A polynomial of degree six without a constant term:
/// `t1 * x + t2 * x^2 + ... + t6 * x^6`. A prover's secret: it is wiped when
/// it is dropped.
pub struct Poly6 {
    pub t1: Fr,
    pub t2: Fr,
    pub t3: Fr,
    pub t4: Fr,
    pub t5: Fr,
    pub t6: Fr,
}

/// The value at `x` of the polynomial with coefficients `a, b, c, d`.
pub open spec fn poly3(a: int, b: int, c: int, d: int, x: int) -> int {
    a + b * x + c * (x * x) + d * (x * x * x)
}

/// Horner's rule for a polynomial of degree three.
proof fn lemma_horner3(a: int, b: int, c: int, d: int, x: int)
    ensures
        a + x * (b + x * (c + x * d)) == poly3(a, b, c, d, x),
{
    let x2 = x * x;
    lemma_mul_shift(x, d, x);
    lemma_mul_shift(x, c, 1);
    assert(x * (x * d) == d * x2);
    lemma_mul_spread(x, c, x * d, 0, 0, 0, 0);
    assert(x * (c + x * d) == c * x + d * x2);
    lemma_mul_shift(x, c, x);
    lemma_mul_shift(x, d, x2);
    lemma_mul_shift(x, b, 1);
    lemma_mul_spread(x, b, c * x, d * x2, 0, 0, 0);
}

/// The value at `x` of the polynomial with coefficients `t1, ..., t6` and no constant term.
pub open spec fn poly6(t1: int, t2: int, t3: int, t4: int, t5: int, t6: int, x: int) -> int {
    t1 * x + t2 * (x * x) + t3 * (x * x * x) + t4 * (x * x * x * x) + t5 * (x * x * x * x * x) + t6 * (x
        * x * x * x * x * x)
}

/// Horner's rule for a polynomial of degree six without a constant term.
proof fn lemma_horner6(t1: int, t2: int, t3: int, t4: int, t5: int, t6: int, x: int)
    ensures
        x * (t1 + x * (t2 + x * (t3 + x * (t4 + x * (t5 + x * t6))))) == poly6(t1, t2, t3, t4, t5, t6, x),
{
    let x2 = x * x;
    let x3 = x2 * x;
    let x4 = x3 * x;
    let x5 = x4 * x;
    let x6 = x5 * x;
    let h5 = t5 + x * t6;
    let h4 = t4 + x * h5;
    let h3 = t3 + x * h4;
    let h2 = t2 + x * h3;
    let h1 = t1 + x * h2;
    // x * h_k, written out, one degree at a time
    lemma_mul_shift(x, t6, x);
    lemma_mul_shift(x, t5, 1);
    assert(x * (x * t6) == t6 * x2);
    lemma_mul_spread(x, t5, x * t6, 0, 0, 0, 0);
    let e5 = t5 * x + t6 * x2;
    assert(x * h5 == e5);
    lemma_mul_shift(x, t5, x);
    lemma_mul_shift(x, t6, x2);
    lemma_mul_spread(x, t4, t5 * x, t6 * x2, 0, 0, 0);
    let e4 = t4 * x + t5 * x2 + t6 * x3;
    assert(x * h4 == e4);
    lemma_mul_shift(x, t4, x);
    lemma_mul_shift(x, t5, x2);
    lemma_mul_shift(x, t6, x3);
    lemma_mul_spread(x, t3, t4 * x, t5 * x2, t6 * x3, 0, 0);
    let e3 = t3 * x + t4 * x2 + t5 * x3 + t6 * x4;
    assert(x * h3 == e3);
    lemma_mul_shift(x, t3, x);
    lemma_mul_shift(x, t4, x2);
    lemma_mul_shift(x, t5, x3);
    lemma_mul_shift(x, t6, x4);
    lemma_mul_spread(x, t2, t3 * x, t4 * x2, t5 * x3, t6 * x4, 0);
    let e2 = t2 * x + t3 * x2 + t4 * x3 + t5 * x4 + t6 * x5;
    assert(x * h2 == e2);
    lemma_mul_shift(x, t2, x);
    lemma_mul_shift(x, t3, x2);
    lemma_mul_shift(x, t4, x3);
    lemma_mul_shift(x, t5, x4);
    lemma_mul_shift(x, t6, x5);
    lemma_mul_shift(x, t1, 1);
    lemma_mul_spread(x, t1, t2 * x, t3 * x2, t4 * x3, t5 * x4, t6 * x5);
    assert(h1 == t1 + t2 * x + t3 * x2 + t4 * x3 + t5 * x4 + t6 * x5);
    assert(x * h1 == t1 * x + t2 * x2 + t3 * x3 + t4 * x4 + t5 * x5 + t6 * x6);
}

/// `x * (t * p) == t * (p * x)`.
proof fn lemma_mul_shift(x: int, t: int, p: int)
    ensures
        x * (t * p) == t * (p * x),
        x * t == t * x,
{
    assert(x * (t * p) == t * (p * x)) by (nonlinear_arith);
    assert(x * t == t * x) by (nonlinear_arith);
}

/// A factor spreads over a sum of six.
proof fn lemma_mul_spread(x: int, a: int, b: int, c: int, d: int, e: int, f: int)
    ensures
        x * (a + b + c + d + e + f) == x * a + x * b + x * c + x * d + x * e + x * f,
        x * 0 == 0,
{
    assert(x * (a + b + c + d + e + f) == x * a + x * b + x * c + x * d + x * e + x * f)
        by (nonlinear_arith);
}

/// `(a * p) * (b * q) == (a * b) * (p * q)`.
proof fn lemma_mul_pairs(a: int, p: int, b: int, q: int)
    ensures
        (a * p) * (b * q) == (a * b) * (p * q),
        (a * p) * b == (a * b) * p,
{
    assert((a * p) * (b * q) == (a * b) * (p * q)) by (nonlinear_arith);
    assert((a * p) * b == (a * b) * p) by (nonlinear_arith);
}

/// The product of `l1 x + l2 x^2 + l3 x^3` and `r0 + r1 x + r3 x^3`, by degree.
proof fn lemma_special_product(l1: int, l2: int, l3: int, r0: int, r1: int, r3: int, x: int)
    ensures
        poly3(0, l1, l2, l3, x) * poly3(r0, r1, 0, r3, x) == poly6(
            l1 * r0,
            l1 * r1 + l2 * r0,
            l2 * r1 + l3 * r0,
            l1 * r3 + l3 * r1,
            l2 * r3,
            l3 * r3,
            x,
        ),
{
    let x2 = x * x;
    let x3 = x * x * x;
    let x4 = x * x * x * x;
    let x5 = x * x * x * x * x;
    let x6 = x * x * x * x * x * x;
    assert(x * x2 == x3 && x * x3 == x4 && x2 * x == x3 && x2 * x3 == x5 && x3 * x == x4 && x3 * x3 == x6)
        by (nonlinear_arith)
        requires
            x2 == x * x,
            x3 == x * x * x,
            x4 == x * x * x * x,
            x5 == x * x * x * x * x,
            x6 == x * x * x * x * x * x,
    ;
    let (a, b, c) = (l1 * x, l2 * x2, l3 * x3);
    let (d, e, f) = (r0, r1 * x, r3 * x3);
    assert(0 * x2 == 0);
    assert(poly3(0, l1, l2, l3, x) == a + b + c);
    assert(poly3(r0, r1, 0, r3, x) == d + e + f);
    assert((a + b + c) * (d + e + f) == a * d + a * e + a * f + b * d + b * e + b * f + c * d + c * e + c
        * f) by (nonlinear_arith);
    lemma_mul_pairs(l1, x, r0, 1);
    lemma_mul_pairs(l1, x, r1, x);
    lemma_mul_pairs(l1, x, r3, x3);
    lemma_mul_pairs(l2, x2, r0, 1);
    lemma_mul_pairs(l2, x2, r1, x);
    lemma_mul_pairs(l2, x2, r3, x3);
    lemma_mul_pairs(l3, x3, r0, 1);
    lemma_mul_pairs(l3, x3, r1, x);
    lemma_mul_pairs(l3, x3, r3, x3);
    assert((l1 * r1 + l2 * r0) * x2 == (l1 * r1) * x2 + (l2 * r0) * x2) by (nonlinear_arith);
    assert((l2 * r1 + l3 * r0) * x3 == (l2 * r1) * x3 + (l3 * r0) * x3) by (nonlinear_arith);
    assert((l1 * r3 + l3 * r1) * x4 == (l1 * r3) * x4 + (l3 * r1) * x4) by (nonlinear_arith);
}

/// `poly6` adds up coefficient by coefficient.
proof fn lemma_poly6_adds(s: (int, int, int, int, int, int), t: (int, int, int, int, int, int), x: int)
    ensures
        poly6(s.0 + t.0, s.1 + t.1, s.2 + t.2, s.3 + t.3, s.4 + t.4, s.5 + t.5, x) == poly6(
            s.0,
            s.1,
            s.2,
            s.3,
            s.4,
            s.5,
            x,
        ) + poly6(t.0, t.1, t.2, t.3, t.4, t.5, x),
{
    let x2 = x * x;
    let x3 = x * x * x;
    let x4 = x * x * x * x;
    let x5 = x * x * x * x * x;
    let x6 = x * x * x * x * x * x;
    assert((s.0 + t.0) * x == s.0 * x + t.0 * x) by (nonlinear_arith);
    assert((s.1 + t.1) * x2 == s.1 * x2 + t.1 * x2) by (nonlinear_arith);
    assert((s.2 + t.2) * x3 == s.2 * x3 + t.2 * x3) by (nonlinear_arith);
    assert((s.3 + t.3) * x4 == s.3 * x4 + t.3 * x4) by (nonlinear_arith);
    assert((s.4 + t.4) * x5 == s.4 * x5 + t.4 * x5) by (nonlinear_arith);
    assert((s.5 + t.5) * x6 == s.5 * x6 + t.5 * x6) by (nonlinear_arith);
}

/// The values at `x` of a vector polynomial with the given coefficients.
pub open spec fn poly3_values(a: Seq<int>, b: Seq<int>, c: Seq<int>, d: Seq<int>, x: int) -> Seq<int> {
    Seq::new(a.len(), |i: int| poly3(a[i], b[i], c[i], d[i], x))
}

/// What makes the special inner product an inner product: for a left
/// polynomial without a constant term and a right one without a quadratic
/// term, the inner product of their values at `x` is the value at `x` of the
/// polynomial whose coefficients `special_inner_product` gathers.
pub proof fn lemma_special_inner_product(
    zeros: Seq<int>,
    l1: Seq<int>,
    l2: Seq<int>,
    l3: Seq<int>,
    r0: Seq<int>,
    r1: Seq<int>,
    r3: Seq<int>,
    x: int,
)
    requires
        forall|i: int| 0 <= i < zeros.len() ==> zeros[i] == 0,
        l1.len() == zeros.len(),
        l2.len() == zeros.len(),
        l3.len() == zeros.len(),
        r0.len() == zeros.len(),
        r1.len() == zeros.len(),
        r3.len() == zeros.len(),
    ensures
        dot(poly3_values(zeros, l1, l2, l3, x), poly3_values(r0, r1, zeros, r3, x)) == poly6(
            dot(l1, r0),
            dot(l1, r1) + dot(l2, r0),
            dot(l2, r1) + dot(l3, r0),
            dot(l1, r3) + dot(l3, r1),
            dot(l2, r3),
            dot(l3, r3),
            x,
        ),
{
    lemma_special_inner_product_upto(zeros, l1, l2, l3, r0, r1, r3, x, zeros.len());
}

proof fn lemma_special_inner_product_upto(
    zeros: Seq<int>,
    l1: Seq<int>,
    l2: Seq<int>,
    l3: Seq<int>,
    r0: Seq<int>,
    r1: Seq<int>,
    r3: Seq<int>,
    x: int,
    k: nat,
)
    requires
        forall|i: int| 0 <= i < zeros.len() ==> zeros[i] == 0,
        k <= zeros.len(),
        l1.len() == zeros.len(),
        l2.len() == zeros.len(),
        l3.len() == zeros.len(),
        r0.len() == zeros.len(),
        r1.len() == zeros.len(),
        r3.len() == zeros.len(),
    ensures
        dot_upto(poly3_values(zeros, l1, l2, l3, x), poly3_values(r0, r1, zeros, r3, x), k) == poly6(
            dot_upto(l1, r0, k),
            dot_upto(l1, r1, k) + dot_upto(l2, r0, k),
            dot_upto(l2, r1, k) + dot_upto(l3, r0, k),
            dot_upto(l1, r3, k) + dot_upto(l3, r1, k),
            dot_upto(l2, r3, k),
            dot_upto(l3, r3, k),
            x,
        ),
    decreases k,
{
    if k == 0 {
        assert(0 * x == 0);
        assert(0 * (x * x) == 0);
        assert(0 * (x * x * x) == 0);
        assert(0 * (x * x * x * x) == 0);
        assert(0 * (x * x * x * x * x) == 0);
        assert(0 * (x * x * x * x * x * x) == 0);
    } else {
        let j = (k - 1) as nat;
        lemma_special_inner_product_upto(zeros, l1, l2, l3, r0, r1, r3, x, j);
        let i = k - 1;
        lemma_special_product(l1[i], l2[i], l3[i], r0[i], r1[i], r3[i], x);
        lemma_poly6_adds(
            (
                dot_upto(l1, r0, j),
                dot_upto(l1, r1, j) + dot_upto(l2, r0, j),
                dot_upto(l2, r1, j) + dot_upto(l3, r0, j),
                dot_upto(l1, r3, j) + dot_upto(l3, r1, j),
                dot_upto(l2, r3, j),
                dot_upto(l3, r3, j),
            ),
            (
                l1[i] * r0[i],
                l1[i] * r1[i] + l2[i] * r0[i],
                l2[i] * r1[i] + l3[i] * r0[i],
                l1[i] * r3[i] + l3[i] * r1[i],
                l2[i] * r3[i],
                l3[i] * r3[i],
            ),
            x,
        );
    }
}

/// Reducing in between does not change what a step of Horner's rule leaves.
proof fn lemma_horner_step(t: int, x: int, h: int)
    ensures
        fadd(t, fmul(x, reduce(h))) == reduce(t + x * h),
{
    lemma_reduce_mul(x, h);
    lemma_reduce_add(t, x * h);
}

impl VecPoly3 {
    /// The four coefficients are of one length.
    pub open spec fn well_formed(&self) -> bool {
        self.0@.len() == self.1@.len() && self.0@.len() == self.2@.len() && self.0@.len() == self.3@.len()
    }

    /// The polynomial whose coefficients are `n` zeros each.
    pub fn zero(n: usize) -> (r: VecPoly3)
        ensures
            r.well_formed(),
            r.0@.len() == n,
            forall|i: int|
                0 <= i < n ==> (#[trigger] r.0@[i])@ == 0 && r.1@[i]@ == 0 && r.2@[i]@ == 0 && r.3@[i]@ == 0,
    {
        VecPoly3(secret_zeros(n), secret_zeros(n), secret_zeros(n), secret_zeros(n))
    }

    /// The inner product of two polynomials, for a left one without a
    /// constant term and a right one without a quadratic term: the
    /// coefficient of `x^k` gathers the inner products of the coefficients
    /// whose degrees add up to `k`.
    pub fn special_inner_product(lhs: &VecPoly3, rhs: &VecPoly3) -> (r: Poly6)
        requires
            lhs.well_formed(),
            rhs.well_formed(),
            lhs.0@.len() == rhs.0@.len(),
        ensures
            r.t1@ == reduce(dot(secrets_model(lhs.1@), secrets_model(rhs.0@))),
            r.t2@ == reduce(
                dot(secrets_model(lhs.1@), secrets_model(rhs.1@)) + dot(
                    secrets_model(lhs.2@),
                    secrets_model(rhs.0@),
                ),
            ),
            r.t3@ == reduce(
                dot(secrets_model(lhs.2@), secrets_model(rhs.1@)) + dot(
                    secrets_model(lhs.3@),
                    secrets_model(rhs.0@),
                ),
            ),
            r.t4@ == reduce(
                dot(secrets_model(lhs.1@), secrets_model(rhs.3@)) + dot(
                    secrets_model(lhs.3@),
                    secrets_model(rhs.1@),
                ),
            ),
            r.t5@ == reduce(dot(secrets_model(lhs.2@), secrets_model(rhs.3@))),
            r.t6@ == reduce(dot(secrets_model(lhs.3@), secrets_model(rhs.3@))),
    {
        let t1 = secret_inner_product(&lhs.1, &rhs.0);
        let t2 = secret_inner_product(&lhs.1, &rhs.1).add(
            secret_inner_product(&lhs.2, &rhs.0),
        );
        let t3 = secret_inner_product(&lhs.2, &rhs.1).add(
            secret_inner_product(&lhs.3, &rhs.0),
        );
        let t4 = secret_inner_product(&lhs.1, &rhs.3).add(
            secret_inner_product(&lhs.3, &rhs.1),
        );
        let t5 = secret_inner_product(&lhs.2, &rhs.3);
        let t6 = secret_inner_product(&lhs.3, &rhs.3);
        proof {
            lemma_reduce_add(
                dot(secrets_model(lhs.1@), secrets_model(rhs.1@)),
                dot(secrets_model(lhs.2@), secrets_model(rhs.0@)),
            );
            lemma_reduce_add(
                dot(secrets_model(lhs.2@), secrets_model(rhs.1@)),
                dot(secrets_model(lhs.3@), secrets_model(rhs.0@)),
            );
            lemma_reduce_add(
                dot(secrets_model(lhs.1@), secrets_model(rhs.3@)),
                dot(secrets_model(lhs.3@), secrets_model(rhs.1@)),
            );
        }
        Poly6 { t1, t2, t3, t4, t5, t6 }
    }

    /// The value of the polynomial at `x`, entry by entry.
    pub fn eval(&self, x: Fr) -> (out: Vec<Fr>)
        requires
            self.well_formed(),
        ensures
            out@.len() == self.0@.len(),
            forall|i: int|
                0 <= i < out@.len() ==> (#[trigger] out@[i])@ == reduce(
                    poly3(self.0@[i]@, self.1@[i]@, self.2@[i]@, self.3@[i]@, x@),
                ),
    {
        let n = self.0.len();
        let mut out: Vec<Fr> = Vec::new();
        let mut i: usize = 0;
        while i < n
            invariant
                i <= n,
                n == self.0@.len(),
                self.well_formed(),
                out@.len() == i,
                forall|j: int|
                    0 <= j < i ==> (#[trigger] out@[j])@ == reduce(
                        poly3(self.0@[j]@, self.1@[j]@, self.2@[j]@, self.3@[j]@, x@),
                    ),
            decreases n - i,
        {
            let (a, b, c, d) = (self.0[i].value, self.1[i].value, self.2[i].value, self.3[i].value);
            let inner = c.add(x.mul(d));
            let middle = b.add(x.mul(inner));
            let value = a.add(x.mul(middle));
            proof {
                use_type_invariant(&d);
                lemma_reduce_small(d@);
                lemma_horner_step(c@, x@, d@);
                lemma_horner_step(b@, x@, c@ + x@ * d@);
                lemma_horner_step(a@, x@, b@ + x@ * (c@ + x@ * d@));
                lemma_horner3(a@, b@, c@, d@, x@);
            }
            out.push(value);
            i += 1;
        }
        out
    }

    /// Wipes all coefficients.
    pub fn clear(&mut self)
        ensures
            final(self).0@.len() == old(self).0@.len(),
            final(self).1@.len() == old(self).1@.len(),
            final(self).2@.len() == old(self).2@.len(),
            final(self).3@.len() == old(self).3@.len(),
            forall|i: int| 0 <= i < final(self).0@.len() ==> (#[trigger] final(self).0@[i])@ == 0,
            forall|i: int| 0 <= i < final(self).1@.len() ==> (#[trigger] final(self).1@[i])@ == 0,
            forall|i: int| 0 <= i < final(self).2@.len() ==> (#[trigger] final(self).2@[i])@ == 0,
            forall|i: int| 0 <= i < final(self).3@.len() ==> (#[trigger] final(self).3@[i])@ == 0,
    {
        clear_secrets(&mut self.0);
        clear_secrets(&mut self.1);
        clear_secrets(&mut self.2);
        clear_secrets(&mut self.3);
    }
}

impl Poly6 {
    /// The value of the polynomial at `x`.
    pub fn eval(&self, x: Fr) -> (r: Fr)
        ensures
            r@ == reduce(poly6(self.t1@, self.t2@, self.t3@, self.t4@, self.t5@, self.t6@, x@)),
    {
        let h5 = self.t5.add(x.mul(self.t6));
        let h4 = self.t4.add(x.mul(h5));
        let h3 = self.t3.add(x.mul(h4));
        let h2 = self.t2.add(x.mul(h3));
        let h1 = self.t1.add(x.mul(h2));
        let r = x.mul(h1);
        proof {
            let (t1, t2, t3, t4, t5, t6, xi) = (self.t1@, self.t2@, self.t3@, self.t4@, self.t5@, self.t6@, x@);
            use_type_invariant(&self.t6);
            lemma_reduce_small(t6);
            lemma_horner_step(t5, xi, t6);
            lemma_horner_step(t4, xi, t5 + xi * t6);
            lemma_horner_step(t3, xi, t4 + xi * (t5 + xi * t6));
            lemma_horner_step(t2, xi, t3 + xi * (t4 + xi * (t5 + xi * t6)));
            lemma_horner_step(t1, xi, t2 + xi * (t3 + xi * (t4 + xi * (t5 + xi * t6))));
            lemma_reduce_mul(xi, t1 + xi * (t2 + xi * (t3 + xi * (t4 + xi * (t5 + xi * t6)))));
            lemma_horner6(t1, t2, t3, t4, t5, t6, xi);
        }
        r
    }

    /// Wipes all coefficients.
    pub fn clear(&mut self)
        ensures
            final(self).t1@ == 0,
            final(self).t2@ == 0,
            final(self).t3@ == 0,
            final(self).t4@ == 0,
            final(self).t5@ == 0,
            final(self).t6@ == 0,
        opens_invariants none
        no_unwind
    {
        clear_scalar(&mut self.t1);
        clear_scalar(&mut self.t2);
        clear_scalar(&mut self.t3);
        clear_scalar(&mut self.t4);
        clear_scalar(&mut self.t5);
        clear_scalar(&mut self.t6);
    }
}

impl Drop for SecretScalar {
    /// Wipes the scalar when it goes out of scope.
    fn drop(&mut self)
        ensures
            final(self)@ == 0,
        opens_invariants none
        no_unwind
    {
        clear_scalar(&mut self.value);
    }
}

impl Drop for Poly6 {
    /// Wipes all coefficients when the polynomial goes out of scope.
    fn drop(&mut self)
        ensures
            final(self).t1@ == 0,
            final(self).t2@ == 0,
            final(self).t3@ == 0,
            final(self).t4@ == 0,
            final(self).t5@ == 0,
            final(self).t6@ == 0,
        opens_invariants none
        no_unwind
    {
        self.clear();
    }
}

} // verus!
