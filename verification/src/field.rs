//! Arithmetic modulo the order of the Pallas group, as mathematics: the
//! functions over which every contract on scalars is stated.

use vstd::arithmetic::div_mod::{
    lemma_add_mod_noop, lemma_mod_twice, lemma_mul_mod_noop_general, lemma_small_mod,
    lemma_sub_mod_noop,
};
use vstd::arithmetic::power::pow;
use vstd::prelude::*;

verus! {

/// The order of the Pallas group, a 255-bit prime: the modulus of the scalar field.
pub open spec fn modulus() -> int {
    0x8c46eb2100000001int + 0x1_0000_0000_0000_0000int * (0x224698fc0994a8ddint
        + 0x1_0000_0000_0000_0000int * (0int + 0x1_0000_0000_0000_0000int * 0x4000000000000000int))
}

/// The residue of an integer, in `[0, modulus())`.
pub open spec fn reduce(x: int) -> int {
    x % modulus()
}

pub open spec fn fadd(a: int, b: int) -> int {
    reduce(a + b)
}

pub open spec fn fsub(a: int, b: int) -> int {
    reduce(a - b)
}

pub open spec fn fmul(a: int, b: int) -> int {
    reduce(a * b)
}

pub open spec fn fneg(a: int) -> int {
    reduce(-a)
}

/// `b` to the power `e`, reduced.
pub open spec fn fpow(b: int, e: nat) -> int {
    reduce(pow(b, e))
}

/// Whether `x` is a residue: an integer in `[0, modulus())`.
pub open spec fn is_residue(x: int) -> bool {
    0 <= x < modulus()
}

/// The multiplicative inverse of a nonzero residue; `lemma_inverse_unique`
/// shows that at most one residue qualifies.
pub open spec fn finv(a: int) -> int {
    choose|b: int| is_residue(b) && fmul(a, b) == 1
}

/// The sum of `a[i] * b[i]` over the first `k` indices.
pub open spec fn dot_upto(a: Seq<int>, b: Seq<int>, k: nat) -> int
    decreases k,
{
    if k == 0 {
        0
    } else {
        dot_upto(a, b, (k - 1) as nat) + a[k - 1] * b[k - 1]
    }
}

/// The sum of `a[i] * b[i]` over the indices of `a`.
pub open spec fn dot(a: Seq<int>, b: Seq<int>) -> int {
    dot_upto(a, b, a.len())
}

/// Two integers that leave the same residue.
pub open spec fn congruent(x: int, y: int) -> bool {
    reduce(x) == reduce(y)
}

pub proof fn lemma_reduce_small(x: int)
    requires
        is_residue(x),
    ensures
        reduce(x) == x,
{
    lemma_small_mod(x as nat, modulus() as nat);
}

/// Reducing the operands of a sum does not change its residue.
pub proof fn lemma_reduce_add(x: int, y: int)
    ensures
        reduce(reduce(x) + reduce(y)) == reduce(x + y),
        reduce(reduce(x) + y) == reduce(x + y),
        reduce(x + reduce(y)) == reduce(x + y),
{
    let m = modulus();
    lemma_add_mod_noop(x, y, m);
    lemma_add_mod_noop(x % m, y, m);
    lemma_add_mod_noop(x, y % m, m);
    lemma_mod_twice(x, m);
    lemma_mod_twice(y, m);
}

/// Reducing the operands of a difference does not change its residue.
pub proof fn lemma_reduce_sub(x: int, y: int)
    ensures
        reduce(reduce(x) - reduce(y)) == reduce(x - y),
        reduce(reduce(x) - y) == reduce(x - y),
        reduce(x - reduce(y)) == reduce(x - y),
{
    let m = modulus();
    lemma_sub_mod_noop(x, y, m);
    lemma_sub_mod_noop(x % m, y, m);
    lemma_sub_mod_noop(x, y % m, m);
    lemma_mod_twice(x, m);
    lemma_mod_twice(y, m);
}

/// Reducing the operands of a product does not change its residue.
pub proof fn lemma_reduce_mul(x: int, y: int)
    ensures
        reduce(reduce(x) * reduce(y)) == reduce(x * y),
        reduce(reduce(x) * y) == reduce(x * y),
        reduce(x * reduce(y)) == reduce(x * y),
{
    let m = modulus();
    lemma_mul_mod_noop_general(x, y, m);
}

/// Adding a product to zero leaves the product.
pub proof fn lemma_fadd_zero(a: int, b: int)
    ensures
        fadd(0, fmul(a, b)) == fmul(a, b),
        fadd(0, 0) == 0,
{
    lemma_mod_twice(a * b, modulus());
    lemma_small_mod(0, modulus() as nat);
}

/// One more factor of the base raises the exponent by one.
pub proof fn lemma_fpow_step(b: int, e: nat)
    ensures
        fpow(b, 0) == 1,
        fpow(b, (e + 1) as nat) == fmul(fpow(b, e), b),
{
    vstd::arithmetic::power::lemma_pow0(b);
    lemma_small_mod(1, modulus() as nat);
    assert(pow(b, (e + 1) as nat) == b * pow(b, e)) by {
        reveal(pow);
    }
    lemma_reduce_mul(pow(b, e), b);
    assert(b * pow(b, e) == pow(b, e) * b) by (nonlinear_arith);
}

/// A residue has at most one multiplicative inverse.
pub proof fn lemma_inverse_unique(a: int, b: int, c: int)
    requires
        is_residue(b),
        is_residue(c),
        fmul(a, b) == 1,
        fmul(a, c) == 1,
    ensures
        b == c,
{
    // b = b * (a * c) = (b * a) * c = c, all modulo the modulus
    lemma_reduce_mul(b, a * c);
    assert(reduce(b * (a * c)) == reduce(b * 1));
    lemma_reduce_mul(a * b, c);
    assert(reduce((a * b) * c) == reduce(1 * c));
    assert(b * (a * c) == (a * b) * c) by (nonlinear_arith);
    lemma_reduce_small(b);
    lemma_reduce_small(c);
}

/// The inverse that a multiplication witnesses is `finv`.
pub proof fn lemma_finv_is(a: int, b: int)
    requires
        is_residue(b),
        fmul(a, b) == 1,
    ensures
        finv(a) == b,
{
    let c = finv(a);
    lemma_inverse_unique(a, b, c);
}

} // verus!
