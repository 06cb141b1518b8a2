//! Why flattening is sound: the weighted sum of the constraints, evaluated on
//! a witness, is the sum of the witness values under the flattened weights.

use crate::field::{
    congruent, dot, dot_upto, lemma_reduce_add, lemma_reduce_mul,
    lemma_reduce_sub, reduce,
};
use crate::r1cs::flatten::{
    coefficient, constraints_in_range, flat_committed, flat_constant, flat_left, flat_output,
    flat_right, terms_in_range, variable_in_range, weight,
};
use crate::r1cs::linear_combination::{Terms, Variable};
use vstd::arithmetic::power::pow;
use vstd::prelude::*;

verus! {

/// The values that a prover assigns: to the left inputs, the right inputs
/// and the outputs of the multipliers, and to the committed variables.
pub struct Witness {
    pub a_l: Seq<int>,
    pub a_r: Seq<int>,
    pub a_o: Seq<int>,
    pub v: Seq<int>,
}

/// The value of a variable under a witness.
pub open spec fn value_of(w: Witness, var: Variable) -> int {
    match var {
        Variable::Committed(i) => w.v[i as int],
        Variable::MultiplierLeft(i) => w.a_l[i as int],
        Variable::MultiplierRight(i) => w.a_r[i as int],
        Variable::MultiplierOutput(i) => w.a_o[i as int],
        Variable::One => 1,
    }
}

/// The value of a sum under a witness.
pub open spec fn evaluate(lc: Terms, w: Witness) -> int
    decreases lc.len(),
{
    if lc.len() == 0 {
        0
    } else {
        evaluate(lc.drop_last(), w) + lc.last().1 * value_of(w, lc.last().0)
    }
}

/// The values of the constraints under a witness, the first times `z`, the
/// second times `z^2` and so on, added up.
pub open spec fn weighted_evaluation(cs: Seq<Terms>, z: int, w: Witness) -> int
    decreases cs.len(),
{
    if cs.len() == 0 {
        0
    } else {
        weighted_evaluation(cs.drop_last(), z, w) + pow(z, cs.len()) * evaluate(cs.last(), w)
    }
}

spec fn left() -> spec_fn(int) -> Variable {
    |i: int| Variable::MultiplierLeft(i as usize)
}

spec fn right() -> spec_fn(int) -> Variable {
    |i: int| Variable::MultiplierRight(i as usize)
}

spec fn output() -> spec_fn(int) -> Variable {
    |i: int| Variable::MultiplierOutput(i as usize)
}

spec fn committed() -> spec_fn(int) -> Variable {
    |i: int| Variable::Committed(i as usize)
}

/// The sum of `f(mk(i)) * a[i]` over the first `k` indices.
spec fn var_sum(f: spec_fn(Variable) -> int, mk: spec_fn(int) -> Variable, a: Seq<int>, k: nat) -> int
    decreases k,
{
    if k == 0 {
        0
    } else {
        var_sum(f, mk, a, (k - 1) as nat) + f(mk(k - 1)) * a[k - 1]
    }
}

/// The value of the circuit's variables under the weights `f`.
spec fn total(f: spec_fn(Variable) -> int, w: Witness, n: nat, m: nat) -> int {
    var_sum(f, left(), w.a_l, n) + var_sum(f, right(), w.a_r, n) + var_sum(f, output(), w.a_o, n)
        + var_sum(f, committed(), w.v, m) + f(Variable::One)
}

spec fn indicator(var: Variable) -> spec_fn(Variable) -> int {
    |v: Variable|
        if v == var {
            1int
        } else {
            0int
        }
}

proof fn lemma_var_sum_linear(
    f: spec_fn(Variable) -> int,
    g: spec_fn(Variable) -> int,
    h: spec_fn(Variable) -> int,
    c: int,
    mk: spec_fn(int) -> Variable,
    a: Seq<int>,
    k: nat,
)
    requires
        forall|v: Variable| #[trigger] h(v) == f(v) + c * g(v),
    ensures
        var_sum(h, mk, a, k) == var_sum(f, mk, a, k) + c * var_sum(g, mk, a, k),
    decreases k,
{
    if k > 0 {
        lemma_var_sum_linear(f, g, h, c, mk, a, (k - 1) as nat);
        let v = mk(k - 1);
        let x = a[k - 1];
        let (fv, gv, hv) = (f(v), g(v), h(v));
        let sg = var_sum(g, mk, a, (k - 1) as nat);
        assert(hv == fv + c * gv);
        assert((fv + c * gv) * x == fv * x + c * (gv * x)) by (nonlinear_arith);
        assert(c * (sg + gv * x) == c * sg + c * (gv * x)) by (nonlinear_arith);
    } else {
        assert(c * 0 == 0);
    }
}

proof fn lemma_indicator_miss(var: Variable, mk: spec_fn(int) -> Variable, a: Seq<int>, k: nat)
    requires
        forall|i: int| 0 <= i < k ==> #[trigger] mk(i) != var,
    ensures
        var_sum(indicator(var), mk, a, k) == 0,
    decreases k,
{
    if k > 0 {
        lemma_indicator_miss(var, mk, a, (k - 1) as nat);
        assert(mk(k - 1) != var);
        assert(0 * a[k - 1] == 0);
    }
}

proof fn lemma_indicator_hit(var: Variable, mk: spec_fn(int) -> Variable, a: Seq<int>, k: nat, j: int)
    requires
        0 <= j < k,
        mk(j) == var,
        forall|i: int| 0 <= i < k && i != j ==> #[trigger] mk(i) != var,
    ensures
        var_sum(indicator(var), mk, a, k) == a[j],
    decreases k,
{
    if k - 1 == j {
        lemma_indicator_miss(var, mk, a, (k - 1) as nat);
        assert(1 * a[k - 1] == a[k - 1]);
    } else {
        lemma_indicator_hit(var, mk, a, (k - 1) as nat, j);
        assert(mk(k - 1) != var);
        assert(0 * a[k - 1] == 0);
    }
}

/// Under the weights that single out one variable, the circuit is worth that
/// variable's value.
proof fn lemma_total_indicator(var: Variable, w: Witness, n: nat, m: nat)
    requires
        variable_in_range(var, n, m),
        n <= usize::MAX,
        m <= usize::MAX,
    ensures
        total(indicator(var), w, n, m) == value_of(w, var),
{
    match var {
        Variable::Committed(j) => {
            lemma_indicator_miss(var, left(), w.a_l, n);
            lemma_indicator_miss(var, right(), w.a_r, n);
            lemma_indicator_miss(var, output(), w.a_o, n);
            lemma_indicator_hit(var, committed(), w.v, m, j as int);
        },
        Variable::MultiplierLeft(j) => {
            lemma_indicator_hit(var, left(), w.a_l, n, j as int);
            lemma_indicator_miss(var, right(), w.a_r, n);
            lemma_indicator_miss(var, output(), w.a_o, n);
            lemma_indicator_miss(var, committed(), w.v, m);
        },
        Variable::MultiplierRight(j) => {
            lemma_indicator_miss(var, left(), w.a_l, n);
            lemma_indicator_hit(var, right(), w.a_r, n, j as int);
            lemma_indicator_miss(var, output(), w.a_o, n);
            lemma_indicator_miss(var, committed(), w.v, m);
        },
        Variable::MultiplierOutput(j) => {
            lemma_indicator_miss(var, left(), w.a_l, n);
            lemma_indicator_miss(var, right(), w.a_r, n);
            lemma_indicator_hit(var, output(), w.a_o, n, j as int);
            lemma_indicator_miss(var, committed(), w.v, m);
        },
        Variable::One => {
            lemma_indicator_miss(var, left(), w.a_l, n);
            lemma_indicator_miss(var, right(), w.a_r, n);
            lemma_indicator_miss(var, output(), w.a_o, n);
            lemma_indicator_miss(var, committed(), w.v, m);
        },
    }
}

proof fn lemma_total_linear(
    f: spec_fn(Variable) -> int,
    g: spec_fn(Variable) -> int,
    h: spec_fn(Variable) -> int,
    c: int,
    w: Witness,
    n: nat,
    m: nat,
)
    requires
        forall|v: Variable| #[trigger] h(v) == f(v) + c * g(v),
    ensures
        total(h, w, n, m) == total(f, w, n, m) + c * total(g, w, n, m),
{
    lemma_var_sum_linear(f, g, h, c, left(), w.a_l, n);
    lemma_var_sum_linear(f, g, h, c, right(), w.a_r, n);
    lemma_var_sum_linear(f, g, h, c, output(), w.a_o, n);
    lemma_var_sum_linear(f, g, h, c, committed(), w.v, m);
    let (s1, s2, s3, s4, s5) = (
        var_sum(g, left(), w.a_l, n),
        var_sum(g, right(), w.a_r, n),
        var_sum(g, output(), w.a_o, n),
        var_sum(g, committed(), w.v, m),
        g(Variable::One),
    );
    assert(h(Variable::One) == f(Variable::One) + c * s5);
    assert(c * (s1 + s2 + s3 + s4 + s5) == c * s1 + c * s2 + c * s3 + c * s4 + c * s5)
        by (nonlinear_arith);
}

proof fn lemma_total_zero(w: Witness, n: nat, m: nat)
    ensures
        total(|v: Variable| 0int, w, n, m) == 0,
{
    let f = |v: Variable| 0int;
    lemma_var_sum_linear(f, f, f, 0, left(), w.a_l, n);
    lemma_var_sum_linear(f, f, f, 0, right(), w.a_r, n);
    lemma_var_sum_linear(f, f, f, 0, output(), w.a_o, n);
    lemma_var_sum_linear(f, f, f, 0, committed(), w.v, m);
    lemma_var_sum_linear(f, f, f, -1, left(), w.a_l, n);
    lemma_var_sum_linear(f, f, f, -1, right(), w.a_r, n);
    lemma_var_sum_linear(f, f, f, -1, output(), w.a_o, n);
    lemma_var_sum_linear(f, f, f, -1, committed(), w.v, m);
}

/// Two weightings that agree on every variable are worth the same.
proof fn lemma_total_equal(
    f: spec_fn(Variable) -> int,
    h: spec_fn(Variable) -> int,
    w: Witness,
    n: nat,
    m: nat,
)
    requires
        forall|v: Variable| #[trigger] h(v) == f(v),
    ensures
        total(h, w, n, m) == total(f, w, n, m),
{
    lemma_total_linear(f, f, h, 0, w, n, m);
    assert(0 * total(f, w, n, m) == 0);
}

/// Under the coefficients of a sum, the circuit is worth the sum's value.
proof fn lemma_total_coefficient(lc: Terms, w: Witness, n: nat, m: nat)
    requires
        terms_in_range(lc, n, m),
        n <= usize::MAX,
        m <= usize::MAX,
    ensures
        total(|v: Variable| coefficient(lc, v), w, n, m) == evaluate(lc, w),
    decreases lc.len(),
{
    let h = |v: Variable| coefficient(lc, v);
    if lc.len() == 0 {
        lemma_total_zero(w, n, m);
        lemma_total_equal(|v: Variable| 0int, h, w, n, m);
    } else {
        let rest = lc.drop_last();
        let (var, c) = lc.last();
        assert(terms_in_range(rest, n, m)) by {
            assert forall|t: int| 0 <= t < rest.len() implies variable_in_range(
                #[trigger] rest[t].0,
                n,
                m,
            ) by {
                assert(rest[t] == lc[t]);
            }
        }
        assert(variable_in_range(lc[lc.len() - 1].0, n, m));
        lemma_total_coefficient(rest, w, n, m);
        let f = |v: Variable| coefficient(rest, v);
        let g = indicator(var);
        assert forall|v: Variable| #[trigger] h(v) == f(v) + c * g(v) by {
            assert(c * 1 == c);
            assert(c * 0 == 0);
        }
        lemma_total_linear(f, g, h, c, w, n, m);
        lemma_total_indicator(var, w, n, m);
    }
}

/// Under the weights of the constraints, the circuit is worth their weighted evaluation.
proof fn lemma_total_weight(cs: Seq<Terms>, z: int, w: Witness, n: nat, m: nat)
    requires
        constraints_in_range(cs, n, m),
        n <= usize::MAX,
        m <= usize::MAX,
    ensures
        total(|v: Variable| weight(cs, z, v), w, n, m) == weighted_evaluation(cs, z, w),
    decreases cs.len(),
{
    let h = |v: Variable| weight(cs, z, v);
    if cs.len() == 0 {
        lemma_total_zero(w, n, m);
        lemma_total_equal(|v: Variable| 0int, h, w, n, m);
    } else {
        let rest = cs.drop_last();
        let lc = cs.last();
        assert(constraints_in_range(rest, n, m)) by {
            assert forall|q: int| 0 <= q < rest.len() implies terms_in_range(#[trigger] rest[q], n, m) by {
                assert(rest[q] == cs[q]);
            }
        }
        assert(terms_in_range(cs[cs.len() - 1], n, m));
        lemma_total_weight(rest, z, w, n, m);
        lemma_total_coefficient(lc, w, n, m);
        let f = |v: Variable| weight(rest, z, v);
        let g = |v: Variable| coefficient(lc, v);
        let c = pow(z, cs.len());
        assert forall|v: Variable| #[trigger] h(v) == f(v) + c * g(v) by {}
        lemma_total_linear(f, g, h, c, w, n, m);
    }
}

/// An inner product with reduced weights leaves the residue of the sum with
/// the weights themselves.
proof fn lemma_reduced_weights(
    f: spec_fn(Variable) -> int,
    mk: spec_fn(int) -> Variable,
    flat: Seq<int>,
    a: Seq<int>,
    k: nat,
    sign: int,
)
    requires
        k <= flat.len(),
        sign == 1 || sign == -1,
        forall|i: int| 0 <= i < k ==> #[trigger] flat[i] == reduce(sign * f(mk(i))),
    ensures
        congruent(dot_upto(flat, a, k), sign * var_sum(f, mk, a, k)),
    decreases k,
{
    if k > 0 {
        lemma_reduced_weights(f, mk, flat, a, (k - 1) as nat, sign);
        let x = a[k - 1];
        let fv = f(mk(k - 1));
        let s0 = dot_upto(flat, a, (k - 1) as nat);
        let t0 = var_sum(f, mk, a, (k - 1) as nat);
        assert(flat[k - 1] == reduce(sign * fv));
        lemma_reduce_mul(sign * fv, x);
        lemma_reduce_add(s0, flat[k - 1] * x);
        lemma_reduce_add(sign * t0, (sign * fv) * x);
        assert(sign * (t0 + fv * x) == sign * t0 + (sign * fv) * x) by (nonlinear_arith);
    } else {
        assert(sign * 0 == 0);
    }
}

/// Flattening is linear: for every challenge `z` and every witness, the
/// constraints' values, weighted by `z, z^2, ...` and added up, leave the same
/// residue as `<wL, a_L> + <wR, a_R> + <wO, a_O> - <wV, v> - wc`.
pub proof fn lemma_flatten_linearity(cs: Seq<Terms>, z: int, n: nat, m: nat, w: Witness)
    requires
        constraints_in_range(cs, n, m),
        n <= usize::MAX,
        m <= usize::MAX,
        w.a_l.len() == n,
        w.a_r.len() == n,
        w.a_o.len() == n,
        w.v.len() == m,
    ensures
        congruent(
            weighted_evaluation(cs, z, w),
            dot(flat_left(cs, z, n), w.a_l) + dot(flat_right(cs, z, n), w.a_r)
                + dot(flat_output(cs, z, n), w.a_o) - dot(
                flat_committed(cs, z, m),
                w.v,
            ) - flat_constant(cs, z),
        ),
{
    let f = |v: Variable| weight(cs, z, v);
    lemma_total_weight(cs, z, w, n, m);
    lemma_reduced_weights(f, left(), flat_left(cs, z, n), w.a_l, n, 1);
    lemma_reduced_weights(f, right(), flat_right(cs, z, n), w.a_r, n, 1);
    lemma_reduced_weights(f, output(), flat_output(cs, z, n), w.a_o, n, 1);
    lemma_reduced_weights(f, committed(), flat_committed(cs, z, m), w.v, m, -1);
    let (pl, pr, po, pv, pc) = (
        dot(flat_left(cs, z, n), w.a_l),
        dot(flat_right(cs, z, n), w.a_r),
        dot(flat_output(cs, z, n), w.a_o),
        dot(flat_committed(cs, z, m), w.v),
        flat_constant(cs, z),
    );
    let (sl, sr, so, sv, sc) = (
        var_sum(f, left(), w.a_l, n),
        var_sum(f, right(), w.a_r, n),
        var_sum(f, output(), w.a_o, n),
        var_sum(f, committed(), w.v, m),
        f(Variable::One),
    );
    assert(reduce(pl) == reduce(sl));
    assert(reduce(pr) == reduce(sr));
    assert(reduce(po) == reduce(so));
    assert(reduce(pv) == reduce(-sv));
    assert(pc == reduce(-sc));
    // fold the five congruences into one
    lemma_reduce_add(pl, pr);
    lemma_reduce_add(sl, sr);
    lemma_reduce_add(pl + pr, po);
    lemma_reduce_add(sl + sr, so);
    lemma_reduce_sub(pl + pr + po, pv);
    lemma_reduce_sub(sl + sr + so, -sv);
    lemma_reduce_sub(pl + pr + po - pv, pc);
    lemma_reduce_sub(sl + sr + so + sv, -sc);
}

} // verus!
