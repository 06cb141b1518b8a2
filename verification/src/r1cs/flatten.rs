//! Flattening: the constraints of a circuit, each weighted by a power of a
//! challenge, gathered into one weight per variable.

use crate::curve::{scalars_model, Fr};
use crate::field::{
    fpow, lemma_fpow_step, lemma_reduce_add, lemma_reduce_mul, lemma_reduce_small, lemma_reduce_sub,
    reduce,
};
use crate::r1cs::linear_combination::{LinearCombination, Terms, Variable};
use crate::util::zeros;
use vstd::arithmetic::power::pow;
use vstd::prelude::*;

verus! {

/// The constraints of a circuit as the contracts see them.
pub open spec fn constraints_model(constraints: Seq<LinearCombination>) -> Seq<Terms> {
    constraints.map_values(|lc: LinearCombination| lc@)
}

/// Whether a variable exists in a circuit of `n` multipliers and `m` commitments.
pub open spec fn variable_in_range(v: Variable, n: nat, m: nat) -> bool {
    match v {
        Variable::Committed(i) => i < m,
        Variable::MultiplierLeft(i) => i < n,
        Variable::MultiplierRight(i) => i < n,
        Variable::MultiplierOutput(i) => i < n,
        Variable::One => true,
    }
}

/// Whether every variable of a sum exists.
pub open spec fn terms_in_range(lc: Terms, n: nat, m: nat) -> bool {
    forall|t: int| 0 <= t < lc.len() ==> variable_in_range(#[trigger] lc[t].0, n, m)
}

/// Whether every variable of every constraint exists.
pub open spec fn constraints_in_range(cs: Seq<Terms>, n: nat, m: nat) -> bool {
    forall|q: int| 0 <= q < cs.len() ==> terms_in_range(#[trigger] cs[q], n, m)
}

/// The coefficient of `v` in a sum: its coefficients over all its occurrences, added up.
pub open spec fn coefficient(lc: Terms, v: Variable) -> int
    decreases lc.len(),
{
    if lc.len() == 0 {
        0
    } else {
        coefficient(lc.drop_last(), v) + if lc.last().0 == v {
            lc.last().1
        } else {
            0
        }
    }
}

/// The weight of `v` over all constraints: its coefficient in the first
/// times `z`, plus its coefficient in the second times `z^2`, and so on.
pub open spec fn weight(cs: Seq<Terms>, z: int, v: Variable) -> int
    decreases cs.len(),
{
    if cs.len() == 0 {
        0
    } else {
        weight(cs.drop_last(), z, v) + pow(z, cs.len()) * coefficient(cs.last(), v)
    }
}

/// The weights of the left inputs of the `n` multipliers.
pub open spec fn flat_left(cs: Seq<Terms>, z: int, n: nat) -> Seq<int> {
    Seq::new(n, |i: int| reduce(weight(cs, z, Variable::MultiplierLeft(i as usize))))
}

/// The weights of the right inputs of the `n` multipliers.
pub open spec fn flat_right(cs: Seq<Terms>, z: int, n: nat) -> Seq<int> {
    Seq::new(n, |i: int| reduce(weight(cs, z, Variable::MultiplierRight(i as usize))))
}

/// The weights of the outputs of the `n` multipliers.
pub open spec fn flat_output(cs: Seq<Terms>, z: int, n: nat) -> Seq<int> {
    Seq::new(n, |i: int| reduce(weight(cs, z, Variable::MultiplierOutput(i as usize))))
}

/// The weights of the `m` commitments, negated: they stand on the other side
/// of the equation.
pub open spec fn flat_committed(cs: Seq<Terms>, z: int, m: nat) -> Seq<int> {
    Seq::new(m, |i: int| reduce(-weight(cs, z, Variable::Committed(i as usize))))
}

/// The weight of the constant, negated.
pub open spec fn flat_constant(cs: Seq<Terms>, z: int) -> int {
    reduce(-weight(cs, z, Variable::One))
}

/// The weight of `v` when the first `q` constraints and the first `t` terms
/// of the next one have been gathered.
pub open spec fn partial_weight(cs: Seq<Terms>, z: int, q: int, t: int, v: Variable) -> int {
    weight(cs.take(q), z, v) + pow(z, (q + 1) as nat) * coefficient(cs[q].take(t), v)
}

/// Whether five accumulators hold the residues of the weights that `f` gives.
pub open spec fn holds_weights(
    wl: Seq<Fr>,
    wr: Seq<Fr>,
    wo: Seq<Fr>,
    wv: Seq<Fr>,
    wc: Fr,
    f: spec_fn(Variable) -> int,
    n: nat,
    m: nat,
) -> bool {
    &&& wl.len() == n
    &&& wr.len() == n
    &&& wo.len() == n
    &&& wv.len() == m
    &&& forall|i: int|
        0 <= i < n ==> (#[trigger] wl[i])@ == reduce(f(Variable::MultiplierLeft(i as usize)))
    &&& forall|i: int|
        0 <= i < n ==> (#[trigger] wr[i])@ == reduce(f(Variable::MultiplierRight(i as usize)))
    &&& forall|i: int|
        0 <= i < n ==> (#[trigger] wo[i])@ == reduce(f(Variable::MultiplierOutput(i as usize)))
    &&& forall|i: int| 0 <= i < m ==> (#[trigger] wv[i])@ == reduce(-f(Variable::Committed(i as usize)))
    &&& wc@ == reduce(-f(Variable::One))
}

proof fn lemma_coefficient_take(lc: Terms, t: int, v: Variable)
    requires
        0 <= t < lc.len(),
    ensures
        coefficient(lc.take(t + 1), v) == coefficient(lc.take(t), v) + if lc[t].0 == v {
            lc[t].1
        } else {
            0
        },
{
    assert(lc.take(t + 1).drop_last() =~= lc.take(t));
}

proof fn lemma_weight_take(cs: Seq<Terms>, z: int, q: int, v: Variable)
    requires
        0 <= q < cs.len(),
    ensures
        weight(cs.take(q + 1), z, v) == partial_weight(cs, z, q, cs[q].len() as int, v),
        partial_weight(cs, z, q, 0, v) == weight(cs.take(q), z, v),
{
    assert(cs.take(q + 1).drop_last() =~= cs.take(q));
    assert(cs[q].take(cs[q].len() as int) =~= cs[q]);
    assert(cs[q].take(0).len() == 0);
    assert(pow(z, (q + 1) as nat) * 0 == 0);
}

proof fn lemma_partial_step(cs: Seq<Terms>, z: int, q: int, t: int, v: Variable)
    requires
        0 <= q < cs.len(),
        0 <= t < cs[q].len(),
    ensures
        partial_weight(cs, z, q, t + 1, v) == partial_weight(cs, z, q, t, v) + if cs[q][t].0 == v {
            pow(z, (q + 1) as nat) * cs[q][t].1
        } else {
            0
        },
{
    lemma_coefficient_take(cs[q], t, v);
    let p = pow(z, (q + 1) as nat);
    let a = coefficient(cs[q].take(t), v);
    let b = cs[q][t].1;
    assert(p * (a + b) == p * a + p * b) by (nonlinear_arith);
    assert(p * (a + 0) == p * a);
}

/// Whether a variable exists in a circuit of `n` multipliers and `m` commitments.
pub fn variable_known(var: Variable, n: usize, m: usize) -> (r: bool)
    ensures
        r == variable_in_range(var, n as nat, m as nat),
{
    match var {
        Variable::Committed(i) => i < m,
        Variable::MultiplierLeft(i) => i < n,
        Variable::MultiplierRight(i) => i < n,
        Variable::MultiplierOutput(i) => i < n,
        Variable::One => true,
    }
}

/// Whether every variable of a sum exists.
pub fn terms_known(lc: &LinearCombination, n: usize, m: usize) -> (r: bool)
    ensures
        r == terms_in_range(lc@, n as nat, m as nat),
{
    let mut t: usize = 0;
    while t < lc.terms.len()
        invariant
            t <= lc.terms@.len(),
            lc@.len() == lc.terms@.len(),
            forall|j: int| 0 <= j < t ==> variable_in_range(#[trigger] lc@[j].0, n as nat, m as nat),
        decreases lc.terms@.len() - t,
    {
        let term = lc.terms[t];
        assert(lc@[t as int].0 == term.0);
        if !variable_known(term.0, n, m) {
            return false;
        }
        t += 1;
    }
    true
}

/// Whether every variable of every constraint exists.
pub fn constraints_known(constraints: &Vec<LinearCombination>, n: usize, m: usize) -> (r: bool)
    ensures
        r == constraints_in_range(constraints_model(constraints@), n as nat, m as nat),
{
    let ghost cs = constraints_model(constraints@);
    let mut q: usize = 0;
    while q < constraints.len()
        invariant
            q <= constraints@.len(),
            cs == constraints_model(constraints@),
            forall|j: int| 0 <= j < q ==> terms_in_range(#[trigger] cs[j], n as nat, m as nat),
        decreases constraints@.len() - q,
    {
        assert(cs[q as int] == constraints@[q as int]@);
        if !terms_known(&constraints[q], n, m) {
            return false;
        }
        q += 1;
    }
    true
}

/// Gathers the constraints, the first weighted by `z`, the second by `z^2`
/// and so on, into one weight per variable: those of the left inputs, the
/// right inputs and the outputs of the `n` multipliers, those of the `m`
/// commitments and that of the constant, the last two negated.
#[verifier::rlimit(40)]
pub fn flatten(constraints: &Vec<LinearCombination>, n: usize, m: usize, z: &Fr) -> (w: (
    Vec<Fr>,
    Vec<Fr>,
    Vec<Fr>,
    Vec<Fr>,
    Fr,
))
    requires
        constraints_in_range(constraints_model(constraints@), n as nat, m as nat),
    ensures
        scalars_model(w.0@) == flat_left(constraints_model(constraints@), z@, n as nat),
        scalars_model(w.1@) == flat_right(constraints_model(constraints@), z@, n as nat),
        scalars_model(w.2@) == flat_output(constraints_model(constraints@), z@, n as nat),
        scalars_model(w.3@) == flat_committed(constraints_model(constraints@), z@, m as nat),
        w.4@ == flat_constant(constraints_model(constraints@), z@),
{
    let ghost cs = constraints_model(constraints@);
    let mut wl = zeros(n);
    let mut wr = zeros(n);
    let mut wo = zeros(n);
    let mut wv = zeros(m);
    let mut wc = Fr::zero();
    let mut exp_z = *z;
    proof {
        use_type_invariant(z);
        lemma_reduce_small(z@);
        vstd::arithmetic::power::lemma_pow1(z@);
        assert(cs.take(0) =~= Seq::<Terms>::empty());
        lemma_reduce_small(0);
    }
    let mut q: usize = 0;
    while q < constraints.len()
        invariant
            q <= constraints.len(),
            cs == constraints_model(constraints@),
            constraints_in_range(cs, n as nat, m as nat),
            exp_z@ == fpow(z@, (q + 1) as nat),
            holds_weights(wl@, wr@, wo@, wv@, wc, |v: Variable| weight(cs.take(q as int), z@, v), n as nat, m as nat),
        decreases constraints.len() - q,
    {
        let lc = &constraints[q];
        assert(cs[q as int] == lc@);
        assert(terms_in_range(cs[q as int], n as nat, m as nat));
        proof {
            assert forall|v: Variable| partial_weight(cs, z@, q as int, 0, v) == weight(cs.take(q as int), z@, v) by {
                lemma_weight_take(cs, z@, q as int, v);
            }
        }
        let mut t: usize = 0;
        while t < lc.terms.len()
            invariant
                t <= lc.terms.len(),
                q < constraints.len(),
                cs == constraints_model(constraints@),
                cs[q as int] == lc@,
                lc@.len() == lc.terms.len(),
                terms_in_range(lc@, n as nat, m as nat),
                exp_z@ == fpow(z@, (q + 1) as nat),
                holds_weights(
                    wl@,
                    wr@,
                    wo@,
                    wv@,
                    wc,
                    |v: Variable| partial_weight(cs, z@, q as int, t as int, v),
                    n as nat,
                    m as nat,
                ),
            decreases lc.terms.len() - t,
        {
            let term = lc.terms[t];
            let var = term.0;
            let coeff = term.1;
            let d = exp_z.mul(coeff);
            assert(lc@[t as int] == (var, coeff@));
            assert(variable_in_range(lc@[t as int].0, n as nat, m as nat));
            proof {
                let p = pow(z@, (q + 1) as nat);
                lemma_reduce_mul(p, coeff@);
                assert(d@ == reduce(p * coeff@));
                assert forall|v: Variable|
                    partial_weight(cs, z@, q as int, t as int + 1, v) == partial_weight(
                        cs,
                        z@,
                        q as int,
                        t as int,
                        v,
                    ) + if var == v {
                        p * coeff@
                    } else {
                        0
                    } by {
                    lemma_partial_step(cs, z@, q as int, t as int, v);
                }
            }
            let ghost p = pow(z@, (q + 1) as nat);
            match var {
                Variable::MultiplierLeft(i) => {
                    let cur = wl[i];
                    wl.set(i, cur.add(d));
                    proof {
                        lemma_reduce_add(partial_weight(cs, z@, q as int, t as int, var), p * coeff@);
                    }
                },
                Variable::MultiplierRight(i) => {
                    let cur = wr[i];
                    wr.set(i, cur.add(d));
                    proof {
                        lemma_reduce_add(partial_weight(cs, z@, q as int, t as int, var), p * coeff@);
                    }
                },
                Variable::MultiplierOutput(i) => {
                    let cur = wo[i];
                    wo.set(i, cur.add(d));
                    proof {
                        lemma_reduce_add(partial_weight(cs, z@, q as int, t as int, var), p * coeff@);
                    }
                },
                Variable::Committed(i) => {
                    let cur = wv[i];
                    wv.set(i, cur.sub(d));
                    proof {
                        lemma_reduce_sub(-partial_weight(cs, z@, q as int, t as int, var), p * coeff@);
                    }
                },
                Variable::One => {
                    wc = wc.sub(d);
                    proof {
                        lemma_reduce_sub(-partial_weight(cs, z@, q as int, t as int, var), p * coeff@);
                    }
                },
            }
            t += 1;
        }
        proof {
            assert forall|v: Variable|
                partial_weight(cs, z@, q as int, lc@.len() as int, v) == weight(cs.take(q as int + 1), z@, v) by {
                lemma_weight_take(cs, z@, q as int, v);
            }
            lemma_fpow_step(z@, (q + 1) as nat);
        }
        exp_z = exp_z.mul(*z);
        q += 1;
    }
    proof {
        assert(cs.take(q as int) =~= cs);
        assert(scalars_model(wl@) =~= flat_left(cs, z@, n as nat));
        assert(scalars_model(wr@) =~= flat_right(cs, z@, n as nat));
        assert(scalars_model(wo@) =~= flat_output(cs, z@, n as nat));
        assert(scalars_model(wv@) =~= flat_committed(cs, z@, m as nat));
    }
    (wl, wr, wo, wv, wc)
}

} // verus!
