//! From challenges, flattened weights and the scalars of the inner-product
//! argument to the scalars of the one multiscalar multiplication that
//! decides a proof.

#![allow(non_snake_case)]

use crate::curve::{scalars_model, Fr};
use crate::field::{dot, fadd, finv, fmul, fneg, fpow, fsub, reduce};
use crate::util::{inner_product, powers};
use vstd::prelude::*;

verus! {

/// The challenges of one verification.
#[derive(Clone, Copy, Debug)]
pub struct Challenges {
    pub y: Fr,
    pub z: Fr,
    pub u: Fr,
    pub x: Fr,
    pub w: Fr,
    pub r: Fr,
}

/// The challenges as the contracts see them.
pub struct ChallengesModel {
    pub y: int,
    pub z: int,
    pub u: int,
    pub x: int,
    pub w: int,
    pub r: int,
}

impl View for Challenges {
    type V = ChallengesModel;

    open spec fn view(&self) -> ChallengesModel {
        ChallengesModel { y: self.y@, z: self.z@, u: self.u@, x: self.x@, w: self.w@, r: self.r@ }
    }
}

/// The flattened constraints.
#[derive(Clone, Debug)]
pub struct Weights {
    pub wL: Vec<Fr>,
    pub wR: Vec<Fr>,
    pub wO: Vec<Fr>,
    pub wV: Vec<Fr>,
    pub wc: Fr,
}

/// The flattened constraints as the contracts see them.
pub struct WeightsModel {
    pub wL: Seq<int>,
    pub wR: Seq<int>,
    pub wO: Seq<int>,
    pub wV: Seq<int>,
    pub wc: int,
}

impl View for Weights {
    type V = WeightsModel;

    open spec fn view(&self) -> WeightsModel {
        WeightsModel {
            wL: scalars_model(self.wL@),
            wR: scalars_model(self.wR@),
            wO: scalars_model(self.wO@),
            wV: scalars_model(self.wV@),
            wc: self.wc@,
        }
    }
}

/// The scalars that the inner-product argument hands to the verification.
#[derive(Clone, Debug)]
pub struct IppScalars {
    pub u_sq: Vec<Fr>,
    pub u_inv_sq: Vec<Fr>,
    pub s: Vec<Fr>,
}

/// The scalars of the inner-product argument as the contracts see them.
pub struct IppScalarsModel {
    pub u_sq: Seq<int>,
    pub u_inv_sq: Seq<int>,
    pub s: Seq<int>,
}

impl View for IppScalars {
    type V = IppScalarsModel;

    open spec fn view(&self) -> IppScalarsModel {
        IppScalarsModel {
            u_sq: scalars_model(self.u_sq@),
            u_inv_sq: scalars_model(self.u_inv_sq@),
            s: scalars_model(self.s@),
        }
    }
}

/// The scalars that a proof reveals.
pub struct RevealedModel {
    pub t_x: int,
    pub t_x_blinding: int,
    pub e_blinding: int,
    pub a: int,
    pub b: int,
}

/// Entry `i` of a vector, or zero past its end.
pub open spec fn padded(v: Seq<int>, i: int) -> int {
    if 0 <= i < v.len() {
        v[i]
    } else {
        0
    }
}

/// Entry `i` of `wR` scaled by the powers of the inverse of `y`, or zero past its end.
pub open spec fn yneg_wR(wR: Seq<int>, y: int, i: int) -> int {
    if 0 <= i < wR.len() {
        fmul(wR[i], fpow(finv(y), i as nat))
    } else {
        0
    }
}

/// The inner product of the scaled `wR` with `wL`.
pub open spec fn delta(w: WeightsModel, y: int) -> int {
    reduce(dot(Seq::new(w.wR.len(), |i: int| yneg_wR(w.wR, y, i)), w.wL))
}

/// One for the multipliers of the first phase, `u` for the others and the padding.
pub open spec fn u_or_1(u: int, n1: nat, i: int) -> int {
    if i < n1 {
        1
    } else {
        u
    }
}

/// The scalar of the base `G[i]`.
pub open spec fn g_scalar(c: ChallengesModel, p: RevealedModel, w: WeightsModel, s: Seq<int>, n1: nat, i: int) -> int {
    fmul(u_or_1(c.u, n1, i), fsub(fmul(c.x, yneg_wR(w.wR, c.y, i)), fmul(p.a, s[i])))
}

/// The scalar of the base `H[i]`.
pub open spec fn h_scalar(c: ChallengesModel, p: RevealedModel, w: WeightsModel, s: Seq<int>, n1: nat, i: int) -> int {
    fmul(
        u_or_1(c.u, n1, i),
        fsub(
            fmul(
                fpow(finv(c.y), i as nat),
                fsub(fadd(fmul(c.x, padded(w.wL, i)), padded(w.wO, i)), fmul(p.b, s[s.len() - 1 - i])),
            ),
            1,
        ),
    )
}

/// The scalar of the base `B`.
pub open spec fn b_scalar(c: ChallengesModel, p: RevealedModel, w: WeightsModel) -> int {
    fadd(
        fmul(c.w, fsub(p.t_x, fmul(p.a, p.b))),
        fmul(c.r, fsub(fmul(fmul(c.x, c.x), fadd(w.wc, delta(w, c.y))), p.t_x)),
    )
}

/// The scalar of the base `B_blinding`.
pub open spec fn blinding_scalar(c: ChallengesModel, p: RevealedModel) -> int {
    fsub(fneg(p.e_blinding), fmul(c.r, p.t_x_blinding))
}

/// The scalars of the six commitments `A_I1, A_O1, S1, A_I2, A_O2, S2`.
pub open spec fn commitment_scalars(c: ChallengesModel) -> Seq<int> {
    let xx = fmul(c.x, c.x);
    let xxx = fmul(c.x, xx);
    seq![c.x, xx, xxx, fmul(c.u, c.x), fmul(c.u, xx), fmul(c.u, xxx)]
}

/// The scalars of the five commitments `T_1, T_3, T_4, T_5, T_6`.
pub open spec fn t_scalars(c: ChallengesModel) -> Seq<int> {
    let xx = fmul(c.x, c.x);
    let xxx = fmul(c.x, xx);
    let rxx = fmul(c.r, xx);
    seq![fmul(c.r, c.x), fmul(rxx, c.x), fmul(rxx, xx), fmul(rxx, xxx), fmul(fmul(rxx, xx), xx)]
}

/// The scalars of the committed inputs.
pub open spec fn v_scalars(c: ChallengesModel, w: WeightsModel) -> Seq<int> {
    Seq::new(w.wV.len(), |i: int| fmul(w.wV[i], fmul(c.r, fmul(c.x, c.x))))
}

/// All scalars of the verification, in the order of their bases: `B`,
/// `B_blinding`, the `G`, the `H`, the six commitments to the multipliers,
/// the committed inputs, the five commitments to `t`, and the points `L`
/// and `R` of the inner-product argument.
pub open spec fn scalar_vector(
    c: ChallengesModel,
    p: RevealedModel,
    w: WeightsModel,
    ipp: IppScalarsModel,
    n1: nat,
) -> Seq<int> {
    seq![b_scalar(c, p, w), blinding_scalar(c, p)] + Seq::new(
        ipp.s.len(),
        |i: int| g_scalar(c, p, w, ipp.s, n1, i),
    ) + Seq::new(ipp.s.len(), |i: int| h_scalar(c, p, w, ipp.s, n1, i)) + commitment_scalars(c)
        + v_scalars(c, w) + t_scalars(c) + ipp.u_sq + ipp.u_inv_sq
}

/// Appends `src` to `out`.
pub fn extend_scalars(out: &mut Vec<Fr>, src: &Vec<Fr>)
    ensures
        final(out)@ == old(out)@ + src@,
        scalars_model(final(out)@) == scalars_model(old(out)@) + scalars_model(src@),
{
    let mut i: usize = 0;
    assert(out@ =~= old(out)@ + src@.take(0));
    while i < src.len()
        invariant
            i <= src@.len(),
            out@ == old(out)@ + src@.take(i as int),
        decreases src@.len() - i,
    {
        out.push(src[i]);
        assert(out@ =~= old(out)@ + src@.take(i + 1));
        i += 1;
    }
    assert(src@.take(src@.len() as int) =~= src@);
    assert(scalars_model(out@) =~= scalars_model(old(out)@) + scalars_model(src@));
}

/// The scalars of the verification, from the challenges, the scalars that
/// the proof reveals, the flattened constraints and the scalars of the
/// inner-product argument. `n1` is the number of multipliers of the first
/// phase; `s` has one entry for each multiplier and each padding slot.
#[verifier::rlimit(40)]
pub fn assemble_scalars(
    c: &Challenges,
    t_x: Fr,
    t_x_blinding: Fr,
    e_blinding: Fr,
    a: Fr,
    b: Fr,
    w: &Weights,
    ipp: &IppScalars,
    n1: usize,
) -> (scalars: Vec<Fr>)
    requires
        c.y@ != 0,
        w.wL@.len() == w.wR@.len(),
        w.wO@.len() == w.wR@.len(),
        w.wR@.len() <= ipp.s@.len(),
    ensures
        scalars_model(scalars@) == scalar_vector(
            c@,
            RevealedModel { t_x: t_x@, t_x_blinding: t_x_blinding@, e_blinding: e_blinding@, a: a@, b: b@ },
            w@,
            ipp@,
            n1 as nat,
        ),
{
    let ghost cm = c@;
    let ghost pm = RevealedModel {
        t_x: t_x@,
        t_x_blinding: t_x_blinding@,
        e_blinding: e_blinding@,
        a: a@,
        b: b@,
    };
    let ghost wm = w@;
    let ghost sm = scalars_model(ipp.s@);
    let n = w.wR.len();
    let padded_n = ipp.s.len();
    let (x, u, r) = (c.x, c.u, c.r);
    let y_inv = c.y.inverse().unwrap();
    let y_inv_vec = powers(y_inv, padded_n);

    let mut yneg: Vec<Fr> = Vec::new();
    let mut i: usize = 0;
    while i < n
        invariant
            i <= n,
            n == w.wR@.len(),
            n <= padded_n,
            y_inv_vec@.len() == padded_n,
            wm == w@,
            y_inv@ == finv(c.y@),
            forall|j: int| 0 <= j < padded_n ==> (#[trigger] y_inv_vec@[j])@ == fpow(y_inv@, j as nat),
            yneg@.len() == i,
            forall|j: int| 0 <= j < i ==> (#[trigger] yneg@[j])@ == yneg_wR(wm.wR, c.y@, j),
        decreases n - i,
    {
        yneg.push(w.wR[i].mul(y_inv_vec[i]));
        i += 1;
    }
    let delta_value = inner_product(yneg.as_slice(), w.wL.as_slice());
    proof {
        assert(scalars_model(yneg@) =~= Seq::new(wm.wR.len(), |i: int| yneg_wR(wm.wR, c.y@, i)));
        assert(delta_value@ == delta(wm, c.y@));
    }

    let mut g: Vec<Fr> = Vec::new();
    let mut h: Vec<Fr> = Vec::new();
    let mut i: usize = 0;
    while i < padded_n
        invariant
            i <= padded_n,
            n == w.wR@.len(),
            n == w.wL@.len(),
            n == w.wO@.len(),
            n <= padded_n,
            padded_n == ipp.s@.len(),
            y_inv_vec@.len() == padded_n,
            yneg@.len() == n,
            wm == w@,
            cm == c@,
            sm == scalars_model(ipp.s@),
            pm.a == a@,
            pm.b == b@,
            x == c.x,
            u == c.u,
            y_inv@ == finv(c.y@),
            forall|j: int| 0 <= j < padded_n ==> (#[trigger] y_inv_vec@[j])@ == fpow(y_inv@, j as nat),
            forall|j: int| 0 <= j < n ==> (#[trigger] yneg@[j])@ == yneg_wR(wm.wR, c.y@, j),
            g@.len() == i,
            h@.len() == i,
            forall|j: int| 0 <= j < i ==> (#[trigger] g@[j])@ == g_scalar(cm, pm, wm, sm, n1 as nat, j),
            forall|j: int| 0 <= j < i ==> (#[trigger] h@[j])@ == h_scalar(cm, pm, wm, sm, n1 as nat, j),
        decreases padded_n - i,
    {
        let u_or_one = if i < n1 {
            Fr::one()
        } else {
            u
        };
        let yneg_i = if i < n {
            yneg[i]
        } else {
            Fr::zero()
        };
        let wl_i = if i < n {
            w.wL[i]
        } else {
            Fr::zero()
        };
        let wo_i = if i < n {
            w.wO[i]
        } else {
            Fr::zero()
        };
        let s_i = ipp.s[i];
        let s_rev_i = ipp.s[padded_n - 1 - i];
        assert(sm[i as int] == s_i@);
        assert(sm[padded_n - 1 - i] == s_rev_i@);
        assert(wl_i@ == padded(wm.wL, i as int));
        assert(wo_i@ == padded(wm.wO, i as int));
        g.push(u_or_one.mul(x.mul(yneg_i).sub(a.mul(s_i))));
        h.push(
            u_or_one.mul(y_inv_vec[i].mul(x.mul(wl_i).add(wo_i).sub(b.mul(s_rev_i))).sub(Fr::one())),
        );
        i += 1;
    }

    let xx = x.mul(x);
    let rxx = r.mul(xx);
    let xxx = x.mul(xx);

    let mut scalars: Vec<Fr> = Vec::new();
    scalars.push(c.w.mul(t_x.sub(a.mul(b))).add(r.mul(xx.mul(w.wc.add(delta_value)).sub(t_x))));
    scalars.push(e_blinding.neg().sub(r.mul(t_x_blinding)));
    assert(scalars_model(scalars@) =~= seq![b_scalar(cm, pm, wm), blinding_scalar(cm, pm)]);
    extend_scalars(&mut scalars, &g);
    extend_scalars(&mut scalars, &h);
    let ghost before_commitments = scalars@;
    scalars.push(x);
    scalars.push(xx);
    scalars.push(xxx);
    scalars.push(u.mul(x));
    scalars.push(u.mul(xx));
    scalars.push(u.mul(xxx));
    assert(scalars_model(scalars@) =~= scalars_model(before_commitments) + commitment_scalars(cm));
    let mut v_part: Vec<Fr> = Vec::new();
    let mut i: usize = 0;
    while i < w.wV.len()
        invariant
            i <= w.wV@.len(),
            wm == w@,
            cm == c@,
            rxx@ == fmul(cm.r, fmul(cm.x, cm.x)),
            v_part@.len() == i,
            forall|j: int|
                0 <= j < i ==> (#[trigger] v_part@[j])@ == fmul(wm.wV[j], fmul(cm.r, fmul(cm.x, cm.x))),
        decreases w.wV@.len() - i,
    {
        v_part.push(w.wV[i].mul(rxx));
        i += 1;
    }
    assert(scalars_model(v_part@) =~= v_scalars(cm, wm));
    extend_scalars(&mut scalars, &v_part);
    let ghost before_t = scalars@;
    scalars.push(r.mul(x));
    scalars.push(rxx.mul(x));
    scalars.push(rxx.mul(xx));
    scalars.push(rxx.mul(xxx));
    scalars.push(rxx.mul(xx).mul(xx));
    assert(scalars_model(scalars@) =~= scalars_model(before_t) + t_scalars(cm));
    extend_scalars(&mut scalars, &ipp.u_sq);
    extend_scalars(&mut scalars, &ipp.u_inv_sq);
    proof {
        assert(scalars_model(g@) =~= Seq::new(sm.len(), |i: int| g_scalar(cm, pm, wm, sm, n1 as nat, i)));
        assert(scalars_model(h@) =~= Seq::new(sm.len(), |i: int| h_scalar(cm, pm, wm, sm, n1 as nat, i)));
    }
    scalars
}

} // verus!
