//! The bases over which commitments and proofs are formed. How the bases
//! are derived is the caller's concern: this module holds them.

#![allow(non_snake_case)]

use crate::curve::{points_model, G1Affine, PointModel};
use vstd::prelude::*;

verus! {

/// The two bases of a Pedersen commitment `v * B + b * B_blinding`.
#[derive(Clone, Copy, Debug)]
pub struct PedersenGens {
    /// The base of the committed value.
    pub B: G1Affine,
    /// The base of the blinding factor.
    pub B_blinding: G1Affine,
}

/// Two families of bases for vector commitments, of one length: base `i` of
/// the first family is held together with base `i` of the second.
#[derive(Debug)]
pub struct BulletproofGens {
    bases: Vec<(G1Affine, G1Affine)>,
}

impl BulletproofGens {
    /// The first family.
    pub closed spec fn g_bases(&self) -> Seq<PointModel> {
        self.bases@.map_values(|b: (G1Affine, G1Affine)| b.0@)
    }

    /// The second family.
    pub closed spec fn h_bases(&self) -> Seq<PointModel> {
        self.bases@.map_values(|b: (G1Affine, G1Affine)| b.1@)
    }

    /// Both families are of one length, the capacity, which a `usize` holds.
    pub proof fn lemma_families_of_one_length(&self)
        ensures
            self.g_bases().len() == self.h_bases().len(),
            self.g_bases().len() <= usize::MAX,
    {
        vstd::std_specs::vec::axiom_spec_len(&self.bases);
    }

    /// The generators with the given families, which must be of one length.
    pub fn new(G_vec: Vec<G1Affine>, H_vec: Vec<G1Affine>) -> (r: Option<BulletproofGens>)
        ensures
            r.is_some() <==> G_vec@.len() == H_vec@.len(),
            r.is_some() ==> r.unwrap().g_bases() == points_model(G_vec@) && r.unwrap().h_bases()
                == points_model(H_vec@),
    {
        if G_vec.len() != H_vec.len() {
            return None;
        }
        let mut bases: Vec<(G1Affine, G1Affine)> = Vec::new();
        let mut i: usize = 0;
        while i < G_vec.len()
            invariant
                i <= G_vec@.len(),
                G_vec@.len() == H_vec@.len(),
                bases@.len() == i,
                forall|j: int| 0 <= j < i ==> #[trigger] bases@[j] == (G_vec@[j], H_vec@[j]),
            decreases G_vec@.len() - i,
        {
            bases.push((G_vec[i], H_vec[i]));
            i += 1;
        }
        let gens = BulletproofGens { bases };
        proof {
            assert(gens.g_bases() =~= points_model(G_vec@));
            assert(gens.h_bases() =~= points_model(H_vec@));
        }
        Some(gens)
    }

    /// The number of bases in each family: the largest circuit, in
    /// multipliers, that the generators cover.
    pub fn capacity(&self) -> (r: usize)
        ensures
            r == self.g_bases().len(),
            r == self.h_bases().len(),
    {
        self.bases.len()
    }

    /// Appends the first `n` bases of the first family to `out`.
    pub fn append_G(&self, n: usize, out: &mut Vec<G1Affine>)
        requires
            n <= self.g_bases().len(),
        ensures
            points_model(final(out)@) == points_model(old(out)@) + self.g_bases().take(n as int),
    {
        let mut i: usize = 0;
        assert(points_model(out@) =~= points_model(old(out)@) + self.g_bases().take(0));
        while i < n
            invariant
                i <= n,
                n <= self.bases@.len(),
                points_model(out@) == points_model(old(out)@) + self.g_bases().take(i as int),
            decreases n - i,
        {
            let ghost before = out@;
            out.push(self.bases[i].0);
            assert(points_model(out@) =~= points_model(before).push(self.bases@[i as int].0@));
            assert(self.g_bases().take(i + 1) =~= self.g_bases().take(i as int).push(
                self.bases@[i as int].0@,
            ));
            assert(points_model(out@) =~= points_model(old(out)@) + self.g_bases().take(i + 1));
            i += 1;
        }
    }

    /// Appends the first `n` bases of the second family to `out`.
    pub fn append_H(&self, n: usize, out: &mut Vec<G1Affine>)
        requires
            n <= self.h_bases().len(),
        ensures
            points_model(final(out)@) == points_model(old(out)@) + self.h_bases().take(n as int),
    {
        let mut i: usize = 0;
        assert(points_model(out@) =~= points_model(old(out)@) + self.h_bases().take(0));
        while i < n
            invariant
                i <= n,
                n <= self.bases@.len(),
                points_model(out@) == points_model(old(out)@) + self.h_bases().take(i as int),
            decreases n - i,
        {
            let ghost before = out@;
            out.push(self.bases[i].1);
            assert(points_model(out@) =~= points_model(before).push(self.bases@[i as int].1@));
            assert(self.h_bases().take(i + 1) =~= self.h_bases().take(i as int).push(
                self.bases@[i as int].1@,
            ));
            assert(points_model(out@) =~= points_model(old(out)@) + self.h_bases().take(i + 1));
            i += 1;
        }
    }

    /// The first `n` bases of the first family.
    pub fn G(&self, n: usize) -> (r: Vec<G1Affine>)
        requires
            n <= self.g_bases().len(),
        ensures
            points_model(r@) == self.g_bases().take(n as int),
    {
        let mut r: Vec<G1Affine> = Vec::new();
        self.append_G(n, &mut r);
        assert(points_model(r@) =~= self.g_bases().take(n as int));
        r
    }

    /// The first `n` bases of the second family.
    pub fn H(&self, n: usize) -> (r: Vec<G1Affine>)
        requires
            n <= self.h_bases().len(),
        ensures
            points_model(r@) == self.h_bases().take(n as int),
    {
        let mut r: Vec<G1Affine> = Vec::new();
        self.append_H(n, &mut r);
        assert(points_model(r@) =~= self.h_bases().take(n as int));
        r
    }
}

/// Appends the first `n` points of `from` to `out`.
pub fn append_prefix(from: &Vec<G1Affine>, n: usize, out: &mut Vec<G1Affine>)
    requires
        n <= from@.len(),
    ensures
        final(out)@ == old(out)@ + from@.take(n as int),
        points_model(final(out)@) == points_model(old(out)@) + points_model(from@).take(n as int),
{
    let mut i: usize = 0;
    assert(from@.take(0) =~= Seq::<G1Affine>::empty());
    assert(out@ =~= old(out)@ + from@.take(0));
    while i < n
        invariant
            i <= n,
            n <= from@.len(),
            out@ == old(out)@ + from@.take(i as int),
        decreases n - i,
    {
        out.push(from[i]);
        assert(from@.take(i + 1) =~= from@.take(i as int).push(from@[i as int]));
        assert(out@ =~= old(out)@ + from@.take(i + 1));
        i += 1;
    }
    assert(points_model(out@) =~= points_model(old(out)@) + points_model(from@).take(n as int));
}

} // verus!
