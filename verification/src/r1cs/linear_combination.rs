//! Variables of a constraint system and formal sums over them.

use crate::curve::Fr;
use vstd::prelude::*;

verus! {

/// A handle on a value that only the prover knows.
#[derive(Clone, Copy, Debug, PartialEq, Eq, Structural)]
pub enum Variable {
    /// A committed input, by the order of its commitment.
    Committed(usize),
    /// The left input of a multiplier.
    MultiplierLeft(usize),
    /// The right input of a multiplier.
    MultiplierRight(usize),
    /// The output of a multiplier.
    MultiplierOutput(usize),
    /// The constant one.
    One,
}

/// A formal sum as the contracts see it: variables with their coefficients, in order.
pub type Terms = Seq<(Variable, int)>;

/// The terms that stand for a list of variables with scalar coefficients.
pub open spec fn terms_model(terms: Seq<(Variable, Fr)>) -> Terms {
    terms.map_values(|t: (Variable, Fr)| (t.0, t.1@))
}

/// A formal sum of variables with scalar coefficients. A variable may occur
/// more than once; its coefficients then add up.
#[derive(Clone, Debug)]
pub struct LinearCombination {
    pub terms: Vec<(Variable, Fr)>,
}

impl View for LinearCombination {
    type V = Terms;

    open spec fn view(&self) -> Terms {
        terms_model(self.terms@)
    }
}

impl LinearCombination {
    /// The empty sum.
    pub fn new() -> (lc: LinearCombination)
        ensures
            lc@ == Seq::<(Variable, int)>::empty(),
    {
        let lc = LinearCombination { terms: Vec::new() };
        assert(lc@ =~= Seq::<(Variable, int)>::empty());
        lc
    }

    /// The sum of one term.
    pub fn from_term(var: Variable, coeff: Fr) -> (lc: LinearCombination)
        ensures
            lc@ == seq![(var, coeff@)],
    {
        let mut terms: Vec<(Variable, Fr)> = Vec::new();
        terms.push((var, coeff));
        let lc = LinearCombination { terms };
        assert(lc@ =~= seq![(var, coeff@)]);
        lc
    }

    /// The constant `value`, as a multiple of the variable one.
    pub fn from_constant(value: Fr) -> (lc: LinearCombination)
        ensures
            lc@ == seq![(Variable::One, value@)],
    {
        LinearCombination::from_term(Variable::One, value)
    }

    /// Adds one term at the end.
    pub fn push_term(&mut self, var: Variable, coeff: Fr)
        ensures
            final(self)@ == old(self)@.push((var, coeff@)),
    {
        self.terms.push((var, coeff));
        assert(self@ =~= old(self)@.push((var, coeff@)));
    }

    /// The number of terms.
    pub fn len(&self) -> (n: usize)
        ensures
            n == self@.len(),
    {
        self.terms.len()
    }
}

} // verus!
