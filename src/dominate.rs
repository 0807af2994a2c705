use vstd::prelude::*;

verus! {

/// A weak dominance relation: `a` dominates `b` when `a` is at least as good as `b` in every
/// tracked dimension.
///
/// The relation is a preorder: every value dominates itself, and dominance chains compose.
/// Two values that dominate each other are equal in every tracked dimension.
pub trait Dominate: Sized {
    /// The relation that `dominates` computes.
    spec fn spec_dominates(&self, other: &Self) -> bool;

    /// Every value dominates itself.
    proof fn lemma_dominates_reflexive(a: &Self)
        ensures
            a.spec_dominates(a),
    ;

    /// Dominance is transitive.
    proof fn lemma_dominates_transitive(a: &Self, b: &Self, c: &Self)
        requires
            a.spec_dominates(b),
            b.spec_dominates(c),
        ensures
            a.spec_dominates(c),
    ;

    /// Returns `true` if `self` Pareto dominates `other`.
    fn dominates(&self, other: &Self) -> (r: bool)
        ensures
            r == self.spec_dominates(other),
    ;
}

impl<T: Dominate> Dominate for &T {
    open spec fn spec_dominates(&self, other: &Self) -> bool {
        (**self).spec_dominates(*other)
    }

    proof fn lemma_dominates_reflexive(a: &Self) {
        T::lemma_dominates_reflexive(*a);
    }

    proof fn lemma_dominates_transitive(a: &Self, b: &Self, c: &Self) {
        T::lemma_dominates_transitive(*a, *b, *c);
    }

    fn dominates(&self, other: &Self) -> (r: bool) {
        (**self).dominates(*other)
    }
}

} // verus!
