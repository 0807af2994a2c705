//! Dominance for plain values, field by field: an unsigned integer is better when lower, the
//! unit type is an ignored dimension, a tuple dominates when each of its fields does, and an
//! `Inverse` reverses the dominance of the value it wraps.
use vstd::prelude::*;

use crate::dominate::Dominate;
use crate::inverse::Inverse;

verus! {

impl Dominate for usize {
    open spec fn spec_dominates(&self, other: &Self) -> bool {
        *self <= *other
    }

    proof fn lemma_dominates_reflexive(a: &Self) {
    }

    proof fn lemma_dominates_transitive(a: &Self, b: &Self, c: &Self) {
    }

    fn dominates(&self, other: &Self) -> (r: bool) {
        *self <= *other
    }
}

impl Dominate for u64 {
    open spec fn spec_dominates(&self, other: &Self) -> bool {
        *self <= *other
    }

    proof fn lemma_dominates_reflexive(a: &Self) {
    }

    proof fn lemma_dominates_transitive(a: &Self, b: &Self, c: &Self) {
    }

    fn dominates(&self, other: &Self) -> (r: bool) {
        *self <= *other
    }
}

impl Dominate for () {
    open spec fn spec_dominates(&self, other: &Self) -> bool {
        true
    }

    proof fn lemma_dominates_reflexive(a: &Self) {
    }

    proof fn lemma_dominates_transitive(a: &Self, b: &Self, c: &Self) {
    }

    fn dominates(&self, other: &Self) -> (r: bool) {
        true
    }
}

impl<A: Dominate, B: Dominate> Dominate for (A, B) {
    open spec fn spec_dominates(&self, other: &Self) -> bool {
        self.0.spec_dominates(&other.0) && self.1.spec_dominates(&other.1)
    }

    proof fn lemma_dominates_reflexive(a: &Self) {
        A::lemma_dominates_reflexive(&a.0);
        B::lemma_dominates_reflexive(&a.1);
    }

    proof fn lemma_dominates_transitive(a: &Self, b: &Self, c: &Self) {
        A::lemma_dominates_transitive(&a.0, &b.0, &c.0);
        B::lemma_dominates_transitive(&a.1, &b.1, &c.1);
    }

    fn dominates(&self, other: &Self) -> (r: bool) {
        self.0.dominates(&other.0) && self.1.dominates(&other.1)
    }
}

impl<A: Dominate, B: Dominate, C: Dominate> Dominate for (A, B, C) {
    open spec fn spec_dominates(&self, other: &Self) -> bool {
        &&& self.0.spec_dominates(&other.0)
        &&& self.1.spec_dominates(&other.1)
        &&& self.2.spec_dominates(&other.2)
    }

    proof fn lemma_dominates_reflexive(a: &Self) {
        A::lemma_dominates_reflexive(&a.0);
        B::lemma_dominates_reflexive(&a.1);
        C::lemma_dominates_reflexive(&a.2);
    }

    proof fn lemma_dominates_transitive(a: &Self, b: &Self, c: &Self) {
        A::lemma_dominates_transitive(&a.0, &b.0, &c.0);
        B::lemma_dominates_transitive(&a.1, &b.1, &c.1);
        C::lemma_dominates_transitive(&a.2, &b.2, &c.2);
    }

    fn dominates(&self, other: &Self) -> (r: bool) {
        self.0.dominates(&other.0) && self.1.dominates(&other.1) && self.2.dominates(&other.2)
    }
}

impl<T: Dominate> Dominate for Inverse<T> {
    open spec fn spec_dominates(&self, other: &Self) -> bool {
        other.0.spec_dominates(&self.0)
    }

    proof fn lemma_dominates_reflexive(a: &Self) {
        T::lemma_dominates_reflexive(&a.0);
    }

    proof fn lemma_dominates_transitive(a: &Self, b: &Self, c: &Self) {
        T::lemma_dominates_transitive(&c.0, &b.0, &a.0);
    }

    fn dominates(&self, other: &Self) -> (r: bool) {
        other.0.dominates(&self.0)
    }
}

} // verus!
