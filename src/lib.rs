//! Incremental maintenance of a Pareto front under a user-supplied dominance relation.

mod dominate;
mod fieldwise;
mod front;
mod inverse;
mod laws;

pub use dominate::Dominate;
pub use front::{
    front_after_push, front_after_pushes, is_antichain, is_dominated_by_member, ParetoFront,
};
pub use inverse::Inverse;
pub use laws::{
    lemma_push_order_independent, lemma_pushes_cover, lemma_pushes_keep_maximal, maximal_elements,
    no_mutual_dominance,
};
