use vstd::prelude::*;

use crate::dominate::Dominate;
use crate::front::{front_after_push, front_after_pushes, is_dominated_by_member};

verus! {

/// The Pareto-optimal members of `s`: those that no other member dominates.
pub open spec fn maximal_elements<T: Dominate>(s: Set<T>) -> Set<T> {
    s.filter(|x: T| forall|y: T| #[trigger] s.contains(y) && y.spec_dominates(&x) ==> y == x)
}

/// No two distinct members of `s` are equal in every tracked dimension.
pub open spec fn no_mutual_dominance<T: Dominate>(s: Set<T>) -> bool {
    forall|x: T, y: T|
        #![trigger s.contains(x), s.contains(y)]
        s.contains(x) && s.contains(y) && x.spec_dominates(&y) && y.spec_dominates(&x) ==> x == y
}

proof fn lemma_to_set_drop_last<T>(items: Seq<T>)
    requires
        items.len() > 0,
    ensures
        items.to_set() == items.drop_last().to_set().insert(items.last()),
{
    let init = items.drop_last();
    assert forall|x: T| #[trigger] items.to_set().contains(x) <==> init.to_set().insert(
        items.last(),
    ).contains(x) by {
        if items.contains(x) && x != items.last() {
            let k = choose|k: int| 0 <= k < items.len() && items[k] == x;
            assert(init[k] == x);
        }
        if init.contains(x) {
            let k = choose|k: int| 0 <= k < init.len() && init[k] == x;
            assert(items[k] == x);
        }
        if x == items.last() {
            assert(items[items.len() - 1] == x);
        }
    }
    assert(items.to_set() =~= init.to_set().insert(items.last()));
}

/// Every candidate offered to a front, and every member it started with, stays dominated by
/// some member of the front that results.
pub proof fn lemma_pushes_cover<T: Dominate>(start: Set<T>, items: Seq<T>)
    ensures
        forall|y: T|
            start.contains(y) || items.contains(y) ==> #[trigger] is_dominated_by_member(
                front_after_pushes(start, items),
                y,
            ),
    decreases items.len(),
{
    if items.len() == 0 {
        assert forall|y: T| start.contains(y) || items.contains(y) implies #[trigger] is_dominated_by_member(
            front_after_pushes(start, items),
            y,
        ) by {
            T::lemma_dominates_reflexive(&y);
        }
    } else {
        let init = items.drop_last();
        let c = items.last();
        let f = front_after_pushes(start, init);
        lemma_pushes_cover(start, init);
        assert(front_after_pushes(start, items) == front_after_push(f, c));
        assert forall|y: T| start.contains(y) || items.contains(y) implies #[trigger] is_dominated_by_member(
            front_after_push(f, c),
            y,
        ) by {
            let r = front_after_push(f, c);
            if y == c {
                if !is_dominated_by_member(f, c) {
                    T::lemma_dominates_reflexive(&c);
                    assert(r.contains(c));
                }
            } else {
                if items.contains(y) {
                    let k = choose|k: int| 0 <= k < items.len() && items[k] == y;
                    assert(init[k] == y);
                }
                assert(is_dominated_by_member(f, y));
                let e = choose|e: T| f.contains(e) && #[trigger] e.spec_dominates(&y);
                if !is_dominated_by_member(f, c) && c.spec_dominates(&e) {
                    T::lemma_dominates_transitive(&c, &e, &y);
                    assert(r.contains(c));
                } else {
                    assert(r.contains(e));
                }
            }
        }
    }
}

/// Offering a front that starts empty each of `items` in turn leaves exactly the Pareto-optimal
/// members of `items`, provided no two distinct candidates are equal in every dimension.
pub proof fn lemma_pushes_keep_maximal<T: Dominate>(items: Seq<T>)
    requires
        no_mutual_dominance(items.to_set()),
    ensures
        front_after_pushes(Set::empty(), items) == maximal_elements(items.to_set()),
    decreases items.len(),
{
    if items.len() == 0 {
        assert(maximal_elements(items.to_set()) =~= Set::empty());
    } else {
        let init = items.drop_last();
        let c = items.last();
        let s = items.to_set();
        let s0 = init.to_set();
        lemma_to_set_drop_last(items);
        assert forall|x: T, y: T|
            #![trigger s0.contains(x), s0.contains(y)]
            s0.contains(x) && s0.contains(y) && x.spec_dominates(&y) && y.spec_dominates(
                &x,
            ) implies x == y by {
            assert(s.contains(x) && s.contains(y));
        }
        lemma_pushes_keep_maximal(init);
        lemma_pushes_cover(Set::empty(), init);
        let f = front_after_pushes(Set::empty(), init);
        let r = front_after_push(f, c);
        assert(front_after_pushes(Set::empty(), items) == r);
        assert(f == maximal_elements(s0));
        if is_dominated_by_member(f, c) {
            let e = choose|e: T| f.contains(e) && #[trigger] e.spec_dominates(&c);
            assert(s0.contains(e));
            assert forall|x: T| #[trigger] maximal_elements(s).contains(x) <==> f.contains(x) by {
                if maximal_elements(s).contains(x) {
                    if x == c {
                        assert(s.contains(e));
                        assert(e == c);
                    }
                    assert(s0.contains(x));
                    assert forall|y: T| #[trigger] s0.contains(y) && y.spec_dominates(&x) implies y
                        == x by {
                        assert(s.contains(y));
                    }
                }
                if f.contains(x) {
                    assert forall|y: T| #[trigger] s.contains(y) && y.spec_dominates(&x) implies y
                        == x by {
                        if y == c && !s0.contains(y) {
                            T::lemma_dominates_transitive(&e, &c, &x);
                            assert(e == x);
                            assert(s.contains(x));
                        }
                    }
                }
            }
            assert(maximal_elements(s) =~= f);
        } else {
            assert(!s0.contains(c)) by {
                if s0.contains(c) {
                    assert(init.contains(c));
                    assert(is_dominated_by_member(f, c));
                }
            }
            assert forall|x: T| #[trigger] maximal_elements(s).contains(x) <==> r.contains(x) by {
                if x == c {
                    assert forall|y: T| #[trigger] s.contains(y) && y.spec_dominates(&x) implies y
                        == x by {
                        if y != c {
                            assert(init.contains(y));
                            assert(is_dominated_by_member(f, y));
                            let g = choose|g: T| f.contains(g) && #[trigger] g.spec_dominates(&y);
                            T::lemma_dominates_transitive(&g, &y, &c);
                        }
                    }
                } else {
                    if maximal_elements(s).contains(x) {
                        assert(s0.contains(x));
                        assert forall|y: T| #[trigger] s0.contains(y) && y.spec_dominates(&x) implies y
                            == x by {
                            assert(s.contains(y));
                        }
                        assert(f.contains(x));
                        assert(s.contains(c));
                    }
                    if r.contains(x) {
                        assert(f.contains(x));
                        assert forall|y: T| #[trigger] s.contains(y) && y.spec_dominates(&x) implies y
                            == x by {
                            if y != c {
                                assert(s0.contains(y));
                            }
                        }
                    }
                }
            }
            assert(maximal_elements(s) =~= r);
        }
    }
}

/// The contents of a front built from a set of candidates do not depend on the order in which
/// they are offered, provided no two distinct candidates are equal in every dimension.
pub proof fn lemma_push_order_independent<T: Dominate>(a: Seq<T>, b: Seq<T>)
    requires
        a.to_set() == b.to_set(),
        no_mutual_dominance(a.to_set()),
    ensures
        front_after_pushes(Set::empty(), a) == front_after_pushes(Set::empty(), b),
{
    lemma_pushes_keep_maximal(a);
    lemma_pushes_keep_maximal(b);
}

} // verus!
