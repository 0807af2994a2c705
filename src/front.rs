use vstd::prelude::*;

use crate::dominate::Dominate;

verus! {

/// No two entries at distinct positions of `s` are ordered by dominance.
///
/// Since dominance is reflexive, this also rules out two equal entries.
pub open spec fn is_antichain<T: Dominate>(s: Seq<T>) -> bool {
    forall|i: int, j: int|
        #![trigger s[i], s[j]]
        0 <= i < s.len() && 0 <= j < s.len() && i != j ==> !s[i].spec_dominates(&s[j])
}

/// Some member of `s` dominates `c`.
pub open spec fn is_dominated_by_member<T: Dominate>(s: Set<T>, c: T) -> bool {
    exists|e: T| s.contains(e) && #[trigger] e.spec_dominates(&c)
}

/// The contents of a front after offering it `c`: unchanged if a member dominates `c`;
/// otherwise the members that `c` does not dominate, together with `c`.
pub open spec fn front_after_push<T: Dominate>(s: Set<T>, c: T) -> Set<T> {
    if is_dominated_by_member(s, c) {
        s
    } else {
        s.filter(|e: T| !c.spec_dominates(&e)).insert(c)
    }
}

/// The contents of a front after offering it each entry of `items` in turn.
pub open spec fn front_after_pushes<T: Dominate>(s: Set<T>, items: Seq<T>) -> Set<T>
    decreases items.len(),
{
    if items.len() == 0 {
        s
    } else {
        front_after_push(front_after_pushes(s, items.drop_last()), items.last())
    }
}

/// The set of Pareto-optimal elements, with a growable backing vector.
///
/// Its elements are unordered; the order is an artifact of removal and may change on any push.
#[derive(Debug, Clone)]
pub struct ParetoFront<T> {
    front: Vec<T>,
}

impl<T> View for ParetoFront<T> {
    type V = Seq<T>;

    closed spec fn view(&self) -> Seq<T> {
        self.front@
    }
}

impl<T> ParetoFront<T> {
    /// Creates an empty front.
    pub fn new() -> (r: Self)
        ensures
            r@ == Seq::<T>::empty(),
    {
        ParetoFront { front: Vec::new() }
    }

    /// The number of elements in the front.
    pub fn len(&self) -> (r: usize)
        ensures
            r == self@.len(),
    {
        self.front.len()
    }

    /// Whether the front holds no element.
    pub fn is_empty(&self) -> (r: bool)
        ensures
            r == (self@.len() == 0),
    {
        self.front.is_empty()
    }

    /// The elements of the front, in its current order.
    pub fn as_slice(&self) -> (r: &[T])
        ensures
            r@ == self@,
    {
        self.front.as_slice()
    }

    /// Iterates over references to the elements of the front, in its current order.
    pub fn iter(&self) -> (r: std::slice::Iter<'_, T>)
        ensures
            vstd::std_specs::iter::IteratorSpec::remaining(&r) == self@.as_ref(),
    {
        let r = self.front.as_slice().iter();
        proof {
            broadcast use vstd::std_specs::slice::axiom_spec_slice_iter;
        }
        r
    }
}

impl<T> Default for ParetoFront<T> {
    /// An empty front.
    fn default() -> (r: Self)
        ensures
            r@ == Seq::<T>::empty(),
    {
        Self::new()
    }
}

impl<T> From<ParetoFront<T>> for Vec<T> {
    /// Gives up the front, handing out its elements in its current order.
    fn from(value: ParetoFront<T>) -> (r: Vec<T>)
        ensures
            r@ == value@,
    {
        value.front
    }
}

impl<T> vstd::std_specs::convert::FromSpecImpl<ParetoFront<T>> for Vec<T> {
    open spec fn obeys_from_spec() -> bool {
        true
    }

    closed spec fn from_spec(v: ParetoFront<T>) -> Vec<T> {
        v.front
    }
}

impl<T> IntoIterator for ParetoFront<T> {
    type Item = T;

    type IntoIter = std::vec::IntoIter<T>;

    /// Gives up the front, iterating over its elements in its current order.
    fn into_iter(self) -> (r: std::vec::IntoIter<T>)
        ensures
            vstd::std_specs::iter::IteratorSpec::remaining(&r) == self@,
    {
        let r = self.front.into_iter();
        proof {
            broadcast use vstd::std_specs::vec::axiom_spec_into_iter;
        }
        r
    }
}

impl<T: Dominate> ParetoFront<T> {
    /// Well-formedness: no element of the front dominates another.
    pub open spec fn wf(&self) -> bool {
        is_antichain(self@)
    }

    /// A well-formed front holds no element twice, so its length is the number of distinct
    /// elements it holds.
    pub proof fn lemma_wf_no_duplicates(&self)
        requires
            self.wf(),
        ensures
            self@.no_duplicates(),
            self@.len() == self@.to_set().len(),
    {
        let s = self@;
        assert forall|i: int, j: int| 0 <= i < s.len() && 0 <= j < s.len() && i != j implies s[i]
            != s[j] by {
            T::lemma_dominates_reflexive(&s[i]);
        }
        s.unique_seq_to_set();
    }

    /// Moving the last entry into slot `j` and dropping the last slot keeps an antichain.
    proof fn lemma_swap_remove_keeps_antichain(s: Seq<T>, j: int)
        requires
            is_antichain(s),
            0 <= j < s.len(),
        ensures
            is_antichain(s.update(j, s.last()).drop_last()),
    {
        let t = s.update(j, s.last()).drop_last();
        let last = s.len() - 1;
        assert forall|a: int, b: int|
            #![trigger t[a], t[b]]
            0 <= a < t.len() && 0 <= b < t.len() && a != b implies !t[a].spec_dominates(&t[b]) by {
            let sa = if a == j { last } else { a };
            let sb = if b == j { last } else { b };
            assert(t[a] == s[sa]);
            assert(t[b] == s[sb]);
        }
    }

    /// Offers each of `items` to the front in turn, as `push` does.
    pub fn extend(&mut self, items: Vec<T>)
        requires
            old(self).wf(),
        ensures
            final(self).wf(),
            final(self)@.to_set() == front_after_pushes(old(self)@.to_set(), items@),
    {
        let ghost start = self@.to_set();
        let ghost all = items@;
        for e in it: items.into_iter()
            invariant
                it.seq() == all,
                self.wf(),
                self@.to_set() == front_after_pushes(start, all.take(it.index() as int)),
        {
            let ghost done = all.take(it.index() as int);
            proof {
                assert(all.take(it.index() + 1).drop_last() =~= done);
            }
            self.push(e);
        }
        proof {
            assert(all.take(all.len() as int) =~= all);
        }
    }

    /// In an antichain, nothing but the dominated element itself can dominate a value that
    /// dominates one of its elements.
    proof fn lemma_no_other_dominates(s: Seq<T>, c: T, i: int)
        requires
            is_antichain(s),
            0 <= i < s.len(),
            c.spec_dominates(&s[i]),
        ensures
            forall|k: int| #![trigger s[k]] 0 <= k < s.len() && k != i ==> !s[k].spec_dominates(&c),
    {
        assert forall|k: int| #![trigger s[k]] 0 <= k < s.len() && k != i implies !s[k].spec_dominates(
            &c,
        ) by {
            if s[k].spec_dominates(&c) {
                T::lemma_dominates_transitive(&s[k], &c, &s[i]);
            }
        }
    }

    /// Removes every element that `new` dominates, unless an element dominates `new`.
    ///
    /// Returns `true` if `new` can join the front, and `false` (leaving the front as it was) if
    /// an existing element dominates it.
    fn remove_dominated(&mut self, new: &T) -> (r: bool)
        requires
            old(self).wf(),
        ensures
            final(self).wf(),
            r == !exists|k: int| 0 <= k < old(self)@.len() && #[trigger] old(self)@[k].spec_dominates(new),
            !r ==> final(self)@ == old(self)@,
            r ==> forall|k: int|
                #![trigger final(self)@[k]]
                0 <= k < final(self)@.len() ==> !final(self)@[k].spec_dominates(new)
                    && !new.spec_dominates(&final(self)@[k]),
            r ==> forall|x: T| #[trigger]
                final(self)@.contains(x) <==> (old(self)@.contains(x) && !new.spec_dominates(&x)),
    {
        let ghost orig = self.front@;
        let mut i: usize = 0;
        while i < self.front.len()
            invariant
                self.front@ == orig,
                orig == old(self)@,
                is_antichain(orig),
                i <= orig.len(),
                forall|k: int|
                    #![trigger orig[k]]
                    0 <= k < i ==> !orig[k].spec_dominates(new) && !new.spec_dominates(&orig[k]),
            decreases orig.len() - i,
        {
            if self.front[i].dominates(new) {
                assert(orig[i as int].spec_dominates(new));
                return false;
            }
            if new.dominates(&self.front[i]) {
                proof {
                    Self::lemma_no_other_dominates(orig, *new, i as int);
                }
                self.remove_dominated_from(new, i);
                proof {
                    let t = self.front@;
                    assert forall|k: int| #![trigger t[k]] 0 <= k < t.len() implies !t[k].spec_dominates(
                        new,
                    ) by {
                        assert(t.contains(t[k]));
                        let m = choose|m: int| 0 <= m < orig.len() && orig[m] == t[k];
                        assert(orig[m] == t[k]);
                    }
                }
                return true;
            }
            i = i + 1;
        }
        true
    }

    /// Offers `new` to the front.
    ///
    /// If an existing element dominates `new`, the front is left as it was and `false` is
    /// returned. Otherwise every element that `new` dominates is removed, `new` is added, and
    /// `true` is returned.
    pub fn push(&mut self, new: T) -> (r: bool)
        requires
            old(self).wf(),
        ensures
            final(self).wf(),
            r == !is_dominated_by_member(old(self)@.to_set(), new),
            final(self)@.to_set() == front_after_push(old(self)@.to_set(), new),
            // an accepted candidate is present, and no other element dominates it
            r ==> final(self)@.contains(new),
            r ==> forall|x: T|
                #[trigger] final(self)@.contains(x) && x != new ==> !x.spec_dominates(&new),
            // an accepted candidate removes exactly the elements that it dominates
            r ==> forall|x: T| #[trigger]
                old(self)@.contains(x) ==> (final(self)@.contains(x) <==> !new.spec_dominates(&x)),
            // a rejected candidate leaves the front as it was, and a member dominates it
            !r ==> final(self)@ == old(self)@,
            !r ==> exists|k: int|
                0 <= k < old(self)@.len() && #[trigger] old(self)@[k].spec_dominates(&new),
            // a candidate equal in every dimension to a member is rejected
            (exists|k: int|
                0 <= k < old(self)@.len() && #[trigger] old(self)@[k].spec_dominates(&new)
                    && new.spec_dominates(&old(self)@[k])) ==> !r,
    {
        let ghost orig = self.front@;
        let accepted = self.remove_dominated(&new);
        proof {
            if is_dominated_by_member(orig.to_set(), new) {
                let e = choose|e: T| orig.to_set().contains(e) && #[trigger] e.spec_dominates(&new);
                let k = choose|k: int| 0 <= k < orig.len() && orig[k] == e;
                assert(orig[k].spec_dominates(&new));
            }
            if exists|k: int| 0 <= k < orig.len() && #[trigger] orig[k].spec_dominates(&new) {
                let k = choose|k: int| 0 <= k < orig.len() && #[trigger] orig[k].spec_dominates(&new);
                assert(orig.to_set().contains(orig[k]));
            }
        }
        if accepted {
            let ghost s = self.front@;
            self.front.push(new);
            proof {
                let t = self.front@;
                assert(t[s.len() as int] == new);
                assert forall|a: int, b: int|
                    #![trigger t[a], t[b]]
                    0 <= a < t.len() && 0 <= b < t.len() && a != b implies !t[a].spec_dominates(
                        &t[b],
                    ) by {
                    if a < s.len() {
                        assert(t[a] == s[a]);
                    }
                    if b < s.len() {
                        assert(t[b] == s[b]);
                    }
                }
                assert forall|x: T| #[trigger] t.contains(x) && x != new implies !x.spec_dominates(
                    &new,
                ) by {
                    let a = choose|a: int| 0 <= a < t.len() && t[a] == x;
                    assert(t[a] == s[a]);
                }
                assert forall|x: T| #[trigger] t.contains(x) <==> (s.contains(x) || x == new) by {
                    if t.contains(x) && x != new {
                        let a = choose|a: int| 0 <= a < t.len() && t[a] == x;
                        assert(t[a] == s[a]);
                    }
                    if s.contains(x) {
                        let a = choose|a: int| 0 <= a < s.len() && s[a] == x;
                        assert(t[a] == x);
                    }
                }
                assert(t.to_set() =~= front_after_push(orig.to_set(), new));
            }
            true
        } else {
            false
        }
    }

    /// Removes every element at or after `start_idx` that `new` dominates.
    ///
    /// A removed slot is filled with the last element, which is then examined in turn.
    fn remove_dominated_from(&mut self, new: &T, start_idx: usize)
        requires
            old(self).wf(),
            start_idx <= old(self)@.len(),
            forall|k: int| #![trigger old(self)@[k]] 0 <= k < start_idx ==> !new.spec_dominates(&old(self)@[k]),
        ensures
            final(self).wf(),
            forall|k: int|
                #![trigger final(self)@[k]]
                0 <= k < final(self)@.len() ==> !new.spec_dominates(&final(self)@[k]),
            forall|x: T| #[trigger]
                final(self)@.contains(x) <==> (old(self)@.contains(x) && !new.spec_dominates(&x)),
    {
        let ghost orig = self.front@;
        let mut j: usize = start_idx;
        while j < self.front.len()
            invariant
                start_idx <= j <= self.front.len(),
                is_antichain(self.front@),
                forall|k: int| #![trigger self.front@[k]] 0 <= k < j ==> !new.spec_dominates(&self.front@[k]),
                forall|x: T| #[trigger] self.front@.contains(x) ==> orig.contains(x),
                forall|x: T|
                    #[trigger] orig.contains(x) && !new.spec_dominates(&x) ==> self.front@.contains(
                        x,
                    ),
            decreases self.front.len() - j,
        {
            if new.dominates(&self.front[j]) {
                let ghost s = self.front@;
                proof {
                    Self::lemma_swap_remove_keeps_antichain(s, j as int);
                }
                self.front.swap_remove(j);
                let ghost t = self.front@;
                assert forall|x: T| #[trigger] t.contains(x) implies orig.contains(x) by {
                    let a = choose|a: int| 0 <= a < t.len() && t[a] == x;
                    if a == j {
                        assert(s[s.len() - 1] == x);
                    } else {
                        assert(s[a] == x);
                    }
                    assert(s.contains(x));
                }
                assert forall|x: T|
                    #[trigger] orig.contains(x) && !new.spec_dominates(&x) implies t.contains(x) by {
                    assert(s.contains(x));
                    let a = choose|a: int| 0 <= a < s.len() && s[a] == x;
                    if a == s.len() - 1 {
                        assert(t[j as int] == x);
                    } else {
                        assert(a != j);
                        assert(t[a] == x);
                    }
                }
            } else {
                j = j + 1;
            }
        }
    }
}

} // verus!
