use pareto::{Dominate, ParetoFront};

type P = (u64, u64);

fn sorted(front: &ParetoFront<P>) -> Vec<P> {
    let mut v = front.as_slice().to_vec();
    v.sort();
    v
}

/// The members of `items` that no other member dominates, each once, sorted.
fn maximal(items: &[P]) -> Vec<P> {
    let mut v: Vec<P> = Vec::new();
    for (i, x) in items.iter().enumerate() {
        let beaten = items
            .iter()
            .enumerate()
            .any(|(j, y)| j != i && y.dominates(x) && (y != x || j < i));
        if !beaten {
            v.push(*x);
        }
    }
    v.sort();
    v
}

fn is_antichain(front: &ParetoFront<P>) -> bool {
    let s = front.as_slice();
    for i in 0..s.len() {
        for j in 0..s.len() {
            if i != j && s[i].dominates(&s[j]) {
                return false;
            }
        }
    }
    true
}

/// A deterministic stream of points in `[0, m)²`.
fn points(n: usize, seed: u64, m: u64) -> Vec<P> {
    let mut x = seed;
    let mut v = Vec::new();
    for _ in 0..n {
        x = x.wrapping_mul(6364136223846793005).wrapping_add(1442695040888963407);
        let a = (x >> 33) % m;
        x = x.wrapping_mul(6364136223846793005).wrapping_add(1442695040888963407);
        let b = (x >> 33) % m;
        v.push((a, b));
    }
    v
}

#[test]
fn new_front_is_empty() {
    let f: ParetoFront<P> = ParetoFront::new();
    assert!(f.is_empty());
    assert_eq!(f.len(), 0);
    assert!(f.as_slice().is_empty());
    let d: ParetoFront<P> = ParetoFront::default();
    assert!(d.is_empty());
}

#[test]
fn push_into_empty_front_succeeds() {
    let mut f = ParetoFront::new();
    assert!(f.push((7u64, 7u64)));
    assert_eq!(f.len(), 1);
    assert!(!f.is_empty());
    assert_eq!(f.as_slice(), &[(7, 7)]);
}

#[test]
fn equal_single_field_is_rejected() {
    let mut f = ParetoFront::new();
    assert!(f.push(123usize));
    assert!(!f.push(123usize));
    assert_eq!(f.len(), 1);
}

#[test]
fn crossing_pairs_are_both_kept() {
    let mut f = ParetoFront::new();
    assert!(f.push((123usize, 321usize)));
    assert!(f.push((321usize, 123usize)));
    assert_eq!(f.len(), 2);
}

#[test]
fn pair_dominated_on_one_field_is_rejected() {
    let mut f = ParetoFront::new();
    assert!(f.push((123usize, 123usize)));
    assert!(!f.push((123usize, 321usize)));
    assert_eq!(f.as_slice(), &[(123, 123)]);
}

#[test]
fn accepted_candidate_removes_exactly_what_it_dominates() {
    let mut f: ParetoFront<P> = ParetoFront::new();
    for p in [(1, 9), (9, 1), (5, 5), (6, 4), (4, 6)] {
        assert!(f.push(p));
    }
    assert_eq!(f.len(), 5);
    assert!(f.push((4, 4)));
    assert_eq!(sorted(&f), vec![(1, 9), (4, 4), (9, 1)]);
    assert!(f.as_slice().contains(&(4, 4)));
    assert!(f.iter().all(|e| *e == (4, 4) || !e.dominates(&(4, 4))));
    assert!(is_antichain(&f));
}

#[test]
fn removal_reaches_elements_after_the_first_dominated_one() {
    let mut f: ParetoFront<P> = ParetoFront::new();
    for p in [(0, 20), (20, 0), (10, 10), (2, 18), (18, 2), (9, 11), (11, 9)] {
        assert!(f.push(p));
    }
    // (8, 8) dominates (10, 10), (9, 11) and (11, 9), which are not adjacent
    assert!(f.push((8, 8)));
    assert_eq!(sorted(&f), vec![(0, 20), (2, 18), (8, 8), (18, 2), (20, 0)]);
}

#[test]
fn rejected_candidate_leaves_front_unchanged() {
    let mut f: ParetoFront<P> = ParetoFront::new();
    for p in [(1, 9), (9, 1), (5, 5)] {
        f.push(p);
    }
    let before = f.as_slice().to_vec();
    assert!(!f.push((6, 6)));
    assert_eq!(f.as_slice(), before.as_slice());
    assert!(!f.as_slice().contains(&(6, 6)));
    assert!(f.iter().any(|e| e.dominates(&(6, 6))));
}

#[test]
fn duplicate_of_member_is_rejected() {
    let mut f: ParetoFront<P> = ParetoFront::new();
    for p in [(1, 9), (9, 1), (5, 5)] {
        f.push(p);
    }
    let before = f.as_slice().to_vec();
    for p in [(1, 9), (9, 1), (5, 5)] {
        assert!(!f.push(p));
        assert_eq!(f.as_slice(), before.as_slice());
    }
}

#[test]
fn push_order_does_not_change_final_front() {
    let items: Vec<P> = vec![(1, 9), (3, 3), (9, 1), (4, 4), (2, 8), (5, 2)];
    let expected = maximal(&items);
    assert_eq!(expected, vec![(1, 9), (2, 8), (3, 3), (5, 2), (9, 1)]);
    // every rotation and its reverse
    for k in 0..items.len() {
        let mut rotated = items.clone();
        rotated.rotate_left(k);
        let mut f = ParetoFront::new();
        f.extend(rotated.clone());
        assert_eq!(sorted(&f), expected);
        rotated.reverse();
        let mut g = ParetoFront::new();
        g.extend(rotated);
        assert_eq!(sorted(&g), expected);
    }
}

#[test]
fn front_matches_maximal_elements_of_stream() {
    for seed in 1..20u64 {
        let items = points(200, seed, 50);
        let mut f: ParetoFront<P> = ParetoFront::new();
        for p in items.iter() {
            let dominated = f.iter().any(|e| e.dominates(p));
            assert_eq!(f.push(*p), !dominated);
            assert!(is_antichain(&f));
        }
        assert_eq!(sorted(&f), maximal(&items));
    }
}

#[test]
fn extend_is_repeated_push() {
    let items = points(300, 42, 1000);
    let mut a = ParetoFront::new();
    a.extend(items.clone());
    let mut b = ParetoFront::new();
    for p in items {
        b.push(p);
    }
    assert_eq!(a.as_slice(), b.as_slice());
}

#[test]
fn large_front_is_replaced_by_one_point() {
    let mut f = ParetoFront::new();
    for i in 0..1000u64 {
        assert!(f.push((i, 999 - i)));
    }
    assert_eq!(f.len(), 1000);
    assert!(is_antichain(&f));
    assert!(f.push((0, 0)));
    assert_eq!(f.as_slice(), &[(0, 0)]);
}

#[test]
fn views_agree_on_order() {
    let mut f: ParetoFront<P> = ParetoFront::new();
    f.extend(vec![(1, 9), (9, 1), (5, 5), (4, 4)]);
    let slice = f.as_slice().to_vec();
    let iterated: Vec<P> = f.iter().copied().collect();
    assert_eq!(slice, iterated);
    let cloned = f.clone();
    let owned: Vec<P> = cloned.into_iter().collect();
    assert_eq!(slice, owned);
    let converted: Vec<P> = Vec::from(f);
    assert_eq!(slice, converted);
    assert_eq!(slice.len(), 3);
}

#[test]
fn front_of_references() {
    let items: Vec<P> = vec![(1, 9), (9, 1), (5, 5), (6, 6)];
    let mut f: ParetoFront<&P> = ParetoFront::new();
    for p in items.iter() {
        f.push(p);
    }
    assert_eq!(f.len(), 3);
    assert!(f.iter().all(|e| **e != (6, 6)));
}
