use nbody::sweep::unordered_pairs;

#[test]
fn no_pairs_for_empty_or_single_body() {
    assert!(unordered_pairs(0).is_empty());
    assert!(unordered_pairs(1).is_empty());
}

#[test]
fn two_bodies_give_one_pair() {
    assert_eq!(unordered_pairs(2), vec![(0, 1)]);
}

#[test]
fn four_bodies_in_lexicographic_order() {
    assert_eq!(
        unordered_pairs(4),
        vec![(0, 1), (0, 2), (0, 3), (1, 2), (1, 3), (2, 3)]
    );
}

#[test]
fn pair_count_is_n_choose_two() {
    assert_eq!(unordered_pairs(100).len(), 4950);
    assert_eq!(unordered_pairs(7).len(), 21);
}

#[test]
fn never_pairs_a_body_with_itself() {
    for (i, j) in unordered_pairs(30) {
        assert_ne!(i, j);
        assert!(i < j && j < 30);
    }
}

#[test]
fn each_unordered_pair_exactly_once() {
    let n: usize = 9;
    let pairs = unordered_pairs(n);
    for a in 0..n {
        for b in 0..n {
            if a != b {
                let hits = pairs
                    .iter()
                    .filter(|p| **p == (a, b) || **p == (b, a))
                    .count();
                assert_eq!(hits, 1);
            }
        }
    }
}
