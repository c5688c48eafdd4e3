use mad_dog_sim::perm::{all_permutations, heap_permute, identity_perm, inverse_perm, permute_basis_index, random_permutation};
use mad_dog_sim::rng::Rng;

#[test]
fn identity_labeling() {
    assert_eq!(identity_perm(4), vec![0, 1, 2, 3]);
    assert!(identity_perm(0).is_empty());
}

#[test]
fn random_permutation_known_values() {
    // Fisher-Yates driven by Mulberry32, index floor(draw * (i + 1)).
    let mut rng = Rng::new(4242 + 42);
    assert_eq!(random_permutation(6, &mut rng), vec![4, 3, 1, 2, 0, 5]);
    let mut rng = Rng::new(7);
    assert_eq!(random_permutation(8, &mut rng), vec![4, 6, 1, 2, 3, 5, 7, 0]);
    let mut rng = Rng::new(3);
    assert_eq!(random_permutation(1, &mut rng), vec![0]);
}

#[test]
fn random_permutation_consumes_one_draw_per_swap() {
    let mut a = Rng::new(9);
    let _ = random_permutation(4, &mut a);
    let mut b = Rng::new(9);
    for _ in 0..3 {
        b.next_u32();
    }
    assert_eq!(a.next_u32(), b.next_u32());
}

#[test]
fn random_permutation_is_a_permutation() {
    for seed in 0..20u32 {
        let mut rng = Rng::new(seed);
        let mut p = random_permutation(9, &mut rng);
        p.sort();
        assert_eq!(p, identity_perm(9));
    }
}

#[test]
fn heap_order_for_three() {
    assert_eq!(
        all_permutations(3),
        vec![vec![0, 1, 2], vec![1, 0, 2], vec![2, 0, 1], vec![0, 2, 1], vec![1, 2, 0], vec![2, 1, 0]]
    );
    assert_eq!(all_permutations(1), vec![vec![0]]);
}

#[test]
fn all_permutations_count_and_distinct() {
    let mut all = all_permutations(5);
    assert_eq!(all.len(), 120);
    all.sort();
    all.dedup();
    assert_eq!(all.len(), 120);
}

#[test]
fn heap_permute_appends_and_leaves_tail() {
    let mut a = vec![7usize, 8, 9, 4];
    let mut out = vec![vec![1usize]];
    heap_permute(4, &mut a, 2, &mut out);
    assert_eq!(out, vec![vec![1], vec![7, 8, 9, 4], vec![8, 7, 9, 4]]);
    assert_eq!(a, vec![8, 7, 9, 4]);
}

#[test]
fn inverse_of_permutation_and_of_repeats() {
    let p = vec![2usize, 0, 3, 1];
    let inv = inverse_perm(&p);
    assert_eq!(inv, vec![1, 3, 0, 2]);
    for q in 0..4 {
        assert_eq!(inv[p[q]], q);
    }
    // repeated values: the last writer wins, unhit slots stay 0
    assert_eq!(inverse_perm(&[1, 1, 0]), vec![2, 1, 0]);
    assert_eq!(inverse_perm(&[1, 1, 1]), vec![0, 2, 0]);
}

#[test]
fn basis_index_relabeling() {
    // qubit q moves to position perm[q]
    let perm = vec![2usize, 0, 1];
    assert_eq!(permute_basis_index(0b001, &perm), 0b100);
    assert_eq!(permute_basis_index(0b010, &perm), 0b001);
    assert_eq!(permute_basis_index(0b011, &perm), 0b101);
    assert_eq!(permute_basis_index(0b111, &perm), 0b111);
    // bits of qubits outside the permutation are dropped
    assert_eq!(permute_basis_index(0b1000, &perm), 0);
    let inv = inverse_perm(&perm);
    for s in 0..8usize {
        assert_eq!(permute_basis_index(permute_basis_index(s, &perm), &inv), s);
    }
}
