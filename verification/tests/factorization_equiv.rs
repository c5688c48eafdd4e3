use mad_dog_sim::lattice::{
    apply_grid_symmetry, grid_equiv_distance, grid_equiv_match, lattice_equiv_match,
    torus_equiv_distance, torus_equiv_match, GraphKind,
};
use mad_dog_sim::perm::{line_equiv_distance, line_equiv_match, perm_distance};

#[test]
fn grid_d4_symmetry_detects_rotated_labeling() {
    let rows = 3;
    let cols = 3;
    let target: Vec<usize> = (0..9).collect();
    // 90° CW rotation on site indices
    let rotated: Vec<usize> = (0..9)
        .map(|k| apply_grid_symmetry(k, 1, rows, cols))
        .collect();
    assert_eq!(grid_equiv_distance(&rotated, &target, rows, cols), 0);
    assert!(grid_equiv_match(&rotated, &target, rows, cols));
}

#[test]
fn line_equiv_distance_accepts_reflection() {
    let a = vec![0, 3, 4, 1, 2, 5];
    let b = vec![5, 2, 1, 4, 3, 0];
    assert_eq!(line_equiv_distance(&a, &b), 0);
}

#[test]
fn apply_grid_symmetry_all_eight_motions_on_3x3() {
    // site 1 = (row 0, col 1)
    assert_eq!(apply_grid_symmetry(1, 0, 3, 3), 1);
    assert_eq!(apply_grid_symmetry(1, 1, 3, 3), 5); // (1, 2)
    assert_eq!(apply_grid_symmetry(1, 2, 3, 3), 7); // (2, 1)
    assert_eq!(apply_grid_symmetry(1, 3, 3, 3), 3); // (1, 0)
    assert_eq!(apply_grid_symmetry(1, 4, 3, 3), 7); // (2, 1)
    assert_eq!(apply_grid_symmetry(1, 5, 3, 3), 1); // (0, 1)
    assert_eq!(apply_grid_symmetry(1, 6, 3, 3), 3); // (1, 0)
    assert_eq!(apply_grid_symmetry(1, 7, 3, 3), 5); // (1, 2)
    assert_eq!(apply_grid_symmetry(1, 9, 3, 3), 1);
}

#[test]
fn grid_equiv_is_symmetric_on_rotated_labelings() {
    let target: Vec<usize> = (0..9).collect();
    let rotated: Vec<usize> = (0..9).map(|k| apply_grid_symmetry(k, 1, 3, 3)).collect();
    assert_eq!(grid_equiv_distance(&target, &rotated, 3, 3), 0);
    assert_eq!(grid_equiv_distance(&target, &target, 3, 3), 0);
}

#[test]
fn grid_equiv_counts_mismatches_of_best_motion() {
    let target: Vec<usize> = (0..9).collect();
    let mut swapped = target.clone();
    swapped.swap(0, 4);
    assert_eq!(grid_equiv_distance(&swapped, &target, 3, 3), 2);
    assert!(!grid_equiv_match(&swapped, &target, 3, 3));
}

#[test]
fn grid_equiv_shape_mismatch_returns_length() {
    let a = vec![0usize, 1, 2, 3];
    let b = vec![0usize, 1, 2];
    assert_eq!(grid_equiv_distance(&a, &b, 2, 2), 4);
    assert_eq!(grid_equiv_distance(&a, &a, 3, 3), 4);
}

#[test]
fn torus_equiv_matches_grid_equiv() {
    let target = vec![0usize, 1, 2, 3];
    let rotated: Vec<usize> = (0..4).map(|k| apply_grid_symmetry(k, 2, 2, 2)).collect();
    assert_eq!(torus_equiv_distance(&rotated, &target, 2, 2), 0);
    assert!(torus_equiv_match(&rotated, &target, 2, 2));
}

#[test]
fn lattice_equiv_match_by_kind() {
    let target: Vec<usize> = (0..9).collect();
    let rotated: Vec<usize> = (0..9).map(|k| apply_grid_symmetry(k, 3, 3, 3)).collect();
    assert!(lattice_equiv_match(&rotated, &target, GraphKind::Grid, 3, 3));
    assert!(lattice_equiv_match(&rotated, &target, GraphKind::Torus, 3, 3));
    assert!(!lattice_equiv_match(&rotated, &target, GraphKind::Line, 3, 3));
    assert!(lattice_equiv_match(&target, &target, GraphKind::Cube, 0, 0));
}

#[test]
fn perm_distance_counts_differences() {
    assert_eq!(perm_distance(&[0, 1, 2, 3], &[0, 2, 1, 3]), 2);
    assert_eq!(perm_distance(&[0, 1, 2], &[0, 1, 2]), 0);
    // only the common prefix is compared
    assert_eq!(perm_distance(&[0, 1, 2], &[1, 1]), 1);
}

#[test]
fn line_equiv_takes_better_of_direct_and_reflected() {
    let target = vec![0usize, 1, 2, 3];
    assert_eq!(line_equiv_distance(&[3, 2, 1, 0], &target), 0);
    assert_eq!(line_equiv_distance(&[1, 0, 2, 3], &target), 2);
    assert!(line_equiv_match(&[3, 2, 1, 0], &target));
    assert!(!line_equiv_match(&[1, 0, 2, 3], &target));
    assert_eq!(line_equiv_distance(&[], &[]), 0);
}

#[test]
fn every_rigid_motion_of_a_square_grid_matches() {
    let target: Vec<usize> = vec![5, 0, 12, 3, 9, 14, 1, 7, 2, 11, 4, 15, 8, 13, 6, 10];
    for sym in 0..8usize {
        let moved: Vec<usize> = target.iter().map(|&s| apply_grid_symmetry(s, sym, 4, 4)).collect();
        assert!(grid_equiv_match(&moved, &target, 4, 4), "motion {sym}");
    }
}
