use mad_dog_sim::factorization::{
    blind_annealing_steps, coupling_edges_for, parse_graph_kind, parse_input_mode, parse_search_method,
    str_eq, two_body_qubits, CouplingEdge, InputMode, SearchMethod,
};
use mad_dog_sim::lattice::{
    abs_diff, active_site_span, graph_distance, grid_manhattan_distances, max_site_diameter, site_graph_distance,
    torus_axis_dist, GraphKind, LatticeShape,
};
use mad_dog_sim::pauli::{PauliLetter, PauliOp};
use mad_dog_sim::sites::{
    cube_defect_site, default_clock_sites_chain, default_clock_sites_cube, default_clock_sites_grid,
    mass_sites_evenly, window_sites,
};

fn shape(rows: usize, cols: usize, lx: usize, ly: usize, lz: usize) -> LatticeShape {
    LatticeShape { rows, cols, lx, ly, lz }
}

#[test]
fn distances_on_each_layout() {
    let s = shape(3, 4, 2, 3, 2);
    assert_eq!(site_graph_distance(GraphKind::Line, 2, 9, &s), 7);
    // grid 3x4: site 1 = (0,1), site 11 = (2,3)
    assert_eq!(site_graph_distance(GraphKind::Grid, 1, 11, &s), 4);
    // torus: rows wrap 0..2 -> 1, cols wrap 1..3 -> 2
    assert_eq!(site_graph_distance(GraphKind::Torus, 1, 11, &s), 3);
    // cube 2x3x2: site 0 = (0,0,0), site 11 = (1,2,1)
    assert_eq!(site_graph_distance(GraphKind::Cube, 0, 11, &s), 4);
    assert_eq!(graph_distance(GraphKind::Line, &[5, 0, 3], 0, 2, &s), 2);
    assert_eq!(torus_axis_dist(0, 3, 4), 1);
    assert_eq!(torus_axis_dist(1, 2, 4), 1);
    assert_eq!(abs_diff(3, 10), 7);
}

#[test]
fn diameters_and_spans() {
    let s = shape(3, 4, 2, 3, 2);
    assert_eq!(max_site_diameter(GraphKind::Line, 6, &s), 5);
    assert_eq!(max_site_diameter(GraphKind::Line, 1, &s), 1);
    assert_eq!(max_site_diameter(GraphKind::Grid, 12, &s), 5);
    assert_eq!(max_site_diameter(GraphKind::Torus, 12, &s), 3);
    assert_eq!(max_site_diameter(GraphKind::Cube, 12, &s), 4);
    assert_eq!(active_site_span(GraphKind::Line, &[4, 1, 3], &s), 3);
    assert_eq!(active_site_span(GraphKind::Line, &[4], &s), 0);
    assert_eq!(active_site_span(GraphKind::Grid, &[0, 5, 11], &s), 5);
    assert!(active_site_span(GraphKind::Torus, &[0, 5, 11, 6], &s) <= max_site_diameter(GraphKind::Torus, 12, &s));
}

#[test]
fn coupling_edges_of_two_body_terms() {
    let terms = vec![
        vec![PauliOp { qubit: 2, letter: PauliLetter::Z }, PauliOp { qubit: 0, letter: PauliLetter::Z }],
        vec![PauliOp { qubit: 1, letter: PauliLetter::X }],
        vec![PauliOp { qubit: 1, letter: PauliLetter::Z }, PauliOp { qubit: 2, letter: PauliLetter::Z }],
    ];
    let perm = vec![0usize, 2, 1];
    let edges = coupling_edges_for(&terms, &perm, GraphKind::Line, &shape(0, 0, 0, 0, 0));
    assert_eq!(edges, vec![CouplingEdge { i: 0, j: 2, dist: 1 }, CouplingEdge { i: 1, j: 2, dist: 1 }]);
    assert_eq!(two_body_qubits(&terms[0]), Some((0, 2)));
    assert_eq!(two_body_qubits(&terms[1]), None);
}

#[test]
fn parse_config_words() {
    let spectrum = "spectrum".to_string();
    let grid = "grid".to_string();
    let torus = "torus".to_string();
    let cube = "cube".to_string();
    let greedy = "greedy".to_string();
    let annealing = "annealing".to_string();
    let exact = "exact".to_string();
    let other = "Spectrum".to_string();
    assert_eq!(parse_input_mode(Some(&spectrum)), InputMode::Spectrum);
    assert_eq!(parse_input_mode(Some(&other)), InputMode::Pauli);
    assert_eq!(parse_input_mode(None), InputMode::Pauli);
    assert_eq!(parse_graph_kind(Some(&grid)), GraphKind::Grid);
    assert_eq!(parse_graph_kind(Some(&torus)), GraphKind::Torus);
    assert_eq!(parse_graph_kind(Some(&cube)), GraphKind::Cube);
    assert_eq!(parse_graph_kind(Some(&other)), GraphKind::Line);
    assert_eq!(parse_search_method(Some(&greedy), 4), SearchMethod::Greedy);
    assert_eq!(parse_search_method(Some(&annealing), 4), SearchMethod::Annealing);
    assert_eq!(parse_search_method(Some(&exact), 20), SearchMethod::Exact);
    assert_eq!(parse_search_method(None, 8), SearchMethod::Exact);
    assert_eq!(parse_search_method(None, 9), SearchMethod::Annealing);
    assert!(str_eq("abc", "abc"));
    assert!(!str_eq("abc", "abd"));
    assert!(!str_eq("ab", "abc"));
}

#[test]
fn annealing_budget() {
    assert_eq!(blind_annealing_steps(0), 600);
    assert_eq!(blind_annealing_steps(10), 1400);
}

#[test]
fn window_clipped_to_chain() {
    assert_eq!(window_sites(4, 2, 10), vec![2, 3, 4, 5, 6]);
    assert_eq!(window_sites(1, 3, 10), vec![0, 1, 2, 3, 4]);
    assert_eq!(window_sites(8, 3, 10), vec![5, 6, 7, 8, 9]);
    assert_eq!(window_sites(12, 1, 10), Vec::<usize>::new());
}

#[test]
fn evenly_spaced_mass_sites() {
    assert_eq!(mass_sites_evenly(10, 1), vec![5]);
    assert_eq!(mass_sites_evenly(10, 0), vec![5]);
    // inner half [2, 7]; the middle position 4.5 rounds up
    assert_eq!(mass_sites_evenly(10, 3), vec![2, 5, 7]);
    assert_eq!(mass_sites_evenly(10, 2), vec![2, 7]);
    assert_eq!(mass_sites_evenly(12, 4), vec![3, 5, 6, 8]);
    assert_eq!(mass_sites_evenly(3, 10), vec![0, 1, 2]);
}

#[test]
fn clock_and_defect_sites() {
    assert_eq!(default_clock_sites_chain(9), vec![0, 4, 8]);
    assert_eq!(default_clock_sites_chain(0), vec![0, 0, 0]);
    assert_eq!(default_clock_sites_grid(3, 3, 4), vec![0, 4, 8]);
    assert_eq!(default_clock_sites_grid(3, 3, 2), vec![0, 6, 8]);
    assert_eq!(default_clock_sites_cube(12, 7), vec![0, 7, 11]);
    assert_eq!(cube_defect_site(2, 2, 3), 7);
    assert_eq!(cube_defect_site(3, 3, 3), 13);
}

#[test]
fn grid_manhattan_distances_from_centre() {
    // 3 x 3 grid, centre site 4
    assert_eq!(grid_manhattan_distances(3, 3, 4), vec![2, 1, 2, 1, 0, 1, 2, 1, 2]);
    // 2 x 3 grid from the corner
    assert_eq!(grid_manhattan_distances(2, 3, 0), vec![0, 1, 2, 1, 2, 3]);
    assert!(grid_manhattan_distances(0, 4, 0).is_empty());
    // agrees with the grid graph distance
    let shape = LatticeShape { rows: 4, cols: 5, lx: 0, ly: 0, lz: 0 };
    let d = grid_manhattan_distances(4, 5, 7);
    for s in 0..20usize {
        assert_eq!(d[s], site_graph_distance(GraphKind::Grid, s, 7, &shape));
    }
}

#[test]
fn wider_window_contains_narrower() {
    for n_chain in 1..9usize {
        for peak in 0..n_chain {
            for radius in 0..4usize {
                let small = window_sites(peak, radius, n_chain);
                let large = window_sites(peak, radius + 1, n_chain);
                assert!(small.contains(&peak));
                assert!(small.iter().all(|s| *s < n_chain && large.contains(s)));
            }
        }
    }
}
