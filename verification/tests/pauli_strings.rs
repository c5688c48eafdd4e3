use mad_dog_sim::pauli::{candidate_strings, pauli_anticommute_count, pauli_commute, pauli_label, pauli_weight, PauliLetter};

#[test]
fn candidate_strings_includes_weight_3_triples() {
    let window = vec![2usize, 3, 4, 5];
    let strings = candidate_strings(&window);
    let labels: Vec<&str> = strings.iter().map(|(l, _)| l.as_str()).collect();
    assert!(labels.contains(&"Z2Z3Z4"), "ZZZ triple missing");
    assert!(labels.contains(&"X2X3X4"), "XXX triple missing");
    assert!(labels.contains(&"Z3Z4Z5"), "ZZZ triple at offset missing");
    // Weight-3 triples should have exactly 3 ops
    for (label, ops) in &strings {
        if label.starts_with('Z') && label.len() > 4 {
            assert!(ops.len() <= 3, "unexpected op count for {label}");
        }
    }
}

#[test]
fn candidate_strings_order_and_count() {
    let strings = candidate_strings(&[7, 10, 11]);
    let labels: Vec<&str> = strings.iter().map(|(l, _)| l.as_str()).collect();
    assert_eq!(
        labels,
        vec!["X7", "Z7", "X10", "Z10", "X11", "Z11", "Z7Z10", "X7X10", "Z10Z11", "X10X11", "Z7Z10Z11", "X7X10X11"]
    );
    assert_eq!(strings[7].1, vec![(7, PauliLetter::X), (10, PauliLetter::X)]);
    assert!(candidate_strings(&[]).is_empty());
    assert_eq!(candidate_strings(&[0]).len(), 2);
}

#[test]
fn anticommutation_counts() {
    let xz = vec![(0usize, PauliLetter::X), (1, PauliLetter::Z)];
    let zx = vec![(0usize, PauliLetter::Z), (1, PauliLetter::X)];
    let zz = vec![(0usize, PauliLetter::Z), (1, PauliLetter::Z)];
    assert_eq!(pauli_anticommute_count(&xz, &zx), 2);
    assert!(pauli_commute(&xz, &zx));
    assert_eq!(pauli_anticommute_count(&xz, &zz), 1);
    assert_eq!(pauli_anticommute_count(&zz, &xz), 1);
    assert!(!pauli_commute(&xz, &zz));
    assert!(pauli_commute(&xz, &xz));
    let y = vec![(3usize, PauliLetter::Y)];
    assert_eq!(pauli_anticommute_count(&y, &zz), 0);
}

#[test]
fn weight_and_label() {
    let ops = vec![(12usize, PauliLetter::Y), (0, PauliLetter::X)];
    assert_eq!(pauli_weight(&ops), 2);
    assert_eq!(pauli_label(&ops), "Y12X0");
}
