//! T′ and I′ hold-outs: decoherence quench on a TFIM chain with one
//! environment qubit. T′ correlates the environment's Born weights with the
//! overlap of the two chain branches; I′ runs the stabilizer search on the
//! branch-resolved excitation window. The quench is simulated here in
//! floating point; the candidate strings, their commutation, the generator
//! choice, the code distance, the excitation window and the hold-out
//! bookkeeping come from the library.

use mad_dog_sim::holdout::{
    born_holdout_grid, eval_i_prime_holdout, eval_t_prime_holdout, stab_holdout_grid, BornHoldoutCase,
    StabHoldoutCase,
};
use mad_dog_sim::pauli::{candidate_strings, PauliLetter, PauliOp};
use mad_dog_sim::rng::Rng;
use mad_dog_sim::sites::window_sites;
use mad_dog_sim::stabilizer::{
    code_distance_from, distance_scales, qecc_parameters, select_commuting_generators, stabilizer_found,
};

#[derive(Clone)]
struct State {
    n: usize,
    dim: usize,
    data: Vec<f64>,
}

impl State {
    fn zero(n: usize) -> Self {
        let dim = 1usize << n;
        State { n, dim, data: vec![0.0; 2 * dim] }
    }

    fn norm(&self) -> f64 {
        let mut sum = 0.0;
        for i in 0..self.dim {
            let re = self.data[2 * i];
            let im = self.data[2 * i + 1];
            sum += re * re + im * im;
        }
        sum.sqrt()
    }

    fn normalize(&mut self) {
        let nrm = self.norm();
        if nrm < 1e-300 {
            return;
        }
        let inv = 1.0 / nrm;
        for v in &mut self.data {
            *v *= inv;
        }
    }
}

fn uniform(rng: &mut Rng) -> f64 {
    (rng.next_u32() as f64) / 4294967296.0
}

fn make_random_state(n: usize, rng: &mut Rng) -> State {
    let mut state = State::zero(n);
    for i in 0..state.dim {
        let u1 = uniform(rng).max(1e-12);
        let u2 = uniform(rng);
        let mag = (-2.0 * u1.ln()).sqrt();
        state.data[2 * i] = mag * (2.0 * std::f64::consts::PI * u2).cos();
        state.data[2 * i + 1] = mag * (2.0 * std::f64::consts::PI * u2).sin();
    }
    state.normalize();
    state
}

#[derive(Clone)]
struct Term {
    coeff: f64,
    ops: Vec<PauliOp>,
}

fn apply_pauli_term(term: &Term, data: &[f64], dim: usize, out: &mut [f64]) {
    let coeff = term.coeff;
    for s in 0..dim {
        let mut target = s;
        let mut pr = 1.0;
        let mut pi = 0.0;
        for op in &term.ops {
            let bit = (s >> op.qubit) & 1;
            match op.letter {
                PauliLetter::X => {
                    target ^= 1 << op.qubit;
                }
                PauliLetter::Y => {
                    target ^= 1 << op.qubit;
                    let fi = if bit == 0 { 1.0 } else { -1.0 };
                    let npr = -pi * fi;
                    let npi = pr * fi;
                    pr = npr;
                    pi = npi;
                }
                PauliLetter::Z => {
                    if bit == 1 {
                        pr = -pr;
                        pi = -pi;
                    }
                }
            }
        }
        let ar = data[2 * s];
        let ai = data[2 * s + 1];
        let cr = coeff * pr;
        let ci = coeff * pi;
        out[2 * target] += cr * ar - ci * ai;
        out[2 * target + 1] += cr * ai + ci * ar;
    }
}

fn apply_tfim_term_into(term: &Term, data: &[f64], dim: usize, out: &mut [f64]) {
    let coeff = term.coeff;
    if term.ops.len() == 1 {
        let mask = 1usize << term.ops[0].qubit;
        for s in 0..dim {
            let t = s ^ mask;
            out[2 * t] += coeff * data[2 * s];
            out[2 * t + 1] += coeff * data[2 * s + 1];
        }
    } else if term.ops.len() == 2
        && term.ops[0].letter == PauliLetter::Z
        && term.ops[1].letter == PauliLetter::Z
    {
        let q1 = term.ops[0].qubit;
        let q2 = term.ops[1].qubit;
        for s in 0..dim {
            let b1 = (s >> q1) & 1;
            let b2 = (s >> q2) & 1;
            let phase = if b1 == b2 { 1.0 } else { -1.0 };
            out[2 * s] += coeff * phase * data[2 * s];
            out[2 * s + 1] += coeff * phase * data[2 * s + 1];
        }
    } else {
        apply_pauli_term(term, data, dim, out);
    }
}

struct Hamiltonian {
    n: usize,
    terms: Vec<Term>,
}

impl Hamiltonian {
    fn is_tfim_like(&self) -> bool {
        self.terms.iter().all(|term| {
            (term.ops.len() == 1 && term.ops[0].letter == PauliLetter::X)
                || (term.ops.len() == 2
                    && term.ops[0].letter == PauliLetter::Z
                    && term.ops[1].letter == PauliLetter::Z)
        })
    }

    fn apply_into_raw(&self, data: &[f64], dim: usize, out: &mut [f64]) {
        out.fill(0.0);
        if self.is_tfim_like() {
            for term in &self.terms {
                apply_tfim_term_into(term, data, dim, out);
            }
        } else {
            for term in &self.terms {
                apply_pauli_term(term, data, dim, out);
            }
        }
    }

    fn spectral_radius(&self, rng: &mut Rng) -> f64 {
        let mut v = make_random_state(self.n, rng);
        let mut h_psi = vec![0.0; 2 * v.dim];
        let mut lambda = 0.0;
        for _ in 0..30 {
            self.apply_into_raw(&v.data, v.dim, &mut h_psi);
            lambda = h_psi.chunks(2).fold(0.0, |acc, c| acc + c[0] * c[0] + c[1] * c[1]).sqrt();
            if lambda < 1e-300 {
                break;
            }
            let inv = 1.0 / lambda;
            for (i, chunk) in h_psi.chunks(2).enumerate() {
                v.data[2 * i] = chunk[0] * inv;
                v.data[2 * i + 1] = chunk[1] * inv;
            }
        }
        f64::max(lambda, 1e-6)
    }
}

fn op(qubit: usize, letter: PauliLetter) -> PauliOp {
    PauliOp { qubit, letter }
}

fn tfim_chain_terms(n: usize, j: f64, h: f64) -> Vec<Term> {
    let mut terms = Vec::new();
    for i in 0..(n - 1) {
        terms.push(Term { coeff: -j, ops: vec![op(i, PauliLetter::Z), op(i + 1, PauliLetter::Z)] });
    }
    for i in 0..n {
        terms.push(Term { coeff: -h, ops: vec![op(i, PauliLetter::X)] });
    }
    terms
}

fn chain_plus_env_hamiltonian(n_chain: usize, env_q: usize, chain: &[Term], g: f64) -> Hamiltonian {
    let mut terms = chain.to_vec();
    if g.abs() > 1e-12 {
        let mid = n_chain / 2;
        for i in 0..mid {
            terms.push(Term { coeff: -g * 0.5, ops: vec![op(i, PauliLetter::Z), op(env_q, PauliLetter::X)] });
        }
        for i in (mid + 1)..n_chain {
            terms.push(Term { coeff: g * 0.5, ops: vec![op(i, PauliLetter::Z), op(env_q, PauliLetter::X)] });
        }
        if mid > 0 {
            terms.push(Term { coeff: -g, ops: vec![op(mid - 1, PauliLetter::Z), op(env_q, PauliLetter::X)] });
        }
        if mid + 1 < n_chain {
            terms.push(Term { coeff: g, ops: vec![op(mid + 1, PauliLetter::Z), op(env_q, PauliLetter::X)] });
        }
    }
    Hamiltonian { n: n_chain + 1, terms }
}

fn apply_cnot(state: &mut State, control: usize, target: usize) {
    let mut out = vec![0.0; 2 * state.dim];
    for s in 0..state.dim {
        let dst = if (s >> control) & 1 == 1 { s ^ (1 << target) } else { s };
        out[2 * dst] = state.data[2 * s];
        out[2 * dst + 1] = state.data[2 * s + 1];
    }
    state.data.copy_from_slice(&out);
}

fn multiply_minus_i(data: &[f64], factor: f64, out: &mut [f64]) {
    for i in 0..(data.len() / 2) {
        let a = data[2 * i];
        let b = data[2 * i + 1];
        out[2 * i] = factor * b;
        out[2 * i + 1] = -factor * a;
    }
}

fn evolve_interval_inplace(h: &Hamiltonian, psi: &mut State, dt: f64, radius: f64, h_psi: &mut Vec<f64>, term: &mut Vec<f64>) {
    let sub = ((dt.abs() * radius) / 0.2).ceil().max(1.0) as usize;
    let micro = dt / sub as f64;
    for _ in 0..sub {
        term.copy_from_slice(&psi.data);
        for m in 1..=6usize {
            h.apply_into_raw(term, psi.dim, h_psi);
            multiply_minus_i(h_psi, micro / m as f64, term);
            for i in 0..psi.data.len() {
                psi.data[i] += term[i];
            }
        }
    }
}

/// Quench the chain with the defect at its centre, couple the environment
/// qubit from `couple_step` on, and return (state, chain sites, env qubit).
fn decoherence_final_state(n: usize, field: f64, dt: f64, steps: usize, couple_step: usize, coupling: f64, seed: u32) -> (State, usize, usize) {
    let n_chain = n.max(4);
    let env_q = n_chain;
    let couple_step = couple_step.min(steps.saturating_sub(1));
    let center = n_chain / 2;
    let chain = tfim_chain_terms(n_chain, 1.0, field);
    let mut psi = State::zero(n_chain + 1);
    psi.data[2 * (1usize << center)] = 1.0;
    let mut rng = Rng::new(seed);
    let h_free = chain_plus_env_hamiltonian(n_chain, env_q, &chain, 0.0);
    let h_coupled = chain_plus_env_hamiltonian(n_chain, env_q, &chain, coupling);
    let radius = h_coupled.spectral_radius(&mut rng);
    let mut h_psi = vec![0.0; 2 * psi.dim];
    let mut term = vec![0.0; 2 * psi.dim];
    for k in 0..steps {
        let h = if k >= couple_step { &h_coupled } else { &h_free };
        evolve_interval_inplace(h, &mut psi, dt, radius, &mut h_psi, &mut term);
        if k + 1 == couple_step {
            apply_cnot(&mut psi, center, env_q);
        }
    }
    (psi, n_chain, env_q)
}

fn env_branch_weights(state: &State, env_q: usize) -> (f64, f64) {
    let mut p0 = 0.0;
    let mut p1 = 0.0;
    for s in 0..state.dim {
        let re = state.data[2 * s];
        let im = state.data[2 * s + 1];
        let prob = re * re + im * im;
        if (s >> env_q) & 1 == 0 {
            p0 += prob;
        } else {
            p1 += prob;
        }
    }
    (p0, p1)
}

fn chain_conditional_state(state: &State, n_chain: usize, env_q: usize, env_bit: usize) -> State {
    let mut out = State::zero(n_chain);
    for chain_idx in 0..(1usize << n_chain) {
        let full_idx = chain_idx | (env_bit << env_q);
        out.data[2 * chain_idx] = state.data[2 * full_idx];
        out.data[2 * chain_idx + 1] = state.data[2 * full_idx + 1];
    }
    out.normalize();
    out
}

fn expectation_z(state: &State, q: usize) -> f64 {
    let mut sum = 0.0;
    for s in 0..state.dim {
        let sign = if (s >> q) & 1 == 1 { -1.0 } else { 1.0 };
        let re = state.data[2 * s];
        let im = state.data[2 * s + 1];
        sum += sign * (re * re + im * im);
    }
    sum
}

fn expectation_x(state: &State, q: usize) -> f64 {
    let mask = 1 << q;
    let mut sum = 0.0;
    for s in 0..state.dim {
        if (s & mask) != 0 {
            continue;
        }
        let t = s | mask;
        sum += 2.0 * (state.data[2 * s] * state.data[2 * t] + state.data[2 * s + 1] * state.data[2 * t + 1]);
    }
    sum
}

fn mixed_expectation(psi: &State, n_chain: usize, env_q: usize, q: usize, letter: PauliLetter) -> f64 {
    let (p0, p1) = env_branch_weights(psi, env_q);
    let c0 = chain_conditional_state(psi, n_chain, env_q, 0);
    let c1 = chain_conditional_state(psi, n_chain, env_q, 1);
    match letter {
        PauliLetter::X => p0 * expectation_x(&c0, q) + p1 * expectation_x(&c1, q),
        _ => p0 * expectation_z(&c0, q) + p1 * expectation_z(&c1, q),
    }
}

/// ⟨ψ|P|ψ⟩ for a Pauli string P.
fn pauli_expectation(state: &State, ops: &[(usize, PauliLetter)]) -> f64 {
    let term = Term { coeff: 1.0, ops: ops.iter().map(|&(q, l)| op(q, l)).collect() };
    let mut out = vec![0.0; 2 * state.dim];
    apply_pauli_term(&term, &state.data, state.dim, &mut out);
    let mut re = 0.0;
    for i in 0..state.dim {
        re += state.data[2 * i] * out[2 * i] + state.data[2 * i + 1] * out[2 * i + 1];
    }
    re
}

fn mixed_pauli_expectation(psi: &State, n_chain: usize, env_q: usize, ops: &[(usize, PauliLetter)]) -> f64 {
    match ops.len() {
        0 => 1.0,
        1 => match ops[0].1 {
            PauliLetter::X => mixed_expectation(psi, n_chain, env_q, ops[0].0, PauliLetter::X),
            PauliLetter::Z => mixed_expectation(psi, n_chain, env_q, ops[0].0, PauliLetter::Z),
            PauliLetter::Y => 0.0,
        },
        2 if ops[0].1 == ops[1].1 => {
            mixed_pauli_expectation(psi, n_chain, env_q, &[ops[0]]) * mixed_pauli_expectation(psi, n_chain, env_q, &[ops[1]])
        }
        3 if ops[0].1 == ops[1].1 && ops[1].1 == ops[2].1 => {
            let e0 = mixed_pauli_expectation(psi, n_chain, env_q, &[ops[0]]);
            let e1 = mixed_pauli_expectation(psi, n_chain, env_q, &[ops[1]]);
            let e2 = mixed_pauli_expectation(psi, n_chain, env_q, &[ops[2]]);
            e0 * e1 * e2
        }
        _ => 0.0,
    }
}

/// (accepted as a generator, weak on both branches)
fn classify(psi: &State, n_chain: usize, env_q: usize, b0: &State, b1: &State, ops: &[(usize, PauliLetter)]) -> (bool, bool) {
    let em = mixed_pauli_expectation(psi, n_chain, env_q, ops);
    let e0 = pauli_expectation(b0, ops);
    let e1 = pauli_expectation(b1, ops);
    let sharpens = e0.abs() > em.abs() + 0.02 && e1.abs() > em.abs() + 0.02;
    let agrees = (e0 - e1).abs() < 0.25;
    let strong = e0.abs() > 0.07 && e1.abs() > 0.07;
    (sharpens && agrees && strong, e0.abs() < 0.55 && e1.abs() < 0.55)
}

/// (generator count, code distance)
fn search_stabilizers(psi: &State, n_chain: usize, env_q: usize, b0: &State, b1: &State, window: &[usize]) -> (usize, usize) {
    if window.is_empty() {
        return (0, 0);
    }
    let cands = candidate_strings(window);
    let mut accepted = Vec::new();
    let mut weak = Vec::new();
    for (_, ops) in &cands {
        let (ok, is_weak) = classify(psi, n_chain, env_q, b0, b1, ops);
        accepted.push(ok);
        weak.push(is_weak);
    }
    let chosen = select_commuting_generators(&cands, &accepted);
    let distance = code_distance_from(&cands, &chosen, &weak, window.len());
    (chosen.len(), distance)
}

/// The decohered quench of the stabilizer demo at `coupling`, its two chain
/// branches and the excitation peak: (state, chain sites, env qubit, branch 0,
/// branch 1, peak site).
fn branch_states(coupling: f64) -> (State, usize, usize, State, State, usize) {
    let (psi, n_chain, env_q) = decoherence_final_state(8, 1.2, 0.2, 22, 7, coupling, 4242);
    let mut peak: usize = 0;
    let mut best_val = -1.0_f64;
    for q in 0..n_chain {
        let v = mixed_expectation(&psi, n_chain, env_q, q, PauliLetter::Z).abs();
        if v > best_val {
            best_val = v;
            peak = q;
        }
    }
    let b0 = chain_conditional_state(&psi, n_chain, env_q, 0);
    let b1 = chain_conditional_state(&psi, n_chain, env_q, 1);
    (psi, n_chain, env_q, b0, b1, peak)
}

fn i_prime_passes(case: StabHoldoutCase) -> bool {
    let coupling = case.coupling_hundredths as f64 / 100.0;
    let (psi, n_chain, env_q, b0, b1, peak) = branch_states(coupling);
    let window = window_sites(peak, case.window_radius, n_chain);
    let (count, distance) = search_stabilizers(&psi, n_chain, env_q, &b0, &b1, &window);
    let found = stabilizer_found(count, distance);
    let small_w = window_sites(peak, case.window_radius, n_chain);
    let large_w = window_sites(peak, case.window_radius + 1, n_chain);
    let small = search_stabilizers(&psi, n_chain, env_q, &b0, &b1, &small_w);
    let large = search_stabilizers(&psi, n_chain, env_q, &b0, &b1, &large_w);
    let scales = distance_scales(small, large);
    found && scales
}

#[test]
fn i_prime_holdout_grid_passes() {
    let outcomes: Vec<bool> = stab_holdout_grid().into_iter().map(i_prime_passes).collect();
    let eval = eval_i_prime_holdout(&outcomes);
    assert!(eval.all_passed(), "I′ hold-out failed: {}", eval.summary());
}

/// |⟨c0|c1⟩|² of two chain branches.
fn branch_overlap(c0: &State, c1: &State) -> f64 {
    let mut re = 0.0;
    let mut im = 0.0;
    for i in 0..c0.dim {
        re += c0.data[2 * i] * c1.data[2 * i] + c0.data[2 * i + 1] * c1.data[2 * i + 1];
        im += c0.data[2 * i + 1] * c1.data[2 * i] - c0.data[2 * i] * c1.data[2 * i + 1];
    }
    re * re + im * im
}

fn rank_values(values: &[f64]) -> Vec<f64> {
    let n = values.len();
    let mut order: Vec<(f64, usize)> = values.iter().copied().enumerate().map(|(i, v)| (v, i)).collect();
    order.sort_by(|a, b| a.0.partial_cmp(&b.0).unwrap_or(std::cmp::Ordering::Equal));
    let mut ranks = vec![0.0; n];
    let mut i: usize = 0;
    while i < n {
        let mut j: usize = i + 1;
        while j < n && (order[j].0 - order[i].0).abs() < 1e-12 {
            j += 1;
        }
        let avg_rank = (i + j - 1) as f64 / 2.0 + 1.0;
        for k in i..j {
            ranks[order[k].1] = avg_rank;
        }
        i = j;
    }
    ranks
}

fn spearman_corr(a: &[f64], b: &[f64]) -> f64 {
    if a.len() != b.len() || a.len() < 2 {
        return 1.0;
    }
    let ra = rank_values(a);
    let rb = rank_values(b);
    let mean_a = ra.iter().sum::<f64>() / ra.len() as f64;
    let mean_b = rb.iter().sum::<f64>() / rb.len() as f64;
    let mut num = 0.0;
    let mut den_a = 0.0;
    let mut den_b = 0.0;
    for i in 0..ra.len() {
        let da = ra[i] - mean_a;
        let db = rb[i] - mean_b;
        num += da * db;
        den_a += da * da;
        den_b += db * db;
    }
    let den = (den_a * den_b).sqrt();
    if den < 1e-12 { 1.0 } else { num / den }
}

/// Born weights of the environment against the branch overlap, over a sweep
/// of couplings: consistent when the branch entropy anti-correlates with the
/// overlap or the weight imbalance tracks it.
fn t_prime_passes(case: BornHoldoutCase) -> bool {
    let field = case.field_tenths as f64 / 10.0;
    let couplings = [0.35, 0.55, 0.7, 0.85, 0.95];
    let mut imbalances = Vec::new();
    let mut overlaps = Vec::new();
    let mut entropies = Vec::new();
    for &coupling in &couplings {
        let (psi, n_chain, env_q) = decoherence_final_state(case.n, field, 0.2, 22, case.couple_step, coupling, 4242);
        let (p0, p1) = env_branch_weights(&psi, env_q);
        let b0 = chain_conditional_state(&psi, n_chain, env_q, 0);
        let b1 = chain_conditional_state(&psi, n_chain, env_q, 1);
        overlaps.push(branch_overlap(&b0, &b1));
        imbalances.push((p0 - p1).abs());
        let mut s = 0.0;
        for pi in [p0, p1] {
            if pi > 1e-9 {
                s -= pi * pi.ln();
            }
        }
        entropies.push(s);
    }
    let imbalance_overlap_corr = spearman_corr(&imbalances, &overlaps);
    let entropy_overlap_corr = spearman_corr(&entropies, &overlaps);
    entropy_overlap_corr < -0.35 || imbalance_overlap_corr.abs() > 0.55
}

#[test]
fn t_prime_holdout_grid_passes() {
    let outcomes: Vec<bool> = born_holdout_grid().into_iter().map(t_prime_passes).collect();
    let eval = eval_t_prime_holdout(&outcomes);
    assert!(eval.all_passed(), "T′ hold-out failed: {}", eval.summary());
}

#[test]
fn finds_stabilizer_generators_on_branch_window() {
    let (psi, n_chain, env_q, b0, b1, peak) = branch_states(0.9);
    let window = window_sites(peak, 2, n_chain);
    let (count, distance) = search_stabilizers(&psi, n_chain, env_q, &b0, &b1, &window);
    assert!(stabilizer_found(count, distance), "generators={} distance={}", count, distance);
}

#[test]
fn weight_3_candidates_evaluated_without_panic() {
    let (psi, n_chain, env_q, b0, b1, peak) = branch_states(0.9);
    let window = window_sites(peak, 2, n_chain);
    assert!(window.len() >= 3, "window too small for weight-3 test");
    let cands = candidate_strings(&window);
    assert!(cands.iter().any(|(_, ops)| ops.len() == 3));
    let (count, distance) = search_stabilizers(&psi, n_chain, env_q, &b0, &b1, &window);
    assert!(stabilizer_found(count, distance), "lost stabilizer after adding weight-3 candidates");
}

#[test]
fn code_label_format() {
    let (psi, n_chain, env_q, b0, b1, peak) = branch_states(0.9);
    let window = window_sites(peak, 2, n_chain);
    let (count, distance) = search_stabilizers(&psi, n_chain, env_q, &b0, &b1, &window);
    let (k, label) = qecc_parameters(window.len(), count, distance);
    assert!(label.starts_with("[["), "label: {}", label);
    assert_eq!(label, format!("[[{},{},{}]]", window.len(), k, distance));
}
