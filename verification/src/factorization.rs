//! Search configuration and coupling-graph bookkeeping for the factorization
//! search: which qubit pairs a Hamiltonian couples, and how far apart a
//! candidate labeling puts them.

use vstd::prelude::*;
use vstd::string::*;
use crate::lattice::{GraphKind, LatticeShape, site_distance, site_distance_defined, graph_distance};
use crate::pauli::PauliOp;

verus! {

/// What the factorization search is given about the system.
#[derive(Clone, Copy, Debug, PartialEq, Eq, Structural)]
pub enum InputMode {
    Pauli,
    Spectrum,
    /// Blind search from {Eₙ} only — fits uniform TFIM spectra on each candidate line.
    EigenvaluesOnly,
}

/// How candidate labelings are enumerated.
#[derive(Clone, Copy, Debug, PartialEq, Eq, Structural)]
pub enum SearchMethod {
    Exact,
    Annealing,
    Greedy,
}

/// A two-body coupling between qubits `i` and `j`, at graph distance `dist`
/// under the labeling being scored.
#[derive(Clone, Copy, Debug, PartialEq, Eq, Structural)]
pub struct CouplingEdge {
    pub i: usize,
    pub j: usize,
    pub dist: usize,
}

/// Character-wise string equality.
pub fn str_eq(a: &str, b: &str) -> (r: bool)
    ensures
        r == (a@ == b@),
{
    let n = a.unicode_len();
    if n != b.unicode_len() {
        return false;
    }
    let mut i: usize = 0;
    while i < n
        invariant
            n == a@.len(),
            n == b@.len(),
            i <= n,
            forall|k: int| 0 <= k < i ==> a@[k] == b@[k],
        decreases n - i,
    {
        if a.get_char(i) != b.get_char(i) {
            return false;
        }
        i += 1;
    }
    assert(a@ =~= b@);
    true
}

/// `s` is present and reads `word`.
pub open spec fn option_reads(s: Option<&String>, word: Seq<char>) -> bool {
    s is Some && s.unwrap()@ == word
}

/// Input mode named in a search config (`"spectrum"`; anything else is Pauli input).
pub fn parse_input_mode(s: Option<&String>) -> (r: InputMode)
    ensures
        r == (if option_reads(s, "spectrum"@) { InputMode::Spectrum } else { InputMode::Pauli }),
{
    match s {
        Some(x) if str_eq(x.as_str(), "spectrum") => InputMode::Spectrum,
        _ => InputMode::Pauli,
    }
}

/// Search method named in a search config; by default exhaustive search for
/// up to 8 qubits and annealing beyond.
pub fn parse_search_method(s: Option<&String>, n: usize) -> (r: SearchMethod)
    ensures
        r == (if option_reads(s, "exact"@) {
            SearchMethod::Exact
        } else if option_reads(s, "greedy"@) {
            SearchMethod::Greedy
        } else if option_reads(s, "annealing"@) {
            SearchMethod::Annealing
        } else if n <= 8 {
            SearchMethod::Exact
        } else {
            SearchMethod::Annealing
        }),
{
    match s {
        Some(x) if str_eq(x.as_str(), "exact") => SearchMethod::Exact,
        Some(x) if str_eq(x.as_str(), "greedy") => SearchMethod::Greedy,
        Some(x) if str_eq(x.as_str(), "annealing") => SearchMethod::Annealing,
        _ => {
            if n <= 8 {
                SearchMethod::Exact
            } else {
                SearchMethod::Annealing
            }
        },
    }
}

/// Layout named in a search config (`"grid"`, `"torus"`, `"cube"`; anything else is a line).
pub fn parse_graph_kind(s: Option<&String>) -> (r: GraphKind)
    ensures
        r == (if option_reads(s, "grid"@) {
            GraphKind::Grid
        } else if option_reads(s, "torus"@) {
            GraphKind::Torus
        } else if option_reads(s, "cube"@) {
            GraphKind::Cube
        } else {
            GraphKind::Line
        }),
{
    match s {
        Some(x) if str_eq(x.as_str(), "grid") => GraphKind::Grid,
        Some(x) if str_eq(x.as_str(), "torus") => GraphKind::Torus,
        Some(x) if str_eq(x.as_str(), "cube") => GraphKind::Cube,
        _ => GraphKind::Line,
    }
}


/// The qubit pair of a two-body term, smaller index first; `None` for any other term.
pub open spec fn two_body(ops: Seq<PauliOp>) -> Option<(usize, usize)> {
    if ops.len() != 2 {
        None
    } else {
        let a = ops[0].qubit;
        let b = ops[1].qubit;
        Some(if a < b { (a, b) } else { (b, a) })
    }
}

/// The qubit pair a two-body Pauli term couples, smaller index first.
pub fn two_body_qubits(ops: &[PauliOp]) -> (r: Option<(usize, usize)>)
    ensures
        r == two_body(ops@),
{
    if ops.len() != 2 {
        return None;
    }
    let a = ops[0].qubit;
    let b = ops[1].qubit;
    Some(if a < b { (a, b) } else { (b, a) })
}

/// The coupling edges of the first `m` terms, each with its distance under `perm`.
pub open spec fn coupling_edges(
    terms: Seq<Seq<PauliOp>>,
    perm: Seq<usize>,
    graph: GraphKind,
    shape: LatticeShape,
    m: nat,
) -> Seq<CouplingEdge>
    decreases m,
{
    if m == 0 {
        Seq::empty()
    } else {
        let prev = coupling_edges(terms, perm, graph, shape, (m - 1) as nat);
        match two_body(terms[m - 1]) {
            Some((i, j)) => prev.push(
                CouplingEdge { i, j, dist: site_distance(graph, perm[i as int] as int, perm[j as int] as int, shape) as usize },
            ),
            None => prev,
        }
    }
}

/// Every two-body term couples qubits that `perm` places, at a computable distance.
pub open spec fn couplings_placed(terms: Seq<Seq<PauliOp>>, perm: Seq<usize>, graph: GraphKind, shape: LatticeShape) -> bool {
    forall|t: int| 0 <= t < terms.len() ==> match two_body(#[trigger] terms[t]) {
        Some((i, j)) => i < perm.len() && j < perm.len()
            && site_distance_defined(graph, perm[i as int] as int, perm[j as int] as int, shape),
        None => true,
    }
}

/// The operator lists of the given terms.
pub open spec fn term_ops(terms: Seq<Vec<PauliOp>>) -> Seq<Seq<PauliOp>> {
    terms.map_values(|t: Vec<PauliOp>| t@)
}

/// Two-body couplings of a Hamiltonian (given by the operator lists of its
/// terms) with their graph distances under the labeling `perm`.
pub fn coupling_edges_for(terms: &[Vec<PauliOp>], perm: &[usize], graph: GraphKind, shape: &LatticeShape) -> (r: Vec<CouplingEdge>)
    requires
        couplings_placed(term_ops(terms@), perm@, graph, *shape),
    ensures
        r@ == coupling_edges(term_ops(terms@), perm@, graph, *shape, terms@.len()),
{
    let ghost ts = term_ops(terms@);
    let mut edges: Vec<CouplingEdge> = Vec::new();
    let mut t: usize = 0;
    while t < terms.len()
        invariant
            ts == term_ops(terms@),
            couplings_placed(ts, perm@, graph, *shape),
            t <= terms@.len(),
            edges@ == coupling_edges(ts, perm@, graph, *shape, t as nat),
        decreases terms@.len() - t,
    {
        assert(ts[t as int] == terms@[t as int]@);
        match two_body_qubits(terms[t].as_slice()) {
            Some((i, j)) => {
                let dist = graph_distance(graph, perm, i, j, shape);
                edges.push(CouplingEdge { i, j, dist });
            },
            None => {},
        }
        t += 1;
    }
    edges
}

/// Annealing budget of the blind locality search on `n` qubits.
pub fn blind_annealing_steps(n: usize) -> (r: usize)
    requires
        600 + n * 80 <= usize::MAX,
    ensures
        r == 600 + n * 80,
{
    600 + n * 80
}

} // verus!
