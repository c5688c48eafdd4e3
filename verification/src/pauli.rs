//! Pauli strings on qubit chains: commutation, weight, and the candidate
//! stabilizer strings scanned on an excitation window.

use vstd::prelude::*;
use vstd::string::*;
use crate::text::{decimal, push_decimal};

verus! {

/// Single-qubit Pauli operator.
#[derive(Clone, Copy, Debug, PartialEq, Eq, Structural)]
pub enum PauliLetter {
    X,
    Y,
    Z,
}

/// A Pauli letter acting on one qubit.
#[derive(Clone, Copy, Debug, PartialEq, Eq, Structural)]
pub struct PauliOp {
    pub qubit: usize,
    pub letter: PauliLetter,
}

/// Two factors anticommute: they act on the same qubit with different letters.
pub open spec fn factors_anticommute(x: (usize, PauliLetter), y: (usize, PauliLetter)) -> bool {
    x.0 == y.0 && x.1 != y.1
}

/// Number of factors of `b` that anticommute with the factor `x`.
pub open spec fn row_count(x: (usize, PauliLetter), b: Seq<(usize, PauliLetter)>) -> nat
    decreases b.len(),
{
    if b.len() == 0 {
        0
    } else {
        row_count(x, b.drop_last()) + if factors_anticommute(x, b.last()) { 1nat } else { 0nat }
    }
}

/// Number of anticommuting factor pairs between the strings `a` and `b`.
pub open spec fn anticommute_pairs(a: Seq<(usize, PauliLetter)>, b: Seq<(usize, PauliLetter)>) -> nat
    decreases a.len(),
{
    if a.len() == 0 {
        0
    } else {
        anticommute_pairs(a.drop_last(), b) + row_count(a.last(), b)
    }
}

proof fn lemma_row_count_le(x: (usize, PauliLetter), b: Seq<(usize, PauliLetter)>)
    ensures
        row_count(x, b) <= b.len(),
    decreases b.len(),
{
    if b.len() > 0 {
        lemma_row_count_le(x, b.drop_last());
    }
}

proof fn lemma_pairs_le(a: Seq<(usize, PauliLetter)>, b: Seq<(usize, PauliLetter)>)
    ensures
        anticommute_pairs(a, b) <= a.len() * b.len(),
    decreases a.len(),
{
    if a.len() > 0 {
        lemma_pairs_le(a.drop_last(), b);
        lemma_row_count_le(a.last(), b);
        assert((a.len() - 1) * b.len() + b.len() == a.len() * b.len()) by (nonlinear_arith);
    }
}

/// Count of qubit-wise anticommuting factor pairs between two Pauli strings.
pub fn pauli_anticommute_count(a: &[(usize, PauliLetter)], b: &[(usize, PauliLetter)]) -> (r: usize)
    requires
        a@.len() * b@.len() <= usize::MAX,
    ensures
        r == anticommute_pairs(a@, b@),
{
    let mut count: usize = 0;
    let mut i: usize = 0;
    while i < a.len()
        invariant
            a@.len() * b@.len() <= usize::MAX,
            i <= a@.len(),
            count == anticommute_pairs(a@.subrange(0, i as int), b@),
        decreases a@.len() - i,
    {
        let (qa, la) = a[i];
        let mut row: usize = 0;
        let mut j: usize = 0;
        while j < b.len()
            invariant
                i < a@.len(),
                a@[i as int] == (qa, la),
                j <= b@.len(),
                row == row_count(a@[i as int], b@.subrange(0, j as int)),
                row <= j,
            decreases b@.len() - j,
        {
            let (qb, lb) = b[j];
            assert(b@.subrange(0, j + 1).drop_last() == b@.subrange(0, j as int));
            if qa == qb && la != lb {
                row += 1;
            }
            j += 1;
        }
        assert(b@.subrange(0, b@.len() as int) == b@);
        assert(a@.subrange(0, i + 1).drop_last() == a@.subrange(0, i as int));
        proof {
            lemma_pairs_le(a@.subrange(0, i + 1), b@);
            assert((i + 1) * b@.len() <= a@.len() * b@.len()) by (nonlinear_arith)
                requires
                    i + 1 <= a@.len(),
            ;
        }
        count = count + row;
        i += 1;
    }
    assert(a@.subrange(0, a@.len() as int) == a@);
    count
}

/// Whether two Pauli strings commute (an even number of anticommuting factor pairs).
pub fn pauli_commute(a: &[(usize, PauliLetter)], b: &[(usize, PauliLetter)]) -> (r: bool)
    requires
        a@.len() * b@.len() <= usize::MAX,
    ensures
        r == (anticommute_pairs(a@, b@) % 2 == 0),
{
    pauli_anticommute_count(a, b) % 2 == 0
}

/// Weight of a Pauli string: the number of its factors.
pub fn pauli_weight(ops: &[(usize, PauliLetter)]) -> (r: usize)
    ensures
        r == ops@.len(),
{
    ops.len()
}


proof fn lemma_pairs_push_column(a: Seq<(usize, PauliLetter)>, b: Seq<(usize, PauliLetter)>, y: (usize, PauliLetter))
    ensures
        anticommute_pairs(a, b.push(y)) == anticommute_pairs(a, b) + row_count(y, a),
    decreases a.len(),
{
    if a.len() > 0 {
        let x = a.last();
        lemma_pairs_push_column(a.drop_last(), b, y);
        assert(b.push(y).drop_last() == b);
        assert(row_count(x, b.push(y)) == row_count(x, b) + if factors_anticommute(x, y) { 1nat } else { 0nat });
        assert(row_count(y, a) == row_count(y, a.drop_last()) + if factors_anticommute(y, x) { 1nat } else { 0nat });
    }
}

proof fn lemma_pairs_empty_right(a: Seq<(usize, PauliLetter)>, b: Seq<(usize, PauliLetter)>)
    requires
        b.len() == 0,
    ensures
        anticommute_pairs(a, b) == 0,
    decreases a.len(),
{
    if a.len() > 0 {
        lemma_pairs_empty_right(a.drop_last(), b);
    }
}

/// Law: commutation of Pauli strings is symmetric — the anticommuting pairs
/// between `a` and `b` are those between `b` and `a`.
pub proof fn lemma_anticommute_symmetric(a: Seq<(usize, PauliLetter)>, b: Seq<(usize, PauliLetter)>)
    ensures
        anticommute_pairs(a, b) == anticommute_pairs(b, a),
    decreases b.len(),
{
    if b.len() == 0 {
        lemma_pairs_empty_right(a, b);
    } else {
        let y = b.last();
        lemma_anticommute_symmetric(a, b.drop_last());
        lemma_pairs_push_column(a, b.drop_last(), y);
        assert(b.drop_last().push(y) == b);
    }
}

/// Law: every Pauli string commutes with itself.
pub proof fn lemma_self_commute(a: Seq<(usize, PauliLetter)>)
    ensures
        anticommute_pairs(a, a) % 2 == 0,
    decreases a.len(),
{
    if a.len() > 0 {
        let x = a.last();
        let a0 = a.drop_last();
        lemma_self_commute(a0);
        assert(a0.push(x) == a);
        lemma_pairs_push_column(a0, a0, x);
        assert(row_count(x, a) == row_count(x, a0));
    }
}


/// Law: single-qubit Pauli factors follow the Pauli algebra — on the same
/// qubit, `X`, `Y` and `Z` pairwise anticommute and each commutes with
/// itself; factors on different qubits always commute.
pub proof fn lemma_single_qubit_commutation(q: usize, p: usize, a: PauliLetter, b: PauliLetter)
    ensures
        anticommute_pairs(seq![(q, PauliLetter::X)], seq![(q, PauliLetter::Y)]) == 1,
        anticommute_pairs(seq![(q, PauliLetter::Y)], seq![(q, PauliLetter::X)]) == 1,
        anticommute_pairs(seq![(q, PauliLetter::Y)], seq![(q, PauliLetter::Z)]) == 1,
        anticommute_pairs(seq![(q, PauliLetter::Z)], seq![(q, PauliLetter::Y)]) == 1,
        anticommute_pairs(seq![(q, PauliLetter::X)], seq![(q, PauliLetter::Z)]) == 1,
        anticommute_pairs(seq![(q, PauliLetter::Z)], seq![(q, PauliLetter::X)]) == 1,
        anticommute_pairs(seq![(q, a)], seq![(q, a)]) == 0,
        q != p ==> anticommute_pairs(seq![(q, a)], seq![(p, b)]) == 0,
{
    assert forall|x: (usize, PauliLetter), y: (usize, PauliLetter)|
        anticommute_pairs(seq![x], seq![y]) == if factors_anticommute(x, y) { 1nat } else { 0nat } by {
        assert(seq![x].drop_last() =~= Seq::<(usize, PauliLetter)>::empty());
        assert(seq![y].drop_last() =~= Seq::<(usize, PauliLetter)>::empty());
        assert(anticommute_pairs(seq![x].drop_last(), seq![y]) == 0);
        assert(row_count(x, seq![y].drop_last()) == 0);
    }
    assert(anticommute_pairs(seq![(q, PauliLetter::X)], seq![(q, PauliLetter::Y)]) == 1);
    assert(anticommute_pairs(seq![(q, PauliLetter::Y)], seq![(q, PauliLetter::X)]) == 1);
    assert(anticommute_pairs(seq![(q, PauliLetter::Y)], seq![(q, PauliLetter::Z)]) == 1);
    assert(anticommute_pairs(seq![(q, PauliLetter::Z)], seq![(q, PauliLetter::Y)]) == 1);
    assert(anticommute_pairs(seq![(q, PauliLetter::X)], seq![(q, PauliLetter::Z)]) == 1);
    assert(anticommute_pairs(seq![(q, PauliLetter::Z)], seq![(q, PauliLetter::X)]) == 1);
    assert(anticommute_pairs(seq![(q, a)], seq![(q, a)]) == 0);
    assert(anticommute_pairs(seq![(q, a)], seq![(p, b)]) == if q == p && a != b { 1nat } else { 0nat });
}

/// The letter as a character.
pub open spec fn letter_char(l: PauliLetter) -> char {
    match l {
        PauliLetter::X => 'X',
        PauliLetter::Y => 'Y',
        PauliLetter::Z => 'Z',
    }
}

/// Label of a Pauli string: each factor as its letter followed by its qubit, e.g. `Z2Z3`.
pub open spec fn ops_label(ops: Seq<(usize, PauliLetter)>) -> Seq<char>
    decreases ops.len(),
{
    if ops.len() == 0 {
        Seq::empty()
    } else {
        ops_label(ops.drop_last()) + seq![letter_char(ops.last().1)] + decimal(ops.last().0 as nat)
    }
}

/// Number of runs of `size` consecutive sites in a window of `w` sites.
pub open spec fn runs(w: nat, size: nat) -> nat {
    if w >= size { (w - size + 1) as nat } else { 0 }
}

/// Letter of the `k`-th candidate in a block that alternates `first`, `second`.
pub open spec fn alternating(k: int, first: PauliLetter, second: PauliLetter) -> PauliLetter {
    if k % 2 == 0 { first } else { second }
}

/// The candidate stabilizer strings on a window: `X q`, `Z q` on every site,
/// then `ZZ`, `XX` on every adjacent pair, then `ZZZ`, `XXX` on every triple.
pub open spec fn candidate_ops(window: Seq<usize>) -> Seq<Seq<(usize, PauliLetter)>> {
    let singles = Seq::new(2 * window.len(), |k: int|
        seq![(window[k / 2], alternating(k, PauliLetter::X, PauliLetter::Z))]);
    let pairs = Seq::new(2 * runs(window.len(), 2), |k: int|
        seq![(window[k / 2], alternating(k, PauliLetter::Z, PauliLetter::X)),
             (window[k / 2 + 1], alternating(k, PauliLetter::Z, PauliLetter::X))]);
    let triples = Seq::new(2 * runs(window.len(), 3), |k: int|
        seq![(window[k / 2], alternating(k, PauliLetter::Z, PauliLetter::X)),
             (window[k / 2 + 1], alternating(k, PauliLetter::Z, PauliLetter::X)),
             (window[k / 2 + 2], alternating(k, PauliLetter::Z, PauliLetter::X))]);
    singles + pairs + triples
}

fn letter_str(l: PauliLetter) -> (s: &'static str)
    ensures
        s@ == seq![letter_char(l)],
{
    proof {
        reveal_strlit("X");
        reveal_strlit("Y");
        reveal_strlit("Z");
    }
    match l {
        PauliLetter::X => "X",
        PauliLetter::Y => "Y",
        PauliLetter::Z => "Z",
    }
}

/// Label of a Pauli string, e.g. `X2X3X4`.
pub fn pauli_label(ops: &[(usize, PauliLetter)]) -> (s: String)
    ensures
        s@ == ops_label(ops@),
{
    let mut s = String::new();
    let mut i: usize = 0;
    while i < ops.len()
        invariant
            i <= ops@.len(),
            s@ == ops_label(ops@.subrange(0, i as int)),
        decreases ops@.len() - i,
    {
        let (q, l) = ops[i];
        s.append(letter_str(l));
        push_decimal(&mut s, q);
        assert(ops@.subrange(0, i + 1).drop_last() == ops@.subrange(0, i as int));
        i += 1;
    }
    assert(ops@.subrange(0, ops@.len() as int) == ops@);
    s
}

/// The candidate list is labeled and in the order `candidate_ops` gives.
pub open spec fn candidates_match(out: Seq<(String, Vec<(usize, PauliLetter)>)>, ops: Seq<Seq<(usize, PauliLetter)>>) -> bool {
    &&& out.len() == ops.len()
    &&& forall|k: int| 0 <= k < out.len() ==> (#[trigger] out[k]).1@ == ops[k] && out[k].0@ == ops_label(out[k].1@)
}

fn push_candidate(out: &mut Vec<(String, Vec<(usize, PauliLetter)>)>, ops: Vec<(usize, PauliLetter)>)
    ensures
        final(out)@.len() == old(out)@.len() + 1,
        forall|k: int| 0 <= k < old(out)@.len() ==> #[trigger] final(out)@[k] == old(out)@[k],
        final(out)@.last().1@ == ops@,
        final(out)@.last().0@ == ops_label(ops@),
{
    let label = pauli_label(ops.as_slice());
    out.push((label, ops));
}

/// Candidate stabilizer strings scanned on an excitation window.
pub fn candidate_strings(window: &[usize]) -> (out: Vec<(String, Vec<(usize, PauliLetter)>)>)
    ensures
        candidates_match(out@, candidate_ops(window@)),
{
    let w = window.len();
    let ghost all = candidate_ops(window@);
    let mut out: Vec<(String, Vec<(usize, PauliLetter)>)> = Vec::new();
    let mut i: usize = 0;
    while i < w
        invariant
            w == window@.len(),
            all == candidate_ops(window@),
            i <= w,
            out@.len() == 2 * i,
            forall|k: int| 0 <= k < out@.len() ==> (#[trigger] out@[k]).1@ == all[k] && out@[k].0@ == ops_label(out@[k].1@),
        decreases w - i,
    {
        let q = window[i];
        push_candidate(&mut out, vec![(q, PauliLetter::X)]);
        assert(all[2 * i] == seq![(q, PauliLetter::X)]);
        push_candidate(&mut out, vec![(q, PauliLetter::Z)]);
        assert(all[2 * i + 1] == seq![(q, PauliLetter::Z)]);
        i += 1;
    }
    let mut i: usize = 0;
    while i + 1 < w
        invariant
            w == window@.len(),
            all == candidate_ops(window@),
            i <= runs(w as nat, 2),
            out@.len() == 2 * w + 2 * i,
            forall|k: int| 0 <= k < out@.len() ==> (#[trigger] out@[k]).1@ == all[k] && out@[k].0@ == ops_label(out@[k].1@),
        decreases w - i,
    {
        let a = window[i];
        let b = window[i + 1];
        let ghost base = 2 * w + 2 * i;
        push_candidate(&mut out, vec![(a, PauliLetter::Z), (b, PauliLetter::Z)]);
        assert(all[base] == seq![(a, PauliLetter::Z), (b, PauliLetter::Z)]);
        push_candidate(&mut out, vec![(a, PauliLetter::X), (b, PauliLetter::X)]);
        assert(all[base + 1] == seq![(a, PauliLetter::X), (b, PauliLetter::X)]);
        i += 1;
    }
    let mut i: usize = 0;
    while i + 2 < w
        invariant
            w == window@.len(),
            all == candidate_ops(window@),
            i <= runs(w as nat, 3),
            out@.len() == 2 * w + 2 * runs(w as nat, 2) + 2 * i,
            forall|k: int| 0 <= k < out@.len() ==> (#[trigger] out@[k]).1@ == all[k] && out@[k].0@ == ops_label(out@[k].1@),
        decreases w - i,
    {
        let a = window[i];
        let b = window[i + 1];
        let c = window[i + 2];
        let ghost base = 2 * w + 2 * runs(w as nat, 2) + 2 * i;
        push_candidate(&mut out, vec![(a, PauliLetter::Z), (b, PauliLetter::Z), (c, PauliLetter::Z)]);
        assert(all[base] == seq![(a, PauliLetter::Z), (b, PauliLetter::Z), (c, PauliLetter::Z)]);
        push_candidate(&mut out, vec![(a, PauliLetter::X), (b, PauliLetter::X), (c, PauliLetter::X)]);
        assert(all[base + 1] == seq![(a, PauliLetter::X), (b, PauliLetter::X), (c, PauliLetter::X)]);
        i += 1;
    }
    out
}

} // verus!
