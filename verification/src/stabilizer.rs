//! Combinatorial core of the Pauli-group stabilizer search: greedy choice of a
//! commuting generator set among accepted candidates, and the code distance
//! read off the remaining commuting candidates.

use vstd::prelude::*;
use vstd::string::*;
use crate::pauli::{PauliLetter, anticommute_pairs, pauli_commute};
use crate::text::{decimal, push_decimal};

verus! {

/// Candidate strings with their labels, as `candidate_strings` produces them.
pub type Candidates = [(String, Vec<(usize, PauliLetter)>)];

/// Pauli string of candidate `k`.
pub open spec fn cand_ops(cands: Seq<(String, Vec<(usize, PauliLetter)>)>, k: int) -> Seq<(usize, PauliLetter)> {
    cands[k].1@
}

/// Candidates `a` and `b` commute.
pub open spec fn cands_commute(cands: Seq<(String, Vec<(usize, PauliLetter)>)>, a: int, b: int) -> bool {
    anticommute_pairs(cand_ops(cands, a), cand_ops(cands, b)) % 2 == 0
}

/// Every pair of candidate strings can be compared without overflow.
pub open spec fn sizes_ok(cands: Seq<(String, Vec<(usize, PauliLetter)>)>) -> bool {
    forall|a: int, b: int| 0 <= a < cands.len() && 0 <= b < cands.len() ==>
        #[trigger] cand_ops(cands, a).len() * #[trigger] cand_ops(cands, b).len() <= usize::MAX
}

/// Indices chosen by the greedy scan of the first `m` candidates: a candidate
/// is taken when it is accepted and commutes with every one taken before it.
pub open spec fn greedy_generators(cands: Seq<(String, Vec<(usize, PauliLetter)>)>, accepted: Seq<bool>, m: nat) -> Seq<usize>
    decreases m,
{
    if m == 0 {
        Seq::empty()
    } else {
        let prev = greedy_generators(cands, accepted, (m - 1) as nat);
        if accepted[m - 1] && forall|g: int| 0 <= g < prev.len() ==> #[trigger] cands_commute(cands, prev[g] as int, m - 1) {
            prev.push((m - 1) as usize)
        } else {
            prev
        }
    }
}

/// Whether candidate `k` commutes with every chosen generator.
fn commutes_with_all(cands: &Candidates, chosen: &Vec<usize>, k: usize) -> (r: bool)
    requires
        sizes_ok(cands@),
        k < cands@.len(),
        forall|g: int| 0 <= g < chosen@.len() ==> #[trigger] chosen@[g] < cands@.len(),
    ensures
        r == forall|g: int| 0 <= g < chosen@.len() ==> #[trigger] cands_commute(cands@, chosen@[g] as int, k as int),
{
    let mut i: usize = 0;
    while i < chosen.len()
        invariant
            sizes_ok(cands@),
            k < cands@.len(),
            forall|g: int| 0 <= g < chosen@.len() ==> #[trigger] chosen@[g] < cands@.len(),
            i <= chosen@.len(),
            forall|g: int| 0 <= g < i ==> #[trigger] cands_commute(cands@, chosen@[g] as int, k as int),
        decreases chosen@.len() - i,
    {
        let g = chosen[i];
        assert(cand_ops(cands@, g as int).len() * cand_ops(cands@, k as int).len() <= usize::MAX);
        if !pauli_commute(cands[g].1.as_slice(), cands[k].1.as_slice()) {
            assert(!cands_commute(cands@, chosen@[i as int] as int, k as int));
            return false;
        }
        i += 1;
    }
    true
}

/// Greedy commuting generator set: scanning the candidates in order, keep each
/// accepted one that commutes with all kept so far.
pub fn select_commuting_generators(cands: &Candidates, accepted: &[bool]) -> (chosen: Vec<usize>)
    requires
        sizes_ok(cands@),
        accepted@.len() == cands@.len(),
    ensures
        chosen@ == greedy_generators(cands@, accepted@, cands@.len()),
{
    let mut chosen: Vec<usize> = Vec::new();
    let mut k: usize = 0;
    while k < cands.len()
        invariant
            sizes_ok(cands@),
            accepted@.len() == cands@.len(),
            k <= cands@.len(),
            chosen@ == greedy_generators(cands@, accepted@, k as nat),
            forall|g: int| 0 <= g < chosen@.len() ==> #[trigger] chosen@[g] < k,
        decreases cands@.len() - k,
    {
        if accepted[k] && commutes_with_all(cands, &chosen, k) {
            chosen.push(k);
        }
        k += 1;
    }
    chosen
}

/// Whether the greedy scan keeps candidate `m - 1` after the first `m - 1`.
pub open spec fn greedy_keeps(cands: Seq<(String, Vec<(usize, PauliLetter)>)>, accepted: Seq<bool>, m: nat) -> bool {
    let prev = greedy_generators(cands, accepted, (m - 1) as nat);
    accepted[m - 1] && forall|g: int| 0 <= g < prev.len() ==> #[trigger] cands_commute(cands, prev[g] as int, m - 1)
}

proof fn lemma_greedy_step(cands: Seq<(String, Vec<(usize, PauliLetter)>)>, accepted: Seq<bool>, m: nat)
    requires
        m > 0,
    ensures
        greedy_generators(cands, accepted, m) == if greedy_keeps(cands, accepted, m) {
            greedy_generators(cands, accepted, (m - 1) as nat).push((m - 1) as usize)
        } else {
            greedy_generators(cands, accepted, (m - 1) as nat)
        },
{
}

proof fn lemma_greedy_below(cands: Seq<(String, Vec<(usize, PauliLetter)>)>, accepted: Seq<bool>, m: nat)
    requires
        m <= usize::MAX,
    ensures
        forall|g: int| 0 <= g < greedy_generators(cands, accepted, m).len() ==>
            #[trigger] greedy_generators(cands, accepted, m)[g] < m,
        forall|g: int, h: int| 0 <= g < h < greedy_generators(cands, accepted, m).len() ==>
            #[trigger] greedy_generators(cands, accepted, m)[g] < #[trigger] greedy_generators(cands, accepted, m)[h],
    decreases m,
{
    if m > 0 {
        lemma_greedy_below(cands, accepted, (m - 1) as nat);
        lemma_greedy_step(cands, accepted, m);
        let prev = greedy_generators(cands, accepted, (m - 1) as nat);
        let cur = greedy_generators(cands, accepted, m);
        if greedy_keeps(cands, accepted, m) {
            assert forall|g: int| 0 <= g < cur.len() implies #[trigger] cur[g] < m by {
                if g < prev.len() {
                    assert(cur[g] == prev[g]);
                }
            }
            assert forall|g: int, h: int| 0 <= g < h < cur.len() implies #[trigger] cur[g] < #[trigger] cur[h] by {
                assert(cur[g] == prev[g]);
                if h < prev.len() {
                    assert(cur[h] == prev[h]);
                }
            }
        }
    }
}

/// Law: the generators the greedy scan keeps are accepted candidates, listed
/// in increasing order, and every two of them commute.
pub proof fn lemma_greedy_generators_commute(cands: Seq<(String, Vec<(usize, PauliLetter)>)>, accepted: Seq<bool>, m: nat)
    requires
        m <= cands.len(),
        m <= accepted.len(),
        m <= usize::MAX,
    ensures
        forall|g: int| 0 <= g < greedy_generators(cands, accepted, m).len() ==>
            accepted[#[trigger] greedy_generators(cands, accepted, m)[g] as int],
        forall|g: int, h: int| 0 <= g < h < greedy_generators(cands, accepted, m).len() ==> {
            &&& #[trigger] greedy_generators(cands, accepted, m)[g] < #[trigger] greedy_generators(cands, accepted, m)[h]
            &&& cands_commute(cands, greedy_generators(cands, accepted, m)[g] as int, greedy_generators(cands, accepted, m)[h] as int)
            &&& cands_commute(cands, greedy_generators(cands, accepted, m)[h] as int, greedy_generators(cands, accepted, m)[g] as int)
        },
    decreases m,
{
    lemma_greedy_below(cands, accepted, m);
    if m > 0 {
        lemma_greedy_generators_commute(cands, accepted, (m - 1) as nat);
        lemma_greedy_step(cands, accepted, m);
        let prev = greedy_generators(cands, accepted, (m - 1) as nat);
        let cur = greedy_generators(cands, accepted, m);
        if greedy_keeps(cands, accepted, m) {
            let last = (m - 1) as usize;
            assert(cur == prev.push(last));
            assert forall|g: int| 0 <= g < prev.len() implies
                #[trigger] cands_commute(cands, prev[g] as int, m - 1) && cands_commute(cands, m - 1, prev[g] as int) by {
                crate::pauli::lemma_anticommute_symmetric(cand_ops(cands, prev[g] as int), cand_ops(cands, m - 1));
            }
            assert forall|g: int| 0 <= g < cur.len() implies accepted[#[trigger] cur[g] as int] by {
                if g < prev.len() {
                    assert(cur[g] == prev[g]);
                }
            }
            assert forall|g: int, h: int| 0 <= g < h < cur.len() implies {
                &&& #[trigger] cur[g] < #[trigger] cur[h]
                &&& cands_commute(cands, cur[g] as int, cur[h] as int)
                &&& cands_commute(cands, cur[h] as int, cur[g] as int)
            } by {
                assert(cur[g] == prev[g]);
                if h < prev.len() {
                    assert(cur[h] == prev[h]);
                } else {
                    assert(cur[h] == last);
                    assert(cands_commute(cands, prev[g] as int, m - 1));
                }
            }
        }
    }
}

/// The scan of the first `k` candidates is a prefix of the scan of the first
/// `m`, and whatever the longer scan adds comes from candidates `k..m`.
proof fn lemma_greedy_prefix(cands: Seq<(String, Vec<(usize, PauliLetter)>)>, accepted: Seq<bool>, k: nat, m: nat)
    requires
        k <= m <= usize::MAX,
    ensures
        greedy_generators(cands, accepted, k).len() <= greedy_generators(cands, accepted, m).len(),
        forall|g: int| 0 <= g < greedy_generators(cands, accepted, k).len() ==>
            #[trigger] greedy_generators(cands, accepted, m)[g] == greedy_generators(cands, accepted, k)[g],
        forall|g: int| greedy_generators(cands, accepted, k).len() <= g < greedy_generators(cands, accepted, m).len() ==>
            #[trigger] greedy_generators(cands, accepted, m)[g] >= k,
    decreases m - k,
{
    if k < m {
        lemma_greedy_prefix(cands, accepted, k, (m - 1) as nat);
        lemma_greedy_step(cands, accepted, m);
        lemma_greedy_below(cands, accepted, (m - 1) as nat);
        let prev = greedy_generators(cands, accepted, (m - 1) as nat);
        let cur = greedy_generators(cands, accepted, m);
        let short = greedy_generators(cands, accepted, k);
        assert forall|g: int| 0 <= g < short.len() implies #[trigger] cur[g] == short[g] by {
            assert(cur[g] == prev[g]);
        }
        assert forall|g: int| short.len() <= g < cur.len() implies #[trigger] cur[g] >= k by {
            if g < prev.len() {
                assert(cur[g] == prev[g]);
            }
        }
    }
}

/// Law: the greedy scan misses nothing it could keep — every accepted
/// candidate that commutes with each generator kept before it is kept,
/// whatever its weight.
pub proof fn lemma_greedy_generators_maximal(cands: Seq<(String, Vec<(usize, PauliLetter)>)>, accepted: Seq<bool>, m: nat)
    requires
        m <= cands.len(),
        m <= accepted.len(),
        m <= usize::MAX,
    ensures
        forall|k: int| 0 <= k < m && accepted[k] && (forall|g: int|
            0 <= g < greedy_generators(cands, accepted, m).len() && greedy_generators(cands, accepted, m)[g] < k
                ==> #[trigger] cands_commute(cands, greedy_generators(cands, accepted, m)[g] as int, k))
            ==> greedy_generators(cands, accepted, m).contains(k as usize),
{
    let all = greedy_generators(cands, accepted, m);
    assert forall|k: int| 0 <= k < m && accepted[k] && (forall|g: int|
        0 <= g < all.len() && all[g] < k ==> #[trigger] cands_commute(cands, all[g] as int, k))
        implies all.contains(k as usize) by {
        let before = greedy_generators(cands, accepted, k as nat);
        lemma_greedy_prefix(cands, accepted, k as nat, m);
        lemma_greedy_below(cands, accepted, k as nat);
        assert forall|g: int| 0 <= g < before.len() implies #[trigger] cands_commute(cands, before[g] as int, k) by {
            assert(all[g] == before[g]);
            assert(all[g] < k);
        }
        lemma_greedy_step(cands, accepted, (k + 1) as nat);
        assert(greedy_keeps(cands, accepted, (k + 1) as nat));
        let after = greedy_generators(cands, accepted, (k + 1) as nat);
        assert(after[before.len() as int] == k as usize);
        lemma_greedy_prefix(cands, accepted, (k + 1) as nat, m);
        assert(all[before.len() as int] == k as usize);
    }
}

/// Candidate `k` carries the label of one of the chosen generators.
pub open spec fn labels_a_generator(cands: Seq<(String, Vec<(usize, PauliLetter)>)>, chosen: Seq<usize>, k: int) -> bool {
    exists|g: int| 0 <= g < chosen.len() && cands[chosen[g] as int].0@ == #[trigger] cands[k].0@
}

/// Candidate `k` commutes with every chosen generator.
pub open spec fn commutes_with_chosen(cands: Seq<(String, Vec<(usize, PauliLetter)>)>, chosen: Seq<usize>, k: int) -> bool {
    forall|g: int| 0 <= g < chosen.len() ==> #[trigger] cands_commute(cands, chosen[g] as int, k)
}

/// Smallest weight of a weak candidate among the first `m` that is not a
/// generator and commutes with all generators, capped at `max(w, 1)`.
pub open spec fn distance_upto(
    cands: Seq<(String, Vec<(usize, PauliLetter)>)>,
    chosen: Seq<usize>,
    weak: Seq<bool>,
    w: nat,
    m: nat,
) -> nat
    decreases m,
{
    if m == 0 {
        if w >= 1 { w } else { 1 }
    } else {
        let prev = distance_upto(cands, chosen, weak, w, (m - 1) as nat);
        let k = m - 1;
        if !labels_a_generator(cands, chosen, k) && commutes_with_chosen(cands, chosen, k) && weak[k]
            && cand_ops(cands, k).len() < prev {
            cand_ops(cands, k).len()
        } else {
            prev
        }
    }
}

/// The code distance: 0 without generators, else `distance_upto` over all candidates.
pub open spec fn code_distance(
    cands: Seq<(String, Vec<(usize, PauliLetter)>)>,
    chosen: Seq<usize>,
    weak: Seq<bool>,
    w: nat,
) -> nat {
    if chosen.len() == 0 { 0 } else { distance_upto(cands, chosen, weak, w, cands.len()) }
}

proof fn lemma_distance_upto(
    cands: Seq<(String, Vec<(usize, PauliLetter)>)>,
    chosen: Seq<usize>,
    weak: Seq<bool>,
    w: nat,
    m: nat,
)
    requires
        m <= cands.len(),
        weak.len() == cands.len(),
    ensures
        distance_upto(cands, chosen, weak, w, m) <= if w >= 1 { w } else { 1 },
        forall|k: int| 0 <= k < m && !labels_a_generator(cands, chosen, k) && commutes_with_chosen(cands, chosen, k)
            && weak[k] ==> distance_upto(cands, chosen, weak, w, m) <= #[trigger] cand_ops(cands, k).len(),
        distance_upto(cands, chosen, weak, w, m) == (if w >= 1 { w } else { 1 }) || exists|k: int|
            0 <= k < m && !labels_a_generator(cands, chosen, k) && commutes_with_chosen(cands, chosen, k) && weak[k]
                && distance_upto(cands, chosen, weak, w, m) == #[trigger] cand_ops(cands, k).len(),
    decreases m,
{
    if m > 0 {
        lemma_distance_upto(cands, chosen, weak, w, (m - 1) as nat);
        let prev = distance_upto(cands, chosen, weak, w, (m - 1) as nat);
        let k = m - 1;
        if !labels_a_generator(cands, chosen, k) && commutes_with_chosen(cands, chosen, k) && weak[k]
            && cand_ops(cands, k).len() < prev {
            assert(distance_upto(cands, chosen, weak, w, m) == cand_ops(cands, k).len());
        } else {
            assert(distance_upto(cands, chosen, weak, w, m) == prev);
        }
    }
}

/// Law: the code distance never counts a chosen generator. With at least one
/// generator, the distance is at most `max(w, 1)` and at most the weight of
/// every weak candidate that commutes with all generators and carries no
/// generator's label; and it is either `max(w, 1)` or the weight of one such
/// candidate. So when the only weak commuting candidates are generators, the
/// distance is `max(w, 1)`.
pub proof fn lemma_code_distance_skips_generators(
    cands: Seq<(String, Vec<(usize, PauliLetter)>)>,
    chosen: Seq<usize>,
    weak: Seq<bool>,
    w: nat,
)
    requires
        chosen.len() > 0,
        weak.len() == cands.len(),
    ensures
        code_distance(cands, chosen, weak, w) <= if w >= 1 { w } else { 1 },
        forall|k: int| 0 <= k < cands.len() && weak[k]
            && (forall|g: int| 0 <= g < chosen.len() ==> #[trigger] cands_commute(cands, chosen[g] as int, k))
            && (forall|g: int| 0 <= g < chosen.len() ==> #[trigger] cands[chosen[g] as int].0@ != cands[k].0@)
            ==> code_distance(cands, chosen, weak, w) <= #[trigger] cand_ops(cands, k).len(),
        code_distance(cands, chosen, weak, w) == (if w >= 1 { w } else { 1 }) || exists|k: int|
            0 <= k < cands.len() && weak[k]
                && (forall|g: int| 0 <= g < chosen.len() ==> #[trigger] cands_commute(cands, chosen[g] as int, k))
                && (forall|g: int| 0 <= g < chosen.len() ==> #[trigger] cands[chosen[g] as int].0@ != cands[k].0@)
                && code_distance(cands, chosen, weak, w) == #[trigger] cand_ops(cands, k).len(),
{
    let n = cands.len();
    lemma_distance_upto(cands, chosen, weak, w, n);
    let d = code_distance(cands, chosen, weak, w);
    assert(d == distance_upto(cands, chosen, weak, w, n));
    assert forall|k: int| 0 <= k < cands.len() && weak[k]
        && (forall|g: int| 0 <= g < chosen.len() ==> #[trigger] cands_commute(cands, chosen[g] as int, k))
        && (forall|g: int| 0 <= g < chosen.len() ==> #[trigger] cands[chosen[g] as int].0@ != cands[k].0@)
        implies d <= #[trigger] cand_ops(cands, k).len() by {
        if labels_a_generator(cands, chosen, k) {
            let g = choose|g: int| 0 <= g < chosen.len() && cands[chosen[g] as int].0@ == #[trigger] cands[k].0@;
            assert(cands[chosen[g] as int].0@ != cands[k].0@);
        }
        assert(commutes_with_chosen(cands, chosen, k));
    }
    if d != (if w >= 1 { w } else { 1 }) {
        let k = choose|k: int| 0 <= k < n && !labels_a_generator(cands, chosen, k) && commutes_with_chosen(cands, chosen, k)
            && weak[k] && d == #[trigger] cand_ops(cands, k).len();
        assert forall|g: int| 0 <= g < chosen.len() implies #[trigger] cands[chosen[g] as int].0@ != cands[k].0@ by {
            if cands[chosen[g] as int].0@ == cands[k].0@ {
                assert(labels_a_generator(cands, chosen, k));
            }
        }
        assert forall|g: int| 0 <= g < chosen.len() implies #[trigger] cands_commute(cands, chosen[g] as int, k) by {}
    }
}

fn is_generator_label(cands: &Candidates, chosen: &Vec<usize>, k: usize) -> (r: bool)
    requires
        k < cands@.len(),
        forall|g: int| 0 <= g < chosen@.len() ==> #[trigger] chosen@[g] < cands@.len(),
    ensures
        r == labels_a_generator(cands@, chosen@, k as int),
{
    let mut i: usize = 0;
    while i < chosen.len()
        invariant
            k < cands@.len(),
            forall|g: int| 0 <= g < chosen@.len() ==> #[trigger] chosen@[g] < cands@.len(),
            i <= chosen@.len(),
            forall|g: int| 0 <= g < i ==> cands@[chosen@[g] as int].0@ != #[trigger] cands@[k as int].0@,
        decreases chosen@.len() - i,
    {
        if cands[chosen[i]].0 == cands[k].0 {
            return true;
        }
        i += 1;
    }
    false
}

/// Code distance of the chosen generator set: the smallest weight of a
/// non-generator candidate that commutes with every generator and is weak on
/// both branches (`weak[k]`), capped at the window size `w` (at least 1);
/// 0 when no generator was chosen.
pub fn code_distance_from(cands: &Candidates, chosen: &Vec<usize>, weak: &[bool], w: usize) -> (d: usize)
    requires
        sizes_ok(cands@),
        weak@.len() == cands@.len(),
        forall|g: int| 0 <= g < chosen@.len() ==> #[trigger] chosen@[g] < cands@.len(),
    ensures
        d == code_distance(cands@, chosen@, weak@, w as nat),
{
    let mut d: usize = if w >= 1 { w } else { 1 };
    let mut k: usize = 0;
    while k < cands.len()
        invariant
            sizes_ok(cands@),
            weak@.len() == cands@.len(),
            forall|g: int| 0 <= g < chosen@.len() ==> #[trigger] chosen@[g] < cands@.len(),
            k <= cands@.len(),
            d == distance_upto(cands@, chosen@, weak@, w as nat, k as nat),
        decreases cands@.len() - k,
    {
        if !is_generator_label(cands, chosen, k) && commutes_with_all(cands, chosen, k) && weak[k] {
            let weight = cands[k].1.len();
            if weight < d {
                d = weight;
            }
        }
        k += 1;
    }
    if chosen.len() == 0 {
        return 0;
    }
    d
}

/// A stabilizer code was found: at least one generator and a positive code distance.
pub fn stabilizer_found(generator_count: usize, code_distance: usize) -> (r: bool)
    ensures
        r == (generator_count >= 1 && code_distance >= 1),
{
    generator_count >= 1 && code_distance >= 1
}

/// Scaling sanity of the search on a small and on a larger window, each given
/// as `(generator count, code distance)`: the larger window does not shrink
/// the code distance and loses at most one generator.
pub fn distance_scales(small: (usize, usize), large: (usize, usize)) -> (r: bool)
    ensures
        r == (large.1 >= small.1 && large.0 + 1 >= small.0),
{
    large.1 >= small.1 && large.0 >= small.0.saturating_sub(1)
}

/// `[[n,k,d]]`
pub open spec fn qecc_label(n: nat, k: nat, d: nat) -> Seq<char> {
    "[["@ + decimal(n) + ","@ + decimal(k) + ","@ + decimal(d) + "]]"@
}

/// Code parameters of the generators found on a window of `n_physical`
/// qubits: the logical qubit count `k = n − generators` (0 when there are
/// more generators than qubits) and the label `[[n,k,d]]` with the code
/// distance `d`.
pub fn qecc_parameters(n_physical: usize, generator_count: usize, code_distance: usize) -> (r: (usize, String))
    ensures
        r.0 == if n_physical >= generator_count { n_physical - generator_count } else { 0 },
        r.1@ == qecc_label(n_physical as nat, r.0 as nat, code_distance as nat),
{
    let k = n_physical.saturating_sub(generator_count);
    let mut s = String::from_str("[[");
    push_decimal(&mut s, n_physical);
    s.append(",");
    push_decimal(&mut s, k);
    s.append(",");
    push_decimal(&mut s, code_distance);
    s.append("]]");
    (k, s)
}

} // verus!
