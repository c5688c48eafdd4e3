//! Qubit-label permutations: construction, inversion, Hamming mismatch and
//! the open-chain reflection equivalence used to score recovered labelings.

use vstd::prelude::*;
use crate::rng::{Rng, mulberry_advance, mulberry_mix};

verus! {

/// `p` is a permutation of `0..p.len()`.
pub open spec fn is_perm(p: Seq<usize>) -> bool {
    &&& forall|i: int| 0 <= i < p.len() ==> #[trigger] p[i] < p.len()
    &&& forall|i: int, j: int| 0 <= i < j < p.len() ==> #[trigger] p[i] != #[trigger] p[j]
}

/// The identity labeling `0, 1, ..., n-1`.
pub open spec fn identity_seq(n: nat) -> Seq<usize> {
    Seq::new(n, |i: int| i as usize)
}

/// `a` with the entries at `i` and `j` exchanged.
pub open spec fn swap_seq(a: Seq<usize>, i: int, j: int) -> Seq<usize> {
    a.update(i, a[j]).update(j, a[i])
}

/// Number of positions below `m` at which `a` and `b` differ.
pub open spec fn mismatches_upto(a: Seq<usize>, b: Seq<usize>, m: nat) -> nat
    decreases m,
{
    if m == 0 {
        0
    } else {
        mismatches_upto(a, b, (m - 1) as nat) + if a[m - 1] != b[m - 1] { 1nat } else { 0nat }
    }
}

/// Hamming mismatch over the common prefix of `a` and `b`.
pub open spec fn mismatches(a: Seq<usize>, b: Seq<usize>) -> nat {
    mismatches_upto(a, b, if a.len() <= b.len() { a.len() } else { b.len() })
}

/// Mirror image of a labeling on an open chain of `n` sites (`k ↦ n-1-k`).
pub open spec fn reflect(t: Seq<usize>, n: nat) -> Seq<usize> {
    t.map_values(|p: usize| (n - 1 - p) as usize)
}

/// Index drawn from a raw generator word for the range `0..bound`:
/// `floor(u / 2^32 * bound)`.
pub open spec fn scaled_draw(u: u32, bound: nat) -> nat {
    (u as nat * bound) / 0x1_0000_0000
}

/// Fisher-Yates shuffle of `a` over positions `i, i-1, ..., 1`, starting
/// from generator state `st`; gives the final sequence and state.
pub open spec fn shuffle_down(a: Seq<usize>, i: nat, st: u32) -> (Seq<usize>, u32)
    decreases i,
{
    if i == 0 {
        (a, st)
    } else {
        let st2 = mulberry_advance(st);
        let j = scaled_draw(mulberry_mix(st2), i + 1);
        shuffle_down(swap_seq(a, i as int, j as int), (i - 1) as nat, st2)
    }
}

/// What `random_permutation(n, ..)` returns, with the generator's new state.
pub open spec fn shuffled_identity(n: nat, st: u32) -> (Seq<usize>, u32) {
    if n == 0 {
        (identity_seq(0), st)
    } else {
        shuffle_down(identity_seq(n), (n - 1) as nat, st)
    }
}

/// The identity labeling of `n` qubits.
pub fn identity_perm(n: usize) -> (r: Vec<usize>)
    ensures
        r@ == identity_seq(n as nat),
{
    let mut r: Vec<usize> = Vec::new();
    let mut i: usize = 0;
    while i < n
        invariant
            i <= n,
            r@ == identity_seq(i as nat),
        decreases n - i,
    {
        r.push(i);
        i += 1;
    }
    r
}

pub proof fn lemma_identity_is_perm(n: nat)
    requires
        n <= usize::MAX,
    ensures
        is_perm(identity_seq(n)),
{
    let s = identity_seq(n);
    assert forall|i: int| 0 <= i < s.len() implies #[trigger] s[i] == i by {}
}

pub proof fn lemma_swap_keeps_perm(a: Seq<usize>, i: int, j: int)
    requires
        is_perm(a),
        0 <= i < a.len(),
        0 <= j < a.len(),
    ensures
        is_perm(swap_seq(a, i, j)),
{
    let b = swap_seq(a, i, j);
    assert forall|x: int, y: int| 0 <= x < y < b.len() implies #[trigger] b[x] != #[trigger] b[y] by {
        let sx = if x == j { i } else if x == i { j } else { x };
        let sy = if y == j { i } else if y == i { j } else { y };
        assert(b[x] == a[sx]);
        assert(b[y] == a[sy]);
        if sx < sy {
            assert(a[sx] != a[sy]);
        } else {
            assert(a[sy] != a[sx]);
        }
    }
}

proof fn lemma_shuffle_down_perm(a: Seq<usize>, i: nat, st: u32)
    requires
        is_perm(a),
        i < a.len(),
    ensures
        is_perm(shuffle_down(a, i, st).0),
        shuffle_down(a, i, st).0.len() == a.len(),
    decreases i,
{
    if i > 0 {
        let st2 = mulberry_advance(st);
        let j = scaled_draw(mulberry_mix(st2), i + 1);
        assert(j <= i) by {
            lemma_draw_below(mulberry_mix(st2), i + 1);
        }
        lemma_swap_keeps_perm(a, i as int, j as int);
        lemma_shuffle_down_perm(swap_seq(a, i as int, j as int), (i - 1) as nat, st2);
    }
}

pub proof fn lemma_draw_below(u: u32, bound: nat)
    requires
        bound > 0,
    ensures
        scaled_draw(u, bound) < bound,
{
    assert(u as nat * bound < 0x1_0000_0000 * bound) by (nonlinear_arith)
        requires
            (u as nat) < 0x1_0000_0000,
            bound > 0,
    ;
    assert((u as nat * bound) / 0x1_0000_0000 < bound) by (nonlinear_arith)
        requires
            u as nat * bound < 0x1_0000_0000 * bound,
    ;
}

/// Law: a seeded shuffle of the identity is a permutation of `0..n`.
pub proof fn lemma_shuffled_identity_is_perm(n: nat, st: u32)
    requires
        n <= usize::MAX,
    ensures
        is_perm(shuffled_identity(n, st).0),
        shuffled_identity(n, st).0.len() == n,
{
    lemma_identity_is_perm(n);
    if n > 0 {
        lemma_shuffle_down_perm(identity_seq(n), (n - 1) as nat, st);
    }
}

/// Uniform random labeling of `n` qubits (Fisher-Yates driven by Mulberry32).
/// The index at step `i` is `floor(u / 2^32 * (i + 1))` for the generator's
/// next word `u`; for `n <= 2^21` that product is exact in double precision,
/// so the integer formula here agrees with drawing a uniform `[0, 1)` value
/// and scaling it.
pub fn random_permutation(n: usize, rng: &mut Rng) -> (r: Vec<usize>)
    requires
        n <= 0x20_0000,
    ensures
        r@ == shuffled_identity(n as nat, old(rng)@).0,
        final(rng)@ == shuffled_identity(n as nat, old(rng)@).1,
        is_perm(r@),
{
    let mut perm = identity_perm(n);
    proof {
        lemma_shuffled_identity_is_perm(n as nat, rng@);
    }
    if n == 0 {
        return perm;
    }
    let ghost st0 = rng@;
    let mut i: usize = n - 1;
    while i >= 1
        invariant
            1 <= n <= 0x20_0000,
            i < n,
            perm@.len() == n,
            shuffle_down(perm@, i as nat, rng@) == shuffle_down(identity_seq(n as nat), (n - 1) as nat, st0),
        decreases i,
    {
        let ghost st = rng@;
        let ghost before = perm@;
        let u = rng.next_u32();
        assert((u as u64) * ((i + 1) as u64) <= u64::MAX) by (nonlinear_arith)
            requires
                (u as u64) < 0x1_0000_0000,
                ((i + 1) as u64) <= 0x20_0000,
        ;
        let prod: u64 = (u as u64) * ((i + 1) as u64);
        let j = (prod >> 32) as usize;
        proof {
            assert(prod >> 32 == prod / 0x1_0000_0000) by (bit_vector);
            lemma_draw_below(u, (i + 1) as nat);
            assert(j as nat == scaled_draw(u, (i + 1) as nat));
        }
        let a = perm[i];
        let b = perm[j];
        perm.set(i, b);
        perm.set(j, a);
        assert(perm@ == swap_seq(before, i as int, j as int));
        i -= 1;
    }
    assert(i == 0);
    perm
}


/// Number of positions at which two labelings differ (over their common prefix).
pub fn perm_distance(a: &[usize], b: &[usize]) -> (r: usize)
    ensures
        r == mismatches(a@, b@),
{
    let m = if a.len() <= b.len() { a.len() } else { b.len() };
    let mut count: usize = 0;
    let mut k: usize = 0;
    while k < m
        invariant
            m == (if a@.len() <= b@.len() { a@.len() } else { b@.len() }),
            k <= m,
            count == mismatches_upto(a@, b@, k as nat),
            count <= k,
        decreases m - k,
    {
        if a[k] != b[k] {
            count += 1;
        }
        k += 1;
    }
    count
}

/// Distance up to open-chain reflection, as a formula.
pub open spec fn line_equiv(perm: Seq<usize>, target: Seq<usize>) -> nat {
    let n = perm.len();
    let direct = mismatches(perm, target);
    if n == 0 {
        direct
    } else {
        let refl = mismatches(perm, reflect(target, n));
        if refl < direct { refl } else { direct }
    }
}

/// Minimum Hamming mismatch to `target`, allowing open-chain reflection (k ↦ n−1−k).
pub fn line_equiv_distance(perm: &[usize], target: &[usize]) -> (r: usize)
    requires
        perm@.len() > 0 ==> forall|i: int| 0 <= i < target@.len() ==> #[trigger] target@[i] < perm@.len(),
    ensures
        r == line_equiv(perm@, target@),
{
    let n = perm.len();
    let direct = perm_distance(perm, target);
    if n == 0 {
        return direct;
    }
    let mut reflected: Vec<usize> = Vec::new();
    let mut k: usize = 0;
    while k < target.len()
        invariant
            n == perm@.len(),
            n > 0,
            forall|i: int| 0 <= i < target@.len() ==> #[trigger] target@[i] < n,
            k <= target@.len(),
            reflected@ == reflect(target@, n as nat).subrange(0, k as int),
        decreases target@.len() - k,
    {
        reflected.push((n - 1) - target[k]);
        k += 1;
    }
    assert(reflected@ == reflect(target@, n as nat));
    let other = perm_distance(perm, reflected.as_slice());
    if other < direct { other } else { direct }
}

/// Whether `perm` equals `target` or its mirror image.
pub fn line_equiv_match(perm: &[usize], target: &[usize]) -> (r: bool)
    requires
        perm@.len() > 0 ==> forall|i: int| 0 <= i < target@.len() ==> #[trigger] target@[i] < perm@.len(),
    ensures
        r == (line_equiv(perm@, target@) == 0),
{
    line_equiv_distance(perm, target) == 0
}

proof fn lemma_mismatches_upto_zero(a: Seq<usize>, b: Seq<usize>, m: nat)
    requires
        m <= a.len(),
        m <= b.len(),
    ensures
        mismatches_upto(a, b, m) == 0 <==> forall|i: int| 0 <= i < m ==> a[i] == b[i],
    decreases m,
{
    if m > 0 {
        lemma_mismatches_upto_zero(a, b, (m - 1) as nat);
    }
}

proof fn lemma_mismatches_upto_symmetric(a: Seq<usize>, b: Seq<usize>, m: nat)
    ensures
        mismatches_upto(a, b, m) == mismatches_upto(b, a, m),
    decreases m,
{
    if m > 0 {
        lemma_mismatches_upto_symmetric(a, b, (m - 1) as nat);
    }
}

proof fn lemma_mismatches_upto_triangle(a: Seq<usize>, b: Seq<usize>, c: Seq<usize>, m: nat)
    ensures
        mismatches_upto(a, c, m) <= mismatches_upto(a, b, m) + mismatches_upto(b, c, m),
    decreases m,
{
    if m > 0 {
        lemma_mismatches_upto_triangle(a, b, c, (m - 1) as nat);
    }
}

/// Law: the mismatch count is a metric on labelings of equal length —
/// symmetric, zero exactly on equal labelings, and obeying the triangle inequality.
pub proof fn lemma_mismatches_metric(a: Seq<usize>, b: Seq<usize>, c: Seq<usize>)
    requires
        a.len() == b.len(),
        b.len() == c.len(),
    ensures
        mismatches(a, b) == mismatches(b, a),
        mismatches(a, b) == 0 <==> a == b,
        mismatches(a, c) <= mismatches(a, b) + mismatches(b, c),
{
    lemma_mismatches_upto_symmetric(a, b, a.len());
    lemma_mismatches_upto_zero(a, b, a.len());
    lemma_mismatches_upto_triangle(a, b, c, a.len());
    if mismatches(a, b) == 0 {
        assert(a =~= b);
    }
}

proof fn lemma_reflect_twice(t: Seq<usize>, n: nat)
    requires
        0 < n <= usize::MAX,
        forall|i: int| 0 <= i < t.len() ==> #[trigger] t[i] < n,
    ensures
        reflect(reflect(t, n), n) == t,
        forall|i: int| 0 <= i < t.len() ==> #[trigger] reflect(t, n)[i] < n,
{
    let r = reflect(t, n);
    assert forall|i: int| 0 <= i < t.len() implies #[trigger] r[i] == n - 1 - t[i] by {}
    assert(reflect(r, n) =~= t);
}

/// Law: reflection equivalence does not see which of the two mirror images
/// the target is given as.
pub proof fn lemma_line_equiv_reflection_invariant(perm: Seq<usize>, target: Seq<usize>)
    requires
        0 < perm.len() <= usize::MAX,
        forall|i: int| 0 <= i < target.len() ==> #[trigger] target[i] < perm.len(),
    ensures
        line_equiv(perm, reflect(target, perm.len())) == line_equiv(perm, target),
{
    lemma_reflect_twice(target, perm.len());
}

/// Law: on labelings of equal length, `line_equiv_match` holds exactly when the
/// candidate is the target or the target read backwards along the chain.
pub proof fn lemma_line_equiv_zero_iff(perm: Seq<usize>, target: Seq<usize>)
    requires
        perm.len() == target.len(),
        perm.len() > 0,
    ensures
        line_equiv(perm, target) == 0 <==> (perm == target || perm == reflect(target, perm.len())),
{
    lemma_mismatches_metric(perm, target, target);
    let r = reflect(target, perm.len());
    lemma_mismatches_metric(perm, r, r);
}


/// The last position below `m` that `p` sends to `k`, or 0 when there is none.
pub open spec fn last_preimage(p: Seq<usize>, m: nat, k: int) -> usize
    decreases m,
{
    if m == 0 {
        0
    } else if p[m - 1] == k {
        (m - 1) as usize
    } else {
        last_preimage(p, (m - 1) as nat, k)
    }
}

/// `inv[p] = q` for every `q` in order: the inverse of a permutation; on a
/// labeling with repeated values the last writer wins and unhit slots stay 0.
pub fn inverse_perm(perm: &[usize]) -> (inv: Vec<usize>)
    requires
        forall|i: int| 0 <= i < perm@.len() ==> #[trigger] perm@[i] < perm@.len(),
    ensures
        inv@.len() == perm@.len(),
        forall|k: int| 0 <= k < perm@.len() ==> #[trigger] inv@[k] == last_preimage(perm@, perm@.len(), k),
{
    let n = perm.len();
    let mut inv: Vec<usize> = vec![0usize; n];
    let mut q: usize = 0;
    while q < n
        invariant
            n == perm@.len(),
            forall|i: int| 0 <= i < n ==> #[trigger] perm@[i] < n,
            q <= n,
            inv@.len() == n,
            forall|k: int| 0 <= k < n ==> #[trigger] inv@[k] == last_preimage(perm@, q as nat, k),
        decreases n - q,
    {
        let p = perm[q];
        inv.set(p, q);
        q += 1;
    }
    inv
}

proof fn lemma_last_preimage_of_image(p: Seq<usize>, m: nat, q: int)
    requires
        is_perm(p),
        0 <= q < m <= p.len(),
        p.len() <= usize::MAX,
    ensures
        last_preimage(p, m, p[q] as int) == q,
    decreases m,
{
    if m - 1 != q {
        assert(p[m - 1] != p[q]);
        lemma_last_preimage_of_image(p, (m - 1) as nat, q);
    }
}

proof fn lemma_perm_onto(p: Seq<usize>, k: int)
    requires
        is_perm(p),
        0 <= k < p.len(),
    ensures
        exists|q: int| 0 <= q < p.len() && p[q] == k,
{
    let n = p.len() as int;
    let dom = vstd::set_lib::set_int_range(0, n);
    let f = |q: int| p[q] as int;
    vstd::set_lib::lemma_int_range(0, n);
    let img = dom.map(f);
    assert(vstd::relations::injective_on(f, dom)) by {
        assert forall|x: int, y: int| dom.contains(x) && dom.contains(y) && #[trigger] f(x) == #[trigger] f(y) implies x == y by {
            if x < y {
                assert(p[x] != p[y]);
            } else if y < x {
                assert(p[y] != p[x]);
            }
        }
    }
    vstd::set_lib::lemma_map_size(dom, img, f);
    assert(img.subset_of(dom)) by {
        assert forall|v: int| img.contains(v) implies dom.contains(v) by {
            let q = choose|q: int| dom.contains(q) && f(q) == v;
            assert(p[q] < n);
        }
    }
    vstd::set_lib::lemma_subset_equality(img, dom);
    assert(img.contains(k));
    let q = choose|q: int| dom.contains(q) && f(q) == k;
    assert(0 <= q < p.len() && p[q] == k);
}

/// Law: the inverse of a permutation is a permutation, and composing the two
/// in either order gives the identity.
pub proof fn lemma_inverse_perm(p: Seq<usize>, inv: Seq<usize>)
    requires
        is_perm(p),
        p.len() <= usize::MAX,
        inv.len() == p.len(),
        forall|k: int| 0 <= k < p.len() ==> #[trigger] inv[k] == last_preimage(p, p.len(), k),
    ensures
        is_perm(inv),
        forall|q: int| 0 <= q < p.len() ==> #[trigger] inv[p[q] as int] == q,
        forall|k: int| 0 <= k < p.len() ==> #[trigger] p[inv[k] as int] == k,
{
    assert forall|q: int| 0 <= q < p.len() implies #[trigger] inv[p[q] as int] == q by {
        lemma_last_preimage_of_image(p, p.len(), q);
    }
    assert forall|k: int| 0 <= k < p.len() implies #[trigger] p[inv[k] as int] == k && inv[k] < p.len() by {
        lemma_perm_onto(p, k);
        let q = choose|q: int| 0 <= q < p.len() && p[q] == k;
        lemma_last_preimage_of_image(p, p.len(), q);
    }
    assert forall|k: int| 0 <= k < inv.len() implies #[trigger] inv[k] < inv.len() by {
        assert(p[inv[k] as int] == k);
    }
    assert forall|i: int, j: int| 0 <= i < j < inv.len() implies #[trigger] inv[i] != #[trigger] inv[j] by {
        assert(p[inv[i] as int] == i);
        assert(p[inv[j] as int] == j);
    }
}


/// `n!`
pub open spec fn factorial(n: nat) -> nat
    decreases n,
{
    if n == 0 {
        1
    } else {
        n * factorial((n - 1) as nat)
    }
}

/// The swap Heap's method makes before the `i`-th recursive call at level `k`.
pub open spec fn heap_swap(a: Seq<usize>, k: nat, i: nat) -> Seq<usize> {
    if k % 2 == 0 {
        swap_seq(a, i as int, k - 1)
    } else {
        swap_seq(a, 0, k - 1)
    }
}

/// Heap's method on the first `k` entries of `a`: the arrangements it emits,
/// in order, and the arrangement it leaves behind.
pub open spec fn heap_run(a: Seq<usize>, k: nat) -> (Seq<Seq<usize>>, Seq<usize>)
    decreases k, 1nat, 0nat,
{
    if k <= 1 {
        (seq![a], a)
    } else {
        let first = heap_run(a, (k - 1) as nat);
        let rest = heap_iter(first.1, k, 0);
        (first.0 + rest.0, rest.1)
    }
}

/// The swap-then-recurse rounds `i, i+1, ..., k-2` of Heap's method at level `k`.
pub open spec fn heap_iter(a: Seq<usize>, k: nat, i: nat) -> (Seq<Seq<usize>>, Seq<usize>)
    decreases k, 0nat, k - i,
{
    if k <= 1 || i + 1 >= k {
        (Seq::empty(), a)
    } else {
        let sub = heap_run(heap_swap(a, k, i), (k - 1) as nat);
        let rest = heap_iter(sub.1, k, i + 1);
        (sub.0 + rest.0, rest.1)
    }
}

proof fn lemma_heap_run_len(a: Seq<usize>, k: nat)
    requires
        1 <= k <= a.len(),
    ensures
        heap_run(a, k).1.len() == a.len(),
    decreases k, 1nat, 0nat,
{
    if k > 1 {
        lemma_heap_run_len(a, (k - 1) as nat);
        lemma_heap_iter_len(heap_run(a, (k - 1) as nat).1, k, 0);
    }
}

proof fn lemma_heap_iter_len(a: Seq<usize>, k: nat, i: nat)
    requires
        2 <= k <= a.len(),
        i < k,
    ensures
        heap_iter(a, k, i).1.len() == a.len(),
    decreases k, 0nat, k - i,
{
    if i + 1 < k {
        let b = heap_swap(a, k, i);
        lemma_heap_run_len(b, (k - 1) as nat);
        lemma_heap_iter_len(heap_run(b, (k - 1) as nat).1, k, i + 1);
    }
}

proof fn lemma_heap_run_count(a: Seq<usize>, k: nat)
    requires
        1 <= k <= a.len(),
    ensures
        heap_run(a, k).0.len() == factorial(k),
    decreases k, 1nat, 0nat,
{
    if k <= 1 {
        assert(factorial(0) == 1);
        assert(factorial(1) == 1);
    } else {
        lemma_heap_run_count(a, (k - 1) as nat);
        lemma_heap_run_len(a, (k - 1) as nat);
        lemma_heap_iter_count(heap_run(a, (k - 1) as nat).1, k, 0);
        let f = factorial((k - 1) as nat);
        assert(factorial(k) == k * f);
        assert(f + (k - 1) * f == k * f) by (nonlinear_arith);
        let first = heap_run(a, (k - 1) as nat);
        let rest = heap_iter(first.1, k, 0);
        assert(heap_run(a, k).0 == first.0 + rest.0);
    }
}

proof fn lemma_heap_iter_count(a: Seq<usize>, k: nat, i: nat)
    requires
        2 <= k <= a.len(),
        i < k,
    ensures
        heap_iter(a, k, i).0.len() == (k - 1 - i) * factorial((k - 1) as nat),
    decreases k, 0nat, k - i,
{
    let f = factorial((k - 1) as nat);
    if i + 1 >= k {
        assert(k - 1 - i == 0);
        assert((k - 1 - i) * f == 0) by (nonlinear_arith)
            requires
                k - 1 - i == 0,
        ;
    } else {
        let b = heap_swap(a, k, i);
        lemma_heap_run_count(b, (k - 1) as nat);
        lemma_heap_run_len(b, (k - 1) as nat);
        lemma_heap_iter_count(heap_run(b, (k - 1) as nat).1, k, i + 1);
        let m = (k - 1 - i) as int;
        assert(heap_iter(heap_run(b, (k - 1) as nat).1, k, i + 1).0.len() == (m - 1) * f);
        assert(f + (m - 1) * f == m * f) by (nonlinear_arith);
        let sub = heap_run(b, (k - 1) as nat);
        let rest = heap_iter(sub.1, k, i + 1);
        assert(heap_iter(a, k, i).0 == sub.0 + rest.0);
    }
}

proof fn lemma_heap_run_perm(a: Seq<usize>, k: nat)
    requires
        1 <= k <= a.len(),
        is_perm(a),
    ensures
        is_perm(heap_run(a, k).1),
        forall|t: int| 0 <= t < heap_run(a, k).0.len() ==> #[trigger] is_perm(heap_run(a, k).0[t])
            && heap_run(a, k).0[t].len() == a.len(),
    decreases k, 1nat, 0nat,
{
    if k > 1 {
        let first = heap_run(a, (k - 1) as nat);
        lemma_heap_run_perm(a, (k - 1) as nat);
        lemma_heap_run_len(a, (k - 1) as nat);
        lemma_heap_iter_perm(first.1, k, 0);
        let rest = heap_iter(first.1, k, 0);
        assert forall|t: int| 0 <= t < heap_run(a, k).0.len() implies #[trigger] is_perm(heap_run(a, k).0[t])
            && heap_run(a, k).0[t].len() == a.len() by {
            if t < first.0.len() {
                assert(heap_run(a, k).0[t] == first.0[t]);
            } else {
                assert(heap_run(a, k).0[t] == rest.0[t - first.0.len()]);
            }
        }
    }
}

proof fn lemma_heap_iter_perm(a: Seq<usize>, k: nat, i: nat)
    requires
        2 <= k <= a.len(),
        i < k,
        is_perm(a),
    ensures
        is_perm(heap_iter(a, k, i).1),
        forall|t: int| 0 <= t < heap_iter(a, k, i).0.len() ==> #[trigger] is_perm(heap_iter(a, k, i).0[t])
            && heap_iter(a, k, i).0[t].len() == a.len(),
    decreases k, 0nat, k - i,
{
    if i + 1 < k {
        let b = heap_swap(a, k, i);
        if k % 2 == 0 {
            lemma_swap_keeps_perm(a, i as int, k - 1);
        } else {
            lemma_swap_keeps_perm(a, 0, k - 1);
        }
        let sub = heap_run(b, (k - 1) as nat);
        lemma_heap_run_perm(b, (k - 1) as nat);
        lemma_heap_run_len(b, (k - 1) as nat);
        lemma_heap_iter_perm(sub.1, k, i + 1);
        let rest = heap_iter(sub.1, k, i + 1);
        assert(heap_iter(a, k, i) == (sub.0 + rest.0, rest.1));
        assert forall|t: int| 0 <= t < heap_iter(a, k, i).0.len() implies #[trigger] is_perm(heap_iter(a, k, i).0[t])
            && heap_iter(a, k, i).0[t].len() == a.len() by {
            if t < sub.0.len() {
                assert(heap_iter(a, k, i).0[t] == sub.0[t]);
                assert(is_perm(sub.0[t]));
            } else {
                assert(heap_iter(a, k, i).0[t] == rest.0[t - sub.0.len()]);
                assert(is_perm(rest.0[t - sub.0.len()]));
            }
        }
    }
}

/// Law: `all_permutations(n)` lists exactly `n!` labelings, each a permutation of `0..n`.
pub proof fn lemma_all_permutations_shape(n: nat)
    requires
        1 <= n <= usize::MAX,
    ensures
        heap_run(identity_seq(n), n).0.len() == factorial(n),
        forall|t: int| 0 <= t < factorial(n) ==> #[trigger] is_perm(heap_run(identity_seq(n), n).0[t])
            && heap_run(identity_seq(n), n).0[t].len() == n,
{
    lemma_identity_is_perm(n);
    lemma_heap_run_count(identity_seq(n), n);
    lemma_heap_run_perm(identity_seq(n), n);
}

/// The views of the vectors in `v`.
pub open spec fn views(v: Seq<Vec<usize>>) -> Seq<Seq<usize>> {
    v.map_values(|x: Vec<usize>| x@)
}

/// Heap's method: emits every arrangement of `a[0..k]` into `out`.
pub fn heap_permute(n: usize, a: &mut [usize], k: usize, out: &mut Vec<Vec<usize>>)
    requires
        1 <= k <= old(a)@.len(),
    ensures
        final(a)@ == heap_run(old(a)@, k as nat).1,
        views(final(out)@) == views(old(out)@) + heap_run(old(a)@, k as nat).0,
    decreases k,
{
    if k == 1 {
        let ghost before = views(out@);
        out.push(vstd::slice::slice_to_vec(a));
        assert(views(out@) =~= before + seq![a@]);
        return;
    }
    let ghost a0 = a@;
    let ghost out0 = views(out@);
    heap_permute(n, a, k - 1, out);
    proof {
        lemma_heap_run_len(a0, (k - 1) as nat);
    }
    assert(views(out@) == out0 + heap_run(a0, (k - 1) as nat).0);
    let mut i: usize = 0;
    while i < k - 1
        invariant
            2 <= k <= a@.len(),
            a@.len() == a0.len(),
            i <= k - 1,
            views(out@) + heap_iter(a@, k as nat, i as nat).0 == out0 + heap_run(a0, k as nat).0,
            heap_iter(a@, k as nat, i as nat).1 == heap_run(a0, k as nat).1,
        decreases k - 1 - i,
    {
        let ghost before_a = a@;
        let ghost before_out = views(out@);
        if k % 2 == 0 {
            let x = a[i];
            let y = a[k - 1];
            a[i] = y;
            a[k - 1] = x;
        } else {
            let x = a[0];
            let y = a[k - 1];
            a[0] = y;
            a[k - 1] = x;
        }
        assert(a@ == heap_swap(before_a, k as nat, i as nat));
        heap_permute(n, a, k - 1, out);
        proof {
            lemma_heap_run_len(heap_swap(before_a, k as nat, i as nat), (k - 1) as nat);
            let sub = heap_run(heap_swap(before_a, k as nat, i as nat), (k - 1) as nat);
            let rest = heap_iter(sub.1, k as nat, (i + 1) as nat);
            assert(heap_iter(before_a, k as nat, i as nat) == (sub.0 + rest.0, rest.1));
            assert(views(out@) + rest.0 =~= before_out + (sub.0 + rest.0));
        }
        i += 1;
    }
    proof {
        assert(heap_iter(a@, k as nat, i as nat).0 =~= Seq::<Seq<usize>>::empty());
        assert(views(out@) =~= views(out@) + heap_iter(a@, k as nat, i as nat).0);
    }
}

/// Every arrangement of `0..n`, in the order Heap's method produces them.
pub fn all_permutations(n: usize) -> (r: Vec<Vec<usize>>)
    requires
        n >= 1,
    ensures
        views(r@) == heap_run(identity_seq(n as nat), n as nat).0,
{
    let mut a = identity_perm(n);
    let mut out: Vec<Vec<usize>> = Vec::new();
    assert(views(out@) =~= Seq::<Seq<usize>>::empty());
    heap_permute(n, a.as_mut_slice(), n, &mut out);
    assert(views(out@) =~= Seq::<Seq<usize>>::empty() + heap_run(identity_seq(n as nat), n as nat).0);
    out
}


/// Bit `b` of `x` is set.
pub open spec fn bit_set(x: usize, b: usize) -> bool {
    (x >> b) & 1usize == 1usize
}

proof fn lemma_or_shift_bit(x: usize, p: usize, b: usize)
    requires
        p < usize::BITS,
        b < usize::BITS,
    ensures
        bit_set(x | (1usize << p), b) == (bit_set(x, b) || b == p),
{
    assert(((x | (1usize << p)) >> b) & 1usize == 1usize <==> (((x >> b) & 1usize == 1usize) || b == p))
        by (bit_vector)
        requires
            p < usize::BITS,
            b < usize::BITS,
    ;
}

proof fn lemma_zero_bits(b: usize)
    requires
        b < usize::BITS,
    ensures
        !bit_set(0usize, b),
{
    assert((0usize >> b) & 1usize != 1usize) by (bit_vector);
}

/// `out` is basis state `s` with qubit `q` relabeled as `perm[q]`: bit `b` of
/// `out` is set exactly when some qubit `q` with `perm[q] == b` is set in `s`.
pub open spec fn relabels(s: usize, perm: Seq<usize>, out: usize) -> bool {
    forall|b: usize| b < usize::BITS ==> (#[trigger] bit_set(out, b) <==>
        exists|q: int| 0 <= q < perm.len() && perm[q] == b && bit_set(s, q as usize))
}

/// Index of basis state `s` after relabeling qubit `q` as `qubit_perm[q]`:
/// bit `qubit_perm[q]` of the result is set exactly when bit `q` of `s` is.
pub fn permute_basis_index(s: usize, qubit_perm: &[usize]) -> (out: usize)
    requires
        qubit_perm@.len() <= usize::BITS,
        forall|q: int| 0 <= q < qubit_perm@.len() ==> #[trigger] qubit_perm@[q] < usize::BITS,
    ensures
        relabels(s, qubit_perm@, out),
{
    let mut out: usize = 0;
    let mut q: usize = 0;
    proof {
        assert forall|b: usize| b < usize::BITS implies !#[trigger] bit_set(out, b) by {
            lemma_zero_bits(b);
        }
    }
    while q < qubit_perm.len()
        invariant
            qubit_perm@.len() <= usize::BITS,
            forall|i: int| 0 <= i < qubit_perm@.len() ==> #[trigger] qubit_perm@[i] < usize::BITS,
            q <= qubit_perm@.len(),
            forall|b: usize| b < usize::BITS ==> (#[trigger] bit_set(out, b) <==>
                exists|i: int| 0 <= i < q && qubit_perm@[i] == b && bit_set(s, i as usize)),
        decreases qubit_perm@.len() - q,
    {
        let p = qubit_perm[q];
        if (s >> q) & 1 == 1 {
            let ghost old_out = out;
            out = out | (1usize << p);
            proof {
                assert forall|b: usize| b < usize::BITS implies (#[trigger] bit_set(out, b) <==>
                    exists|i: int| 0 <= i < q + 1 && qubit_perm@[i] == b && bit_set(s, i as usize)) by {
                    lemma_or_shift_bit(old_out, p, b);
                    if b == p {
                        assert(qubit_perm@[q as int] == b && bit_set(s, q));
                    }
                    if exists|i: int| 0 <= i < q + 1 && qubit_perm@[i] == b && bit_set(s, i as usize) {
                        let i = choose|i: int| 0 <= i < q + 1 && qubit_perm@[i] == b && bit_set(s, i as usize);
                        if i < q {
                        } else {
                            assert(b == p);
                        }
                    }
                }
            }
        } else {
            proof {
                assert forall|b: usize| b < usize::BITS implies (#[trigger] bit_set(out, b) <==>
                    exists|i: int| 0 <= i < q + 1 && qubit_perm@[i] == b && bit_set(s, i as usize)) by {
                    if exists|i: int| 0 <= i < q + 1 && qubit_perm@[i] == b && bit_set(s, i as usize) {
                        let i = choose|i: int| 0 <= i < q + 1 && qubit_perm@[i] == b && bit_set(s, i as usize);
                        if i == q {
                            assert(!bit_set(s, q));
                        }
                    }
                }
            }
        }
        q += 1;
    }
    out
}

/// Two machine words with the same bits are equal.
proof fn lemma_bits_determine(x: usize, y: usize, k: usize)
    requires
        k <= usize::BITS,
        forall|b: usize| k <= b < usize::BITS ==> #[trigger] bit_set(x, b) == bit_set(y, b),
    ensures
        x >> k == y >> k,
    decreases usize::BITS - k,
{
    if k == usize::BITS {
        assert(x >> k == 0usize && y >> k == 0usize) by (bit_vector)
            requires
                k == usize::BITS,
        ;
    } else {
        lemma_bits_determine(x, y, (k + 1) as usize);
        assert(bit_set(x, k) == bit_set(y, k));
        assert(x >> k == y >> k) by (bit_vector)
            requires
                k < usize::BITS,
                x >> ((k + 1) as usize) == y >> ((k + 1) as usize),
                ((x >> k) & 1usize == 1usize) == ((y >> k) & 1usize == 1usize),
        ;
    }
}

/// Law: relabeling the qubits of a basis state of `n` qubits by a permutation
/// and then by its inverse (as `inverse_perm` builds it) gives the state back.
pub proof fn lemma_relabel_roundtrip(s: usize, p: Seq<usize>, inv: Seq<usize>, t: usize, u: usize)
    requires
        is_perm(p),
        p.len() <= usize::BITS,
        inv.len() == p.len(),
        forall|k: int| 0 <= k < p.len() ==> #[trigger] inv[k] == last_preimage(p, p.len(), k),
        forall|b: usize| p.len() <= b < usize::BITS ==> !#[trigger] bit_set(s, b),
        relabels(s, p, t),
        relabels(t, inv, u),
    ensures
        u == s,
{
    let n = p.len();
    lemma_inverse_perm(p, inv);
    assert forall|b: usize| 0 <= b < usize::BITS implies #[trigger] bit_set(u, b) == bit_set(s, b) by {
        if (b as int) < n {
            let q = p[b as int];
            assert(inv[q as int] == b);
            assert(bit_set(t, q) == bit_set(s, b)) by {
                if bit_set(t, q) {
                    let r = choose|r: int| 0 <= r < n && p[r] == q && bit_set(s, r as usize);
                    if r != b as int {
                        if r < b as int {
                            assert(p[r] != p[b as int]);
                        } else {
                            assert(p[b as int] != p[r]);
                        }
                    }
                }
            }
            if bit_set(u, b) {
                let q2 = choose|q2: int| 0 <= q2 < n && inv[q2] == b && bit_set(t, q2 as usize);
                if q2 != q as int {
                    assert(p[inv[q2] as int] == q2);
                }
            }
        } else {
            if bit_set(u, b) {
                let q2 = choose|q2: int| 0 <= q2 < n && inv[q2] == b && bit_set(t, q2 as usize);
                assert(inv[q2] < n);
            }
        }
    }
    lemma_bits_determine(u, s, 0);
    assert((u >> 0usize) == u && (s >> 0usize) == s) by (bit_vector);
}

} // verus!
