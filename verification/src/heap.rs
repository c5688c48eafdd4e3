//! Heap's method lists every arrangement exactly once.
//!
//! The proof follows the classical argument.  At level `k` the method runs
//! level `k - 1` on `k` successive block starts; each block keeps the entry at
//! position `k - 1` fixed, and the `k` block starts carry `k` different values
//! there.  The block starts, and the arrangement the method leaves behind, are
//! given below by explicit index maps: entry `j` of the arrangement is entry
//! `src(j)` of the input.

use vstd::prelude::*;
use crate::perm::{is_perm, identity_seq, swap_seq, heap_swap, heap_run, heap_iter};

verus! {

/// Source index of entry `j` of the arrangement left behind by Heap's method
/// at level `k` (for `j < k`).
spec fn fin_src(k: int, j: int) -> int {
    if k <= 1 {
        j
    } else if k == 2 {
        1 - j
    } else if k % 2 == 1 {
        if j == 0 { k - 1 } else if j == k - 1 { 0 } else { j }
    } else if j == 0 {
        k - 3
    } else if j == 1 {
        k - 2
    } else if j == k - 2 {
        k - 1
    } else if j == k - 1 {
        0
    } else {
        j - 1
    }
}

/// Index that maps back through `fin_src`.
spec fn fin_inv(k: int, x: int) -> int {
    if k <= 1 {
        x
    } else if k == 2 {
        1 - x
    } else if k % 2 == 1 {
        if x == 0 { k - 1 } else if x == k - 1 { 0 } else { x }
    } else if x == k - 3 {
        0
    } else if x == k - 2 {
        1
    } else if x == k - 1 {
        k - 2
    } else if x == 0 {
        k - 1
    } else {
        x + 1
    }
}

/// Even level `k`: source index of entry `j` at the start of block `i`.
spec fn even_src(k: int, i: int, j: int) -> int {
    if i == 0 {
        j
    } else if i == 1 {
        if j == 0 { k - 1 } else if j == k - 2 { 0 } else if j == k - 1 { k - 2 } else { j }
    } else if i == k - 1 {
        if j == 0 { k - 1 } else if j == 1 { k - 2 } else if j == k - 1 { 0 } else { j - 1 }
    } else if j == 0 {
        if i % 2 == 1 { k - 1 } else { 0 }
    } else if j == 1 {
        k - 2
    } else if j == k - 2 {
        if i % 2 == 1 { 0 } else { k - 1 }
    } else if j == k - 1 {
        i - 1
    } else if j < i {
        j - 1
    } else {
        j
    }
}

/// Odd level `k`: the cycle that the block starts run the positions through.
spec fn orbit(k: int, t: int) -> int {
    if k == 3 {
        2 - t
    } else if t == 0 {
        k - 1
    } else if t <= k - 4 {
        k - 3 - t
    } else if t == k - 3 {
        k - 3
    } else if t == k - 2 {
        k - 2
    } else {
        0
    }
}

/// Place of index `j` on the cycle `orbit`.
spec fn orbit_inv(k: int, j: int) -> int {
    if k == 3 {
        2 - j
    } else if j == k - 1 {
        0
    } else if j == 0 {
        k - 1
    } else if j == k - 3 {
        k - 3
    } else if j == k - 2 {
        k - 2
    } else {
        k - 3 - j
    }
}

/// `t + i` modulo `k`, for `t < k` and `i <= k`.
spec fn rot(t: int, i: int, k: int) -> int {
    if t + i < k { t + i } else { t + i - k }
}

/// Odd level `k`: source index of entry `j` at the start of block `i`.
spec fn odd_src(k: int, i: int, j: int) -> int {
    orbit(k, rot(orbit_inv(k, j), i, k))
}

/// Source index of entry `j` at the start of block `i` of level `k`.
spec fn start_src(k: int, i: int, j: int) -> int {
    if k % 2 == 0 { even_src(k, i, j) } else { odd_src(k, i, j) }
}

/// Block `i` whose start carries source index `x` at position `k - 1`.
spec fn last_inv(k: int, x: int) -> int {
    if k % 2 == 1 {
        orbit_inv(k, x)
    } else if x == k - 1 {
        0
    } else if x == k - 2 {
        1
    } else if x == 0 {
        k - 1
    } else {
        x + 1
    }
}

/// Index map of one block step: the level `k - 1` run, then the swap.
spec fn step_src(k: int, i: int, j: int) -> int {
    let x = if k % 2 == 0 {
        if j == i { k - 1 } else if j == k - 1 { i } else { j }
    } else {
        if j == 0 { k - 1 } else if j == k - 1 { 0 } else { j }
    };
    if x < k - 1 { fin_src(k - 1, x) } else { x }
}

proof fn lemma_fin_src(k: int, j: int)
    requires
        1 <= k,
        0 <= j < k,
    ensures
        0 <= fin_src(k, j) < k,
        0 <= fin_inv(k, j) < k,
        fin_inv(k, fin_src(k, j)) == j,
        fin_src(k, fin_inv(k, j)) == j,
{
}

proof fn lemma_orbit(k: int, t: int)
    requires
        3 <= k,
        k % 2 == 1,
        0 <= t < k,
    ensures
        0 <= orbit(k, t) < k,
        0 <= orbit_inv(k, t) < k,
        orbit_inv(k, orbit(k, t)) == t,
        orbit(k, orbit_inv(k, t)) == t,
        step_src(k, 0, orbit(k, t)) == orbit(k, rot(t, 1, k)),
{
}

proof fn lemma_even_step(k: int, i: int, j: int)
    requires
        2 <= k,
        k % 2 == 0,
        0 <= i <= k - 2,
        0 <= j < k,
    ensures
        0 <= even_src(k, i, j) < k,
        even_src(k, i + 1, j) == even_src(k, i, step_src(k, i, j)),
{
}

proof fn lemma_odd_step(k: int, i: int, j: int)
    requires
        3 <= k,
        k % 2 == 1,
        0 <= i < k,
        0 <= j < k,
    ensures
        0 <= odd_src(k, i, j) < k,
        odd_src(k, i + 1, j) == odd_src(k, i, step_src(k, i, j)),
{
    let t = orbit_inv(k, j);
    lemma_orbit(k, t);
    lemma_orbit(k, j);
    lemma_orbit(k, rot(t, i, k));
    lemma_orbit(k, rot(t, 1, k));
    assert(step_src(k, i, j) == step_src(k, 0, j));
}


/// Level `k`: the source index of entry `j` after the level `k - 1` run on the
/// last block start equals the source index of the final arrangement.
proof fn lemma_final_src(k: int, j: int)
    requires
        2 <= k,
        0 <= j < k,
    ensures
        start_src(k, k - 1, if j < k - 1 { fin_src(k - 1, j) } else { j }) == fin_src(k, j),
{
    if k % 2 == 1 {
        let y = if j == 0 { k - 1 } else if j == k - 1 { 0 } else { j };
        lemma_odd_step(k, k - 1, y);
        let t = orbit_inv(k, y);
        lemma_orbit(k, y);
        assert(rot(t, k, k) == t);
    }
}

proof fn lemma_last_src(k: int, i: int, x: int)
    requires
        2 <= k,
        0 <= i < k,
        0 <= x < k,
    ensures
        0 <= start_src(k, i, k - 1) < k,
        last_inv(k, start_src(k, i, k - 1)) == i,
        0 <= last_inv(k, x) < k,
        start_src(k, last_inv(k, x), k - 1) == x,
{
    if k % 2 == 1 {
        lemma_orbit(k, k - 1);
        lemma_orbit(k, i);
        lemma_orbit(k, x);
        lemma_orbit(k, orbit_inv(k, x));
    }
}

/// No value occurs twice in `s`.
spec fn no_dup(s: Seq<usize>) -> bool {
    forall|i: int, j: int| 0 <= i < j < s.len() ==> #[trigger] s[i] != #[trigger] s[j]
}

/// `x` occurs among the first `k` entries of `a`.
spec fn in_prefix(a: Seq<usize>, k: int, x: usize) -> bool {
    exists|j: int| 0 <= j < k && #[trigger] a[j] == x
}

/// `b` rearranges the first `k` entries of `a` and keeps the others in place.
spec fn arrangement(b: Seq<usize>, a: Seq<usize>, k: int) -> bool {
    &&& b.len() == a.len()
    &&& no_dup(b)
    &&& forall|j: int| k <= j < a.len() ==> #[trigger] b[j] == a[j]
    &&& forall|j: int| 0 <= j < k ==> in_prefix(a, k, #[trigger] b[j])
}

/// The arrangement Heap's method leaves behind at level `k`.
spec fn final_form(a: Seq<usize>, k: int) -> Seq<usize> {
    Seq::new(a.len(), |j: int| if j < k { a[fin_src(k, j)] } else { a[j] })
}

/// The start of block `i` at level `k`.
spec fn block_start(a: Seq<usize>, k: int, i: int) -> Seq<usize> {
    Seq::new(a.len(), |j: int| if j < k { a[start_src(k, i, j)] } else { a[j] })
}

proof fn lemma_block_zero(a: Seq<usize>, k: int)
    requires
        2 <= k <= a.len(),
    ensures
        block_start(a, k, 0) == a,
{
    assert forall|j: int| 0 <= j < a.len() implies #[trigger] block_start(a, k, 0)[j] == a[j] by {
        if j < k && k % 2 == 1 {
            lemma_orbit(k, j);
        }
    }
    assert(block_start(a, k, 0) =~= a);
}

proof fn lemma_block_step(a: Seq<usize>, k: int, i: int)
    requires
        2 <= k <= a.len(),
        0 <= i,
        i + 1 < k || (k % 2 == 1 && i < k),
    ensures
        block_start(a, k, i + 1) == heap_swap(final_form(block_start(a, k, i), k - 1), k as nat, i as nat),
{
    let s = block_start(a, k, i);
    let g = final_form(s, k - 1);
    let r = heap_swap(g, k as nat, i as nat);
    assert forall|j: int| 0 <= j < a.len() implies #[trigger] r[j] == block_start(a, k, i + 1)[j] by {
        if j < k {
            let x = if k % 2 == 0 {
                if j == i { k - 1 } else if j == k - 1 { i } else { j }
            } else {
                if j == 0 { k - 1 } else if j == k - 1 { 0 } else { j }
            };
            assert(r[j] == g[x]);
            if x < k - 1 {
                lemma_fin_src(k - 1, x);
            }
            if k % 2 == 0 {
                lemma_even_step(k, i, j);
            } else {
                lemma_odd_step(k, i, j);
            }
        }
    }
    assert(r =~= block_start(a, k, i + 1));
}


proof fn lemma_block_final(a: Seq<usize>, k: int)
    requires
        2 <= k <= a.len(),
    ensures
        final_form(block_start(a, k, k - 1), k - 1) == final_form(a, k),
{
    let s = block_start(a, k, k - 1);
    let g = final_form(s, k - 1);
    assert forall|j: int| 0 <= j < a.len() implies #[trigger] g[j] == final_form(a, k)[j] by {
        if j < k {
            if j < k - 1 {
                lemma_fin_src(k - 1, j);
            }
            lemma_final_src(k, j);
        }
    }
    assert(g =~= final_form(a, k));
}

proof fn lemma_arr_refl(a: Seq<usize>, k: int)
    requires
        no_dup(a),
        0 <= k <= a.len(),
    ensures
        arrangement(a, a, k),
{
    assert forall|j: int| 0 <= j < k implies in_prefix(a, k, #[trigger] a[j]) by {}
}

proof fn lemma_arr_weaken(b: Seq<usize>, a: Seq<usize>, k: int)
    requires
        arrangement(b, a, k - 1),
        1 <= k <= a.len(),
    ensures
        arrangement(b, a, k),
{
    assert forall|j: int| 0 <= j < k implies in_prefix(a, k, #[trigger] b[j]) by {
        if j < k - 1 {
            let p = choose|p: int| 0 <= p < k - 1 && #[trigger] a[p] == b[j];
            assert(a[p] == b[j]);
        } else {
            assert(a[j] == b[j]);
        }
    }
}

proof fn lemma_arr_trans(c: Seq<usize>, b: Seq<usize>, a: Seq<usize>, k: int)
    requires
        arrangement(c, b, k),
        arrangement(b, a, k),
    ensures
        arrangement(c, a, k),
{
    assert forall|j: int| 0 <= j < k implies in_prefix(a, k, #[trigger] c[j]) by {
        let p = choose|p: int| 0 <= p < k && #[trigger] b[p] == c[j];
        assert(in_prefix(a, k, b[p]));
        let q = choose|q: int| 0 <= q < k && #[trigger] a[q] == b[p];
        assert(a[q] == c[j]);
    }
}

proof fn lemma_arr_swap(b: Seq<usize>, a: Seq<usize>, k: int, p: int, q: int)
    requires
        arrangement(b, a, k),
        0 <= p < k,
        0 <= q < k,
        k <= a.len(),
    ensures
        arrangement(swap_seq(b, p, q), a, k),
{
    let c = swap_seq(b, p, q);
    assert forall|x: int, y: int| 0 <= x < y < c.len() implies #[trigger] c[x] != #[trigger] c[y] by {
        let sx = if x == q { p } else if x == p { q } else { x };
        let sy = if y == q { p } else if y == p { q } else { y };
        assert(c[x] == b[sx]);
        assert(c[y] == b[sy]);
        if sx < sy {
            assert(b[sx] != b[sy]);
        } else {
            assert(b[sy] != b[sx]);
        }
    }
    assert forall|j: int| 0 <= j < k implies in_prefix(a, k, #[trigger] c[j]) by {
        let sj = if j == q { p } else if j == p { q } else { j };
        assert(c[j] == b[sj]);
    }
    assert forall|j: int| k <= j < a.len() implies #[trigger] c[j] == a[j] by {
        assert(c[j] == b[j]);
    }
}

proof fn lemma_final_arr(a: Seq<usize>, k: int)
    requires
        no_dup(a),
        1 <= k <= a.len(),
    ensures
        arrangement(final_form(a, k), a, k),
{
    let f = final_form(a, k);
    assert forall|x: int, y: int| 0 <= x < y < f.len() implies #[trigger] f[x] != #[trigger] f[y] by {
        let sx = if x < k { fin_src(k, x) } else { x };
        let sy = if y < k { fin_src(k, y) } else { y };
        if x < k {
            lemma_fin_src(k, x);
        }
        if y < k {
            lemma_fin_src(k, y);
        }
        assert(sx != sy);
        if sx < sy {
            assert(a[sx] != a[sy]);
        } else {
            assert(a[sy] != a[sx]);
        }
    }
    assert forall|j: int| 0 <= j < k implies in_prefix(a, k, #[trigger] f[j]) by {
        lemma_fin_src(k, j);
        assert(a[fin_src(k, j)] == f[j]);
    }
}

proof fn lemma_block_arr(a: Seq<usize>, k: int, i: int)
    requires
        no_dup(a),
        2 <= k <= a.len(),
        0 <= i < k,
    ensures
        arrangement(block_start(a, k, i), a, k),
    decreases i,
{
    if i == 0 {
        lemma_block_zero(a, k);
        lemma_arr_refl(a, k);
    } else {
        lemma_block_arr(a, k, i - 1);
        let s = block_start(a, k, i - 1);
        let g = final_form(s, k - 1);
        lemma_final_arr(s, k - 1);
        lemma_arr_weaken(g, s, k);
        lemma_arr_trans(g, s, a, k);
        lemma_block_step(a, k, i - 1);
        if k % 2 == 0 {
            lemma_arr_swap(g, a, k, i - 1, k - 1);
        } else {
            lemma_arr_swap(g, a, k, 0, k - 1);
        }
    }
}

/// Pigeonhole: if the first `k` entries of `b` all occur among the first `k`
/// entries of `a` and neither repeats a value, every one of `a`'s occurs in `b`'s.
proof fn lemma_prefix_onto(b: Seq<usize>, a: Seq<usize>, k: int)
    requires
        0 <= k <= a.len(),
        k <= b.len(),
        no_dup(a),
        no_dup(b),
        forall|j: int| 0 <= j < k ==> in_prefix(a, k, #[trigger] b[j]),
    ensures
        forall|j: int| 0 <= j < k ==> in_prefix(b, k, #[trigger] a[j]),
{
    let sa = a.take(k);
    let sb = b.take(k);
    assert(sa.no_duplicates()) by {
        assert forall|x: int, y: int| 0 <= x < sa.len() && 0 <= y < sa.len() && x != y implies sa[x] != sa[y] by {
            if x < y {
                assert(a[x] != a[y]);
            } else {
                assert(a[y] != a[x]);
            }
        }
    }
    assert(sb.no_duplicates()) by {
        assert forall|x: int, y: int| 0 <= x < sb.len() && 0 <= y < sb.len() && x != y implies sb[x] != sb[y] by {
            if x < y {
                assert(b[x] != b[y]);
            } else {
                assert(b[y] != b[x]);
            }
        }
    }
    sa.unique_seq_to_set();
    sb.unique_seq_to_set();
    vstd::seq_lib::seq_to_set_is_finite(sa);
    vstd::seq_lib::seq_to_set_is_finite(sb);
    assert(sb.to_set().subset_of(sa.to_set())) by {
        assert forall|x: usize| sb.to_set().contains(x) implies sa.to_set().contains(x) by {
            let j = choose|j: int| 0 <= j < sb.len() && sb[j] == x;
            assert(b[j] == x);
            assert(in_prefix(a, k, b[j]));
            let p = choose|p: int| 0 <= p < k && #[trigger] a[p] == b[j];
            assert(sa[p] == x);
        }
    }
    vstd::set_lib::lemma_subset_equality(sb.to_set(), sa.to_set());
    assert forall|j: int| 0 <= j < k implies in_prefix(b, k, #[trigger] a[j]) by {
        assert(sa[j] == a[j]);
        assert(sa.to_set().contains(a[j]));
        assert(sb.to_set().contains(a[j]));
        let q = choose|q: int| 0 <= q < sb.len() && sb[q] == a[j];
        assert(b[q] == a[j]);
    }
}


/// An arrangement of `a` is also one of any other arrangement `y` of `a`.
proof fn lemma_arr_rebase(b: Seq<usize>, y: Seq<usize>, a: Seq<usize>, k: int)
    requires
        arrangement(b, a, k),
        arrangement(y, a, k),
        no_dup(a),
        0 <= k <= a.len(),
    ensures
        arrangement(b, y, k),
{
    lemma_prefix_onto(y, a, k);
    assert forall|j: int| 0 <= j < k implies in_prefix(y, k, #[trigger] b[j]) by {
        let p = choose|p: int| 0 <= p < k && #[trigger] a[p] == b[j];
        assert(in_prefix(y, k, a[p]));
    }
}

/// An arrangement that keeps entry `k - 1` in place rearranges only the first `k - 1`.
proof fn lemma_arr_narrow(b: Seq<usize>, a: Seq<usize>, k: int)
    requires
        arrangement(b, a, k),
        1 <= k <= a.len(),
        b[k - 1] == a[k - 1],
    ensures
        arrangement(b, a, k - 1),
{
    assert forall|j: int| 0 <= j < k - 1 implies in_prefix(a, k - 1, #[trigger] b[j]) by {
        let p = choose|p: int| 0 <= p < k && #[trigger] a[p] == b[j];
        if p == k - 1 {
            assert(b[j] != b[k - 1]);
        }
        assert(a[p] == b[j]);
    }
}

/// Entries at position `k - 1` of different block starts differ.
proof fn lemma_last_distinct(a: Seq<usize>, k: int, u: int, v: int)
    requires
        no_dup(a),
        2 <= k <= a.len(),
        0 <= u < k,
        0 <= v < k,
        u != v,
    ensures
        a[start_src(k, u, k - 1)] != a[start_src(k, v, k - 1)],
{
    lemma_last_src(k, u, 0);
    lemma_last_src(k, v, 0);
    let x = start_src(k, u, k - 1);
    let y = start_src(k, v, k - 1);
    assert(x != y);
    if x < y {
        assert(a[x] != a[y]);
    } else {
        assert(a[y] != a[x]);
    }
}

proof fn lemma_run_exact(a: Seq<usize>, k: nat)
    requires
        no_dup(a),
        1 <= k <= a.len(),
    ensures
        heap_run(a, k).1 == final_form(a, k as int),
        forall|t: int| 0 <= t < heap_run(a, k).0.len() ==> arrangement(#[trigger] heap_run(a, k).0[t], a, k as int),
        forall|s: int, t: int| 0 <= s < t < heap_run(a, k).0.len()
            ==> #[trigger] heap_run(a, k).0[s] != #[trigger] heap_run(a, k).0[t],
        forall|b: Seq<usize>| #[trigger] arrangement(b, a, k as int) ==> heap_run(a, k).0.contains(b),
    decreases k, 1nat, 0nat,
{
    let out = heap_run(a, k).0;
    if k == 1 {
        assert(final_form(a, 1) =~= a);
        lemma_arr_refl(a, 1);
        assert(out[0] == a);
        assert forall|b: Seq<usize>| #[trigger] arrangement(b, a, 1) implies out.contains(b) by {
            let p = choose|p: int| 0 <= p < 1 && #[trigger] a[p] == b[0];
            assert(b =~= a);
        }
    } else {
        let ki = k as int;
        let km = (k - 1) as nat;
        let first = heap_run(a, km);
        lemma_run_exact(a, km);
        lemma_block_zero(a, ki);
        lemma_iter_exact(a, k, 0);
        let rest = heap_iter(first.1, k, 0);
        assert(out == first.0 + rest.0);
        lemma_last_src(ki, 0, 0);
        let c0 = a[start_src(ki, 0, ki - 1)];
        assert(c0 == a[ki - 1]);
        assert forall|t: int| 0 <= t < out.len() implies arrangement(#[trigger] out[t], a, ki) by {
            if t < first.0.len() {
                assert(out[t] == first.0[t]);
                lemma_arr_weaken(first.0[t], a, ki);
            } else {
                assert(out[t] == rest.0[t - first.0.len()]);
            }
        }
        assert forall|s: int, t: int| 0 <= s < t < out.len() implies #[trigger] out[s] != #[trigger] out[t] by {
            if t < first.0.len() {
                assert(out[s] == first.0[s]);
                assert(out[t] == first.0[t]);
            } else if s >= first.0.len() {
                assert(out[s] == rest.0[s - first.0.len()]);
                assert(out[t] == rest.0[t - first.0.len()]);
            } else {
                assert(out[s] == first.0[s]);
                assert(out[t] == rest.0[t - first.0.len()]);
                assert(first.0[s][ki - 1] == a[ki - 1]);
                assert(rest.0[t - first.0.len()][ki - 1] != c0);
            }
        }
        assert forall|b: Seq<usize>| #[trigger] arrangement(b, a, ki) implies out.contains(b) by {
            if b[ki - 1] == a[ki - 1] {
                lemma_arr_narrow(b, a, ki);
                assert(first.0.contains(b));
                let q = choose|q: int| 0 <= q < first.0.len() && first.0[q] == b;
                assert(out[q] == b);
            } else {
                assert forall|u: int| 0 <= u <= 0 implies b[ki - 1] != #[trigger] a[start_src(ki, u, ki - 1)] by {}
                assert(rest.0.contains(b));
                let q = choose|q: int| 0 <= q < rest.0.len() && rest.0[q] == b;
                assert(out[q + first.0.len()] == b);
            }
        }
    }
}

proof fn lemma_iter_exact(a: Seq<usize>, k: nat, i: nat)
    requires
        no_dup(a),
        2 <= k <= a.len(),
        i < k,
    ensures
        ({
            let r = heap_iter(final_form(block_start(a, k as int, i as int), k - 1), k, i);
            &&& r.1 == final_form(a, k as int)
            &&& forall|t: int| 0 <= t < r.0.len() ==> arrangement(#[trigger] r.0[t], a, k as int)
            &&& forall|t: int, u: int| 0 <= t < r.0.len() && 0 <= u <= i
                ==> #[trigger] r.0[t][k - 1] != #[trigger] a[start_src(k as int, u, k - 1)]
            &&& forall|s: int, t: int| 0 <= s < t < r.0.len() ==> #[trigger] r.0[s] != #[trigger] r.0[t]
            &&& forall|b: Seq<usize>| #[trigger] arrangement(b, a, k as int)
                && (forall|u: int| 0 <= u <= i ==> b[k - 1] != #[trigger] a[start_src(k as int, u, k - 1)])
                ==> r.0.contains(b)
        }),
    decreases k, 0nat, k - i,
{
    let ki = k as int;
    let ii = i as int;
    let x = final_form(block_start(a, ki, ii), ki - 1);
    let r = heap_iter(x, k, i);
    if i + 1 >= k {
        lemma_block_final(a, ki);
        assert forall|b: Seq<usize>| #[trigger] arrangement(b, a, ki)
            && (forall|u: int| 0 <= u <= i ==> b[k - 1] != #[trigger] a[start_src(ki, u, ki - 1)])
            implies r.0.contains(b) by {
            let p = choose|p: int| 0 <= p < ki && #[trigger] a[p] == b[ki - 1];
            lemma_last_src(ki, 0, p);
            let u = last_inv(ki, p);
            assert(a[start_src(ki, u, ki - 1)] == b[ki - 1]);
        }
    } else {
        let y = heap_swap(x, k, i);
        lemma_block_step(a, ki, ii);
        lemma_block_arr(a, ki, ii + 1);
        let km = (k - 1) as nat;
        let sub = heap_run(y, km);
        lemma_run_exact(y, km);
        lemma_iter_exact(a, k, i + 1);
        let rest = heap_iter(sub.1, k, i + 1);
        assert(r == (sub.0 + rest.0, rest.1));
        lemma_last_src(ki, ii + 1, 0);
        let c = a[start_src(ki, ii + 1, ki - 1)];
        assert(y[ki - 1] == c);
        assert forall|t: int| 0 <= t < sub.0.len() implies #[trigger] sub.0[t][ki - 1] == c
            && arrangement(sub.0[t], a, ki) by {
            lemma_arr_weaken(sub.0[t], y, ki);
            lemma_arr_trans(sub.0[t], y, a, ki);
        }
        assert forall|t: int| 0 <= t < r.0.len() implies arrangement(#[trigger] r.0[t], a, ki) by {
            if t < sub.0.len() {
                assert(r.0[t] == sub.0[t]);
            } else {
                assert(r.0[t] == rest.0[t - sub.0.len()]);
            }
        }
        assert forall|t: int, u: int| 0 <= t < r.0.len() && 0 <= u <= i
            implies #[trigger] r.0[t][k - 1] != #[trigger] a[start_src(ki, u, ki - 1)] by {
            if t < sub.0.len() {
                assert(r.0[t] == sub.0[t]);
                lemma_last_distinct(a, ki, u, ii + 1);
            } else {
                assert(r.0[t] == rest.0[t - sub.0.len()]);
            }
        }
        assert forall|s: int, t: int| 0 <= s < t < r.0.len() implies #[trigger] r.0[s] != #[trigger] r.0[t] by {
            if t < sub.0.len() {
                assert(r.0[s] == sub.0[s]);
                assert(r.0[t] == sub.0[t]);
            } else if s >= sub.0.len() {
                assert(r.0[s] == rest.0[s - sub.0.len()]);
                assert(r.0[t] == rest.0[t - sub.0.len()]);
            } else {
                assert(r.0[s] == sub.0[s]);
                assert(r.0[t] == rest.0[t - sub.0.len()]);
                assert(rest.0[t - sub.0.len()][ki - 1] != c);
            }
        }
        assert forall|b: Seq<usize>| #[trigger] arrangement(b, a, ki)
            && (forall|u: int| 0 <= u <= i ==> b[k - 1] != #[trigger] a[start_src(ki, u, ki - 1)])
            implies r.0.contains(b) by {
            if b[ki - 1] == c {
                lemma_arr_rebase(b, y, a, ki);
                lemma_arr_narrow(b, y, ki);
                assert(sub.0.contains(b));
                let q = choose|q: int| 0 <= q < sub.0.len() && sub.0[q] == b;
                assert(r.0[q] == b);
            } else {
                assert forall|u: int| 0 <= u <= i + 1 implies b[k - 1] != #[trigger] a[start_src(ki, u, ki - 1)] by {}
                assert(rest.0.contains(b));
                let q = choose|q: int| 0 <= q < rest.0.len() && rest.0[q] == b;
                assert(r.0[q + sub.0.len()] == b);
            }
        }
    }
}


/// Law: Heap's method, as `all_permutations(n)` runs it, lists every
/// permutation of `0..n`, and lists none of them twice.
pub proof fn lemma_all_permutations_exact(n: nat)
    requires
        1 <= n <= usize::MAX,
    ensures
        forall|s: int, t: int| 0 <= s < t < heap_run(identity_seq(n), n).0.len()
            ==> #[trigger] heap_run(identity_seq(n), n).0[s] != #[trigger] heap_run(identity_seq(n), n).0[t],
        forall|p: Seq<usize>| p.len() == n && #[trigger] is_perm(p) ==> heap_run(identity_seq(n), n).0.contains(p),
{
    let a = identity_seq(n);
    assert forall|i: int, j: int| 0 <= i < j < a.len() implies #[trigger] a[i] != #[trigger] a[j] by {}
    lemma_run_exact(a, n);
    assert forall|p: Seq<usize>| p.len() == n && #[trigger] is_perm(p) implies heap_run(a, n).0.contains(p) by {
        assert forall|j: int| 0 <= j < n implies in_prefix(a, n as int, #[trigger] p[j]) by {
            assert(a[p[j] as int] == p[j]);
        }
        assert(arrangement(p, a, n as int));
    }
}

} // verus!
