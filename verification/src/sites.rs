//! Choice of special sites on chains, grids and cubes: excitation windows,
//! evenly spaced mass sites, clock sites and the central defect site.

use vstd::prelude::*;

verus! {

/// `lo, lo+1, ..., hi` (empty when `hi < lo`).
pub open spec fn range_seq(lo: int, hi: int) -> Seq<usize> {
    Seq::new(if hi >= lo { (hi - lo + 1) as nat } else { 0 }, |k: int| (lo + k) as usize)
}

/// Sites within `radius` of `peak`, clipped to a chain of `n_chain` sites.
pub open spec fn window_range(peak: int, radius: int, n_chain: int) -> Seq<usize> {
    let lo = if peak >= radius { peak - radius } else { 0 };
    let hi = if peak + radius <= n_chain - 1 { peak + radius } else { n_chain - 1 };
    range_seq(lo, hi)
}

/// Sites within `radius` of `peak`, clipped to a chain of `n_chain` sites.
pub fn window_sites(peak: usize, radius: usize, n_chain: usize) -> (r: Vec<usize>)
    requires
        n_chain >= 1,
        peak + radius <= usize::MAX,
    ensures
        r@ == window_range(peak as int, radius as int, n_chain as int),
{
    let lo = peak.saturating_sub(radius);
    let hi = if peak + radius <= n_chain - 1 { peak + radius } else { n_chain - 1 };
    let mut r: Vec<usize> = Vec::new();
    if hi < lo {
        assert(r@ =~= window_range(peak as int, radius as int, n_chain as int));
        return r;
    }
    let mut s = lo;
    while s <= hi
        invariant
            lo <= s <= hi + 1,
            hi < usize::MAX,
            r@ == range_seq(lo as int, s as int - 1),
        decreases hi + 1 - s,
    {
        r.push(s);
        s += 1;
        assert(r@ =~= range_seq(lo as int, s as int - 1));
    }
    r
}

/// Law: the excitation window stays on the chain, holds the peak when the
/// peak is a chain site, and widening the radius only adds sites to it.
pub proof fn lemma_window_nested(peak: int, radius: int, wider: int, n_chain: int)
    requires
        0 <= peak,
        0 <= radius <= wider,
        1 <= n_chain <= usize::MAX,
    ensures
        forall|k: int| 0 <= k < window_range(peak, radius, n_chain).len()
            ==> #[trigger] window_range(peak, radius, n_chain)[k] < n_chain,
        peak < n_chain ==> window_range(peak, radius, n_chain).contains(peak as usize),
        forall|k: int| 0 <= k < window_range(peak, radius, n_chain).len()
            ==> window_range(peak, wider, n_chain).contains(#[trigger] window_range(peak, radius, n_chain)[k]),
{
    let w = window_range(peak, radius, n_chain);
    let v = window_range(peak, wider, n_chain);
    let lo = if peak >= radius { peak - radius } else { 0 };
    let lo2 = if peak >= wider { peak - wider } else { 0 };
    if peak < n_chain {
        assert(w[peak - lo] == peak as usize);
    }
    assert forall|k: int| 0 <= k < w.len() implies v.contains(#[trigger] w[k]) by {
        assert(v[lo + k - lo2] == w[k]);
    }
}

/// Number of mass sites actually placed: `count` clamped to `1..=n`.
pub open spec fn clamp_count(count: int, n: int) -> int {
    if count < 1 { 1 } else if count > n { n } else { count }
}

/// Position of the `i`-th of `c` evenly spaced sites on `[lo, hi]`:
/// `lo + round((hi - lo) * i / (c - 1))`, halves rounded up.
pub open spec fn spaced(lo: int, hi: int, i: int, c: int) -> int {
    lo + (2 * (hi - lo) * i + (c - 1)) / (2 * (c - 1))
}

/// Evenly spaced excitation sites in the inner half of a chain of `n` sites.
pub open spec fn mass_sites(n: int, count: int) -> Seq<usize> {
    let c = clamp_count(count, n);
    let lo = n / 4;
    let hi = n - 1 - n / 4;
    if c == 1 {
        seq![(n / 2) as usize]
    } else if hi <= lo {
        Seq::new(c as nat, |i: int| (if i * n / c < n - 1 { i * n / c } else { n - 1 }) as usize)
    } else {
        Seq::new(c as nat, |i: int| spaced(lo, hi, i, c) as usize)
    }
}

/// Evenly spaced excitation sites in the inner half of the chain.
/// Positions are rounded to the nearest site, halves up; below `n = 2^26`
/// this agrees with rounding the ratio `(hi − lo)·i / (count − 1)` computed
/// in double precision.
pub fn mass_sites_evenly(n: usize, count: usize) -> (r: Vec<usize>)
    requires
        1 <= n < 0x400_0000,
    ensures
        r@ == mass_sites(n as int, count as int),
{
    let count = if count < 1 { 1 } else if count > n { n } else { count };
    if count == 1 {
        return vec![n / 2];
    }
    let lo = n / 4;
    let hi = n.saturating_sub(1).saturating_sub(n / 4);
    let mut r: Vec<usize> = Vec::new();
    if hi <= lo {
        assert(n <= 1);
        let mut i: usize = 0;
        while i < count
            invariant
                n <= 1,
                count <= n,
                i <= count,
                r@ == mass_sites(n as int, count as int).subrange(0, i as int),
                hi <= lo,
                lo == n / 4,
                hi == n - 1 - n / 4,
                count == clamp_count(count as int, n as int),
            decreases count - i,
        {
            assert(i * n <= n) by (nonlinear_arith)
                requires
                    i < count,
                    count <= n,
                    n <= 1,
            ;
            let v = i * n / count;
            r.push(if v < n - 1 { v } else { n - 1 });
            i += 1;
        }
        return r;
    }
    let span = hi - lo;
    let denom = 2 * (count - 1);
    let mut i: usize = 0;
    while i < count
        invariant
            2 <= count <= n < 0x400_0000,
            lo == n / 4,
            hi == n - 1 - n / 4,
            lo < hi,
            span == hi - lo,
            denom == 2 * (count - 1),
            i <= count,
            r@ == Seq::new(i as nat, |k: int| spaced(lo as int, hi as int, k, count as int) as usize),
        decreases count - i,
    {
        assert(2 * span * i + (count - 1) < 0x400_0000 * 0x400_0000 * 4) by (nonlinear_arith)
            requires
                span < 0x400_0000,
                i <= count,
                count < 0x400_0000,
        ;
        let num: u64 = 2 * (span as u64) * (i as u64) + ((count - 1) as u64);
        let off_w: u64 = num / (denom as u64);
        assert(off_w <= span) by (nonlinear_arith)
            requires
                off_w == (2 * span * i + (count - 1)) / (2 * (count - 1)),
                i < count,
                count >= 2,
                span >= 0,
        ;
        let off = off_w as usize;
        r.push(lo + off);
        i += 1;
        assert(r@ =~= Seq::new(i as nat, |k: int| spaced(lo as int, hi as int, k, count as int) as usize));
    }
    assert(r@ =~= mass_sites(n as int, count as int));
    r
}


proof fn lemma_spaced_monotone(span: int, i: int, j: int, c: int)
    requires
        c >= 2,
        span >= 0,
        0 <= i <= j,
    ensures
        (2 * span * i + (c - 1)) / (2 * (c - 1)) <= (2 * span * j + (c - 1)) / (2 * (c - 1)),
{
    assert(2 * span * i <= 2 * span * j) by (nonlinear_arith)
        requires
            span >= 0,
            i <= j,
    ;
    vstd::arithmetic::div_mod::lemma_div_is_ordered(2 * span * i + (c - 1), 2 * span * j + (c - 1), 2 * (c - 1));
}

/// Law: for at least two sites on a chain of `n >= 2`, the evenly spaced mass
/// sites start at `n/4`, end at `n-1-n/4`, never decrease, and stay inside that
/// inner half of the chain; a single site is the centre `n/2`.
pub proof fn lemma_mass_sites_inner_half(n: int, count: int)
    requires
        2 <= n <= usize::MAX,
    ensures
        clamp_count(count, n) == 1 ==> mass_sites(n, count) == seq![(n / 2) as usize],
        clamp_count(count, n) >= 2 ==> {
            let s = mass_sites(n, count);
            let c = clamp_count(count, n);
            &&& s.len() == c
            &&& s[0] == n / 4
            &&& s[c - 1] == n - 1 - n / 4
            &&& forall|i: int| 0 <= i < c ==> n / 4 <= #[trigger] s[i] <= n - 1 - n / 4
            &&& forall|i: int, j: int| 0 <= i <= j < c ==> #[trigger] s[i] <= #[trigger] s[j]
        },
{
    let c = clamp_count(count, n);
    let lo = n / 4;
    let hi = n - 1 - n / 4;
    assert(lo < hi);
    if c >= 2 {
        let span = hi - lo;
        let s = mass_sites(n, count);
        assert forall|i: int| 0 <= i < c implies lo <= #[trigger] s[i] <= hi && s[i] == spaced(lo, hi, i, c) by {
            lemma_spaced_monotone(span, 0, i, c);
            lemma_spaced_monotone(span, i, c - 1, c);
            assert((2 * span * 0 + (c - 1)) / (2 * (c - 1)) == 0) by (nonlinear_arith)
                requires
                    c >= 2,
            ;
            assert((2 * span * (c - 1) + (c - 1)) / (2 * (c - 1)) == span) by (nonlinear_arith)
                requires
                    c >= 2,
                    span >= 0,
            ;
        }
        assert(s[0] == lo) by {
            assert((2 * span * 0 + (c - 1)) / (2 * (c - 1)) == 0) by (nonlinear_arith)
                requires
                    c >= 2,
            ;
        }
        assert(s[c - 1] == hi) by {
            assert((2 * span * (c - 1) + (c - 1)) / (2 * (c - 1)) == span) by (nonlinear_arith)
                requires
                    c >= 2,
                    span >= 0,
            ;
        }
        assert forall|i: int, j: int| 0 <= i <= j < c implies #[trigger] s[i] <= #[trigger] s[j] by {
            assert(s[i] == spaced(lo, hi, i, c));
            assert(s[j] == spaced(lo, hi, j, c));
            lemma_spaced_monotone(span, i, j, c);
            lemma_spaced_monotone(span, j, c - 1, c);
            assert((2 * span * (c - 1) + (c - 1)) / (2 * (c - 1)) == span) by (nonlinear_arith)
                requires
                    c >= 2,
                    span >= 0,
            ;
        }
    }
}


/// Clock sites on a chain: both ends and the centre.
pub fn default_clock_sites_chain(n: usize) -> (r: Vec<usize>)
    ensures
        r@ == seq![0usize, n / 2, if n >= 1 { (n - 1) as usize } else { 0usize }],
{
    let center = n / 2;
    vec![0, center, n.saturating_sub(1)]
}

/// The four corner sites of a `rows × cols` grid, in row-major order.
pub open spec fn grid_corners(rows: int, cols: int) -> Seq<usize> {
    seq![0usize, (cols - 1) as usize, ((rows - 1) * cols) as usize, (rows * cols - 1) as usize]
}

/// Clock sites on a grid: the origin corner, the defect (or, when the defect
/// is itself a corner, the bottom-left corner) and the far corner.
pub fn default_clock_sites_grid(rows: usize, cols: usize, defect_site: usize) -> (r: Vec<usize>)
    requires
        rows >= 1,
        cols >= 1,
        rows * cols <= usize::MAX,
    ensures
        r@ == (if grid_corners(rows as int, cols as int).contains(defect_site) {
            seq![0usize, ((rows - 1) * cols) as usize, (rows * cols - 1) as usize]
        } else {
            seq![0usize, defect_site, (rows * cols - 1) as usize]
        }),
{
    assert(0 <= (rows - 1) * cols <= rows * cols) by (nonlinear_arith)
        requires
            rows >= 1,
            cols >= 1,
    ;
    assert(rows * cols >= 1) by (nonlinear_arith)
        requires
            rows >= 1,
            cols >= 1,
    ;
    let corners = [0, cols - 1, (rows - 1) * cols, rows * cols - 1];
    let ghost cs = grid_corners(rows as int, cols as int);
    let is_corner = defect_site == corners[0] || defect_site == corners[1] || defect_site == corners[2]
        || defect_site == corners[3];
    proof {
        if is_corner {
            if defect_site == corners[0] {
                assert(cs[0] == defect_site);
            } else if defect_site == corners[1] {
                assert(cs[1] == defect_site);
            } else if defect_site == corners[2] {
                assert(cs[2] == defect_site);
            } else {
                assert(cs[3] == defect_site);
            }
        }
    }
    if is_corner {
        vec![corners[0], corners[2], corners[3]]
    } else {
        vec![corners[0], defect_site, corners[3]]
    }
}

/// Clock sites on a cube: the origin, the defect and the last site.
pub fn default_clock_sites_cube(sites: usize, defect_site: usize) -> (r: Vec<usize>)
    requires
        sites >= 1,
    ensures
        r@ == seq![0usize, defect_site, (sites - 1) as usize],
{
    vec![0, defect_site, sites - 1]
}

/// Row-major index of the central site of an `lx × ly × lz` cube.
pub open spec fn cube_center(lx: int, ly: int, lz: int) -> int {
    (lz / 2) * (lx * ly) + (ly / 2) * lx + lx / 2
}

/// Site of the defect at the centre of an `lx × ly × lz` cube.
pub fn cube_defect_site(lx: usize, ly: usize, lz: usize) -> (r: usize)
    requires
        lx * ly <= usize::MAX,
        cube_center(lx as int, ly as int, lz as int) <= usize::MAX,
    ensures
        r == cube_center(lx as int, ly as int, lz as int),
{
    let cx = lx / 2;
    let cy = ly / 2;
    let cz = lz / 2;
    assert(0 <= cz * (lx * ly) <= cz * (lx * ly) + cy * lx && 0 <= cy * lx) by (nonlinear_arith)
        requires
            cz >= 0,
            cy >= 0,
            lx >= 0,
            ly >= 0,
    ;
    cz * (lx * ly) + cy * lx + cx
}

/// Law: the central defect site of a non-empty cube is one of its sites.
pub proof fn lemma_cube_center_inside(lx: int, ly: int, lz: int)
    requires
        lx >= 1,
        ly >= 1,
        lz >= 1,
    ensures
        0 <= cube_center(lx, ly, lz) < lx * ly * lz,
{
    let cx = lx / 2;
    let cy = ly / 2;
    let cz = lz / 2;
    assert(0 <= cube_center(lx, ly, lz) < lx * ly * lz) by (nonlinear_arith)
        requires
            0 <= cx < lx,
            0 <= cy < ly,
            0 <= cz < lz,
            cube_center(lx, ly, lz) == cz * (lx * ly) + cy * lx + cx,
    ;
}

} // verus!
