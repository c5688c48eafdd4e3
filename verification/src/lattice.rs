//! Lattice geometry of candidate qubit layouts: graph distances on open
//! chains, grids, tori and cubes, and the square-grid D₄ symmetries under
//! which two labelings describe the same layout.

use vstd::prelude::*;
use crate::perm::{mismatches, mismatches_upto};

verus! {

/// Layout a labeling is scored against.
#[derive(Clone, Copy, Debug, PartialEq, Eq, Structural)]
pub enum GraphKind {
    Line,
    Grid,
    Torus,
    Cube,
}

/// Integer extents of the layout: `rows × cols` for grids and tori,
/// `lx × ly × lz` for cubes.
#[derive(Clone, Copy, Debug, PartialEq, Eq, Structural)]
pub struct LatticeShape {
    pub rows: usize,
    pub cols: usize,
    pub lx: usize,
    pub ly: usize,
    pub lz: usize,
}

/// `|a - b|`
pub open spec fn absdiff(a: int, b: int) -> int {
    if a <= b { b - a } else { a - b }
}

/// Distance along one periodic axis of length `period`.
pub open spec fn torus_axis(a: int, b: int, period: int) -> int {
    let d = absdiff(a, b);
    if d <= period - d { d } else { period - d }
}

/// `|a - b|` on machine words.
pub fn abs_diff(a: usize, b: usize) -> (r: usize)
    ensures
        r == absdiff(a as int, b as int),
{
    if a <= b { b - a } else { a - b }
}

/// Distance along one periodic axis: the shorter way round.
pub fn torus_axis_dist(a: usize, b: usize, period: usize) -> (r: usize)
    requires
        absdiff(a as int, b as int) <= period,
    ensures
        r == torus_axis(a as int, b as int, period as int),
{
    let d = if a <= b { b - a } else { a - b };
    let other = period - d;
    if d <= other { d } else { other }
}

/// Graph distance between canonical site indices of a layout.
pub open spec fn site_distance(graph: GraphKind, si: int, sj: int, shape: LatticeShape) -> int {
    match graph {
        GraphKind::Line => absdiff(si, sj),
        GraphKind::Grid => {
            let c = shape.cols as int;
            absdiff(si / c, sj / c) + absdiff(si % c, sj % c)
        },
        GraphKind::Torus => {
            let c = shape.cols as int;
            torus_axis(si / c, sj / c, shape.rows as int) + torus_axis(si % c, sj % c, c)
        },
        GraphKind::Cube => {
            let lx = shape.lx as int;
            let ly = shape.ly as int;
            absdiff(si % lx, sj % lx) + absdiff((si / lx) % ly, (sj / lx) % ly)
                + absdiff(si / (lx * ly), sj / (lx * ly))
        },
    }
}

/// When the site distance can be computed without a division by zero, a
/// wrap-around past the axis length, or an overflow.
pub open spec fn site_distance_defined(graph: GraphKind, si: int, sj: int, shape: LatticeShape) -> bool {
    &&& match graph {
        GraphKind::Line => true,
        GraphKind::Grid => shape.cols > 0,
        GraphKind::Torus => {
            &&& shape.cols > 0
            &&& absdiff(si / (shape.cols as int), sj / (shape.cols as int)) <= shape.rows
        },
        GraphKind::Cube => shape.lx > 0 && shape.ly > 0 && shape.lx * shape.ly <= usize::MAX,
    }
    &&& site_distance(graph, si, sj, shape) <= usize::MAX
}

/// Manhattan (or torus-wrap) distance between canonical lattice site indices.
pub fn site_graph_distance(graph: GraphKind, si: usize, sj: usize, shape: &LatticeShape) -> (r: usize)
    requires
        site_distance_defined(graph, si as int, sj as int, *shape),
    ensures
        r == site_distance(graph, si as int, sj as int, *shape),
{
    match graph {
        GraphKind::Line => abs_diff(si, sj),
        GraphKind::Grid => {
            let ri = si / shape.cols;
            let ci = si % shape.cols;
            let rj = sj / shape.cols;
            let cj = sj % shape.cols;
            abs_diff(ri, rj) + abs_diff(ci, cj)
        },
        GraphKind::Torus => {
            let ri = si / shape.cols;
            let ci = si % shape.cols;
            let rj = sj / shape.cols;
            let cj = sj % shape.cols;
            torus_axis_dist(ri, rj, shape.rows) + torus_axis_dist(ci, cj, shape.cols)
        },
        GraphKind::Cube => {
            let lx = shape.lx;
            let ly = shape.ly;
            assert(lx * ly > 0) by (nonlinear_arith)
                requires
                    lx > 0,
                    ly > 0,
            ;
            let xi = si % lx;
            let yi = (si / lx) % ly;
            let zi = si / (lx * ly);
            let xj = sj % lx;
            let yj = (sj / lx) % ly;
            let zj = sj / (lx * ly);
            abs_diff(xi, xj) + abs_diff(yi, yj) + abs_diff(zi, zj)
        },
    }
}


/// Distance in the layout between the sites that qubits `i` and `j` are placed on.
pub fn graph_distance(graph: GraphKind, perm: &[usize], i: usize, j: usize, shape: &LatticeShape) -> (r: usize)
    requires
        i < perm@.len(),
        j < perm@.len(),
        site_distance_defined(graph, perm@[i as int] as int, perm@[j as int] as int, *shape),
    ensures
        r == site_distance(graph, perm@[i as int] as int, perm@[j as int] as int, *shape),
{
    site_graph_distance(graph, perm[i], perm[j], shape)
}

/// `max(x, 1)`
pub open spec fn at_least_one(x: int) -> int {
    if x < 1 { 1 } else { x }
}

/// `x - 1`, or 0 for `x == 0`.
pub open spec fn pred_sat(x: int) -> int {
    if x == 0 { 0 } else { x - 1 }
}

/// Largest possible graph distance between two sites of the layout (at least 1).
pub open spec fn diameter(graph: GraphKind, n: int, shape: LatticeShape) -> int {
    match graph {
        GraphKind::Line => at_least_one(pred_sat(n)),
        GraphKind::Grid => at_least_one(pred_sat(shape.rows as int) + pred_sat(shape.cols as int)),
        GraphKind::Torus => at_least_one(shape.rows / 2 + shape.cols / 2),
        GraphKind::Cube => at_least_one(
            pred_sat(shape.lx as int) + pred_sat(shape.ly as int) + pred_sat(shape.lz as int),
        ),
    }
}

/// Diameter of the layout, used to normalise support spans.
pub fn max_site_diameter(graph: GraphKind, n: usize, shape: &LatticeShape) -> (r: usize)
    requires
        diameter(graph, n as int, *shape) <= usize::MAX,
    ensures
        r == diameter(graph, n as int, *shape),
{
    let d = match graph {
        GraphKind::Line => n.saturating_sub(1),
        GraphKind::Grid => shape.rows.saturating_sub(1) + shape.cols.saturating_sub(1),
        GraphKind::Torus => shape.rows / 2 + shape.cols / 2,
        GraphKind::Cube => shape.lx.saturating_sub(1) + shape.ly.saturating_sub(1) + shape.lz.saturating_sub(1),
    };
    if d < 1 { 1 } else { d }
}

/// Largest distance between sites `sites[j]` and `sites[i]` over `i < j`.
pub open spec fn row_max(graph: GraphKind, sites: Seq<usize>, shape: LatticeShape, j: int, i: nat) -> int
    decreases i,
{
    if i == 0 {
        0
    } else {
        let prev = row_max(graph, sites, shape, j, (i - 1) as nat);
        let d = site_distance(graph, sites[i - 1] as int, sites[j] as int, shape);
        if d > prev { d } else { prev }
    }
}

/// Largest distance between two of the first `m` sites.
pub open spec fn pair_max(graph: GraphKind, sites: Seq<usize>, shape: LatticeShape, m: nat) -> int
    decreases m,
{
    if m == 0 {
        0
    } else {
        let prev = pair_max(graph, sites, shape, (m - 1) as nat);
        let row = row_max(graph, sites, shape, m - 1, (m - 1) as nat);
        if row > prev { row } else { prev }
    }
}

/// Every pair of the given sites has a computable distance.
pub open spec fn pairs_defined(graph: GraphKind, sites: Seq<usize>, shape: LatticeShape) -> bool {
    forall|i: int, j: int| 0 <= i < sites.len() && 0 <= j < sites.len() ==>
        #[trigger] site_distance_defined(graph, sites[i] as int, sites[j] as int, shape)
}

proof fn lemma_row_max_bounds(graph: GraphKind, sites: Seq<usize>, shape: LatticeShape, j: int, i: nat, bound: int)
    requires
        0 <= j < sites.len(),
        i <= sites.len(),
        bound >= 0,
        forall|x: int| 0 <= x < i ==> #[trigger] site_distance(graph, sites[x] as int, sites[j] as int, shape) <= bound,
    ensures
        0 <= row_max(graph, sites, shape, j, i) <= bound,
    decreases i,
{
    if i > 0 {
        lemma_row_max_bounds(graph, sites, shape, j, (i - 1) as nat, bound);
        assert(site_distance(graph, sites[i - 1] as int, sites[j] as int, shape) <= bound);
    }
}

/// Largest graph distance between any two of the sites (0 for fewer than two).
pub fn active_site_span(graph: GraphKind, sites: &[usize], shape: &LatticeShape) -> (r: usize)
    requires
        pairs_defined(graph, sites@, *shape),
    ensures
        r == pair_max(graph, sites@, *shape, sites@.len()),
{
    let n = sites.len();
    let mut best: usize = 0;
    let mut j: usize = 0;
    while j < n
        invariant
            n == sites@.len(),
            pairs_defined(graph, sites@, *shape),
            j <= n,
            best == pair_max(graph, sites@, *shape, j as nat),
        decreases n - j,
    {
        let mut row: usize = 0;
        let mut i: usize = 0;
        while i < j
            invariant
                n == sites@.len(),
                pairs_defined(graph, sites@, *shape),
                j < n,
                i <= j,
                row == row_max(graph, sites@, *shape, j as int, i as nat),
            decreases j - i,
        {
            assert(site_distance_defined(graph, sites@[i as int] as int, sites@[j as int] as int, *shape));
            let d = site_graph_distance(graph, sites[i], sites[j], shape);
            if d > row {
                row = d;
            }
            i += 1;
        }
        if row > best {
            best = row;
        }
        j += 1;
    }
    best
}


/// Site `s` is one of the `n` sites of the layout.
pub open spec fn in_layout(graph: GraphKind, s: int, n: int, shape: LatticeShape) -> bool {
    0 <= s && match graph {
        GraphKind::Line => s < n,
        GraphKind::Grid | GraphKind::Torus => shape.cols > 0 && s < shape.rows * shape.cols,
        GraphKind::Cube => shape.lx > 0 && shape.ly > 0 && s < shape.lx * shape.ly * shape.lz,
    }
}

proof fn lemma_quotient_below(s: int, c: int, r: int)
    requires
        c > 0,
        0 <= s < r * c,
    ensures
        0 <= s / c < r,
        0 <= s % c < c,
{
    vstd::arithmetic::div_mod::lemma_div_pos_is_pos(s, c);
    vstd::arithmetic::div_mod::lemma_mod_bound(s, c);
    if s / c >= r {
        vstd::arithmetic::div_mod::lemma_fundamental_div_mod(s, c);
        assert(c * (s / c) >= c * r) by (nonlinear_arith)
            requires
                s / c >= r,
                c > 0,
        ;
        assert(false) by (nonlinear_arith)
            requires
                s == c * (s / c) + s % c,
                s % c >= 0,
                c * (s / c) >= c * r,
                s < r * c,
        ;
    }
}

proof fn lemma_torus_axis_half(a: int, b: int, p: int)
    requires
        0 <= a < p,
        0 <= b < p,
    ensures
        torus_axis(a, b, p) <= p / 2,
{
}

/// One pair of sites in the layout is no farther apart than the diameter.
pub proof fn lemma_site_distance_le_diameter(graph: GraphKind, si: int, sj: int, n: int, shape: LatticeShape)
    requires
        in_layout(graph, si, n, shape),
        in_layout(graph, sj, n, shape),
    ensures
        site_distance(graph, si, sj, shape) <= diameter(graph, n, shape),
{
    match graph {
        GraphKind::Line => {},
        GraphKind::Grid => {
            let c = shape.cols as int;
            lemma_quotient_below(si, c, shape.rows as int);
            lemma_quotient_below(sj, c, shape.rows as int);
        },
        GraphKind::Torus => {
            let c = shape.cols as int;
            lemma_quotient_below(si, c, shape.rows as int);
            lemma_quotient_below(sj, c, shape.rows as int);
            lemma_torus_axis_half(si / c, sj / c, shape.rows as int);
            lemma_torus_axis_half(si % c, sj % c, c);
        },
        GraphKind::Cube => {
            let lx = shape.lx as int;
            let ly = shape.ly as int;
            let lz = shape.lz as int;
            assert(lx * ly > 0) by (nonlinear_arith)
                requires
                    lx > 0,
                    ly > 0,
            ;
            assert(lx * ly * lz == lz * (lx * ly)) by (nonlinear_arith);
            lemma_quotient_below(si, lx * ly, lz);
            lemma_quotient_below(sj, lx * ly, lz);
            vstd::arithmetic::div_mod::lemma_mod_bound(si, lx);
            vstd::arithmetic::div_mod::lemma_mod_bound(sj, lx);
            vstd::arithmetic::div_mod::lemma_div_pos_is_pos(si, lx);
            vstd::arithmetic::div_mod::lemma_div_pos_is_pos(sj, lx);
            vstd::arithmetic::div_mod::lemma_mod_bound(si / lx, ly);
            vstd::arithmetic::div_mod::lemma_mod_bound(sj / lx, ly);
        },
    }
}

proof fn lemma_pair_max_bounds(graph: GraphKind, sites: Seq<usize>, shape: LatticeShape, m: nat, bound: int)
    requires
        m <= sites.len(),
        bound >= 0,
        forall|i: int, j: int| 0 <= i < sites.len() && 0 <= j < sites.len() ==>
            #[trigger] site_distance(graph, sites[i] as int, sites[j] as int, shape) <= bound,
    ensures
        0 <= pair_max(graph, sites, shape, m) <= bound,
    decreases m,
{
    if m > 0 {
        lemma_pair_max_bounds(graph, sites, shape, (m - 1) as nat, bound);
        assert forall|x: int| 0 <= x < m - 1 implies #[trigger] site_distance(graph, sites[x] as int, sites[m - 1] as int, shape) <= bound by {
            assert(site_distance(graph, sites[x] as int, sites[m - 1] as int, shape) <= bound);
        }
        lemma_row_max_bounds(graph, sites, shape, m - 1, (m - 1) as nat, bound);
    }
}

/// Law: the support span of any set of sites of the layout never exceeds the
/// layout's diameter, so the normalised span lies in `[0, 1]`.
pub proof fn lemma_span_within_diameter(graph: GraphKind, sites: Seq<usize>, n: int, shape: LatticeShape)
    requires
        forall|i: int| 0 <= i < sites.len() ==> #[trigger] in_layout(graph, sites[i] as int, n, shape),
    ensures
        0 <= pair_max(graph, sites, shape, sites.len()) <= diameter(graph, n, shape),
{
    assert forall|i: int, j: int| 0 <= i < sites.len() && 0 <= j < sites.len() implies
        #[trigger] site_distance(graph, sites[i] as int, sites[j] as int, shape) <= diameter(graph, n, shape) by {
        assert(in_layout(graph, sites[i] as int, n, shape));
        assert(in_layout(graph, sites[j] as int, n, shape));
        lemma_site_distance_le_diameter(graph, sites[i] as int, sites[j] as int, n, shape);
    }
    lemma_pair_max_bounds(graph, sites, shape, sites.len(), diameter(graph, n, shape));
}


/// Row and column of site `site` after grid symmetry `sym` of a `rows × cols`
/// layout (0 identity, 1/2/3 rotations by 90°/180°/270° clockwise, 4/5
/// horizontal/vertical reflections, 6/7 main/anti-diagonal reflections;
/// other codes act as the identity).
pub open spec fn grid_sym_coords(site: int, sym: int, rows: int, cols: int) -> (int, int) {
    let r = site / cols;
    let c = site % cols;
    if sym == 1 {
        (c, rows - 1 - r)
    } else if sym == 2 {
        (rows - 1 - r, cols - 1 - c)
    } else if sym == 3 {
        (rows - 1 - c, r)
    } else if sym == 4 {
        (rows - 1 - r, c)
    } else if sym == 5 {
        (r, cols - 1 - c)
    } else if sym == 6 {
        (c, r)
    } else if sym == 7 {
        (rows - 1 - c, cols - 1 - r)
    } else {
        (r, c)
    }
}

/// Site index after grid symmetry `sym`.
pub open spec fn grid_sym(site: int, sym: int, rows: int, cols: int) -> int {
    let rc = grid_sym_coords(site, sym, rows, cols);
    rc.0 * cols + rc.1
}

/// When `apply_grid_symmetry` runs without a division by zero, a negative
/// coordinate, or an overflow.
pub open spec fn grid_sym_defined(site: int, sym: int, rows: int, cols: int) -> bool {
    let r = site / cols;
    let c = site % cols;
    &&& cols > 0
    &&& (sym == 1 || sym == 2 || sym == 4) ==> rows >= 1 + r
    &&& (sym == 2 || sym == 5) ==> cols >= 1 + c
    &&& sym == 3 ==> rows >= 1 + c
    &&& sym == 7 ==> rows >= 1 + c && cols >= 1 + r
    &&& grid_sym(site, sym, rows, cols) <= usize::MAX
}

/// Apply a grid symmetry σ to site indices (rows×cols layout).
pub fn apply_grid_symmetry(site: usize, sym: usize, rows: usize, cols: usize) -> (r: usize)
    requires
        grid_sym_defined(site as int, sym as int, rows as int, cols as int),
    ensures
        r == grid_sym(site as int, sym as int, rows as int, cols as int),
{
    let r = site / cols;
    let c = site % cols;
    let (r2, c2) = if sym == 1 {
        (c, rows - 1 - r)
    } else if sym == 2 {
        (rows - 1 - r, cols - 1 - c)
    } else if sym == 3 {
        (rows - 1 - c, r)
    } else if sym == 4 {
        (rows - 1 - r, c)
    } else if sym == 5 {
        (r, cols - 1 - c)
    } else if sym == 6 {
        (c, r)
    } else if sym == 7 {
        (rows - 1 - c, cols - 1 - r)
    } else {
        (r, c)
    };
    assert(0 <= r2 * cols <= r2 * cols + c2 <= usize::MAX) by (nonlinear_arith)
        requires
            r2 * cols + c2 <= usize::MAX,
            r2 >= 0,
            c2 >= 0,
            cols > 0,
    ;
    r2 * cols + c2
}

/// Positions below `m` at which symmetry `sym` of `perm[i]` misses `target[i]`.
pub open spec fn sym_mismatches(perm: Seq<usize>, target: Seq<usize>, sym: int, rows: int, cols: int, m: nat) -> nat
    decreases m,
{
    if m == 0 {
        0
    } else {
        sym_mismatches(perm, target, sym, rows, cols, (m - 1) as nat)
            + if grid_sym(perm[m - 1] as int, sym, rows, cols) != target[m - 1] { 1nat } else { 0nat }
    }
}

/// Smallest mismatch count over symmetries `0..k`.
pub open spec fn min_over_syms(perm: Seq<usize>, target: Seq<usize>, rows: int, cols: int, k: nat) -> nat
    decreases k,
{
    let here = sym_mismatches(perm, target, (k - 1) as int, rows, cols, perm.len());
    if k <= 1 {
        sym_mismatches(perm, target, 0, rows, cols, perm.len())
    } else {
        let prev = min_over_syms(perm, target, rows, cols, (k - 1) as nat);
        if here < prev { here } else { prev }
    }
}

/// Distance up to the eight square-grid symmetries, as a formula.
pub open spec fn grid_equiv(perm: Seq<usize>, target: Seq<usize>, rows: int, cols: int) -> nat {
    if perm.len() != target.len() || rows * cols != perm.len() {
        perm.len()
    } else {
        min_over_syms(perm, target, rows, cols, 8)
    }
}

/// What `grid_equiv_distance` needs of its inputs to run without panicking.
pub open spec fn grid_equiv_defined(perm: Seq<usize>, target: Seq<usize>, rows: int, cols: int) -> bool {
    &&& rows * cols <= usize::MAX
    &&& (perm.len() == target.len() && rows * cols == perm.len()) ==> forall|i: int, sym: int|
        0 <= i < perm.len() && 0 <= sym < 8 ==> #[trigger] grid_sym_defined(perm[i] as int, sym, rows, cols)
}

/// Minimum Hamming mismatch allowing square-grid D₄ symmetries (8 rigid motions).
pub fn grid_equiv_distance(perm: &[usize], target: &[usize], rows: usize, cols: usize) -> (r: usize)
    requires
        grid_equiv_defined(perm@, target@, rows as int, cols as int),
    ensures
        r == grid_equiv(perm@, target@, rows as int, cols as int),
{
    if perm.len() != target.len() || rows * cols != perm.len() {
        return perm.len();
    }
    let n = perm.len();
    let mut best: usize = 0;
    let mut sym: usize = 0;
    while sym < 8
        invariant
            n == perm@.len(),
            n == target@.len(),
            rows * cols == n,
            grid_equiv_defined(perm@, target@, rows as int, cols as int),
            sym <= 8,
            sym > 0 ==> best == min_over_syms(perm@, target@, rows as int, cols as int, sym as nat),
        decreases 8 - sym,
    {
        let mut count: usize = 0;
        let mut i: usize = 0;
        while i < n
            invariant
                n == perm@.len(),
                n == target@.len(),
                rows * cols == n,
                grid_equiv_defined(perm@, target@, rows as int, cols as int),
                sym < 8,
                i <= n,
                count == sym_mismatches(perm@, target@, sym as int, rows as int, cols as int, i as nat),
                count <= i,
            decreases n - i,
        {
            assert(grid_sym_defined(perm@[i as int] as int, sym as int, rows as int, cols as int));
            if apply_grid_symmetry(perm[i], sym, rows, cols) != target[i] {
                count += 1;
            }
            i += 1;
        }
        if sym == 0 || count < best {
            best = count;
        }
        sym += 1;
    }
    best
}

/// Whether `perm` is `target` up to a symmetry of the grid.
pub fn grid_equiv_match(perm: &[usize], target: &[usize], rows: usize, cols: usize) -> (r: bool)
    requires
        grid_equiv_defined(perm@, target@, rows as int, cols as int),
    ensures
        r == (grid_equiv(perm@, target@, rows as int, cols as int) == 0),
{
    grid_equiv_distance(perm, target, rows, cols) == 0
}

/// Torus 2×2 has 8 label symmetries (D₄ on site indices with periodic wrap).
pub fn torus_equiv_distance(perm: &[usize], target: &[usize], rows: usize, cols: usize) -> (r: usize)
    requires
        grid_equiv_defined(perm@, target@, rows as int, cols as int),
    ensures
        r == grid_equiv(perm@, target@, rows as int, cols as int),
{
    grid_equiv_distance(perm, target, rows, cols)
}

/// Whether `perm` is `target` up to a symmetry of the torus.
pub fn torus_equiv_match(perm: &[usize], target: &[usize], rows: usize, cols: usize) -> (r: bool)
    requires
        grid_equiv_defined(perm@, target@, rows as int, cols as int),
    ensures
        r == (grid_equiv(perm@, target@, rows as int, cols as int) == 0),
{
    torus_equiv_distance(perm, target, rows, cols) == 0
}


/// Match a candidate labeling to ground truth allowing square-grid D₄ symmetries.
pub fn lattice_equiv_match(perm: &[usize], target: &[usize], graph_kind: GraphKind, rows: usize, cols: usize) -> (r: bool)
    requires
        (graph_kind == GraphKind::Grid || graph_kind == GraphKind::Torus) ==> grid_equiv_defined(
            perm@,
            target@,
            rows as int,
            cols as int,
        ),
    ensures
        r == match graph_kind {
            GraphKind::Grid | GraphKind::Torus => grid_equiv(perm@, target@, rows as int, cols as int) == 0,
            _ => mismatches(perm@, target@) == 0,
        },
{
    match graph_kind {
        GraphKind::Grid => grid_equiv_match(perm, target, rows, cols),
        GraphKind::Torus => torus_equiv_match(perm, target, rows, cols),
        _ => crate::perm::perm_distance(perm, target) == 0,
    }
}

proof fn lemma_sym_mismatches_zero(perm: Seq<usize>, target: Seq<usize>, sym: int, rows: int, cols: int, m: nat)
    requires
        m <= perm.len(),
        m <= target.len(),
    ensures
        sym_mismatches(perm, target, sym, rows, cols, m) == 0 <==> forall|i: int|
            0 <= i < m ==> #[trigger] grid_sym(perm[i] as int, sym, rows, cols) == target[i],
    decreases m,
{
    if m > 0 {
        lemma_sym_mismatches_zero(perm, target, sym, rows, cols, (m - 1) as nat);
    }
}

proof fn lemma_min_over_syms(perm: Seq<usize>, target: Seq<usize>, rows: int, cols: int, k: nat)
    requires
        k >= 1,
    ensures
        forall|s: int| 0 <= s < k ==> min_over_syms(perm, target, rows, cols, k)
            <= #[trigger] sym_mismatches(perm, target, s, rows, cols, perm.len()),
        exists|s: int| 0 <= s < k && min_over_syms(perm, target, rows, cols, k)
            == #[trigger] sym_mismatches(perm, target, s, rows, cols, perm.len()),
    decreases k,
{
    if k > 1 {
        lemma_min_over_syms(perm, target, rows, cols, (k - 1) as nat);
        let here = sym_mismatches(perm, target, (k - 1) as int, rows, cols, perm.len());
        let prev = min_over_syms(perm, target, rows, cols, (k - 1) as nat);
        if here < prev {
            assert(min_over_syms(perm, target, rows, cols, k) == here);
        } else {
            let s = choose|s: int| 0 <= s < k - 1 && prev == #[trigger] sym_mismatches(perm, target, s, rows, cols, perm.len());
            assert(min_over_syms(perm, target, rows, cols, k) == sym_mismatches(perm, target, s, rows, cols, perm.len()));
        }
    } else {
        assert(min_over_syms(perm, target, rows, cols, k) == sym_mismatches(perm, target, 0, rows, cols, perm.len()));
    }
}

/// Code of the symmetry that undoes symmetry `sym` on a square grid.
pub open spec fn inverse_sym(sym: int) -> int {
    if sym == 1 { 3 } else if sym == 3 { 1 } else { sym }
}

proof fn lemma_square_sym_inverse(x: int, sym: int, m: int)
    requires
        m > 0,
        0 <= x < m * m,
        0 <= sym < 8,
    ensures
        0 <= grid_sym(x, sym, m, m) < m * m,
        grid_sym(grid_sym(x, sym, m, m), inverse_sym(sym), m, m) == x,
{
    lemma_quotient_below(x, m, m);
    let r = x / m;
    let c = x % m;
    vstd::arithmetic::div_mod::lemma_fundamental_div_mod(x, m);
    let rc = grid_sym_coords(x, sym, m, m);
    assert(0 <= rc.0 < m && 0 <= rc.1 < m);
    let y = rc.0 * m + rc.1;
    assert(0 <= y < m * m) by (nonlinear_arith)
        requires
            y == rc.0 * m + rc.1,
            0 <= rc.0 < m,
            0 <= rc.1 < m,
    ;
    vstd::arithmetic::div_mod::lemma_fundamental_div_mod_converse_div(y, m, rc.0, rc.1);
    vstd::arithmetic::div_mod::lemma_fundamental_div_mod_converse_mod(y, m, rc.0, rc.1);
    let back = grid_sym_coords(y, inverse_sym(sym), m, m);
    assert(back == (r, c));
    assert(x == r * m + c) by (nonlinear_arith)
        requires
            x == m * r + c,
    ;
}

proof fn lemma_square_sym_defined(x: int, sym: int, m: int)
    requires
        m > 0,
        m * m <= usize::MAX,
        0 <= x < m * m,
        0 <= sym < 8,
    ensures
        grid_sym_defined(x, sym, m, m),
{
    lemma_quotient_below(x, m, m);
    lemma_square_sym_inverse(x, sym, m);
}

/// Law: on a square `m × m` grid, the layout equivalence is reflexive and
/// symmetric: every labeling matches itself, and if `a` matches `b` up to a
/// rigid motion then `b` matches `a`.
pub proof fn lemma_grid_equiv_reflexive_symmetric(a: Seq<usize>, b: Seq<usize>, m: int)
    requires
        m > 0,
        a.len() == m * m,
        b.len() == m * m,
        forall|i: int| 0 <= i < a.len() ==> #[trigger] a[i] < m * m,
        forall|i: int| 0 <= i < b.len() ==> #[trigger] b[i] < m * m,
    ensures
        grid_equiv(a, a, m, m) == 0,
        grid_equiv(a, b, m, m) == 0 ==> grid_equiv(b, a, m, m) == 0,
{
    assert forall|i: int| 0 <= i < a.len() implies #[trigger] grid_sym(a[i] as int, 0, m, m) == a[i] by {
        vstd::arithmetic::div_mod::lemma_fundamental_div_mod(a[i] as int, m);
        let x = a[i] as int;
        assert((x / m) * m == m * (x / m)) by (nonlinear_arith);
    }
    lemma_sym_mismatches_zero(a, a, 0, m, m, a.len());
    lemma_min_over_syms(a, a, m, m, 8);
    assert(min_over_syms(a, a, m, m, 8) <= sym_mismatches(a, a, 0, m, m, a.len()));
    if grid_equiv(a, b, m, m) == 0 {
        lemma_min_over_syms(a, b, m, m, 8);
        let s = choose|s: int| 0 <= s < 8 && min_over_syms(a, b, m, m, 8)
            == #[trigger] sym_mismatches(a, b, s, m, m, a.len());
        lemma_sym_mismatches_zero(a, b, s, m, m, a.len());
        let t = inverse_sym(s);
        assert forall|i: int| 0 <= i < b.len() implies #[trigger] grid_sym(b[i] as int, t, m, m) == a[i] by {
            assert(grid_sym(a[i] as int, s, m, m) == b[i]);
            lemma_square_sym_inverse(a[i] as int, s, m);
        }
        lemma_sym_mismatches_zero(b, a, t, m, m, b.len());
        lemma_min_over_syms(b, a, m, m, 8);
        assert(min_over_syms(b, a, m, m, 8) <= sym_mismatches(b, a, t, m, m, b.len()));
    }
}

/// Law: on a square grid whose site count fits a machine word, any labeling by
/// sites of the grid can be compared with any target.
pub proof fn lemma_square_grid_equiv_defined(perm: Seq<usize>, target: Seq<usize>, m: int)
    requires
        m > 0,
        m * m <= usize::MAX,
        forall|i: int| 0 <= i < perm.len() ==> #[trigger] perm[i] < m * m,
    ensures
        grid_equiv_defined(perm, target, m, m),
{
    assert forall|i: int, sym: int| 0 <= i < perm.len() && 0 <= sym < 8 implies
        #[trigger] grid_sym_defined(perm[i] as int, sym, m, m) by {
        lemma_square_sym_defined(perm[i] as int, sym, m);
    }
}

/// Law: on a square grid, a labeling obtained from the target by one of the
/// eight rigid motions is recognised as the same layout.
pub proof fn lemma_grid_equiv_detects_motion(perm: Seq<usize>, target: Seq<usize>, m: int, sym: int)
    requires
        m > 0,
        0 <= sym < 8,
        perm.len() == m * m,
        target.len() == m * m,
        forall|i: int| 0 <= i < target.len() ==> #[trigger] target[i] < m * m,
        forall|i: int| 0 <= i < perm.len() ==> #[trigger] perm[i] == grid_sym(target[i] as int, sym, m, m),
    ensures
        grid_equiv(perm, target, m, m) == 0,
{
    let t = inverse_sym(sym);
    assert forall|i: int| 0 <= i < perm.len() implies #[trigger] grid_sym(perm[i] as int, t, m, m) == target[i] by {
        lemma_square_sym_inverse(target[i] as int, sym, m);
    }
    lemma_sym_mismatches_zero(perm, target, t, m, m, perm.len());
    lemma_min_over_syms(perm, target, m, m, 8);
    assert(min_over_syms(perm, target, m, m, 8) <= sym_mismatches(perm, target, t, m, m, perm.len()));
}

/// `perm` is `target` moved by grid symmetry `sym` of an `m × m` grid.
pub open spec fn moved_by(perm: Seq<usize>, target: Seq<usize>, sym: int, m: int) -> bool {
    forall|i: int| 0 <= i < perm.len() ==> #[trigger] perm[i] == grid_sym(target[i] as int, sym, m, m)
}

/// Law: on a square grid, a labeling of the grid's sites matches the target
/// exactly when it is the target moved by one of the eight rigid motions.
pub proof fn lemma_grid_equiv_zero_iff_motion(perm: Seq<usize>, target: Seq<usize>, m: int)
    requires
        m > 0,
        perm.len() == m * m,
        target.len() == m * m,
        forall|i: int| 0 <= i < perm.len() ==> #[trigger] perm[i] < m * m,
        forall|i: int| 0 <= i < target.len() ==> #[trigger] target[i] < m * m,
    ensures
        grid_equiv(perm, target, m, m) == 0 <==> exists|sym: int| 0 <= sym < 8 && #[trigger] moved_by(perm, target, sym, m),
{
    if exists|sym: int| 0 <= sym < 8 && #[trigger] moved_by(perm, target, sym, m) {
        let sym = choose|sym: int| 0 <= sym < 8 && #[trigger] moved_by(perm, target, sym, m);
        lemma_grid_equiv_detects_motion(perm, target, m, sym);
    }
    if grid_equiv(perm, target, m, m) == 0 {
        lemma_min_over_syms(perm, target, m, m, 8);
        let s = choose|s: int| 0 <= s < 8 && min_over_syms(perm, target, m, m, 8)
            == #[trigger] sym_mismatches(perm, target, s, m, m, perm.len());
        lemma_sym_mismatches_zero(perm, target, s, m, m, perm.len());
        let t = inverse_sym(s);
        assert forall|i: int| 0 <= i < perm.len() implies #[trigger] perm[i] == grid_sym(target[i] as int, t, m, m) by {
            assert(grid_sym(perm[i] as int, s, m, m) == target[i]);
            lemma_square_sym_inverse(perm[i] as int, s, m);
        }
        assert(moved_by(perm, target, t, m));
    }
}

/// `target` with every site `(r, c)` of an `m × m` grid sent to `f(r, c)`.
pub open spec fn relabel_coords(target: Seq<usize>, m: int, f: spec_fn(int, int) -> (int, int)) -> Seq<usize> {
    Seq::new(target.len(), |i: int| {
        let rc = f(target[i] as int / m, target[i] as int % m);
        (rc.0 * m + rc.1) as usize
    })
}

proof fn lemma_motion_matches(target: Seq<usize>, m: int, sym: int, f: spec_fn(int, int) -> (int, int))
    requires
        m > 0,
        m * m <= usize::MAX,
        0 <= sym < 8,
        target.len() == m * m,
        forall|i: int| 0 <= i < target.len() ==> #[trigger] target[i] < m * m,
        forall|x: int| 0 <= x < m * m ==> #[trigger] f(x / m, x % m) == grid_sym_coords(x, sym, m, m),
    ensures
        grid_equiv(relabel_coords(target, m, f), target, m, m) == 0,
{
    let perm = relabel_coords(target, m, f);
    assert forall|i: int| 0 <= i < perm.len() implies #[trigger] perm[i] == grid_sym(target[i] as int, sym, m, m) by {
        let x = target[i] as int;
        lemma_square_sym_inverse(x, sym, m);
        assert(f(x / m, x % m) == grid_sym_coords(x, sym, m, m));
    }
    lemma_grid_equiv_detects_motion(perm, target, m, sym);
}

/// Law: the motions under which two labelings of a square `m × m` grid count
/// as the same layout are the whole dihedral group: the identity, the
/// quarter, half and three-quarter turns, the up-down and left-right mirrors,
/// and the two diagonal mirrors. Each of them, applied to any labeling,
/// gives a labeling at equivalence distance 0 from it.
pub proof fn lemma_grid_equiv_dihedral(target: Seq<usize>, m: int)
    requires
        m > 0,
        m * m <= usize::MAX,
        target.len() == m * m,
        forall|i: int| 0 <= i < target.len() ==> #[trigger] target[i] < m * m,
    ensures
        grid_equiv(relabel_coords(target, m, |r: int, c: int| (r, c)), target, m, m) == 0,
        grid_equiv(relabel_coords(target, m, |r: int, c: int| (c, m - 1 - r)), target, m, m) == 0,
        grid_equiv(relabel_coords(target, m, |r: int, c: int| (m - 1 - r, m - 1 - c)), target, m, m) == 0,
        grid_equiv(relabel_coords(target, m, |r: int, c: int| (m - 1 - c, r)), target, m, m) == 0,
        grid_equiv(relabel_coords(target, m, |r: int, c: int| (m - 1 - r, c)), target, m, m) == 0,
        grid_equiv(relabel_coords(target, m, |r: int, c: int| (r, m - 1 - c)), target, m, m) == 0,
        grid_equiv(relabel_coords(target, m, |r: int, c: int| (c, r)), target, m, m) == 0,
        grid_equiv(relabel_coords(target, m, |r: int, c: int| (m - 1 - c, m - 1 - r)), target, m, m) == 0,
{
    lemma_motion_matches(target, m, 0, |r: int, c: int| (r, c));
    lemma_motion_matches(target, m, 1, |r: int, c: int| (c, m - 1 - r));
    lemma_motion_matches(target, m, 2, |r: int, c: int| (m - 1 - r, m - 1 - c));
    lemma_motion_matches(target, m, 3, |r: int, c: int| (m - 1 - c, r));
    lemma_motion_matches(target, m, 4, |r: int, c: int| (m - 1 - r, c));
    lemma_motion_matches(target, m, 5, |r: int, c: int| (r, m - 1 - c));
    lemma_motion_matches(target, m, 6, |r: int, c: int| (c, r));
    lemma_motion_matches(target, m, 7, |r: int, c: int| (m - 1 - c, m - 1 - r));
}

proof fn lemma_row_max_props(graph: GraphKind, sites: Seq<usize>, shape: LatticeShape, j: int, i: nat)
    requires
        0 <= j < sites.len(),
        i <= sites.len(),
    ensures
        row_max(graph, sites, shape, j, i) >= 0,
        forall|x: int| 0 <= x < i ==> #[trigger] site_distance(graph, sites[x] as int, sites[j] as int, shape)
            <= row_max(graph, sites, shape, j, i),
        row_max(graph, sites, shape, j, i) == 0 || exists|x: int| 0 <= x < i
            && row_max(graph, sites, shape, j, i) == #[trigger] site_distance(graph, sites[x] as int, sites[j] as int, shape),
    decreases i,
{
    if i > 0 {
        lemma_row_max_props(graph, sites, shape, j, (i - 1) as nat);
    }
}

proof fn lemma_pair_max_props(graph: GraphKind, sites: Seq<usize>, shape: LatticeShape, m: nat)
    requires
        m <= sites.len(),
    ensures
        pair_max(graph, sites, shape, m) >= 0,
        forall|x: int, y: int| 0 <= x < y < m ==> #[trigger] site_distance(graph, sites[x] as int, sites[y] as int, shape)
            <= pair_max(graph, sites, shape, m),
        pair_max(graph, sites, shape, m) == 0 || exists|x: int, y: int| 0 <= x < y < m
            && pair_max(graph, sites, shape, m) == #[trigger] site_distance(graph, sites[x] as int, sites[y] as int, shape),
    decreases m,
{
    if m > 0 {
        lemma_pair_max_props(graph, sites, shape, (m - 1) as nat);
        lemma_row_max_props(graph, sites, shape, m - 1, (m - 1) as nat);
        let prev = pair_max(graph, sites, shape, (m - 1) as nat);
        let row = row_max(graph, sites, shape, m - 1, (m - 1) as nat);
        assert forall|x: int, y: int| 0 <= x < y < m implies #[trigger] site_distance(graph, sites[x] as int, sites[y] as int, shape)
            <= pair_max(graph, sites, shape, m) by {
            if y == m - 1 {
                assert(site_distance(graph, sites[x] as int, sites[m - 1] as int, shape) <= row);
            }
        }
        if row > prev && row != 0 {
            let x = choose|x: int| 0 <= x < m - 1
                && row == #[trigger] site_distance(graph, sites[x] as int, sites[m - 1] as int, shape);
            assert(pair_max(graph, sites, shape, m) == site_distance(graph, sites[x] as int, sites[m - 1] as int, shape));
        }
    }
}

/// Every one of the first `m` sites lies between `sites[lo]` and `sites[hi]`.
pub open spec fn between_ends(sites: Seq<usize>, m: int, lo: int, hi: int) -> bool {
    forall|k: int| 0 <= k < m ==> sites[lo] <= #[trigger] sites[k] <= sites[hi]
}

proof fn lemma_line_extremes(sites: Seq<usize>, m: nat)
    requires
        1 <= m <= sites.len(),
    ensures
        exists|lo: int, hi: int| 0 <= lo < m && 0 <= hi < m && #[trigger] between_ends(sites, m as int, lo, hi),
    decreases m,
{
    if m == 1 {
        assert(between_ends(sites, 1, 0, 0));
    } else {
        lemma_line_extremes(sites, (m - 1) as nat);
        let (lo, hi) = choose|lo: int, hi: int| 0 <= lo < m - 1 && 0 <= hi < m - 1
            && #[trigger] between_ends(sites, m - 1, lo, hi);
        let last = m - 1;
        let lo2 = if sites[last] < sites[lo] { last } else { lo };
        let hi2 = if sites[last] > sites[hi] { last } else { hi };
        assert(between_ends(sites, m as int, lo2, hi2));
    }
}

/// Law: the support span is the largest graph distance between two of the
/// sites — no two sites are farther apart, and some two (possibly the same
/// site twice) are exactly that far apart; on a line it is the largest site
/// minus the smallest.
pub proof fn lemma_span_is_widest_pair(graph: GraphKind, sites: Seq<usize>, shape: LatticeShape)
    ensures
        forall|i: int, j: int| 0 <= i < sites.len() && 0 <= j < sites.len()
            ==> #[trigger] site_distance(graph, sites[i] as int, sites[j] as int, shape) <= pair_max(graph, sites, shape, sites.len()),
        sites.len() == 0 ==> pair_max(graph, sites, shape, sites.len()) == 0,
        sites.len() >= 1 ==> exists|i: int, j: int| 0 <= i < sites.len() && 0 <= j < sites.len()
            && pair_max(graph, sites, shape, sites.len()) == #[trigger] site_distance(graph, sites[i] as int, sites[j] as int, shape),
        graph == GraphKind::Line && sites.len() >= 1 ==> exists|lo: int, hi: int| 0 <= lo < sites.len() && 0 <= hi < sites.len()
            && #[trigger] between_ends(sites, sites.len() as int, lo, hi)
            && pair_max(graph, sites, shape, sites.len()) == sites[hi] - sites[lo],
{
    let n = sites.len();
    let p = pair_max(graph, sites, shape, n);
    lemma_pair_max_props(graph, sites, shape, n);
    assert forall|i: int, j: int| 0 <= i < n && 0 <= j < n
        implies #[trigger] site_distance(graph, sites[i] as int, sites[j] as int, shape) <= p by {
        if i < j {
            assert(site_distance(graph, sites[i] as int, sites[j] as int, shape) <= p);
        } else if j < i {
            assert(site_distance(graph, sites[j] as int, sites[i] as int, shape) <= p);
            assert(site_distance(graph, sites[i] as int, sites[j] as int, shape)
                == site_distance(graph, sites[j] as int, sites[i] as int, shape));
        } else {
            assert(site_distance(graph, sites[i] as int, sites[i] as int, shape) == 0);
        }
    }
    if n >= 1 {
        if p == 0 {
            assert(site_distance(graph, sites[0] as int, sites[0] as int, shape) == 0);
        } else {
            let (x, y) = choose|x: int, y: int| 0 <= x < y < n
                && p == #[trigger] site_distance(graph, sites[x] as int, sites[y] as int, shape);
            assert(p == site_distance(graph, sites[x] as int, sites[y] as int, shape));
        }
        if graph == GraphKind::Line {
            lemma_line_extremes(sites, n);
            let (lo, hi) = choose|lo: int, hi: int| 0 <= lo < n && 0 <= hi < n
                && #[trigger] between_ends(sites, n as int, lo, hi);
            assert(site_distance(graph, sites[lo] as int, sites[hi] as int, shape) <= p);
            let (i, j) = choose|i: int, j: int| 0 <= i < n && 0 <= j < n
                && p == #[trigger] site_distance(graph, sites[i] as int, sites[j] as int, shape);
            assert(sites[lo] <= sites[i] <= sites[hi]);
            assert(sites[lo] <= sites[j] <= sites[hi]);
            assert(p == sites[hi] - sites[lo]);
        }
    }
}

/// Manhattan distance of every site of a `rows × cols` grid from site `center`.
pub fn grid_manhattan_distances(rows: usize, cols: usize, center: usize) -> (r: Vec<usize>)
    requires
        cols > 0,
        rows * cols <= i32::MAX,
        center <= i32::MAX,
    ensures
        r@.len() == rows * cols,
        forall|s: int| 0 <= s < rows * cols ==> #[trigger] r@[s] == absdiff(s / (cols as int), (center as int) / (cols as int))
            + absdiff(s % (cols as int), (center as int) % (cols as int)),
{
    let r0 = center / cols;
    let c0 = center % cols;
    let total = rows * cols;
    let mut out: Vec<usize> = Vec::new();
    let mut site: usize = 0;
    while site < total
        invariant
            cols > 0,
            total == rows * cols,
            total <= i32::MAX,
            center <= i32::MAX,
            r0 == center / cols,
            c0 == center % cols,
            site <= total,
            out@.len() == site,
            forall|s: int| 0 <= s < site ==> #[trigger] out@[s] == absdiff(s / (cols as int), (center as int) / (cols as int))
                + absdiff(s % (cols as int), (center as int) % (cols as int)),
        decreases total - site,
    {
        let r = site / cols;
        let c = site % cols;
        assert(r <= site && c < cols && r0 <= center && c0 < cols) by {
            vstd::arithmetic::div_mod::lemma_div_is_ordered_by_denominator(site as int, 1, cols as int);
            vstd::arithmetic::div_mod::lemma_div_is_ordered_by_denominator(center as int, 1, cols as int);
        }
        assert(cols <= total) by (nonlinear_arith)
            requires
                total == rows * cols,
                site < total,
                cols > 0,
        ;
        out.push(abs_diff(r, r0) + abs_diff(c, c0));
        site += 1;
    }
    out
}

} // verus!
