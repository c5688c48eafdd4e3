//! Hold-out grids for the refinement (F′ V′ R′ C′), Born-weight (T′) and
//! stabilizer (I′) diagnostics, and the bookkeeping that turns per-case
//! verdicts into a pass count with labels. Field strengths and couplings are
//! fixed-point: tenths and hundredths.

use vstd::prelude::*;
use vstd::string::*;
use crate::text::{decimal, fixed_point, join, push_decimal, push_fixed_point, push_joined, string_views};

verus! {

/// Verdicts of a hold-out grid: how many cases passed, and one
/// `label:ok` / `label:fail` entry per case.
#[derive(Clone, Debug)]
pub struct HoldoutEval {
    pub passed: usize,
    pub total: usize,
    pub labels: Vec<String>,
}

/// Text of `summary()`: `holdOut=passed/total [label, label, ...]`.
pub open spec fn summary_text(passed: nat, total: nat, labels: Seq<Seq<char>>) -> Seq<char> {
    "holdOut="@ + decimal(passed) + "/"@ + decimal(total) + " ["@ + join(labels, ", "@) + "]"@
}

impl HoldoutEval {
    /// Every case of the grid passed.
    pub fn all_passed(&self) -> (r: bool)
        ensures
            r == (self.passed == self.total),
    {
        self.passed == self.total
    }

    /// One-line report, e.g. `holdOut=2/3 [n10 f1.2 s9001:ok, ...]`.
    pub fn summary(&self) -> (s: String)
        ensures
            s@ == summary_text(self.passed as nat, self.total as nat, string_views(self.labels@)),
    {
        let mut s = String::from_str("holdOut=");
        push_decimal(&mut s, self.passed);
        s.append("/");
        push_decimal(&mut s, self.total);
        s.append(" [");
        push_joined(&mut s, self.labels.as_slice(), ", ");
        s.append("]");
        s
    }
}

/// Number of `true` verdicts among the first `m`.
pub open spec fn count_true(v: Seq<bool>, m: nat) -> nat
    decreases m,
{
    if m == 0 {
        0
    } else {
        count_true(v, (m - 1) as nat) + if v[m - 1] { 1nat } else { 0nat }
    }
}

/// Label of a case with its verdict.
pub open spec fn verdict_label(label: Seq<char>, ok: bool) -> Seq<char> {
    label + ":"@ + if ok { "ok"@ } else { "fail"@ }
}

/// `eval` reports `outcomes` for cases labeled `labels`.
pub open spec fn reports(eval: HoldoutEval, labels: Seq<Seq<char>>, outcomes: Seq<bool>) -> bool {
    &&& eval.passed == count_true(outcomes, outcomes.len())
    &&& eval.total == labels.len()
    &&& eval.labels@.len() == labels.len()
    &&& forall|i: int| 0 <= i < labels.len() ==> (#[trigger] eval.labels@[i])@ == verdict_label(labels[i], outcomes[i])
}

/// Counts the passing cases and labels each case with its verdict.
pub fn eval_holdout(case_labels: Vec<String>, outcomes: &[bool]) -> (eval: HoldoutEval)
    requires
        case_labels@.len() == outcomes@.len(),
    ensures
        reports(eval, string_views(case_labels@), outcomes@),
{
    let mut passed: usize = 0;
    let mut labels: Vec<String> = Vec::new();
    let mut i: usize = 0;
    while i < outcomes.len()
        invariant
            case_labels@.len() == outcomes@.len(),
            i <= outcomes@.len(),
            passed == count_true(outcomes@, i as nat),
            passed <= i,
            labels@.len() == i,
            forall|k: int| 0 <= k < i ==> (#[trigger] labels@[k])@ == verdict_label(case_labels@[k]@, outcomes@[k]),
        decreases outcomes@.len() - i,
    {
        let ok = outcomes[i];
        if ok {
            passed += 1;
        }
        let mut l = case_labels[i].clone();
        l.append(":");
        if ok {
            l.append("ok");
        } else {
            l.append("fail");
        }
        labels.push(l);
        i += 1;
    }
    HoldoutEval { passed, total: case_labels.len(), labels }
}


/// Quench parameters shared by the F′, V′, R′, C′ calibration demos
/// (field and time step in tenths).
#[derive(Clone, Copy, Debug, PartialEq, Eq, Structural)]
pub struct RefinementQuenchParams {
    pub n: usize,
    pub field_tenths: usize,
    pub dt_tenths: usize,
    pub steps_rt: usize,
    pub steps_adaptive: usize,
    pub seed: u32,
}

/// Demo config the refinement thresholds were tuned on (not used for the battery verdict).
pub fn refinement_tuning_default() -> (p: RefinementQuenchParams)
    ensures
        p == (RefinementQuenchParams { n: 10, field_tenths: 15, dt_tenths: 2, steps_rt: 16, steps_adaptive: 18, seed: 7711 }),
{
    RefinementQuenchParams { n: 10, field_tenths: 15, dt_tenths: 2, steps_rt: 16, steps_adaptive: 18, seed: 7711 }
}

/// One hold-out `(n, field, seed)` case of the refinement diagnostics.
#[derive(Clone, Copy, Debug, PartialEq, Eq, Structural)]
pub struct RefinementHoldoutCase {
    pub n: usize,
    pub field_tenths: usize,
    pub seed: u32,
}

/// `n{n} f{field:.1} s{seed}`
pub open spec fn refinement_label(c: RefinementHoldoutCase) -> Seq<char> {
    "n"@ + decimal(c.n as nat) + " f"@ + fixed_point(c.field_tenths as nat, 1) + " s"@ + decimal(c.seed as nat)
}

impl RefinementHoldoutCase {
    /// `n{n} f{field:.1} s{seed}`, e.g. `n10 f1.2 s9001`.
    pub fn label(self) -> (s: String)
        ensures
            s@ == refinement_label(self),
    {
        let mut s = String::from_str("n");
        push_decimal(&mut s, self.n);
        s.append(" f");
        push_fixed_point(&mut s, self.field_tenths, 1);
        s.append(" s");
        push_decimal(&mut s, self.seed as usize);
        s
    }
}

/// The refinement hold-out grid, distinct from the tuning default.
pub open spec fn refinement_grid() -> Seq<RefinementHoldoutCase> {
    seq![
        RefinementHoldoutCase { n: 10, field_tenths: 12, seed: 9001 },
        RefinementHoldoutCase { n: 8, field_tenths: 18, seed: 3333 },
        RefinementHoldoutCase { n: 10, field_tenths: 10, seed: 5555 },
    ]
}

/// Labels of the refinement hold-out cases, in grid order.
pub open spec fn refinement_grid_labels() -> Seq<Seq<char>> {
    refinement_grid().map_values(|c: RefinementHoldoutCase| refinement_label(c))
}

/// Hold-out `(n, field, seed)` grid — distinct from the tuning default.
pub fn refinement_holdout_grid() -> (g: Vec<RefinementHoldoutCase>)
    ensures
        g@ == refinement_grid(),
{
    let g = vec![
        RefinementHoldoutCase { n: 10, field_tenths: 12, seed: 9001 },
        RefinementHoldoutCase { n: 8, field_tenths: 18, seed: 3333 },
        RefinementHoldoutCase { n: 10, field_tenths: 10, seed: 5555 },
    ];
    assert(g@ =~= refinement_grid());
    g
}

/// Labels of the refinement hold-out cases.
fn refinement_labels() -> (v: Vec<String>)
    ensures
        string_views(v@) == refinement_grid_labels(),
{
    let grid = refinement_holdout_grid();
    let mut v: Vec<String> = Vec::new();
    let mut i: usize = 0;
    while i < grid.len()
        invariant
            grid@ == refinement_grid(),
            i <= grid@.len(),
            v@.len() == i,
            forall|k: int| 0 <= k < i ==> (#[trigger] v@[k])@ == refinement_label(grid@[k]),
        decreases grid@.len() - i,
    {
        v.push(grid[i].label());
        i += 1;
    }
    assert(string_views(v@) =~= refinement_grid_labels());
    v
}

/// R′ verdicts on the refinement hold-out grid: `outcomes[i]` tells whether the
/// RT-deviation check passed on case `i` of `refinement_holdout_grid()`.
pub fn eval_r_prime_holdout(outcomes: &[bool]) -> (eval: HoldoutEval)
    requires
        outcomes@.len() == 3,
    ensures
        reports(eval, refinement_grid_labels(), outcomes@),
{
    eval_holdout(refinement_labels(), outcomes)
}

/// F′ verdicts (predictive refinement lead time and late-split recovery) on the
/// refinement hold-out grid.
pub fn eval_f_prime_holdout(outcomes: &[bool]) -> (eval: HoldoutEval)
    requires
        outcomes@.len() == 3,
    ensures
        reports(eval, refinement_grid_labels(), outcomes@),
{
    eval_holdout(refinement_labels(), outcomes)
}

/// C′ verdicts (curvature-proxy consistency) on the refinement hold-out grid.
pub fn eval_c_prime_holdout(outcomes: &[bool]) -> (eval: HoldoutEval)
    requires
        outcomes@.len() == 3,
    ensures
        reports(eval, refinement_grid_labels(), outcomes@),
{
    eval_holdout(refinement_labels(), outcomes)
}

/// V′ verdicts (in-place split improves diagnostics) on the refinement hold-out grid.
pub fn eval_v_prime_holdout(outcomes: &[bool]) -> (eval: HoldoutEval)
    requires
        outcomes@.len() == 3,
    ensures
        reports(eval, refinement_grid_labels(), outcomes@),
{
    eval_holdout(refinement_labels(), outcomes)
}


/// Outer quench parameters swept for the T′ (Born weight) hold-out; field in tenths.
#[derive(Clone, Copy, Debug, PartialEq, Eq, Structural)]
pub struct BornHoldoutCase {
    pub n: usize,
    pub field_tenths: usize,
    pub couple_step: usize,
}

/// `n{n} f{field:.1} cs{couple_step}`
pub open spec fn born_label(c: BornHoldoutCase) -> Seq<char> {
    "n"@ + decimal(c.n as nat) + " f"@ + fixed_point(c.field_tenths as nat, 1) + " cs"@ + decimal(c.couple_step as nat)
}

impl BornHoldoutCase {
    /// `n{n} f{field:.1} cs{couple_step}`, e.g. `n10 f1.0 cs8`.
    pub fn label(self) -> (s: String)
        ensures
            s@ == born_label(self),
    {
        let mut s = String::from_str("n");
        push_decimal(&mut s, self.n);
        s.append(" f");
        push_fixed_point(&mut s, self.field_tenths, 1);
        s.append(" cs");
        push_decimal(&mut s, self.couple_step);
        s
    }
}

/// Demo config the Born-consistency thresholds were set on (not used for the verdict).
pub fn born_tuning_default() -> (c: BornHoldoutCase)
    ensures
        c == (BornHoldoutCase { n: 8, field_tenths: 12, couple_step: 7 }),
{
    BornHoldoutCase { n: 8, field_tenths: 12, couple_step: 7 }
}

/// The T′ hold-out grid.
pub open spec fn born_grid() -> Seq<BornHoldoutCase> {
    seq![
        BornHoldoutCase { n: 10, field_tenths: 10, couple_step: 8 },
        BornHoldoutCase { n: 8, field_tenths: 14, couple_step: 6 },
        BornHoldoutCase { n: 10, field_tenths: 16, couple_step: 7 },
    ]
}

/// Labels of the T′ hold-out cases, in grid order.
pub open spec fn born_grid_labels() -> Seq<Seq<char>> {
    born_grid().map_values(|c: BornHoldoutCase| born_label(c))
}

/// Hold-out `(n, field, couple_step)` grid — distinct from the tuning default.
pub fn born_holdout_grid() -> (g: Vec<BornHoldoutCase>)
    ensures
        g@ == born_grid(),
{
    let g = vec![
        BornHoldoutCase { n: 10, field_tenths: 10, couple_step: 8 },
        BornHoldoutCase { n: 8, field_tenths: 14, couple_step: 6 },
        BornHoldoutCase { n: 10, field_tenths: 16, couple_step: 7 },
    ];
    assert(g@ =~= born_grid());
    g
}

/// T′ verdicts on the Born hold-out grid: `outcomes[i]` tells whether the Born
/// weights were consistent on case `i` of `born_holdout_grid()`.
pub fn eval_t_prime_holdout(outcomes: &[bool]) -> (eval: HoldoutEval)
    requires
        outcomes@.len() == 3,
    ensures
        reports(eval, born_grid_labels(), outcomes@),
{
    let grid = born_holdout_grid();
    let mut v: Vec<String> = Vec::new();
    let mut i: usize = 0;
    while i < grid.len()
        invariant
            grid@ == born_grid(),
            i <= grid@.len(),
            v@.len() == i,
            forall|k: int| 0 <= k < i ==> (#[trigger] v@[k])@ == born_label(grid@[k]),
        decreases grid@.len() - i,
    {
        v.push(grid[i].label());
        i += 1;
    }
    assert(string_views(v@) =~= born_grid_labels());
    eval_holdout(v, outcomes)
}

/// Coupling / window-radius pair swept for the I′ (stabilizer) hold-out;
/// coupling in hundredths.
#[derive(Clone, Copy, Debug, PartialEq, Eq, Structural)]
pub struct StabHoldoutCase {
    pub coupling_hundredths: usize,
    pub window_radius: usize,
}

/// `c{coupling:.2} wr{window_radius}`
pub open spec fn stab_label(c: StabHoldoutCase) -> Seq<char> {
    "c"@ + fixed_point(c.coupling_hundredths as nat, 2) + " wr"@ + decimal(c.window_radius as nat)
}

impl StabHoldoutCase {
    /// `c{coupling:.2} wr{window_radius}`, e.g. `c0.85 wr2`.
    pub fn label(self) -> (s: String)
        ensures
            s@ == stab_label(self),
    {
        let mut s = String::from_str("c");
        push_fixed_point(&mut s, self.coupling_hundredths, 2);
        s.append(" wr");
        push_decimal(&mut s, self.window_radius);
        s
    }
}

/// Demo config the stabilizer pass bands were calibrated on (not used for the verdict).
pub fn stab_tuning_default() -> (c: StabHoldoutCase)
    ensures
        c == (StabHoldoutCase { coupling_hundredths: 90, window_radius: 2 }),
{
    StabHoldoutCase { coupling_hundredths: 90, window_radius: 2 }
}

/// The I′ hold-out grid.
pub open spec fn stab_grid() -> Seq<StabHoldoutCase> {
    seq![
        StabHoldoutCase { coupling_hundredths: 70, window_radius: 2 },
        StabHoldoutCase { coupling_hundredths: 90, window_radius: 3 },
        StabHoldoutCase { coupling_hundredths: 85, window_radius: 2 },
    ]
}

/// Labels of the I′ hold-out cases, in grid order.
pub open spec fn stab_grid_labels() -> Seq<Seq<char>> {
    stab_grid().map_values(|c: StabHoldoutCase| stab_label(c))
}

/// Hold-out `(coupling, window_radius)` grid — distinct from the tuning default.
pub fn stab_holdout_grid() -> (g: Vec<StabHoldoutCase>)
    ensures
        g@ == stab_grid(),
{
    let g = vec![
        StabHoldoutCase { coupling_hundredths: 70, window_radius: 2 },
        StabHoldoutCase { coupling_hundredths: 90, window_radius: 3 },
        StabHoldoutCase { coupling_hundredths: 85, window_radius: 2 },
    ];
    assert(g@ =~= stab_grid());
    g
}

/// I′ verdicts on the stabilizer hold-out grid: `outcomes[i]` tells whether a
/// stabilizer was found and the code distance scaled with the window on case
/// `i` of `stab_holdout_grid()`.
pub fn eval_i_prime_holdout(outcomes: &[bool]) -> (eval: HoldoutEval)
    requires
        outcomes@.len() == 3,
    ensures
        reports(eval, stab_grid_labels(), outcomes@),
{
    let grid = stab_holdout_grid();
    let mut v: Vec<String> = Vec::new();
    let mut i: usize = 0;
    while i < grid.len()
        invariant
            grid@ == stab_grid(),
            i <= grid@.len(),
            v@.len() == i,
            forall|k: int| 0 <= k < i ==> (#[trigger] v@[k])@ == stab_label(grid@[k]),
        decreases grid@.len() - i,
    {
        v.push(grid[i].label());
        i += 1;
    }
    assert(string_views(v@) =~= stab_grid_labels());
    eval_holdout(v, outcomes)
}


proof fn lemma_count_true(v: Seq<bool>, m: nat)
    requires
        m <= v.len(),
    ensures
        count_true(v, m) <= m,
        count_true(v, m) == m <==> forall|i: int| 0 <= i < m ==> v[i],
    decreases m,
{
    if m > 0 {
        lemma_count_true(v, (m - 1) as nat);
    }
}

/// Law: a hold-out evaluation never reports more passes than cases, and it
/// reports all cases passed exactly when every verdict is a pass.
pub proof fn lemma_holdout_verdict(eval: HoldoutEval, labels: Seq<Seq<char>>, outcomes: Seq<bool>)
    requires
        labels.len() == outcomes.len(),
        reports(eval, labels, outcomes),
    ensures
        eval.passed <= eval.total,
        eval.passed == eval.total <==> forall|i: int| 0 <= i < outcomes.len() ==> outcomes[i],
{
    lemma_count_true(outcomes, outcomes.len());
}

} // verus!
