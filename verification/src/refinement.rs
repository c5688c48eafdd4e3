//! Thresholds and timing bookkeeping of adaptive holographic refinement.
//! Thresholds are fixed-point in hundredths.

use vstd::prelude::*;

verus! {

/// Which diagnostics call for refinement.
#[derive(Clone, Copy, Debug, PartialEq, Eq, Structural)]
pub struct RefinementReasons {
    pub rt_fit: bool,
    pub rt_slope: bool,
    pub area_law: bool,
    pub emergent_dim: bool,
}

/// Refinement thresholds, in hundredths: overall pressure, minimum RT fit R²,
/// and maximum RT slope deviation.
#[derive(Clone, Copy, Debug, PartialEq, Eq, Structural)]
pub struct RefinementThresholds {
    pub pressure: u32,
    pub min_rt_r2: u32,
    pub max_rt_slope_dev: u32,
}

impl Default for RefinementThresholds {
    /// Pressure 0.42, minimum RT R² 0.82, maximum RT slope deviation 0.35.
    fn default() -> (t: Self)
        ensures
            t == (RefinementThresholds { pressure: 42, min_rt_r2: 82, max_rt_slope_dev: 35 }),
    {
        Self { pressure: 42, min_rt_r2: 82, max_rt_slope_dev: 35 }
    }
}

/// The hand-tuned thresholds, kept on record for audit.
pub fn refinement_thresholds_tuned() -> (t: RefinementThresholds)
    ensures
        t == (RefinementThresholds { pressure: 42, min_rt_r2: 82, max_rt_slope_dev: 35 }),
{
    RefinementThresholds { pressure: 42, min_rt_r2: 82, max_rt_slope_dev: 35 }
}

/// First step at which full refinement failure is flagged, from the
/// `(step, needs_refinement)` record of a quench; `None` when none is flagged.
pub fn first_failure_step(steps: &[(usize, bool)]) -> (r: Option<usize>)
    ensures
        match r {
            Some(s) => exists|k: int|
                0 <= k < steps@.len() && #[trigger] steps@[k].1 && steps@[k].0 == s
                    && forall|j: int| 0 <= j < k ==> !(#[trigger] steps@[j].1),
            None => forall|k: int| 0 <= k < steps@.len() ==> !(#[trigger] steps@[k].1),
        },
{
    let mut i: usize = 0;
    while i < steps.len()
        invariant
            i <= steps@.len(),
            forall|j: int| 0 <= j < i ==> !(#[trigger] steps@[j].1),
        decreases steps@.len() - i,
    {
        if steps[i].1 {
            return Some(steps[i].0);
        }
        i += 1;
    }
    None
}

/// Clock steps between early RT warning and full refinement failure.
pub fn early_warning_lead_time(warning: Option<usize>, failure: Option<usize>) -> (r: usize)
    ensures
        r == match (warning, failure) {
            (Some(w), Some(f)) => if f >= w { (f - w) as usize } else { 0 },
            _ => 0,
        },
{
    match (warning, failure) {
        (Some(w), Some(f)) if f >= w => f - w,
        _ => 0,
    }
}

} // verus!
