//! Records of the falsification and scaling batteries and their tallies.

use vstd::prelude::*;

verus! {

/// One falsification criterion and its verdict.
#[derive(Clone, Debug)]
pub struct FalsificationTest {
    pub id: String,
    pub name: String,
    pub passed: bool,
    pub detail: String,
}

/// One scaling regression probe and its verdict.
#[derive(Clone, Debug)]
pub struct ScalingCheck {
    pub id: String,
    pub pass: bool,
    pub detail: String,
}

/// Number of passing tests among the first `m`.
pub open spec fn passed_upto(tests: Seq<FalsificationTest>, m: nat) -> nat
    decreases m,
{
    if m == 0 {
        0
    } else {
        passed_upto(tests, (m - 1) as nat) + if tests[m - 1].passed { 1nat } else { 0nat }
    }
}

/// How many falsification criteria passed.
pub fn falsification_passed_count(tests: &[FalsificationTest]) -> (r: usize)
    ensures
        r == passed_upto(tests@, tests@.len()),
        r <= tests@.len(),
{
    let mut count: usize = 0;
    let mut i: usize = 0;
    while i < tests.len()
        invariant
            i <= tests@.len(),
            count == passed_upto(tests@, i as nat),
            count <= i,
        decreases tests@.len() - i,
    {
        if tests[i].passed {
            count += 1;
        }
        i += 1;
    }
    count
}

/// The scaling battery passes when every probe passes.
pub fn scaling_battery_pass(checks: &[ScalingCheck]) -> (r: bool)
    ensures
        r == forall|i: int| 0 <= i < checks@.len() ==> (#[trigger] checks@[i]).pass,
{
    let mut i: usize = 0;
    while i < checks.len()
        invariant
            i <= checks@.len(),
            forall|k: int| 0 <= k < i ==> (#[trigger] checks@[k]).pass,
        decreases checks@.len() - i,
    {
        if !checks[i].pass {
            return false;
        }
        i += 1;
    }
    true
}

} // verus!
