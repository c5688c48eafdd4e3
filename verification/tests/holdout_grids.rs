use mad_dog_sim::holdout::{
    born_holdout_grid, born_tuning_default, eval_c_prime_holdout, eval_f_prime_holdout,
    eval_i_prime_holdout, eval_r_prime_holdout, eval_t_prime_holdout, eval_v_prime_holdout,
    eval_holdout, refinement_holdout_grid, refinement_tuning_default, stab_holdout_grid,
    stab_tuning_default, HoldoutEval,
};
use mad_dog_sim::refinement::{
    early_warning_lead_time, first_failure_step, refinement_thresholds_tuned, RefinementThresholds,
};

#[test]
fn tuned_thresholds_match_default() {
    let d = RefinementThresholds::default();
    let t = refinement_thresholds_tuned();
    assert_eq!(t.pressure, d.pressure);
    assert_eq!(t.min_rt_r2, d.min_rt_r2);
    assert_eq!(t.max_rt_slope_dev, d.max_rt_slope_dev);
}

#[test]
fn tuning_default_differs_from_holdout_grid() {
    let d = refinement_tuning_default();
    for case in refinement_holdout_grid() {
        assert!(
            case.n != d.n || case.field_tenths != d.field_tenths || case.seed != d.seed,
            "hold-out case {} must differ from tuning default on (n, field, seed)",
            case.label()
        );
    }
}

#[test]
fn born_holdout_differs_from_tuning_default() {
    let d = born_tuning_default();
    for case in born_holdout_grid() {
        assert!(
            case.n != d.n || case.field_tenths != d.field_tenths || case.couple_step != d.couple_step,
            "Born hold-out case {} must differ from tuning default on (n, field, couple_step)",
            case.label()
        );
    }
}

#[test]
fn stab_holdout_differs_from_tuning_default() {
    let d = stab_tuning_default();
    for case in stab_holdout_grid() {
        assert!(
            case.coupling_hundredths != d.coupling_hundredths || case.window_radius != d.window_radius,
            "Stab hold-out case {} must differ from tuning default on (coupling, window_radius)",
            case.label()
        );
    }
}

#[test]
fn holdout_labels_render_fixed_point() {
    let labels: Vec<String> = refinement_holdout_grid().into_iter().map(|c| c.label()).collect();
    assert_eq!(labels, vec!["n10 f1.2 s9001", "n8 f1.8 s3333", "n10 f1.0 s5555"]);
    let born: Vec<String> = born_holdout_grid().into_iter().map(|c| c.label()).collect();
    assert_eq!(born, vec!["n10 f1.0 cs8", "n8 f1.4 cs6", "n10 f1.6 cs7"]);
    let stab: Vec<String> = stab_holdout_grid().into_iter().map(|c| c.label()).collect();
    assert_eq!(stab, vec!["c0.70 wr2", "c0.90 wr3", "c0.85 wr2"]);
}

#[test]
fn holdout_eval_counts_and_summarises() {
    let eval = eval_r_prime_holdout(&[true, false, true]);
    assert_eq!(eval.passed, 2);
    assert_eq!(eval.total, 3);
    assert!(!eval.all_passed());
    assert_eq!(
        eval.summary(),
        "holdOut=2/3 [n10 f1.2 s9001:ok, n8 f1.8 s3333:fail, n10 f1.0 s5555:ok]"
    );
    assert!(eval_f_prime_holdout(&[true, true, true]).all_passed());
    assert!(!eval_c_prime_holdout(&[false, true, true]).all_passed());
    assert_eq!(eval_v_prime_holdout(&[false, false, false]).passed, 0);
    assert_eq!(eval_t_prime_holdout(&[true, true, false]).labels[2], "n10 f1.6 cs7:fail");
    assert_eq!(eval_i_prime_holdout(&[true, true, true]).summary(), "holdOut=3/3 [c0.70 wr2:ok, c0.90 wr3:ok, c0.85 wr2:ok]");
}

#[test]
fn empty_holdout_summary() {
    let eval: HoldoutEval = eval_holdout(Vec::new(), &[]);
    assert!(eval.all_passed());
    assert_eq!(eval.summary(), "holdOut=0/0 []");
}

#[test]
fn lead_time_needs_warning_before_failure() {
    assert_eq!(early_warning_lead_time(Some(3), Some(7)), 4);
    assert_eq!(early_warning_lead_time(Some(7), Some(7)), 0);
    assert_eq!(early_warning_lead_time(Some(8), Some(7)), 0);
    assert_eq!(early_warning_lead_time(None, Some(7)), 0);
    assert_eq!(early_warning_lead_time(Some(2), None), 0);
}

#[test]
fn first_failure_step_is_first_flagged() {
    assert_eq!(first_failure_step(&[(0, false), (1, false), (2, true), (3, true)]), Some(2));
    assert_eq!(first_failure_step(&[(5, true)]), Some(5));
    assert_eq!(first_failure_step(&[(0, false), (1, false)]), None);
    assert_eq!(first_failure_step(&[]), None);
    let warning = Some(1);
    assert_eq!(early_warning_lead_time(warning, first_failure_step(&[(0, false), (1, false), (4, true)])), 3);
}
