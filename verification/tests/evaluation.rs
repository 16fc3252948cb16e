use guardian::evaluation::{
    evaluate, trial_seed, Evaluation, Failure, FailureReason, Suite, CUT_IN_SEED_BASE,
    EMPTY_SEED_BASE, HARD_SEED_BASE,
};
use guardian::metrics::MedianPair;
use guardian::Decision;

fn run_with_brake_at(len: usize, at: usize) -> Vec<Decision> {
    let mut run = vec![Decision::NoAction; len];
    run[at] = Decision::Brake;
    run
}

#[test]
fn trial_seeds_start_at_each_suite_base() {
    assert_eq!(trial_seed(Suite::HardBraking, 0), 1_000_000);
    assert_eq!(trial_seed(Suite::EmptyRoad, 7), 2_000_007);
    assert_eq!(trial_seed(Suite::CutIn, 41), 3_000_041);
    assert_eq!(HARD_SEED_BASE, 1_000_000);
    assert_eq!(EMPTY_SEED_BASE, 2_000_000);
    assert_eq!(CUT_IN_SEED_BASE, 3_000_000);
}

#[test]
fn suite_names_and_failure_reasons_read_as_reports_print_them() {
    assert_eq!(Suite::HardBraking.name(), "hard-braking");
    assert_eq!(Suite::EmptyRoad.name(), "empty-road");
    assert_eq!(Suite::CutIn.name(), "cut-in");
    assert_eq!(FailureReason::NoFinalBrake.text(), "no Brake in final 20 cycles");
    assert_eq!(FailureReason::EmptyRoadIntervention.text(), "Warn or Brake on empty road");
    assert_eq!(FailureReason::LateWarn.text(), "Warn response later than 3 cycles");
    assert_eq!(FailureReason::NoWarn.text(), "no Warn response at or after truth crossing");
    assert_eq!(FailureReason::LateBrake.text(), "Brake response later than 3 cycles");
    assert_eq!(FailureReason::NoBrake.text(), "no Brake response at or after truth crossing");
}

#[test]
fn hard_braking_runs_count_brakes_and_list_misses() {
    let mut e = Evaluation::new();
    e.record_hard_braking(11, &run_with_brake_at(100, 90));
    e.record_hard_braking(12, &run_with_brake_at(100, 10));
    let r = e.report(2);
    assert_eq!(r.hard_brakes, 1);
    assert_eq!(r.hard_transitions, 4);
    assert_eq!(
        r.failures,
        vec![Failure { suite: Suite::HardBraking, seed: 12, reason: FailureReason::NoFinalBrake }]
    );
}

#[test]
fn empty_road_interventions_are_false_alarms() {
    let mut e = Evaluation::new();
    e.record_empty_road(5, &[Decision::NoAction; 30]);
    let mut warned = vec![Decision::NoAction; 30];
    warned[3] = Decision::Warn;
    e.record_empty_road(6, &warned);
    let r = e.report(2);
    assert_eq!(r.false_alarms, 1);
    assert_eq!(
        r.failures,
        vec![Failure { suite: Suite::EmptyRoad, seed: 6, reason: FailureReason::EmptyRoadIntervention }]
    );
}

#[test]
fn cut_in_latencies_and_misses_are_recorded_per_response() {
    let mut e = Evaluation::new();
    // Warn 1 cycle after crossing 10, Brake 5 cycles after crossing 14.
    let mut run = vec![Decision::NoAction; 30];
    run[11] = Decision::Warn;
    run[19] = Decision::Brake;
    e.record_cut_in(100, &run, 10, 14);
    // Never responds.
    e.record_cut_in(101, &[Decision::NoAction; 30], 10, 14);
    let r = e.report(2);
    assert_eq!(r.warn_responses, 1);
    assert_eq!(r.brake_responses, 1);
    assert_eq!(r.warn_latency_median, Some(MedianPair { lower: 1, upper: 1 }));
    assert_eq!(r.brake_latency_median, Some(MedianPair { lower: 5, upper: 5 }));
    assert_eq!(r.cut_in_transitions, 4);
    assert_eq!(
        r.failures,
        vec![
            Failure { suite: Suite::CutIn, seed: 100, reason: FailureReason::LateBrake },
            Failure { suite: Suite::CutIn, seed: 101, reason: FailureReason::NoWarn },
            Failure { suite: Suite::CutIn, seed: 101, reason: FailureReason::NoBrake },
        ]
    );
    assert!(!r.meets_targets());
}

fn responsive(suite: Suite, seed: u64) -> Vec<Decision> {
    match suite {
        Suite::HardBraking => run_with_brake_at(200, 195),
        Suite::EmptyRoad => {
            let mut run = vec![Decision::NoAction; 200];
            if seed == EMPTY_SEED_BASE + 3 {
                run[50] = Decision::Warn;
            }
            run
        }
        Suite::CutIn => {
            let mut run = vec![Decision::NoAction; 200];
            for cycle in 42..200 {
                run[cycle] = Decision::Warn;
            }
            for cycle in 61..200 {
                run[cycle] = Decision::Brake;
            }
            run
        }
    }
}

#[test]
fn evaluate_runs_every_suite_with_its_seeds() {
    let r = evaluate(100, 40, 60, responsive);
    assert_eq!(r.trials, 100);
    assert_eq!(r.hard_brakes, 100);
    assert_eq!(r.false_alarms, 1);
    assert_eq!(r.warn_responses, 100);
    assert_eq!(r.brake_responses, 100);
    assert_eq!(r.warn_latency_median, Some(MedianPair { lower: 2, upper: 2 }));
    assert_eq!(r.brake_latency_median, Some(MedianPair { lower: 1, upper: 1 }));
    assert_eq!(r.hard_transitions, 200);
    assert_eq!(r.cut_in_transitions, 200);
    assert_eq!(
        r.failures,
        vec![Failure { suite: Suite::EmptyRoad, seed: 2_000_003, reason: FailureReason::EmptyRoadIntervention }]
    );
    // One false alarm in 100 runs is 1%, within the 2% target.
    assert!(r.meets_targets());
}

#[test]
fn targets_compare_rates_exactly() {
    let base = evaluate(100, 40, 60, responsive);
    let mut r = base;
    r.false_alarms = 2;
    assert!(r.meets_targets());
    r.false_alarms = 3;
    assert!(!r.meets_targets());
    r.false_alarms = 0;
    r.hard_brakes = 99;
    assert!(r.meets_targets());
    r.hard_brakes = 98;
    assert!(!r.meets_targets());
    r.hard_brakes = 100;
    r.warn_responses = 95;
    assert!(r.meets_targets());
    r.warn_responses = 94;
    assert!(!r.meets_targets());
    r.warn_responses = 100;
    r.brake_latency_median = Some(MedianPair { lower: 3, upper: 4 });
    assert!(!r.meets_targets());
    r.brake_latency_median = Some(MedianPair { lower: 2, upper: 4 });
    assert!(r.meets_targets());
    r.brake_latency_median = None;
    assert!(!r.meets_targets());
}

#[test]
fn zero_trials_never_meet_the_targets() {
    let r = evaluate(0, 40, 60, responsive);
    assert_eq!(r.trials, 0);
    assert_eq!(r.warn_latency_median, None);
    assert!(r.failures.is_empty());
    assert!(!r.meets_targets());
}

#[test]
fn every_trial_is_accounted_for() {
    let silent = |_: Suite, _: u64| vec![Decision::NoAction; 50];
    let r = evaluate(7, 10, 20, silent);
    assert_eq!(r.hard_brakes, 0);
    assert_eq!(r.warn_responses, 0);
    let count = |reason| r.failures.iter().filter(|f| f.reason == reason).count();
    assert_eq!(count(FailureReason::NoFinalBrake), 7);
    assert_eq!(count(FailureReason::NoWarn), 7);
    assert_eq!(count(FailureReason::NoBrake), 7);
    assert_eq!(count(FailureReason::EmptyRoadIntervention), 0);
    assert_eq!(r.failures.len(), 21);
}

#[test]
fn the_last_representable_seed_is_reachable() {
    assert_eq!(trial_seed(Suite::CutIn, u64::MAX - CUT_IN_SEED_BASE), u64::MAX);
    assert_eq!(trial_seed(Suite::HardBraking, u64::MAX - HARD_SEED_BASE), u64::MAX);
}
