use guardian::metrics::{ends_in_brake, has_false_alarm, latency_at_or_after, median, transitions, MedianPair};
use guardian::Decision;

fn median_value(values: &mut [usize]) -> Option<f64> {
    median(values).map(|m| (m.lower as f64 + m.upper as f64) / 2.0)
}

#[test]
fn brake_must_appear_in_the_final_second() {
    let mut values = vec![Decision::NoAction; 100];
    values[79] = Decision::Brake;
    assert!(!ends_in_brake(&values));
    values[80] = Decision::Brake;
    assert!(ends_in_brake(&values));
}

#[test]
fn one_empty_road_warning_is_a_false_alarm() {
    let mut values = vec![Decision::NoAction; 100];
    values[5] = Decision::Warn;
    assert!(has_false_alarm(&values));
}

#[test]
fn latency_search_starts_at_the_truth_crossing() {
    let mut values = vec![Decision::NoAction; 20];
    values[2] = Decision::Warn;
    values[12] = Decision::Warn;
    assert_eq!(latency_at_or_after(&values, 10, Decision::Warn), Some(2));
    assert_eq!(latency_at_or_after(&values, 13, Decision::Warn), None);
}

#[test]
fn median_handles_even_odd_and_no_responses() {
    assert_eq!(median_value(&mut []), None);
    assert_eq!(median_value(&mut [3]), Some(3.0));
    assert_eq!(median_value(&mut [4, 2]), Some(3.0));
}

#[test]
fn short_runs_are_searched_whole_for_a_final_brake() {
    assert!(!ends_in_brake(&[]));
    assert!(ends_in_brake(&[Decision::Brake, Decision::NoAction, Decision::NoAction]));
    assert!(!ends_in_brake(&[Decision::Warn; 5]));
    let mut values = vec![Decision::NoAction; 20];
    values[0] = Decision::Brake;
    assert!(ends_in_brake(&values));
}

#[test]
fn brake_counts_as_a_false_alarm_and_no_action_does_not() {
    assert!(!has_false_alarm(&[]));
    assert!(!has_false_alarm(&[Decision::NoAction; 50]));
    assert!(has_false_alarm(&[Decision::NoAction, Decision::Brake]));
}

#[test]
fn a_brake_answers_a_warn_requirement() {
    let values = [Decision::NoAction, Decision::NoAction, Decision::Brake, Decision::Warn];
    assert_eq!(latency_at_or_after(&values, 0, Decision::Warn), Some(2));
    assert_eq!(latency_at_or_after(&values, 3, Decision::Brake), None);
    assert_eq!(latency_at_or_after(&values, 3, Decision::Warn), Some(0));
    assert_eq!(latency_at_or_after(&values, 9, Decision::NoAction), None);
    assert_eq!(latency_at_or_after(&values, 1, Decision::NoAction), Some(0));
}

#[test]
fn transitions_count_changes_between_adjacent_cycles() {
    assert_eq!(transitions(&[]), 0);
    assert_eq!(transitions(&[Decision::Warn]), 0);
    assert_eq!(transitions(&[Decision::Warn; 10]), 0);
    let values = [
        Decision::NoAction,
        Decision::Warn,
        Decision::Warn,
        Decision::Brake,
        Decision::NoAction,
        Decision::NoAction,
    ];
    assert_eq!(transitions(&values), 3);
}

#[test]
fn median_sorts_its_samples_and_reports_the_middle_pair() {
    let mut values = [9, 1, 5, 3];
    assert_eq!(median(&mut values), Some(MedianPair { lower: 3, upper: 5 }));
    assert_eq!(values, [1, 3, 5, 9]);
    let mut values = [7, 7, 1, 100, 2];
    assert_eq!(median(&mut values), Some(MedianPair { lower: 7, upper: 7 }));
    assert_eq!(median_value(&mut [1, 2]), Some(1.5));
}

#[test]
fn median_does_not_depend_on_sample_order() {
    let a = median(&mut [5, 1, 4, 2, 3, 6]);
    let b = median(&mut [1, 2, 3, 4, 5, 6]);
    let c = median(&mut [6, 5, 4, 3, 2, 1]);
    assert_eq!(a, b);
    assert_eq!(b, c);
    assert_eq!(a, Some(MedianPair { lower: 3, upper: 4 }));
}
