use guardian::Decision;

#[test]
fn decision_severity_is_ordered() {
    assert!(Decision::NoAction < Decision::Warn);
    assert!(Decision::Warn < Decision::Brake);
}

#[test]
fn decision_order_is_total_and_matches_severity() {
    let all = [Decision::NoAction, Decision::Warn, Decision::Brake];
    for (i, a) in all.iter().enumerate() {
        for (j, b) in all.iter().enumerate() {
            assert_eq!(a < b, i < j);
            assert_eq!(a == b, i == j);
            assert_eq!(a.cmp(b), i.cmp(&j));
            assert_eq!(a.partial_cmp(b), Some(i.cmp(&j)));
        }
    }
    assert_eq!(Decision::NoAction.severity(), 0);
    assert_eq!(Decision::Warn.severity(), 1);
    assert_eq!(Decision::Brake.severity(), 2);
    assert!(Decision::Brake.is_at_least(Decision::Warn));
    assert!(!Decision::NoAction.is_at_least(Decision::Warn));
}
