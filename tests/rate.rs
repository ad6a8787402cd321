use poll::rate::{limit_decision, limit_kept, LimitDecision};

#[test]
fn limit_decisions() {
    assert_eq!(limit_decision(None, 600), LimitDecision::Record);
    assert_eq!(limit_decision(Some(0), 600), LimitDecision::Refuse);
    assert_eq!(limit_decision(Some(599), 600), LimitDecision::Refuse);
    assert_eq!(limit_decision(Some(600), 600), LimitDecision::Forget);
    assert_eq!(limit_decision(Some(u64::MAX), 600), LimitDecision::Forget);
    assert_eq!(limit_decision(Some(0), 0), LimitDecision::Forget);
}

#[test]
fn cleanup_keeps_running_limits() {
    assert!(limit_kept(600, 600));
    assert!(limit_kept(0, 600));
    assert!(!limit_kept(601, 600));
}
