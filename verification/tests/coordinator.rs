use crash::Coordinator;
use crash::SearchStatus;

#[test]
fn first_reported_match_wins() {
    let mut coord = Coordinator::new();
    assert!(coord.should_dispatch());
    coord.report_match("early".to_string());
    assert_eq!(coord.status, SearchStatus::Found("early".to_string()));
    assert!(!coord.should_dispatch());
    coord.report_match("late".to_string());
    assert_eq!(coord.status, SearchStatus::Found("early".to_string()));
}

#[test]
fn match_is_not_overwritten_by_exhaustion() {
    let mut coord = Coordinator::new();
    coord.report_match("hit".to_string());
    coord.mark_exhausted();
    assert_eq!(coord.status, SearchStatus::Found("hit".to_string()));
}

#[test]
fn exhaustion_is_terminal() {
    let mut coord = Coordinator::new();
    coord.mark_exhausted();
    assert_eq!(coord.status, SearchStatus::Exhausted);
    assert!(!coord.should_dispatch());
    coord.report_match("late".to_string());
    assert_eq!(coord.status, SearchStatus::Exhausted);
}
