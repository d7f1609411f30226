use eddie::mime::EddieError;
use eddie::onboarding::{action_gate, mark_read_ids, onboarding_status, onboarding_tasks, write_mode_enabled, Task};

fn task(name: &str, status: &str) -> Task {
    Task { name: name.to_string(), status: status.to_string() }
}

#[test]
fn every_account_goes_through_three_tasks() {
    assert_eq!(onboarding_tasks(), vec!["trust_network", "historical_fetch", "connection_history"]);
}

#[test]
fn onboarding_completes_when_all_tasks_are_done() {
    let s = onboarding_status(vec![task("a", "done"), task("b", "done")], 10, vec![], 0);
    assert!(s.is_complete);
    assert_eq!(s.tasks.len(), 2);
    assert_eq!(s.tasks[1].status, "done");
    let s = onboarding_status(vec![task("a", "done"), task("b", "pending")], 599, vec![], 0);
    assert!(!s.is_complete);
}

#[test]
fn onboarding_completes_with_enough_messages() {
    assert!(onboarding_status(vec![task("a", "pending")], 600, vec![], 0).is_complete);
    assert!(!onboarding_status(vec![], 10, vec![], 0).is_complete);
    assert!(onboarding_status(vec![], 600, vec![], 0).is_complete);
}

#[test]
fn actions_need_write_mode() {
    assert!(write_mode_enabled(Some("true")));
    assert!(!write_mode_enabled(Some("TRUE")));
    assert!(!write_mode_enabled(None));
    assert!(action_gate(true).is_ok());
    match action_gate(false) {
        Err(EddieError::InvalidInput(m)) => assert_eq!(m, "Read-only mode: action not permitted"),
        _ => panic!("expected invalid input"),
    }
}

#[test]
fn mark_read_marks_the_listed_messages() {
    assert_eq!(mark_read_ids("{\"ids\": [\"m1\", 7, \"m2\"]}"), vec!["m1".to_string(), "m2".to_string()]);
    assert_eq!(mark_read_ids("{\"ids\": \"m1\"}"), Vec::<String>::new());
    assert_eq!(mark_read_ids("{}"), Vec::<String>::new());
    assert_eq!(mark_read_ids("nope"), Vec::<String>::new());
}
