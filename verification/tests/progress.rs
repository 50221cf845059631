use pdf_ast::performance::progress::{OperationId, OperationStatus, ProgressState};
use std::time::Instant;

#[test]
fn updates_clamp_to_the_total_and_rename() {
    let mut state = ProgressState::new();
    let id = OperationId::new(1);
    state.start_operation(id, "Test Operation", 100, Instant::now());
    assert_eq!(state.update_progress(id, 50, Some("Halfway done"), Instant::now()), Some(false));
    assert_eq!(state.operations[0].completed_work, 50);
    assert_eq!(state.operations[0].name, "Halfway done");
    assert_eq!(state.update_progress(id, 500, None, Instant::now()), Some(true));
    assert_eq!(state.operations[0].completed_work, 100);
    assert_eq!(state.operations[0].name, "Halfway done");
    assert_eq!(state.update_progress(OperationId::new(9), 1, None, Instant::now()), None);
}

#[test]
fn completion_and_failure_set_the_status() {
    let mut state = ProgressState::new();
    let a = OperationId::new(1);
    let b = OperationId::new(2);
    state.start_operation(a, "A", 10, Instant::now());
    state.start_operation(b, "B", 10, Instant::now());
    assert!(state.complete_operation(a));
    assert_eq!(state.operations[0].status, OperationStatus::Completed);
    assert_eq!(state.operations[0].completed_work, 10);
    assert!(state.fail_operation(b, "disk full"));
    assert_eq!(state.operations[1].status, OperationStatus::Failed);
    assert_eq!(state.operations[1].error_message.as_deref(), Some("disk full"));
    assert!(!state.complete_operation(OperationId::new(3)));
    assert_eq!(state.find_operation(b), Some(1));
}

#[test]
fn sub_operations_complete_at_their_total() {
    let mut state = ProgressState::new();
    let parent = OperationId::new(1);
    let child = OperationId::new(2);
    state.start_operation(parent, "Parent", 100, Instant::now());
    state.add_sub_operation(parent, child, "Child", 50);
    state.update_sub_operation(parent, child, 25);
    let sub = &state.operations[0].sub_operations[0];
    assert_eq!(sub.name, "Child");
    assert_eq!(sub.completed_work, 25);
    assert_eq!(sub.status, OperationStatus::Running);
    state.update_sub_operation(parent, child, 60);
    let sub = &state.operations[0].sub_operations[0];
    assert_eq!(sub.completed_work, 50);
    assert_eq!(sub.status, OperationStatus::Completed);
    state.add_sub_operation(OperationId::new(7), OperationId::new(8), "Lost", 5);
    assert_eq!(state.operations[0].sub_operations.len(), 1);
}

#[test]
fn cleanup_keeps_running_operations() {
    let mut state = ProgressState::new();
    for n in 1..=4 {
        state.start_operation(OperationId::new(n), "op", 1, Instant::now());
    }
    state.complete_operation(OperationId::new(1));
    state.fail_operation(OperationId::new(3), "x");
    state.cleanup_completed();
    let ids: Vec<u64> = state.operations.iter().map(|op| op.id.get()).collect();
    assert_eq!(ids, vec![2, 4]);
}
