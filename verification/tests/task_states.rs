use bastion_runtime::task::{ExecutionMode, TaskStatus};

#[test]
fn valid_transitions_only() {
    assert!(TaskStatus::Pending.can_transition_to(TaskStatus::Running));
    assert!(TaskStatus::Running.can_transition_to(TaskStatus::Completed));
    assert!(TaskStatus::Running.can_transition_to(TaskStatus::AwaitingApproval));
    assert!(TaskStatus::AwaitingApproval.can_transition_to(TaskStatus::Running));
    // No self-transition, no resurrection of terminal states.
    assert!(!TaskStatus::Running.can_transition_to(TaskStatus::Running));
    assert!(!TaskStatus::Completed.can_transition_to(TaskStatus::Running));
    assert!(!TaskStatus::Pending.can_transition_to(TaskStatus::Completed));
}

#[test]
fn terminal_classification() {
    for s in [
        TaskStatus::Completed,
        TaskStatus::Escalated,
        TaskStatus::Cancelled,
        TaskStatus::Failed,
    ] {
        assert!(s.is_terminal());
    }
    for s in [
        TaskStatus::Pending,
        TaskStatus::Running,
        TaskStatus::AwaitingApproval,
        TaskStatus::Paused,
    ] {
        assert!(!s.is_terminal());
    }
}

#[test]
fn only_pursue_is_durable() {
    assert!(ExecutionMode::Pursue.requires_durable_case());
    assert!(!ExecutionMode::Act.requires_durable_case());
    assert!(!ExecutionMode::Respond.requires_durable_case());
}
