use bastion_runtime::task::contract::{
    Attempt, Bounds, CorrelationIds, Evidence, EvidenceKind, Frame, Intent, IntentOrigin,
    NextDecision, OpaqueState, TaskCase, UsageAccum, ActionKind, CandidateAction,
};
use bastion_runtime::task::event::TaskLifecycleEvent;
use bastion_runtime::task::memory::MemoryTaskStore;
use bastion_runtime::task::orchestration::{ChildSummary, Orchestrator};
use bastion_runtime::task::store::{next_revision, SessionHandle, StoreError};
use bastion_runtime::task::{
    ActionId, ArtifactRef, AttemptId, EvidenceId, ExecutionMode, StopReason, TaskCaseId, TaskStatus,
};
use serde_json::Value;

fn task_id(id: &str) -> TaskCaseId {
    TaskCaseId(id.to_string())
}

fn json(text: &str) -> Value {
    serde_json::from_str(text).expect("valid JSON")
}

fn sample_case(id: &str, owner: &str) -> TaskCase {
    TaskCase {
        id: task_id(id),
        owner: owner.to_string(),
        mode: ExecutionMode::Pursue,
        intent: Intent {
            owner: owner.to_string(),
            mode: ExecutionMode::Pursue,
            summary: "ship the thing".to_string(),
            origin: IntentOrigin::Message,
        },
        frame: Frame {
            objective: "green build".to_string(),
            acceptance: vec![],
            context_refs: vec![],
        },
        bounds: Bounds::default(),
        status: TaskStatus::Pending,
        stop_reason: None,
        attempts: vec![],
        pending_approvals: vec![],
        next_decision: None,
        usage: UsageAccum::default(),
        parent: None,
        correlation: CorrelationIds::default(),
        business_state: OpaqueState::default(),
        created_at: 0,
        updated_at: 0,
        revision: 1,
    }
}

fn sample_attempt(id: &str, task: &str) -> Attempt {
    Attempt {
        id: AttemptId(id.to_string()),
        task: task_id(task),
        started_at: 100,
        ended_at: None,
        actions: vec![],
        belief_refs: vec![],
        usage: UsageAccum::default(),
        verdict: None,
    }
}

fn sample_evidence(id: &str, attempt: &str) -> Evidence {
    Evidence {
        id: EvidenceId(id.to_string()),
        attempt: AttemptId(attempt.to_string()),
        action: None,
        kind: EvidenceKind::Other,
        source_ref: ArtifactRef("artifact-1".to_string()),
        trusted: true,
        max_tier: None,
        captured_at: 200,
    }
}

fn store_with(case: &TaskCase) -> MemoryTaskStore {
    let mut store = MemoryTaskStore::new();
    store.create_case(case.clone(), "key-1".to_string(), 10);
    store
}

#[test]
fn create_then_load_round_trips() {
    let case = sample_case("t1", "alice");
    let store = store_with(&case);

    let loaded = store.load_case("alice", &task_id("t1")).expect("must exist");
    assert_eq!(loaded.id, case.id);
    assert_eq!(loaded.owner, "alice");
    assert_eq!(loaded.status, TaskStatus::Pending);
    assert_eq!(loaded.revision, 1);
}

#[test]
fn create_case_is_idempotent_on_key() {
    let mut store = MemoryTaskStore::new();
    let case = sample_case("t1", "alice");
    store.create_case(case.clone(), "same-key".to_string(), 1);
    store.create_case(case, "same-key".to_string(), 2);

    assert_eq!(
        store.case_count(),
        1,
        "second create with the same key must not insert a row"
    );
}

#[test]
fn update_case_rejects_stale_revision() {
    let case = sample_case("t1", "alice");
    let mut store = store_with(&case);

    let mut updated = case.clone();
    updated.frame.objective = "changed".to_string();
    let new_rev = store
        .update_case(updated.clone(), 1, 20)
        .expect("first update");
    assert_eq!(new_rev, 2);

    // Reusing the now-stale expected_revision (1) must bail.
    let stale = store.update_case(updated, 1, 30);
    assert!(stale.is_err(), "stale expected_revision must be rejected");
}

#[test]
fn transition_status_rejects_disallowed_transition() {
    let case = sample_case("t1", "alice");
    let mut store = store_with(&case);

    // Pending -> Completed is not an allowed transition.
    let result = store.transition_status(
        "alice",
        &case.id,
        TaskStatus::Completed,
        Some(StopReason::Completed),
        1,
        20,
    );
    assert!(result.is_err(), "Pending -> Completed must be rejected");
    assert_eq!(
        result,
        Err(StoreError::NotAllowed {
            from: TaskStatus::Pending,
            to: TaskStatus::Completed
        })
    );
}

#[test]
fn transition_status_allows_a_single_terminal_event_only() {
    let case = sample_case("t1", "alice");
    let mut store = store_with(&case);

    let rev = store
        .transition_status("alice", &case.id, TaskStatus::Running, None, 1, 20)
        .expect("Pending -> Running must succeed");
    assert_eq!(rev, 2);

    let rev = store
        .transition_status(
            "alice",
            &case.id,
            TaskStatus::Completed,
            Some(StopReason::Completed),
            rev,
            30,
        )
        .expect("Running -> Completed must succeed");
    assert_eq!(rev, 3);

    // A second terminal transition must be refused outright.
    let second_terminal = store.transition_status(
        "alice",
        &case.id,
        TaskStatus::Cancelled,
        Some(StopReason::Cancelled),
        rev,
        40,
    );
    assert!(
        second_terminal.is_err(),
        "a task must never receive a second terminal transition"
    );
    assert_eq!(
        second_terminal,
        Err(StoreError::AlreadyTerminal(TaskStatus::Completed))
    );
}

#[test]
fn transition_status_requires_stop_reason_iff_terminal() {
    let case = sample_case("t1", "alice");
    let mut store = store_with(&case);

    let missing_reason =
        store.transition_status("alice", &case.id, TaskStatus::Completed, None, 1, 20);
    assert!(
        missing_reason.is_err(),
        "a terminal transition without a stop_reason must be rejected"
    );

    let spurious_reason = store.transition_status(
        "alice",
        &case.id,
        TaskStatus::Running,
        Some(StopReason::Completed),
        1,
        20,
    );
    assert!(
        spurious_reason.is_err(),
        "a non-terminal transition with a stop_reason must be rejected"
    );
    assert_eq!(
        spurious_reason,
        Err(StoreError::ReasonMismatch {
            next: TaskStatus::Running,
            reason_given: true
        })
    );
}

#[test]
fn cross_owner_isolation_on_load_and_update() {
    let case = sample_case("t1", "alice");
    let mut store = store_with(&case);

    let wrong_owner_load = store.load_case("mallory", &case.id);
    assert!(
        wrong_owner_load.is_none(),
        "loading with the wrong owner must return None, not another owner's case"
    );

    let mut forged = case.clone();
    forged.owner = "mallory".to_string();
    let wrong_owner_update = store.update_case(forged, 1, 20);
    assert!(
        wrong_owner_update.is_err(),
        "updating with the wrong owner must bail, never silently no-op"
    );
}

#[test]
fn attempt_append_and_load_round_trips() {
    let case = sample_case("t1", "alice");
    let mut store = store_with(&case);

    store
        .append_attempt(sample_attempt("a1", "t1"))
        .expect("append");

    let id = AttemptId("a1".to_string());
    let loaded = store.load_attempt("alice", &id).expect("must exist");
    assert_eq!(loaded.id, id);

    let listed = store.list_attempts_for_case("alice", &case.id);
    assert_eq!(listed.len(), 1);
    assert_eq!(listed[0].id, id);
}

#[test]
fn append_attempt_is_idempotent_on_id() {
    let case = sample_case("t1", "alice");
    let mut store = store_with(&case);

    store
        .append_attempt(sample_attempt("a1", "t1"))
        .expect("first append");
    store
        .append_attempt(sample_attempt("a1", "t1"))
        .expect("second append must be a no-op, not an error");

    let listed = store.list_attempts_for_case("alice", &case.id);
    assert_eq!(
        listed.len(),
        1,
        "duplicate append must not create a second row"
    );
}

#[test]
fn record_evidence_is_idempotent_on_id() {
    let case = sample_case("t1", "alice");
    let mut store = store_with(&case);
    store
        .append_attempt(sample_attempt("a1", "t1"))
        .expect("append attempt");

    store
        .record_evidence("alice".to_string(), sample_evidence("e1", "a1"))
        .expect("first record");
    store
        .record_evidence("alice".to_string(), sample_evidence("e1", "a1"))
        .expect("second record must be a no-op, not an error");

    assert_eq!(
        store.evidence_count(),
        1,
        "duplicate record_evidence must not insert a second row"
    );
}

#[test]
fn external_handle_save_load_delete_round_trips() {
    let mut store = MemoryTaskStore::new();
    let task = task_id("t1");
    let handle = SessionHandle {
        runtime_id: "codex_app_server".to_string(),
        owner: "alice".to_string(),
        external_ref: "thread-abc".to_string(),
    };

    assert!(store.load_external_handle("alice", &task).is_none());

    store.save_external_handle("alice".to_string(), "t1".to_string(), handle);
    let loaded = store
        .load_external_handle("alice", &task)
        .expect("must exist after save");
    assert_eq!(loaded.external_ref, "thread-abc");

    store.delete_external_handle("alice", &task);
    assert!(store.load_external_handle("alice", &task).is_none());

    // Deleting an already-absent handle is not an error.
    store.delete_external_handle("alice", &task);
}

#[test]
fn checkpoint_and_last_confirmed_event_round_trip() {
    let case = sample_case("t1", "alice");
    let mut store = store_with(&case);

    assert!(store
        .load_checkpoint("alice", &case.id)
        .expect("load before save must not error")
        .is_none());

    let checkpoint = json(r#"{"step": 3}"#);
    let rev = store
        .save_checkpoint("alice", &case.id, &checkpoint, 1, 20)
        .expect("save_checkpoint");
    assert_eq!(rev, 2);

    let loaded = store
        .load_checkpoint("alice", &case.id)
        .expect("load")
        .expect("must exist after save");
    assert_eq!(loaded, checkpoint);

    let rev = store
        .set_last_confirmed_event("alice", &case.id, "evt-42".to_string(), rev, 30)
        .expect("set_last_confirmed_event");
    assert_eq!(rev, 3);
}

fn family_case(id: &str, owner: &str, parent: Option<&str>) -> TaskCase {
    let mut case = sample_case(id, owner);
    case.intent.summary = String::new();
    case.frame.objective = String::new();
    case.status = TaskStatus::Running;
    case.parent = parent.map(task_id);
    case
}

#[test]
fn spawn_list_and_summarize_children() {
    let mut orch = Orchestrator::new(MemoryTaskStore::new());
    let parent = family_case("p", "alice", None);
    orch.store.create_case(parent.clone(), "kp".to_string(), 1);

    orch.spawn_child(
        &parent,
        family_case("c1", "alice", Some("p")),
        "k1".to_string(),
        2,
    )
    .unwrap();
    orch.spawn_child(
        &parent,
        family_case("c2", "alice", Some("p")),
        "k2".to_string(),
        3,
    )
    .unwrap();

    let kids = orch.children("alice", &parent.id);
    assert_eq!(kids.len(), 2);

    // one child completes, one stays running
    orch.store
        .transition_status(
            "alice",
            &task_id("c1"),
            TaskStatus::Completed,
            Some(StopReason::Completed),
            1,
            4,
        )
        .unwrap();
    let sum = orch.summarize_children("alice", &parent.id);
    assert_eq!(sum.total, 2);
    assert_eq!(sum.succeeded, 1);
    assert_eq!(sum.in_flight, 1);
}

#[test]
fn cross_owner_child_is_rejected() {
    let mut orch = Orchestrator::new(MemoryTaskStore::new());
    let parent = family_case("p", "alice", None);
    orch.store.create_case(parent.clone(), "kp".to_string(), 1);
    let foreign = family_case("c1", "bob", Some("p"));
    assert!(orch
        .spawn_child(&parent, foreign, "k1".to_string(), 2)
        .is_err());
}

#[test]
fn cancel_children_skips_terminal_and_cancels_rest() {
    let mut orch = Orchestrator::new(MemoryTaskStore::new());
    let parent = family_case("p", "alice", None);
    orch.store.create_case(parent.clone(), "kp".to_string(), 1);
    orch.spawn_child(
        &parent,
        family_case("c1", "alice", Some("p")),
        "k1".to_string(),
        2,
    )
    .unwrap();
    orch.spawn_child(
        &parent,
        family_case("c2", "alice", Some("p")),
        "k2".to_string(),
        3,
    )
    .unwrap();
    // c1 already terminal (completed) — must be left untouched.
    orch.store
        .transition_status(
            "alice",
            &task_id("c1"),
            TaskStatus::Completed,
            Some(StopReason::Completed),
            1,
            4,
        )
        .unwrap();

    let cancelled = orch.cancel_children("alice", &parent.id, 5);
    assert_eq!(cancelled, 1, "only the non-terminal child is cancelled");

    let sum = orch.summarize_children("alice", &parent.id);
    assert_eq!(sum.succeeded, 1);
    assert_eq!(sum.failed, 1, "cancelled counts as a non-success terminal");
    assert_eq!(sum.in_flight, 0);
}

#[test]
fn a_parent_without_children_has_an_empty_summary() {
    let orch = Orchestrator::new(MemoryTaskStore::new());
    assert_eq!(
        orch.summarize_children("alice", &task_id("p")),
        ChildSummary::default()
    );
    assert_eq!(ChildSummary::default().total, 0);
}

#[test]
fn a_child_that_names_another_parent_is_rejected() {
    let mut orch = Orchestrator::new(MemoryTaskStore::new());
    let parent = family_case("p", "alice", None);
    for other in [None, Some("q")] {
        let child = family_case("c1", "alice", other);
        assert!(orch
            .spawn_child(&parent, child, "k1".to_string(), 2)
            .is_err());
    }
    assert_eq!(orch.store.case_count(), 0);
}

#[test]
fn lifecycle_event_metadata_is_id_only() {
    let ev = TaskLifecycleEvent::Terminal {
        owner: "alice".to_string(),
        task: task_id("t1"),
        status: TaskStatus::Completed,
        stop_reason: StopReason::Completed,
    };
    assert_eq!(ev.event_name(), "task.terminal");
    assert_eq!(ev.owner(), "alice");
    assert_eq!(ev.task().as_str(), "t1");
    let meta = ev.metadata();
    assert_eq!(meta["owner"], "alice");
    assert_eq!(meta["task"], "t1");
    // Correlatable by owner/task/status; carries no free-text content.
    assert!(meta.get("status").is_some());
    assert!(meta.get("rationale").is_none());
    assert!(meta.get("detail").is_none());
}

#[test]
fn a_reason_in_words_stays_out_of_the_metadata() {
    let ev = TaskLifecycleEvent::Terminal {
        owner: "alice".to_string(),
        task: task_id("t1"),
        status: TaskStatus::Escalated,
        stop_reason: StopReason::Escalated("a secret".to_string()),
    };
    assert!(!ev.metadata().to_string().contains("a secret"));
}

#[test]
fn what_is_listed_comes_in_order_of_time() {
    let mut store = MemoryTaskStore::new();
    store.create_case(sample_case("old", "alice"), "k1".to_string(), 10);
    store.create_case(sample_case("new", "alice"), "k2".to_string(), 30);
    store.create_case(sample_case("mid", "alice"), "k3".to_string(), 20);
    store.create_case(sample_case("other", "bob"), "k4".to_string(), 15);
    let names: Vec<&str> = store
        .list_cases_for_owner("alice")
        .iter()
        .map(|c| c.id.as_str())
        .collect();
    assert_eq!(names, vec!["new", "mid", "old"]);

    let mut late = sample_attempt("late", "old");
    late.started_at = 300;
    store.append_attempt(late).unwrap();
    store.append_attempt(sample_attempt("early", "old")).unwrap();
    let names: Vec<&str> = store
        .list_attempts_for_case("alice", &task_id("old"))
        .iter()
        .map(|a| a.id.as_str())
        .collect();
    assert_eq!(names, vec!["early", "late"]);
}

#[test]
fn writes_to_what_is_not_there_are_refused() {
    let mut store = MemoryTaskStore::new();
    let id = task_id("t1");
    assert_eq!(
        store.transition_status("alice", &id, TaskStatus::Running, None, 1, 1),
        Err(StoreError::CaseNotFound)
    );
    assert_eq!(
        store.append_attempt(sample_attempt("a1", "t1")),
        Err(StoreError::TaskMissing("t1".to_string()))
    );
    store.create_case(sample_case("t1", "alice"), "k".to_string(), 1);
    assert_eq!(
        store.transition_status("alice", &id, TaskStatus::Running, None, 5, 1),
        Err(StoreError::RevisionConflict(5))
    );
    assert_eq!(
        store.record_evidence("alice".to_string(), sample_evidence("e1", "a1")),
        Err(StoreError::AttemptMissing("a1".to_string()))
    );
    let decision = NextDecision {
        action: CandidateAction {
            id: ActionId("x".to_string()),
            kind: ActionKind::Respond,
            rationale: String::new(),
            belief_refs: vec![],
        },
        justification: "because".to_string(),
    };
    assert!(store
        .set_next_decision("alice", &id, Some(decision), 7, 1)
        .is_err());
    assert!(store
        .save_checkpoint("mallory", &id, &json("1"), 1, 1)
        .is_err());
}

#[test]
fn a_decision_is_set_and_cleared() {
    let mut store = store_with(&sample_case("t1", "alice"));
    let id = task_id("t1");
    let decision = NextDecision {
        action: CandidateAction {
            id: ActionId("x".to_string()),
            kind: ActionKind::Delegate { child: task_id("c") },
            rationale: "r".to_string(),
            belief_refs: vec![],
        },
        justification: "because".to_string(),
    };
    assert_eq!(
        store.set_next_decision("alice", &id, Some(decision), 1, 5),
        Ok(2)
    );
    let kept = store.load_case("alice", &id).expect("case");
    assert_eq!(
        kept.next_decision.as_ref().map(|d| d.justification.as_str()),
        Some("because")
    );
    assert_eq!(kept.updated_at, 5);
    assert_eq!(store.set_next_decision("alice", &id, None, 2, 6), Ok(3));
    assert!(store.load_case("alice", &id).expect("case").next_decision.is_none());
}

#[test]
fn a_revision_stops_at_the_largest_number() {
    assert_eq!(next_revision(1), 2);
    assert_eq!(next_revision(u64::MAX), u64::MAX);
}
