use bastion_runtime::agent::backend::AuthProfileRef;
use bastion_runtime::capability::auth_resolver::NullAuthResolver;
use bastion_runtime::capability::permission_queue::{
    MemoryPermissionGate, NullPermissionGate, PermissionAction, PermissionDecision,
    PermissionRequestId,
};
use bastion_runtime::task::store::SessionHandle;
use bastion_runtime::types::DenyScope;

fn fake_session() -> SessionHandle {
    SessionHandle {
        runtime_id: "fake".to_string(),
        owner: "alice".to_string(),
        external_ref: "fake-session-1".to_string(),
    }
}

#[test]
fn null_auth_resolver_always_resolves() {
    let resolver = NullAuthResolver;
    assert!(resolver
        .resolve(&AuthProfileRef("anything".to_string()))
        .is_ok());
}

#[test]
fn enqueue_then_pending_for_owner_round_trips_every_field() {
    let mut gate = MemoryPermissionGate::new();
    let session = fake_session();
    let row_id = gate
        .enqueue(
            "alice",
            &session,
            PermissionRequestId(7),
            PermissionAction::RunCommand,
            "run: rm -rf /tmp/x",
            1_000,
            2_000,
        )
        .expect("enqueue");

    let pending = gate.pending_for_owner("alice");
    assert_eq!(pending.len(), 1);
    let row = pending[0];
    assert_eq!(row.row_id, row_id);
    assert_eq!(row.id, PermissionRequestId(7));
    assert_eq!(row.owner, "alice");
    assert_eq!(row.session, session);
    assert!(matches!(row.action, PermissionAction::RunCommand));
    assert_eq!(row.detail, "run: rm -rf /tmp/x");
    assert_eq!(row.raised_at, 1_000);
    assert_eq!(row.expires_at, 2_000);

    // A different owner sees nothing.
    assert!(gate.pending_for_owner("bob").is_empty());
}

#[test]
fn resolve_removes_from_pending_and_records_decision() {
    let mut gate = MemoryPermissionGate::new();
    let session = fake_session();
    let row_id = gate
        .enqueue(
            "alice",
            &session,
            PermissionRequestId(1),
            PermissionAction::WriteFile,
            "write: /tmp/x",
            0,
            999_999,
        )
        .expect("enqueue");

    let resolved = gate
        .resolve(
            "alice",
            row_id,
            PermissionDecision::Deny {
                scope: DenyScope::Turn,
            },
            500,
        )
        .expect("resolve");
    assert_eq!(resolved.row_id, row_id);

    assert!(
        gate.pending_for_owner("alice").is_empty(),
        "resolved row must no longer be pending"
    );
}

#[test]
fn resolve_with_wrong_owner_errors_idor_guard() {
    let mut gate = MemoryPermissionGate::new();
    let session = fake_session();
    let row_id = gate
        .enqueue(
            "alice",
            &session,
            PermissionRequestId(1),
            PermissionAction::UseTool,
            "detail",
            0,
            999_999,
        )
        .expect("enqueue");

    let err = gate.resolve("mallory", row_id, PermissionDecision::Allow, 1);
    assert!(
        err.is_err(),
        "resolve() with the wrong owner_id must error, never silently no-op"
    );

    // Row must still be pending for the REAL owner (untouched by the bad attempt).
    assert_eq!(gate.pending_for_owner("alice").len(), 1);
}

#[test]
fn resolve_twice_errors_on_second_call_first_write_wins() {
    let mut gate = MemoryPermissionGate::new();
    let session = fake_session();
    let row_id = gate
        .enqueue(
            "alice",
            &session,
            PermissionRequestId(1),
            PermissionAction::Network,
            "detail",
            0,
            999_999,
        )
        .expect("enqueue");

    gate.resolve("alice", row_id, PermissionDecision::Allow, 1)
        .expect("first resolve must succeed");
    let second = gate.resolve(
        "alice",
        row_id,
        PermissionDecision::Deny {
            scope: DenyScope::Turn,
        },
        2,
    );
    assert!(
        second.is_err(),
        "a second resolve() on an already-resolved row must error, not silently re-decide"
    );
}

#[test]
fn null_permission_gate_enqueue_always_errors() {
    let gate = NullPermissionGate;
    let session = fake_session();
    let err = gate.enqueue(
        "alice",
        &session,
        PermissionRequestId(1),
        PermissionAction::RunCommand,
        "detail",
        0,
        0,
    );
    assert!(
        err.is_err(),
        "NullPermissionGate must fail-closed on enqueue — no persistent queue is wired"
    );
}

#[test]
fn null_permission_gate_pending_for_owner_is_empty_never_errors() {
    let gate = NullPermissionGate;
    assert!(gate.pending_for_owner("alice").is_empty());
}

#[test]
fn null_permission_gate_resolves_nothing() {
    let gate = NullPermissionGate;
    let err = gate
        .resolve("alice", 3, PermissionDecision::Allow)
        .expect_err("nothing is wired");
    assert_eq!(
        err.message(),
        "no PermissionGate is wired — cannot resolve permission request 3"
    );
}

#[test]
fn a_decision_leaves_the_other_requests_pending() {
    let mut gate = MemoryPermissionGate::new();
    let session = fake_session();
    let mut ids: Vec<i64> = Vec::new();
    for n in 0..3 {
        ids.push(
            gate.enqueue(
                "alice",
                &session,
                PermissionRequestId(n),
                PermissionAction::UseTool,
                "detail",
                n as i64,
                100,
            )
            .expect("enqueue"),
        );
    }
    gate.resolve("alice", ids[1], PermissionDecision::Allow, 5)
        .expect("resolve");
    let left: Vec<i64> = gate.pending_for_owner("alice").iter().map(|p| p.row_id).collect();
    assert_eq!(left, vec![ids[0], ids[2]]);
}
