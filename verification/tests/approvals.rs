use bastion_runtime::capability::approval::{
    action_key, compute_hash, hex_of, outcome_for_existing_row, ApprovalOutcome, ApprovalRow,
    ApprovalStatus, MemoryApprovalGate, NullApprovalGate,
};
use bastion_runtime::types::{BastionError, DenyScope};
use serde_json::Value;
use sha2::Digest;

fn json(text: &str) -> Value {
    serde_json::from_str(text).expect("valid JSON")
}

fn queue_one(queue: &mut MemoryApprovalGate, owner: &str, capability: &str, args: &Value) -> i64 {
    match queue.enqueue_or_reuse(owner, capability, args, 100) {
        Ok(ApprovalOutcome::NewlyQueued(id)) => id,
        other => panic!("expected NewlyQueued, got {other:?}"),
    }
}

#[test]
fn compute_hash_is_deterministic_and_input_sensitive() {
    let args = json(r#"{"amount": 10}"#);
    let h1 = compute_hash("send_payment", &args, "alice");
    let h2 = compute_hash("send_payment", &args, "alice");
    assert_eq!(h1, h2, "same inputs must always produce the same hash");

    let diff_owner = compute_hash("send_payment", &args, "bob");
    assert_ne!(h1, diff_owner, "different owner must change the hash");

    let diff_cap = compute_hash("send_email", &args, "alice");
    assert_ne!(
        h1, diff_cap,
        "different capability_name must change the hash"
    );

    let diff_args = json(r#"{"amount": 20}"#);
    let diff_args_hash = compute_hash("send_payment", &diff_args, "alice");
    assert_ne!(h1, diff_args_hash, "different args must change the hash");
}

#[test]
fn enqueue_or_reuse_twice_reuses_the_same_row() {
    let mut queue = MemoryApprovalGate::new();
    let args = json(r#"{"amount": 10}"#);

    let first = queue
        .enqueue_or_reuse("alice", "send_payment", &args, 1)
        .unwrap();
    assert!(matches!(first, ApprovalOutcome::NewlyQueued(_)));

    let second = queue
        .enqueue_or_reuse("alice", "send_payment", &args, 2)
        .unwrap();
    assert!(matches!(second, ApprovalOutcome::AlreadyPending));

    let hash = compute_hash("send_payment", &args, "alice");
    let rows = queue.pending_for_owner("alice");
    let count = rows.iter().filter(|r| r.idempotency_hash == hash).count();
    assert_eq!(count, 1, "second call must not insert a second row");
}

#[test]
fn approved_and_executed_row_is_cached_and_never_rerun() {
    let mut queue = MemoryApprovalGate::new();
    let args = json(r#"{"amount": 10}"#);
    let id = queue_one(&mut queue, "alice", "send_payment", &args);

    queue.approve("alice", id, 200).expect("approve");
    let cached_result = json(r#"{"status": "sent", "tx_id": "abc123"}"#);
    queue
        .record_executed(id, &cached_result, 300)
        .expect("record_executed");

    let third = queue
        .enqueue_or_reuse("alice", "send_payment", &args, 400)
        .unwrap();
    match third {
        ApprovalOutcome::AlreadyExecuted(result) => {
            assert_eq!(result, cached_result, "must return the exact cached JSON")
        }
        other => panic!("expected AlreadyExecuted, got {other:?}"),
    }
}

#[test]
fn approve_and_reject_with_wrong_owner_errors_idor_guard() {
    let mut queue = MemoryApprovalGate::new();
    let args = json(r#"{"amount": 10}"#);
    let id = queue_one(&mut queue, "alice", "send_payment", &args);

    let approve_wrong = queue.approve("mallory", id, 200);
    assert!(
        approve_wrong.is_err(),
        "approve() with the wrong owner_id must error, never silently no-op"
    );

    let reject_wrong = queue.reject("mallory", id, 200);
    assert!(
        reject_wrong.is_err(),
        "reject() with the wrong owner_id must error, never silently no-op"
    );
}

#[test]
fn pending_for_owner_returns_only_that_owners_pending_rows() {
    let mut queue = MemoryApprovalGate::new();

    let empty = queue.pending_for_owner("alice");
    assert!(
        empty.is_empty(),
        "must return an empty vec when no rows exist"
    );

    queue
        .enqueue_or_reuse("alice", "send_payment", &json(r#"{"amount": 10}"#), 1)
        .unwrap();
    queue
        .enqueue_or_reuse("alice", "send_email", &json(r#"{"to": "x"}"#), 2)
        .unwrap();
    queue
        .enqueue_or_reuse("bob", "send_payment", &json(r#"{"amount": 5}"#), 3)
        .unwrap();

    let alice_pending = queue.pending_for_owner("alice");
    assert_eq!(alice_pending.len(), 2);
    assert!(alice_pending.iter().all(|r| r.owner_id == "alice"));
    assert!(alice_pending
        .iter()
        .all(|r| r.status == ApprovalStatus::Pending));

    let bob_pending = queue.pending_for_owner("bob");
    assert_eq!(bob_pending.len(), 1);
}

#[test]
fn rejected_row_surfaces_rejected_turn_once_then_already_executed() {
    let mut queue = MemoryApprovalGate::new();
    let args = json("{}");
    let id = queue_one(&mut queue, "alice", "cap_a", &args);
    queue.reject("alice", id, 200).unwrap();

    let first = queue
        .enqueue_or_reuse("alice", "cap_a", &args, 300)
        .unwrap();
    assert!(
        matches!(first, ApprovalOutcome::Rejected(DenyScope::Turn)),
        "a freshly-rejected row must surface as Rejected(Turn), not AlreadyPending; got {first:?}"
    );

    let second = queue
        .enqueue_or_reuse("alice", "cap_a", &args, 400)
        .unwrap();
    assert!(
        matches!(second, ApprovalOutcome::AlreadyExecuted(_)),
        "a Rejected row must be consumed after signaling once — got {second:?}"
    );
    if let ApprovalOutcome::AlreadyExecuted(marker) = second {
        assert_eq!(marker["approval_denied"], Value::Bool(true));
        assert_eq!(marker["capability"], Value::from("cap_a"));
    }
}

#[test]
fn rejected_row_status_and_resolved_at_are_preserved_after_consumption() {
    let mut queue = MemoryApprovalGate::new();
    let args = json("{}");
    let id = queue_one(&mut queue, "alice", "cap_a", &args);
    queue.reject("alice", id, 200).unwrap();
    // Consume the denial signal (mirrors what a real invoke() does).
    let _ = queue
        .enqueue_or_reuse("alice", "cap_a", &args, 300)
        .unwrap();

    let row = queue.read_row_by_id(id).expect("row must exist");
    assert_eq!(
        row.status,
        ApprovalStatus::Rejected,
        "status must stay 'rejected' forever — auditing who rejected it must never be \
         overwritten to look like a normal execution"
    );
    assert!(
        row.resolved_at.is_some(),
        "resolved_at (set by reject()) must be preserved"
    );
    assert!(
        row.executed_at.is_some(),
        "executed_at is now set — this is the consumption marker, not a claim the \
         capability actually ran"
    );
    assert_eq!(row.resolved_at, Some(200));
    assert_eq!(row.executed_at, Some(300));
}

#[test]
fn the_key_of_an_action_names_its_parts_in_order() {
    assert_eq!(
        action_key("cap", "{}", "alice"),
        b"cap\0alice\0{}".to_vec()
    );
    assert_eq!(hex_of(&vec![0x00, 0x0f, 0xa5, 0xff]), "000fa5ff");
}

#[test]
fn the_hash_of_an_action_is_the_digest_of_its_key() {
    let args = json(r#"{"b": 1, "a": "x"}"#);
    let key = action_key("cap", &args.to_string(), "alice");
    let digest: Vec<u8> = sha2::Sha256::digest(&key).to_vec();
    assert_eq!(compute_hash("cap", &args, "alice"), hex_of(&digest));
    assert_eq!(compute_hash("cap", &args, "alice").len(), 64);
}

#[test]
fn statuses_have_names() {
    let all = [
        (ApprovalStatus::Pending, "pending"),
        (ApprovalStatus::Approved, "approved"),
        (ApprovalStatus::Rejected, "rejected"),
        (ApprovalStatus::Expired, "expired"),
    ];
    for (status, name) in all {
        assert_eq!(status.as_sql_str(), name);
        assert_eq!(ApprovalStatus::from_sql_str(name), Some(status));
    }
    assert_eq!(ApprovalStatus::from_sql_str("Pending"), None);
}

#[test]
fn a_row_that_was_approved_is_handed_out_for_execution() {
    let mut queue = MemoryApprovalGate::new();
    let args = json("{}");
    let id = queue_one(&mut queue, "alice", "cap_a", &args);
    queue.approve("alice", id, 200).expect("approve");
    let again = queue.enqueue_or_reuse("alice", "cap_a", &args, 300).unwrap();
    assert_eq!(again, ApprovalOutcome::ApprovedPendingExecution(id));
    let row = queue.read_row_by_id(id).expect("row");
    assert_eq!(row.status, ApprovalStatus::Approved);
    assert_eq!(row.executed_at, None);
}

#[test]
fn the_latest_word_on_a_row_stands() {
    let mut queue = MemoryApprovalGate::new();
    let id = queue_one(&mut queue, "alice", "cap_a", &json("{}"));
    queue.approve("alice", id, 200).expect("approve");
    queue.reject("alice", id, 300).expect("reject");
    assert_eq!(
        queue.read_row_by_id(id).map(|r| (r.status, r.resolved_at)),
        Some((ApprovalStatus::Rejected, Some(300)))
    );
    assert!(queue.read_row_by_id(id + 1).is_none());
}

#[test]
fn a_row_that_is_not_there_cannot_be_resolved() {
    let mut queue = MemoryApprovalGate::new();
    let missing = queue.reject("alice", 7, 1).expect_err("no row");
    assert_eq!(
        missing,
        BastionError::Failed(
            "approval_queue row 7 not found for owner (no row rejected) — IDOR guard".to_string()
        )
    );
    let missing = queue.record_executed(7, &json("1"), 1).expect_err("no row");
    assert_eq!(
        missing,
        BastionError::Failed("approval_queue row 7 not found (record_executed)".to_string())
    );
}

#[test]
fn a_stored_result_that_is_no_json_is_an_error() {
    let row = ApprovalRow {
        id: 1,
        owner_id: "alice".to_string(),
        capability_name: "cap".to_string(),
        args_json: "{}".to_string(),
        idempotency_hash: "h".to_string(),
        status: ApprovalStatus::Approved,
        result_json: Some("not json".to_string()),
        created_at: 1,
        resolved_at: Some(2),
        executed_at: Some(3),
    };
    let (row, outcome) = outcome_for_existing_row(row, 9);
    assert_eq!(row.executed_at, Some(3));
    assert!(matches!(outcome, Err(BastionError::Failed(_))), "{outcome:?}");
}

#[test]
fn without_a_queue_nothing_is_approved() {
    let gate = NullApprovalGate;
    let args = json("{}");
    assert!(gate.enqueue_or_reuse("alice", "cap", &args).is_err());
    assert!(gate.pending_for_owner("alice").is_empty());
    assert!(gate.approve("alice", 1).is_err());
    assert!(gate.reject("alice", 1).is_err());
    assert!(gate.record_executed(1, &args).is_err());
}

#[test]
fn a_decided_row_keeps_its_place_and_is_listed_no_more() {
    let mut queue = MemoryApprovalGate::new();
    let first = queue_one(&mut queue, "alice", "cap_a", &json("{}"));
    let second = queue_one(&mut queue, "alice", "cap_b", &json("{}"));
    let third = queue_one(&mut queue, "alice", "cap_c", &json("{}"));
    queue.approve("alice", second, 200).expect("approve");
    let waiting: Vec<i64> = queue.pending_for_owner("alice").iter().map(|r| r.id).collect();
    assert_eq!(waiting, vec![first, third]);

    queue.record_executed(second, &json("1"), 300).expect("a row");
    queue.reject("alice", first, 400).expect("reject");
    let fourth = queue_one(&mut queue, "alice", "cap_d", &json("{}"));
    let waiting: Vec<i64> = queue.pending_for_owner("alice").iter().map(|r| r.id).collect();
    assert_eq!(waiting, vec![third, fourth]);
}
