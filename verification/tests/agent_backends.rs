use bastion_runtime::agent::backend::{
    AuthProfileRef, BackendProfile, BackendResolutionError, ConversationBackend, PolicyCoverage,
    RegisteredRuntime, RuntimeDescriptor, RuntimeHealth, RuntimeRegistry,
};
use bastion_runtime::agent::cockpit::{
    contested_reply, describe_backends, drift_reply, goals_reply, memories_reply, parse_command,
    parse_selection, set_backend, BackendSelection, CockpitCommand, Goal, RuntimeStatus,
    CONTEST_USAGE,
};
use bastion_runtime::agent::runtime_session::{
    build_runtime_session_spec, delegation_target, expiry, permission_outcome, reattaches,
    runtime_prompt, stored_session, task_key, workspace_name, ConversationStep, DelegatedStep,
    DelegatedTask, RuntimeConversation, RuntimeEvent, TaskOutcome, WaitEnd, HOST_LOGIN,
    STREAM_CLOSED,
};
use bastion_runtime::agent::turn::PendingItem;
use bastion_runtime::capability::permission_queue::{
    PermissionAction, PermissionDecision, PermissionRequestId,
};
use bastion_runtime::hooks::output_validator::Belief;
use bastion_runtime::task::store::SessionHandle;
use bastion_runtime::types::{BastionError, DenyScope};

fn coverage() -> PolicyCoverage {
    PolicyCoverage {
        tool_visibility: "Full".to_string(),
        approvals: "Bridged".to_string(),
        egress: "InputFiltered".to_string(),
        budget: "Reported".to_string(),
        sandbox: "Honored".to_string(),
    }
}

fn descriptor(id: &str) -> RuntimeDescriptor {
    RuntimeDescriptor {
        id: id.to_string(),
        transport: "Embedded".to_string(),
        policy_coverage: coverage(),
    }
}

/// Whether it is ready is all that is known of the adapter.
struct FakeAdapter {
    ready: bool,
}

impl FakeAdapter {
    fn health(&self) -> Result<RuntimeHealth, String> {
        Ok(RuntimeHealth {
            detected_version: "0.0.0".to_string(),
            ready: self.ready,
            detail: if self.ready {
                None
            } else {
                Some("fake unhealthy".to_string())
            },
        })
    }
}

fn registry(id: &str, ready: bool) -> RuntimeRegistry<FakeAdapter> {
    let mut registry = RuntimeRegistry::new();
    registry.register(RegisteredRuntime {
        descriptor: descriptor(id),
        adapter: FakeAdapter { ready },
    });
    registry
}

#[test]
fn default_backend_profile_is_model_with_no_task_runtime() {
    let profile = BackendProfile::default();
    assert_eq!(profile.conversation, ConversationBackend::Model);
    assert!(profile.task_runtime.is_none());
    assert!(profile.auth.is_none());
    assert!(profile.coverage_note.is_none());
}

#[test]
fn empty_registry_is_default() {
    let registry: RuntimeRegistry<FakeAdapter> = RuntimeRegistry::default();
    assert!(registry.is_empty());
    assert_eq!(registry.len(), 0);
}

#[test]
fn resolve_unknown_id_is_typed_error_never_silent_fallback() {
    let registry: RuntimeRegistry<FakeAdapter> = RuntimeRegistry::new();
    let err = registry
        .resolve("does_not_exist", &FakeAdapter { ready: true }.health())
        .err()
        .expect("must be Err");
    assert!(matches!(err, BackendResolutionError::UnknownRuntime(id) if id == "does_not_exist"));
}

#[test]
fn resolve_registered_unhealthy_runtime_is_typed_error() {
    let registry = registry("fake_unhealthy", false);
    let health = registry.get("fake_unhealthy").unwrap().adapter.health();
    let err = registry
        .resolve("fake_unhealthy", &health)
        .err()
        .expect("must be Err");
    assert!(matches!(err, BackendResolutionError::Unhealthy(id, _) if id == "fake_unhealthy"));
}

#[test]
fn resolve_registered_healthy_runtime_succeeds() {
    let registry = registry("fake_healthy", true);
    let health = registry.get("fake_healthy").unwrap().adapter.health();
    let runtime = registry
        .resolve("fake_healthy", &health)
        .unwrap_or_else(|e| panic!("must resolve: {}", e.message()));
    assert_eq!(runtime.descriptor.id, "fake_healthy");
}

#[test]
fn registry_get_does_not_health_probe() {
    let registry = registry("fake_unhealthy", false);
    // get() is a raw lookup (used at composition time to read the
    // descriptor for a coverage_note) — it must NOT filter on health.
    assert!(registry.get("fake_unhealthy").is_some());
    assert!(registry.get("missing").is_none());
}

#[test]
fn a_problem_is_told_in_words() {
    assert_eq!(
        BackendResolutionError::UnknownRuntime("x".to_string()).message(),
        "no AgentRuntime registered for backend id 'x'"
    );
    assert_eq!(
        BackendResolutionError::Unhealthy("x".to_string(), "down".to_string()).message(),
        "AgentRuntime 'x' is registered but unhealthy: down"
    );
}

#[test]
fn a_later_runtime_takes_the_place_of_an_earlier_one() {
    let mut registry = registry("a", false);
    registry.register(RegisteredRuntime {
        descriptor: descriptor("a"),
        adapter: FakeAdapter { ready: true },
    });
    assert_eq!(registry.len(), 1);
    assert!(registry.get("a").unwrap().adapter.ready);
    assert_eq!(registry.descriptors().len(), 1);
}

/// Runs a delegated task that says one thing and succeeds.
fn delegate(owner: &str, n: u64) -> (String, PendingItem) {
    let key = task_key(owner, 0xabc, n);
    let mut task = DelegatedTask::new(key.clone(), owner.to_string(), 1);
    let events = vec![
        RuntimeEvent::MessageDelta {
            task: 1,
            text: "fake delegated response".to_string(),
        },
        RuntimeEvent::Ended {
            task: 1,
            outcome: TaskOutcome::Success,
        },
    ];
    for event in events {
        let (next, step) = task.hear(Some(event));
        task = next;
        if let DelegatedStep::Ended(outcome) = step {
            let item = task.report(&outcome);
            return (key, item);
        }
    }
    panic!("the task did not end");
}

#[test]
fn delegate_task_pending_item_never_crosses_owner_boundary() {
    let profile = BackendProfile {
        task_runtime: Some("fake_delegate".to_string()),
        ..Default::default()
    };
    assert_eq!(delegation_target(&profile), Ok("fake_delegate"));
    let (key_alice, item1) = delegate("alice", 0);
    let (key_bob, item2) = delegate("bob", 1);

    for item in [&item1, &item2] {
        if item.text.contains(&key_alice) {
            assert_eq!(
                item.owner.as_deref(),
                Some("alice"),
                "alice's delegated-task result must be owner-tagged 'alice', \
                 never delivered as another owner's proactive turn; got {item:?}"
            );
        } else if item.text.contains(&key_bob) {
            assert_eq!(
                item.owner.as_deref(),
                Some("bob"),
                "bob's delegated-task result must be owner-tagged 'bob', \
                 never delivered as another owner's proactive turn; got {item:?}"
            );
        } else {
            panic!("pending item matched neither delegated task's key: {item:?}");
        }
    }
    assert_eq!(key_alice, "task:alice:abc-0");
    assert_eq!(
        item1.text,
        "[Tarefa delegada 'task:alice:abc-0' concluída]\nfake delegated response"
    );
}

#[test]
fn a_delegated_task_hears_only_its_own_events() {
    let task = DelegatedTask::new("k".to_string(), "alice".to_string(), 7);
    let (task, _) = task.hear(Some(RuntimeEvent::MessageDelta {
        task: 8,
        text: "not mine".to_string(),
    }));
    let (task, _) = task.hear(Some(RuntimeEvent::Artifact {
        task: 7,
        kind: "file".to_string(),
        path: "a.txt".to_string(),
    }));
    let (task, _) = task.hear(Some(RuntimeEvent::Diff {
        task: 7,
        path: "b.rs".to_string(),
        added: 3,
        removed: 1,
    }));
    assert_eq!(
        task.report(&TaskOutcome::Cancelled).text,
        "[Tarefa delegada 'k' cancelada]\nArtefatos: file a.txt, diff b.rs (+3/-1)"
    );
    let (task, step) = task.hear(None);
    assert!(
        matches!(&step, DelegatedStep::Ended(TaskOutcome::Failed { reason }) if reason == STREAM_CLOSED),
        "{step:?}"
    );
    assert_eq!(
        task.report(&TaskOutcome::TimedOut).text,
        "[Tarefa delegada 'k' expirou por timeout]\nArtefatos: file a.txt, diff b.rs (+3/-1)"
    );
}

#[test]
fn a_delegated_task_asks_its_owner() {
    let task = DelegatedTask::new("k".to_string(), "alice".to_string(), 7);
    let (_, step) = task.hear(Some(RuntimeEvent::PermissionRequest {
        task: 7,
        id: PermissionRequestId(3),
        action: PermissionAction::RunCommand,
        detail: "ls".to_string(),
    }));
    match step {
        DelegatedStep::AskPermission { id, action, detail } => {
            assert_eq!(id, PermissionRequestId(3));
            assert_eq!(action, PermissionAction::RunCommand);
            assert_eq!(detail, "ls");
        }
        other => panic!("expected AskPermission, got {other:?}"),
    }
}

#[test]
fn a_conversation_collects_its_text_and_denies_requests() {
    let talk = RuntimeConversation::new(1);
    let (talk, step) = talk.hear(Some(RuntimeEvent::MessageDelta {
        task: 1,
        text: "hel".to_string(),
    }));
    assert!(matches!(step, ConversationStep::Continue));
    let (talk, step) = talk.hear(Some(RuntimeEvent::PermissionRequest {
        task: 1,
        id: PermissionRequestId(9),
        action: PermissionAction::Network,
        detail: "d".to_string(),
    }));
    assert!(
        matches!(&step, ConversationStep::Deny { id, .. } if *id == PermissionRequestId(9)),
        "{step:?}"
    );
    let (talk, _) = talk.hear(Some(RuntimeEvent::MessageDelta {
        task: 1,
        text: "lo".to_string(),
    }));
    let (_, step) = talk.hear(Some(RuntimeEvent::Ended {
        task: 1,
        outcome: TaskOutcome::Success,
    }));
    assert!(
        matches!(&step, ConversationStep::Finish(Ok(text)) if text == "hello"),
        "{step:?}"
    );
}

#[test]
fn a_conversation_that_breaks_off_is_an_error() {
    let (_, step) = RuntimeConversation::new(1).hear(None);
    assert!(
        matches!(&step, ConversationStep::Finish(Err(BastionError::BackendUnavailable(m))) if m == STREAM_CLOSED),
        "{step:?}"
    );
    for (outcome, words) in [
        (
            TaskOutcome::Cancelled,
            "runtime task was cancelled before completion",
        ),
        (TaskOutcome::TimedOut, "runtime task timed out"),
        (
            TaskOutcome::Failed {
                reason: "boom".to_string(),
            },
            "boom",
        ),
    ] {
        let (_, step) = RuntimeConversation::new(1).hear(Some(RuntimeEvent::Ended {
            task: 1,
            outcome,
        }));
        assert!(
            matches!(&step, ConversationStep::Finish(Err(BastionError::BackendUnavailable(m))) if m.contains(words)),
            "{step:?}"
        );
    }
}

#[test]
fn nobody_is_allowed_by_silence() {
    let deny = PermissionDecision::Deny {
        scope: DenyScope::Turn,
    };
    let timed_out = permission_outcome(WaitEnd::TimedOut);
    assert_eq!((timed_out.decision, timed_out.record, timed_out.cancel), (deny, true, false));
    let cancelled = permission_outcome(WaitEnd::Cancelled);
    assert_eq!((cancelled.decision, cancelled.record, cancelled.cancel), (deny, true, true));
    for end in [WaitEnd::NotQueued, WaitEnd::Answered(None)] {
        let outcome = permission_outcome(end);
        assert_eq!((outcome.decision, outcome.record, outcome.cancel), (deny, false, false));
    }
    let allowed = permission_outcome(WaitEnd::Answered(Some(PermissionDecision::Allow)));
    assert_eq!(allowed.decision, PermissionDecision::Allow);
    assert_eq!(expiry(10, 5), 15);
}

#[test]
fn a_workspace_has_a_plain_name() {
    assert_eq!(workspace_name("alice"), "alice");
    assert_eq!(workspace_name("../etc/passwd"), "_46__46__47_etc_47_passwd");
    assert_eq!(workspace_name("zoë b"), "zo_235__32_b");
    assert_eq!(workspace_name(""), "_owner");
}

#[test]
fn no_two_owners_share_a_workspace() {
    let owners = ["a.b", "a_b", "a/b", "a b", "ab", "a_46_b", "", "_owner", "_", "A.B"];
    for (i, one) in owners.iter().enumerate() {
        for other in &owners[i + 1..] {
            assert_ne!(workspace_name(one), workspace_name(other), "{one} and {other}");
        }
    }
}

#[test]
fn a_session_is_set_up_for_its_owner() {
    let mut profile = BackendProfile::default();
    let session = build_runtime_session_spec(
        "a/b",
        "codex",
        &profile,
        Some("/home/x".to_string()),
        None,
    );
    assert_eq!(session.workspace, "a_47_b");
    assert_eq!(session.owner, "a/b");
    assert_eq!(session.auth, AuthProfileRef(HOST_LOGIN.to_string()));
    assert!(session.allowed_actions.is_empty());
    assert_eq!(
        (session.timeout.per_task_secs, session.timeout.idle_secs),
        (120, 300)
    );
    profile.auth = Some(AuthProfileRef("team".to_string()));
    let session = build_runtime_session_spec("a", "codex", &profile, None, None);
    assert_eq!(session.auth, AuthProfileRef("team".to_string()));
    assert_eq!(session.env_home, None);
}

#[test]
fn a_session_is_taken_up_again_by_its_own_runtime() {
    let handle = || SessionHandle {
        runtime_id: "codex".to_string(),
        owner: "alice".to_string(),
        external_ref: "t1".to_string(),
    };
    assert!(reattaches(&Some(handle()), "codex"));
    assert!(!reattaches(&Some(handle()), "other"));
    assert!(!reattaches(&None, "codex"));
    assert_eq!(stored_session("k", Some(handle())), Ok(handle()));
    assert_eq!(
        stored_session("k", None),
        Err(BastionError::BackendUnavailable(
            "no persisted handle for delegated task 'k'".to_string()
        ))
    );
    assert!(delegation_target(&BackendProfile::default()).is_err());
}

#[test]
fn a_runtime_is_prompted_with_the_context() {
    let parts = vec!["one".to_string(), "two".to_string()];
    assert_eq!(runtime_prompt(&parts, "hello"), "one\n\ntwo\n\nhello");
    assert_eq!(runtime_prompt(&vec![], "hello"), "hello");
}

#[test]
fn commands_are_told_from_messages() {
    assert_eq!(parse_command("  /memories "), Some(CockpitCommand::Memories));
    assert_eq!(
        parse_command("/contest 12"),
        Some(CockpitCommand::Contest(Some(12)))
    );
    assert_eq!(
        parse_command("/contest x"),
        Some(CockpitCommand::Contest(None))
    );
    assert_eq!(parse_command("/backend"), Some(CockpitCommand::Backends));
    assert_eq!(
        parse_command("/backend use  codex "),
        Some(CockpitCommand::BackendUse("codex"))
    );
    assert_eq!(parse_command("/goals"), Some(CockpitCommand::Goals));
    assert_eq!(parse_command("/drift"), Some(CockpitCommand::Drift));
    assert_eq!(parse_command("/memories now"), None);
    assert_eq!(parse_command("hello"), None);
    assert_eq!(CONTEST_USAGE, "Uso: /contest <id>");
}

#[test]
fn memories_are_listed_by_number() {
    assert_eq!(memories_reply(&vec![]), "Nenhuma memória registrada.");
    let beliefs = vec![
        Belief {
            id: 1,
            content: "likes tea".to_string(),
            tier: None,
        },
        Belief {
            id: -2,
            content: "lives in Porto".to_string(),
            tier: None,
        },
    ];
    assert_eq!(
        memories_reply(&beliefs),
        "1: likes tea\n-2: lives in Porto"
    );
    assert_eq!(contested_reply(7), "Memória 7 contestada e revogada.");
}

fn goal(description: &str, metric: Option<&str>, last_confirmed: Option<i64>) -> Goal {
    Goal {
        description: description.to_string(),
        metric: metric.map(|m| m.to_string()),
        last_confirmed,
    }
}

#[test]
fn goals_are_listed_and_their_drift_is_told() {
    assert_eq!(goals_reply(&vec![]), "Nenhuma meta ativa.");
    let goals = vec![
        goal("run", Some("km"), Some(1)),
        goal("read", None, None),
        goal("rest", None, None),
    ];
    assert_eq!(
        goals_reply(&goals),
        "3 metas ativas\n- run (km)\n- read\n- rest"
    );
    assert_eq!(
        drift_reply(&goals),
        "drift atenção (33%) — 1/3 metas com progresso confirmado."
    );
    assert_eq!(
        drift_reply(&vec![goal("a", None, None)]),
        "drift em risco (0%) — 0/1 metas com progresso confirmado."
    );
    assert_eq!(
        drift_reply(&vec![goal("a", None, Some(0))]),
        "drift estável (100%) — 1/1 metas com progresso confirmado."
    );
    assert_eq!(
        drift_reply(&vec![]),
        "Nenhuma meta ativa — sem drift a monitorar."
    );
}

#[test]
fn conversation_and_tasks_are_chosen_by_word() {
    assert_eq!(parse_selection("model"), BackendSelection::Model);
    assert_eq!(parse_selection(""), BackendSelection::Model);
    assert_eq!(parse_selection("codex"), BackendSelection::Runtime("codex"));
    assert_eq!(
        parse_selection("runtime:codex"),
        BackendSelection::Runtime("codex")
    );
    assert_eq!(
        parse_selection("task: codex"),
        BackendSelection::TaskRuntime("codex")
    );
    assert_eq!(
        parse_selection("task:none"),
        BackendSelection::NoTaskRuntime
    );

    let mut profile = BackendProfile::default();
    assert_eq!(
        set_backend(
            &mut profile,
            &BackendSelection::TaskRuntime("codex"),
            Ok(coverage())
        ),
        Ok("task_runtime definido para: codex".to_string())
    );
    assert_eq!(profile.task_runtime.as_deref(), Some("codex"));
    assert_eq!(profile.conversation, ConversationBackend::Model);
    let said = set_backend(
        &mut profile,
        &BackendSelection::Runtime("codex"),
        Ok(coverage()),
    )
    .expect("selected");
    assert!(said.starts_with("Backend de conversa definido para: runtime:codex"));
    assert!(said.contains("approvals: Bridged"), "{said}");
    assert_eq!(
        profile.conversation,
        ConversationBackend::Runtime("codex".to_string())
    );
    let refused = set_backend(
        &mut profile,
        &BackendSelection::Runtime("ghost"),
        Err(BackendResolutionError::UnknownRuntime("ghost".to_string())),
    )
    .expect_err("refused");
    assert!(refused
        .message()
        .contains("não é possível selecionar 'ghost' como backend de conversa"));
    assert_eq!(
        profile.conversation,
        ConversationBackend::Runtime("codex".to_string())
    );
    set_backend(&mut profile, &BackendSelection::NoTaskRuntime, Ok(coverage())).unwrap();
    assert!(profile.task_runtime.is_none());
    set_backend(&mut profile, &BackendSelection::Model, Ok(coverage())).unwrap();
    assert_eq!(profile.conversation, ConversationBackend::Model);
}

#[test]
fn the_backends_are_listed_by_name() {
    let mut profile = BackendProfile::default();
    profile.task_runtime = Some("acpx".to_string());
    let runtimes = vec![
        RuntimeStatus {
            descriptor: descriptor("opencode"),
            problem: Some(BackendResolutionError::Unhealthy(
                "opencode".to_string(),
                "down".to_string(),
            )),
        },
        RuntimeStatus {
            descriptor: descriptor("acpx"),
            problem: None,
        },
    ];
    let text = describe_backends(&profile, &Ok(()), &runtimes);
    let lines: Vec<&str> = text.lines().collect();
    assert_eq!(lines[0], "Conversa: model (Bastion tool loop)");
    assert_eq!(lines[1], "Tarefa delegada (task_runtime): acpx");
    assert_eq!(lines[2], "Auth configurado: nenhum");
    assert_eq!(lines[4], "Backends disponíveis:");
    assert!(lines[6].starts_with("- acpx [Embedded] approvals=Bridged sandbox=Honored"));
    assert!(lines[6].ends_with("saudável agora [task_runtime atual]"), "{}", lines[6]);
    assert!(
        lines[7].ends_with("INDISPONÍVEL — AgentRuntime 'opencode' is registered but unhealthy: down"),
        "{}",
        lines[7]
    );
    let empty = describe_backends(&BackendProfile::default(), &Ok(()), &vec![]);
    assert!(empty.contains("(nenhum AgentRuntime registrado"));
}
