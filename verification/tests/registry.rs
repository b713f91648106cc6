use bastion_runtime::capability::approval::{MemoryApprovalGate, NullApprovalGate};
use bastion_runtime::capability::authority::{
    check_tool_allowed, error_value, InvokeCtx, TaggedValue,
};
use bastion_runtime::capability::dispatch::Dispatcher;
use bastion_runtime::capability::registry::{
    tag_result, CapabilityInfo, CapabilityRegistry, InvokePlan, Registered, TurnCapabilityScope,
};
use bastion_runtime::capability::structured_output::StructuredOutputCapability;
use bastion_runtime::types::{BastionError, PrivacyTier};
use serde_json::Value;
use std::cell::Cell;
use std::rc::Rc;

fn json(text: &str) -> Value {
    serde_json::from_str(text).expect("valid JSON")
}

/// What a stub answers, and how often it was asked.
struct Stub {
    answer: Value,
    calls: Rc<Cell<usize>>,
}

fn adapter(answer: Value) -> Stub {
    Stub {
        answer,
        calls: Rc::new(Cell::new(0)),
    }
}

fn stub(name: &str) -> Registered<Stub> {
    Registered {
        info: CapabilityInfo::external(name.to_string(), "stub".to_string(), json("{}")),
        adapter: adapter(Value::Null),
    }
}

fn approval_stub(name: &str, approval_required: bool, calls: &Rc<Cell<usize>>) -> Registered<Stub> {
    let mut info =
        CapabilityInfo::external(name.to_string(), "approval stub".to_string(), json("{}"));
    info.needs_approval = approval_required;
    Registered {
        info,
        adapter: Stub {
            answer: json(r#"{"dispatched": true}"#),
            calls: calls.clone(),
        },
    }
}

fn trust_stub(name: &str, local: bool) -> Registered<Stub> {
    let info = if local {
        CapabilityInfo::local(name.to_string(), "trust stub".to_string(), json("{}"))
    } else {
        CapabilityInfo::external(name.to_string(), "trust stub".to_string(), json("{}"))
    };
    Registered {
        info,
        adapter: adapter(json(r#"{"own": true}"#)),
    }
}

fn ctx_for(owner: &str) -> InvokeCtx {
    InvokeCtx {
        owner: owner.to_string(),
        privacy_tier: Some(PrivacyTier::CloudOk),
        allowed_tools: None,
    }
}

fn dispatch(registry: &CapabilityRegistry<Stub>, name: &str) -> Value {
    let cap = registry.get(name).expect("a plan names a registered capability");
    cap.adapter.calls.set(cap.adapter.calls.get() + 1);
    cap.adapter.answer.clone()
}

/// Runs what is registered.
struct Host<'a>(&'a CapabilityRegistry<Stub>);

impl Dispatcher for Host<'_> {
    fn dispatch(
        &mut self,
        name: &str,
        _args: &Value,
        _ctx: &InvokeCtx,
    ) -> Result<Value, BastionError> {
        Ok(dispatch(self.0, name))
    }
}

/// Carries out what the registry plans, over a queue where there is one.
fn invoke(
    registry: &CapabilityRegistry<Stub>,
    queue: Option<&mut MemoryApprovalGate>,
    name: &str,
    args: &Value,
    ctx: &InvokeCtx,
) -> Result<TaggedValue, BastionError> {
    if let Some(queue) = queue {
        return registry.invoke_over(queue, &mut Host(registry), name, args, ctx, 100);
    }
    match registry.invoke(name, ctx)? {
        InvokePlan::Dispatch { trusted } => Ok(tag_result(
            name,
            trusted,
            dispatch(registry, name),
        )),
        InvokePlan::AskApproval { .. } => Err(NullApprovalGate
            .enqueue_or_reuse(&ctx.owner, name, args)
            .expect_err("no queue approves nothing")),
    }
}

fn printed(registry: &CapabilityRegistry<Stub>) -> String {
    serde_json::to_string(&registry.list_tool_defs()).unwrap()
}

#[test]
fn list_tool_defs_returns_capabilities_sorted_by_name() {
    let mut registry = CapabilityRegistry::new();
    registry.register(stub("z")).unwrap();
    registry.register(stub("a")).unwrap();
    registry.register(stub("m")).unwrap();

    let names: Vec<String> = registry
        .list_tool_defs()
        .iter()
        .map(|d| d["name"].as_str().unwrap().to_owned())
        .collect();
    assert_eq!(names, vec!["a", "m", "z"]);
}

#[test]
fn list_tool_defs_is_byte_stable_across_register_remove_cycle() {
    let mut registry = CapabilityRegistry::new();
    registry.register(stub("z")).unwrap();
    registry.register(stub("a")).unwrap();
    registry.register(stub("m")).unwrap();

    let before = printed(&registry);

    // Register an ephemeral 4th capability, then drop it.
    let scope = TurnCapabilityScope::new(&mut registry, vec![stub("ephemeral")]);
    assert!(registry.get("ephemeral").is_some());
    scope.close(&mut registry);

    let after = printed(&registry);
    assert_eq!(
        before, after,
        "an intervening register+remove cycle must not perturb list_tool_defs() ordering"
    );
}

#[test]
fn needs_approval_true_without_queue_fails_closed() {
    let mut registry = CapabilityRegistry::new();
    let calls = Rc::new(Cell::new(0));
    registry
        .register(approval_stub("dangerous_action", true, &calls))
        .unwrap();

    let result = invoke(
        &registry,
        None,
        "dangerous_action",
        &json("{}"),
        &ctx_for("alice"),
    );
    assert!(
        result.is_err(),
        "no queue wired must fail-closed deny, never silently dispatch"
    );
    assert_eq!(calls.get(), 0, "must never dispatch when denied");
}

#[test]
fn needs_approval_true_with_queue_queues_instead_of_dispatching() {
    let mut registry = CapabilityRegistry::new();
    let mut queue = MemoryApprovalGate::new();
    let calls = Rc::new(Cell::new(0));
    registry
        .register(approval_stub("dangerous_action", true, &calls))
        .unwrap();

    let result = invoke(
        &registry,
        Some(&mut queue),
        "dangerous_action",
        &json(r#"{"x": 1}"#),
        &ctx_for("alice"),
    )
    .expect("first invoke must succeed with an awaiting-approval signal");

    assert_eq!(calls.get(), 0, "must not dispatch on first call");
    assert_eq!(result.data["awaiting_approval"], Value::Bool(true));
}

#[test]
fn needs_approval_true_dispatches_after_approval_and_records_executed() {
    let mut registry = CapabilityRegistry::new();
    let mut queue = MemoryApprovalGate::new();
    let calls = Rc::new(Cell::new(0));
    registry
        .register(approval_stub("dangerous_action", true, &calls))
        .unwrap();
    let args = json(r#"{"x": 1}"#);

    invoke(
        &registry,
        Some(&mut queue),
        "dangerous_action",
        &args,
        &ctx_for("alice"),
    )
    .expect("first invoke queues");
    assert_eq!(calls.get(), 0);

    let id = {
        let pending = queue.pending_for_owner("alice");
        assert_eq!(pending.len(), 1);
        pending[0].id
    };
    queue.approve("alice", id, 150).expect("approve");

    let result = invoke(
        &registry,
        Some(&mut queue),
        "dangerous_action",
        &args,
        &ctx_for("alice"),
    )
    .expect("second invoke after approval must dispatch");

    assert_eq!(calls.get(), 1, "must dispatch exactly once after approval");
    assert_eq!(result.data, json(r#"{"dispatched": true}"#));

    let still_pending = queue.pending_for_owner("alice");
    assert!(
        still_pending.is_empty(),
        "row must no longer be pending after execution (record_executed ran)"
    );
}

#[test]
fn needs_approval_false_default_dispatches_immediately_unaffected() {
    let mut registry = CapabilityRegistry::new();
    let calls = Rc::new(Cell::new(0));
    registry
        .register(approval_stub("safe_action", false, &calls))
        .unwrap();

    let result = invoke(
        &registry,
        None,
        "safe_action",
        &json("{}"),
        &ctx_for("alice"),
    )
    .expect("default needs_approval()==false must dispatch immediately");

    assert_eq!(calls.get(), 1);
    assert_eq!(result.data, json(r#"{"dispatched": true}"#));
}

#[test]
fn invoke_wraps_local_capability_as_trusted_tagged_value() {
    let mut registry = CapabilityRegistry::new();
    registry.register(trust_stub("local_cap", true)).unwrap();

    let tagged = invoke(
        &registry,
        None,
        "local_cap",
        &json("{}"),
        &InvokeCtx {
            owner: "alice".to_string(),
            privacy_tier: Some(PrivacyTier::LocalOnly),
            allowed_tools: None,
        },
    )
    .expect("local capability must dispatch under LocalOnly");

    assert!(
        tagged.trusted,
        "is_local()==true must default is_trusted() to true"
    );
    assert_eq!(tagged.source, "local_cap");
    assert_eq!(tagged.data, json(r#"{"own": true}"#));
}

#[test]
fn invoke_wraps_non_local_capability_as_untrusted_tagged_value() {
    let mut registry = CapabilityRegistry::new();
    registry.register(trust_stub("remote_cap", false)).unwrap();

    let tagged = invoke(
        &registry,
        None,
        "remote_cap",
        &json("{}"),
        &ctx_for("alice"),
    )
    .expect("non-local capability must dispatch under CloudOk");

    assert!(
        !tagged.trusted,
        "is_local()==false must default is_trusted() to false"
    );
    assert_eq!(tagged.source, "remote_cap");
}

#[test]
fn drain_all_returns_all_capabilities_and_empties_registry() {
    let mut registry = CapabilityRegistry::new();
    registry.register(stub("a")).unwrap();
    registry.register(stub("b")).unwrap();
    registry.register(stub("c")).unwrap();

    let drained = registry.drain_all();
    assert_eq!(drained.len(), 3);
    assert!(
        registry.is_empty(),
        "drain_all must leave the registry empty"
    );
}

#[test]
fn restore_reregisters_every_drained_capability_byte_identical_list() {
    let mut registry = CapabilityRegistry::new();
    registry.register(stub("z")).unwrap();
    registry.register(stub("a")).unwrap();
    registry.register(stub("m")).unwrap();

    let before = printed(&registry);

    let drained = registry.drain_all();
    assert!(registry.is_empty());

    registry.restore(drained);

    let after = printed(&registry);
    assert_eq!(
        before, after,
        "restore() must reproduce the exact same set (list_tool_defs already sorts by name)"
    );
}

#[test]
fn quarantine_makes_every_capability_genuinely_invisible_while_alive() {
    let mut registry = CapabilityRegistry::new();
    registry.register(stub("a")).unwrap();
    registry.register(stub("b")).unwrap();
    registry.register(stub("c")).unwrap();

    let scope = TurnCapabilityScope::quarantine(&mut registry);
    assert!(
        registry.list_tool_defs().is_empty(),
        "quarantine must make list_tool_defs() return [] — not just 'no new tools added'"
    );
    let result = invoke(&registry, None, "a", &json("{}"), &ctx_for("alice"));
    assert!(
        result.is_err(),
        "a previously-registered capability must be genuinely uninvokable during quarantine"
    );
    scope.close(&mut registry);
}

#[test]
fn quarantine_restores_every_capability_on_drop() {
    let mut registry = CapabilityRegistry::new();
    registry.register(stub("a")).unwrap();
    registry.register(stub("b")).unwrap();
    registry.register(stub("c")).unwrap();
    let before = printed(&registry);

    let scope = TurnCapabilityScope::quarantine(&mut registry);
    scope.close(&mut registry);

    let after = printed(&registry);
    assert_eq!(
        before, after,
        "every originally-registered capability must be restored, identical to before quarantine"
    );

    let result = invoke(&registry, None, "a", &json("{}"), &ctx_for("alice"));
    assert!(
        result.is_ok(),
        "capability must be invocable again after quarantine scope drops"
    );
}

fn allowed_set(names: &[&str]) -> Option<Vec<String>> {
    Some(names.iter().map(|s| s.to_string()).collect())
}

#[test]
fn invoke_denies_tool_not_in_allowed_set() {
    let mut registry = CapabilityRegistry::new();
    registry.register(stub("memory_search")).unwrap();

    let result = invoke(
        &registry,
        None,
        "memory_search",
        &json("{}"),
        &InvokeCtx {
            owner: "alice".to_string(),
            privacy_tier: Some(PrivacyTier::CloudOk),
            allowed_tools: allowed_set(&["goal_create"]),
        },
    );

    let err = result.expect_err(
        "a tool outside the persona's allowed_tools set must be denied, never dispatched",
    );
    assert!(
        matches!(
            &err,
            BastionError::ToolNotAllowed { capability } if capability == "memory_search"
        ),
        "expected Err(BastionError::ToolNotAllowed), got: {err:?}"
    );
}

#[test]
fn invoke_allows_any_tool_when_allowed_tools_is_none() {
    let mut registry = CapabilityRegistry::new();
    registry.register(stub("memory_search")).unwrap();

    let result = invoke(
        &registry,
        None,
        "memory_search",
        &json("{}"),
        &ctx_for("alice"),
    );

    assert!(
        result.is_ok(),
        "allowed_tools: None must stay unrestricted (legacy/back-compat persona contract)"
    );
}

#[test]
fn invoke_allows_tool_present_in_allowed_set() {
    let mut registry = CapabilityRegistry::new();
    registry.register(stub("memory_search")).unwrap();

    let result = invoke(
        &registry,
        None,
        "memory_search",
        &json("{}"),
        &InvokeCtx {
            owner: "alice".to_string(),
            privacy_tier: Some(PrivacyTier::CloudOk),
            allowed_tools: allowed_set(&["memory_search", "goal_create"]),
        },
    );

    assert!(
        result.is_ok(),
        "a tool explicitly present in allowed_tools must dispatch normally"
    );
}

#[test]
fn check_tool_allowed_denies_outside_set() {
    let allowed = allowed_set(&["a"]);
    assert!(check_tool_allowed(&allowed, "b").is_err());
}

#[test]
fn check_tool_allowed_allows_none() {
    assert!(check_tool_allowed(&None, "anything").is_ok());
}

#[test]
fn check_tool_allowed_allows_member_of_set() {
    let allowed = allowed_set(&["a", "b"]);
    assert!(check_tool_allowed(&allowed, "b").is_ok());
}

#[test]
fn new_stores_name_schema_and_is_local() {
    let schema = json(r#"{"type": "object"}"#);
    let cap = StructuredOutputCapability::new("x", schema.clone());

    assert_eq!(cap.name(), "x");
    assert_eq!(cap.input_schema(), &schema);
    assert!(cap.is_local());
}

#[test]
fn invoke_echoes_args_verbatim() {
    let cap = StructuredOutputCapability::new("x", json("{}"));
    let args = json(r#"{"a": 1}"#);
    let ctx = InvokeCtx {
        owner: "test-owner".to_string(),
        privacy_tier: None,
        allowed_tools: None,
    };

    let result = cap.invoke(args.clone(), &ctx).unwrap();

    assert_eq!(result, args);
}

#[test]
fn a_structured_output_is_local_and_needs_no_approval() {
    let cap = StructuredOutputCapability::new("x", json("{}"));
    let description = cap.description().to_string();
    let info = cap.into_info();
    assert_eq!(info.name, "x");
    assert_eq!(info.description, description);
    assert!(info.local && info.trusted && !info.needs_approval);
}

#[test]
fn a_definition_lists_name_description_and_schema() {
    let mut registry = CapabilityRegistry::new();
    registry
        .register(Registered {
            info: CapabilityInfo::local(
                "tool".to_string(),
                "does".to_string(),
                json(r#"{"type": "object"}"#),
            ),
            adapter: adapter(Value::Null),
        })
        .unwrap();
    assert_eq!(
        registry.list_tool_defs(),
        vec![json(
            r#"{"name": "tool", "description": "does", "input_schema": {"type": "object"}}"#
        )]
    );
}

#[test]
fn a_name_is_registered_once() {
    let mut registry = CapabilityRegistry::new();
    registry.register(trust_stub("a", true)).unwrap();
    assert!(registry.register(trust_stub("a", false)).is_err());
    assert!(registry.get("a").expect("still there").info.local);
    assert_eq!(registry.list_names(), vec!["a"]);
    assert!(registry.remove("a"));
    assert!(!registry.remove("a"));
}

#[test]
fn unclassified_data_reaches_no_capability_and_local_data_only_local_ones() {
    let mut registry = CapabilityRegistry::new();
    registry.register(trust_stub("far", false)).unwrap();
    registry.register(trust_stub("near", true)).unwrap();
    let ctx = |tier: Option<PrivacyTier>| InvokeCtx {
        owner: "alice".to_string(),
        privacy_tier: tier,
        allowed_tools: None,
    };
    for name in ["far", "near"] {
        assert_eq!(
            invoke(&registry, None, name, &json("{}"), &ctx(None)),
            Err(BastionError::PrivacyEgressBlocked)
        );
    }
    let local = ctx(Some(PrivacyTier::LocalOnly));
    assert_eq!(
        invoke(&registry, None, "far", &json("{}"), &local),
        Err(BastionError::PrivacyEgressBlocked)
    );
    assert!(invoke(&registry, None, "near", &json("{}"), &local).is_ok());
}

#[test]
fn a_rejected_action_is_denied_and_then_answered_with_its_marker() {
    let mut registry = CapabilityRegistry::new();
    let mut queue = MemoryApprovalGate::new();
    let calls = Rc::new(Cell::new(0));
    registry.register(approval_stub("act", true, &calls)).unwrap();
    let args = json(r#"{"x": 1}"#);
    let ctx = ctx_for("alice");
    invoke(&registry, Some(&mut queue), "act", &args, &ctx).expect("queued");
    let id = queue.pending_for_owner("alice")[0].id;
    queue.reject("alice", id, 1).expect("rejected");
    let denied = invoke(&registry, Some(&mut queue), "act", &args, &ctx);
    assert!(
        matches!(&denied, Err(BastionError::ApprovalDenied { capability, .. }) if capability == "act"),
        "{denied:?}"
    );
    let marker = invoke(&registry, Some(&mut queue), "act", &args, &ctx).expect("marker");
    assert_eq!(marker.data["approval_denied"], Value::Bool(true));
    assert_eq!(calls.get(), 0);
}

#[test]
fn an_unknown_capability_is_an_error() {
    let registry: CapabilityRegistry<Stub> = CapabilityRegistry::new();
    let err = invoke(&registry, None, "ghost", &json("{}"), &ctx_for("alice"))
        .expect_err("nothing is registered");
    assert_eq!(err.message(), "unknown capability: ghost");
}

#[test]
fn an_error_is_told_as_a_field() {
    assert_eq!(error_value("no"), json(r#"{"error": "no"}"#));
}
