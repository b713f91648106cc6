use bastion_runtime::agent::converse::{
    answer_next, ask_again, dispatch_tool_loop, run_provider_fallback, ToolLoopEnd, TurnHost,
    TurnScope,
};
use bastion_runtime::agent::tool_loop::{LoopStep, ToolLoop, MAX_TOOL_ROUNDS};
use bastion_runtime::capability::approval::MemoryApprovalGate;
use bastion_runtime::capability::authority::InvokeCtx;
use bastion_runtime::capability::dispatch::Dispatcher;
use bastion_runtime::capability::registry::{CapabilityInfo, CapabilityRegistry, Registered};
use bastion_runtime::provider::{with_tools, CallConfig, ToolChoice};
use bastion_runtime::types::{
    BastionError, ContentPart, LlmResponse, Message, MessageContent, PrivacyTier, Role, TokenUsage,
    ToolCall,
};
use serde_json::Value;

fn json(text: &str) -> Value {
    serde_json::from_str(text).expect("valid JSON")
}

fn call(id: &str, name: &str) -> ToolCall {
    ToolCall {
        id: id.to_string(),
        name: name.to_string(),
        arguments: json(r#"{"to": "bob"}"#),
        extra: None,
    }
}

fn says(text: &str, calls: Vec<ToolCall>) -> LlmResponse {
    LlmResponse {
        text: text.to_string(),
        tool_calls: if calls.is_empty() { None } else { Some(calls) },
        usage: TokenUsage {
            input_tokens: 3,
            output_tokens: 7,
            cache_read: 0,
            cache_write: 0,
            actual_cost_usd: None,
        },
    }
}

fn config() -> CallConfig {
    CallConfig {
        system_prompt: "be brief".to_string(),
        max_tokens: 512,
        tools: vec![json(r#"{"name": "mail"}"#)],
        response_format: None,
        tool_choice: Some(ToolChoice::Forced("mail".to_string())),
        temperature_bits: Some(7),
    }
}

/// A model that says what it is told to, and everything around it.
struct Host {
    provider: String,
    budget: bool,
    full: bool,
    script: Vec<LlmResponse>,
    stored: Vec<(Role, Option<u32>)>,
    seen: Vec<Value>,
    tools_called: Vec<String>,
    shown: Vec<(usize, bool)>,
}

fn host(script: Vec<LlmResponse>) -> Host {
    Host {
        provider: "openai".to_string(),
        budget: true,
        full: false,
        script,
        stored: Vec::new(),
        seen: Vec::new(),
        tools_called: Vec::new(),
        shown: Vec::new(),
    }
}

impl TurnHost for Host {
    fn provider_name(&self) -> String {
        self.provider.clone()
    }

    fn within_budget(&self) -> Result<bool, BastionError> {
        Ok(self.budget)
    }

    fn append(&mut self, message: &Message, output_tokens: Option<u32>) -> Result<(), BastionError> {
        if self.full {
            return Err(BastionError::Failed("disk full".to_string()));
        }
        self.stored.push((message.role, output_tokens));
        Ok(())
    }

    fn call_tool(
        &mut self,
        name: &str,
        _args: &Value,
        owner: &str,
        _tier: Option<PrivacyTier>,
        allowed_tools: &Option<Vec<String>>,
    ) -> Result<Value, BastionError> {
        assert_eq!(owner, "ana");
        if let Some(allowed) = allowed_tools {
            assert!(allowed.iter().any(|tool| tool == name));
        }
        self.tools_called.push(name.to_string());
        Ok(json(r#"{"tool": true}"#))
    }

    fn observe(&mut self, result: &Value) {
        self.seen.push(result.clone());
    }

    fn complete(
        &mut self,
        provider: &str,
        _tier: Option<PrivacyTier>,
        _history: &Vec<Message>,
        config: &CallConfig,
        quarantine: bool,
    ) -> Result<LlmResponse, BastionError> {
        assert_eq!(provider, self.provider);
        self.shown.push((config.tools.len(), quarantine));
        if self.script.is_empty() {
            Err(BastionError::Failed("the model is gone".to_string()))
        } else {
            Ok(self.script.remove(0))
        }
    }

    fn now_nanos(&self) -> i64 {
        1_000
    }
}

/// Runs capabilities, and keeps their names.
struct Runner {
    ran: Vec<String>,
}

impl Dispatcher for Runner {
    fn dispatch(&mut self, name: &str, _args: &Value, _ctx: &InvokeCtx) -> Result<Value, BastionError> {
        self.ran.push(name.to_string());
        Ok(json(r#"{"ok": 1}"#))
    }
}

fn capability(name: &str, local: bool, needs_approval: bool) -> Registered<()> {
    let mut info = if local {
        CapabilityInfo::local(name.to_string(), "test".to_string(), json("{}"))
    } else {
        CapabilityInfo::external(name.to_string(), "test".to_string(), json("{}"))
    };
    info.needs_approval = needs_approval;
    Registered { info, adapter: () }
}

fn scope(tier: Option<PrivacyTier>) -> TurnScope {
    TurnScope::new("ana".to_string(), tier, None)
}

fn user(text: &str) -> Message {
    Message {
        role: Role::User,
        content: MessageContent::Text(text.to_string()),
    }
}

struct Desk {
    registry: CapabilityRegistry<()>,
    gate: MemoryApprovalGate,
    runner: Runner,
}

fn desk(caps: Vec<Registered<()>>) -> Desk {
    let mut registry = CapabilityRegistry::new();
    for cap in caps {
        registry.register(cap).expect("a fresh name");
    }
    Desk {
        registry,
        gate: MemoryApprovalGate::new(),
        runner: Runner { ran: Vec::new() },
    }
}

fn drive(
    desk: &mut Desk,
    host: &mut Host,
    initial: LlmResponse,
    tier: Option<PrivacyTier>,
) -> Result<ToolLoopEnd, BastionError> {
    dispatch_tool_loop(
        &mut desk.registry,
        &mut desk.gate,
        &mut desk.runner,
        host,
        vec![user("hi")],
        &config(),
        initial,
        &scope(tier),
    )
}

fn roles(history: &[Message]) -> Vec<Role> {
    history.iter().map(|message| message.role).collect()
}

fn result_text(message: &Message) -> &str {
    match &message.content {
        MessageContent::Parts(parts) => match &parts[0] {
            ContentPart::ToolResult { content, .. } => content,
            other => panic!("not a result: {other:?}"),
        },
        other => panic!("not a result: {other:?}"),
    }
}

#[test]
fn a_plain_answer_runs_nothing() {
    let mut desk = desk(vec![capability("mail", false, false)]);
    let mut host = host(Vec::new());
    let end = drive(&mut desk, &mut host, says("hello", Vec::new()), Some(PrivacyTier::CloudOk))
        .expect("an answer");
    assert_eq!(end.text, "hello");
    assert_eq!(roles(&end.history), vec![Role::User, Role::Assistant]);
    assert_eq!(host.stored, vec![(Role::Assistant, Some(7))]);
    assert!(desk.runner.ran.is_empty());
    assert!(host.shown.is_empty());
}

#[test]
fn requests_are_run_stored_and_shown() {
    let mut desk = desk(vec![capability("note", true, false)]);
    let mut host = host(vec![says("done", Vec::new())]);
    let end = drive(
        &mut desk,
        &mut host,
        says("let me", vec![call("1", "note"), call("2", "nothing")]),
        Some(PrivacyTier::LocalOnly),
    );
    // The provider is outside, and host-only data does not go there.
    assert_eq!(end.err(), Some(BastionError::PrivacyEgressBlocked));
    assert_eq!(desk.runner.ran, vec!["note".to_string()]);
    assert_eq!(
        host.seen,
        vec![json(r#"{"ok": 1}"#), json(r#"{"error": "unknown capability: nothing"}"#)]
    );
    assert!(host.shown.is_empty());

    host.provider = "ollama".to_string();
    host.budget = false;
    let end = drive(
        &mut desk,
        &mut host,
        says("let me", vec![call("1", "note")]),
        Some(PrivacyTier::LocalOnly),
    )
    .expect("a model on the host needs no budget");
    assert_eq!(end.text, "done");
    assert_eq!(
        roles(&end.history),
        vec![Role::User, Role::Assistant, Role::Tool, Role::Assistant]
    );
    assert_eq!(result_text(&end.history[2]), r#"{"ok":1}"#);
    assert_eq!(host.shown, vec![(1, false)]);
}

#[test]
fn an_untrusted_result_puts_the_model_in_quarantine() {
    let mut desk = desk(vec![capability("mail", false, false)]);
    let mut host = host(vec![says("done", Vec::new())]);
    let end = drive(
        &mut desk,
        &mut host,
        says("let me", vec![call("1", "mail")]),
        Some(PrivacyTier::CloudOk),
    )
    .expect("an answer");
    assert_eq!(end.text, "done");
    assert_eq!(host.shown, vec![(0, true)]);
    assert_eq!(desk.registry.list_names(), vec!["mail"]);
    assert!(result_text(&end.history[2]).contains("\"trusted\":false"));
}

#[test]
fn a_quarantine_ends_though_the_model_fails() {
    let mut desk = desk(vec![capability("mail", false, false)]);
    let mut host = host(Vec::new());
    let failed = ask_again(
        &mut desk.registry,
        &mut host,
        "openai",
        Some(PrivacyTier::CloudOk),
        &Vec::new(),
        &config(),
        true,
    );
    assert_eq!(failed, Err(BastionError::Failed("the model is gone".to_string())));
    assert_eq!(host.shown, vec![(0, true)]);
    assert_eq!(desk.registry.list_names(), vec!["mail"]);
}

#[test]
fn a_rejected_request_ends_the_turn() {
    let mut desk = desk(vec![
        capability("mail", false, true),
        capability("note", true, false),
    ]);
    let mut host = host(vec![says("waiting", Vec::new())]);
    let first = drive(
        &mut desk,
        &mut host,
        says("let me", vec![call("1", "mail")]),
        Some(PrivacyTier::CloudOk),
    )
    .expect("it waits for the owner");
    assert_eq!(first.text, "waiting");
    assert!(desk.runner.ran.is_empty());

    desk.gate.reject("ana", 1, 2_000).expect("the owner's row");
    let end = drive(
        &mut desk,
        &mut host,
        says("again", vec![call("1", "mail"), call("2", "note")]),
        Some(PrivacyTier::CloudOk),
    )
    .expect("a denial is an answer");
    assert_eq!(
        end.text,
        "again\n\n[Ação negada: 'mail' não foi executada — turno encerrado.]"
    );
    assert!(desk.runner.ran.is_empty(), "nothing runs behind a denial");
    assert!(result_text(&end.history[3]).contains("turn ended: approval for 'mail' was denied"));
}

#[test]
fn behind_a_denial_nothing_is_run_and_no_model_is_asked() {
    let mut desk = desk(vec![
        capability("a", true, true),
        capability("b", true, false),
    ]);
    desk.gate
        .enqueue_or_reuse("ana", "a", &call("1", "a").arguments, 0)
        .expect("a row");
    desk.gate.reject("ana", 1, 1).expect("the owner's row");
    let mut host = host(Vec::new());
    let end = drive(
        &mut desk,
        &mut host,
        says("ok", vec![call("1", "a"), call("2", "b")]),
        Some(PrivacyTier::CloudOk),
    )
    .expect("a denial is an answer");
    assert_eq!(
        end.text,
        "ok\n\n[Ação negada: 'a' não foi executada — turno encerrado.]"
    );
    assert!(desk.runner.ran.is_empty());
    assert!(host.shown.is_empty());
    let said = &end.history[end.history.len() - 3..];
    assert_eq!(roles(said), vec![Role::Assistant, Role::Tool, Role::Tool]);
    assert!(json(result_text(&said[1])).get("error").is_some());
    assert_eq!(json(result_text(&said[2]))["skipped"], json("true"));
}

#[test]
fn the_last_round_may_end_by_a_denial_but_no_further_one_begins() {
    let mut desk = desk(vec![
        capability("a", true, true),
        capability("b", true, false),
    ]);
    desk.gate
        .enqueue_or_reuse("ana", "a", &call("1", "a").arguments, 0)
        .expect("a row");
    desk.gate.reject("ana", 1, 1).expect("the owner's row");
    let rounds = MAX_TOOL_ROUNDS as usize;
    let mut script = Vec::new();
    for _ in 0..rounds - 2 {
        script.push(says("more", vec![call("1", "b")]));
    }
    script.push(says("last", vec![call("1", "a")]));
    let mut host = host(script);
    let end = drive(
        &mut desk,
        &mut host,
        says("more", vec![call("1", "b")]),
        Some(PrivacyTier::CloudOk),
    )
    .expect("a denial is an answer");
    assert!(end.text.starts_with("last"));
    assert_eq!(desk.runner.ran.len(), rounds - 1);
}

#[test]
fn the_rounds_are_used_up() {
    let mut desk = desk(vec![capability("note", true, false)]);
    let mut script = Vec::new();
    for _ in 0..20 {
        script.push(says("more", vec![call("1", "note")]));
    }
    let mut host = host(script);
    host.provider = "ollama".to_string();
    let end = drive(
        &mut desk,
        &mut host,
        says("more", vec![call("1", "note")]),
        Some(PrivacyTier::CloudOk),
    );
    assert_eq!(end.err(), Some(BastionError::ToolLoopCap));
    assert_eq!(desk.runner.ran.len(), MAX_TOOL_ROUNDS as usize);
    assert_eq!(host.shown.len(), MAX_TOOL_ROUNDS as usize);
}

#[test]
fn a_spent_budget_asks_no_model() {
    let mut desk = desk(vec![capability("note", true, false)]);
    let mut host = host(vec![says("done", Vec::new())]);
    host.budget = false;
    let end = drive(
        &mut desk,
        &mut host,
        says("let me", vec![call("1", "note")]),
        Some(PrivacyTier::CloudOk),
    );
    assert_eq!(end.err(), Some(BastionError::BudgetExceeded));
    assert!(host.shown.is_empty());
}

#[test]
fn without_capabilities_the_tool_source_is_asked() {
    let mut desk = desk(Vec::new());
    let mut host = host(vec![says("done", Vec::new())]);
    let end = drive(
        &mut desk,
        &mut host,
        says("let me", vec![call("1", "search")]),
        Some(PrivacyTier::CloudOk),
    )
    .expect("an answer");
    assert_eq!(end.text, "done");
    assert_eq!(host.tools_called, vec!["search".to_string()]);
    assert!(desk.runner.ran.is_empty());
    assert_eq!(host.shown, vec![(0, true)]);
}

#[test]
fn a_tool_outside_the_set_of_the_persona_is_not_called() {
    let mut desk = desk(Vec::new());
    let mut host = host(Vec::new());
    let round = match ToolLoop::new(Vec::new()).take_response(says("x", vec![call("1", "search")])) {
        LoopStep::Dispatch(round) => round,
        _ => panic!("a request is dispatched"),
    };
    let scope = TurnScope::new(
        "ana".to_string(),
        Some(PrivacyTier::CloudOk),
        Some(vec!["mail".to_string()]),
    );
    let next = answer_next(
        &desk.registry,
        &mut desk.gate,
        &mut desk.runner,
        &mut host,
        round,
        &scope,
    )
    .expect("a refusal is an answer");
    assert!(next.next_call().is_none());
    assert!(host.tools_called.is_empty());
    assert_eq!(
        host.seen,
        vec![json(r#"{"error": "Capability 'search' is not in the allowed tool set"}"#)]
    );
}

#[test]
fn a_message_that_cannot_be_stored_ends_the_turn() {
    let mut desk = desk(vec![capability("note", true, false)]);
    let mut host = host(Vec::new());
    host.full = true;
    let end = drive(
        &mut desk,
        &mut host,
        says("let me", vec![call("1", "note")]),
        Some(PrivacyTier::CloudOk),
    );
    assert_eq!(end.err(), Some(BastionError::Failed("disk full".to_string())));
    assert!(desk.runner.ran.is_empty());
}

#[test]
fn the_provider_itself_answers_with_its_tools() {
    let mut host = host(vec![
        says("let me", vec![call("1", "search"), call("2", "read")]),
        says("found", Vec::new()),
    ]);
    let end = run_provider_fallback(
        &mut host,
        vec![user("hi")],
        "prompt".to_string(),
        vec![json(r#"{"name": "search"}"#)],
        "ana",
        Some(PrivacyTier::CloudOk),
    )
    .expect("an answer");
    assert_eq!(end.text, "found");
    assert_eq!(
        roles(&end.history),
        vec![Role::User, Role::Assistant, Role::Tool, Role::Tool, Role::Assistant]
    );
    assert_eq!(host.tools_called, vec!["search".to_string(), "read".to_string()]);
    assert_eq!(host.shown, vec![(1, false), (1, false)]);
}

#[test]
fn data_without_a_tier_reaches_no_provider() {
    let mut host = host(vec![says("leak", Vec::new())]);
    let end = run_provider_fallback(
        &mut host,
        vec![user("hi")],
        "prompt".to_string(),
        Vec::new(),
        "ana",
        None,
    );
    assert_eq!(end.err(), Some(BastionError::PrivacyEgressBlocked));
    assert!(host.shown.is_empty());
    assert!(host.stored.is_empty());
}

#[test]
fn host_only_data_reaches_no_provider_in_the_cloud() {
    let mut host = host(vec![says("leak", Vec::new())]);
    let ask = |host: &mut Host| {
        run_provider_fallback(
            host,
            vec![user("hi")],
            "prompt".to_string(),
            Vec::new(),
            "ana",
            Some(PrivacyTier::LocalOnly),
        )
    };
    assert_eq!(ask(&mut host).err(), Some(BastionError::PrivacyEgressBlocked));
    assert!(host.shown.is_empty());
    host.provider = "ollama".to_string();
    assert_eq!(ask(&mut host).expect("it stays here").text, "leak");
}

#[test]
fn the_provider_itself_has_a_last_round() {
    let mut script = Vec::new();
    for _ in 0..20 {
        script.push(says("more", vec![call("1", "search")]));
    }
    let mut host = host(script);
    let end = run_provider_fallback(
        &mut host,
        Vec::new(),
        String::new(),
        Vec::new(),
        "ana",
        Some(PrivacyTier::CloudOk),
    );
    assert_eq!(end.err(), Some(BastionError::ToolLoopCap));
    assert_eq!(host.shown.len(), MAX_TOOL_ROUNDS as usize);
}

#[test]
fn other_tools_leave_the_rest_of_a_request_alone() {
    let base = config();
    let other = with_tools(&base, Vec::new());
    assert!(other.tools.is_empty());
    assert_eq!(with_tools(&other, base.tools.clone()), base);
}

#[test]
fn every_message_of_a_turn_is_stored_once() {
    let mut desk = desk(vec![capability("note", true, false)]);
    let mut host = host(vec![says("more", vec![call("3", "note")]), says("done", Vec::new())]);
    let end = drive(
        &mut desk,
        &mut host,
        says("let me", vec![call("1", "note"), call("2", "note")]),
        Some(PrivacyTier::CloudOk),
    )
    .expect("an answer");
    let stored: Vec<Role> = host.stored.iter().map(|(role, _)| *role).collect();
    assert_eq!(stored, roles(&end.history[1..]));
    assert_eq!(host.seen.len(), 3);
    assert_eq!(desk.runner.ran.len(), 3);
    assert_eq!(host.shown.len(), 2);
}
