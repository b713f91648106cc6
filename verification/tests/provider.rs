use bastion_runtime::capability::authority::InvokeCtx;
use bastion_runtime::capability::registry::CapabilityRegistry;
use bastion_runtime::provider::{
    complete_structured_via_forced_tool_call, forced_config, CallConfig, Retry, RetryStep,
    StructuredAnswer, ToolChoice, STRUCTURED_OUTPUT_TOOL,
};
use bastion_runtime::types::{
    cache_usage_attributes, BastionError, LlmResponse, PrivacyTier, TokenUsage, ToolCall,
};
use serde_json::Value;

fn json(text: &str) -> Value {
    serde_json::from_str(text).expect("valid JSON")
}

fn config() -> CallConfig {
    CallConfig {
        system_prompt: "be brief".to_string(),
        max_tokens: 100,
        tools: vec![],
        response_format: Some(json("{}")),
        tool_choice: None,
        temperature_bits: Some(0.5f32.to_bits()),
    }
}

/// Answers with the tool that the request forces, or with none.
fn forced_tool_mock(arguments: Option<Value>, config: &CallConfig) -> Result<LlmResponse, BastionError> {
    let name = match &config.tool_choice {
        Some(ToolChoice::Forced(name)) => name.clone(),
        None => panic!("ForcedToolMock expects a Forced tool_choice"),
    };
    let tool_calls = arguments.map(|arguments| {
        vec![ToolCall {
            id: "1".to_string(),
            name,
            arguments,
            extra: None,
        }]
    });
    Ok(LlmResponse {
        text: String::new(),
        tool_calls,
        usage: TokenUsage::default(),
    })
}

fn test_ctx() -> InvokeCtx {
    // LocalOnly (the strictest tier) — the ephemeral capability's
    // `is_local() == true` must still let this pass through egress.
    InvokeCtx {
        owner: "test-owner".to_string(),
        privacy_tier: Some(PrivacyTier::LocalOnly),
        allowed_tools: None,
    }
}

#[test]
fn forced_tool_call_dispatches_through_registry_invoke() {
    let schema = json(r#"{"type": "object"}"#);
    let mut registry: CapabilityRegistry<()> = CapabilityRegistry::new();
    let ctx = test_ctx();
    let forced = forced_config(&config(), &schema);

    let result = complete_structured_via_forced_tool_call(
        "mock",
        &mut registry,
        (),
        &ctx,
        schema,
        forced_tool_mock(Some(json(r#"{"x": 1}"#)), &forced),
    )
    .unwrap();

    match result {
        StructuredAnswer::Text(text) => assert_eq!(text, r#"{"x":1}"#),
        other => panic!("expected Text, got {other:?}"),
    }
    // The ephemeral capability must be cleaned up.
    assert!(registry.is_empty());
}

#[test]
fn forced_tool_call_errors_cleanly_when_no_tool_calls_returned() {
    let schema = json(r#"{"type": "object"}"#);
    let mut registry: CapabilityRegistry<()> = CapabilityRegistry::new();
    let ctx = test_ctx();
    let forced = forced_config(&config(), &schema);

    let result = complete_structured_via_forced_tool_call(
        "mock",
        &mut registry,
        (),
        &ctx,
        schema,
        forced_tool_mock(None, &forced),
    );

    assert!(result.is_err());
    assert!(registry.is_empty());
}

#[test]
fn a_forced_request_offers_its_one_tool() {
    let schema = json(r#"{"type": "object"}"#);
    let forced = forced_config(&config(), &schema);
    assert_eq!(
        forced.tool_choice,
        Some(ToolChoice::Forced(STRUCTURED_OUTPUT_TOOL.to_string()))
    );
    assert_eq!(forced.tools.len(), 1);
    assert_eq!(forced.tools[0]["name"], Value::from("__structured_output"));
    assert_eq!(forced.tools[0]["input_schema"], schema);
    assert_eq!(forced.system_prompt, "be brief");
    assert_eq!(forced.temperature_bits, Some(0.5f32.to_bits()));
}

#[test]
fn a_failed_call_fails_the_answer() {
    let mut registry: CapabilityRegistry<()> = CapabilityRegistry::new();
    let result = complete_structured_via_forced_tool_call(
        "mock",
        &mut registry,
        (),
        &test_ctx(),
        json("{}"),
        Err(BastionError::Failed("offline".to_string())),
    );
    assert!(
        matches!(&result, Err(BastionError::Failed(m)) if m == "offline"),
        "{result:?}"
    );
}

#[test]
fn failures_are_retried_with_growing_waits() {
    let mut retry = Retry::new(3);
    assert_eq!(retry.after_failure("HTTP 429"), RetryStep::Wait { ms: 500 });
    assert_eq!(retry.after_failure("HTTP 503"), RetryStep::Wait { ms: 1000 });
    assert_eq!(retry.after_failure("offline"), RetryStep::Wait { ms: 2000 });
    assert_eq!(retry.after_failure("offline"), RetryStep::GiveUp);
    let mut retry = Retry::new(3);
    assert_eq!(
        retry.after_failure("request failed: HTTP 400 too long"),
        RetryStep::GiveUp
    );
    let mut retry = Retry::new(0);
    assert_eq!(retry.after_failure("offline"), RetryStep::GiveUp);
}

#[test]
fn emits_both_attributes_including_zero() {
    let usage = TokenUsage {
        input_tokens: 100,
        output_tokens: 20,
        cache_read: 0,
        cache_write: 0,
        actual_cost_usd: None,
        ..Default::default()
    };
    let attrs = cache_usage_attributes(&usage);
    assert_eq!(attrs.len(), 2);
    assert_eq!(attrs[0].key.as_str(), "gen_ai.usage.cache_read_tokens");
    assert_eq!(attrs[0].value.to_string(), "0");
    assert_eq!(attrs[1].key.as_str(), "gen_ai.usage.cache_write_tokens");
    assert_eq!(attrs[1].value.to_string(), "0");
}

#[test]
fn emits_nonzero_values() {
    let usage = TokenUsage {
        input_tokens: 100,
        output_tokens: 20,
        cache_read: 1200,
        cache_write: 340,
        actual_cost_usd: None,
        ..Default::default()
    };
    let attrs = cache_usage_attributes(&usage);
    assert_eq!(attrs[0].value.to_string(), "1200");
    assert_eq!(attrs[1].value.to_string(), "340");
}
