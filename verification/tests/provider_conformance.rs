use bastion_runtime::provider::ToolChoice;
use bastion_runtime::provider_conformance::{
    echo_prompt, run_conformance, structured_probe, tool_probe, CancelledCall, CheckOutcome,
    ConformanceReport,
    ModelCapability, Observations, ProviderModelDescriptor, StreamChunk, ECHO_CANARY,
};
use bastion_runtime::types::{LlmResponse, TokenUsage, ToolCall};
use serde_json::Value;

/// A provider whose behavior is dialed in per test — the point being that the suite needs no
/// credentials to be meaningful.
struct FakeProvider {
    echo: bool,
    model: &'static str,
    context: usize,
    json_schema: bool,
    tool_call: Option<&'static str>,
    json_text: Option<&'static str>,
    usage: TokenUsage,
    fail: bool,
    /// `Some(chunks)` makes `stream()` yield exactly these chunks; `None` is a typed "not
    /// streamable" error — the honest behavior for a provider that never overrode it.
    stream_chunks: Option<Vec<&'static str>>,
    /// Whether a call that is cancelled in flight is aborted.
    respects_cancel: bool,
}

impl Default for FakeProvider {
    fn default() -> Self {
        Self {
            echo: true,
            model: "fake-1",
            context: 8_192,
            json_schema: true,
            tool_call: Some("conformance_probe"),
            json_text: Some(r#"{"answer":"hi"}"#),
            usage: TokenUsage {
                input_tokens: 10,
                output_tokens: 4,
                cache_read: 0,
                cache_write: 0,
                actual_cost_usd: None,
            },
            fail: false,
            stream_chunks: None,
            respects_cancel: false,
        }
    }
}

impl FakeProvider {
    fn complete(
        &self,
        response_format: Option<&Value>,
        tool_choice: Option<&ToolChoice>,
    ) -> Result<LlmResponse, String> {
        if self.fail {
            return Err("provider unavailable".to_string());
        }
        Ok(LlmResponse {
            text: if response_format.is_some() {
                self.json_text.unwrap_or("not json").to_string()
            } else {
                "ok".to_string()
            },
            tool_calls: if tool_choice.is_some() {
                self.tool_call.map(|name| {
                    vec![ToolCall {
                        id: "call-1".to_string(),
                        name: name.to_string(),
                        arguments: serde_json::from_str(r#"{"ok": true}"#).unwrap(),
                        extra: None,
                    }]
                })
            } else {
                None
            },
            usage: self.usage,
        })
    }

    fn complete_simple(&self, prompt: &str) -> Result<String, String> {
        if self.fail {
            return Err("provider unavailable".to_string());
        }
        Ok(if self.echo {
            prompt.to_string()
        } else {
            "I would rather not".to_string()
        })
    }

    fn stream(&self) -> Result<Vec<Result<StreamChunk, String>>, String> {
        match &self.stream_chunks {
            Some(chunks) => Ok(chunks
                .iter()
                .map(|c| Ok(StreamChunk::TextDelta(c.to_string())))
                .collect()),
            None => Err("provider does not stream".to_string()),
        }
    }

    fn complete_cancellable(&self) -> Result<LlmResponse, String> {
        if self.respects_cancel {
            Err("cancelled".to_string())
        } else {
            self.complete(None, None)
        }
    }

    fn observations(&self) -> Observations {
        let (_, choice) = tool_probe();
        Observations {
            provider_name: "fake".to_string(),
            model_name: self.model.to_string(),
            context_limit: self.context,
            json_schema: self.json_schema,
            echo: self.complete_simple(&echo_prompt()),
            tools: Some(self.complete(None, Some(&choice))),
            structured_output: Some(self.complete(Some(&structured_probe()), None)),
            usage: Some(self.complete(None, None)),
            streaming: Some(self.stream()),
            cancellation: Some(CancelledCall {
                in_flight: !self.fail,
                answer: self.complete_cancellable(),
            }),
        }
    }
}

fn descriptor(capabilities: &[ModelCapability]) -> ProviderModelDescriptor {
    ProviderModelDescriptor::new("fake-1").with_capabilities(capabilities.to_vec())
}

fn run(provider: &FakeProvider, descriptor: &ProviderModelDescriptor) -> ConformanceReport {
    run_conformance(descriptor, &provider.observations())
}

fn outcome<'a>(report: &'a ConformanceReport, name: &str) -> &'a CheckOutcome {
    &report
        .checks
        .iter()
        .find(|c| c.name == name)
        .unwrap_or_else(|| panic!("no check named {name}"))
        .outcome
}

#[test]
fn an_honest_connector_passes_every_declared_check() {
    let provider = FakeProvider::default();
    let descriptor = descriptor(&[
        ModelCapability::Tools,
        ModelCapability::StructuredOutput,
        ModelCapability::Usage,
    ]);
    let report = run(&provider, &descriptor);
    assert!(report.failures().is_empty(), "{:?}", report.failures());
    assert!(report.unverifiable().is_empty());
    assert!(report.promotion_ready());
}

#[test]
fn declaring_nothing_exercises_nothing_but_still_checks_the_baseline() {
    let report = run(&FakeProvider::default(), &descriptor(&[]));
    assert!(report.promotion_ready());
    assert_eq!(
        outcome(&report, "tool_call_is_returned_when_forced"),
        &CheckOutcome::NotDeclared
    );
    assert_eq!(
        outcome(&report, "usage_is_reported"),
        &CheckOutcome::NotDeclared
    );
    assert_eq!(
        outcome(&report, "text_completion_echoes_prompt"),
        &CheckOutcome::Passed
    );
}

#[test]
fn declaring_tools_without_returning_one_fails() {
    let provider = FakeProvider {
        tool_call: None,
        ..Default::default()
    };
    let report = run(&provider, &descriptor(&[ModelCapability::Tools]));
    assert!(!report.promotion_ready());
    match outcome(&report, "tool_call_is_returned_when_forced") {
        CheckOutcome::Failed { detail } => assert!(detail.contains("no tool call"), "{detail}"),
        other => panic!("expected a failure, got {other:?}"),
    }
}

#[test]
fn returning_the_wrong_tool_fails() {
    let provider = FakeProvider {
        tool_call: Some("something_else"),
        ..Default::default()
    };
    let report = run(&provider, &descriptor(&[ModelCapability::Tools]));
    match outcome(&report, "tool_call_is_returned_when_forced") {
        CheckOutcome::Failed { detail } => assert!(detail.contains("not the forced one")),
        other => panic!("expected a failure, got {other:?}"),
    }
}

#[test]
fn a_catalog_claim_contradicting_the_provider_fails() {
    let provider = FakeProvider {
        json_schema: false,
        ..Default::default()
    };
    let report = run(&provider, &descriptor(&[ModelCapability::StructuredOutput]));
    match outcome(&report, "structured_output_returns_parseable_json") {
        CheckOutcome::Failed { detail } => {
            assert!(
                detail.contains("supports_json_schema() == false"),
                "{detail}"
            )
        }
        other => panic!("expected a failure, got {other:?}"),
    }
}

#[test]
fn unparseable_structured_output_fails() {
    let provider = FakeProvider {
        json_text: Some("here you go: {answer"),
        ..Default::default()
    };
    let report = run(&provider, &descriptor(&[ModelCapability::StructuredOutput]));
    match outcome(&report, "structured_output_returns_parseable_json") {
        CheckOutcome::Failed { detail } => assert!(detail.contains("not parseable JSON")),
        other => panic!("expected a failure, got {other:?}"),
    }
}

#[test]
fn zeroed_usage_fails_when_usage_is_declared() {
    let provider = FakeProvider {
        usage: TokenUsage {
            input_tokens: 0,
            output_tokens: 0,
            cache_read: 0,
            cache_write: 0,
            actual_cost_usd: None,
        },
        ..Default::default()
    };
    let report = run(&provider, &descriptor(&[ModelCapability::Usage]));
    match outcome(&report, "usage_is_reported") {
        CheckOutcome::Failed { detail } => assert!(detail.contains("zero input and")),
        other => panic!("expected a failure, got {other:?}"),
    }
}

#[test]
fn a_provider_that_ignores_the_prompt_fails_the_baseline() {
    let provider = FakeProvider {
        echo: false,
        ..Default::default()
    };
    let report = run(&provider, &descriptor(&[]));
    match outcome(&report, "text_completion_echoes_prompt") {
        CheckOutcome::Failed { detail } => assert!(detail.contains("canary")),
        other => panic!("expected a failure, got {other:?}"),
    }
}

#[test]
fn a_model_name_disagreement_fails_and_names_both_sides() {
    let provider = FakeProvider {
        model: "actually-fake-2",
        ..Default::default()
    };
    let report = run(&provider, &descriptor(&[]));
    match outcome(&report, "model_name_matches_catalog") {
        CheckOutcome::Failed { detail } => {
            assert!(
                detail.contains("fake-1") && detail.contains("actually-fake-2"),
                "{detail}"
            )
        }
        other => panic!("expected a failure, got {other:?}"),
    }
}

#[test]
fn a_zero_context_limit_fails() {
    let provider = FakeProvider {
        context: 0,
        ..Default::default()
    };
    let report = run(&provider, &descriptor(&[]));
    assert!(matches!(
        outcome(&report, "context_limit_is_positive"),
        CheckOutcome::Failed { .. }
    ));
}

#[test]
fn a_failing_provider_produces_failures_not_a_panic() {
    let provider = FakeProvider {
        fail: true,
        ..Default::default()
    };
    let report = run(
        &provider,
        &descriptor(&[ModelCapability::Tools, ModelCapability::Usage]),
    );
    assert!(report.failures().len() >= 3, "{:?}", report.failures());
    assert!(!report.promotion_ready());
}

#[test]
fn declaring_streaming_or_cancellation_without_implementing_them_fails() {
    let report = run(
        &FakeProvider::default(),
        &descriptor(&[ModelCapability::Streaming, ModelCapability::Cancellation]),
    );
    assert!(
        report.unverifiable().is_empty(),
        "nothing should be unverifiable anymore"
    );
    assert_eq!(report.failures().len(), 2, "{:?}", report.failures());
    assert!(!report.promotion_ready());
    match outcome(&report, "streaming_delivers_incremental_chunks") {
        CheckOutcome::Failed { detail } => {
            assert!(detail.contains("returned an error"), "{detail}")
        }
        other => panic!("expected a failure, got {other:?}"),
    }
    match outcome(&report, "cancellation_aborts_an_in_flight_call") {
        CheckOutcome::Failed { detail } => {
            assert!(detail.contains("completed successfully"), "{detail}")
        }
        other => panic!("expected a failure, got {other:?}"),
    }
}

#[test]
fn a_provider_that_streams_multiple_chunks_passes() {
    let provider = FakeProvider::default();
    let mut observed = provider.observations();
    let chunks = vec![
        StreamChunk::TextDelta("hel".to_string()),
        StreamChunk::TextDelta("lo".to_string()),
        StreamChunk::Usage(TokenUsage {
            input_tokens: 3,
            output_tokens: 2,
            cache_read: 0,
            cache_write: 0,
            actual_cost_usd: None,
        }),
    ];
    let mut assembled = String::new();
    for chunk in &chunks {
        if let StreamChunk::TextDelta(delta) = chunk {
            assembled.push_str(delta);
        }
    }
    assert_eq!(assembled, "hello");
    assert_eq!(chunks.len(), 3);
    observed.streaming = Some(Ok(chunks.into_iter().map(Ok).collect()));

    let report = run_conformance(&descriptor(&[ModelCapability::Streaming]), &observed);
    assert!(report.promotion_ready(), "{:?}", report.failures());
    assert_eq!(
        outcome(&report, "streaming_delivers_incremental_chunks"),
        &CheckOutcome::Passed
    );
}

#[test]
fn a_provider_that_streams_only_one_chunk_fails() {
    let provider = FakeProvider {
        stream_chunks: Some(vec!["only one"]),
        ..Default::default()
    };
    let report = run(&provider, &descriptor(&[ModelCapability::Streaming]));
    assert!(!report.promotion_ready());
    match outcome(&report, "streaming_delivers_incremental_chunks") {
        CheckOutcome::Failed { detail } => assert!(detail.contains("1 chunk"), "{detail}"),
        other => panic!("expected a failure, got {other:?}"),
    }
}

fn cancellable_descriptor(capabilities: &[ModelCapability]) -> ProviderModelDescriptor {
    ProviderModelDescriptor::new("cancellable-fake").with_capabilities(capabilities.to_vec())
}

#[test]
fn a_provider_that_really_aborts_on_cancel_passes() {
    let provider = FakeProvider {
        model: "cancellable-fake",
        respects_cancel: true,
        ..Default::default()
    };
    let report = run(
        &provider,
        &cancellable_descriptor(&[ModelCapability::Cancellation]),
    );
    assert!(report.promotion_ready(), "{:?}", report.failures());
    assert_eq!(
        outcome(&report, "cancellation_aborts_an_in_flight_call"),
        &CheckOutcome::Passed
    );
}

#[test]
fn a_provider_that_ignores_cancel_mid_flight_fails() {
    let provider = FakeProvider {
        model: "cancellable-fake",
        respects_cancel: false,
        ..Default::default()
    };
    let report = run(
        &provider,
        &cancellable_descriptor(&[ModelCapability::Cancellation]),
    );
    assert!(!report.promotion_ready());
    match outcome(&report, "cancellation_aborts_an_in_flight_call") {
        CheckOutcome::Failed { detail } => {
            assert!(detail.contains("completed successfully"), "{detail}")
        }
        other => panic!("expected a failure, got {other:?}"),
    }
}

#[test]
fn a_call_that_fails_before_it_is_cancelled_shows_no_cancellation() {
    let mut observed = FakeProvider::default().observations();
    observed.cancellation = Some(CancelledCall {
        in_flight: false,
        answer: Err("401 unauthorized".to_string()),
    });
    let report = run_conformance(&descriptor(&[ModelCapability::Cancellation]), &observed);
    assert!(!report.promotion_ready());
    assert_eq!(
        outcome(&report, "cancellation_aborts_an_in_flight_call"),
        &CheckOutcome::Failed {
            detail: "the call failed before it was cancelled: 401 unauthorized".to_string()
        }
    );
}

#[test]
fn what_is_declared_and_not_observed_is_unverifiable() {
    let mut observed = FakeProvider::default().observations();
    observed.streaming = None;
    observed.tools = None;
    let report = run_conformance(
        &descriptor(&[ModelCapability::Streaming, ModelCapability::Tools]),
        &observed,
    );
    assert_eq!(report.unverifiable().len(), 2);
    assert!(report.failures().is_empty());
    assert!(!report.promotion_ready());
}

#[test]
fn the_report_names_its_subject_and_has_one_check_each() {
    let report = run(&FakeProvider::default(), &descriptor(&[]));
    assert_eq!(report.provider_name, "fake");
    assert_eq!(report.model_id, "fake-1");
    assert_eq!(report.checks.len(), 8);
    assert!(echo_prompt().contains(ECHO_CANARY));
}

#[test]
fn the_probes_ask_for_what_they_check() {
    let (tool, choice) = tool_probe();
    assert_eq!(choice, ToolChoice::Forced("conformance_probe".to_string()));
    assert_eq!(tool["name"], Value::from("conformance_probe"));
    assert_eq!(
        tool["input_schema"]["properties"]["ok"]["type"],
        Value::from("boolean")
    );
    assert_eq!(
        structured_probe()["properties"]["answer"]["type"],
        Value::from("string")
    );
}

#[test]
fn a_descriptor_supports_what_it_lists() {
    let d = descriptor(&[ModelCapability::Usage]);
    assert!(d.supports(ModelCapability::Usage));
    assert!(!d.supports(ModelCapability::Tools));
}
