//! Whether a provider does what its catalog entry declares.
//!
//! Every declared capability has one check, and three checks hold for every provider. Each check
//! is judged by what was observed: a declared capability that was not observed is no pass, and
//! keeps a provider from being promoted just as a failure does.
use vstd::prelude::*;
use crate::json;
use crate::json::{Fields, JsonTree};
use crate::provider::ToolChoice;
use crate::text;
use crate::text::{decimal, occurs};
use crate::types::{LlmResponse, TokenUsage, ToolCall};
use crate::unicode;
use crate::unicode::stripped;

verus! {

/// What a model may be declared to do.
#[derive(Clone, Copy, Debug, PartialEq, Eq, Structural)]
pub enum ModelCapability {
    Tools,
    StructuredOutput,
    Usage,
    Streaming,
    Cancellation,
}

/// A catalog entry: a model and what it is declared to do.
#[derive(Debug, PartialEq)]
pub struct ProviderModelDescriptor {
    pub model_id: String,
    pub capabilities: Vec<ModelCapability>,
}

/// The catalog declares the capability.
pub open spec fn declares(descriptor: ProviderModelDescriptor, capability: ModelCapability) -> bool {
    descriptor.capabilities@.contains(capability)
}

impl ProviderModelDescriptor {
    /// A model that is declared to do nothing.
    pub fn new(model_id: &str) -> (r: Self)
        ensures
            r.model_id@ == model_id@,
            r.capabilities@ == Seq::<ModelCapability>::empty(),
    {
        ProviderModelDescriptor { model_id: model_id.to_owned(), capabilities: Vec::new() }
    }

    /// The same model, declared to do this.
    pub fn with_capabilities(self, capabilities: Vec<ModelCapability>) -> (r: Self)
        ensures
            r == (ProviderModelDescriptor { model_id: self.model_id, capabilities }),
    {
        ProviderModelDescriptor { model_id: self.model_id, capabilities }
    }

    /// Whether the capability is declared.
    pub fn supports(&self, capability: ModelCapability) -> (r: bool)
        ensures
            r == declares(*self, capability),
    {
        let mut i: usize = 0;
        while i < self.capabilities.len()
            invariant
                i <= self.capabilities@.len(),
                forall|j: int| 0 <= j < i ==> self.capabilities@[j] != capability,
            decreases self.capabilities@.len() - i,
        {
            if self.capabilities[i] == capability {
                return true;
            }
            i = i + 1;
        }
        false
    }
}

/// A piece of a streamed answer.
#[derive(Debug, PartialEq)]
pub enum StreamChunk {
    TextDelta(String),
    Usage(TokenUsage),
}

/// What is said of a declared capability of which nothing was observed.
pub const NOT_OBSERVED: &'static str = "declared, but nothing was observed";

/// How a check ended.
#[derive(Debug, PartialEq)]
pub enum CheckOutcome {
    Passed,
    /// Declared, and it did not happen.
    Failed { detail: String },
    /// Declared, and nothing was observed of it.
    Unverifiable { reason: &'static str },
    /// Not declared, so not tried.
    NotDeclared,
}

/// How a check ended, as a value.
pub enum Verdict {
    Passed,
    Failed(Seq<char>),
    Unverifiable(Seq<char>),
    NotDeclared,
}

/// One check and how it ended.
#[derive(Debug, PartialEq)]
pub struct ConformanceCheck {
    /// The capability, or none where the check holds for every provider.
    pub capability: Option<ModelCapability>,
    pub name: &'static str,
    pub outcome: CheckOutcome,
}

/// How a check ended, as a value.
pub open spec fn verdict_of(check: ConformanceCheck) -> Verdict {
    match check.outcome {
        CheckOutcome::Passed => Verdict::Passed,
        CheckOutcome::Failed { detail } => Verdict::Failed(detail@),
        CheckOutcome::Unverifiable { reason } => Verdict::Unverifiable(reason@),
        CheckOutcome::NotDeclared => Verdict::NotDeclared,
    }
}

/// The check has this name and capability and ended so.
pub open spec fn is_check(
    check: ConformanceCheck,
    name: Seq<char>,
    capability: Option<ModelCapability>,
    verdict: Verdict,
) -> bool {
    check.name@ == name && check.capability == capability && verdict_of(check) == verdict
}

impl ConformanceCheck {
    /// A check that passed.
    fn passed(name: &'static str, capability: Option<ModelCapability>) -> (r: Self)
        ensures
            is_check(r, name@, capability, Verdict::Passed),
    {
        ConformanceCheck { capability, name, outcome: CheckOutcome::Passed }
    }

    /// A check that failed.
    fn failed(name: &'static str, capability: Option<ModelCapability>, detail: String) -> (r: Self)
        ensures
            is_check(r, name@, capability, Verdict::Failed(detail@)),
    {
        ConformanceCheck { capability, name, outcome: CheckOutcome::Failed { detail } }
    }

    /// A declared capability of which nothing was observed.
    fn unverifiable(name: &'static str, capability: ModelCapability) -> (r: Self)
        ensures
            is_check(r, name@, Some(capability), Verdict::Unverifiable(NOT_OBSERVED@)),
    {
        ConformanceCheck {
            capability: Some(capability),
            name,
            outcome: CheckOutcome::Unverifiable { reason: NOT_OBSERVED },
        }
    }

    /// A capability that is not declared.
    fn not_declared(name: &'static str, capability: ModelCapability) -> (r: Self)
        ensures
            is_check(r, name@, Some(capability), Verdict::NotDeclared),
    {
        ConformanceCheck { capability: Some(capability), name, outcome: CheckOutcome::NotDeclared }
    }

    /// Whether the check failed.
    fn is_failure(&self) -> (r: bool)
        ensures
            r == (verdict_of(*self) is Failed),
    {
        match self.outcome {
            CheckOutcome::Failed { .. } => true,
            _ => false,
        }
    }

    /// Whether nothing was observed.
    fn is_unverifiable(&self) -> (r: bool)
        ensures
            r == (verdict_of(*self) is Unverifiable),
    {
        match self.outcome {
            CheckOutcome::Unverifiable { .. } => true,
            _ => false,
        }
    }
}

/// All that one run found.
#[derive(Debug, PartialEq)]
pub struct ConformanceReport {
    pub provider_name: String,
    pub model_id: String,
    pub checks: Vec<ConformanceCheck>,
}

/// The checks that failed, in their order.
pub open spec fn failed_checks(checks: Seq<ConformanceCheck>) -> Seq<ConformanceCheck> {
    checks.filter(|c: ConformanceCheck| verdict_of(c) is Failed)
}

/// The checks of which nothing was observed, in their order.
pub open spec fn unobserved_checks(checks: Seq<ConformanceCheck>) -> Seq<ConformanceCheck> {
    checks.filter(|c: ConformanceCheck| verdict_of(c) is Unverifiable)
}

/// Nothing stands in the way of promotion: every check passed, or its capability is not
/// declared.
pub open spec fn all_verified(checks: Seq<ConformanceCheck>) -> bool {
    forall|i: int|
        0 <= i < checks.len() ==> (verdict_of(#[trigger] checks[i]) is Passed || verdict_of(
            checks[i],
        ) is NotDeclared)
}

impl ConformanceReport {
    /// The checks that failed.
    pub fn failures(&self) -> (r: Vec<&ConformanceCheck>)
        ensures
            r@.len() == failed_checks(self.checks@).len(),
            forall|i: int|
                0 <= i < r@.len() ==> *#[trigger] r@[i] == failed_checks(self.checks@)[i],
    {
        let ghost wanted = |c: ConformanceCheck| verdict_of(c) is Failed;
        let mut out: Vec<&ConformanceCheck> = Vec::new();
        let mut i: usize = 0;
        assert(self.checks@.take(0).filter(wanted) =~= Seq::<ConformanceCheck>::empty()) by {
            reveal(Seq::filter);
        }
        while i < self.checks.len()
            invariant
                i <= self.checks@.len(),
                wanted == (|c: ConformanceCheck| verdict_of(c) is Failed),
                out@.len() == self.checks@.take(i as int).filter(wanted).len(),
                forall|j: int|
                    0 <= j < out@.len() ==> *#[trigger] out@[j] == self.checks@.take(
                        i as int,
                    ).filter(wanted)[j],
            decreases self.checks@.len() - i,
        {
            proof {
                reveal(Seq::filter);
                let next = self.checks@.take(i + 1);
                assert(next.drop_last() =~= self.checks@.take(i as int));
                assert(next.last() == self.checks@[i as int]);
            }
            let check = &self.checks[i];
            if check.is_failure() {
                out.push(check);
            }
            i = i + 1;
        }
        assert(self.checks@.take(self.checks@.len() as int) =~= self.checks@);
        out
    }

    /// The checks of which nothing was observed.
    pub fn unverifiable(&self) -> (r: Vec<&ConformanceCheck>)
        ensures
            r@.len() == unobserved_checks(self.checks@).len(),
            forall|i: int|
                0 <= i < r@.len() ==> *#[trigger] r@[i] == unobserved_checks(self.checks@)[i],
    {
        let ghost wanted = |c: ConformanceCheck| verdict_of(c) is Unverifiable;
        let mut out: Vec<&ConformanceCheck> = Vec::new();
        let mut i: usize = 0;
        assert(self.checks@.take(0).filter(wanted) =~= Seq::<ConformanceCheck>::empty()) by {
            reveal(Seq::filter);
        }
        while i < self.checks.len()
            invariant
                i <= self.checks@.len(),
                wanted == (|c: ConformanceCheck| verdict_of(c) is Unverifiable),
                out@.len() == self.checks@.take(i as int).filter(wanted).len(),
                forall|j: int|
                    0 <= j < out@.len() ==> *#[trigger] out@[j] == self.checks@.take(
                        i as int,
                    ).filter(wanted)[j],
            decreases self.checks@.len() - i,
        {
            proof {
                reveal(Seq::filter);
                let next = self.checks@.take(i + 1);
                assert(next.drop_last() =~= self.checks@.take(i as int));
                assert(next.last() == self.checks@[i as int]);
            }
            let check = &self.checks[i];
            if check.is_unverifiable() {
                out.push(check);
            }
            i = i + 1;
        }
        assert(self.checks@.take(self.checks@.len() as int) =~= self.checks@);
        out
    }

    /// Whether the run may count as evidence: no check failed, and everything declared was
    /// observed.
    pub fn promotion_ready(&self) -> (r: bool)
        ensures
            r == all_verified(self.checks@),
    {
        let r: bool = self.failures().len() == 0 && self.unverifiable().len() == 0;
        proof {
            lemma_filter_is_empty(
                self.checks@,
                |c: ConformanceCheck| verdict_of(c) is Failed,
            );
            lemma_filter_is_empty(
                self.checks@,
                |c: ConformanceCheck| verdict_of(c) is Unverifiable,
            );
            let bad = |c: ConformanceCheck| verdict_of(c) is Failed;
            let unknown = |c: ConformanceCheck| verdict_of(c) is Unverifiable;
            if r {
                assert forall|i: int| 0 <= i < self.checks@.len() implies (verdict_of(
                    #[trigger] self.checks@[i],
                ) is Passed || verdict_of(self.checks@[i]) is NotDeclared) by {
                    assert(!bad(self.checks@[i]));
                    assert(!unknown(self.checks@[i]));
                }
            }
        }
        r
    }
}

/// Nothing is left of a sequence exactly where nothing in it is wanted.
proof fn lemma_filter_is_empty(
    checks: Seq<ConformanceCheck>,
    wanted: spec_fn(ConformanceCheck) -> bool,
)
    ensures
        checks.filter(wanted).len() == 0 <==> forall|i: int|
            0 <= i < checks.len() ==> !wanted(#[trigger] checks[i]),
    decreases checks.len(),
{
    reveal(Seq::filter);
    if checks.len() > 0 {
        lemma_filter_is_empty(checks.drop_last(), wanted);
        if checks.filter(wanted).len() == 0 {
            assert forall|i: int| 0 <= i < checks.len() implies !wanted(#[trigger] checks[i]) by {
                if i < checks.len() - 1 {
                    assert(checks.drop_last()[i] == checks[i]);
                }
            }
        }
        if forall|i: int| 0 <= i < checks.len() ==> !wanted(#[trigger] checks[i]) {
            assert(!wanted(checks[checks.len() - 1]));
            assert forall|i: int| 0 <= i < checks.drop_last().len() implies !wanted(
                #[trigger] checks.drop_last()[i],
            ) by {
                assert(checks.drop_last()[i] == checks[i]);
            }
        }
    }
}

/// What stands in the prompt so that an answer to it can be told from any other.
pub const ECHO_CANARY: &'static str = "bastion-conformance-echo-7f3a";

/// The prompt that asks for the canary.
pub fn echo_prompt() -> (r: String)
    ensures
        r@ == "Repeat exactly: "@ + ECHO_CANARY@,
{
    text::concat2("Repeat exactly: ", ECHO_CANARY)
}

/// The tool that a model with tools is made to call.
pub const PROBE_TOOL: &'static str = "conformance_probe";

/// What the model is asked to do with the tool.
pub const TOOL_PROMPT: &'static str = "Call conformance_probe with ok=true.";

/// What a model is asked for in a given form.
pub const STRUCTURED_PROMPT: &'static str =
    "Answer with a JSON object holding a single \"answer\" field.";

/// What a model is asked where any answer will do.
pub const PLAIN_PROMPT: &'static str = "Say hello.";

/// A schema that says only the type.
pub open spec fn typed(kind: Seq<char>) -> JsonTree {
    JsonTree::Object(Fields::empty().insert("type"@, JsonTree::Text(kind)))
}

/// The schema of an object with one field, which is required.
pub open spec fn one_field_schema(name: Seq<char>, kind: Seq<char>) -> Fields {
    Fields::empty().insert("type"@, JsonTree::Text("object"@)).insert(
        "properties"@,
        JsonTree::Object(Fields::empty().insert(name, typed(kind))),
    ).insert("required"@, JsonTree::Array(seq![JsonTree::Text(name)]))
}

/// The schema of an object with one field, which is required.
fn one_field(name: &str, kind: &str) -> (r: serde_json::Map<String, serde_json::Value>)
    ensures
        json::fields(r) == one_field_schema(name@, kind@),
{
    let mut field = json::no_fields();
    json::set_field(&mut field, "type", json::string(kind));
    let mut properties = json::no_fields();
    json::set_field(&mut properties, name, json::object(field));
    let mut required: Vec<serde_json::Value> = Vec::new();
    required.push(json::string(name));
    assert(json::trees(required@) =~= seq![JsonTree::Text(name@)]);
    let mut schema = json::no_fields();
    json::set_field(&mut schema, "type", json::string("object"));
    json::set_field(&mut schema, "properties", json::object(properties));
    json::set_field(&mut schema, "required", json::array(required));
    schema
}

/// The definition of the tool that the model is made to call.
pub open spec fn probe_tool_tree() -> JsonTree {
    JsonTree::Object(
        Fields::empty().insert("name"@, JsonTree::Text(PROBE_TOOL@)).insert(
            "description"@,
            JsonTree::Text("Records that a tool call round-tripped."@),
        ).insert("input_schema"@, JsonTree::Object(one_field_schema("ok"@, "boolean"@))),
    )
}

/// The tool that the model is offered, and the choice that makes it call it.
pub fn tool_probe() -> (r: (serde_json::Value, ToolChoice))
    ensures
        json::tree(r.0) == probe_tool_tree(),
        r.1 matches ToolChoice::Forced(name) && name@ == PROBE_TOOL@,
{
    let mut fields = json::no_fields();
    json::set_field(&mut fields, "name", json::string(PROBE_TOOL));
    json::set_field(
        &mut fields,
        "description",
        json::string("Records that a tool call round-tripped."),
    );
    json::set_field(&mut fields, "input_schema", json::object(one_field("ok", "boolean")));
    (json::object(fields), ToolChoice::Forced(PROBE_TOOL.to_owned()))
}

/// The form in which the model is asked to answer.
pub open spec fn structured_probe_tree() -> JsonTree {
    JsonTree::Object(
        one_field_schema("answer"@, "string"@).insert(
            "additionalProperties"@,
            JsonTree::Bool(false),
        ),
    )
}

/// The form in which the model is asked to answer.
pub fn structured_probe() -> (r: serde_json::Value)
    ensures
        json::tree(r) == structured_probe_tree(),
{
    let mut schema = one_field("answer", "string");
    json::set_field(&mut schema, "additionalProperties", json::boolean(false));
    json::object(schema)
}

/// What a provider said to a prompt, or the text of its error.
pub type Answer = Result<LlmResponse, String>;

/// What is said of the answer to the canary.
pub open spec fn echo_verdict(answer: Result<String, String>) -> Verdict {
    match answer {
        Ok(text) => if occurs(text@, ECHO_CANARY@) {
            Verdict::Passed
        } else {
            Verdict::Failed(
                "the response did not contain the prompt's canary, so the prompt may not be reaching the provider"@,
            )
        },
        Err(e) => Verdict::Failed("complete_simple failed: "@ + e@),
    }
}

/// The provider answers at all, and to what it was asked.
pub fn check_echo(answer: &Result<String, String>) -> (r: ConformanceCheck)
    ensures
        is_check(r, "text_completion_echoes_prompt"@, None, echo_verdict(*answer)),
{
    let name: &'static str = "text_completion_echoes_prompt";
    match answer {
        Ok(said) => if text::contains(said.as_str(), ECHO_CANARY) {
            ConformanceCheck::passed(name, None)
        } else {
            ConformanceCheck::failed(
                name,
                None,
                "the response did not contain the prompt's canary, so the prompt may not be reaching the provider".to_owned(),
            )
        },
        Err(e) => ConformanceCheck::failed(
            name,
            None,
            text::concat2("complete_simple failed: ", e.as_str()),
        ),
    }
}

/// What is said of the model's name.
pub open spec fn model_name_verdict(catalog: Seq<char>, reported: Seq<char>) -> Verdict {
    if reported == catalog {
        Verdict::Passed
    } else {
        Verdict::Failed("catalog says '"@ + catalog + "', provider reports '"@ + reported + "'"@)
    }
}

/// The provider serves the model that the catalog names.
pub fn check_model_name(descriptor: &ProviderModelDescriptor, reported: &str) -> (r:
    ConformanceCheck)
    ensures
        is_check(
            r,
            "model_name_matches_catalog"@,
            None,
            model_name_verdict(descriptor.model_id@, reported@),
        ),
{
    let name: &'static str = "model_name_matches_catalog";
    if text::same(reported, descriptor.model_id.as_str()) {
        ConformanceCheck::passed(name, None)
    } else {
        let mut detail: String = "catalog says '".to_owned();
        detail.append(descriptor.model_id.as_str());
        detail.append("', provider reports '");
        detail.append(reported);
        detail.append("'");
        ConformanceCheck::failed(name, None, detail)
    }
}

/// What is said of the context limit.
pub open spec fn context_verdict(limit: usize) -> Verdict {
    if limit > 0 {
        Verdict::Passed
    } else {
        Verdict::Failed("context_limit() returned 0"@)
    }
}

/// There is room for a conversation at all.
pub fn check_context_limit(limit: usize) -> (r: ConformanceCheck)
    ensures
        is_check(r, "context_limit_is_positive"@, None, context_verdict(limit)),
{
    let name: &'static str = "context_limit_is_positive";
    if limit > 0 {
        ConformanceCheck::passed(name, None)
    } else {
        ConformanceCheck::failed(name, None, "context_limit() returned 0".to_owned())
    }
}

/// One of the calls is of the tool that the model was made to call.
pub open spec fn calls_probe(calls: Seq<ToolCall>) -> bool {
    exists|i: int| 0 <= i < calls.len() && #[trigger] calls[i].name@ == PROBE_TOOL@
}

/// Whether one of the calls is of the tool that the model was made to call.
fn has_probe_call(calls: &Vec<ToolCall>) -> (r: bool)
    ensures
        r == calls_probe(calls@),
{
    let mut i: usize = 0;
    while i < calls.len()
        invariant
            i <= calls@.len(),
            forall|j: int| 0 <= j < i ==> #[trigger] calls@[j].name@ != PROBE_TOOL@,
        decreases calls@.len() - i,
    {
        if text::same(calls[i].name.as_str(), PROBE_TOOL) {
            return true;
        }
        i = i + 1;
    }
    false
}

/// What is said of tools.
pub open spec fn tools_verdict(declared: bool, observed: Option<Answer>) -> Verdict {
    if !declared {
        Verdict::NotDeclared
    } else {
        match observed {
            None => Verdict::Unverifiable(NOT_OBSERVED@),
            Some(Err(e)) => Verdict::Failed("the forced-tool call failed: "@ + e@),
            Some(Ok(response)) => match response.tool_calls {
                Some(calls) => if calls_probe(calls@) {
                    Verdict::Passed
                } else {
                    Verdict::Failed("a tool call was returned, but not the forced one"@)
                },
                None => Verdict::Failed(
                    "tools are declared and a call was forced, but the response carried no tool call"@,
                ),
            },
        }
    }
}

/// A model with tools asks for the one it is made to call. The tool is never run.
pub fn check_tools(descriptor: &ProviderModelDescriptor, observed: &Option<Answer>) -> (r:
    ConformanceCheck)
    ensures
        is_check(
            r,
            "tool_call_is_returned_when_forced"@,
            Some(ModelCapability::Tools),
            tools_verdict(declares(*descriptor, ModelCapability::Tools), *observed),
        ),
{
    let name: &'static str = "tool_call_is_returned_when_forced";
    let capability: ModelCapability = ModelCapability::Tools;
    if !descriptor.supports(capability) {
        return ConformanceCheck::not_declared(name, capability);
    }
    match observed {
        None => ConformanceCheck::unverifiable(name, capability),
        Some(Err(e)) => ConformanceCheck::failed(
            name,
            Some(capability),
            text::concat2("the forced-tool call failed: ", e.as_str()),
        ),
        Some(Ok(response)) => match &response.tool_calls {
            Some(calls) => if has_probe_call(calls) {
                ConformanceCheck::passed(name, Some(capability))
            } else {
                ConformanceCheck::failed(
                    name,
                    Some(capability),
                    "a tool call was returned, but not the forced one".to_owned(),
                )
            },
            None => ConformanceCheck::failed(
                name,
                Some(capability),
                "tools are declared and a call was forced, but the response carried no tool call".to_owned(),
            ),
        },
    }
}

/// What is said of an answer in a given form.
pub open spec fn structured_verdict(
    declared: bool,
    json_schema: bool,
    observed: Option<Answer>,
) -> Verdict {
    if !declared {
        Verdict::NotDeclared
    } else if !json_schema {
        Verdict::Failed(
            "the catalog declares structured output, but the provider reports supports_json_schema() == false"@,
        )
    } else {
        match observed {
            None => Verdict::Unverifiable(NOT_OBSERVED@),
            Some(Err(e)) => Verdict::Failed("the structured-output call failed: "@ + e@),
            Some(Ok(response)) => match json::parsed(stripped(response.text@)) {
                Ok(tree) => if tree is Object && tree->Object_0.contains_key("answer"@) {
                    Verdict::Passed
                } else {
                    Verdict::Failed(
                        "the response parsed as JSON but did not match the requested schema"@,
                    )
                },
                Err(_) => Verdict::Failed(
                    "the response was not parseable JSON despite a response_format request"@,
                ),
            },
        }
    }
}

/// A model with structured output says so itself, and answers in the form that it was asked for.
pub fn check_structured_output(
    descriptor: &ProviderModelDescriptor,
    json_schema: bool,
    observed: &Option<Answer>,
) -> (r: ConformanceCheck)
    ensures
        is_check(
            r,
            "structured_output_returns_parseable_json"@,
            Some(ModelCapability::StructuredOutput),
            structured_verdict(
                declares(*descriptor, ModelCapability::StructuredOutput),
                json_schema,
                *observed,
            ),
        ),
{
    let name: &'static str = "structured_output_returns_parseable_json";
    let capability: ModelCapability = ModelCapability::StructuredOutput;
    if !descriptor.supports(capability) {
        return ConformanceCheck::not_declared(name, capability);
    }
    if !json_schema {
        return ConformanceCheck::failed(
            name,
            Some(capability),
            "the catalog declares structured output, but the provider reports supports_json_schema() == false".to_owned(),
        );
    }
    match observed {
        None => ConformanceCheck::unverifiable(name, capability),
        Some(Err(e)) => ConformanceCheck::failed(
            name,
            Some(capability),
            text::concat2("the structured-output call failed: ", e.as_str()),
        ),
        Some(Ok(response)) => match json::parse(unicode::trim(response.text.as_str())) {
            Ok(value) => if json::has_field(&value, "answer") {
                ConformanceCheck::passed(name, Some(capability))
            } else {
                ConformanceCheck::failed(
                    name,
                    Some(capability),
                    "the response parsed as JSON but did not match the requested schema".to_owned(),
                )
            },
            Err(_) => ConformanceCheck::failed(
                name,
                Some(capability),
                "the response was not parseable JSON despite a response_format request".to_owned(),
            ),
        },
    }
}

/// What is said of usage.
pub open spec fn usage_verdict(declared: bool, observed: Option<Answer>) -> Verdict {
    if !declared {
        Verdict::NotDeclared
    } else {
        match observed {
            None => Verdict::Unverifiable(NOT_OBSERVED@),
            Some(Err(e)) => Verdict::Failed("the usage probe call failed: "@ + e@),
            Some(Ok(response)) => if response.usage.input_tokens == 0
                && response.usage.output_tokens == 0 {
                Verdict::Failed(
                    "usage is declared but the response reported zero input and output tokens, which no real call does"@,
                )
            } else {
                Verdict::Passed
            },
        }
    }
}

/// A model that reports usage reports some.
pub fn check_usage(descriptor: &ProviderModelDescriptor, observed: &Option<Answer>) -> (r:
    ConformanceCheck)
    ensures
        is_check(
            r,
            "usage_is_reported"@,
            Some(ModelCapability::Usage),
            usage_verdict(declares(*descriptor, ModelCapability::Usage), *observed),
        ),
{
    let name: &'static str = "usage_is_reported";
    let capability: ModelCapability = ModelCapability::Usage;
    if !descriptor.supports(capability) {
        return ConformanceCheck::not_declared(name, capability);
    }
    match observed {
        None => ConformanceCheck::unverifiable(name, capability),
        Some(Err(e)) => ConformanceCheck::failed(
            name,
            Some(capability),
            text::concat2("the usage probe call failed: ", e.as_str()),
        ),
        Some(Ok(response)) => if response.usage.input_tokens == 0 && response.usage.output_tokens
            == 0 {
            ConformanceCheck::failed(
                name,
                Some(capability),
                "usage is declared but the response reported zero input and output tokens, which no real call does".to_owned(),
            )
        } else {
            ConformanceCheck::passed(name, Some(capability))
        },
    }
}

/// What a stream gave: the error with which it did not begin, or its pieces in their order.
pub type Streamed = Result<Vec<Result<StreamChunk, String>>, String>;

/// The first error among the pieces.
pub open spec fn first_fault(items: Seq<Result<StreamChunk, String>>) -> Option<Seq<char>>
    decreases items.len(),
{
    if items.len() == 0 {
        None
    } else {
        match items[0] {
            Err(e) => Some(e@),
            Ok(_) => first_fault(items.skip(1)),
        }
    }
}

/// What is said of streaming.
pub open spec fn streaming_verdict(declared: bool, observed: Option<Streamed>) -> Verdict {
    if !declared {
        Verdict::NotDeclared
    } else {
        match observed {
            None => Verdict::Unverifiable(NOT_OBSERVED@),
            Some(Err(e)) => Verdict::Failed(
                "streaming is declared but stream() returned an error: "@ + e@,
            ),
            Some(Ok(items)) => match first_fault(items@) {
                Some(e) => Verdict::Failed("the stream errored mid-flight: "@ + e),
                None => if items@.len() >= 2 {
                    Verdict::Passed
                } else {
                    Verdict::Failed(
                        "streaming is declared but the stream yielded "@ + decimal(items@.len())
                            + " chunk(s) — indistinguishable from a single non-streamed response wearing a stream-shaped API"@,
                    )
                },
            },
        }
    }
}

/// A model that streams gives its answer in more than one piece.
pub fn check_streaming(descriptor: &ProviderModelDescriptor, observed: &Option<Streamed>) -> (r:
    ConformanceCheck)
    ensures
        is_check(
            r,
            "streaming_delivers_incremental_chunks"@,
            Some(ModelCapability::Streaming),
            streaming_verdict(declares(*descriptor, ModelCapability::Streaming), *observed),
        ),
{
    let name: &'static str = "streaming_delivers_incremental_chunks";
    let capability: ModelCapability = ModelCapability::Streaming;
    if !descriptor.supports(capability) {
        return ConformanceCheck::not_declared(name, capability);
    }
    let items: &Vec<Result<StreamChunk, String>> = match observed {
        None => {
            return ConformanceCheck::unverifiable(name, capability);
        },
        Some(Err(e)) => {
            return ConformanceCheck::failed(
                name,
                Some(capability),
                text::concat2(
                    "streaming is declared but stream() returned an error: ",
                    e.as_str(),
                ),
            );
        },
        Some(Ok(items)) => items,
    };
    let mut chunk_count: usize = 0;
    assert(items@.skip(0) =~= items@);
    while chunk_count < items.len()
        invariant
            chunk_count <= items@.len(),
            first_fault(items@) == first_fault(items@.skip(chunk_count as int)),
            declares(*descriptor, ModelCapability::Streaming),
            *observed matches Some(Ok(all)) && all == *items,
            name@ == "streaming_delivers_incremental_chunks"@,
            capability == ModelCapability::Streaming,
        decreases items@.len() - chunk_count,
    {
        assert(items@.skip(chunk_count as int)[0] == items@[chunk_count as int]);
        assert(items@.skip(chunk_count as int).skip(1) =~= items@.skip(chunk_count + 1));
        match &items[chunk_count] {
            Ok(_) => {
                chunk_count = chunk_count + 1;
            },
            Err(e) => {
                return ConformanceCheck::failed(
                    name,
                    Some(capability),
                    text::concat2("the stream errored mid-flight: ", e.as_str()),
                );
            },
        }
    }
    if chunk_count >= 2 {
        ConformanceCheck::passed(name, Some(capability))
    } else {
        let mut detail: String = "streaming is declared but the stream yielded ".to_owned();
        text::push_decimal(&mut detail, chunk_count as u64);
        detail.append(
            " chunk(s) — indistinguishable from a single non-streamed response wearing a stream-shaped API",
        );
        ConformanceCheck::failed(name, Some(capability), detail)
    }
}

/// What came of a call that was cancelled a moment after it began.
#[derive(Debug)]
pub struct CancelledCall {
    /// Whether the call was still running when it was cancelled.
    pub in_flight: bool,
    /// What the call gave in the end.
    pub answer: Answer,
}

/// What is said of cancellation.
pub open spec fn cancellation_verdict(declared: bool, observed: Option<CancelledCall>) -> Verdict {
    if !declared {
        Verdict::NotDeclared
    } else {
        match observed {
            None => Verdict::Unverifiable(NOT_OBSERVED@),
            Some(call) => match call.answer {
                Ok(_) => Verdict::Failed(
                    "cancellation is declared, but a call cancelled while in flight still completed successfully — this suite cannot tell that apart from cancellation being ignored"@,
                ),
                Err(e) => if call.in_flight {
                    Verdict::Passed
                } else {
                    Verdict::Failed("the call failed before it was cancelled: "@ + e@)
                },
            },
        }
    }
}

/// A model that can be cancelled gives up a call that is cancelled while it runs. A call that
/// failed before says nothing of that, and is a failure.
pub fn check_cancellation(
    descriptor: &ProviderModelDescriptor,
    observed: &Option<CancelledCall>,
) -> (r: ConformanceCheck)
    ensures
        is_check(
            r,
            "cancellation_aborts_an_in_flight_call"@,
            Some(ModelCapability::Cancellation),
            cancellation_verdict(declares(*descriptor, ModelCapability::Cancellation), *observed),
        ),
{
    let name: &'static str = "cancellation_aborts_an_in_flight_call";
    let capability: ModelCapability = ModelCapability::Cancellation;
    if !descriptor.supports(capability) {
        return ConformanceCheck::not_declared(name, capability);
    }
    match observed {
        None => ConformanceCheck::unverifiable(name, capability),
        Some(call) => match &call.answer {
            Ok(_) => ConformanceCheck::failed(
                name,
                Some(capability),
                "cancellation is declared, but a call cancelled while in flight still completed successfully — this suite cannot tell that apart from cancellation being ignored".to_owned(),
            ),
            Err(e) => if call.in_flight {
                ConformanceCheck::passed(name, Some(capability))
            } else {
                ConformanceCheck::failed(
                    name,
                    Some(capability),
                    text::concat2("the call failed before it was cancelled: ", e.as_str()),
                )
            },
        },
    }
}

/// What was observed of a provider. A probe of what is not declared need not be made.
pub struct Observations {
    pub provider_name: String,
    pub model_name: String,
    pub context_limit: usize,
    pub json_schema: bool,
    pub echo: Result<String, String>,
    pub tools: Option<Answer>,
    pub structured_output: Option<Answer>,
    pub usage: Option<Answer>,
    pub streaming: Option<Streamed>,
    pub cancellation: Option<CancelledCall>,
}

/// The verdicts on a provider, in the order of the report.
pub open spec fn verdicts(d: ProviderModelDescriptor, o: Observations) -> Seq<Verdict> {
    seq![
        echo_verdict(o.echo),
        model_name_verdict(d.model_id@, o.model_name@),
        context_verdict(o.context_limit),
        tools_verdict(declares(d, ModelCapability::Tools), o.tools),
        structured_verdict(
            declares(d, ModelCapability::StructuredOutput),
            o.json_schema,
            o.structured_output,
        ),
        usage_verdict(declares(d, ModelCapability::Usage), o.usage),
        streaming_verdict(declares(d, ModelCapability::Streaming), o.streaming),
        cancellation_verdict(declares(d, ModelCapability::Cancellation), o.cancellation),
    ]
}

/// The names of the checks and their capabilities, in the order of the report.
pub open spec fn check_names() -> Seq<(Seq<char>, Option<ModelCapability>)> {
    seq![
        ("text_completion_echoes_prompt"@, None),
        ("model_name_matches_catalog"@, None),
        ("context_limit_is_positive"@, None),
        ("tool_call_is_returned_when_forced"@, Some(ModelCapability::Tools)),
        ("structured_output_returns_parseable_json"@, Some(ModelCapability::StructuredOutput)),
        ("usage_is_reported"@, Some(ModelCapability::Usage)),
        ("streaming_delivers_incremental_chunks"@, Some(ModelCapability::Streaming)),
        ("cancellation_aborts_an_in_flight_call"@, Some(ModelCapability::Cancellation)),
    ]
}

/// The report on a provider, by what was observed of it and what its catalog entry declares.
pub fn run_conformance(descriptor: &ProviderModelDescriptor, observed: &Observations) -> (r:
    ConformanceReport)
    ensures
        r.provider_name == observed.provider_name,
        r.model_id == descriptor.model_id,
        r.checks@.len() == 8,
        forall|i: int|
            0 <= i < 8 ==> is_check(
                #[trigger] r.checks@[i],
                check_names()[i].0,
                check_names()[i].1,
                verdicts(*descriptor, *observed)[i],
            ),
{
    let mut checks: Vec<ConformanceCheck> = Vec::new();
    checks.push(check_echo(&observed.echo));
    checks.push(check_model_name(descriptor, observed.model_name.as_str()));
    checks.push(check_context_limit(observed.context_limit));
    checks.push(check_tools(descriptor, &observed.tools));
    checks.push(
        check_structured_output(descriptor, observed.json_schema, &observed.structured_output),
    );
    checks.push(check_usage(descriptor, &observed.usage));
    checks.push(check_streaming(descriptor, &observed.streaming));
    checks.push(check_cancellation(descriptor, &observed.cancellation));
    ConformanceReport {
        provider_name: observed.provider_name.clone(),
        model_id: descriptor.model_id.clone(),
        checks,
    }
}

/// A capability that is not declared is not held against a provider, whatever was observed; one
/// that is declared is either observed to work, or keeps the provider from being promoted.
pub proof fn what_is_declared_must_be_observed(
    declared: bool,
    json_schema: bool,
    answer: Option<Answer>,
    streamed: Option<Streamed>,
    cancelled: Option<CancelledCall>,
)
    ensures
        !declared <==> tools_verdict(declared, answer) is NotDeclared,
        !declared <==> structured_verdict(declared, json_schema, answer) is NotDeclared,
        !declared <==> usage_verdict(declared, answer) is NotDeclared,
        !declared <==> streaming_verdict(declared, streamed) is NotDeclared,
        !declared <==> cancellation_verdict(declared, cancelled) is NotDeclared,
        answer is None && declared ==> !(tools_verdict(declared, answer) is Passed),
        answer is None && declared ==> !(structured_verdict(
            declared,
            json_schema,
            answer,
        ) is Passed),
        answer is None && declared ==> !(usage_verdict(declared, answer) is Passed),
        streamed is None && declared ==> !(streaming_verdict(declared, streamed) is Passed),
        cancelled is None && declared ==> !(cancellation_verdict(declared, cancelled) is Passed),
{
}

/// A provider that fails a call fails the check that the call was made for. What a call gives
/// once it has been cancelled is another matter.
pub proof fn a_failing_provider_fails_its_checks(
    json_schema: bool,
    answer: Answer,
    streamed: Streamed,
    cancelled: CancelledCall,
)
    requires
        answer is Err,
        streamed is Err,
        cancelled.answer is Err && !cancelled.in_flight,
    ensures
        tools_verdict(true, Some(answer)) is Failed,
        structured_verdict(true, json_schema, Some(answer)) is Failed,
        usage_verdict(true, Some(answer)) is Failed,
        streaming_verdict(true, Some(streamed)) is Failed,
        cancellation_verdict(true, Some(cancelled)) is Failed,
{
}

/// A provider that cannot be reached is reported on, and not promoted.
pub proof fn a_provider_that_does_not_answer_is_not_promoted(
    d: ProviderModelDescriptor,
    o: Observations,
    checks: Seq<ConformanceCheck>,
)
    requires
        o.echo is Err,
        checks.len() == 8,
        forall|i: int|
            0 <= i < 8 ==> is_check(
                #[trigger] checks[i],
                check_names()[i].0,
                check_names()[i].1,
                verdicts(d, o)[i],
            ),
    ensures
        !all_verified(checks),
{
    assert(verdict_of(checks[0]) is Failed);
}

/// A provider passes where it answers what it was asked, serves the model that it says, and has
/// room for a conversation.
pub proof fn every_provider_must_answer(
    answer: Result<String, String>,
    catalog: Seq<char>,
    reported: Seq<char>,
    limit: usize,
)
    ensures
        echo_verdict(answer) is Passed <==> (answer matches Ok(text) && occurs(
            text@,
            ECHO_CANARY@,
        )),
        echo_verdict(answer) is Passed || echo_verdict(answer) is Failed,
        answer matches Err(e) ==> occurs(echo_verdict(answer)->Failed_0, e@),
        model_name_verdict(catalog, reported) is Passed <==> catalog == reported,
        catalog != reported ==> (model_name_verdict(catalog, reported) matches Verdict::Failed(
            detail,
        ) && occurs(detail, catalog) && occurs(detail, reported)),
        context_verdict(limit) is Passed <==> limit > 0,
        limit == 0 ==> context_verdict(limit) is Failed,
{
    if let Err(e) = answer {
        text::what_is_written_last_stands_there("complete_simple failed: "@, e@);
    }
    let a = "catalog says '"@;
    let b = "', provider reports '"@;
    text::what_is_written_last_stands_there(a, catalog);
    text::what_stands_in_a_text_stands_in_a_longer_one(a + catalog, b, catalog);
    text::what_stands_in_a_text_stands_in_a_longer_one(a + catalog + b, reported, catalog);
    text::what_stands_in_a_text_stands_in_a_longer_one(a + catalog + b + reported, "'"@, catalog);
    text::what_is_written_last_stands_there(a + catalog + b, reported);
    text::what_stands_in_a_text_stands_in_a_longer_one(a + catalog + b + reported, "'"@, reported);
}

/// A declared capability passes exactly where it was observed to work: the tool that was forced is
/// called, an object with the field that was asked for comes back, some tokens are reported, an
/// answer comes in more than one piece and without an error, and a call that was cancelled while it
/// ran gives no answer.
pub proof fn a_capability_passes_where_it_works(
    json_schema: bool,
    answer: Option<Answer>,
    streamed: Option<Streamed>,
    cancelled: Option<CancelledCall>,
)
    ensures
        tools_verdict(true, answer) is Passed <==> (answer matches Some(Ok(response))
            && response.tool_calls is Some && exists|i: int|
            0 <= i < response.tool_calls->0@.len() && #[trigger] response.tool_calls->0@[i].name@
                == PROBE_TOOL@),
        structured_verdict(true, json_schema, answer) is Passed <==> json_schema && (
        answer matches Some(Ok(response)) && (json::parsed(stripped(response.text@)) matches Ok(
            JsonTree::Object(fields),
        ) && fields.contains_key("answer"@))),
        usage_verdict(true, answer) is Passed <==> (answer matches Some(Ok(response))
            && response.usage.input_tokens + response.usage.output_tokens > 0),
        streaming_verdict(true, streamed) is Passed <==> (streamed matches Some(Ok(items))
            && items@.len() >= 2 && forall|i: int| 0 <= i < items@.len() ==> #[trigger] items@[i]
            is Ok),
        cancellation_verdict(true, cancelled) is Passed <==> (cancelled matches Some(call)
            && call.in_flight && call.answer is Err),
{
    if let Some(Ok(items)) = streamed {
        lemma_first_fault(items@);
    }
}

/// There is a first error exactly where not every piece is one, and it is the first.
proof fn lemma_first_fault(items: Seq<Result<StreamChunk, String>>)
    ensures
        first_fault(items) is None <==> forall|i: int|
            0 <= i < items.len() ==> #[trigger] items[i] is Ok,
        first_fault(items) matches Some(e) ==> exists|i: int|
            {
                &&& 0 <= i < items.len()
                &&& (#[trigger] items[i] matches Err(text) && text@ == e)
                &&& forall|j: int| 0 <= j < i ==> #[trigger] items[j] is Ok
            },
    decreases items.len(),
{
    if items.len() > 0 {
        let rest = items.skip(1);
        lemma_first_fault(rest);
        match items[0] {
            Err(e) => {},
            Ok(_) => {
                if first_fault(rest) is None {
                    assert forall|i: int| 0 <= i < items.len() implies #[trigger] items[i] is Ok by {
                        if i > 0 {
                            assert(rest[i - 1] is Ok);
                        }
                    }
                } else {
                    let e = first_fault(rest)->0;
                    let i = choose|i: int|
                        {
                            &&& 0 <= i < rest.len()
                            &&& (#[trigger] rest[i] matches Err(text) && text@ == e)
                            &&& forall|j: int| 0 <= j < i ==> #[trigger] rest[j] is Ok
                        };
                    assert(items[i + 1] == rest[i]);
                    assert forall|j: int| 0 <= j < i + 1 implies #[trigger] items[j] is Ok by {
                        if j > 0 {
                            assert(rest[j - 1] is Ok);
                        }
                    }
                }
            },
        }
    }
}

/// A failing call is reported in its own words.
pub proof fn a_failure_is_told_in_its_own_words(error: String)
    ensures
        occurs(
            tools_verdict(true, Some(Err::<LlmResponse, String>(error)))->Failed_0,
            error@,
        ),
        occurs(
            structured_verdict(true, true, Some(Err::<LlmResponse, String>(error)))->Failed_0,
            error@,
        ),
        occurs(
            usage_verdict(true, Some(Err::<LlmResponse, String>(error)))->Failed_0,
            error@,
        ),
        occurs(
            streaming_verdict(
                true,
                Some(Err::<Vec<Result<StreamChunk, String>>, String>(error)),
            )->Failed_0,
            error@,
        ),
{
    text::what_is_written_last_stands_there("the forced-tool call failed: "@, error@);
    text::what_is_written_last_stands_there("the structured-output call failed: "@, error@);
    text::what_is_written_last_stands_there("the usage probe call failed: "@, error@);
    text::what_is_written_last_stands_there(
        "streaming is declared but stream() returned an error: "@,
        error@,
    );
}

/// A provider is promoted exactly where it answers, serves its model, has room, and every
/// capability that its catalog entry declares was observed to work; what is not declared is not
/// held against it.
pub proof fn what_promotion_takes(
    d: ProviderModelDescriptor,
    o: Observations,
    checks: Seq<ConformanceCheck>,
)
    requires
        checks.len() == 8,
        forall|i: int|
            0 <= i < 8 ==> is_check(
                #[trigger] checks[i],
                check_names()[i].0,
                check_names()[i].1,
                verdicts(d, o)[i],
            ),
    ensures
        all_verified(checks) <==> {
            let has = d.capabilities@;
            &&& o.echo matches Ok(text) && occurs(text@, ECHO_CANARY@)
            &&& o.model_name@ == d.model_id@
            &&& o.context_limit > 0
            &&& has.contains(ModelCapability::Tools) ==> tools_verdict(true, o.tools) is Passed
            &&& has.contains(ModelCapability::StructuredOutput) ==> structured_verdict(
                true,
                o.json_schema,
                o.structured_output,
            ) is Passed
            &&& has.contains(ModelCapability::Usage) ==> usage_verdict(true, o.usage) is Passed
            &&& has.contains(ModelCapability::Streaming) ==> streaming_verdict(
                true,
                o.streaming,
            ) is Passed
            &&& has.contains(ModelCapability::Cancellation) ==> cancellation_verdict(
                true,
                o.cancellation,
            ) is Passed
        },
{
    let v = verdicts(d, o);
    assert(is_check(checks[0], check_names()[0].0, check_names()[0].1, v[0]));
    assert(is_check(checks[1], check_names()[1].0, check_names()[1].1, v[1]));
    assert(is_check(checks[2], check_names()[2].0, check_names()[2].1, v[2]));
    assert(is_check(checks[3], check_names()[3].0, check_names()[3].1, v[3]));
    assert(is_check(checks[4], check_names()[4].0, check_names()[4].1, v[4]));
    assert(is_check(checks[5], check_names()[5].0, check_names()[5].1, v[5]));
    assert(is_check(checks[6], check_names()[6].0, check_names()[6].1, v[6]));
    assert(is_check(checks[7], check_names()[7].0, check_names()[7].1, v[7]));
}

/// A report keeps from promotion exactly what it lists: every check that failed is among the
/// failures, every one of which nothing was observed among the unobserved, and nothing else is.
pub proof fn what_is_not_verified_is_listed(
    checks: Seq<ConformanceCheck>,
    check: ConformanceCheck,
)
    ensures
        failed_checks(checks).contains(check) <==> checks.contains(check) && check.outcome
            is Failed,
        unobserved_checks(checks).contains(check) <==> checks.contains(check) && check.outcome
            is Unverifiable,
        all_verified(checks) <==> failed_checks(checks).len() == 0 && unobserved_checks(
            checks,
        ).len() == 0,
{
    let failed = |c: ConformanceCheck| verdict_of(c) is Failed;
    let unobserved = |c: ConformanceCheck| verdict_of(c) is Unverifiable;
    lemma_filtered(checks, failed, check);
    lemma_filtered(checks, unobserved, check);
    if all_verified(checks) {
        if failed_checks(checks).len() > 0 {
            let c = failed_checks(checks)[0];
            lemma_filtered(checks, failed, c);
            let i = choose|i: int| 0 <= i < checks.len() && checks[i] == c;
            assert(verdict_of(checks[i]) is Failed);
        }
        if unobserved_checks(checks).len() > 0 {
            let c = unobserved_checks(checks)[0];
            lemma_filtered(checks, unobserved, c);
            let i = choose|i: int| 0 <= i < checks.len() && checks[i] == c;
            assert(verdict_of(checks[i]) is Unverifiable);
        }
    } else {
        let i = choose|i: int|
            0 <= i < checks.len() && !(verdict_of(#[trigger] checks[i]) is Passed || verdict_of(
                checks[i],
            ) is NotDeclared);
        lemma_filtered(checks, failed, checks[i]);
        lemma_filtered(checks, unobserved, checks[i]);
        assert(checks.contains(checks[i]));
    }
}

/// What is picked of some checks.
proof fn lemma_filtered(
    checks: Seq<ConformanceCheck>,
    asked: spec_fn(ConformanceCheck) -> bool,
    check: ConformanceCheck,
)
    ensures
        checks.filter(asked).contains(check) <==> checks.contains(check) && asked(check),
{
    let picked = checks.filter(asked);
    if picked.contains(check) {
        let j = choose|j: int| 0 <= j < picked.len() && picked[j] == check;
        checks.lemma_filter_pred(asked, j);
        checks.lemma_filter_contains_rev(asked, check);
    }
    if checks.contains(check) && asked(check) {
        let i = choose|i: int| 0 <= i < checks.len() && checks[i] == check;
        checks.lemma_filter_contains(asked, i);
    }
}

/// A schema with one field asks for an object that has this field, of this type, and requires it.
pub proof fn a_schema_asks_for_its_field(name: Seq<char>, kind: Seq<char>)
    ensures
        ({
            let fields = one_field_schema(name, kind);
            &&& fields["type"@] == JsonTree::Text("object"@)
            &&& fields["properties"@] matches JsonTree::Object(properties)
            &&& properties.contains_key(name)
            &&& properties[name] matches JsonTree::Object(field)
            &&& field["type"@] == JsonTree::Text(kind)
            &&& fields["required"@] matches JsonTree::Array(required)
            &&& required.contains(JsonTree::Text(name))
            &&& fields.dom() == set!["type"@, "properties"@, "required"@]
        }),
{
    reveal_strlit("type");
    reveal_strlit("properties");
    reveal_strlit("required");
    assert("type"@[0] == 't' && "properties"@[0] == 'p' && "required"@[0] == 'r');
    let fields = one_field_schema(name, kind);
    assert(fields.dom() =~= set!["type"@, "properties"@, "required"@]);
    let required = fields["required"@]->Array_0;
    assert(required[0] == JsonTree::Text(name));
}

/// The tool that is offered to a model is the one that it is made to call.
pub proof fn the_offered_tool_is_the_forced_one()
    ensures
        probe_tool_tree() matches JsonTree::Object(fields) && fields["name"@] == JsonTree::Text(
            PROBE_TOOL@,
        ) && fields["input_schema"@] == JsonTree::Object(
            one_field_schema("ok"@, "boolean"@),
        ),
        structured_probe_tree() matches JsonTree::Object(fields) && fields["properties"@]
            == one_field_schema("answer"@, "string"@)["properties"@]
            && fields["additionalProperties"@] == JsonTree::Bool(false),
{
    reveal_strlit("name");
    reveal_strlit("description");
    reveal_strlit("input_schema");
    reveal_strlit("properties");
    reveal_strlit("additionalProperties");
    assert("name"@[0] == 'n' && "description"@[0] == 'd' && "input_schema"@[0] == 'i');
    assert("properties"@[0] == 'p' && "additionalProperties"@[0] == 'a');
}

} // verus!
