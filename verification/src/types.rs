//! The vocabulary that the modules of the runtime share.
use vstd::prelude::*;
use crate::json;
use crate::task::contract::Usd;
use crate::text;

verus! {

/// Where data may go: only to the host itself, or also to a cloud provider.
#[derive(Clone, Copy, Debug, PartialEq, Eq, Structural)]
pub enum PrivacyTier {
    LocalOnly,
    CloudOk,
}

/// How far the denial of one action reaches: that one call, or the rest of the turn.
#[derive(Clone, Copy, Debug, PartialEq, Eq, Structural)]
pub enum DenyScope {
    Instance,
    Turn,
}

/// Why the runtime refused or could not do something.
#[derive(Debug, PartialEq)]
pub enum BastionError {
    /// Data of this tier may not go to that destination.
    PrivacyEgressBlocked,
    /// The input is structurally unacceptable; the detail may be logged.
    InputGuardrailRejected(String),
    /// The turn used up its tool rounds.
    ToolLoopCap,
    /// The daily budget is spent.
    BudgetExceeded,
    /// The configured backend cannot serve the request.
    BackendUnavailable(String),
    /// The owner rejected the action.
    ApprovalDenied { capability: String, scope: DenyScope },
    /// The persona may not use this capability.
    ToolNotAllowed { capability: String },
    /// Any other failure, by its text.
    Failed(String),
}

/// The text of an error.
pub open spec fn error_text(e: BastionError) -> Seq<char> {
    match e {
        BastionError::PrivacyEgressBlocked => "Privacy egress blocked"@,
        BastionError::InputGuardrailRejected(detail) => "Input rejected: "@ + detail@,
        BastionError::ToolLoopCap => "Tool loop cap reached"@,
        BastionError::BudgetExceeded => "Daily budget exceeded"@,
        BastionError::BackendUnavailable(detail) => "Backend unavailable: "@ + detail@,
        BastionError::ApprovalDenied { capability, scope } => "Approval denied for capability '"@
            + capability@ + "'"@,
        BastionError::ToolNotAllowed { capability } => "Capability '"@ + capability@
            + "' is not in the allowed tool set"@,
        BastionError::Failed(detail) => detail@,
    }
}

impl BastionError {
    /// The text of this error.
    pub fn message(&self) -> (r: String)
        ensures
            r@ == error_text(*self),
    {
        match self {
            BastionError::PrivacyEgressBlocked => "Privacy egress blocked".to_owned(),
            BastionError::InputGuardrailRejected(detail) => text::concat2(
                "Input rejected: ",
                detail.as_str(),
            ),
            BastionError::ToolLoopCap => "Tool loop cap reached".to_owned(),
            BastionError::BudgetExceeded => "Daily budget exceeded".to_owned(),
            BastionError::BackendUnavailable(detail) => text::concat2(
                "Backend unavailable: ",
                detail.as_str(),
            ),
            BastionError::ApprovalDenied { capability, scope } => text::concat3(
                "Approval denied for capability '",
                capability.as_str(),
                "'",
            ),
            BastionError::ToolNotAllowed { capability } => text::concat3(
                "Capability '",
                capability.as_str(),
                "' is not in the allowed tool set",
            ),
            BastionError::Failed(detail) => detail.clone(),
        }
    }
}

/// Who said a message.
#[derive(Clone, Copy, Debug, PartialEq, Eq, Structural)]
pub enum Role {
    System,
    User,
    Assistant,
    Tool,
}

/// A tool call that a model asked for.
#[derive(Debug, PartialEq)]
pub struct ToolCall {
    pub id: String,
    pub name: String,
    pub arguments: serde_json::Value,
    pub extra: Option<serde_json::Value>,
}

/// One piece of a structured message.
#[derive(Debug, PartialEq)]
pub enum ContentPart {
    Text { text: String },
    ToolUse {
        id: String,
        name: String,
        input: serde_json::Value,
        extra: Option<serde_json::Value>,
    },
    ToolResult { tool_use_id: String, content: String },
}

/// What a message says.
#[derive(Debug, PartialEq)]
pub enum MessageContent {
    Text(String),
    Parts(Vec<ContentPart>),
}

/// One entry of a conversation.
#[derive(Debug, PartialEq)]
pub struct Message {
    pub role: Role,
    pub content: MessageContent,
}

/// What one model call used.
#[derive(Clone, Copy, Debug, PartialEq, Eq, Structural)]
pub struct TokenUsage {
    pub input_tokens: u32,
    pub output_tokens: u32,
    pub cache_read: u32,
    pub cache_write: u32,
    /// What the call cost, where the vendor says so.
    pub actual_cost_usd: Option<Usd>,
}

impl Default for TokenUsage {
    fn default() -> (r: Self)
        ensures
            r == (TokenUsage {
                input_tokens: 0,
                output_tokens: 0,
                cache_read: 0,
                cache_write: 0,
                actual_cost_usd: None,
            }),
    {
        TokenUsage {
            input_tokens: 0,
            output_tokens: 0,
            cache_read: 0,
            cache_write: 0,
            actual_cost_usd: None,
        }
    }
}

/// What a model answered.
#[derive(Debug, PartialEq)]
pub struct LlmResponse {
    pub text: String,
    pub tool_calls: Option<Vec<ToolCall>>,
    pub usage: TokenUsage,
}

/// A key and a number that describe a model call to an observer.
#[derive(Debug, PartialEq)]
pub struct UsageAttribute {
    pub key: String,
    pub value: i64,
}

/// The cache counters of a model call as attributes: reads first, writes second, and both
/// also where they are zero.
pub fn cache_usage_attributes(usage: &TokenUsage) -> (r: Vec<UsageAttribute>)
    ensures
        r@.len() == 2,
        r@[0].key@ == "gen_ai.usage.cache_read_tokens"@,
        r@[0].value == usage.cache_read,
        r@[1].key@ == "gen_ai.usage.cache_write_tokens"@,
        r@[1].value == usage.cache_write,
{
    let mut out: Vec<UsageAttribute> = Vec::new();
    out.push(
        UsageAttribute {
            key: "gen_ai.usage.cache_read_tokens".to_owned(),
            value: usage.cache_read as i64,
        },
    );
    out.push(
        UsageAttribute {
            key: "gen_ai.usage.cache_write_tokens".to_owned(),
            value: usage.cache_write as i64,
        },
    );
    out
}

/// What kind of failure is reported.
#[derive(Clone, Copy, Debug, PartialEq, Eq, Structural)]
pub enum FailureKind {
    /// The owner contested what was said.
    Contestation,
    /// Data was kept from leaving the host.
    EgressReject,
}

/// A failure to be reported, with the tier of the data that it concerns. The detail is one of a
/// few fixed words and holds nothing of that data.
#[derive(Debug, PartialEq)]
pub struct FailureReport {
    pub kind: FailureKind,
    pub tier: Option<PrivacyTier>,
    pub detail: &'static str,
}

/// A copy of an optional JSON value.
pub(crate) fn duplicate_extra(extra: &Option<serde_json::Value>) -> (r: Option<serde_json::Value>)
    ensures
        r == *extra,
{
    match extra {
        Some(value) => Some(json::duplicate(value)),
        None => None,
    }
}

/// The text of an error tells what it is about: the detail that goes with it, or the capability.
pub proof fn an_error_tells_what_it_is_about(e: BastionError)
    ensures
        match e {
            BastionError::Failed(detail) => error_text(e) == detail@,
            BastionError::InputGuardrailRejected(detail) => text::occurs(error_text(e), detail@),
            BastionError::BackendUnavailable(detail) => text::occurs(error_text(e), detail@),
            BastionError::ApprovalDenied { capability, scope } => text::occurs(
                error_text(e),
                capability@,
            ),
            BastionError::ToolNotAllowed { capability } => text::occurs(
                error_text(e),
                capability@,
            ),
            BastionError::PrivacyEgressBlocked => error_text(e) == "Privacy egress blocked"@,
            BastionError::ToolLoopCap => error_text(e) == "Tool loop cap reached"@,
            BastionError::BudgetExceeded => error_text(e) == "Daily budget exceeded"@,
        },
{
    match e {
        BastionError::InputGuardrailRejected(detail) => {
            text::what_is_written_last_stands_there("Input rejected: "@, detail@);
        },
        BastionError::BackendUnavailable(detail) => {
            text::what_is_written_last_stands_there("Backend unavailable: "@, detail@);
        },
        BastionError::ApprovalDenied { capability, scope } => {
            let a = "Approval denied for capability '"@;
            text::what_is_written_last_stands_there(a, capability@);
            text::what_stands_in_a_text_stands_in_a_longer_one(
                a + capability@,
                "'"@,
                capability@,
            );
        },
        BastionError::ToolNotAllowed { capability } => {
            let a = "Capability '"@;
            text::what_is_written_last_stands_there(a, capability@);
            text::what_stands_in_a_text_stands_in_a_longer_one(
                a + capability@,
                "' is not in the allowed tool set"@,
                capability@,
            );
        },
        _ => {},
    }
}

} // verus!
