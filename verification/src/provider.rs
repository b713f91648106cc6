//! Calls to a model: how they are retried, and how a model is made to answer in a given form.
use vstd::arithmetic::power2::{lemma2_to64, lemma_pow2_strictly_increases, lemma_pow2_unfold, pow2};
use vstd::prelude::*;
use crate::capability::authority::{admits, tool_set, InvokeCtx};
use crate::capability::registry::{
    a_closed_scope_leaves_no_trace, after_register, after_register_all, destination, reserved,
    CapabilityRegistry, InvokePlan, Registered, TurnCapabilityScope,
};
use crate::capability::structured_output::StructuredOutputCapability;
use crate::hooks::egress::may_leave;
use crate::json;
use crate::json::{Fields, JsonTree};
use crate::table::KeyView;
use crate::text;
use crate::text::occurs;
use crate::types::{duplicate_extra, BastionError, LlmResponse, Message, ToolCall};

verus! {

/// Which tool a model must call.
#[derive(Debug, PartialEq)]
pub enum ToolChoice {
    /// The tool of this name.
    Forced(String),
}

/// What goes with a model call besides the conversation.
#[derive(Debug, PartialEq)]
pub struct CallConfig {
    pub system_prompt: String,
    pub max_tokens: u32,
    pub tools: Vec<serde_json::Value>,
    pub response_format: Option<serde_json::Value>,
    pub tool_choice: Option<ToolChoice>,
    /// The bits of a single-precision number.
    pub temperature_bits: Option<u32>,
}

/// Calls models, each by its handle.
pub trait Provider {
    /// What stands for a model.
    type Handle;

    /// Whether this may be said by the model, and what calls the models is like this afterwards.
    /// Who says nothing here promises nothing.
    open spec fn may_complete(
        &self,
        model: &Self::Handle,
        messages: &Vec<Message>,
        config: &CallConfig,
        said: Result<LlmResponse, BastionError>,
        after: &Self,
    ) -> bool {
        true
    }

    /// Asks the model, again where that is of use.
    fn complete(
        &mut self,
        model: &Self::Handle,
        messages: &Vec<Message>,
        config: &CallConfig,
    ) -> (r: Result<LlmResponse, BastionError>)
        ensures
            old(self).may_complete(model, messages, config, r, final(self)),
    ;
}

/// A model with the name of its provider, by which it is decided what data may go there.
#[derive(Debug)]
pub struct NamedProvider<H> {
    pub name: String,
    pub model: String,
    pub handle: H,
}

/// How long to wait after the failure of the call with this number, counted from zero: half a
/// second, and twice as long each time.
pub open spec fn wait_ms(attempt: nat) -> int {
    500 * pow2(attempt) as int
}

/// The error says that the request itself is at fault, so that asking again is no use.
pub open spec fn is_bad_request(error: Seq<char>) -> bool {
    occurs(error, "HTTP 400"@)
}

/// What to do about a failed call.
#[derive(Clone, Copy, Debug, PartialEq, Eq, Structural)]
pub enum RetryStep {
    /// Wait, and call again.
    Wait { ms: u128 },
    /// Return the error.
    GiveUp,
}

/// How often a call has failed so far.
#[derive(Debug)]
pub struct Retry {
    attempt: u32,
    max_retries: u32,
    delay_ms: u128,
}

impl Retry {
    /// The wait belongs to the number of the call.
    #[verifier::type_invariant]
    closed spec fn inv(self) -> bool {
        &&& self.attempt <= self.max_retries <= 64
        &&& self.delay_ms == wait_ms(self.attempt as nat)
    }

    /// How many calls have failed.
    pub closed spec fn failed(self) -> nat {
        self.attempt as nat
    }

    /// How many calls may follow the first.
    pub closed spec fn limit(self) -> nat {
        self.max_retries as nat
    }

    /// Before the first call. (With more retries than this the wait would not fit in a
    /// duration.)
    pub fn new(max_retries: u32) -> (r: Self)
        requires
            max_retries <= 64,
        ensures
            r.failed() == 0,
            r.limit() == max_retries,
    {
        proof {
            lemma2_to64();
        }
        Retry { attempt: 0, max_retries, delay_ms: 500 }
    }

    /// What to do after a call that failed with this error.
    pub fn after_failure(&mut self, error: &str) -> (r: RetryStep)
        ensures
            final(self).limit() == old(self).limit(),
            old(self).failed() <= old(self).limit(),
            if old(self).failed() < old(self).limit() && !is_bad_request(error@) {
                &&& r matches RetryStep::Wait { ms }
                &&& ms == wait_ms(old(self).failed())
                &&& final(self).failed() == old(self).failed() + 1
            } else {
                &&& r == RetryStep::GiveUp
                &&& final(self).failed() == old(self).failed()
            },
    {
        proof {
            use_type_invariant(&*self);
        }
        if self.attempt < self.max_retries {
            if text::contains(error, "HTTP 400") {
                return RetryStep::GiveUp;
            }
            let ms: u128 = self.delay_ms;
            proof {
                lemma_pow2_unfold((self.attempt + 1) as nat);
                lemma2_to64();
                if self.attempt < 63 {
                    lemma_pow2_strictly_increases((self.attempt + 1) as nat, 64);
                }
            }
            let next: Retry = Retry {
                attempt: self.attempt + 1,
                max_retries: self.max_retries,
                delay_ms: ms * 2,
            };
            *self = next;
            RetryStep::Wait { ms }
        } else {
            RetryStep::GiveUp
        }
    }
}

/// The waits between the calls of a request whose calls fail with these errors, one after the
/// other.
pub open spec fn waits(limit: nat, failed: nat, errors: Seq<Seq<char>>) -> Seq<int>
    decreases errors.len(),
{
    if errors.len() == 0 || failed >= limit || is_bad_request(errors[0]) {
        Seq::empty()
    } else {
        seq![wait_ms(failed)] + waits(limit, failed + 1, errors.drop_first())
    }
}

/// A request is called again at most so often as it may be, each time after twice the wait of
/// the time before, and never again after an error that says the request is at fault.
pub proof fn retries_are_bounded_and_spaced(limit: nat, failed: nat, errors: Seq<Seq<char>>)
    requires
        failed <= limit,
    ensures
        waits(limit, failed, errors).len() <= limit - failed,
        waits(limit, failed, errors).len() <= errors.len(),
        forall|i: int|
            #![trigger waits(limit, failed, errors)[i]]
            0 <= i < waits(limit, failed, errors).len() ==> {
                &&& waits(limit, failed, errors)[i] == wait_ms((failed + i) as nat)
                &&& !is_bad_request(errors[i])
            },
        forall|i: int|
            #![trigger waits(limit, failed, errors)[i]]
            0 < i < waits(limit, failed, errors).len() ==> waits(limit, failed, errors)[i] == 2
                * waits(limit, failed, errors)[i - 1],
    decreases errors.len(),
{
    if errors.len() == 0 || failed >= limit || is_bad_request(errors[0]) {
    } else {
        let rest = errors.drop_first();
        retries_are_bounded_and_spaced(limit, failed + 1, rest);
        let all = waits(limit, failed, errors);
        let later = waits(limit, failed + 1, rest);
        assert forall|i: int| 0 <= i < all.len() implies #[trigger] all[i] == wait_ms(
            (failed + i) as nat,
        ) && !is_bad_request(errors[i]) by {
            if i > 0 {
                assert(all[i] == later[i - 1]);
                assert(errors[i] == rest[i - 1]);
            }
        }
        assert forall|i: int| 0 < i < all.len() implies #[trigger] all[i] == 2 * all[i - 1] by {
            assert(all[i - 1] == wait_ms((failed + i - 1) as nat));
            lemma_pow2_unfold((failed + i) as nat);
        }
    }
}

/// The same request with these tools in place of its own.
pub fn with_tools(base: &CallConfig, tools: Vec<serde_json::Value>) -> (r: CallConfig)
    ensures
        r == (CallConfig { tools, ..*base }),
{
    CallConfig {
        system_prompt: base.system_prompt.clone(),
        max_tokens: base.max_tokens,
        tools,
        response_format: duplicate_extra(&base.response_format),
        tool_choice: match &base.tool_choice {
            Some(ToolChoice::Forced(name)) => Some(ToolChoice::Forced(name.clone())),
            None => None,
        },
        temperature_bits: base.temperature_bits,
    }
}

/// The name under which a model is made to give a structured answer.
pub const STRUCTURED_OUTPUT_TOOL: &'static str = "__structured_output";

/// The definition of the tool that the model must call.
pub open spec fn forced_tool_tree(schema: JsonTree) -> JsonTree {
    JsonTree::Object(
        Fields::empty().insert("name"@, JsonTree::Text(STRUCTURED_OUTPUT_TOOL@)).insert(
            "description"@,
            JsonTree::Text("Emit the structured response matching the required JSON schema"@),
        ).insert("input_schema"@, schema),
    )
}

/// The configuration of the call that forces the tool: that of the caller, with this tool and
/// no other, and no response format.
pub fn forced_config(base: &CallConfig, schema: &serde_json::Value) -> (r: CallConfig)
    ensures
        r.system_prompt == base.system_prompt,
        r.max_tokens == base.max_tokens,
        r.tools@.len() == 1,
        json::tree(r.tools@[0]) == forced_tool_tree(json::tree(*schema)),
        r.response_format is None,
        r.tool_choice matches Some(ToolChoice::Forced(name)) && name@ == STRUCTURED_OUTPUT_TOOL@,
        r.temperature_bits == base.temperature_bits,
{
    let mut fields = json::no_fields();
    json::set_field(&mut fields, "name", json::string(STRUCTURED_OUTPUT_TOOL));
    json::set_field(
        &mut fields,
        "description",
        json::string("Emit the structured response matching the required JSON schema"),
    );
    json::set_field(&mut fields, "input_schema", json::duplicate(schema));
    let mut tools: Vec<serde_json::Value> = Vec::new();
    tools.push(json::object(fields));
    CallConfig {
        system_prompt: base.system_prompt.clone(),
        max_tokens: base.max_tokens,
        tools,
        response_format: None,
        tool_choice: Some(ToolChoice::Forced(STRUCTURED_OUTPUT_TOOL.to_owned())),
        temperature_bits: base.temperature_bits,
    }
}

/// What came of a forced call.
#[derive(Debug)]
pub enum StructuredAnswer {
    /// The answer, as JSON text.
    Text(String),
    /// The name belongs to another capability: this is to be done with it and the arguments.
    Foreign { arguments: serde_json::Value, plan: InvokePlan },
}

/// The first tool call of a response.
pub open spec fn first_call(response: LlmResponse) -> Option<ToolCall> {
    match response.tool_calls {
        Some(calls) => if calls@.len() == 0 {
            None
        } else {
            Some(calls@[0])
        },
        None => None,
    }
}

/// The first tool call of a response.
fn take_first_call(response: LlmResponse) -> (r: Option<ToolCall>)
    ensures
        r == first_call(response),
{
    match response.tool_calls {
        Some(calls) => {
            let mut calls: Vec<ToolCall> = calls;
            if calls.len() == 0 {
                None
            } else {
                Some(calls.remove(0))
            }
        },
        None => None,
    }
}

/// The text of the answer that a model was made to give: the arguments of its first tool call,
/// after they went through the registry like those of any other call. The tool that the model
/// was made to call is registered for this alone, and afterwards the registry is as it was.
///
/// `response` is what the provider said to [`forced_config`], and `adapter` stands for the tool
/// in the registry; it is not run, for the result of the tool is its input.
pub fn complete_structured_via_forced_tool_call<C>(
    provider_name: &str,
    registry: &mut CapabilityRegistry<C>,
    adapter: C,
    ctx: &InvokeCtx,
    schema: serde_json::Value,
    response: Result<LlmResponse, BastionError>,
) -> (r: Result<StructuredAnswer, BastionError>)
    ensures
        final(registry)@ == old(registry)@,
        ({
            let key = KeyView::Text(STRUCTURED_OUTPUT_TOOL@);
            let caps = old(registry)@;
            match response {
                Err(e) => r == Err::<StructuredAnswer, BastionError>(e),
                Ok(response) => match first_call(response) {
                    None => {
                        &&& r matches Err(BastionError::Failed(m))
                        &&& m@ == provider_name@ + ": forced tool_choice returned no tool_calls"@
                    },
                    Some(call) => if !admits(
                        tool_set(ctx.allowed_tools),
                        STRUCTURED_OUTPUT_TOOL@,
                    ) {
                        &&& r matches Err(BastionError::ToolNotAllowed { capability })
                        &&& capability@ == STRUCTURED_OUTPUT_TOOL@
                    } else if !caps.contains_key(key) {
                        if may_leave(ctx.privacy_tier, destination(true)) {
                            &&& r matches Ok(StructuredAnswer::Text(text))
                            &&& text@ == json::printed(json::tree(call.arguments))
                        } else {
                            r == Err::<StructuredAnswer, BastionError>(
                                BastionError::PrivacyEgressBlocked,
                            )
                        }
                    } else {
                        let info = caps[key].info;
                        if may_leave(ctx.privacy_tier, destination(info.local)) {
                            r == Ok::<StructuredAnswer, BastionError>(
                                StructuredAnswer::Foreign {
                                    arguments: call.arguments,
                                    plan: if info.needs_approval {
                                        InvokePlan::AskApproval { trusted: info.trusted }
                                    } else {
                                        InvokePlan::Dispatch { trusted: info.trusted }
                                    },
                                },
                            )
                        } else {
                            r == Err::<StructuredAnswer, BastionError>(
                                BastionError::PrivacyEgressBlocked,
                            )
                        }
                    },
                },
            }
        }),
{
    let ghost caps = registry@;
    proof {
        lemma_name_is_not_reserved();
    }
    let own: bool = registry.get(STRUCTURED_OUTPUT_TOOL).is_none();
    let tool: StructuredOutputCapability = StructuredOutputCapability::new(
        STRUCTURED_OUTPUT_TOOL,
        schema,
    );
    let cap: Registered<C> = Registered { info: tool.into_info(), adapter };
    let ghost tool_cap = cap;
    let mut list: Vec<Registered<C>> = Vec::new();
    list.push(cap);
    let ghost listed = list@;
    let scope: TurnCapabilityScope<C> = TurnCapabilityScope::new(registry, list);
    proof {
        reveal_with_fuel(after_register_all, 2);
        assert(listed.drop_last() =~= Seq::<Registered<C>>::empty());
        assert(registry@ == after_register(caps, tool_cap));
    }
    let r: Result<StructuredAnswer, BastionError> = match response {
        Err(e) => Err(e),
        Ok(response) => match take_first_call(response) {
            None => Err(
                BastionError::Failed(
                    text::concat2(provider_name, ": forced tool_choice returned no tool_calls"),
                ),
            ),
            Some(call) => match registry.invoke(STRUCTURED_OUTPUT_TOOL, ctx) {
                Err(e) => Err(e),
                Ok(plan) => if own {
                    Ok(StructuredAnswer::Text(json::print(&call.arguments)))
                } else {
                    Ok(StructuredAnswer::Foreign { arguments: call.arguments, plan })
                },
            },
        },
    };
    scope.close(registry);
    proof {
        a_closed_scope_leaves_no_trace(caps, listed);
    }
    r
}

/// The tool's name is not one of the reserved ones.
proof fn lemma_name_is_not_reserved()
    ensures
        !reserved(STRUCTURED_OUTPUT_TOOL@),
{
    reveal_strlit("__structured_output");
    reveal_strlit("cmd:");
    if reserved(STRUCTURED_OUTPUT_TOOL@) {
        assert("__structured_output"@[0] == '_');
        assert("cmd:"@[0] == 'c');
    }
}

/// The first wait is half a second, and each is twice the one before it.
pub proof fn the_wait_doubles_from_half_a_second(attempt: nat)
    ensures
        wait_ms(0) == 500,
        wait_ms(attempt + 1) == 2 * wait_ms(attempt),
{
    lemma2_to64();
    lemma_pow2_unfold(attempt + 1);
}

/// A request is not given up early: where it is not called again although there was another error,
/// it has been called as often as it may be, or the error said that the request is at fault.
pub proof fn a_request_is_not_given_up_early(limit: nat, failed: nat, errors: Seq<Seq<char>>)
    requires
        failed <= limit,
    ensures
        ({
            let n = waits(limit, failed, errors).len() as int;
            n < errors.len() ==> n == limit - failed || occurs(errors[n], "HTTP 400"@)
        }),
    decreases errors.len(),
{
    if errors.len() == 0 || failed >= limit || is_bad_request(errors[0]) {
    } else {
        a_request_is_not_given_up_early(limit, failed + 1, errors.drop_first());
        let n = waits(limit, failed + 1, errors.drop_first()).len() as int;
        if n + 1 < errors.len() {
            assert(errors.drop_first()[n] == errors[n + 1]);
        }
    }
}

/// The tool that a model is made to call has the name under which its answer is looked for, and
/// asks for arguments of the schema that was given.
pub proof fn the_forced_tool_asks_for_the_schema(schema: JsonTree)
    ensures
        forced_tool_tree(schema) matches JsonTree::Object(fields) && {
            &&& fields.contains_key("name"@) && fields["name"@] == JsonTree::Text(
                "__structured_output"@,
            )
            &&& fields.contains_key("input_schema"@) && fields["input_schema"@] == schema
            &&& fields.contains_key("description"@) && fields["description"@] is Text
            &&& fields.dom() == set!["name"@, "description"@, "input_schema"@]
        },
{
    reveal_strlit("name");
    reveal_strlit("description");
    reveal_strlit("input_schema");
    assert("name"@[0] == 'n' && "description"@[0] == 'd' && "input_schema"@[0] == 'i');
    let fields = forced_tool_tree(schema)->Object_0;
    assert(fields.dom() =~= set!["name"@, "description"@, "input_schema"@]);
}

/// It is the first request of an answer that is looked at, where there is any.
pub proof fn the_first_request_is_taken(response: LlmResponse)
    ensures
        match first_call(response) {
            Some(call) => response.tool_calls is Some && response.tool_calls->0@.len() > 0 && call
                == response.tool_calls->0@[0],
            None => response.tool_calls is Some ==> response.tool_calls->0@.len() == 0,
        },
{
}

/// After an error that says `HTTP 400` a request is not called again, and nor is one that has been
/// called as often as it may be.
pub proof fn a_request_at_fault_is_not_called_again(
    limit: nat,
    failed: nat,
    errors: Seq<Seq<char>>,
    i: int,
)
    requires
        failed <= limit,
        0 <= i < errors.len(),
        occurs(errors[i], "HTTP 400"@) || i >= limit - failed,
    ensures
        waits(limit, failed, errors).len() <= i,
{
    retries_are_bounded_and_spaced(limit, failed, errors);
    let all = waits(limit, failed, errors);
    if all.len() > i {
        assert(all[i] == wait_ms((failed + i) as nat));
    }
}

/// A forced call is the caller's call with one tool, which the model must call, and without a
/// response format.
pub proof fn a_forced_call_leaves_one_choice(
    base: &CallConfig,
    schema: &serde_json::Value,
    r: CallConfig,
)
    requires
        call_ensures(forced_config, (base, schema), r),
    ensures
        r.system_prompt == base.system_prompt && r.max_tokens == base.max_tokens,
        r.temperature_bits == base.temperature_bits,
        r.tools@.len() == 1,
        r.response_format is None,
        r.tool_choice matches Some(ToolChoice::Forced(name)) && name@ == "__structured_output"@,
        json::tree(r.tools@[0]) matches JsonTree::Object(fields) && fields["input_schema"@]
            == json::tree(*schema) && fields["name"@] == JsonTree::Text("__structured_output"@),
{
    the_forced_tool_asks_for_the_schema(json::tree(*schema));
}

} // verus!
