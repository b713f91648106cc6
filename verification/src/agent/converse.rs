//! The tool rounds of a turn from the first answer of the model to the last one.
//!
//! Here the decisions of [`ToolLoop`] and [`ToolRound`] meet the registry, the approval queue
//! and the host: each request is dispatched, refused or skipped, each message is stored, and
//! the model is asked again as long as it may be.
use vstd::prelude::*;
use crate::agent::fallback::{fallback_config, FALLBACK_MAX_TOKENS};
use crate::agent::tool_loop::{
    a_denied_turn_says_what_was_denied, answers_call, denied_answer, fresh_round, framed, outcome_data, outcome_trusted, records_response,
    round_after, round_run, skipped_content, unanswered,
    untrusted_iff_some_result_was, CallOutcome, CallPlan, LoopStep, RoundEnd,
    RoundState, ToolLoop, ToolRound, MAX_TOOL_ROUNDS,
};
use crate::capability::approval::{action_hash, known_under, MemoryApprovalGate};
use crate::capability::authority::{admits, tool_set, InvokeCtx};
use crate::capability::dispatch::{cleared, invoked, may_run, within_reach, Dispatcher};
use crate::capability::registry::{
    a_quarantine_leaves_no_trace, ordered_names, Capabilities, CapabilityRegistry,
    TurnCapabilityScope,
};
use crate::hooks::egress::may_leave;
use crate::json;
use crate::json::JsonTree;
use crate::provider::{with_tools, CallConfig};
use crate::table::KeyView;
use crate::text;
use crate::types::{
    BastionError, ContentPart, LlmResponse, Message, MessageContent, PrivacyTier, Role, ToolCall,
};

verus! {

/// What the tool rounds of a turn need of the world outside.
///
/// What the host is asked to do changes it, and a host may say how; one that says nothing promises
/// nothing. What it is asked to tell leaves it as it is.
pub trait TurnHost {
    /// Whether storing a message may come to this, after which the host is like this.
    open spec fn may_store(
        &self,
        message: Message,
        output_tokens: Option<u32>,
        said: Result<(), BastionError>,
        after: &Self,
    ) -> bool {
        true
    }

    /// Whether one call of a tool may come to this, after which the host is like this.
    open spec fn may_call(
        &self,
        name: Seq<char>,
        args: serde_json::Value,
        owner: Seq<char>,
        tier: Option<PrivacyTier>,
        said: Result<serde_json::Value, BastionError>,
        after: &Self,
    ) -> bool {
        true
    }

    /// Whether the host may be like this after a result was shown.
    open spec fn may_show(&self, data: JsonTree, after: &Self) -> bool {
        true
    }

    /// Whether the model may say this to one call, after which the host is like this.
    open spec fn may_answer(
        &self,
        provider: Seq<char>,
        tier: Option<PrivacyTier>,
        history: Seq<Message>,
        config: CallConfig,
        quarantine: bool,
        said: Result<LlmResponse, BastionError>,
        after: &Self,
    ) -> bool {
        true
    }

    /// The provider that is asked at the moment.
    fn provider_name(&self) -> String;

    /// Whether there is something left of the daily budget.
    fn within_budget(&self) -> Result<bool, BastionError>;

    /// The time.
    fn now_nanos(&self) -> i64;

    /// Stores a message of the conversation, with the tokens that the model wrote for it.
    fn append(&mut self, message: &Message, output_tokens: Option<u32>) -> (r: Result<
        (),
        BastionError,
    >)
        ensures
            old(self).may_store(*message, output_tokens, r, final(self)),
    ;

    /// Calls a tool outside the registry, which is among those that may be used.
    fn call_tool(
        &mut self,
        name: &str,
        args: &serde_json::Value,
        owner: &str,
        tier: Option<PrivacyTier>,
        allowed_tools: &Option<Vec<String>>,
    ) -> (r: Result<serde_json::Value, BastionError>)
        requires
            admits(tool_set(*allowed_tools), name@),
        ensures
            old(self).may_call(name@, *args, owner@, tier, r, final(self)),
    ;

    /// Shows the result of a tool to whoever watches.
    fn observe(&mut self, result: &serde_json::Value)
        ensures
            old(self).may_show(json::tree(*result), final(self)),
    ;

    /// Asks the model of this provider, and pays for it. The conversation may go there, and in
    /// quarantine the model is shown no tool.
    fn complete(
        &mut self,
        provider: &str,
        tier: Option<PrivacyTier>,
        history: &Vec<Message>,
        config: &CallConfig,
        quarantine: bool,
    ) -> (r: Result<LlmResponse, BastionError>)
        requires
            may_leave(tier, provider@),
            quarantine ==> config.tools@.len() == 0,
        ensures
            old(self).may_answer(provider@, tier, history@, *config, quarantine, r, final(self)),
    ;
}

/// For whom the requests of a turn are dispatched, with data of which tier, and which tools the
/// persona may use.
pub struct TurnScope {
    tier: Option<PrivacyTier>,
    ctx: InvokeCtx,
}

impl TurnScope {
    /// The tier of the turn's data.
    pub closed spec fn tier(self) -> Option<PrivacyTier> {
        self.tier
    }

    /// What the registry is told.
    pub closed spec fn ctx(self) -> InvokeCtx {
        self.ctx
    }

    /// Data without a tier counts as host-only where the registry is asked.
    pub fn new(
        owner: String,
        tier: Option<PrivacyTier>,
        allowed_tools: Option<Vec<String>>,
    ) -> (r: Self)
        ensures
            r.tier() == tier,
            r.ctx() == (InvokeCtx {
                owner,
                privacy_tier: Some(tier.unwrap_or(PrivacyTier::LocalOnly)),
                allowed_tools,
            }),
    {
        let used: PrivacyTier = tier.unwrap_or(PrivacyTier::LocalOnly);
        TurnScope { tier, ctx: InvokeCtx { owner, privacy_tier: Some(used), allowed_tools } }
    }
}

/// The first list is the beginning of the second.
pub open spec fn continues(before: Seq<Message>, after: Seq<Message>) -> bool {
    before.len() <= after.len() && after.take(before.len() as int) == before
}

/// How many of the messages are the model's.
pub open spec fn said_by_model(messages: Seq<Message>) -> nat
    decreases messages.len(),
{
    if messages.len() == 0 {
        0
    } else {
        said_by_model(messages.drop_last()) + if messages.last().role == Role::Assistant {
            1nat
        } else {
            0nat
        }
    }
}

/// The request of a round that is to be answered next.
pub open spec fn request(round: ToolRound) -> ToolCall {
    round.calls()[round.state().answered as int]
}

/// What a request is answered with, where the round has come so far.
pub open spec fn content_of(call: ToolCall, state: RoundState, outcome: CallOutcome) -> Seq<char> {
    match state.denied {
        Some(denied) => skipped_content(denied),
        None => framed(call.name@, outcome_data(outcome), outcome_trusted(outcome)),
    }
}

/// The next request of a round was answered: by the stand-in of a skipped request where the
/// owner's denial has ended the turn, else by what its outcome puts before the model.
pub open spec fn answered_by(before: ToolRound, outcome: CallOutcome, after: ToolRound) -> bool {
    let call = request(before);
    &&& after.same_round(before)
    &&& after.state() == round_after(before.state(), outcome)
    &&& after.history().len() == before.history().len() + 1
    &&& after.history().drop_last() == before.history()
    &&& answers_call(after.history().last(), call.id, content_of(call, before.state(), outcome))
}

/// What the requests of a turn work on, at one moment: the desk at which they are worked on, and
/// the host.
pub struct Stage<W, H> {
    pub work: W,
    pub host: H,
}

/// The desk of the registry: the queue for approvals, and what runs capabilities.
pub struct Desk<D> {
    pub queue: MemoryApprovalGate,
    pub runner: D,
}

/// The host was asked once to store the message, said this, and nothing else happened.
pub open spec fn put_down<W, H: TurnHost>(
    before: Stage<W, H>,
    message: Message,
    output_tokens: Option<u32>,
    said: Result<(), BastionError>,
    after: Stage<W, H>,
) -> bool {
    &&& after.work == before.work
    &&& before.host.may_store(message, output_tokens, said, &after.host)
}

/// A request was handled by the registry and had this outcome, and whoever watches was shown it
/// once. The registry is asked where it holds anything; else the tool source is asked once for what
/// the persona may use, and anything else is refused and runs nowhere. Only the registry works at
/// the desk.
#[verifier::opaque]
pub open spec fn handled<C, D: Dispatcher, H: TurnHost>(
    outcome: CallOutcome,
    caps: Capabilities<C>,
    scope: TurnScope,
    call: ToolCall,
    before: Stage<Desk<D>, H>,
    after: Stage<Desk<D>, H>,
) -> bool {
    let bare = caps == Capabilities::<C>::empty();
    let admitted = admits(tool_set(scope.ctx().allowed_tools), call.name@);
    let data = outcome_data(outcome);
    match outcome {
        CallOutcome::Capability(result) => {
            &&& !bare
            &&& before.host.may_show(data, &after.host)
            &&& exists|now: i64|
                {
                    &&& #[trigger] call_ensures(H::now_nanos, (&before.host,), now)
                    &&& invoked::<C, D>(
                        caps,
                        call.name@,
                        call.arguments,
                        scope.ctx(),
                        now,
                        before.work.queue,
                        before.work.runner,
                        after.work.queue,
                        after.work.runner,
                        result,
                    )
                }
        },
        CallOutcome::Tool(said) => bare && admitted && called(
            said,
            call,
            scope.ctx().owner@,
            scope.tier(),
            before,
            after,
        ),
        CallOutcome::Refused(e) => {
            &&& bare
            &&& !admitted
            &&& after.work == before.work
            &&& before.host.may_show(data, &after.host)
            &&& e matches BastionError::ToolNotAllowed { capability }
            &&& capability@ == call.name@
        },
    }
}

/// The tool source was asked once for this request and said this, and whoever watches was shown it
/// once.
pub open spec fn called<W, H: TurnHost>(
    said: Result<serde_json::Value, BastionError>,
    call: ToolCall,
    owner: Seq<char>,
    tier: Option<PrivacyTier>,
    before: Stage<W, H>,
    after: Stage<W, H>,
) -> bool {
    &&& after.work == before.work
    &&& exists|between: H|
        {
            &&& #[trigger] before.host.may_call(
                call.name@,
                call.arguments,
                owner,
                tier,
                said,
                &between,
            )
            &&& between.may_show(outcome_data(CallOutcome::Tool(said)), &after.host)
        }
}

/// How requests are handled by the registry.
pub open spec fn by_registry<C, D: Dispatcher, H: TurnHost>(
    caps: Capabilities<C>,
    scope: TurnScope,
) -> spec_fn(CallOutcome, ToolCall, Stage<Desk<D>, H>, Stage<Desk<D>, H>) -> bool {
    |
        outcome: CallOutcome,
        call: ToolCall,
        before: Stage<Desk<D>, H>,
        after: Stage<Desk<D>, H>,
    |
        handled::<C, D, H>(outcome, caps, scope, call, before, after)
}

/// How requests are handled by the tool source alone.
pub open spec fn by_tools<H: TurnHost>(owner: Seq<char>, tier: Option<PrivacyTier>) -> spec_fn(
    CallOutcome,
    ToolCall,
    Stage<(), H>,
    Stage<(), H>,
) -> bool {
    |outcome: CallOutcome, call: ToolCall, before: Stage<(), H>, after: Stage<(), H>|
        outcome matches CallOutcome::Tool(said) && called(said, call, owner, tier, before, after)
}

/// A request was dealt with where the round has come so far: it was handled and had this outcome,
/// or it was skipped behind a denial; then its answer was given to the host to store, who said this.
#[verifier::opaque]
pub open spec fn dealt_with<W, H: TurnHost>(
    how: spec_fn(CallOutcome, ToolCall, Stage<W, H>, Stage<W, H>) -> bool,
    call: ToolCall,
    state: RoundState,
    outcome: CallOutcome,
    before: Stage<W, H>,
    answer: Message,
    said: Result<(), BastionError>,
    after: Stage<W, H>,
) -> bool {
    &&& answers_call(answer, call.id, content_of(call, state, outcome))
    &&& exists|between: Stage<W, H>|
        {
            &&& #[trigger] put_down(between, answer, None, said, after)
            &&& if state.denied is None {
                how(outcome, call, before, between)
            } else {
                between == before
            }
        }
}

/// What storing came to, where this is what came of it.
pub open spec fn storing<T>(r: Result<T, BastionError>) -> Result<(), BastionError> {
    match r {
        Ok(_) => Ok(()),
        Err(e) => Err(e),
    }
}

/// Answers the next request of a round and stores the answer. Behind a denial, and for what may
/// not run, no capability is run. It fails only where the answer cannot be stored.
pub fn answer_next<C, D: Dispatcher, H: TurnHost>(
    registry: &CapabilityRegistry<C>,
    gate: &mut MemoryApprovalGate,
    dispatcher: &mut D,
    host: &mut H,
    round: ToolRound,
    scope: &TurnScope,
) -> (r: Result<ToolRound, BastionError>)
    requires
        round.state().answered < round.calls().len(),
    ensures
        round.state().denied is Some || !may_run(
            registry@,
            request(round).name@,
            json::tree(request(round).arguments),
            scope.ctx(),
            old(gate).rows(),
        ) ==> *final(dispatcher) == *old(dispatcher),
        exists|outcome: CallOutcome, next: ToolRound|
            {
                &&& #[trigger] answered_by(round, outcome, next)
                &&& dealt_with(
                    by_registry::<C, D, H>(registry@, *scope),
                    request(round),
                    round.state(),
                    outcome,
                    Stage {
                        work: Desk { queue: *old(gate), runner: *old(dispatcher) },
                        host: *old(host),
                    },
                    next.history().last(),
                    storing(r),
                    Stage {
                        work: Desk { queue: *final(gate), runner: *final(dispatcher) },
                        host: *final(host),
                    },
                )
                &&& r matches Ok(given) ==> given == next
            },
{
    reveal(handled);
    reveal(dealt_with);
    let ghost before = Stage {
        work: Desk { queue: *gate, runner: *dispatcher },
        host: *host,
    };
    let plan: CallPlan = round.plan(registry.is_empty(), scope.tier, &scope.ctx.allowed_tools);
    let outcome: CallOutcome = match plan {
        CallPlan::Skip => {
            let next: ToolRound = round.skip();
            let said: Result<(), BastionError> = store_last(host, next.messages(), None);
            proof {
                let skipped = CallOutcome::Refused(BastionError::ToolLoopCap);
                let after = Stage {
                    work: Desk { queue: *gate, runner: *dispatcher },
                    host: *host,
                };
                assert(put_down(before, next.history().last(), None, said, after));
                assert(answered_by(round, skipped, next));
                assert(dealt_with(
                    by_registry::<C, D, H>(registry@, *scope),
                    request(round),
                    round.state(),
                    skipped,
                    before,
                    next.history().last(),
                    said,
                    after,
                ));
            }
            let ghost kept = said;
            let r: Result<ToolRound, BastionError> = match said {
                Ok(_) => Ok(next),
                Err(e) => Err(e),
            };
            assert(storing(r) == kept);
            return r;
        },
        CallPlan::Refuse(e) => CallOutcome::Refused(e),
        CallPlan::Invoke { tier } => {
            let now: i64 = host.now_nanos();
            assert(call_ensures(H::now_nanos, (&before.host,), now));
            match round.next_call() {
                Some(call) => CallOutcome::Capability(
                    registry.invoke_over(
                        gate,
                        dispatcher,
                        call.name.as_str(),
                        &call.arguments,
                        &scope.ctx,
                        now,
                    ),
                ),
                None => CallOutcome::Refused(BastionError::ToolLoopCap),
            }
        },
        CallPlan::CallTool => match round.next_call() {
            Some(call) => {
                let said: Result<serde_json::Value, BastionError> = host.call_tool(
                    call.name.as_str(),
                    &call.arguments,
                    scope.ctx.owner.as_str(),
                    scope.tier,
                    &scope.ctx.allowed_tools,
                );
                assert(before.host.may_call(
                    call.name@,
                    call.arguments,
                    scope.ctx().owner@,
                    scope.tier(),
                    said,
                    host,
                ));
                CallOutcome::Tool(said)
            },
            None => CallOutcome::Refused(BastionError::ToolLoopCap),
        },
    };
    let ghost came = outcome;
    let (next, result) = round.record(outcome);
    host.observe(&result);
    let ghost between = Stage {
        work: Desk { queue: *gate, runner: *dispatcher },
        host: *host,
    };
    assert(answered_by(round, came, next));
    assert(by_registry::<C, D, H>(registry@, *scope)(came, request(round), before, between));
    let said: Result<(), BastionError> = store_last(host, next.messages(), None);
    proof {
        let after = Stage { work: Desk { queue: *gate, runner: *dispatcher }, host: *host };
        assert(put_down(between, next.history().last(), None, said, after));
        assert(dealt_with(
            by_registry::<C, D, H>(registry@, *scope),
            request(round),
            round.state(),
            came,
            before,
            next.history().last(),
            said,
            after,
        ));
    }
    let ghost kept = said;
    let r: Result<ToolRound, BastionError> = match said {
        Ok(_) => Ok(next),
        Err(e) => Err(e),
    };
    assert(storing(r) == kept);
    r
}

/// Stores the last message of a conversation.
fn store_last<H: TurnHost>(
    host: &mut H,
    messages: &Vec<Message>,
    output_tokens: Option<u32>,
) -> (r: Result<(), BastionError>)
    requires
        messages@.len() > 0,
    ensures
        old(host).may_store(messages@.last(), output_tokens, r, final(host)),
        r is Ok ==> r == Ok::<(), BastionError>(()),
{
    let r: Result<(), BastionError> = host.append(&messages[messages.len() - 1], output_tokens);
    match r {
        Ok(nothing) => {
            assert(nothing == ());
        },
        Err(_) => {},
    }
    r
}

/// The messages that were added have no message of the model among them.
proof fn lemma_tool_message(before: Seq<Message>, after: Seq<Message>, start: int)
    requires
        0 <= start <= before.len(),
        after.len() == before.len() + 1,
        after.drop_last() == before,
        after.last().role == Role::Tool,
    ensures
        said_by_model(after.skip(start)) == said_by_model(before.skip(start)),
        continues(before, after),
{
    assert(after.skip(start).drop_last() =~= before.skip(start));
    assert(after.take(before.len() as int) =~= after.drop_last());
}

/// One more message of the model.
proof fn lemma_model_message(before: Seq<Message>, after: Seq<Message>, start: int)
    requires
        0 <= start <= before.len(),
        after.len() == before.len() + 1,
        after.drop_last() == before,
        after.last().role == Role::Assistant,
    ensures
        said_by_model(after.skip(start)) == said_by_model(before.skip(start)) + 1,
        continues(before, after),
{
    assert(after.skip(start).drop_last() =~= before.skip(start));
    assert(after.take(before.len() as int) =~= after.drop_last());
}

/// What continues a continuation continues the beginning.
proof fn lemma_continues(a: Seq<Message>, b: Seq<Message>, c: Seq<Message>)
    requires
        continues(a, b),
        continues(b, c),
    ensures
        continues(a, c),
{
    assert(c.take(a.len() as int) =~= c.take(b.len() as int).take(a.len() as int));
}

/// This request of a round was dealt with, and its answer was stored.
#[verifier::opaque]
pub open spec fn request_done<W, H: TurnHost>(
    how: spec_fn(CallOutcome, ToolCall, Stage<W, H>, Stage<W, H>) -> bool,
    calls: Seq<ToolCall>,
    outcomes: Seq<CallOutcome>,
    answers: Seq<Message>,
    stages: Seq<Stage<W, H>>,
    i: int,
) -> bool {
    dealt_with(
        how,
        calls[i],
        round_run(outcomes, i as nat),
        outcomes[i],
        stages[i],
        answers[i],
        Ok(()),
        stages[i + 1],
    )
}

/// The first requests of a round were dealt with in their order, each with its outcome, and their
/// answers were stored, one after the other. `stages` are before each request and behind the last.
pub open spec fn requests_done<W, H: TurnHost>(
    how: spec_fn(CallOutcome, ToolCall, Stage<W, H>, Stage<W, H>) -> bool,
    calls: Seq<ToolCall>,
    outcomes: Seq<CallOutcome>,
    answers: Seq<Message>,
    stages: Seq<Stage<W, H>>,
) -> bool {
    &&& outcomes.len() <= calls.len()
    &&& answers.len() == outcomes.len()
    &&& stages.len() == outcomes.len() + 1
    &&& forall|i: int|
        0 <= i < outcomes.len() ==> #[trigger] request_done(
            how,
            calls,
            outcomes,
            answers,
            stages,
            i,
        )
}

/// The next request of a round was dealt with, and its answer could not be stored, for this reason.
pub open spec fn cut_short<W, H: TurnHost>(
    how: spec_fn(CallOutcome, ToolCall, Stage<W, H>, Stage<W, H>) -> bool,
    calls: Seq<ToolCall>,
    outcomes: Seq<CallOutcome>,
    before: Stage<W, H>,
    why: BastionError,
    after: Stage<W, H>,
) -> bool {
    let n = outcomes.len() as int;
    &&& n < calls.len()
    &&& exists|outcome: CallOutcome, answer: Message| #[trigger]
        dealt_with(
            how,
            calls[n],
            round_run(outcomes, n as nat),
            outcome,
            before,
            answer,
            Err(why),
            after,
        )
}

/// One more request of a round was dealt with.
proof fn lemma_one_more_request<W, H: TurnHost>(
    how: spec_fn(CallOutcome, ToolCall, Stage<W, H>, Stage<W, H>) -> bool,
    calls: Seq<ToolCall>,
    outcomes: Seq<CallOutcome>,
    answers: Seq<Message>,
    stages: Seq<Stage<W, H>>,
    outcome: CallOutcome,
    answer: Message,
    after: Stage<W, H>,
)
    requires
        requests_done(how, calls, outcomes, answers, stages),
        outcomes.len() < calls.len(),
        dealt_with(
            how,
            calls[outcomes.len() as int],
            round_run(outcomes, outcomes.len()),
            outcome,
            stages.last(),
            answer,
            Ok(()),
            after,
        ),
    ensures
        requests_done(
            how,
            calls,
            outcomes.push(outcome),
            answers.push(answer),
            stages.push(after),
        ),
        round_run(outcomes.push(outcome), outcomes.len() + 1) == round_after(
            round_run(outcomes, outcomes.len()),
            outcome,
        ),
{
    let more = outcomes.push(outcome);
    let said = answers.push(answer);
    let then = stages.push(after);
    lemma_same_run(outcomes, more, outcomes.len());
    assert(more[more.len() - 1] == outcome);
    assert forall|i: int| 0 <= i < more.len() implies #[trigger] request_done(
        how,
        calls,
        more,
        said,
        then,
        i,
    ) by {
        reveal(request_done);
        if i < outcomes.len() {
            lemma_same_run(outcomes, more, i as nat);
            assert(request_done(how, calls, outcomes, answers, stages, i));
            assert(more[i] == outcomes[i] && said[i] == answers[i]);
            assert(then[i] == stages[i] && then[i + 1] == stages[i + 1]);
        } else {
            assert(then[i] == stages.last());
        }
    }
}

/// Answers every request of a round, one after the other, and stores the answers. It fails only
/// where an answer cannot be stored.
pub fn answer_calls<C, D: Dispatcher, H: TurnHost>(
    registry: &CapabilityRegistry<C>,
    gate: &mut MemoryApprovalGate,
    dispatcher: &mut D,
    host: &mut H,
    round: ToolRound,
    scope: &TurnScope,
) -> (r: Result<ToolRound, BastionError>)
    requires
        round.state() == fresh_round(),
    ensures
        exists|
            outcomes: Seq<CallOutcome>,
            answers: Seq<Message>,
            stages: Seq<Stage<Desk<D>, H>>,
        |
            {
                &&& #[trigger] requests_done(
                    by_registry::<C, D, H>(registry@, *scope),
                    round.calls(),
                    outcomes,
                    answers,
                    stages,
                )
                &&& stages.first() == (Stage {
                    work: Desk { queue: *old(gate), runner: *old(dispatcher) },
                    host: *old(host),
                })
                &&& match r {
                    Ok(done) => {
                        &&& done.same_round(round)
                        &&& outcomes.len() == round.calls().len()
                        &&& done.state() == round_run(outcomes, outcomes.len())
                        &&& done.state().answered == outcomes.len()
                        &&& done.history() == round.history() + answers
                        &&& done.start() <= round.history().len() ==> said_by_model(done.added())
                            == said_by_model(round.added())
                        &&& stages.last() == (Stage {
                            work: Desk { queue: *final(gate), runner: *final(dispatcher) },
                            host: *final(host),
                        })
                    },
                    Err(why) => cut_short(
                        by_registry::<C, D, H>(registry@, *scope),
                        round.calls(),
                        outcomes,
                        stages.last(),
                        why,
                        Stage {
                            work: Desk { queue: *final(gate), runner: *final(dispatcher) },
                            host: *final(host),
                        },
                    ),
                }
            },
{
    let ghost first = round;
    let ghost how = by_registry::<C, D, H>(registry@, *scope);
    let ghost mut outcomes: Seq<CallOutcome> = Seq::empty();
    let ghost mut answers: Seq<Message> = Seq::empty();
    let ghost mut stages: Seq<Stage<Desk<D>, H>> = seq![
        Stage { work: Desk { queue: *gate, runner: *dispatcher }, host: *host },
    ];
    assert(first.history() + answers =~= first.history());
    let mut current: ToolRound = round;
    loop
        invariant
            first == round,
            how == by_registry::<C, D, H>(registry@, *scope),
            current.same_round(first),
            requests_done(how, first.calls(), outcomes, answers, stages),
            current.state() == round_run(outcomes, outcomes.len()),
            current.state().answered == outcomes.len(),
            current.history() == first.history() + answers,
            stages.first() == (Stage {
                work: Desk { queue: *old(gate), runner: *old(dispatcher) },
                host: *old(host),
            }),
            stages.last() == (Stage {
                work: Desk { queue: *gate, runner: *dispatcher },
                host: *host,
            }),
            first.start() <= first.history().len() ==> said_by_model(current.added())
                == said_by_model(first.added()),
        decreases first.calls().len() - outcomes.len(),
    {
        if current.next_call().is_none() {
            return Ok(current);
        }
        let ghost before = current;
        let ghost stage = stages.last();
        let answered: Result<ToolRound, BastionError> = answer_next(
            registry,
            gate,
            dispatcher,
            host,
            current,
            scope,
        );
        let ghost reached = Stage {
            work: Desk { queue: *gate, runner: *dispatcher },
            host: *host,
        };
        let ghost (outcome, after) = choose|outcome: CallOutcome, next: ToolRound|
            {
                &&& #[trigger] answered_by(before, outcome, next)
                &&& dealt_with(
                    how,
                    request(before),
                    before.state(),
                    outcome,
                    stage,
                    next.history().last(),
                    storing(answered),
                    reached,
                )
                &&& answered matches Ok(given) ==> given == next
            };
        assert(request(before) == first.calls()[outcomes.len() as int]);
        match answered {
            Err(e) => {
                assert(dealt_with(
                    how,
                    first.calls()[outcomes.len() as int],
                    round_run(outcomes, outcomes.len()),
                    outcome,
                    stages.last(),
                    after.history().last(),
                    Err(e),
                    reached,
                ));
                assert(cut_short(how, first.calls(), outcomes, stages.last(), e, reached));
                return Err(e);
            },
            Ok(next) => {
                proof {
                    lemma_one_more_request(
                        how,
                        first.calls(),
                        outcomes,
                        answers,
                        stages,
                        outcome,
                        next.history().last(),
                        reached,
                    );
                    lemma_added(before.history(), next.history(), first.history(), answers);
                    if first.start() <= first.history().len() {
                        lemma_tool_message(
                            before.history(),
                            next.history(),
                            first.start() as int,
                        );
                    }
                    outcomes = outcomes.push(outcome);
                    answers = answers.push(next.history().last());
                    stages = stages.push(reached);
                }
                current = next;
            },
        }
    }
}

/// One more message at the end.
proof fn lemma_added(
    before: Seq<Message>,
    after: Seq<Message>,
    first: Seq<Message>,
    added: Seq<Message>,
)
    requires
        before == first + added,
        after.len() == before.len() + 1,
        after.drop_last() == before,
    ensures
        after == first + added.push(after.last()),
{
    assert(after =~= before.push(after.last()));
    assert(before.push(after.last()) =~= first + added.push(after.last()));
}

/// A run depends on its outcomes alone.
proof fn lemma_same_run(a: Seq<CallOutcome>, b: Seq<CallOutcome>, n: nat)
    requires
        n <= a.len() <= b.len(),
        forall|i: int| 0 <= i < n ==> a[i] == b[i],
    ensures
        round_run(a, n) == round_run(b, n),
    decreases n,
{
    if n > 0 {
        lemma_same_run(a, b, (n - 1) as nat);
    }
}

/// Whether there is something left of the daily budget, where that is to be looked at.
fn budget_left<H: TurnHost>(host: &H, asked: bool) -> (r: Result<bool, BastionError>)
    ensures
        if asked {
            call_ensures(H::within_budget, (host,), r)
        } else {
            r == Ok::<bool, BastionError>(true)
        },
{
    if asked {
        host.within_budget()
    } else {
        Ok(true)
    }
}

/// The model was asked once and said this: as it is configured, or in quarantine with no tool at
/// all.
pub open spec fn model_asked<H: TurnHost>(
    before: H,
    provider: Seq<char>,
    tier: Option<PrivacyTier>,
    history: Seq<Message>,
    config: CallConfig,
    quarantine: bool,
    said: Result<LlmResponse, BastionError>,
    after: H,
) -> bool {
    exists|used: CallConfig|
        {
            &&& #[trigger] before.may_answer(
                provider,
                tier,
                history,
                used,
                quarantine,
                said,
                &after,
            )
            &&& used == if quarantine {
                CallConfig { tools: used.tools, ..config }
            } else {
                config
            }
            &&& quarantine ==> used.tools@.len() == 0
        }
}

/// Asks the model again. In quarantine it is shown no capability at all; afterwards the registry
/// is as it was, whether the model answered or not.
pub fn ask_again<C, H: TurnHost>(
    registry: &mut CapabilityRegistry<C>,
    host: &mut H,
    provider: &str,
    tier: Option<PrivacyTier>,
    history: &Vec<Message>,
    config: &CallConfig,
    quarantine: bool,
) -> (r: Result<LlmResponse, BastionError>)
    requires
        may_leave(tier, provider@),
    ensures
        final(registry)@ == old(registry)@,
        !quarantine ==> *final(registry) == *old(registry),
        model_asked(
            *old(host),
            provider@,
            tier,
            history@,
            *config,
            quarantine,
            r,
            *final(host),
        ),
{
    if !quarantine {
        let answer: Result<LlmResponse, BastionError> = host.complete(
            provider,
            tier,
            history,
            config,
            false,
        );
        assert(old(host).may_answer(provider@, tier, history@, *config, false, answer, host));
        return answer;
    }
    let scope: TurnCapabilityScope<C> = TurnCapabilityScope::quarantine(registry);
    let tools: Vec<serde_json::Value> = registry.list_tool_defs();
    proof {
        let names = choose|names: Seq<Seq<char>>| #[trigger]
            ordered_names(registry@, names) && names.len() == tools@.len();
        if names.len() > 0 {
            assert(names.contains(names[0]));
            assert(registry@.contains_key(KeyView::Text(names[0])));
        }
        a_quarantine_leaves_no_trace(scope.taken());
    }
    let bare: CallConfig = with_tools(config, tools);
    let answer: Result<LlmResponse, BastionError> = host.complete(
        provider,
        tier,
        history,
        &bare,
        true,
    );
    assert(old(host).may_answer(provider@, tier, history@, bare, true, answer, host));
    scope.close(registry);
    answer
}

/// How the tool rounds of a turn ended.
#[derive(Debug)]
pub struct ToolLoopEnd {
    /// The answer of the turn.
    pub text: String,
    /// The conversation with everything that was said in the turn.
    pub history: Vec<Message>,
}

/// What the tool rounds of a turn set out from.
#[verifier::reject_recursive_types(W)]
#[verifier::reject_recursive_types(H)]
pub struct Talk<W, H> {
    pub stage: Stage<W, H>,
    pub tier: Option<PrivacyTier>,
    pub config: CallConfig,
    /// The conversation before the turn.
    pub first: Seq<Message>,
    /// What the model has said already.
    pub initial: Option<LlmResponse>,
    /// Whether the model is asked in quarantine behind untrusted results.
    pub guarded: bool,
    /// How a request is handled.
    pub how: spec_fn(CallOutcome, ToolCall, Stage<W, H>, Stage<W, H>) -> bool,
}

/// A round of tools: what the model said, and what became of its requests.
pub struct Round<W, H> {
    /// The conversation before.
    pub before: Seq<Message>,
    /// Where the model had spoken.
    pub start: Stage<W, H>,
    pub response: LlmResponse,
    /// The message that records what the model said.
    pub said: Message,
    pub outcomes: Seq<CallOutcome>,
    /// The messages that answer the requests.
    pub answers: Seq<Message>,
    /// Before each request and behind the last.
    pub stages: Seq<Stage<W, H>>,
}

/// The requests of an answer.
pub open spec fn calls_of(response: LlmResponse) -> Seq<ToolCall> {
    match response.tool_calls {
        Some(calls) => calls@,
        None => Seq::empty(),
    }
}

/// How a round stood when its requests were answered.
pub open spec fn end_of<W, H>(round: Round<W, H>) -> RoundState {
    round_run(round.outcomes, round.outcomes.len())
}

/// The conversation after a round: what the model said, and then the answers, were added.
pub open spec fn after_round<W, H>(round: Round<W, H>) -> Seq<Message> {
    round.before.push(round.said) + round.answers
}

/// The message records what the model said, and was given to the host to store with the tokens of
/// that, who said this.
pub open spec fn recorded<W, H: TurnHost>(
    before: Stage<W, H>,
    message: Message,
    response: LlmResponse,
    said: Result<(), BastionError>,
    after: Stage<W, H>,
) -> bool {
    &&& records_response(message, response)
    &&& put_down(before, message, Some(response.usage.output_tokens), said, after)
}

/// What the model said was stored, and so were the answers to its first requests, each when its
/// request was dealt with.
pub open spec fn round_begun<W, H: TurnHost>(
    how: spec_fn(CallOutcome, ToolCall, Stage<W, H>, Stage<W, H>) -> bool,
    round: Round<W, H>,
) -> bool {
    &&& round.response.tool_calls is Some
    &&& recorded(round.start, round.said, round.response, Ok(()), round.stages.first())
    &&& requests_done(
        how,
        calls_of(round.response),
        round.outcomes,
        round.answers,
        round.stages,
    )
}

/// The conversation after some rounds.
pub open spec fn history_after<W, H>(first: Seq<Message>, rounds: Seq<Round<W, H>>) -> Seq<
    Message,
> {
    if rounds.len() == 0 {
        first
    } else {
        after_round(rounds.last())
    }
}

/// Where some rounds have led.
pub open spec fn stage_after<W, H>(stage: Stage<W, H>, rounds: Seq<Round<W, H>>) -> Stage<W, H> {
    if rounds.len() == 0 {
        stage
    } else {
        rounds.last().stages.last()
    }
}

/// No denial has ended the turn.
pub open spec fn open_end<W, H>(rounds: Seq<Round<W, H>>) -> bool {
    rounds.len() > 0 ==> end_of(rounds.last()).denied is None
}

/// The model is to be asked in quarantine: something untrusted came back in the last round.
pub open spec fn quarantined<W, H>(guarded: bool, rounds: Seq<Round<W, H>>) -> bool {
    guarded && rounds.len() > 0 && end_of(rounds.last()).untrusted
}

/// The model of the provider that is asked at the moment was asked once with exactly the
/// conversation after these rounds, which may go there, within the budget, and said this.
pub open spec fn model_gave<W, H: TurnHost>(
    talk: Talk<W, H>,
    rounds: Seq<Round<W, H>>,
    said: Result<LlmResponse, BastionError>,
    after: Stage<W, H>,
) -> bool {
    let before = stage_after(talk.stage, rounds);
    &&& after.work == before.work
    &&& exists|provider: String|
        {
            &&& #[trigger] call_ensures(H::provider_name, (&before.host,), provider)
            &&& provider@ != "ollama"@ ==> call_ensures(
                H::within_budget,
                (&before.host,),
                Ok::<bool, BastionError>(true),
            )
            &&& may_leave(talk.tier, provider@)
            &&& model_asked(
                before.host,
                provider@,
                talk.tier,
                history_after(talk.first, rounds),
                talk.config,
                quarantined(talk.guarded, rounds),
                said,
                after.host,
            )
        }
}

/// The model may not be asked, for this reason: the budget cannot be looked at or is spent, or the
/// data may not go to the provider that would be asked.
pub open spec fn not_asked<H: TurnHost>(
    host: H,
    tier: Option<PrivacyTier>,
    why: BastionError,
) -> bool {
    exists|provider: String|
        {
            &&& #[trigger] call_ensures(H::provider_name, (&host,), provider)
            &&& {
                ||| provider@ != "ollama"@ && call_ensures(
                    H::within_budget,
                    (&host,),
                    Err::<bool, BastionError>(why),
                )
                ||| why == BastionError::BudgetExceeded && provider@ != "ollama"@ && call_ensures(
                    H::within_budget,
                    (&host,),
                    Ok::<bool, BastionError>(false),
                )
                ||| why == BastionError::PrivacyEgressBlocked && !may_leave(tier, provider@)
            }
        }
}

/// What the model said after some rounds, and where that led: what it had said already, or what it
/// said to the conversation that the rounds left.
pub open spec fn heard<W, H: TurnHost>(
    talk: Talk<W, H>,
    rounds: Seq<Round<W, H>>,
    response: LlmResponse,
    after: Stage<W, H>,
) -> bool {
    if rounds.len() == 0 && talk.initial is Some {
        response == talk.initial->0 && after == talk.stage
    } else {
        open_end(rounds) && model_gave(talk, rounds, Ok::<LlmResponse, BastionError>(response), after)
    }
}

/// This round of a turn came of what the model said after those before, and all its requests were
/// dealt with.
#[verifier::opaque]
pub open spec fn round_held<W, H: TurnHost>(
    talk: Talk<W, H>,
    rounds: Seq<Round<W, H>>,
    round: Round<W, H>,
) -> bool {
    &&& round.before == history_after(talk.first, rounds)
    &&& heard(talk, rounds, round.response, round.start)
    &&& round_begun(talk.how, round)
    &&& round.outcomes.len() == calls_of(round.response).len()
}

/// The rounds of a turn followed one another, and nothing else happened between them.
pub open spec fn rounds_held<W, H: TurnHost>(talk: Talk<W, H>, rounds: Seq<Round<W, H>>) -> bool {
    &&& rounds.len() <= MAX_TOOL_ROUNDS
    &&& forall|i: int|
        0 <= i < rounds.len() ==> #[trigger] round_held(talk, rounds.take(i), rounds[i])
}

/// The turn ended by an answer of the model that asks for nothing, and that was stored.
pub open spec fn answered<W, H: TurnHost>(
    talk: Talk<W, H>,
    rounds: Seq<Round<W, H>>,
    end: ToolLoopEnd,
    after: Stage<W, H>,
) -> bool {
    exists|response: LlmResponse, stage: Stage<W, H>, message: Message|
        {
            &&& #[trigger] heard(talk, rounds, response, stage)
            &&& response.tool_calls is None
            &&& #[trigger] recorded(stage, message, response, Ok(()), after)
            &&& end.text == response.text
            &&& end.history@ == history_after(talk.first, rounds).push(message)
        }
}

/// The turn ended by the owner's denial in the last round, and the model was not asked again.
pub open spec fn denied<W, H: TurnHost>(
    rounds: Seq<Round<W, H>>,
    end: ToolLoopEnd,
    after: Stage<W, H>,
) -> bool {
    &&& rounds.len() > 0
    &&& end_of(rounds.last()).denied matches Some(name)
    &&& end.text@ == denied_answer(rounds.last().response.text@, name)
    &&& end.history@ == after_round(rounds.last())
    &&& after == rounds.last().stages.last()
}

/// The model was not done when the rounds were used up: what it said was stored, and nothing more
/// was dispatched.
pub open spec fn used_up<W, H: TurnHost>(
    talk: Talk<W, H>,
    rounds: Seq<Round<W, H>>,
    after: Stage<W, H>,
) -> bool {
    &&& rounds.len() == MAX_TOOL_ROUNDS
    &&& exists|response: LlmResponse, stage: Stage<W, H>, message: Message|
        {
            &&& #[trigger] heard(talk, rounds, response, stage)
            &&& response.tool_calls is Some
            &&& #[trigger] recorded(stage, message, response, Ok(()), after)
        }
}

/// The turn failed between two rounds, for this reason: what the model said could not be stored,
/// or the model may not be asked, or it failed.
pub open spec fn broke_off<W, H: TurnHost>(
    talk: Talk<W, H>,
    rounds: Seq<Round<W, H>>,
    why: BastionError,
    after: Stage<W, H>,
) -> bool {
    ||| exists|response: LlmResponse, stage: Stage<W, H>, message: Message|
        {
            &&& #[trigger] heard(talk, rounds, response, stage)
            &&& #[trigger] recorded(stage, message, response, Err(why), after)
        }
    ||| (rounds.len() > 0 || talk.initial is None) && open_end(rounds) && {
        ||| after == stage_after(talk.stage, rounds) && not_asked(after.host, talk.tier, why)
        ||| model_gave(talk, rounds, Err::<LlmResponse, BastionError>(why), after)
    }
}

/// The turn failed within a round, because an answer could not be stored, for this reason.
pub open spec fn cut_off<W, H: TurnHost>(
    talk: Talk<W, H>,
    rounds: Seq<Round<W, H>>,
    why: BastionError,
    after: Stage<W, H>,
) -> bool {
    &&& rounds.len() < MAX_TOOL_ROUNDS
    &&& exists|round: Round<W, H>|
        {
            &&& #[trigger] round_begun(talk.how, round)
            &&& heard(talk, rounds, round.response, round.start)
            &&& cut_short(
                talk.how,
                calls_of(round.response),
                round.outcomes,
                round.stages.last(),
                why,
                after,
            )
        }
}

/// One more round.
proof fn lemma_one_more_round<W, H: TurnHost>(
    talk: Talk<W, H>,
    rounds: Seq<Round<W, H>>,
    round: Round<W, H>,
)
    requires
        rounds_held(talk, rounds),
        rounds.len() < MAX_TOOL_ROUNDS,
        round_held(talk, rounds, round),
    ensures
        rounds_held(talk, rounds.push(round)),
        history_after(talk.first, rounds.push(round)) == after_round(round),
        stage_after(talk.stage, rounds.push(round)) == round.stages.last(),
        rounds.push(round).last() == round,
{
    let more = rounds.push(round);
    assert forall|i: int| 0 <= i < more.len() implies #[trigger] round_held(
        talk,
        more.take(i),
        more[i],
    ) by {
        assert(more.take(i) =~= rounds.take(i));
        if i < rounds.len() {
            assert(rounds[i] == more[i]);
            assert(round_held(talk, rounds.take(i), rounds[i]));
        } else {
            assert(rounds.take(i) =~= rounds);
        }
    }
}

/// The conversation went on from where it was, every request in what was added has its answer,
/// and the model spoke at least once and at most so many times.
pub open spec fn well_continued(before: Seq<Message>, after: Seq<Message>, most: nat) -> bool {
    let added = after.skip(before.len() as int);
    &&& continues(before, after)
    &&& unanswered(added) == Some(Seq::<String>::empty())
    &&& 1 <= said_by_model(added) <= most
}

/// Runs the tool rounds of a turn, from the first answer of the model on.
///
/// The turn is a row of rounds, at most as many as are allowed. In each, what the model said is
/// stored, its requests are handled in order until one of them is denied, and the answers are
/// stored. Then the model is asked again with the whole conversation, in quarantine where
/// something untrusted came back. The turn ends by an answer of the model that asks for nothing,
/// or by the denial of the last round. It fails where the host cannot do its part, where the model
/// may not be asked again, or where the rounds are used up. Nothing else is stored, asked, called
/// or run, and the registry is as it was, however the turn ends.
#[verifier::rlimit(60)]
pub fn dispatch_tool_loop<C, D: Dispatcher, H: TurnHost>(
    registry: &mut CapabilityRegistry<C>,
    gate: &mut MemoryApprovalGate,
    dispatcher: &mut D,
    host: &mut H,
    history: Vec<Message>,
    config: &CallConfig,
    initial: LlmResponse,
    scope: &TurnScope,
) -> (r: Result<ToolLoopEnd, BastionError>)
    ensures
        final(registry)@ == old(registry)@,
        ({
            let talk = Talk {
                stage: Stage {
                    work: Desk { queue: *old(gate), runner: *old(dispatcher) },
                    host: *old(host),
                },
                tier: scope.tier(),
                config: *config,
                first: history@,
                initial: Some(initial),
                guarded: true,
                how: by_registry::<C, D, H>(old(registry)@, *scope),
            };
            let after = Stage {
                work: Desk { queue: *final(gate), runner: *final(dispatcher) },
                host: *final(host),
            };
            exists|rounds: Seq<Round<Desk<D>, H>>|
                {
                    &&& #[trigger] rounds_held(talk, rounds)
                    &&& match r {
                        Ok(end) => answered(talk, rounds, end, after) || denied(
                            rounds,
                            end,
                            after,
                        ),
                        Err(why) => {
                            ||| broke_off(talk, rounds, why, after)
                            ||| cut_off(talk, rounds, why, after)
                            ||| why == BastionError::ToolLoopCap && used_up(talk, rounds, after)
                        },
                    }
                }
        }),
        r matches Ok(end) ==> {
            &&& well_continued(history@, end.history@, (MAX_TOOL_ROUNDS + 1) as nat)
            &&& records_response(end.history@[history@.len() as int], initial)
        },
{
    let ghost said = history@;
    let ghost talk = Talk {
        stage: Stage {
            work: Desk { queue: *gate, runner: *dispatcher },
            host: *host,
        },
        tier: scope.tier(),
        config: *config,
        first: history@,
        initial: Some(initial),
        guarded: true,
        how: by_registry::<C, D, H>(registry@, *scope),
    };
    let ghost mut rounds: Seq<Round<Desk<D>, H>> = Seq::empty();
    let mut state: ToolLoop = ToolLoop::new(history);
    let mut response: LlmResponse = initial;
    assert(said.take(said.len() as int) =~= said);
    loop
        invariant
            registry@ == old(registry)@,
            said == history@,
            talk == (Talk {
                stage: Stage {
                    work: Desk { queue: *old(gate), runner: *old(dispatcher) },
                    host: *old(host),
                },
                tier: scope.tier(),
                config: *config,
                first: history@,
                initial: Some(initial),
                guarded: true,
                how: by_registry::<C, D, H>(old(registry)@, *scope),
            }),
            rounds_held(talk, rounds),
            heard(
                talk,
                rounds,
                response,
                Stage { work: Desk { queue: *gate, runner: *dispatcher }, host: *host },
            ),
            state.history() == history_after(said, rounds),
            state.start() == said.len(),
            state.rounds() == rounds.len(),
            continues(said, state.history()),
            said_by_model(state.added()) == state.rounds(),
            rounds.len() > 0 ==> said.len() < state.history().len() && records_response(
                state.history()[said.len() as int],
                initial,
            ),
        decreases MAX_TOOL_ROUNDS + 1 - state.rounds(),
    {
        let tokens: Option<u32> = Some(response.usage.output_tokens);
        let ghost before = state;
        let ghost answer = response;
        let ghost stage = Stage {
            work: Desk { queue: *gate, runner: *dispatcher },
            host: *host,
        };
        assert(heard(talk, rounds, answer, stage));
        let round: ToolRound = match state.take_response(response) {
            LoopStep::Answer { text, history } => {
                proof {
                    lemma_model_message(before.history(), history@, said.len() as int);
                    lemma_continues(said, before.history(), history@);
                    if rounds.len() > 0 {
                        assert(history@.drop_last()[said.len() as int]
                            == history@[said.len() as int]);
                    }
                    assert(history@ =~= before.history().push(history@.last()));
                }
                let kept: Result<(), BastionError> = store_last(host, &history, tokens);
                let ghost after = Stage {
                    work: Desk { queue: *gate, runner: *dispatcher },
                    host: *host,
                };
                assert(recorded(stage, history@.last(), answer, kept, after));
                return match kept {
                    Ok(_) => {
                        let end = ToolLoopEnd { text, history };
                        assert(answered(talk, rounds, end, after));
                        Ok(end)
                    },
                    Err(e) => {
                        assert(broke_off(talk, rounds, e, after));
                        Err(e)
                    },
                };
            },
            LoopStep::Fail { error, history } => {
                let kept: Result<(), BastionError> = store_last(host, &history, tokens);
                let ghost after = Stage {
                    work: Desk { queue: *gate, runner: *dispatcher },
                    host: *host,
                };
                assert(recorded(stage, history@.last(), answer, kept, after));
                return match kept {
                    Ok(_) => {
                        assert(used_up(talk, rounds, after));
                        Err(error)
                    },
                    Err(e) => {
                        assert(broke_off(talk, rounds, e, after));
                        Err(e)
                    },
                };
            },
            LoopStep::Dispatch(round) => round,
        };
        proof {
            lemma_model_message(before.history(), round.history(), said.len() as int);
            lemma_continues(said, before.history(), round.history());
        }
        let ghost asked = round;
        let kept: Result<(), BastionError> = store_last(host, round.messages(), tokens);
        let ghost opened = Stage {
            work: Desk { queue: *gate, runner: *dispatcher },
            host: *host,
        };
        assert(recorded(stage, asked.history().last(), answer, kept, opened));
        match kept {
            Ok(_) => {},
            Err(e) => {
                assert(broke_off(talk, rounds, e, opened));
                return Err(e);
            },
        }
        let done: Result<ToolRound, BastionError> = answer_calls(
            registry,
            gate,
            dispatcher,
            host,
            round,
            scope,
        );
        let ghost reached = Stage {
            work: Desk { queue: *gate, runner: *dispatcher },
            host: *host,
        };
        let ghost (outcomes, answers, stages) = choose|
            outcomes: Seq<CallOutcome>,
            answers: Seq<Message>,
            stages: Seq<Stage<Desk<D>, H>>,
        |
            {
                &&& #[trigger] requests_done(
                    by_registry::<C, D, H>(registry@, *scope),
                    asked.calls(),
                    outcomes,
                    answers,
                    stages,
                )
                &&& stages.first() == opened
                &&& match done {
                    Ok(done) => {
                        &&& done.same_round(asked)
                        &&& outcomes.len() == asked.calls().len()
                        &&& done.state() == round_run(outcomes, outcomes.len())
                        &&& done.state().answered == outcomes.len()
                        &&& done.history() == asked.history() + answers
                        &&& done.start() <= asked.history().len() ==> said_by_model(done.added())
                            == said_by_model(asked.added())
                        &&& stages.last() == reached
                    },
                    Err(why) => cut_short(
                        by_registry::<C, D, H>(registry@, *scope),
                        asked.calls(),
                        outcomes,
                        stages.last(),
                        why,
                        reached,
                    ),
                }
            };
        let ghost latest = Round {
            before: before.history(),
            start: stage,
            response: answer,
            said: asked.history().last(),
            outcomes,
            answers,
            stages,
        };
        assert(round_begun(talk.how, latest));
        let round: ToolRound = match done {
            Ok(round) => round,
            Err(e) => {
                assert(cut_off(talk, rounds, e, reached));
                return Err(e);
            },
        };
        proof {
            assert(round_held(talk, rounds, latest)) by {
                reveal(round_held);
            }
            lemma_one_more_round(talk, rounds, latest);
            assert(asked.history() =~= before.history().push(asked.history().last()));
            assert(round.history() == after_round(latest));
            assert(round.history().take(asked.history().len() as int) =~= asked.history());
            lemma_continues(said, asked.history(), round.history());
            assert(round.history()[said.len() as int] == asked.history()[said.len() as int]);
            if rounds.len() > 0 {
                assert(asked.history()[said.len() as int]
                    == asked.history().drop_last()[said.len() as int]);
            }
            rounds = rounds.push(latest);
            assert(stage_after(talk.stage, rounds) == reached);
        }
        let provider: String = host.provider_name();
        assert(call_ensures(H::provider_name, (&reached.host,), provider));
        let within_budget: bool = match budget_left(
            host,
            round.needs_budget_check(provider.as_str()),
        ) {
            Ok(within_budget) => within_budget,
            Err(e) => {
                assert(not_asked(reached.host, talk.tier, e));
                assert(broke_off(talk, rounds, e, reached));
                return Err(e);
            },
        };
        match round.close(provider.as_str(), scope.tier, within_budget) {
            RoundEnd::Answer { text, history } => {
                let end = ToolLoopEnd { text, history };
                assert(denied(rounds, end, reached));
                return Ok(end);
            },
            RoundEnd::Fail { error, history } => {
                assert(not_asked(reached.host, talk.tier, error));
                assert(broke_off(talk, rounds, error, reached));
                return Err(error);
            },
            RoundEnd::Complete { quarantine, next } => {
                let replied: Result<LlmResponse, BastionError> = ask_again(
                    registry,
                    host,
                    provider.as_str(),
                    scope.tier,
                    next.messages(),
                    config,
                    quarantine,
                );
                let ghost after = Stage {
                    work: Desk { queue: *gate, runner: *dispatcher },
                    host: *host,
                };
                assert(model_asked(
                    reached.host,
                    provider@,
                    talk.tier,
                    history_after(talk.first, rounds),
                    talk.config,
                    quarantined(talk.guarded, rounds),
                    replied,
                    after.host,
                ));
                assert(model_gave(talk, rounds, replied, after));
                match replied {
                    Ok(answer) => {
                        assert(heard(talk, rounds, answer, after));
                        response = answer;
                        state = next;
                    },
                    Err(e) => {
                        assert(broke_off(talk, rounds, e, after));
                        return Err(e);
                    },
                }
            },
        }
    }
}

/// Answers every request of a round by the tool source, and stores the answers.
fn answer_by_tools<H: TurnHost>(
    host: &mut H,
    round: ToolRound,
    owner: &str,
    tier: Option<PrivacyTier>,
) -> (r: Result<ToolRound, BastionError>)
    requires
        round.state() == fresh_round(),
    ensures
        exists|outcomes: Seq<CallOutcome>, answers: Seq<Message>, stages: Seq<Stage<(), H>>|
            {
                &&& #[trigger] requests_done(
                    by_tools::<H>(owner@, tier),
                    round.calls(),
                    outcomes,
                    answers,
                    stages,
                )
                &&& stages.first() == (Stage { work: (), host: *old(host) })
                &&& match r {
                    Ok(done) => {
                        &&& done.same_round(round)
                        &&& outcomes.len() == round.calls().len()
                        &&& done.state() == round_run(outcomes, outcomes.len())
                        &&& done.state().answered == outcomes.len()
                        &&& done.state().denied is None
                        &&& done.history() == round.history() + answers
                        &&& done.start() <= round.history().len() ==> said_by_model(done.added())
                            == said_by_model(round.added())
                        &&& stages.last() == (Stage { work: (), host: *final(host) })
                    },
                    Err(why) => cut_short(
                        by_tools::<H>(owner@, tier),
                        round.calls(),
                        outcomes,
                        stages.last(),
                        why,
                        Stage { work: (), host: *final(host) },
                    ),
                }
            },
{
    let ghost first = round;
    let ghost how = by_tools::<H>(owner@, tier);
    let ghost mut outcomes: Seq<CallOutcome> = Seq::empty();
    let ghost mut answers: Seq<Message> = Seq::empty();
    let ghost mut stages: Seq<Stage<(), H>> = seq![Stage { work: (), host: *host }];
    assert(first.history() + answers =~= first.history());
    let everything: Option<Vec<String>> = None;
    let mut current: ToolRound = round;
    loop
        invariant
            first == round,
            how == by_tools::<H>(owner@, tier),
            everything is None,
            current.same_round(first),
            requests_done(how, first.calls(), outcomes, answers, stages),
            current.state() == round_run(outcomes, outcomes.len()),
            current.state().answered == outcomes.len(),
            current.state().denied is None,
            current.history() == first.history() + answers,
            stages.first() == (Stage { work: (), host: *old(host) }),
            stages.last() == (Stage { work: (), host: *host }),
            first.start() <= first.history().len() ==> said_by_model(current.added())
                == said_by_model(first.added()),
        decreases first.calls().len() - outcomes.len(),
    {
        let ghost before = current;
        let ghost stage = stages.last();
        let result: Result<serde_json::Value, BastionError> = match current.next_call() {
            None => {
                return Ok(current);
            },
            Some(call) => host.call_tool(
                call.name.as_str(),
                &call.arguments,
                owner,
                tier,
                &everything,
            ),
        };
        let ghost call = request(before);
        assert(stage.host.may_call(call.name@, call.arguments, owner@, tier, result, host));
        let outcome: CallOutcome = CallOutcome::Tool(result);
        let ghost came = outcome;
        let (next, data) = current.record(outcome);
        host.observe(&data);
        let ghost between = Stage { work: (), host: *host };
        assert(answered_by(before, came, next));
        assert(called(result, call, owner@, tier, stage, between));
        assert(how(came, call, stage, between));
        let said: Result<(), BastionError> = store_last(host, next.messages(), None);
        let ghost reached = Stage { work: (), host: *host };
        assert(dealt_with(
            how,
            first.calls()[outcomes.len() as int],
            round_run(outcomes, outcomes.len()),
            came,
            stage,
            next.history().last(),
            said,
            reached,
        )) by {
            reveal(dealt_with);
            assert(put_down(between, next.history().last(), None, said, reached));
        }
        match said {
            Ok(_) => {},
            Err(e) => {
                assert(cut_short(how, first.calls(), outcomes, stages.last(), e, reached));
                return Err(e);
            },
        }
        proof {
            lemma_one_more_request(
                how,
                first.calls(),
                outcomes,
                answers,
                stages,
                came,
                next.history().last(),
                reached,
            );
            lemma_added(before.history(), next.history(), first.history(), answers);
            if first.start() <= first.history().len() {
                lemma_tool_message(before.history(), next.history(), first.start() as int);
            }
            outcomes = outcomes.push(came);
            answers = answers.push(next.history().last());
            stages = stages.push(reached);
        }
        current = next;
    }
}

/// Answers a turn by the provider itself, with the tools of the tool source and without the
/// registry.
///
/// The turn is a row of rounds, fewer than are allowed where it comes to an answer. In each, the
/// model is asked with the whole conversation, what it said is stored, its requests are handled by
/// the tool source for the owner, and the answers are stored. The turn ends by an answer of the
/// model that asks for nothing. It fails where the host cannot do its part, where the model may not
/// be asked, or where the rounds are used up. Nothing else is stored, asked or called. Data that
/// may not go to the provider that is asked at the moment goes nowhere, and nor does data without a
/// tier.
#[verifier::rlimit(60)]
pub fn run_provider_fallback<H: TurnHost>(
    host: &mut H,
    history: Vec<Message>,
    system_prompt: String,
    tools: Vec<serde_json::Value>,
    owner: &str,
    tier: Option<PrivacyTier>,
) -> (r: Result<ToolLoopEnd, BastionError>)
    ensures
        (forall|name: String| #[trigger]
            call_ensures(H::provider_name, (&*old(host),), name) ==> !may_leave(tier, name@)) ==> {
            &&& r == Err::<ToolLoopEnd, BastionError>(BastionError::PrivacyEgressBlocked)
            &&& *final(host) == *old(host)
        },
        tier is None ==> {
            &&& r == Err::<ToolLoopEnd, BastionError>(BastionError::PrivacyEgressBlocked)
            &&& *final(host) == *old(host)
        },
        ({
            let talk = Talk {
                stage: Stage { work: (), host: *old(host) },
                tier,
                config: CallConfig {
                    system_prompt,
                    max_tokens: FALLBACK_MAX_TOKENS,
                    tools,
                    response_format: None,
                    tool_choice: None,
                    temperature_bits: None,
                },
                first: history@,
                initial: None,
                guarded: false,
                how: by_tools::<H>(owner@, tier),
            };
            let after = Stage { work: (), host: *final(host) };
            exists|rounds: Seq<Round<(), H>>|
                {
                    &&& #[trigger] rounds_held(talk, rounds)
                    &&& match r {
                        Ok(end) => rounds.len() < MAX_TOOL_ROUNDS && answered(
                            talk,
                            rounds,
                            end,
                            after,
                        ),
                        Err(why) => {
                            ||| broke_off(talk, rounds, why, after)
                            ||| cut_off(talk, rounds, why, after)
                            ||| {
                                &&& why == BastionError::ToolLoopCap
                                &&& rounds.len() == MAX_TOOL_ROUNDS
                                &&& after == stage_after(talk.stage, rounds)
                            }
                        },
                    }
                }
        }),
        r matches Ok(end) ==> well_continued(history@, end.history@, MAX_TOOL_ROUNDS as nat),
{
    let ghost said = history@;
    let ghost wanted = CallConfig {
        system_prompt,
        max_tokens: FALLBACK_MAX_TOKENS,
        tools,
        response_format: None,
        tool_choice: None,
        temperature_bits: None,
    };
    let ghost talk = Talk {
        stage: Stage { work: (), host: *host },
        tier,
        config: wanted,
        first: history@,
        initial: None,
        guarded: false,
        how: by_tools::<H>(owner@, tier),
    };
    let ghost mut rounds: Seq<Round<(), H>> = Seq::empty();
    assert(rounds_held(talk, rounds));
    let named: String = host.provider_name();
    assert(call_ensures(H::provider_name, (&talk.stage.host,), named));
    let config: CallConfig = match fallback_config(system_prompt, tools, named.as_str(), tier) {
        Ok(config) => config,
        Err(e) => {
            assert(not_asked(talk.stage.host, talk.tier, e));
            assert(broke_off(talk, rounds, e, talk.stage));
            return Err(e);
        },
    };
    let mut state: ToolLoop = ToolLoop::new(history);
    assert(said.take(said.len() as int) =~= said);
    loop
        invariant
            tier is Some,
            call_ensures(H::provider_name, (&*old(host),), named),
            may_leave(tier, named@),
            said == history@,
            config == wanted,
            wanted == (CallConfig {
                system_prompt,
                max_tokens: FALLBACK_MAX_TOKENS,
                tools,
                response_format: None,
                tool_choice: None,
                temperature_bits: None,
            }),
            talk == (Talk {
                stage: Stage { work: (), host: *old(host) },
                tier,
                config: wanted,
                first: history@,
                initial: None,
                guarded: false,
                how: by_tools::<H>(owner@, tier),
            }),
            rounds_held(talk, rounds),
            stage_after(talk.stage, rounds) == (Stage { work: (), host: *host }),
            open_end(rounds),
            state.history() == history_after(said, rounds),
            state.start() == said.len(),
            state.rounds() == rounds.len(),
            continues(said, state.history()),
            said_by_model(state.added()) == state.rounds(),
        decreases MAX_TOOL_ROUNDS + 1 - state.rounds(),
    {
        let ghost left = stage_after(talk.stage, rounds);
        let provider: String = host.provider_name();
        assert(call_ensures(H::provider_name, (&left.host,), provider));
        let within_budget: bool = match budget_left(
            host,
            state.needs_budget_check(provider.as_str()),
        ) {
            Ok(within_budget) => within_budget,
            Err(e) => {
                assert(not_asked(left.host, talk.tier, e));
                assert(broke_off(talk, rounds, e, left));
                return Err(e);
            },
        };
        match state.check_call(provider.as_str(), tier, within_budget) {
            Ok(_) => {},
            Err(e) => {
                proof {
                    if rounds.len() < MAX_TOOL_ROUNDS {
                        assert(not_asked(left.host, talk.tier, e));
                        assert(broke_off(talk, rounds, e, left));
                    }
                }
                return Err(e);
            },
        }
        let replied: Result<LlmResponse, BastionError> = host.complete(
            provider.as_str(),
            tier,
            state.messages(),
            &config,
            false,
        );
        let ghost before = state;
        let ghost stage = Stage { work: (), host: *host };
        assert(left.host.may_answer(
            provider@,
            talk.tier,
            history_after(talk.first, rounds),
            talk.config,
            false,
            replied,
            &stage.host,
        ));
        assert(model_asked(
            left.host,
            provider@,
            talk.tier,
            history_after(talk.first, rounds),
            talk.config,
            quarantined(talk.guarded, rounds),
            replied,
            stage.host,
        ));
        assert(model_gave(talk, rounds, replied, stage));
        let response: LlmResponse = match replied {
            Ok(response) => response,
            Err(e) => {
                assert(broke_off(talk, rounds, e, stage));
                return Err(e);
            },
        };
        assert(heard(talk, rounds, response, stage));
        let tokens: Option<u32> = Some(response.usage.output_tokens);
        let ghost answer = response;
        let round: ToolRound = match state.take_response(response) {
            LoopStep::Answer { text, history } => {
                proof {
                    lemma_model_message(before.history(), history@, said.len() as int);
                    lemma_continues(said, before.history(), history@);
                    assert(history@ =~= before.history().push(history@.last()));
                }
                let kept: Result<(), BastionError> = store_last(host, &history, tokens);
                let ghost after = Stage { work: (), host: *host };
                assert(recorded(stage, history@.last(), answer, kept, after));
                return match kept {
                    Ok(_) => {
                        let end = ToolLoopEnd { text, history };
                        assert(answered(talk, rounds, end, after));
                        Ok(end)
                    },
                    Err(e) => {
                        assert(broke_off(talk, rounds, e, after));
                        Err(e)
                    },
                };
            },
            LoopStep::Fail { error, history } => {
                return Err(error);
            },
            LoopStep::Dispatch(round) => round,
        };
        proof {
            lemma_model_message(before.history(), round.history(), said.len() as int);
            lemma_continues(said, before.history(), round.history());
        }
        let ghost asked = round;
        let kept: Result<(), BastionError> = store_last(host, round.messages(), tokens);
        let ghost opened = Stage { work: (), host: *host };
        assert(recorded(stage, asked.history().last(), answer, kept, opened));
        match kept {
            Ok(_) => {},
            Err(e) => {
                assert(broke_off(talk, rounds, e, opened));
                return Err(e);
            },
        }
        let done: Result<ToolRound, BastionError> = answer_by_tools(host, round, owner, tier);
        let ghost reached = Stage { work: (), host: *host };
        let ghost (outcomes, answers, stages) = choose|
            outcomes: Seq<CallOutcome>,
            answers: Seq<Message>,
            stages: Seq<Stage<(), H>>,
        |
            {
                &&& #[trigger] requests_done(
                    by_tools::<H>(owner@, tier),
                    asked.calls(),
                    outcomes,
                    answers,
                    stages,
                )
                &&& stages.first() == opened
                &&& match done {
                    Ok(done) => {
                        &&& done.same_round(asked)
                        &&& outcomes.len() == asked.calls().len()
                        &&& done.state() == round_run(outcomes, outcomes.len())
                        &&& done.state().answered == outcomes.len()
                        &&& done.state().denied is None
                        &&& done.history() == asked.history() + answers
                        &&& done.start() <= asked.history().len() ==> said_by_model(done.added())
                            == said_by_model(asked.added())
                        &&& stages.last() == reached
                    },
                    Err(why) => cut_short(
                        by_tools::<H>(owner@, tier),
                        asked.calls(),
                        outcomes,
                        stages.last(),
                        why,
                        reached,
                    ),
                }
            };
        let ghost latest = Round {
            before: before.history(),
            start: stage,
            response: answer,
            said: asked.history().last(),
            outcomes,
            answers,
            stages,
        };
        assert(round_begun(talk.how, latest));
        let round: ToolRound = match done {
            Ok(round) => round,
            Err(e) => {
                assert(cut_off(talk, rounds, e, reached));
                return Err(e);
            },
        };
        proof {
            assert(round_held(talk, rounds, latest)) by {
                reveal(round_held);
            }
            lemma_one_more_round(talk, rounds, latest);
            assert(asked.history() =~= before.history().push(asked.history().last()));
            assert(round.history() == after_round(latest));
            assert(round.history().take(asked.history().len() as int) =~= asked.history());
            lemma_continues(said, asked.history(), round.history());
            rounds = rounds.push(latest);
        }
        state = round.finish();
    }
}


/// A host that keeps a log: storing a message adds it at the end, and nothing else does anything to
/// it.
pub open spec fn keeps_log<H: TurnHost>(log: spec_fn(H) -> Seq<Message>) -> bool {
    &&& forall|h: H, m: Message, tokens: Option<u32>, said: Result<(), BastionError>, after: H|
        #[trigger] h.may_store(m, tokens, said, &after) ==> log(after) == if said is Ok {
            log(h).push(m)
        } else {
            log(h)
        }
    &&& forall|
        h: H,
        name: Seq<char>,
        args: serde_json::Value,
        owner: Seq<char>,
        tier: Option<PrivacyTier>,
        said: Result<serde_json::Value, BastionError>,
        after: H,
    | #[trigger]
        h.may_call(name, args, owner, tier, said, &after) ==> log(after) == log(h)
    &&& forall|h: H, data: JsonTree, after: H| #[trigger]
        h.may_show(data, &after) ==> log(after) == log(h)
    &&& forall|
        h: H,
        provider: Seq<char>,
        tier: Option<PrivacyTier>,
        history: Seq<Message>,
        config: CallConfig,
        quarantine: bool,
        said: Result<LlmResponse, BastionError>,
        after: H,
    | #[trigger]
        h.may_answer(provider, tier, history, config, quarantine, said, &after) ==> log(after)
            == log(h)
}

/// Handling a request stores nothing.
spec fn handles_quietly<W, H: TurnHost>(
    how: spec_fn(CallOutcome, ToolCall, Stage<W, H>, Stage<W, H>) -> bool,
    log: spec_fn(H) -> Seq<Message>,
) -> bool {
    forall|outcome: CallOutcome, call: ToolCall, before: Stage<W, H>, after: Stage<W, H>|
        #[trigger] how(outcome, call, before, after) ==> log(after.host) == log(before.host)
}

/// The answers of a round are logged one after the other.
proof fn lemma_answers_logged<W, H: TurnHost>(
    how: spec_fn(CallOutcome, ToolCall, Stage<W, H>, Stage<W, H>) -> bool,
    log: spec_fn(H) -> Seq<Message>,
    calls: Seq<ToolCall>,
    outcomes: Seq<CallOutcome>,
    answers: Seq<Message>,
    stages: Seq<Stage<W, H>>,
    n: int,
)
    requires
        keeps_log(log),
        handles_quietly(how, log),
        requests_done(how, calls, outcomes, answers, stages),
        0 <= n <= outcomes.len(),
    ensures
        log(stages[n].host) == log(stages[0].host) + answers.take(n),
    decreases n,
{
    if n == 0 {
        assert(answers.take(0) =~= Seq::<Message>::empty());
        assert(log(stages[0].host) + answers.take(0) =~= log(stages[0].host));
    } else {
        let i = n - 1;
        lemma_answers_logged(how, log, calls, outcomes, answers, stages, i);
        assert(request_done(how, calls, outcomes, answers, stages, i));
        reveal(request_done);
        reveal(dealt_with);
        let between = choose|between: Stage<W, H>|
            {
                &&& #[trigger] put_down(between, answers[i], None, Ok(()), stages[n])
                &&& if round_run(outcomes, i as nat).denied is None {
                    how(outcomes[i], calls[i], stages[i], between)
                } else {
                    between == stages[i]
                }
            };
        assert(log(between.host) == log(stages[i].host));
        assert(log(stages[n].host) == log(between.host).push(answers[i]));
        assert(answers.take(n) =~= answers.take(i).push(answers[i]));
        assert(log(stages[n].host) =~= log(stages[0].host) + answers.take(n));
    }
}

/// What the model says is logged only when it is stored.
proof fn lemma_heard_quietly<W, H: TurnHost>(
    talk: Talk<W, H>,
    log: spec_fn(H) -> Seq<Message>,
    rounds: Seq<Round<W, H>>,
    response: LlmResponse,
    after: Stage<W, H>,
)
    requires
        keeps_log(log),
        heard(talk, rounds, response, after),
    ensures
        log(after.host) == log(stage_after(talk.stage, rounds).host),
        after.work == stage_after(talk.stage, rounds).work,
{
}

/// What the conversation gained in some rounds is what was logged.
proof fn lemma_rounds_logged<W, H: TurnHost>(
    talk: Talk<W, H>,
    log: spec_fn(H) -> Seq<Message>,
    rounds: Seq<Round<W, H>>,
    n: int,
) -> (gained: Seq<Message>)
    requires
        keeps_log(log),
        handles_quietly(talk.how, log),
        rounds_held(talk, rounds),
        0 <= n <= rounds.len(),
    ensures
        history_after(talk.first, rounds.take(n)) == talk.first + gained,
        log(stage_after(talk.stage, rounds.take(n)).host) == log(talk.stage.host) + gained,
    decreases n,
{
    if n == 0 {
        let gained = Seq::<Message>::empty();
        assert(talk.first + gained =~= talk.first);
        assert(log(talk.stage.host) + gained =~= log(talk.stage.host));
        gained
    } else {
        let i = n - 1;
        let so_far = lemma_rounds_logged(talk, log, rounds, i);
        let round = rounds[i];
        assert(round_held(talk, rounds.take(i), round));
        reveal(round_held);
        assert(rounds.take(n).last() == round);
        lemma_heard_quietly(talk, log, rounds.take(i), round.response, round.start);
        let m = round.outcomes.len() as int;
        lemma_answers_logged(
            talk.how,
            log,
            calls_of(round.response),
            round.outcomes,
            round.answers,
            round.stages,
            m,
        );
        assert(round.answers.take(m) =~= round.answers);
        let gained = so_far.push(round.said) + round.answers;
        let begun = round.stages[0];
        assert(log(begun.host) == log(round.start.host).push(round.said));
        assert(after_round(round) =~= talk.first + gained);
        assert(log(round.stages.last().host) =~= log(talk.stage.host) + gained);
        gained
    }
}

/// A turn that comes to an end.
proof fn lemma_turn_logged<W, H: TurnHost>(
    talk: Talk<W, H>,
    log: spec_fn(H) -> Seq<Message>,
    rounds: Seq<Round<W, H>>,
    end: ToolLoopEnd,
    after: Stage<W, H>,
)
    requires
        keeps_log(log),
        handles_quietly(talk.how, log),
        rounds_held(talk, rounds),
        answered(talk, rounds, end, after) || denied(rounds, end, after),
    ensures
        continues(talk.first, end.history@),
        log(after.host) == log(talk.stage.host) + end.history@.skip(talk.first.len() as int),
{
    let gained = lemma_rounds_logged(talk, log, rounds, rounds.len() as int);
    assert(rounds.take(rounds.len() as int) =~= rounds);
    if denied(rounds, end, after) {
        assert(end.history@.skip(talk.first.len() as int) =~= gained);
    } else {
        let (response, stage, message) = choose|
            response: LlmResponse,
            stage: Stage<W, H>,
            message: Message,
        |
            {
                &&& #[trigger] heard(talk, rounds, response, stage)
                &&& response.tool_calls is None
                &&& #[trigger] recorded(stage, message, response, Ok(()), after)
                &&& end.text == response.text
                &&& end.history@ == history_after(talk.first, rounds).push(message)
            };
        lemma_heard_quietly(talk, log, rounds, response, stage);
        assert(end.history@.skip(talk.first.len() as int) =~= gained.push(message));
        assert(log(after.host) == log(stage.host).push(message));
        assert(log(after.host) =~= log(talk.stage.host) + gained.push(message));
    }
    assert(end.history@.take(talk.first.len() as int) =~= talk.first);
}

/// The session gets exactly the messages that the conversation gains in a turn, each once and in
/// their order.
pub proof fn what_is_said_is_stored_once<C, D: Dispatcher, H: TurnHost>(
    caps: Capabilities<C>,
    scope: TurnScope,
    talk: Talk<Desk<D>, H>,
    log: spec_fn(H) -> Seq<Message>,
    rounds: Seq<Round<Desk<D>, H>>,
    end: ToolLoopEnd,
    after: Stage<Desk<D>, H>,
)
    requires
        keeps_log(log),
        talk.how == by_registry::<C, D, H>(caps, scope),
        rounds_held(talk, rounds),
        answered(talk, rounds, end, after) || denied(rounds, end, after),
    ensures
        continues(talk.first, end.history@),
        log(after.host) == log(talk.stage.host) + end.history@.skip(talk.first.len() as int),
{
    reveal(handled);
    assert(handles_quietly(talk.how, log));
    lemma_turn_logged(talk, log, rounds, end, after);
}

/// Without the registry too, the session gets exactly the messages that the conversation gains,
/// each once and in their order.
pub proof fn what_is_said_without_the_registry_is_stored_once<H: TurnHost>(
    owner: Seq<char>,
    talk: Talk<(), H>,
    log: spec_fn(H) -> Seq<Message>,
    rounds: Seq<Round<(), H>>,
    end: ToolLoopEnd,
    after: Stage<(), H>,
)
    requires
        keeps_log(log),
        talk.how == by_tools::<H>(owner, talk.tier),
        rounds_held(talk, rounds),
        answered(talk, rounds, end, after),
    ensures
        continues(talk.first, end.history@),
        log(after.host) == log(talk.stage.host) + end.history@.skip(talk.first.len() as int),
{
    assert(handles_quietly(talk.how, log));
    lemma_turn_logged(talk, log, rounds, end, after);
}

/// This request of a round may run nothing: it was skipped, or it is not allowed to.
pub open spec fn may_not_run<C, D, H>(
    caps: Capabilities<C>,
    ctx: InvokeCtx,
    round: Round<Desk<D>, H>,
    i: int,
) -> bool {
    let call = calls_of(round.response)[i];
    round_run(round.outcomes, i as nat).denied is Some || !may_run(
        caps,
        call.name@,
        json::tree(call.arguments),
        ctx,
        round.stages[i].work.queue.rows(),
    )
}

/// No request of a round may run anything.
pub open spec fn nothing_may_run<C, D, H>(
    caps: Capabilities<C>,
    ctx: InvokeCtx,
    round: Round<Desk<D>, H>,
) -> bool {
    forall|i: int|
        0 <= i < round.outcomes.len() ==> #[trigger] may_not_run(caps, ctx, round, i)
}

/// What may not run does not.
proof fn lemma_handled_at_rest<C, D: Dispatcher, H: TurnHost>(
    outcome: CallOutcome,
    caps: Capabilities<C>,
    scope: TurnScope,
    call: ToolCall,
    before: Stage<Desk<D>, H>,
    after: Stage<Desk<D>, H>,
)
    requires
        handled::<C, D, H>(outcome, caps, scope, call, before, after),
        !may_run(
            caps,
            call.name@,
            json::tree(call.arguments),
            scope.ctx(),
            before.work.queue.rows(),
        ),
    ensures
        after.work.runner == before.work.runner,
{
    reveal(handled);
    let rows = before.work.queue.rows();
    let hash = action_hash(call.name@, json::tree(call.arguments), scope.ctx().owner@);
    if exists|k: KeyView| #[trigger] known_under(rows, k, hash) {
        let k = choose|k: KeyView| #[trigger] known_under(rows, k, hash);
        assert(cleared(rows, k, hash) ==> !(within_reach(caps, call.name@, scope.ctx())
            && caps[KeyView::Text(call.name@)].info.needs_approval));
    }
}

/// The requests of a round that may run nothing.
proof fn lemma_round_at_rest<C, D: Dispatcher, H: TurnHost>(
    caps: Capabilities<C>,
    scope: TurnScope,
    round: Round<Desk<D>, H>,
    n: int,
)
    requires
        requests_done(
            by_registry::<C, D, H>(caps, scope),
            calls_of(round.response),
            round.outcomes,
            round.answers,
            round.stages,
        ),
        nothing_may_run(caps, scope.ctx(), round),
        0 <= n <= round.outcomes.len(),
    ensures
        round.stages[n].work.runner == round.stages[0].work.runner,
    decreases n,
{
    if n > 0 {
        let i = n - 1;
        lemma_round_at_rest(caps, scope, round, i);
        let how = by_registry::<C, D, H>(caps, scope);
        let calls = calls_of(round.response);
        assert(request_done(how, calls, round.outcomes, round.answers, round.stages, i));
        assert(may_not_run(caps, scope.ctx(), round, i));
        reveal(request_done);
        reveal(dealt_with);
        let between = choose|between: Stage<Desk<D>, H>|
            {
                &&& #[trigger] put_down(between, round.answers[i], None, Ok(()), round.stages[n])
                &&& if round_run(round.outcomes, i as nat).denied is None {
                    how(round.outcomes[i], calls[i], round.stages[i], between)
                } else {
                    between == round.stages[i]
                }
            };
        if round_run(round.outcomes, i as nat).denied is None {
            lemma_handled_at_rest(
                round.outcomes[i],
                caps,
                scope,
                calls[i],
                round.stages[i],
                between,
            );
        }
    }
}

/// A turn runs no capability where none of its requests may run one: what is not registered, not
/// allowed, not approved or behind a denial is not run.
pub proof fn what_may_not_run_does_not<C, D: Dispatcher, H: TurnHost>(
    caps: Capabilities<C>,
    scope: TurnScope,
    talk: Talk<Desk<D>, H>,
    rounds: Seq<Round<Desk<D>, H>>,
)
    requires
        talk.how == by_registry::<C, D, H>(caps, scope),
        rounds_held(talk, rounds),
        forall|i: int|
            0 <= i < rounds.len() ==> #[trigger] nothing_may_run(caps, scope.ctx(), rounds[i]),
    ensures
        stage_after(talk.stage, rounds).work.runner == talk.stage.work.runner,
    decreases rounds.len(),
{
    if rounds.len() > 0 {
        let n = rounds.len() - 1;
        let earlier = rounds.take(n);
        let round = rounds[n];
        assert forall|i: int| 0 <= i < earlier.len() implies #[trigger] nothing_may_run(
            caps,
            scope.ctx(),
            earlier[i],
        ) by {
            assert(nothing_may_run(caps, scope.ctx(), rounds[i]));
        }
        assert forall|i: int| 0 <= i < earlier.len() implies #[trigger] round_held(
            talk,
            earlier.take(i),
            earlier[i],
        ) by {
            assert(earlier.take(i) =~= rounds.take(i));
            assert(round_held(talk, rounds.take(i), rounds[i]));
        }
        what_may_not_run_does_not(caps, scope, talk, earlier);
        assert(round_held(talk, rounds.take(n), round));
        reveal(round_held);
        assert(nothing_may_run(caps, scope.ctx(), rounds[n]));
        lemma_round_at_rest(caps, scope, round, round.outcomes.len() as int);
    }
}

/// What continues a conversation keeps every message of it in its place.
pub proof fn a_continued_conversation_keeps_its_messages(
    before: Seq<Message>,
    after: Seq<Message>,
    i: int,
)
    requires
        continues(before, after),
        0 <= i < before.len(),
    ensures
        i < after.len() && after[i] == before[i],
{
    assert(after.take(before.len() as int)[i] == after[i]);
}

/// The messages of the model are those of its role, all of them.
pub proof fn the_model_is_heard_by_its_role(messages: Seq<Message>)
    ensures
        said_by_model(messages) == messages.filter(
            |message: Message| message.role == Role::Assistant,
        ).len(),
    decreases messages.len(),
{
    reveal(Seq::filter);
    if messages.len() > 0 {
        the_model_is_heard_by_its_role(messages.drop_last());
    }
}

/// In a round that was held every request has one answer, in its place: a tool's message with the
/// number of the request, and with what came back for it, or that it was skipped behind a denial.
pub proof fn every_request_of_a_round_has_its_answer<W, H: TurnHost>(
    talk: Talk<W, H>,
    rounds: Seq<Round<W, H>>,
    i: int,
    j: int,
)
    requires
        rounds_held(talk, rounds),
        0 <= i < rounds.len(),
        0 <= j < calls_of(rounds[i].response).len(),
    ensures
        ({
            let round = rounds[i];
            let call = calls_of(round.response)[j];
            let state = round_run(round.outcomes, j as nat);
            let place = round.before.len() + 1 + j;
            let message = after_round(round)[place];
            &&& after_round(round).len() == round.before.len() + 1 + calls_of(round.response).len()
            &&& message.role == Role::Tool
            &&& message.content matches MessageContent::Parts(parts)
            &&& parts@.len() == 1
            &&& parts@[0] matches ContentPart::ToolResult { tool_use_id, content }
            &&& tool_use_id == call.id
            &&& state.denied is None ==> content@ == framed(
                call.name@,
                outcome_data(round.outcomes[j]),
                outcome_trusted(round.outcomes[j]),
            )
            &&& state.denied matches Some(name) ==> content@ == skipped_content(name)
        }),
{
    let round = rounds[i];
    let calls = calls_of(round.response);
    assert(round_held(talk, rounds.take(i), rounds[i]));
    reveal(round_held);
    assert(request_done(
        talk.how,
        calls,
        round.outcomes,
        round.answers,
        round.stages,
        j,
    ));
    reveal(request_done);
    reveal(dealt_with);
    let place = round.before.len() + 1 + j;
    assert(after_round(round)[place] == round.answers[j]);
}

/// In a round that was held what the model said stands behind the conversation before it, and is the
/// model's answer to exactly that conversation; the next round goes on from there.
pub proof fn rounds_follow_one_another<W, H: TurnHost>(
    talk: Talk<W, H>,
    rounds: Seq<Round<W, H>>,
    i: int,
)
    requires
        rounds_held(talk, rounds),
        0 <= i < rounds.len(),
    ensures
        rounds.len() <= 10,
        rounds[i].before == (if i == 0 {
            talk.first
        } else {
            after_round(rounds[i - 1])
        }),
        continues(rounds[i].before, after_round(rounds[i])),
        records_response(after_round(rounds[i])[rounds[i].before.len() as int], rounds[i].response),
        rounds[i].response.tool_calls is Some,
        i > 0 ==> end_of(rounds[i - 1]).denied is None,
{
    let round = rounds[i];
    assert(round_held(talk, rounds.take(i), rounds[i]));
    reveal(round_held);
    if i > 0 {
        assert(rounds.take(i).last() == rounds[i - 1]);
    }
    assert(after_round(round).take(round.before.len() as int) =~= round.before);
}

/// The model is asked with the whole conversation and as it was configured, of a provider to which
/// the data may go, and within the budget unless it runs on the host. In quarantine, which is where
/// something untrusted came back in the round before, it is shown no tool.
pub proof fn how_the_model_is_asked<W, H: TurnHost>(
    talk: Talk<W, H>,
    rounds: Seq<Round<W, H>>,
    said: Result<LlmResponse, BastionError>,
    after: Stage<W, H>,
)
    requires
        model_gave(talk, rounds, said, after),
    ensures
        after.work == stage_after(talk.stage, rounds).work,
        exists|provider: String, used: CallConfig, quarantine: bool|
            {
                &&& #[trigger] stage_after(talk.stage, rounds).host.may_answer(
                    provider@,
                    talk.tier,
                    history_after(talk.first, rounds),
                    used,
                    quarantine,
                    said,
                    &after.host,
                )
                &&& may_leave(talk.tier, provider@)
                &&& provider@ == "ollama"@ || call_ensures(
                    H::within_budget,
                    (&stage_after(talk.stage, rounds).host,),
                    Ok::<bool, BastionError>(true),
                )
                &&& used.system_prompt == talk.config.system_prompt
                &&& used.max_tokens == talk.config.max_tokens
                &&& used.response_format == talk.config.response_format
                &&& used.tool_choice == talk.config.tool_choice
                &&& used.temperature_bits == talk.config.temperature_bits
                &&& !quarantine ==> used.tools == talk.config.tools
                &&& quarantine ==> used.tools@.len() == 0
                &&& quarantine == quarantined(talk.guarded, rounds)
            },
{
    let before = stage_after(talk.stage, rounds);
    let provider = choose|provider: String|
        {
            &&& #[trigger] call_ensures(H::provider_name, (&before.host,), provider)
            &&& provider@ != "ollama"@ ==> call_ensures(
                H::within_budget,
                (&before.host,),
                Ok::<bool, BastionError>(true),
            )
            &&& may_leave(talk.tier, provider@)
            &&& model_asked(
                before.host,
                provider@,
                talk.tier,
                history_after(talk.first, rounds),
                talk.config,
                quarantined(talk.guarded, rounds),
                said,
                after.host,
            )
        };
    let quarantine = quarantined(talk.guarded, rounds);
    let used = choose|used: CallConfig|
        {
            &&& #[trigger] before.host.may_answer(
                provider@,
                talk.tier,
                history_after(talk.first, rounds),
                used,
                quarantine,
                said,
                &after.host,
            )
            &&& used == if quarantine {
                CallConfig { tools: used.tools, ..talk.config }
            } else {
                talk.config
            }
            &&& quarantine ==> used.tools@.len() == 0
        };
    assert(stage_after(talk.stage, rounds).host.may_answer(
        provider@,
        talk.tier,
        history_after(talk.first, rounds),
        used,
        quarantine,
        said,
        &after.host,
    ));
}

/// Something untrusted that came back in the last round puts the model in quarantine, where that is
/// guarded against, and nothing else does.
pub proof fn what_is_untrusted_puts_the_model_in_quarantine<W, H: TurnHost>(
    rounds: Seq<Round<W, H>>,
)
    requires
        rounds.len() > 0,
    ensures
        quarantined(true, rounds) <==> exists|i: int|
            {
                &&& 0 <= i < rounds.last().outcomes.len()
                &&& !outcome_trusted(#[trigger] rounds.last().outcomes[i])
                &&& round_run(rounds.last().outcomes, i as nat).denied is None
            },
        !quarantined(false, rounds),
{
    let outcomes = rounds.last().outcomes;
    untrusted_iff_some_result_was(outcomes, outcomes.len());
}

/// A turn that is answered ends with what the model said last, which asks for nothing, and with the
/// message that records it; one that is denied ends with what the model had said and the name of
/// what was denied, and the model is not asked again.
pub proof fn how_a_turn_ends<W, H: TurnHost>(
    talk: Talk<W, H>,
    rounds: Seq<Round<W, H>>,
    end: ToolLoopEnd,
    after: Stage<W, H>,
)
    ensures
        answered(talk, rounds, end, after) ==> {
            &&& end.history@.len() == history_after(talk.first, rounds).len() + 1
            &&& continues(history_after(talk.first, rounds), end.history@)
            &&& end.history@.last().role == Role::Assistant
            &&& end.history@.last().content matches MessageContent::Text(text)
            &&& text == end.text
        },
        denied(rounds, end, after) ==> {
            &&& rounds.len() > 0
            &&& end.history@ == after_round(rounds.last())
            &&& after == rounds.last().stages.last()
            &&& text::begins_with(end.text@, rounds.last().response.text@)
            &&& end_of(rounds.last()).denied is Some
            &&& text::occurs(end.text@, end_of(rounds.last()).denied->0)
        },
{
    if answered(talk, rounds, end, after) {
        let said = history_after(talk.first, rounds);
        assert(end.history@.take(said.len() as int) =~= said);
    }
    if denied(rounds, end, after) {
        let said = rounds.last().response.text@;
        let name = end_of(rounds.last()).denied->0;
        a_denied_turn_says_what_was_denied(said, name);
        let note = end.text@.skip(said.len() as int);
        assert(end.text@.subrange(0, said.len() as int) =~= said);
        assert(end.text@ =~= said + note);
        text::what_stands_in_a_text_stands_in_a_longer_one(note, said, name);
    }
}

/// What the model wrote is stored with the tokens that it took, before any of its requests is
/// handled, and the answers without.
pub proof fn what_the_model_wrote_is_stored_with_its_tokens<W, H: TurnHost>(
    talk: Talk<W, H>,
    rounds: Seq<Round<W, H>>,
    i: int,
    j: int,
)
    requires
        rounds_held(talk, rounds),
        0 <= i < rounds.len(),
    ensures
        rounds[i].start.host.may_store(
            rounds[i].said,
            Some(rounds[i].response.usage.output_tokens),
            Ok(()),
            &rounds[i].stages.first().host,
        ),
        0 <= j < calls_of(rounds[i].response).len() ==> exists|between: Stage<W, H>|
            {
                &&& #[trigger] between.host.may_store(
                    rounds[i].answers[j],
                    None,
                    Ok(()),
                    &rounds[i].stages[j + 1].host,
                )
                &&& round_run(rounds[i].outcomes, j as nat).denied is Some ==> between
                    == rounds[i].stages[j]
                &&& round_run(rounds[i].outcomes, j as nat).denied is None ==> (talk.how)(
                    rounds[i].outcomes[j],
                    calls_of(rounds[i].response)[j],
                    rounds[i].stages[j],
                    between,
                )
            },
{
    let round = rounds[i];
    let calls = calls_of(round.response);
    assert(round_held(talk, rounds.take(i), rounds[i]));
    reveal(round_held);
    if 0 <= j < calls.len() {
        assert(request_done(
            talk.how,
            calls,
            round.outcomes,
            round.answers,
            round.stages,
            j,
        ));
        reveal(request_done);
        reveal(dealt_with);
        let between = choose|between: Stage<W, H>|
            {
                &&& #[trigger] put_down(between, round.answers[j], None, Ok(()), round.stages[j + 1])
                &&& if round_run(round.outcomes, j as nat).denied is None {
                    (talk.how)(round.outcomes[j], calls[j], round.stages[j], between)
                } else {
                    between == round.stages[j]
                }
            };
        assert(between.host.may_store(
            round.answers[j],
            None,
            Ok(()),
            &round.stages[j + 1].host,
        ));
    }
}

/// A request goes to the registry where that holds anything, and else to the tool source where the
/// persona may use the tool; what the persona may not use goes nowhere and is refused by its name.
pub proof fn where_a_request_goes<C, D: Dispatcher, H: TurnHost>(
    outcome: CallOutcome,
    caps: Capabilities<C>,
    scope: TurnScope,
    call: ToolCall,
    before: Stage<Desk<D>, H>,
    after: Stage<Desk<D>, H>,
)
    requires
        handled::<C, D, H>(outcome, caps, scope, call, before, after),
    ensures
        outcome is Capability <==> caps != Capabilities::<C>::empty(),
        outcome is Tool <==> caps == Capabilities::<C>::empty() && admits(
            tool_set(scope.ctx().allowed_tools),
            call.name@,
        ),
        outcome is Refused <==> caps == Capabilities::<C>::empty() && !admits(
            tool_set(scope.ctx().allowed_tools),
            call.name@,
        ),
        outcome matches CallOutcome::Refused(e) ==> {
            &&& after.work == before.work
            &&& before.host.may_show(outcome_data(outcome), &after.host)
            &&& e matches BastionError::ToolNotAllowed { capability }
            &&& capability@ == call.name@
        },
        outcome matches CallOutcome::Tool(said) ==> {
            &&& after.work == before.work
            &&& exists|between: H|
                {
                    &&& #[trigger] before.host.may_call(
                        call.name@,
                        call.arguments,
                        scope.ctx().owner@,
                        scope.tier(),
                        said,
                        &between,
                    )
                    &&& between.may_show(outcome_data(outcome), &after.host)
                }
        },
{
    reveal(handled);
}

/// The rounds are used up only after ten of them, when the model asks for more: what it said then is
/// stored, and nothing more is handled.
pub proof fn the_rounds_are_used_up_after_ten<W, H: TurnHost>(
    talk: Talk<W, H>,
    rounds: Seq<Round<W, H>>,
    after: Stage<W, H>,
)
    requires
        used_up(talk, rounds, after),
    ensures
        rounds.len() == 10,
        exists|response: LlmResponse, stage: Stage<W, H>, message: Message|
            {
                &&& #[trigger] heard(talk, rounds, response, stage)
                &&& response.tool_calls is Some
                &&& records_response(message, response)
                &&& after.work == stage.work
                &&& #[trigger] stage.host.may_store(
                    message,
                    Some(response.usage.output_tokens),
                    Ok(()),
                    &after.host,
                )
            },
{
    let (response, stage, message) = choose|
        response: LlmResponse,
        stage: Stage<W, H>,
        message: Message,
    |
        {
            &&& #[trigger] heard(talk, rounds, response, stage)
            &&& response.tool_calls is Some
            &&& #[trigger] recorded(stage, message, response, Ok(()), after)
        };
    assert(stage.host.may_store(
        message,
        Some(response.usage.output_tokens),
        Ok(()),
        &after.host,
    ));
}

} // verus!
