//! The one way to a capability, over the approval queue in memory.
//!
//! Whatever wants to run a capability comes through here, so that nothing runs which the
//! persona may not use, which would send data where it must not go, or which its owner has not
//! approved.
use vstd::prelude::*;
use crate::capability::approval::{
    action_hash, known_under, queued, reused, ApprovalOutcome, ApprovalRow, ApprovalRows,
    ApprovalStatus, MemoryApprovalGate,
};
use crate::capability::authority::{admits, tool_set, InvokeCtx, TaggedValue};
use crate::capability::registry::{
    after_approval, awaiting_tree, destination, outside_capabilities_get_cleared_data_only,
    tag_result, who_waits_is_told_for_what, ApprovalStep, Capabilities, CapabilityRegistry,
    InvokePlan,
};
use crate::hooks::egress::may_leave;
use crate::json;
use crate::json::JsonTree;
use crate::text;
use crate::table::{in_place, KeyView};
use crate::types::{BastionError, DenyScope, PrivacyTier};

verus! {

/// Runs capabilities.
pub trait Dispatcher {
    /// Whether one run of the capability may come to this, after which what runs capabilities is
    /// like this. Who says nothing here promises nothing.
    open spec fn may_dispatch(
        &self,
        name: Seq<char>,
        args: serde_json::Value,
        ctx: InvokeCtx,
        said: Result<serde_json::Value, BastionError>,
        after: &Self,
    ) -> bool {
        true
    }

    /// Runs the capability of this name.
    fn dispatch(&mut self, name: &str, args: &serde_json::Value, ctx: &InvokeCtx) -> (r: Result<
        serde_json::Value,
        BastionError,
    >)
        ensures
            old(self).may_dispatch(name@, *args, *ctx, r, final(self)),
    ;
}

/// The capability is registered, the persona may use it, and the data may go where it goes.
pub open spec fn within_reach<C>(caps: Capabilities<C>, name: Seq<char>, ctx: InvokeCtx) -> bool {
    let key = KeyView::Text(name);
    &&& caps.contains_key(key)
    &&& admits(tool_set(ctx.allowed_tools), name)
    &&& may_leave(ctx.privacy_tier, destination(caps[key].info.local))
}

/// Why a capability that is out of reach does not run: it is not there, the persona may not use
/// it, or the data may not go where it goes.
pub open spec fn out_of_reach<C>(
    caps: Capabilities<C>,
    name: Seq<char>,
    ctx: InvokeCtx,
    why: BastionError,
) -> bool {
    if !caps.contains_key(KeyView::Text(name)) {
        why matches BastionError::Failed(m) && m@ == "unknown capability: "@ + name
    } else if !admits(tool_set(ctx.allowed_tools), name) {
        why matches BastionError::ToolNotAllowed { capability } && capability@ == name
    } else {
        why == BastionError::PrivacyEgressBlocked
    }
}

/// What a row that does not clear its action has to say: a kept result is given back, a rejection
/// ends the turn, and anything else waits for the owner.
pub open spec fn told_by_row(
    row: ApprovalRow,
    name: Seq<char>,
    r: Result<TaggedValue, BastionError>,
) -> bool {
    if row.executed_at is Some {
        match row.result_json {
            None => r matches Ok(tagged) && json::tree(tagged.data) == JsonTree::Null,
            Some(kept) => match json::parsed(kept@) {
                Ok(tree) => r matches Ok(tagged) && json::tree(tagged.data) == tree,
                Err(message) => r matches Err(BastionError::Failed(m)) && m@ == message,
            },
        }
    } else if row.status == ApprovalStatus::Rejected {
        r matches Err(BastionError::ApprovalDenied { capability, scope }) && capability@ == name
            && scope == DenyScope::Turn
    } else {
        r matches Ok(tagged) && json::tree(tagged.data) == awaiting_tree(name)
    }
}

/// The action was approved and has not run yet.
pub open spec fn cleared(rows: ApprovalRows, key: KeyView, hash: Seq<char>) -> bool {
    known_under(rows, key, hash) && rows[key].status == ApprovalStatus::Approved
        && rows[key].executed_at is None
}

/// The row keeps the result of an action that ran.
pub open spec fn keeps_result(row: ApprovalRow, result: JsonTree, now: i64) -> bool {
    row.executed_at == Some(now) && (row.result_json matches Some(kept) && kept@ == json::printed(
        result,
    ))
}

/// Something may run: what was asked for is within reach, and where it needs approval it is
/// approved and has not run yet.
pub open spec fn may_run<C>(
    caps: Capabilities<C>,
    name: Seq<char>,
    args: JsonTree,
    ctx: InvokeCtx,
    rows: ApprovalRows,
) -> bool {
    within_reach(caps, name, ctx) && (caps[KeyView::Text(name)].info.needs_approval
        ==> exists|k: KeyView| #[trigger] cleared(rows, k, action_hash(name, args, ctx.owner@)))
}

/// The result is what the dispatcher said, and data carries the name and the trust of the
/// capability.
pub open spec fn carries(
    said: Result<serde_json::Value, BastionError>,
    name: Seq<char>,
    trusted: bool,
    r: Result<TaggedValue, BastionError>,
) -> bool {
    match said {
        Ok(data) => r matches Ok(tagged) && tagged.data == data && tagged.source@ == name
            && tagged.trusted == trusted,
        Err(e) => r == Err::<TaggedValue, BastionError>(e),
    }
}

/// Only this row may have changed.
pub open spec fn one_row_changed(before: ApprovalRows, after: ApprovalRows, key: KeyView) -> bool {
    after == before.insert(key, after[key])
}

/// What a capability that is approved and has not run yet comes to: it runs once, and its result
/// is kept.
pub open spec fn ran_as_approved<D: Dispatcher>(
    before: D,
    name: Seq<char>,
    args: serde_json::Value,
    ctx: InvokeCtx,
    trusted: bool,
    now: i64,
    rows: ApprovalRows,
    key: KeyView,
    after: D,
    rows_after: ApprovalRows,
    r: Result<TaggedValue, BastionError>,
) -> bool {
    exists|said: Result<serde_json::Value, BastionError>|
        {
            &&& #[trigger] before.may_dispatch(name, args, ctx, said, &after)
            &&& carries(said, name, trusted, r)
            &&& match said {
                Ok(data) => one_row_changed(rows, rows_after, key) && keeps_result(
                    rows_after[key],
                    json::tree(data),
                    now,
                ),
                Err(_) => rows_after == rows,
            }
        }
}

/// What a row that does not clear its action comes to: it has the word, and stays as it is, but
/// for a rejection, which is marked as reported.
pub open spec fn answered_by_row(
    name: Seq<char>,
    now: i64,
    rows: ApprovalRows,
    key: KeyView,
    after: ApprovalRows,
    r: Result<TaggedValue, BastionError>,
) -> bool {
    &&& told_by_row(rows[key], name, r)
    &&& one_row_changed(rows, after, key)
    &&& exists|said: Result<ApprovalOutcome, BastionError>| #[trigger]
        reused(rows[key], now, after[key], said)
}

/// What an action that nobody has asked for yet comes to: it waits for the owner, unless the queue
/// is full.
pub open spec fn newly_queued(
    name: Seq<char>,
    args: JsonTree,
    owner: Seq<char>,
    now: i64,
    before: MemoryApprovalGate,
    after: MemoryApprovalGate,
    r: Result<TaggedValue, BastionError>,
) -> bool {
    if before.next() < i64::MAX {
        let key = KeyView::Number(before.next() as int);
        &&& r matches Ok(tagged) && json::tree(tagged.data) == awaiting_tree(name)
        &&& one_row_changed(before.rows(), after.rows(), key)
        &&& after.order() == before.order().push(after.rows()[key])
        &&& after.next() == before.next() + 1
        &&& queued(after.rows()[key], before.next(), owner, name, args, now)
    } else {
        after == before && (r matches Err(BastionError::Failed(m)) && m@
            == "approval queue is full"@)
    }
}

/// What an invocation comes to, and what becomes of the queue and of what runs capabilities. What
/// is out of reach fails. What needs no approval runs once, and so does what is approved; whatever
/// else needs approval is answered by the queue, and nothing runs.
pub open spec fn invoked<C, D: Dispatcher>(
    caps: Capabilities<C>,
    name: Seq<char>,
    args: serde_json::Value,
    ctx: InvokeCtx,
    now: i64,
    before: MemoryApprovalGate,
    runner: D,
    after: MemoryApprovalGate,
    runner_after: D,
    r: Result<TaggedValue, BastionError>,
) -> bool {
    let info = caps[KeyView::Text(name)].info;
    let hash = action_hash(name, json::tree(args), ctx.owner@);
    let rows = before.rows();
    &&& r matches Ok(tagged) ==> tagged.source@ == name && tagged.trusted == info.trusted
    &&& if !within_reach(caps, name, ctx) {
        &&& after == before
        &&& runner_after == runner
        &&& r matches Err(why) && out_of_reach(caps, name, ctx, why)
    } else if !info.needs_approval {
        &&& after == before
        &&& exists|said: Result<serde_json::Value, BastionError>| #[trigger]
            runner.may_dispatch(name, args, ctx, said, &runner_after) && carries(
                said,
                name,
                info.trusted,
                r,
            )
    } else {
        &&& forall|k: KeyView| #[trigger]
            known_under(rows, k, hash) ==> after.next() == before.next() && after.order()
                == in_place(before.order(), after.rows()) && if cleared(rows, k, hash) {
                ran_as_approved(
                    runner,
                    name,
                    args,
                    ctx,
                    info.trusted,
                    now,
                    rows,
                    k,
                    runner_after,
                    after.rows(),
                    r,
                )
            } else {
                runner_after == runner && answered_by_row(name, now, rows, k, after.rows(), r)
            }
        &&& (forall|k: KeyView| !#[trigger] known_under(rows, k, hash)) ==> runner_after == runner
            && newly_queued(
            name,
            json::tree(args),
            ctx.owner@,
            now,
            before,
            after,
            r,
        )
    }
}

impl<C> CapabilityRegistry<C> {
    /// Runs a capability, or says why it does not run. What is out of reach fails and asks
    /// nobody. What needs no approval runs once. What needs approval runs, and once, only where
    /// its owner has approved it and it has not run yet, and its result is then kept; else the
    /// queue has the word. Whether something ran shows in the dispatcher: where nothing did, it is
    /// as it was.
    pub fn invoke_over<D: Dispatcher>(
        &self,
        gate: &mut MemoryApprovalGate,
        dispatcher: &mut D,
        name: &str,
        args: &serde_json::Value,
        ctx: &InvokeCtx,
        now: i64,
    ) -> (r: Result<TaggedValue, BastionError>)
        ensures
            invoked::<C, D>(
                self@,
                name@,
                *args,
                *ctx,
                now,
                *old(gate),
                *old(dispatcher),
                *final(gate),
                *final(dispatcher),
                r,
            ),
            !may_run(self@, name@, json::tree(*args), *ctx, old(gate).rows()) ==> *final(dispatcher)
                == *old(dispatcher),
    {
        let ghost rows = gate.rows();
        let ghost hash = action_hash(name@, json::tree(*args), ctx.owner@);
        let plan: InvokePlan = match self.invoke(name, ctx) {
            Ok(plan) => plan,
            Err(e) => return Err(e),
        };
        let trusted: bool = match plan {
            InvokePlan::Dispatch { trusted } => {
                let said: Result<serde_json::Value, BastionError> = dispatcher.dispatch(
                    name,
                    args,
                    ctx,
                );
                assert(old(dispatcher).may_dispatch(name@, *args, *ctx, said, dispatcher));
                return match said {
                    Ok(data) => Ok(tag_result(name, trusted, data)),
                    Err(e) => Err(e),
                };
            },
            InvokePlan::AskApproval { trusted } => trusted,
        };
        assert(forall|k: KeyView| #[trigger] cleared(rows, k, hash) ==> known_under(rows, k, hash));
        let outcome: ApprovalOutcome = match gate.enqueue_or_reuse(
            ctx.owner.as_str(),
            name,
            args,
            now,
        ) {
            Ok(outcome) => outcome,
            Err(e) => return Err(e),
        };
        proof {
            if outcome is ApprovedPendingExecution {
                let k = choose|k: KeyView| #[trigger] known_under(rows, k, hash);
                assert(cleared(rows, k, hash));
                assert(gate.rows() =~= rows);
            }
        }
        match after_approval(name, trusted, outcome) {
            ApprovalStep::Return(tagged) => Ok(tagged),
            ApprovalStep::Deny(e) => Err(e),
            ApprovalStep::DispatchAndRecord(id) => {
                let said: Result<serde_json::Value, BastionError> = dispatcher.dispatch(
                    name,
                    args,
                    ctx,
                );
                assert(old(dispatcher).may_dispatch(name@, *args, *ctx, said, dispatcher));
                match said {
                    Err(e) => Err(e),
                    Ok(data) => match gate.record_executed(id, &data, now) {
                        Ok(_) => Ok(tag_result(name, trusted, data)),
                        Err(e) => Err(e),
                    },
                }
            },
        }
    }
}

/// An approval is good for one run: an action whose result is kept is cleared no more, whatever
/// is asked for next.
pub proof fn an_approval_is_good_for_one_run(
    rows: ApprovalRows,
    key: KeyView,
    hash: Seq<char>,
    result: JsonTree,
    ran_at: i64,
    asked_at: i64,
    after: ApprovalRow,
    said: Result<ApprovalOutcome, BastionError>,
)
    requires
        keeps_result(rows[key], result, ran_at),
        reused(rows[key], asked_at, after, said),
    ensures
        !cleared(rows, key, hash),
        !cleared(rows.insert(key, after), key, hash),
        !(said matches Ok(ApprovalOutcome::ApprovedPendingExecution(_))),
{
}

/// What may run is run once by an invocation, and nothing else is: neither what is out of reach
/// nor what waits for an approval, was rejected or has run already.
pub proof fn an_invocation_runs_at_most_once<C, D: Dispatcher>(
    caps: Capabilities<C>,
    name: Seq<char>,
    args: serde_json::Value,
    ctx: InvokeCtx,
    now: i64,
    before: MemoryApprovalGate,
    runner: D,
    after: MemoryApprovalGate,
    runner_after: D,
    r: Result<TaggedValue, BastionError>,
    runs: spec_fn(D) -> nat,
)
    requires
        invoked::<C, D>(caps, name, args, ctx, now, before, runner, after, runner_after, r),
        forall|
            d: D,
            n: Seq<char>,
            a: serde_json::Value,
            c: InvokeCtx,
            said: Result<serde_json::Value, BastionError>,
            then: D,
        | #[trigger]
            d.may_dispatch(n, a, c, said, &then) ==> runs(then) == runs(d) + 1,
    ensures
        runs(runner_after) == runs(runner) + if may_run(
            caps,
            name,
            json::tree(args),
            ctx,
            before.rows(),
        ) {
            1nat
        } else {
            0nat
        },
{
    let rows = before.rows();
    let hash = action_hash(name, json::tree(args), ctx.owner@);
    if within_reach(caps, name, ctx) && caps[KeyView::Text(name)].info.needs_approval {
        if may_run(caps, name, json::tree(args), ctx, rows) {
            let k = choose|k: KeyView| #[trigger] cleared(rows, k, hash);
            assert(known_under(rows, k, hash));
        } else if exists|k: KeyView| #[trigger] known_under(rows, k, hash) {
            let k = choose|k: KeyView| #[trigger] known_under(rows, k, hash);
            assert(!cleared(rows, k, hash));
        }
    }
}

/// A capability is within reach exactly where it is registered, the persona's list has it or there
/// is no list, and the data is cleared for the cloud, or has a tier at all where the capability
/// stays on the host.
pub proof fn what_is_within_reach<C>(caps: Capabilities<C>, name: Seq<char>, ctx: InvokeCtx)
    ensures
        within_reach(caps, name, ctx) <==> {
            let key = KeyView::Text(name);
            &&& caps.contains_key(key)
            &&& match ctx.allowed_tools {
                None => true,
                Some(names) => exists|i: int| 0 <= i < names@.len() && #[trigger] names@[i]@ == name,
            }
            &&& ctx.privacy_tier == Some(PrivacyTier::CloudOk) || (ctx.privacy_tier is Some
                && caps[key].info.local)
        },
{
    outside_capabilities_get_cleared_data_only(ctx.privacy_tier);
}

/// What is out of reach runs nowhere, is queued nowhere, and fails with the first of the reasons:
/// it is not there, the persona may not use it, or the data may not go there.
pub proof fn what_is_out_of_reach_is_refused<C, D: Dispatcher>(
    caps: Capabilities<C>,
    name: Seq<char>,
    args: serde_json::Value,
    ctx: InvokeCtx,
    now: i64,
    before: MemoryApprovalGate,
    runner: D,
    after: MemoryApprovalGate,
    runner_after: D,
    r: Result<TaggedValue, BastionError>,
)
    requires
        invoked::<C, D>(caps, name, args, ctx, now, before, runner, after, runner_after, r),
        !within_reach(caps, name, ctx),
    ensures
        after == before,
        runner_after == runner,
        if !caps.contains_key(KeyView::Text(name)) {
            r matches Err(BastionError::Failed(m)) && text::occurs(m@, name)
        } else if !admits(tool_set(ctx.allowed_tools), name) {
            r matches Err(BastionError::ToolNotAllowed { capability }) && capability@ == name
        } else {
            r == Err::<TaggedValue, BastionError>(BastionError::PrivacyEgressBlocked)
        },
{
    text::what_is_written_last_stands_there("unknown capability: "@, name);
}

/// What runs is answered by what it gave, under its own name and with its own trust, and what fails
/// by its failure; what needs no approval leaves the queue alone.
pub proof fn what_runs_is_answered_by_what_it_gave<C, D: Dispatcher>(
    caps: Capabilities<C>,
    name: Seq<char>,
    args: serde_json::Value,
    ctx: InvokeCtx,
    now: i64,
    before: MemoryApprovalGate,
    runner: D,
    after: MemoryApprovalGate,
    runner_after: D,
    r: Result<TaggedValue, BastionError>,
)
    requires
        invoked::<C, D>(caps, name, args, ctx, now, before, runner, after, runner_after, r),
        may_run(caps, name, json::tree(args), ctx, before.rows()),
    ensures
        exists|said: Result<serde_json::Value, BastionError>|
            {
                &&& #[trigger] runner.may_dispatch(name, args, ctx, said, &runner_after)
                &&& match said {
                    Ok(data) => r matches Ok(tagged) && tagged.data == data && tagged.source@
                        == name && tagged.trusted == caps[KeyView::Text(name)].info.trusted,
                    Err(e) => r == Err::<TaggedValue, BastionError>(e),
                }
            },
        !caps[KeyView::Text(name)].info.needs_approval ==> after == before,
{
    let rows = before.rows();
    let hash = action_hash(name, json::tree(args), ctx.owner@);
    if caps[KeyView::Text(name)].info.needs_approval {
        let k = choose|k: KeyView| #[trigger] cleared(rows, k, hash);
        assert(known_under(rows, k, hash));
    }
}

/// What needs approval and was never asked for waits: it does not run, its asker is told that it
/// waits, and it stands at the end of the queue as it was asked for.
pub proof fn what_was_never_asked_for_waits<C, D: Dispatcher>(
    caps: Capabilities<C>,
    name: Seq<char>,
    args: serde_json::Value,
    ctx: InvokeCtx,
    now: i64,
    before: MemoryApprovalGate,
    runner: D,
    after: MemoryApprovalGate,
    runner_after: D,
    r: Result<TaggedValue, BastionError>,
)
    requires
        invoked::<C, D>(caps, name, args, ctx, now, before, runner, after, runner_after, r),
        within_reach(caps, name, ctx),
        caps[KeyView::Text(name)].info.needs_approval,
        forall|k: KeyView|
            !#[trigger] known_under(
                before.rows(),
                k,
                action_hash(name, json::tree(args), ctx.owner@),
            ),
        before.next() < i64::MAX,
    ensures
        runner_after == runner,
        r matches Ok(tagged) && (json::tree(tagged.data) matches JsonTree::Object(fields)
            && fields.contains_key("awaiting_approval"@) && fields["awaiting_approval"@]
            == JsonTree::Bool(true) && fields["capability"@] == JsonTree::Text(name)),
        after.order().len() == before.order().len() + 1,
        ({
            let row = after.order().last();
            &&& row.owner_id@ == ctx.owner@
            &&& row.capability_name@ == name
            &&& row.args_json@ == json::printed(json::tree(args))
            &&& row.status == ApprovalStatus::Pending
            &&& row.executed_at is None
            &&& row.created_at == now
        }),
{
    who_waits_is_told_for_what(name);
}

/// Of an action that was approved and ran a second request gets the result of the first, and
/// nothing runs again, where the result reads back from its text.
pub proof fn a_second_request_gets_the_first_result<C, D: Dispatcher>(
    caps: Capabilities<C>,
    name: Seq<char>,
    args: serde_json::Value,
    ctx: InvokeCtx,
    now: i64,
    before: MemoryApprovalGate,
    runner: D,
    middle: MemoryApprovalGate,
    runner_middle: D,
    first: Result<TaggedValue, BastionError>,
    later: i64,
    after: MemoryApprovalGate,
    runner_after: D,
    second: Result<TaggedValue, BastionError>,
    key: KeyView,
)
    requires
        invoked::<C, D>(
            caps,
            name,
            args,
            ctx,
            now,
            before,
            runner,
            middle,
            runner_middle,
            first,
        ),
        invoked::<C, D>(
            caps,
            name,
            args,
            ctx,
            later,
            middle,
            runner_middle,
            after,
            runner_after,
            second,
        ),
        within_reach(caps, name, ctx),
        caps[KeyView::Text(name)].info.needs_approval,
        cleared(before.rows(), key, action_hash(name, json::tree(args), ctx.owner@)),
        known_under(middle.rows(), key, action_hash(name, json::tree(args), ctx.owner@)),
        first matches Ok(tagged) && json::reads_as(
            json::printed(json::tree(tagged.data)),
            json::tree(tagged.data),
        ),
    ensures
        runner_after == runner_middle,
        second matches Ok(tagged) && json::tree(tagged.data) == json::tree(first->Ok_0.data)
            && tagged.source@ == name && tagged.trusted == first->Ok_0.trusted,
{
    let hash = action_hash(name, json::tree(args), ctx.owner@);
    assert(known_under(before.rows(), key, hash));
    assert(!cleared(middle.rows(), key, hash));
}

/// What needs approval and was asked for before is answered by its row where it does not run: a
/// result that was kept is given back, a rejection ends the turn, and what waits goes on waiting.
/// Nothing runs.
pub proof fn a_row_that_does_not_clear_has_the_word<C, D: Dispatcher>(
    caps: Capabilities<C>,
    name: Seq<char>,
    args: serde_json::Value,
    ctx: InvokeCtx,
    now: i64,
    before: MemoryApprovalGate,
    runner: D,
    after: MemoryApprovalGate,
    runner_after: D,
    r: Result<TaggedValue, BastionError>,
    key: KeyView,
)
    requires
        invoked::<C, D>(caps, name, args, ctx, now, before, runner, after, runner_after, r),
        within_reach(caps, name, ctx),
        caps[KeyView::Text(name)].info.needs_approval,
        known_under(before.rows(), key, action_hash(name, json::tree(args), ctx.owner@)),
    ensures
        ({
            let row = before.rows()[key];
            if row.executed_at is Some {
                &&& runner_after == runner
                &&& after.rows() =~= before.rows()
                &&& row.result_json is None ==> (r matches Ok(tagged) && json::tree(tagged.data)
                    == JsonTree::Null)
                &&& row.result_json matches Some(kept) ==> (json::parsed(kept@) matches Ok(tree)
                    ==> (r matches Ok(tagged) && json::tree(tagged.data) == tree))
            } else if row.status == ApprovalStatus::Rejected {
                &&& runner_after == runner
                &&& r matches Err(BastionError::ApprovalDenied { capability, scope })
                &&& capability@ == name
                &&& scope == DenyScope::Turn
                &&& after.rows()[key].executed_at == Some(now)
            } else if row.status != ApprovalStatus::Approved {
                &&& runner_after == runner
                &&& after.rows() =~= before.rows()
                &&& r matches Ok(tagged)
                &&& json::tree(tagged.data) matches JsonTree::Object(fields)
                &&& fields["awaiting_approval"@] == JsonTree::Bool(true)
                &&& fields["capability"@] == JsonTree::Text(name)
            } else {
                r is Ok ==> after.rows()[key].executed_at == Some(now)
            }
        }),
{
    who_waits_is_told_for_what(name);
    let hash = action_hash(name, json::tree(args), ctx.owner@);
    let row = before.rows()[key];
    if cleared(before.rows(), key, hash) {
    } else {
        assert(answered_by_row(name, now, before.rows(), key, after.rows(), r));
    }
}

/// An invocation touches one row of the queue at most: that of the action, or a new one for it.
pub proof fn an_invocation_touches_one_row_at_most<C, D: Dispatcher>(
    caps: Capabilities<C>,
    name: Seq<char>,
    args: serde_json::Value,
    ctx: InvokeCtx,
    now: i64,
    before: MemoryApprovalGate,
    runner: D,
    after: MemoryApprovalGate,
    runner_after: D,
    r: Result<TaggedValue, BastionError>,
    other: KeyView,
)
    requires
        invoked::<C, D>(caps, name, args, ctx, now, before, runner, after, runner_after, r),
        before.rows().contains_key(other),
        before.rows()[other].idempotency_hash@ != action_hash(name, json::tree(args), ctx.owner@),
        other != KeyView::Number(before.next() as int),
    ensures
        after.rows().contains_key(other),
        after.rows()[other] == before.rows()[other],
{
    let rows = before.rows();
    let hash = action_hash(name, json::tree(args), ctx.owner@);
    if within_reach(caps, name, ctx) && caps[KeyView::Text(name)].info.needs_approval {
        if exists|k: KeyView| #[trigger] known_under(rows, k, hash) {
            let k = choose|k: KeyView| #[trigger] known_under(rows, k, hash);
            assert(k != other);
        }
    }
}

} // verus!
