//! The adaptive cycle of a durable task: choose, act, observe, verify, adapt.
//!
//! What comes next is worked out from the stored case each time; there is no plan that is
//! walked. The functions here decide and say what is to be done; the host loads the case, asks
//! the chooser, the executor and the verifier, and carries the effects out in order. A write
//! to the store names the revision that the write before it returned, and the first effect
//! that fails ends the run with its error.
use vstd::prelude::*;
use crate::task::contract::{
    capped_u32, capped_u64, usage_after, usd_at_least, Attempt, CandidateAction, Evidence,
    TaskCase, UsageAccum, Usd, Verdict, VerificationStatus,
};
use crate::task::event::TaskLifecycleEvent;
use crate::task::{
    may_become, parked, terminal, ActionId, ApprovalRef, AttemptId, BeliefRef, BudgetKind,
    StopReason, TaskCaseId, TaskStatus,
};
use crate::text;

verus! {

/// How many attempts a task may have that sets no limit of its own.
pub const DEFAULT_STEP_CEILING: u32 = 100;

/// The number of attempts at which a task must stop.
pub open spec fn step_ceiling(case: TaskCase) -> u32 {
    match case.bounds.max_steps {
        Some(max) => max,
        None => DEFAULT_STEP_CEILING,
    }
}

/// How many attempts a task has had, in thirty-two bits: beyond those the count starts over.
pub open spec fn attempt_count(case: TaskCase) -> u32 {
    (case.attempts@.len() % 0x1_0000_0000) as u32
}

/// How many attempts a task has had.
pub fn count_attempts(case: &TaskCase) -> (r: u32)
    ensures
        r == attempt_count(*case),
{
    let count: u64 = case.attempts.len() as u64;
    (count % 0x1_0000_0000) as u32
}

/// The limit that a task has run into: time first, then attempts, tokens and money.
pub open spec fn exceeded(case: TaskCase, attempt_count: u32, wall_ms: u64) -> Option<BudgetKind> {
    let tokens = capped_u64(case.usage.input_tokens, case.usage.output_tokens);
    if case.bounds.max_wall_clock_ms is Some && wall_ms >= case.bounds.max_wall_clock_ms->0 {
        Some(BudgetKind::WallClock)
    } else if attempt_count >= step_ceiling(case) {
        Some(BudgetKind::Steps)
    } else if case.bounds.max_tokens is Some && tokens >= case.bounds.max_tokens->0 {
        Some(BudgetKind::Tokens)
    } else if case.bounds.max_cost_usd is Some && case.usage.cost_usd is Some && usd_at_least(
        case.usage.cost_usd->0,
        case.bounds.max_cost_usd->0,
    ) {
        Some(BudgetKind::Money)
    } else {
        None
    }
}

/// The limit that a task has run into, if any.
pub fn over_budget(case: &TaskCase, attempt_count: u32, wall_ms: u64) -> (r: Option<BudgetKind>)
    ensures
        r == exceeded(*case, attempt_count, wall_ms),
{
    match case.bounds.max_wall_clock_ms {
        Some(max) => {
            if wall_ms >= max {
                return Some(BudgetKind::WallClock);
            }
        },
        None => {},
    }
    let ceiling: u32 = match case.bounds.max_steps {
        Some(max) => max,
        None => DEFAULT_STEP_CEILING,
    };
    if attempt_count >= ceiling {
        return Some(BudgetKind::Steps);
    }
    match case.bounds.max_tokens {
        Some(max) => {
            let total: u64 = case.usage.input_tokens.saturating_add(case.usage.output_tokens);
            if total >= max {
                return Some(BudgetKind::Tokens);
            }
        },
        None => {},
    }
    match (case.bounds.max_cost_usd, case.usage.cost_usd) {
        (Some(max), Some(spent)) => {
            if spent.at_least(max) {
                return Some(BudgetKind::Money);
            }
        },
        _ => {},
    }
    None
}

/// What the stored case says about going on.
#[derive(Clone, Copy, Debug, PartialEq, Eq, Structural)]
pub enum Survey {
    /// The owner has no such case.
    Missing,
    /// The task is over or waits for somebody: the run ends here.
    Stop(TaskStatus),
    /// The run is to be cancelled.
    Cancel,
    /// A limit is reached.
    OverBudget(BudgetKind),
    /// The next step may be chosen; a task that has not begun is started first.
    Proceed { start: bool },
}

/// What a case says about going on.
pub open spec fn surveyed(case: Option<TaskCase>, cancel_requested: bool, wall_ms: u64) -> Survey {
    match case {
        None => Survey::Missing,
        Some(c) => if terminal(c.status) || parked(c.status) {
            Survey::Stop(c.status)
        } else if cancel_requested {
            Survey::Cancel
        } else {
            match exceeded(c, attempt_count(c), wall_ms) {
                Some(kind) => Survey::OverBudget(kind),
                None => Survey::Proceed { start: c.status == TaskStatus::Pending },
            }
        },
    }
}

/// Looks at the stored case before each step.
pub fn survey(case: Option<&TaskCase>, cancel_requested: bool, wall_ms: u64) -> (r: Survey)
    ensures
        r == surveyed(
            match case {
                Some(c) => Some(*c),
                None => None,
            },
            cancel_requested,
            wall_ms,
        ),
{
    match case {
        None => Survey::Missing,
        Some(c) => {
            if c.status.is_terminal() || matches!(
                c.status,
                TaskStatus::Paused | TaskStatus::AwaitingApproval
            ) {
                return Survey::Stop(c.status);
            }
            if cancel_requested {
                return Survey::Cancel;
            }
            match over_budget(c, count_attempts(c), wall_ms) {
                Some(kind) => Survey::OverBudget(kind),
                None => Survey::Proceed { start: c.status == TaskStatus::Pending },
            }
        },
    }
}

/// Something that the host is to do.
#[derive(Debug)]
pub enum CycleEffect {
    /// Ask the executor to give up what it has in hand; whether it can is not waited for.
    CancelExecutor,
    /// Set the status of the case.
    Transition { next: TaskStatus, reason: Option<StopReason> },
    /// Tell the observer.
    Emit(TaskLifecycleEvent),
    /// Append the attempt.
    AppendAttempt(Attempt),
    /// Record the evidence.
    RecordEvidence(Evidence),
    /// Write the case.
    UpdateCase(TaskCase),
}

/// What follows when the effects are done.
#[derive(Debug)]
pub enum CycleNext {
    /// The run ends with this status.
    Return(TaskStatus),
    /// Ask the chooser.
    Choose,
    /// Ask the executor.
    Execute,
    /// Load the case again.
    Again,
}

/// Effects in order, and what follows.
#[derive(Debug)]
pub struct CyclePlan {
    pub effects: Vec<CycleEffect>,
    pub next: CycleNext,
}

/// What the chooser decided.
#[derive(Debug)]
pub enum ChosenStep {
    Act(CandidateAction),
    Complete,
    Escalate(String),
    Impossible(String),
}

/// What an executed action brought.
#[derive(Debug)]
pub struct ActionOutcome {
    pub evidence: Vec<Evidence>,
    pub usage: UsageAccum,
    pub pending_approval: Option<ApprovalRef>,
}

/// The verdict of the latest attempt, where the oldest attempt comes first.
pub open spec fn latest_verdict(attempts: Seq<&Attempt>) -> Option<Verdict> {
    if attempts.len() == 0 {
        None
    } else {
        attempts.last().verdict
    }
}

/// The verdict of the latest attempt, where the oldest attempt comes first. An attempt that was
/// not judged has none, whatever came before it.
pub fn last_verdict<'a>(attempts: &Vec<&'a Attempt>) -> (r: Option<&'a Verdict>)
    ensures
        match r {
            Some(verdict) => latest_verdict(attempts@) == Some(*verdict),
            None => latest_verdict(attempts@) is None,
        },
{
    if attempts.len() == 0 {
        return None;
    }
    let attempt: &'a Attempt = attempts[attempts.len() - 1];
    match &attempt.verdict {
        Some(verdict) => Some(verdict),
        None => None,
    }
}

/// One owner's task on its way through the cycle.
pub struct AdaptiveCycle {
    pub owner: String,
    pub task: TaskCaseId,
}

/// The effects that end a task: its status is set, and then the one terminal event is told.
pub open spec fn finish_effects(
    cycle: AdaptiveCycle,
    status: TaskStatus,
    reason: StopReason,
) -> Seq<CycleEffect> {
    seq![
        CycleEffect::Transition { next: status, reason: Some(reason) },
        CycleEffect::Emit(
            TaskLifecycleEvent::Terminal {
                owner: cycle.owner,
                task: cycle.task,
                status,
                stop_reason: reason,
            },
        ),
    ]
}

/// The plan ends the task with this status and reason.
pub open spec fn finishes(
    plan: CyclePlan,
    cycle: AdaptiveCycle,
    status: TaskStatus,
    reason: StopReason,
) -> bool {
    plan.effects@ == finish_effects(cycle, status, reason) && plan.next == CycleNext::Return(status)
}

/// The action for which the chooser's step asks.
#[derive(Debug)]
pub enum Decision {
    Finish(CyclePlan),
    Act(CandidateAction),
}

/// The evidence with the attempt and the action that it belongs to: an action that it names
/// itself stays.
pub open spec fn stamped(e: Evidence, attempt: AttemptId, action: ActionId) -> Evidence {
    Evidence {
        attempt,
        action: match e.action {
            Some(own) => Some(own),
            None => Some(action),
        },
        ..e
    }
}

/// All the evidence of an action, each piece stamped.
pub open spec fn all_stamped(
    evidence: Seq<Evidence>,
    attempt: AttemptId,
    action: ActionId,
) -> Seq<Evidence> {
    Seq::new(evidence.len(), |i: int| stamped(evidence[i], attempt, action))
}

/// The usage of a case after one more attempt.
pub open spec fn usage_with_attempt(a: UsageAccum, step: UsageAccum, cost: Option<Usd>) -> UsageAccum {
    let merged = usage_after(a, step, cost);
    UsageAccum { steps: capped_u32(merged.steps, 1), ..merged }
}

/// `after` is `before` with one more attempt and its usage, and perhaps one more approval that
/// is waited for.
pub open spec fn with_attempt(
    before: TaskCase,
    after: TaskCase,
    attempt: AttemptId,
    step: UsageAccum,
    cost: Option<Usd>,
    approval: Option<ApprovalRef>,
) -> bool {
    &&& after.attempts@ == before.attempts@.push(attempt)
    &&& after.pending_approvals@ == match approval {
        Some(a) => before.pending_approvals@.push(a),
        None => before.pending_approvals@,
    }
    &&& after == (TaskCase {
        attempts: after.attempts,
        pending_approvals: after.pending_approvals,
        usage: usage_with_attempt(before.usage, step, cost),
        ..before
    })
}

/// The record of an attempt.
pub open spec fn records_attempt(
    a: Attempt,
    id: AttemptId,
    task: TaskCaseId,
    action: ActionId,
    beliefs: Seq<BeliefRef>,
    usage: UsageAccum,
    started_at: i64,
    ended_at: Option<i64>,
    verdict: Option<Verdict>,
) -> bool {
    &&& a.id == id && a.task == task && a.started_at == started_at && a.ended_at == ended_at
    &&& a.actions@ == seq![action]
    &&& a.belief_refs@ == beliefs
    &&& a.usage == usage && a.verdict == verdict
}

/// An attempt whose action was observed and is to be judged.
#[derive(Debug)]
pub struct PendingAttempt {
    pub id: AttemptId,
    pub action: ActionId,
    pub belief_refs: Vec<BeliefRef>,
    pub evidence: Vec<Evidence>,
    pub usage: UsageAccum,
    /// The case with the attempt already counted.
    pub case: TaskCase,
}

/// What follows an observation.
#[derive(Debug)]
pub enum Observed {
    /// Somebody must approve first: the task is parked.
    Park(CyclePlan),
    /// Tell the observer, then ask the verifier.
    Verify { told: CycleEffect, pending: PendingAttempt },
}

/// The event that an action was observed.
pub open spec fn observed_event(
    cycle: AdaptiveCycle,
    attempt: AttemptId,
    action: ActionId,
) -> CycleEffect {
    CycleEffect::Emit(
        TaskLifecycleEvent::ActionObserved {
            owner: cycle.owner,
            task: cycle.task,
            attempt,
            action,
        },
    )
}

/// The effects from `from` on record this evidence in order.
pub open spec fn records_evidence(effects: Seq<CycleEffect>, from: int, evidence: Seq<Evidence>) -> bool {
    from + evidence.len() <= effects.len() && forall|i: int|
        0 <= i < evidence.len() ==> effects[from + i] == CycleEffect::RecordEvidence(
            #[trigger] evidence[i],
        )
}

/// What follows an executed action: the attempt is counted on the case, and it is to be judged, or
/// somebody must approve and it is stored without a verdict.
pub open spec fn observes(
    cycle: AdaptiveCycle,
    case: TaskCase,
    attempt: AttemptId,
    action: CandidateAction,
    outcome: ActionOutcome,
    cost_usd: Option<Usd>,
    now: i64,
    r: Observed,
) -> bool {
    let evidence = all_stamped(outcome.evidence@, attempt, action.id);
    let n = evidence.len() as int;
    match outcome.pending_approval {
        None => {
            &&& r matches Observed::Verify { told, pending }
            &&& told == observed_event(cycle, attempt, action.id)
            &&& pending.id == attempt && pending.action == action.id
            &&& pending.belief_refs == action.belief_refs
            &&& pending.evidence@ == evidence
            &&& pending.usage == outcome.usage
            &&& with_attempt(case, pending.case, attempt, outcome.usage, cost_usd, None)
        },
        Some(approval) => {
            &&& r matches Observed::Park(plan)
            &&& plan.next == CycleNext::Return(TaskStatus::AwaitingApproval)
            &&& plan.effects@.len() == n + 6
            &&& plan.effects@[0] == observed_event(cycle, attempt, action.id)
            &&& plan.effects@[1] matches CycleEffect::AppendAttempt(record)
            &&& records_attempt(
                record,
                attempt,
                cycle.task,
                action.id,
                action.belief_refs@,
                outcome.usage,
                now,
                None,
                None,
            )
            &&& records_evidence(plan.effects@, 2, evidence)
            &&& plan.effects@[n + 2] matches CycleEffect::UpdateCase(written)
            &&& with_attempt(case, written, attempt, outcome.usage, cost_usd, Some(approval))
            &&& plan.effects@[n + 3] == (CycleEffect::Transition {
                next: TaskStatus::AwaitingApproval,
                reason: None,
            })
            &&& plan.effects@[n + 4] == CycleEffect::Emit(
                TaskLifecycleEvent::ApprovalPending {
                    owner: cycle.owner,
                    task: cycle.task,
                    approval,
                },
            )
            &&& plan.effects@[n + 5] == CycleEffect::Emit(
                TaskLifecycleEvent::StatusChanged {
                    owner: cycle.owner,
                    task: cycle.task,
                    status: TaskStatus::AwaitingApproval,
                },
            )
        },
    }
}

/// A name made of a prefix, the time and a number that is used once.
pub fn gen_id(prefix: &str, nanos: i64, n: u64) -> (r: String)
    ensures
        r@ == prefix@ + "-"@ + text::decimal_int(nanos as int) + "-"@ + text::decimal(n as nat),
{
    let mut out: String = text::concat2(prefix, "-");
    text::push_decimal_i64(&mut out, nanos);
    out.append("-");
    text::push_decimal(&mut out, n);
    assert(out@ =~= prefix@ + "-"@ + text::decimal_int(nanos as int) + "-"@ + text::decimal(
        n as nat,
    ));
    out
}

/// The plan stores a judged attempt: the attempt itself, its evidence, and the case that counts it.
pub open spec fn adapted(
    cycle: AdaptiveCycle,
    pending: PendingAttempt,
    verdict: Verdict,
    started_at: i64,
    ended_at: i64,
    plan: CyclePlan,
) -> bool {
    let n = pending.evidence@.len() as int;
    &&& plan.next == CycleNext::Again
    &&& plan.effects@.len() == n + 4
    &&& plan.effects@[0] matches CycleEffect::AppendAttempt(record)
    &&& records_attempt(
        record,
        pending.id,
        cycle.task,
        pending.action,
        pending.belief_refs@,
        pending.usage,
        started_at,
        Some(ended_at),
        Some(verdict),
    )
    &&& records_evidence(plan.effects@, 1, pending.evidence@)
    &&& plan.effects@[n + 1] == CycleEffect::Emit(
        TaskLifecycleEvent::Verified {
            owner: cycle.owner,
            task: cycle.task,
            attempt: pending.id,
            status: verdict.status,
        },
    )
    &&& plan.effects@[n + 2] == CycleEffect::UpdateCase(pending.case)
    &&& plan.effects@[n + 3] == CycleEffect::Emit(
        TaskLifecycleEvent::Adapted {
            owner: cycle.owner,
            task: cycle.task,
            attempt: pending.id,
        },
    )
}

impl AdaptiveCycle {
    /// The text of the error where the owner has no such case.
    pub fn missing_message(&self) -> (r: String)
        ensures
            r@ == "adaptive cycle: case "@ + self.task.0@ + " not found for owner"@,
    {
        text::concat3("adaptive cycle: case ", self.task.as_str(), " not found for owner")
    }

    /// Ends the task.
    pub fn finish(&self, status: TaskStatus, reason: StopReason) -> (r: CyclePlan)
        ensures
            finishes(r, *self, status, reason),
    {
        let mut effects: Vec<CycleEffect> = Vec::new();
        effects.push(CycleEffect::Transition { next: status, reason: Some(reason.clone()) });
        effects.push(
            CycleEffect::Emit(
                TaskLifecycleEvent::Terminal {
                    owner: self.owner.clone(),
                    task: self.task.clone(),
                    status,
                    stop_reason: reason,
                },
            ),
        );
        assert(effects@ =~= finish_effects(*self, status, reason));
        CyclePlan { effects, next: CycleNext::Return(status) }
    }

    /// What a look at the stored case leads to. A missing case leads nowhere: the run fails
    /// with [`AdaptiveCycle::missing_message`].
    pub fn begin(&self, survey: Survey) -> (r: Option<CyclePlan>)
        ensures
            match survey {
                Survey::Missing => r is None,
                Survey::Stop(status) => r matches Some(plan) && plan.effects@.len() == 0
                    && plan.next == CycleNext::Return(status),
                Survey::Cancel => r matches Some(plan) && plan.effects@ == seq![
                    CycleEffect::CancelExecutor,
                ] + finish_effects(*self, TaskStatus::Cancelled, StopReason::Cancelled)
                    && plan.next == CycleNext::Return(TaskStatus::Cancelled),
                Survey::OverBudget(kind) => r matches Some(plan) && finishes(
                    plan,
                    *self,
                    TaskStatus::Failed,
                    StopReason::BudgetExceeded(kind),
                ),
                Survey::Proceed { start } => r matches Some(plan) && plan.next == CycleNext::Choose
                    && plan.effects@ == if start {
                    seq![
                        CycleEffect::Transition { next: TaskStatus::Running, reason: None },
                        CycleEffect::Emit(
                            TaskLifecycleEvent::StatusChanged {
                                owner: self.owner,
                                task: self.task,
                                status: TaskStatus::Running,
                            },
                        ),
                    ]
                } else {
                    Seq::empty()
                },
            },
    {
        match survey {
            Survey::Missing => None,
            Survey::Stop(status) => Some(
                CyclePlan { effects: Vec::new(), next: CycleNext::Return(status) },
            ),
            Survey::Cancel => {
                let mut ending = self.finish(TaskStatus::Cancelled, StopReason::Cancelled);
                let mut effects: Vec<CycleEffect> = Vec::new();
                effects.push(CycleEffect::CancelExecutor);
                effects.append(&mut ending.effects);
                Some(CyclePlan { effects, next: ending.next })
            },
            Survey::OverBudget(kind) => Some(
                self.finish(TaskStatus::Failed, StopReason::BudgetExceeded(kind)),
            ),
            Survey::Proceed { start } => {
                let mut effects: Vec<CycleEffect> = Vec::new();
                if start {
                    effects.push(
                        CycleEffect::Transition { next: TaskStatus::Running, reason: None },
                    );
                    effects.push(
                        CycleEffect::Emit(
                            TaskLifecycleEvent::StatusChanged {
                                owner: self.owner.clone(),
                                task: self.task.clone(),
                                status: TaskStatus::Running,
                            },
                        ),
                    );
                }
                Some(CyclePlan { effects, next: CycleNext::Choose })
            },
        }
    }

    /// What the chooser's step leads to. Success is recorded only over a verdict that says so;
    /// a claim without one is handed on to somebody else.
    pub fn decide(&self, step: ChosenStep, last: Option<VerificationStatus>) -> (r: Decision)
        ensures
            match step {
                ChosenStep::Act(action) => r == Decision::Act(action),
                ChosenStep::Complete => r matches Decision::Finish(plan) && if last == Some(
                    VerificationStatus::Succeeded,
                ) {
                    finishes(plan, *self, TaskStatus::Completed, StopReason::Completed)
                } else {
                    exists|reason: String| #[trigger]
                        reason@ == "completion claimed without a succeeding verdict"@ && finishes(
                            plan,
                            *self,
                            TaskStatus::Escalated,
                            StopReason::Escalated(reason),
                        )
                },
                ChosenStep::Escalate(reason) => r matches Decision::Finish(plan) && finishes(
                    plan,
                    *self,
                    TaskStatus::Escalated,
                    StopReason::Escalated(reason),
                ),
                ChosenStep::Impossible(reason) => r matches Decision::Finish(plan) && finishes(
                    plan,
                    *self,
                    TaskStatus::Failed,
                    StopReason::Impossible(reason),
                ),
            },
    {
        match step {
            ChosenStep::Act(action) => Decision::Act(action),
            ChosenStep::Complete => match last {
                Some(VerificationStatus::Succeeded) => Decision::Finish(
                    self.finish(TaskStatus::Completed, StopReason::Completed),
                ),
                _ => {
                    let reason: String = "completion claimed without a succeeding verdict".to_owned();
                    assert(reason@ == "completion claimed without a succeeding verdict"@);
                    Decision::Finish(
                        self.finish(TaskStatus::Escalated, StopReason::Escalated(reason)),
                    )
                },
            },
            ChosenStep::Escalate(reason) => Decision::Finish(
                self.finish(TaskStatus::Escalated, StopReason::Escalated(reason)),
            ),
            ChosenStep::Impossible(reason) => Decision::Finish(
                self.finish(TaskStatus::Failed, StopReason::Impossible(reason)),
            ),
        }
    }

    /// What precedes the execution of an action: two events.
    pub fn announce(&self, attempt: &AttemptId, action: &ActionId) -> (r: CyclePlan)
        ensures
            r.next == CycleNext::Execute,
            r.effects@ == seq![
                CycleEffect::Emit(
                    TaskLifecycleEvent::AttemptStarted {
                        owner: self.owner,
                        task: self.task,
                        attempt: *attempt,
                    },
                ),
                CycleEffect::Emit(
                    TaskLifecycleEvent::ActionChosen {
                        owner: self.owner,
                        task: self.task,
                        attempt: *attempt,
                        action: *action,
                    },
                ),
            ],
    {
        let mut effects: Vec<CycleEffect> = Vec::new();
        effects.push(
            CycleEffect::Emit(
                TaskLifecycleEvent::AttemptStarted {
                    owner: self.owner.clone(),
                    task: self.task.clone(),
                    attempt: attempt.clone(),
                },
            ),
        );
        effects.push(
            CycleEffect::Emit(
                TaskLifecycleEvent::ActionChosen {
                    owner: self.owner.clone(),
                    task: self.task.clone(),
                    attempt: attempt.clone(),
                    action: action.clone(),
                },
            ),
        );
        CyclePlan { effects, next: CycleNext::Execute }
    }

    /// What a failure of the executor leads to: the task fails.
    pub fn executor_failed(&self, error: &str) -> (r: CyclePlan)
        ensures
            exists|reason: String| #[trigger]
                reason@ == "executor error: "@ + error@ && finishes(
                    r,
                    *self,
                    TaskStatus::Failed,
                    StopReason::Impossible(reason),
                ),
    {
        let reason: String = text::concat2("executor error: ", error);
        assert(reason@ == "executor error: "@ + error@);
        self.finish(TaskStatus::Failed, StopReason::Impossible(reason))
    }

    /// Stamps each piece of evidence with the attempt and the action that it belongs to.
    fn stamp(evidence: Vec<Evidence>, attempt: &AttemptId, action: &ActionId) -> (r: Vec<Evidence>)
        ensures
            r@ == all_stamped(evidence@, *attempt, *action),
    {
        let mut rest: Vec<Evidence> = evidence;
        let mut out: Vec<Evidence> = Vec::new();
        while rest.len() > 0
            invariant
                rest@.len() + out@.len() == evidence@.len(),
                forall|i: int|
                    0 <= i < out@.len() ==> #[trigger] out@[i] == stamped(
                        evidence@[i],
                        *attempt,
                        *action,
                    ),
                forall|i: int|
                    0 <= i < rest@.len() ==> #[trigger] rest@[i] == evidence@[out@.len() + i],
            decreases rest@.len(),
        {
            let mut piece: Evidence = rest.remove(0);
            piece.attempt = attempt.clone();
            if piece.action.is_none() {
                piece.action = Some(action.clone());
            }
            out.push(piece);
        }
        assert(out@ =~= all_stamped(evidence@, *attempt, *action));
        out
    }

    /// What an observation leads to. The attempt is counted on the case; where somebody must
    /// approve, it is stored without a verdict and the task is parked, else it is to be judged.
    pub fn observe(
        &self,
        case: TaskCase,
        attempt: &AttemptId,
        action: CandidateAction,
        outcome: ActionOutcome,
        cost_usd: Option<Usd>,
        now: i64,
    ) -> (r: Observed)
        ensures
            observes(*self, case, *attempt, action, outcome, cost_usd, now, r),
    {
        let told = CycleEffect::Emit(
            TaskLifecycleEvent::ActionObserved {
                owner: self.owner.clone(),
                task: self.task.clone(),
                attempt: attempt.clone(),
                action: action.id.clone(),
            },
        );
        let evidence: Vec<Evidence> = Self::stamp(outcome.evidence, attempt, &action.id);
        let mut counted: TaskCase = case;
        counted.usage.merge_from(&outcome.usage, cost_usd);
        counted.usage.steps = counted.usage.steps.saturating_add(1);
        counted.attempts.push(attempt.clone());
        match outcome.pending_approval {
            None => Observed::Verify {
                told,
                pending: PendingAttempt {
                    id: attempt.clone(),
                    action: action.id,
                    belief_refs: action.belief_refs,
                    evidence,
                    usage: outcome.usage,
                    case: counted,
                },
            },
            Some(approval) => {
                let ghost stamped_evidence = evidence@;
                let ghost n = evidence@.len() as int;
                let mut actions: Vec<ActionId> = Vec::new();
                actions.push(action.id);
                let record: Attempt = Attempt {
                    id: attempt.clone(),
                    task: self.task.clone(),
                    started_at: now,
                    ended_at: None,
                    actions,
                    belief_refs: action.belief_refs,
                    usage: outcome.usage,
                    verdict: None,
                };
                let mut effects: Vec<CycleEffect> = Vec::new();
                effects.push(told);
                effects.push(CycleEffect::AppendAttempt(record));
                let mut effects: Vec<CycleEffect> = Self::with_evidence(effects, evidence);
                counted.pending_approvals.push(approval.clone());
                effects.push(CycleEffect::UpdateCase(counted));
                effects.push(
                    CycleEffect::Transition { next: TaskStatus::AwaitingApproval, reason: None },
                );
                effects.push(
                    CycleEffect::Emit(
                        TaskLifecycleEvent::ApprovalPending {
                            owner: self.owner.clone(),
                            task: self.task.clone(),
                            approval,
                        },
                    ),
                );
                effects.push(
                    CycleEffect::Emit(
                        TaskLifecycleEvent::StatusChanged {
                            owner: self.owner.clone(),
                            task: self.task.clone(),
                            status: TaskStatus::AwaitingApproval,
                        },
                    ),
                );
                Observed::Park(
                    CyclePlan { effects, next: CycleNext::Return(TaskStatus::AwaitingApproval) },
                )
            },
        }
    }

    /// The effects and then the records of the evidence.
    fn with_evidence(effects: Vec<CycleEffect>, evidence: Vec<Evidence>) -> (r: Vec<CycleEffect>)
        ensures
            r@.len() == effects@.len() + evidence@.len(),
            forall|i: int| 0 <= i < effects@.len() ==> #[trigger] r@[i] == effects@[i],
            records_evidence(r@, effects@.len() as int, evidence@),
    {
        let mut out: Vec<CycleEffect> = effects;
        let mut rest: Vec<Evidence> = evidence;
        let ghost base = effects@.len() as int;
        while rest.len() > 0
            invariant
                base == effects@.len(),
                rest@.len() + out@.len() == base + evidence@.len(),
                base <= out@.len(),
                forall|i: int| 0 <= i < base ==> #[trigger] out@[i] == effects@[i],
                forall|i: int|
                    0 <= i < out@.len() - base ==> out@[base + i] == CycleEffect::RecordEvidence(
                        #[trigger] evidence@[i],
                    ),
                forall|i: int|
                    0 <= i < rest@.len() ==> #[trigger] rest@[i] == evidence@[out@.len() - base + i],
            decreases rest@.len(),
        {
            let piece: Evidence = rest.remove(0);
            out.push(CycleEffect::RecordEvidence(piece));
        }
        out
    }

    /// What a verdict leads to: the attempt and its evidence are stored, the observer is told,
    /// the case is written, and the next step is worked out anew.
    pub fn adapt(
        &self,
        pending: PendingAttempt,
        verdict: Verdict,
        started_at: i64,
        ended_at: i64,
    ) -> (r: CyclePlan)
        ensures
            adapted(*self, pending, verdict, started_at, ended_at, r),
    {
        let status: VerificationStatus = verdict.status;
        let mut actions: Vec<ActionId> = Vec::new();
        actions.push(pending.action);
        let record: Attempt = Attempt {
            id: pending.id.clone(),
            task: self.task.clone(),
            started_at,
            ended_at: Some(ended_at),
            actions,
            belief_refs: pending.belief_refs,
            usage: pending.usage,
            verdict: Some(verdict),
        };
        let mut effects: Vec<CycleEffect> = Vec::new();
        effects.push(CycleEffect::AppendAttempt(record));
        let mut effects: Vec<CycleEffect> = Self::with_evidence(effects, pending.evidence);
        effects.push(
            CycleEffect::Emit(
                TaskLifecycleEvent::Verified {
                    owner: self.owner.clone(),
                    task: self.task.clone(),
                    attempt: pending.id.clone(),
                    status,
                },
            ),
        );
        effects.push(CycleEffect::UpdateCase(pending.case));
        effects.push(
            CycleEffect::Emit(
                TaskLifecycleEvent::Adapted {
                    owner: self.owner.clone(),
                    task: self.task.clone(),
                    attempt: pending.id,
                },
            ),
        );
        CyclePlan { effects, next: CycleNext::Again }
    }
}

/// A task that has used up its attempts goes on no further: each step adds one attempt, and no
/// step is chosen once the ceiling is reached. A task that sets no ceiling has one all the
/// same.
pub proof fn a_task_cannot_run_forever(
    before: TaskCase,
    after: TaskCase,
    attempt: AttemptId,
    step: UsageAccum,
    cost: Option<Usd>,
    approval: Option<ApprovalRef>,
    cancel_requested: bool,
    wall_ms: u64,
)
    requires
        with_attempt(before, after, attempt, step, cost, approval),
    ensures
        after.attempts@.len() == before.attempts@.len() + 1,
        step_ceiling(after) == step_ceiling(before),
        attempt_count(after) >= step_ceiling(after) ==> !(surveyed(
            Some(after),
            cancel_requested,
            wall_ms,
        ) is Proceed),
{
}

/// A task that is over or parked is never stepped, whatever its limits and whoever asks.
pub proof fn a_resting_task_is_left_alone(case: TaskCase, cancel_requested: bool, wall_ms: u64)
    requires
        terminal(case.status) || parked(case.status),
    ensures
        surveyed(Some(case), cancel_requested, wall_ms) == Survey::Stop(case.status),
{
}

/// Every status that the cycle sets is one that the task may go on to: a task that is looked at
/// and neither over nor parked may be cancelled or fail, and once it runs it may complete,
/// escalate or be parked.
pub proof fn the_cycle_sets_only_allowed_statuses(
    case: TaskCase,
    cancel_requested: bool,
    wall_ms: u64,
)
    ensures
        surveyed(Some(case), cancel_requested, wall_ms) is Cancel ==> may_become(
            case.status,
            TaskStatus::Cancelled,
        ),
        surveyed(Some(case), cancel_requested, wall_ms) is OverBudget ==> may_become(
            case.status,
            TaskStatus::Failed,
        ),
        surveyed(Some(case), cancel_requested, wall_ms) matches Survey::Proceed { start } ==> if start {
            may_become(case.status, TaskStatus::Running)
        } else {
            case.status == TaskStatus::Running
        },
        forall|to: TaskStatus|
            terminal(to) || to == TaskStatus::AwaitingApproval ==> #[trigger] may_become(
                TaskStatus::Running,
                to,
            ),
{
}

/// A task that has reached one of its limits is never let proceed, whatever its other limits: its
/// input and output tokens together come up to their limit, or its cost to its limit, or its
/// attempts, or its time. The tokens are added up in full, however many they are.
pub proof fn a_spent_task_never_proceeds(case: TaskCase, cancel_requested: bool, wall_ms: u64)
    requires
        ({
            ||| case.bounds.max_wall_clock_ms matches Some(max) && wall_ms >= max
            ||| case.bounds.max_steps matches Some(max) && attempt_count(case) >= max
            ||| case.bounds.max_steps is None && attempt_count(case) >= 100
            ||| case.bounds.max_tokens matches Some(max) && case.usage.input_tokens
                + case.usage.output_tokens >= max
            ||| case.bounds.max_cost_usd matches Some(max) && (case.usage.cost_usd matches Some(
                spent,
            ) && usd_at_least(spent, max))
        }),
    ensures
        exceeded(case, attempt_count(case), wall_ms) is Some,
        !(surveyed(Some(case), cancel_requested, wall_ms) is Proceed),
        !terminal(case.status) && !parked(case.status) && !cancel_requested ==> surveyed(
            Some(case),
            cancel_requested,
            wall_ms,
        ) is OverBudget,
{
}

/// A limit is named only where it is reached, and the first of them in the order time, attempts,
/// tokens, money: each is named exactly where it is reached and none before it is.
pub proof fn the_first_limit_that_is_reached_is_named(case: TaskCase, attempts: u32, wall_ms: u64)
    ensures
        ({
            let time = case.bounds.max_wall_clock_ms matches Some(max) && wall_ms >= max;
            let steps = match case.bounds.max_steps {
                Some(max) => attempts >= max,
                None => attempts >= 100,
            };
            let tokens = case.bounds.max_tokens matches Some(max) && case.usage.input_tokens
                + case.usage.output_tokens >= max;
            let money = case.bounds.max_cost_usd matches Some(max)
                && (case.usage.cost_usd matches Some(spent) && usd_at_least(spent, max));
            let r = exceeded(case, attempts, wall_ms);
            &&& r == Some(BudgetKind::WallClock) <==> time
            &&& r == Some(BudgetKind::Steps) <==> !time && steps
            &&& r == Some(BudgetKind::Tokens) <==> !time && !steps && tokens
            &&& r == Some(BudgetKind::Money) <==> !time && !steps && !tokens && money
            &&& r is None <==> !time && !steps && !tokens && !money
        }),
{
}

/// A task that is over budget stays so: more attempts, more time, more tokens and more cost never
/// bring it back within its limits.
pub proof fn spending_more_never_helps(
    case: TaskCase,
    attempts: u32,
    wall_ms: u64,
    later: TaskCase,
    later_attempts: u32,
    later_wall_ms: u64,
)
    requires
        exceeded(case, attempts, wall_ms) is Some,
        later.bounds == case.bounds,
        later_attempts >= attempts,
        later_wall_ms >= wall_ms,
        later.usage.input_tokens >= case.usage.input_tokens,
        later.usage.output_tokens >= case.usage.output_tokens,
        case.usage.cost_usd matches Some(spent) ==> (later.usage.cost_usd matches Some(more)
            && (usd_at_least(more, spent) || more == spent)),
    ensures
        exceeded(later, later_attempts, later_wall_ms) is Some,
{
}

/// Widening a limit lets nothing be stopped that was not: a task within its limits stays so where
/// each of them is raised or lifted.
pub proof fn wider_limits_stop_nothing_more(
    case: TaskCase,
    wider: TaskCase,
    attempts: u32,
    wall_ms: u64,
)
    requires
        exceeded(case, attempts, wall_ms) is None,
        wider.usage == case.usage,
        wider.bounds.max_wall_clock_ms matches Some(w) ==> (
        case.bounds.max_wall_clock_ms matches Some(n) && n <= w),
        wider.bounds.max_tokens matches Some(w) ==> (case.bounds.max_tokens matches Some(n) && n
            <= w),
        wider.bounds.max_steps matches Some(w) ==> (case.bounds.max_steps matches Some(n) && n
            <= w),
        wider.bounds.max_steps is None ==> case.bounds.max_steps is None,
        wider.bounds.max_cost_usd matches Some(w) ==> (case.bounds.max_cost_usd matches Some(n)
            && usd_at_least(w, n)),
    ensures
        exceeded(wider, attempts, wall_ms) is None,
{
}

/// The attempts are counted one by one.
pub proof fn every_attempt_is_counted(case: TaskCase)
    requires
        case.attempts@.len() < 0x1_0000_0000,
    ensures
        attempt_count(case) == case.attempts@.len(),
{
}

/// The verdict on a task so far is that of its latest attempt, whatever the earlier ones say.
pub proof fn the_latest_attempt_has_the_word(attempts: Seq<&Attempt>)
    ensures
        attempts.len() == 0 ==> latest_verdict(attempts) is None,
        attempts.len() > 0 ==> latest_verdict(attempts) == attempts[attempts.len() - 1].verdict,
{
}

/// Evidence is handed on whole: every piece, in its order, with everything that it says, and with
/// the attempt that it belongs to; an action that it does not name is the one that was done.
pub proof fn evidence_is_handed_on_whole(
    evidence: Seq<Evidence>,
    attempt: AttemptId,
    action: ActionId,
)
    ensures
        ({
            let pieces = all_stamped(evidence, attempt, action);
            &&& pieces.len() == evidence.len()
            &&& forall|i: int|
                0 <= i < evidence.len() ==> {
                    &&& (#[trigger] pieces[i]).id == evidence[i].id
                    &&& pieces[i].attempt == attempt
                    &&& pieces[i].action == (match evidence[i].action {
                        Some(own) => Some(own),
                        None => Some(action),
                    })
                    &&& pieces[i].kind == evidence[i].kind
                    &&& pieces[i].source_ref == evidence[i].source_ref
                    &&& pieces[i].trusted == evidence[i].trusted
                    &&& pieces[i].max_tier == evidence[i].max_tier
                    &&& pieces[i].captured_at == evidence[i].captured_at
                }
        }),
{
}

/// An attempt is counted on its case: it stands behind those before it, its tokens and calls are
/// added to what was used, one step more is counted, the cost is the sum that was worked out, and an
/// approval that it waits for stands behind those that are waited for. Nothing else changes.
pub proof fn an_attempt_is_counted_on_its_case(
    before: TaskCase,
    after: TaskCase,
    attempt: AttemptId,
    step: UsageAccum,
    cost: Option<Usd>,
    approval: Option<ApprovalRef>,
)
    requires
        with_attempt(before, after, attempt, step, cost, approval),
    ensures
        after.attempts@.len() == before.attempts@.len() + 1,
        after.attempts@.last() == attempt,
        after.attempts@.drop_last() == before.attempts@,
        approval is None ==> after.pending_approvals@ == before.pending_approvals@,
        approval matches Some(a) ==> after.pending_approvals@.len()
            == before.pending_approvals@.len() + 1 && after.pending_approvals@.last() == a
            && after.pending_approvals@.drop_last() == before.pending_approvals@,
        before.usage.input_tokens + step.input_tokens <= u64::MAX ==> after.usage.input_tokens
            == before.usage.input_tokens + step.input_tokens,
        before.usage.output_tokens + step.output_tokens <= u64::MAX ==> after.usage.output_tokens
            == before.usage.output_tokens + step.output_tokens,
        before.usage.llm_calls + step.llm_calls <= u32::MAX ==> after.usage.llm_calls
            == before.usage.llm_calls + step.llm_calls,
        before.usage.steps + step.steps + 1 <= u32::MAX ==> after.usage.steps == before.usage.steps
            + step.steps + 1,
        after.usage.input_tokens >= before.usage.input_tokens,
        after.usage.output_tokens >= before.usage.output_tokens,
        after.usage.cost_usd == cost,
        after.usage.cost_coverage == step.cost_coverage,
        before.usage.cache_read_tokens + step.cache_read_tokens <= u64::MAX
            ==> after.usage.cache_read_tokens == before.usage.cache_read_tokens
            + step.cache_read_tokens,
        before.usage.cache_write_tokens + step.cache_write_tokens <= u64::MAX
            ==> after.usage.cache_write_tokens == before.usage.cache_write_tokens
            + step.cache_write_tokens,
        before.usage.wall_clock_ms + step.wall_clock_ms <= u64::MAX ==> after.usage.wall_clock_ms
            == before.usage.wall_clock_ms + step.wall_clock_ms,
        after.mode == before.mode && after.next_decision == before.next_decision,
        after.correlation == before.correlation && after.business_state == before.business_state,
        after.created_at == before.created_at && after.updated_at == before.updated_at,
        after.id == before.id && after.owner == before.owner && after.status == before.status,
        after.bounds == before.bounds && after.parent == before.parent,
        after.intent == before.intent && after.frame == before.frame,
        after.revision == before.revision && after.stop_reason == before.stop_reason,
{
    assert(after.attempts@.drop_last() =~= before.attempts@);
    if let Some(a) = approval {
        assert(after.pending_approvals@.drop_last() =~= before.pending_approvals@);
    }
}

/// What ends a task sets its status once, with the reason, and then tells the end of it once, with
/// the same status and reason; and that status is what the run returns.
pub proof fn an_end_is_stored_and_then_told(
    plan: CyclePlan,
    cycle: AdaptiveCycle,
    status: TaskStatus,
    reason: StopReason,
)
    requires
        finishes(plan, cycle, status, reason),
    ensures
        plan.next == CycleNext::Return(status),
        plan.effects@.len() == 2,
        plan.effects@[0] == (CycleEffect::Transition { next: status, reason: Some(reason) }),
        plan.effects@[1] matches CycleEffect::Emit(event) && event == (
        TaskLifecycleEvent::Terminal {
            owner: cycle.owner,
            task: cycle.task,
            status,
            stop_reason: reason,
        }),
{
}

/// Whatever an executed action brought is on its way to the store: where it is to be judged every
/// piece of evidence goes with it to the verifier, and where somebody must approve every piece is
/// recorded behind the attempt, and only then is the case written and parked.
pub proof fn what_an_action_brought_is_not_lost(
    cycle: AdaptiveCycle,
    case: TaskCase,
    attempt: AttemptId,
    action: CandidateAction,
    outcome: ActionOutcome,
    cost_usd: Option<Usd>,
    now: i64,
    r: Observed,
    i: int,
)
    requires
        observes(cycle, case, attempt, action, outcome, cost_usd, now, r),
        0 <= i < outcome.evidence@.len(),
    ensures
        match r {
            Observed::Verify { told, pending } => {
                &&& outcome.pending_approval is None
                &&& pending.evidence@.len() == outcome.evidence@.len()
                &&& pending.evidence@[i].id == outcome.evidence@[i].id
                &&& pending.evidence@[i].attempt == attempt
                &&& pending.id == attempt && pending.action == action.id
                &&& pending.usage == outcome.usage
                &&& pending.case.attempts@.last() == attempt
                &&& told == CycleEffect::Emit(
                    TaskLifecycleEvent::ActionObserved {
                        owner: cycle.owner,
                        task: cycle.task,
                        attempt,
                        action: action.id,
                    },
                )
            },
            Observed::Park(plan) => {
                &&& outcome.pending_approval is Some
                &&& plan.effects@[0] matches CycleEffect::Emit(
                    TaskLifecycleEvent::ActionObserved { attempt: seen, .. },
                ) && seen == attempt
                &&& plan.effects@[1] matches CycleEffect::AppendAttempt(record) && record.id
                    == attempt && record.verdict is None
                &&& plan.effects@[i + 2] matches CycleEffect::RecordEvidence(piece) && piece.id
                    == outcome.evidence@[i].id && piece.attempt == attempt
                &&& plan.effects@[outcome.evidence@.len() as int + 2] is UpdateCase
                &&& plan.next == CycleNext::Return(TaskStatus::AwaitingApproval)
            },
        },
{
    let evidence = all_stamped(outcome.evidence@, attempt, action.id);
    let piece = evidence[i];
    match r {
        Observed::Park(plan) => {
            assert(plan.effects@[2 + i] == CycleEffect::RecordEvidence(evidence[i]));
        },
        Observed::Verify { told, pending } => {
            assert(pending.evidence@[i] == evidence[i]);
        },
    }
}

/// A judged attempt is stored with its verdict, then all its evidence in order, and only then the
/// case that counts it; the verdict is told as it was given.
pub proof fn a_judged_attempt_is_stored_whole(
    cycle: AdaptiveCycle,
    pending: PendingAttempt,
    verdict: Verdict,
    started_at: i64,
    ended_at: i64,
    plan: CyclePlan,
    i: int,
)
    requires
        adapted(cycle, pending, verdict, started_at, ended_at, plan),
        0 <= i < pending.evidence@.len(),
    ensures
        plan.effects@[0] matches CycleEffect::AppendAttempt(record) && record.id == pending.id
            && record.task == cycle.task && record.verdict == Some(verdict) && record.started_at
            == started_at && record.ended_at == Some(ended_at) && record.actions@ == seq![
            pending.action,
        ] && record.usage == pending.usage && record.belief_refs@ == pending.belief_refs@,
        plan.effects@[i + 1] == CycleEffect::RecordEvidence(pending.evidence@[i]),
        plan.effects@[pending.evidence@.len() as int + 1] matches CycleEffect::Emit(
            TaskLifecycleEvent::Verified { status, attempt, .. },
        ) && status == verdict.status && attempt == pending.id,
        plan.effects@[pending.evidence@.len() as int + 2] == CycleEffect::UpdateCase(pending.case),
        plan.effects@.len() == pending.evidence@.len() + 4,
        plan.next == CycleNext::Again,
{
    assert(plan.effects@[1 + i] == CycleEffect::RecordEvidence(pending.evidence@[i]));
}

/// A task that is neither over nor waits is cancelled where that is asked for, and else goes on
/// within its limits; it is started exactly where it has not begun.
pub proof fn a_task_within_its_limits_goes_on(case: TaskCase, wall_ms: u64)
    requires
        case.status == TaskStatus::Pending || case.status == TaskStatus::Running,
    ensures
        surveyed(Some(case), true, wall_ms) == Survey::Cancel,
        exceeded(case, attempt_count(case), wall_ms) is None ==> surveyed(
            Some(case),
            false,
            wall_ms,
        ) == (Survey::Proceed { start: case.status == TaskStatus::Pending }),
        surveyed(None, true, wall_ms) == Survey::Missing,
        surveyed(None, false, wall_ms) == Survey::Missing,
        exceeded(case, attempt_count(case), wall_ms) matches Some(kind) ==> surveyed(
            Some(case),
            false,
            wall_ms,
        ) == Survey::OverBudget(kind),
{
}

/// The chooser's word ends a task as completed only over a succeeding verdict, is followed where it
/// gives up or hands on, and an action that it chooses is what is done.
pub proof fn what_the_chooser_says_is_followed(
    cycle: &AdaptiveCycle,
    step: ChosenStep,
    last: Option<VerificationStatus>,
    r: Decision,
)
    requires
        call_ensures(AdaptiveCycle::decide, (cycle, step, last), r),
    ensures
        step matches ChosenStep::Act(action) ==> r == Decision::Act(action),
        !(step is Act) ==> r is Finish,
        r matches Decision::Finish(plan) ==> {
            &&& plan.next == CycleNext::Return(TaskStatus::Completed) <==> step is Complete && last
                == Some(VerificationStatus::Succeeded)
            &&& step is Complete && last != Some(VerificationStatus::Succeeded) ==> plan.next
                == CycleNext::Return(TaskStatus::Escalated)
            &&& step is Escalate ==> plan.next == CycleNext::Return(TaskStatus::Escalated)
            &&& step is Impossible ==> plan.next == CycleNext::Return(TaskStatus::Failed)
        },
{
}

} // verus!
