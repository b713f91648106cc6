//! What is recorded of a task.
//!
//! Times are nanoseconds since the Unix epoch. Sums of money are carried as the bits of a
//! binary64 number; the library compares them and never computes with them.
use vstd::prelude::*;
use crate::task::{
    terminal, ActionId, ApprovalRef, ArtifactRef, AttemptId, BeliefRef, BudgetKind, EvidenceId,
    ExecutionMode, StopReason, TaskCaseId, TaskStatus,
};
use crate::json;
use crate::types::PrivacyTier;

verus! {

/// Something that somebody wants done.
#[derive(Debug, PartialEq)]
pub struct Intent {
    pub owner: String,
    pub mode: ExecutionMode,
    pub summary: String,
    pub origin: IntentOrigin,
}

/// Where an intent came from.
#[derive(Clone, Copy, Debug, PartialEq, Eq, Hash, Structural)]
pub enum IntentOrigin {
    Message,
    Event,
    Schedule,
}

/// What the task is for, and how to tell that it is done.
#[derive(Debug, PartialEq)]
pub struct Frame {
    pub objective: String,
    pub acceptance: Vec<AcceptanceCriterion>,
    pub context_refs: Vec<ArtifactRef>,
}

/// One condition of success.
#[derive(Debug, PartialEq)]
pub struct AcceptanceCriterion {
    pub description: String,
    pub check: Option<String>,
}

/// US dollars, as the bits of an IEEE 754 binary64 number.
#[derive(Clone, Copy, Debug, PartialEq, Eq, Structural)]
pub struct Usd {
    pub bits: u64,
}

/// The sign bit of a binary64 number.
pub const USD_SIGN: u64 = 0x8000_0000_0000_0000;

/// The bits of positive infinity: the largest magnitude that is a number.
pub const USD_INFINITY: u64 = 0x7ff0_0000_0000_0000;

/// The bits without the sign.
pub open spec fn usd_magnitude(a: Usd) -> int {
    if a.bits >= USD_SIGN {
        a.bits - USD_SIGN
    } else {
        a.bits as int
    }
}

/// Where a number stands among the numbers: binary64 numbers are ordered like their bits read
/// as sign and magnitude.
pub open spec fn usd_position(a: Usd) -> int {
    if a.bits >= USD_SIGN {
        -usd_magnitude(a)
    } else {
        usd_magnitude(a)
    }
}

/// The bits stand for a number, and not for NaN.
pub open spec fn usd_is_number(a: Usd) -> bool {
    usd_magnitude(a) <= USD_INFINITY
}

/// `a >= b`, as binary64 numbers compare: never so where one of them is NaN.
pub open spec fn usd_at_least(a: Usd, b: Usd) -> bool {
    usd_is_number(a) && usd_is_number(b) && usd_position(a) >= usd_position(b)
}

impl Usd {
    /// Whether this is at least `other`.
    pub fn at_least(self, other: Usd) -> (r: bool)
        ensures
            r == usd_at_least(self, other),
    {
        let a_negative: bool = self.bits >= USD_SIGN;
        let b_negative: bool = other.bits >= USD_SIGN;
        let a: u64 = if a_negative {
            self.bits - USD_SIGN
        } else {
            self.bits
        };
        let b: u64 = if b_negative {
            other.bits - USD_SIGN
        } else {
            other.bits
        };
        if a > USD_INFINITY || b > USD_INFINITY {
            false
        } else if a_negative {
            if b_negative {
                a <= b
            } else {
                a == 0 && b == 0
            }
        } else {
            b_negative || a >= b
        }
    }
}

/// The limits of a task; an absent one does not bind.
#[derive(Clone, Copy, Debug, PartialEq, Eq, Structural)]
pub struct Bounds {
    pub max_steps: Option<u32>,
    pub max_wall_clock_ms: Option<u64>,
    pub max_tokens: Option<u64>,
    pub max_cost_usd: Option<Usd>,
    pub max_parallelism: Option<u32>,
}

impl Default for Bounds {
    fn default() -> (r: Self)
        ensures
            r == (Bounds {
                max_steps: None,
                max_wall_clock_ms: None,
                max_tokens: None,
                max_cost_usd: None,
                max_parallelism: None,
            }),
    {
        Bounds {
            max_steps: None,
            max_wall_clock_ms: None,
            max_tokens: None,
            max_cost_usd: None,
            max_parallelism: None,
        }
    }
}

/// Something that could be done next, and why.
#[derive(Debug, PartialEq)]
pub struct CandidateAction {
    pub id: ActionId,
    pub kind: ActionKind,
    pub rationale: String,
    pub belief_refs: Vec<BeliefRef>,
}

/// What kind of thing it is.
#[derive(Debug, PartialEq)]
pub enum ActionKind {
    Capability { name: String, args: serde_json::Value },
    Runtime { runtime_id: String, input_ref: ArtifactRef },
    Respond,
    Delegate { child: TaskCaseId },
}

/// Something that was observed while acting.
#[derive(Debug, PartialEq)]
pub struct Evidence {
    pub id: EvidenceId,
    pub attempt: AttemptId,
    pub action: Option<ActionId>,
    pub kind: EvidenceKind,
    pub source_ref: ArtifactRef,
    pub trusted: bool,
    pub max_tier: Option<PrivacyTier>,
    pub captured_at: i64,
}

/// What kind of observation it is.
#[derive(Clone, Copy, Debug, PartialEq, Eq, Hash, Structural)]
pub enum EvidenceKind {
    ExitStatus,
    TestResult,
    Schema,
    Receipt,
    Diff,
    Artifact,
    Observation,
    Other,
}

/// Who judged.
#[derive(Debug, PartialEq)]
pub enum VerdictProvenance {
    Deterministic,
    Verifier(String),
    LlmJudge { model: String },
}

/// How far an attempt is known to have succeeded.
#[derive(Clone, Copy, Debug, PartialEq, Eq, Hash, Structural)]
pub enum VerificationStatus {
    Unverified,
    Failed,
    Partial,
    Succeeded,
}

/// The name of a verification status.
pub open spec fn verification_name(status: VerificationStatus) -> Seq<char> {
    match status {
        VerificationStatus::Unverified => "Unverified"@,
        VerificationStatus::Failed => "Failed"@,
        VerificationStatus::Partial => "Partial"@,
        VerificationStatus::Succeeded => "Succeeded"@,
    }
}

impl VerificationStatus {
    /// The name of this status.
    pub fn name(self) -> (r: &'static str)
        ensures
            r@ == verification_name(self),
    {
        match self {
            VerificationStatus::Unverified => "Unverified",
            VerificationStatus::Failed => "Failed",
            VerificationStatus::Partial => "Partial",
            VerificationStatus::Succeeded => "Succeeded",
        }
    }
}

/// A judgement of an attempt.
#[derive(Debug, PartialEq)]
pub struct Verdict {
    pub attempt: AttemptId,
    pub status: VerificationStatus,
    pub provenance: VerdictProvenance,
    pub evidence: Vec<EvidenceId>,
    pub detail: Option<String>,
}

/// How much is known about what something cost.
#[derive(Clone, Copy, Debug, PartialEq, Eq, Hash, Structural)]
pub enum BudgetCoverage {
    Reported,
    Estimated,
    Unknown,
}

/// What a task has used so far.
#[derive(Clone, Copy, Debug, PartialEq, Eq, Structural)]
pub struct UsageAccum {
    pub llm_calls: u32,
    pub steps: u32,
    pub input_tokens: u64,
    pub output_tokens: u64,
    pub cache_read_tokens: u64,
    pub cache_write_tokens: u64,
    pub cost_usd: Option<Usd>,
    pub cost_coverage: BudgetCoverage,
    pub wall_clock_ms: u64,
}

/// Nothing used, and nothing known of the cost.
pub open spec fn no_usage() -> UsageAccum {
    UsageAccum {
        llm_calls: 0,
        steps: 0,
        input_tokens: 0,
        output_tokens: 0,
        cache_read_tokens: 0,
        cache_write_tokens: 0,
        cost_usd: None,
        cost_coverage: BudgetCoverage::Unknown,
        wall_clock_ms: 0,
    }
}

/// The sum of two counters, held at the largest number that fits.
pub open spec fn capped_u64(a: u64, b: u64) -> u64 {
    if a + b > u64::MAX {
        u64::MAX
    } else {
        (a + b) as u64
    }
}

/// The sum of two counters, held at the largest number that fits.
pub open spec fn capped_u32(a: u32, b: u32) -> u32 {
    if a + b > u32::MAX {
        u32::MAX
    } else {
        (a + b) as u32
    }
}

/// The usage of a task after one more step: every counter grows by the step's, and the cost is
/// the one that the caller worked out.
pub open spec fn usage_after(a: UsageAccum, step: UsageAccum, cost: Option<Usd>) -> UsageAccum {
    UsageAccum {
        llm_calls: capped_u32(a.llm_calls, step.llm_calls),
        steps: capped_u32(a.steps, step.steps),
        input_tokens: capped_u64(a.input_tokens, step.input_tokens),
        output_tokens: capped_u64(a.output_tokens, step.output_tokens),
        cache_read_tokens: capped_u64(a.cache_read_tokens, step.cache_read_tokens),
        cache_write_tokens: capped_u64(a.cache_write_tokens, step.cache_write_tokens),
        cost_usd: cost,
        cost_coverage: step.cost_coverage,
        wall_clock_ms: capped_u64(a.wall_clock_ms, step.wall_clock_ms),
    }
}

impl Default for UsageAccum {
    fn default() -> (r: Self)
        ensures
            r == no_usage(),
    {
        UsageAccum {
            llm_calls: 0,
            steps: 0,
            input_tokens: 0,
            output_tokens: 0,
            cache_read_tokens: 0,
            cache_write_tokens: 0,
            cost_usd: None,
            cost_coverage: BudgetCoverage::Unknown,
            wall_clock_ms: 0,
        }
    }
}

impl UsageAccum {
    /// Counts tokens, without ever wrapping round.
    pub fn add_tokens(&mut self, input: u64, output: u64)
        ensures
            *final(self) == (UsageAccum {
                input_tokens: capped_u64(old(self).input_tokens, input),
                output_tokens: capped_u64(old(self).output_tokens, output),
                ..*old(self)
            }),
    {
        self.input_tokens = self.input_tokens.saturating_add(input);
        self.output_tokens = self.output_tokens.saturating_add(output);
    }

    /// Counts what one step used. `cost_usd` is the cost so far including the step, which the
    /// caller adds up.
    pub fn merge_from(&mut self, step: &UsageAccum, cost_usd: Option<Usd>)
        ensures
            *final(self) == usage_after(*old(self), *step, cost_usd),
    {
        self.llm_calls = self.llm_calls.saturating_add(step.llm_calls);
        self.steps = self.steps.saturating_add(step.steps);
        self.input_tokens = self.input_tokens.saturating_add(step.input_tokens);
        self.output_tokens = self.output_tokens.saturating_add(step.output_tokens);
        self.cache_read_tokens = self.cache_read_tokens.saturating_add(step.cache_read_tokens);
        self.cache_write_tokens = self.cache_write_tokens.saturating_add(step.cache_write_tokens);
        self.cost_usd = cost_usd;
        self.cost_coverage = step.cost_coverage;
        self.wall_clock_ms = self.wall_clock_ms.saturating_add(step.wall_clock_ms);
    }
}

/// One try at a task.
#[derive(Debug, PartialEq)]
pub struct Attempt {
    pub id: AttemptId,
    pub task: TaskCaseId,
    pub started_at: i64,
    pub ended_at: Option<i64>,
    pub actions: Vec<ActionId>,
    pub belief_refs: Vec<BeliefRef>,
    pub usage: UsageAccum,
    pub verdict: Option<Verdict>,
}

/// What is to be done next, and why.
#[derive(Debug, PartialEq)]
pub struct NextDecision {
    pub action: CandidateAction,
    pub justification: String,
}

/// State that belongs to the host and is only kept here.
#[derive(Debug, PartialEq)]
pub struct OpaqueState(pub serde_json::Value);

/// What a task is correlated with.
#[derive(Debug, PartialEq, Eq)]
pub struct CorrelationIds {
    pub attempt: Option<AttemptId>,
    pub action: Option<ActionId>,
    pub trace: Option<String>,
    pub causation: Option<String>,
    pub correlation: Option<String>,
}

impl Default for CorrelationIds {
    fn default() -> (r: Self)
        ensures
            r == (CorrelationIds {
                attempt: None,
                action: None,
                trace: None,
                causation: None,
                correlation: None,
            }),
    {
        CorrelationIds {
            attempt: None,
            action: None,
            trace: None,
            causation: None,
            correlation: None,
        }
    }
}

/// A durable task.
#[derive(Debug, PartialEq)]
pub struct TaskCase {
    pub id: TaskCaseId,
    pub owner: String,
    pub mode: ExecutionMode,
    pub intent: Intent,
    pub frame: Frame,
    pub bounds: Bounds,
    pub status: TaskStatus,
    pub stop_reason: Option<StopReason>,
    pub attempts: Vec<AttemptId>,
    pub pending_approvals: Vec<ApprovalRef>,
    pub next_decision: Option<NextDecision>,
    pub usage: UsageAccum,
    pub parent: Option<TaskCaseId>,
    pub correlation: CorrelationIds,
    pub business_state: OpaqueState,
    pub created_at: i64,
    pub updated_at: i64,
    pub revision: u64,
}

impl TaskCase {
    /// Whether the task is over.
    pub fn is_terminal(&self) -> (r: bool)
        ensures
            r == terminal(self.status),
    {
        self.status.is_terminal()
    }

    /// Whether the task needs a case in the durable store.
    pub fn requires_durable_case(&self) -> (r: bool)
        ensures
            r == (self.mode == ExecutionMode::Pursue),
    {
        self.mode.requires_durable_case()
    }

    /// The reason to stop at a limit.
    pub fn budget_stop(kind: BudgetKind) -> (r: StopReason)
        ensures
            r == StopReason::BudgetExceeded(kind),
    {
        StopReason::BudgetExceeded(kind)
    }
}

/// A copy of an optional text.
fn copy_text(text: &Option<String>) -> (r: Option<String>)
    ensures
        r == *text,
{
    match text {
        Some(text) => Some(text.clone()),
        None => None,
    }
}

impl Default for OpaqueState {
    fn default() -> (r: Self)
        ensures
            json::tree(r.0) == json::JsonTree::Null,
    {
        OpaqueState(json::null())
    }
}

impl Clone for OpaqueState {
    fn clone(&self) -> (r: Self)
        ensures
            r == *self,
    {
        OpaqueState(json::duplicate(&self.0))
    }
}

impl Clone for Intent {
    fn clone(&self) -> (r: Self)
        ensures
            r == *self,
    {
        Intent {
            owner: self.owner.clone(),
            mode: self.mode,
            summary: self.summary.clone(),
            origin: self.origin,
        }
    }
}

impl Clone for AcceptanceCriterion {
    fn clone(&self) -> (r: Self)
        ensures
            r == *self,
    {
        AcceptanceCriterion {
            description: self.description.clone(),
            check: copy_text(&self.check),
        }
    }
}

/// Two frames say the same.
pub open spec fn same_frame(a: Frame, b: Frame) -> bool {
    a.objective == b.objective && a.acceptance@ == b.acceptance@ && a.context_refs@
        == b.context_refs@
}

impl Clone for Frame {
    fn clone(&self) -> (r: Self)
        ensures
            same_frame(r, *self),
    {
        let r: Frame = Frame {
            objective: self.objective.clone(),
            acceptance: self.acceptance.clone(),
            context_refs: self.context_refs.clone(),
        };
        assert(r.acceptance@ =~= self.acceptance@);
        assert(r.context_refs@ =~= self.context_refs@);
        r
    }
}

impl Clone for ActionKind {
    fn clone(&self) -> (r: Self)
        ensures
            r == *self,
    {
        match self {
            ActionKind::Capability { name, args } => ActionKind::Capability {
                name: name.clone(),
                args: json::duplicate(args),
            },
            ActionKind::Runtime { runtime_id, input_ref } => ActionKind::Runtime {
                runtime_id: runtime_id.clone(),
                input_ref: input_ref.clone(),
            },
            ActionKind::Respond => ActionKind::Respond,
            ActionKind::Delegate { child } => ActionKind::Delegate { child: child.clone() },
        }
    }
}

/// Two actions are the same.
pub open spec fn same_action(a: CandidateAction, b: CandidateAction) -> bool {
    a.id == b.id && a.kind == b.kind && a.rationale == b.rationale && a.belief_refs@
        == b.belief_refs@
}

impl Clone for CandidateAction {
    fn clone(&self) -> (r: Self)
        ensures
            same_action(r, *self),
    {
        let r: CandidateAction = CandidateAction {
            id: self.id.clone(),
            kind: self.kind.clone(),
            rationale: self.rationale.clone(),
            belief_refs: self.belief_refs.clone(),
        };
        assert(r.belief_refs@ =~= self.belief_refs@);
        r
    }
}

/// Two decisions are the same.
pub open spec fn same_decision(a: Option<NextDecision>, b: Option<NextDecision>) -> bool {
    match (a, b) {
        (None, None) => true,
        (Some(x), Some(y)) => same_action(x.action, y.action) && x.justification
            == y.justification,
        _ => false,
    }
}

impl Clone for CorrelationIds {
    fn clone(&self) -> (r: Self)
        ensures
            r == *self,
    {
        CorrelationIds {
            attempt: match &self.attempt {
                Some(id) => Some(id.clone()),
                None => None,
            },
            action: match &self.action {
                Some(id) => Some(id.clone()),
                None => None,
            },
            trace: copy_text(&self.trace),
            causation: copy_text(&self.causation),
            correlation: copy_text(&self.correlation),
        }
    }
}

/// Two cases hold the same.
pub open spec fn same_case(a: TaskCase, b: TaskCase) -> bool {
    &&& same_frame(a.frame, b.frame)
    &&& a.attempts@ == b.attempts@
    &&& a.pending_approvals@ == b.pending_approvals@
    &&& same_decision(a.next_decision, b.next_decision)
    &&& a == (TaskCase {
        frame: a.frame,
        attempts: a.attempts,
        pending_approvals: a.pending_approvals,
        next_decision: a.next_decision,
        ..b
    })
}

impl Clone for TaskCase {
    fn clone(&self) -> (r: Self)
        ensures
            same_case(r, *self),
    {
        let r: TaskCase = TaskCase {
            id: self.id.clone(),
            owner: self.owner.clone(),
            mode: self.mode,
            intent: self.intent.clone(),
            frame: self.frame.clone(),
            bounds: self.bounds,
            status: self.status,
            stop_reason: match &self.stop_reason {
                Some(reason) => Some(reason.clone()),
                None => None,
            },
            attempts: self.attempts.clone(),
            pending_approvals: self.pending_approvals.clone(),
            next_decision: match &self.next_decision {
                Some(next) => Some(
                    NextDecision {
                        action: next.action.clone(),
                        justification: next.justification.clone(),
                    },
                ),
                None => None,
            },
            usage: self.usage,
            parent: match &self.parent {
                Some(id) => Some(id.clone()),
                None => None,
            },
            correlation: self.correlation.clone(),
            business_state: self.business_state.clone(),
            created_at: self.created_at,
            updated_at: self.updated_at,
            revision: self.revision,
        };
        assert(r.attempts@ =~= self.attempts@);
        assert(r.pending_approvals@ =~= self.pending_approvals@);
        r
    }
}

/// Amounts are ordered as numbers: among what is not NaN the order is total, and it goes by the
/// bits where both are positive and against them where both are negative. NaN is at least nothing,
/// and nothing is at least NaN. Both zeros are one.
pub proof fn amounts_are_ordered_as_numbers(a: Usd, b: Usd, c: Usd)
    ensures
        a.bits <= 0x7ff0_0000_0000_0000 && b.bits <= 0x7ff0_0000_0000_0000 ==> (usd_at_least(a, b)
            <==> a.bits >= b.bits),
        0x8000_0000_0000_0000 <= a.bits <= 0xfff0_0000_0000_0000 && 0x8000_0000_0000_0000 <= b.bits
            <= 0xfff0_0000_0000_0000 ==> (usd_at_least(a, b) <==> a.bits <= b.bits),
        a.bits <= 0x7ff0_0000_0000_0000 && 0x8000_0000_0000_0000 <= b.bits <= 0xfff0_0000_0000_0000
            ==> usd_at_least(a, b),
        0x8000_0000_0000_0000 < a.bits <= 0xfff0_0000_0000_0000 && b.bits <= 0x7ff0_0000_0000_0000
            ==> !usd_at_least(a, b),
        a.bits == 0x8000_0000_0000_0000 && b.bits == 0 ==> usd_at_least(a, b),
        0x7ff0_0000_0000_0000 < a.bits < 0x8000_0000_0000_0000 || a.bits > 0xfff0_0000_0000_0000
            ==> !usd_at_least(a, b) && !usd_at_least(b, a),
        usd_at_least(a, b) && usd_at_least(b, c) ==> usd_at_least(a, c),
{
}

/// What a step used is added to what was used before, counter by counter and never wrapping; the
/// cost is the one that was worked out, and how well it is known is as the step says.
pub proof fn usage_adds_up(a: UsageAccum, step: UsageAccum, cost: Option<Usd>)
    ensures
        ({
            let sum = usage_after(a, step, cost);
            let most = u64::MAX as int;
            &&& sum.input_tokens == if a.input_tokens + step.input_tokens <= most {
                a.input_tokens + step.input_tokens
            } else {
                most
            }
            &&& sum.output_tokens == if a.output_tokens + step.output_tokens <= most {
                a.output_tokens + step.output_tokens
            } else {
                most
            }
            &&& sum.cache_read_tokens == if a.cache_read_tokens + step.cache_read_tokens <= most {
                a.cache_read_tokens + step.cache_read_tokens
            } else {
                most
            }
            &&& sum.cache_write_tokens == if a.cache_write_tokens + step.cache_write_tokens
                <= most {
                a.cache_write_tokens + step.cache_write_tokens
            } else {
                most
            }
            &&& sum.wall_clock_ms == if a.wall_clock_ms + step.wall_clock_ms <= most {
                a.wall_clock_ms + step.wall_clock_ms
            } else {
                most
            }
            &&& sum.llm_calls == if a.llm_calls + step.llm_calls <= u32::MAX {
                a.llm_calls + step.llm_calls
            } else {
                u32::MAX as int
            }
            &&& sum.steps == if a.steps + step.steps <= u32::MAX {
                a.steps + step.steps
            } else {
                u32::MAX as int
            }
            &&& sum.cost_usd == cost
            &&& sum.cost_coverage == step.cost_coverage
        }),
{
}

/// Two cases that hold the same agree in everything.
pub proof fn the_same_case_agrees_in_everything(a: TaskCase, b: TaskCase)
    requires
        same_case(a, b),
    ensures
        a.id == b.id && a.owner == b.owner && a.mode == b.mode && a.intent == b.intent,
        a.frame.objective == b.frame.objective && a.frame.acceptance@ == b.frame.acceptance@
            && a.frame.context_refs@ == b.frame.context_refs@,
        a.bounds == b.bounds && a.status == b.status && a.stop_reason == b.stop_reason,
        a.attempts@ == b.attempts@,
        a.pending_approvals@ == b.pending_approvals@,
        a.next_decision is Some <==> b.next_decision is Some,
        a.next_decision matches Some(x) ==> (b.next_decision matches Some(y) && x.action.id
            == y.action.id && x.action.kind == y.action.kind && x.action.rationale
            == y.action.rationale && x.action.belief_refs@ == y.action.belief_refs@
            && x.justification == y.justification),
        a.usage == b.usage && a.parent == b.parent && a.correlation == b.correlation,
        a.business_state == b.business_state,
        a.created_at == b.created_at && a.updated_at == b.updated_at && a.revision == b.revision,
{
}

/// Every verification status is told by a name of its own.
pub proof fn a_name_tells_the_verification(a: VerificationStatus, b: VerificationStatus)
    ensures
        verification_name(a) == verification_name(b) ==> a == b,
{
    reveal_strlit("Unverified");
    reveal_strlit("Failed");
    reveal_strlit("Partial");
    reveal_strlit("Succeeded");
    assert("Unverified"@[0] == 'U' && "Failed"@[0] == 'F' && "Partial"@[0] == 'P' && "Succeeded"@[0]
        == 'S');
}

/// A verification status is told by the word that it is written with.
pub proof fn a_verification_is_told_by_its_own_word()
    ensures
        verification_name(VerificationStatus::Unverified) == "Unverified"@,
        verification_name(VerificationStatus::Failed) == "Failed"@,
        verification_name(VerificationStatus::Partial) == "Partial"@,
        verification_name(VerificationStatus::Succeeded) == "Succeeded"@,
{
}

/// Before anything was used every counter is nothing, and no cost is known.
pub proof fn nothing_was_used_at_first()
    ensures
        no_usage().llm_calls == 0 && no_usage().steps == 0,
        no_usage().input_tokens == 0 && no_usage().output_tokens == 0,
        no_usage().cache_read_tokens == 0 && no_usage().cache_write_tokens == 0,
        no_usage().cost_usd is None,
        no_usage().cost_coverage == BudgetCoverage::Unknown,
        no_usage().wall_clock_ms == 0,
{
}

} // verus!
