//! Durable tasks: their states, their identities and their records.
use vstd::prelude::*;

pub mod contract;
pub mod cycle;
pub mod drive;
pub mod event;
pub mod memory;
pub mod orchestration;
pub mod store;
pub mod verify;

verus! {

/// How an intent is served.
#[derive(Clone, Copy, Debug, PartialEq, Eq, Hash, Structural)]
pub enum ExecutionMode {
    /// Answer, and be done.
    Respond,
    /// Do one thing now.
    Act,
    /// Keep at it until it is done.
    Pursue,
}

impl ExecutionMode {
    /// Whether this mode needs a case in the durable store: only pursuing does.
    pub fn requires_durable_case(self) -> (r: bool)
        ensures
            r == (self == ExecutionMode::Pursue),
    {
        matches!(self, ExecutionMode::Pursue)
    }
}

/// Where a task stands.
#[derive(Clone, Copy, Debug, PartialEq, Eq, Hash, Structural)]
pub enum TaskStatus {
    Pending,
    Running,
    AwaitingApproval,
    Paused,
    Completed,
    Escalated,
    Cancelled,
    Failed,
}

/// The task is over.
pub open spec fn terminal(status: TaskStatus) -> bool {
    status == TaskStatus::Completed || status == TaskStatus::Escalated || status
        == TaskStatus::Cancelled || status == TaskStatus::Failed
}

/// A task waits for something outside the runtime.
pub open spec fn parked(status: TaskStatus) -> bool {
    status == TaskStatus::AwaitingApproval || status == TaskStatus::Paused
}

/// A task may go from one status to the other. A running task may be parked or ended in any
/// way; one that is not running may start to run, be cancelled or fail; one that is over stays
/// as it is.
pub open spec fn may_become(from: TaskStatus, to: TaskStatus) -> bool {
    if from == TaskStatus::Running {
        parked(to) || terminal(to)
    } else {
        !terminal(from) && (to == TaskStatus::Running || to == TaskStatus::Cancelled || to
            == TaskStatus::Failed)
    }
}

impl TaskStatus {
    /// Whether the task is over.
    pub fn is_terminal(self) -> (r: bool)
        ensures
            r == terminal(self),
    {
        matches!(
            self,
            TaskStatus::Completed | TaskStatus::Escalated | TaskStatus::Cancelled
                | TaskStatus::Failed
        )
    }

    /// Whether the task may go on to `next`.
    pub fn can_transition_to(self, next: TaskStatus) -> (r: bool)
        ensures
            r == may_become(self, next),
    {
        match self {
            TaskStatus::Running => matches!(
                next,
                TaskStatus::AwaitingApproval | TaskStatus::Paused | TaskStatus::Completed
                    | TaskStatus::Escalated | TaskStatus::Cancelled | TaskStatus::Failed
            ),
            TaskStatus::Pending | TaskStatus::AwaitingApproval | TaskStatus::Paused => matches!(
                next,
                TaskStatus::Running | TaskStatus::Cancelled | TaskStatus::Failed
            ),
            TaskStatus::Completed | TaskStatus::Escalated | TaskStatus::Cancelled
                | TaskStatus::Failed => false,
        }
    }

    /// The name of this status.
    pub fn name(self) -> (r: &'static str)
        ensures
            r@ == status_name(self),
    {
        match self {
            TaskStatus::Pending => "Pending",
            TaskStatus::Running => "Running",
            TaskStatus::AwaitingApproval => "AwaitingApproval",
            TaskStatus::Paused => "Paused",
            TaskStatus::Completed => "Completed",
            TaskStatus::Escalated => "Escalated",
            TaskStatus::Cancelled => "Cancelled",
            TaskStatus::Failed => "Failed",
        }
    }
}

/// The name of a status.
pub open spec fn status_name(status: TaskStatus) -> Seq<char> {
    match status {
        TaskStatus::Pending => "Pending"@,
        TaskStatus::Running => "Running"@,
        TaskStatus::AwaitingApproval => "AwaitingApproval"@,
        TaskStatus::Paused => "Paused"@,
        TaskStatus::Completed => "Completed"@,
        TaskStatus::Escalated => "Escalated"@,
        TaskStatus::Cancelled => "Cancelled"@,
        TaskStatus::Failed => "Failed"@,
    }
}

/// A task that is over stays over: no status follows a terminal one.
pub proof fn nothing_follows_a_terminal_status(from: TaskStatus, to: TaskStatus)
    requires
        terminal(from),
    ensures
        !may_become(from, to),
{
}

/// No status follows itself, and none leads back to the beginning.
pub proof fn a_status_is_left_for_another(from: TaskStatus, to: TaskStatus)
    requires
        may_become(from, to),
    ensures
        from != to,
        to != TaskStatus::Pending,
{
}

/// Any task that is not over can be cancelled, and can fail.
pub proof fn an_open_task_can_always_be_ended(from: TaskStatus)
    requires
        !terminal(from),
    ensures
        may_become(from, TaskStatus::Cancelled),
        may_become(from, TaskStatus::Failed),
{
}

/// A task completes or escalates from running, never from anywhere else.
pub proof fn only_a_running_task_completes_or_escalates(from: TaskStatus, to: TaskStatus)
    requires
        may_become(from, to),
        to == TaskStatus::Completed || to == TaskStatus::Escalated,
    ensures
        from == TaskStatus::Running,
{
}

/// A limit that a task can run into.
#[derive(Clone, Copy, Debug, PartialEq, Eq, Hash, Structural)]
pub enum BudgetKind {
    Steps,
    WallClock,
    Tokens,
    Money,
    Parallelism,
}

/// The name of a limit.
pub open spec fn budget_name(kind: BudgetKind) -> Seq<char> {
    match kind {
        BudgetKind::Steps => "Steps"@,
        BudgetKind::WallClock => "WallClock"@,
        BudgetKind::Tokens => "Tokens"@,
        BudgetKind::Money => "Money"@,
        BudgetKind::Parallelism => "Parallelism"@,
    }
}

impl BudgetKind {
    /// The name of this limit.
    pub fn name(self) -> (r: &'static str)
        ensures
            r@ == budget_name(self),
    {
        match self {
            BudgetKind::Steps => "Steps",
            BudgetKind::WallClock => "WallClock",
            BudgetKind::Tokens => "Tokens",
            BudgetKind::Money => "Money",
            BudgetKind::Parallelism => "Parallelism",
        }
    }
}

/// Why a task is over.
#[derive(Debug, PartialEq)]
pub enum StopReason {
    Completed,
    BudgetExceeded(BudgetKind),
    Cancelled,
    AwaitingApproval,
    Impossible(String),
    Escalated(String),
}

impl Clone for StopReason {
    fn clone(&self) -> (r: Self)
        ensures
            r == *self,
    {
        match self {
            StopReason::Completed => StopReason::Completed,
            StopReason::BudgetExceeded(kind) => StopReason::BudgetExceeded(*kind),
            StopReason::Cancelled => StopReason::Cancelled,
            StopReason::AwaitingApproval => StopReason::AwaitingApproval,
            StopReason::Impossible(reason) => StopReason::Impossible(reason.clone()),
            StopReason::Escalated(reason) => StopReason::Escalated(reason.clone()),
        }
    }
}

/// Names a task case.
#[derive(Debug, PartialEq, Eq, Hash)]
pub struct TaskCaseId(pub String);

impl TaskCaseId {
    /// The name as text.
    pub fn as_str(&self) -> (r: &str)
        ensures
            r@ == self.0@,
    {
        self.0.as_str()
    }
}

impl Clone for TaskCaseId {
    fn clone(&self) -> (r: Self)
        ensures
            r == *self,
    {
        TaskCaseId(self.0.clone())
    }
}

impl From<String> for TaskCaseId {
    fn from(s: String) -> (r: Self) {
        TaskCaseId(s)
    }
}

impl vstd::std_specs::convert::FromSpecImpl<String> for TaskCaseId {
    open spec fn obeys_from_spec() -> bool {
        true
    }

    open spec fn from_spec(s: String) -> Self {
        TaskCaseId(s)
    }
}

/// Names one attempt at a task.
#[derive(Debug, PartialEq, Eq, Hash)]
pub struct AttemptId(pub String);

impl AttemptId {
    /// The name as text.
    pub fn as_str(&self) -> (r: &str)
        ensures
            r@ == self.0@,
    {
        self.0.as_str()
    }
}

impl Clone for AttemptId {
    fn clone(&self) -> (r: Self)
        ensures
            r == *self,
    {
        AttemptId(self.0.clone())
    }
}

impl From<String> for AttemptId {
    fn from(s: String) -> (r: Self) {
        AttemptId(s)
    }
}

impl vstd::std_specs::convert::FromSpecImpl<String> for AttemptId {
    open spec fn obeys_from_spec() -> bool {
        true
    }

    open spec fn from_spec(s: String) -> Self {
        AttemptId(s)
    }
}

/// Names an action.
#[derive(Debug, PartialEq, Eq, Hash)]
pub struct ActionId(pub String);

impl ActionId {
    /// The name as text.
    pub fn as_str(&self) -> (r: &str)
        ensures
            r@ == self.0@,
    {
        self.0.as_str()
    }
}

impl Clone for ActionId {
    fn clone(&self) -> (r: Self)
        ensures
            r == *self,
    {
        ActionId(self.0.clone())
    }
}

impl From<String> for ActionId {
    fn from(s: String) -> (r: Self) {
        ActionId(s)
    }
}

impl vstd::std_specs::convert::FromSpecImpl<String> for ActionId {
    open spec fn obeys_from_spec() -> bool {
        true
    }

    open spec fn from_spec(s: String) -> Self {
        ActionId(s)
    }
}

/// Names a piece of evidence.
#[derive(Debug, PartialEq, Eq, Hash)]
pub struct EvidenceId(pub String);

impl EvidenceId {
    /// The name as text.
    pub fn as_str(&self) -> (r: &str)
        ensures
            r@ == self.0@,
    {
        self.0.as_str()
    }
}

impl Clone for EvidenceId {
    fn clone(&self) -> (r: Self)
        ensures
            r == *self,
    {
        EvidenceId(self.0.clone())
    }
}

impl From<String> for EvidenceId {
    fn from(s: String) -> (r: Self) {
        EvidenceId(s)
    }
}

impl vstd::std_specs::convert::FromSpecImpl<String> for EvidenceId {
    open spec fn obeys_from_spec() -> bool {
        true
    }

    open spec fn from_spec(s: String) -> Self {
        EvidenceId(s)
    }
}

/// Refers to an artifact that is kept elsewhere.
#[derive(Debug, PartialEq, Eq, Hash)]
pub struct ArtifactRef(pub String);

impl ArtifactRef {
    /// The name as text.
    pub fn as_str(&self) -> (r: &str)
        ensures
            r@ == self.0@,
    {
        self.0.as_str()
    }
}

impl Clone for ArtifactRef {
    fn clone(&self) -> (r: Self)
        ensures
            r == *self,
    {
        ArtifactRef(self.0.clone())
    }
}

impl From<String> for ArtifactRef {
    fn from(s: String) -> (r: Self) {
        ArtifactRef(s)
    }
}

impl vstd::std_specs::convert::FromSpecImpl<String> for ArtifactRef {
    open spec fn obeys_from_spec() -> bool {
        true
    }

    open spec fn from_spec(s: String) -> Self {
        ArtifactRef(s)
    }
}

/// Refers to a belief that was consulted.
#[derive(Debug, PartialEq, Eq, Hash)]
pub struct BeliefRef(pub String);

impl BeliefRef {
    /// The name as text.
    pub fn as_str(&self) -> (r: &str)
        ensures
            r@ == self.0@,
    {
        self.0.as_str()
    }
}

impl Clone for BeliefRef {
    fn clone(&self) -> (r: Self)
        ensures
            r == *self,
    {
        BeliefRef(self.0.clone())
    }
}

impl From<String> for BeliefRef {
    fn from(s: String) -> (r: Self) {
        BeliefRef(s)
    }
}

impl vstd::std_specs::convert::FromSpecImpl<String> for BeliefRef {
    open spec fn obeys_from_spec() -> bool {
        true
    }

    open spec fn from_spec(s: String) -> Self {
        BeliefRef(s)
    }
}

/// Refers to an approval that is asked for.
#[derive(Debug, PartialEq, Eq, Hash)]
pub struct ApprovalRef(pub String);

impl ApprovalRef {
    /// The name as text.
    pub fn as_str(&self) -> (r: &str)
        ensures
            r@ == self.0@,
    {
        self.0.as_str()
    }
}

impl Clone for ApprovalRef {
    fn clone(&self) -> (r: Self)
        ensures
            r == *self,
    {
        ApprovalRef(self.0.clone())
    }
}

impl From<String> for ApprovalRef {
    fn from(s: String) -> (r: Self) {
        ApprovalRef(s)
    }
}

impl vstd::std_specs::convert::FromSpecImpl<String> for ApprovalRef {
    open spec fn obeys_from_spec() -> bool {
        true
    }

    open spec fn from_spec(s: String) -> Self {
        ApprovalRef(s)
    }
}

/// A running task may wait for an approval, be paused, complete, escalate, be cancelled or fail; one
/// that has not begun or waits may run, be cancelled or fail; and one that has completed, escalated,
/// failed or was cancelled goes nowhere.
pub proof fn what_may_follow_a_status(from: TaskStatus, to: TaskStatus)
    ensures
        may_become(from, to) <==> match from {
            TaskStatus::Running => match to {
                TaskStatus::AwaitingApproval
                | TaskStatus::Paused
                | TaskStatus::Completed
                | TaskStatus::Escalated
                | TaskStatus::Cancelled
                | TaskStatus::Failed => true,
                TaskStatus::Pending | TaskStatus::Running => false,
            },
            TaskStatus::Pending | TaskStatus::AwaitingApproval | TaskStatus::Paused => match to {
                TaskStatus::Running | TaskStatus::Cancelled | TaskStatus::Failed => true,
                _ => false,
            },
            TaskStatus::Completed
            | TaskStatus::Escalated
            | TaskStatus::Cancelled
            | TaskStatus::Failed => false,
        },
{
}

/// A task is over, waits, or is under way, and only one of these.
pub proof fn a_task_is_over_waits_or_is_under_way(status: TaskStatus)
    ensures
        match status {
            TaskStatus::Completed
            | TaskStatus::Escalated
            | TaskStatus::Cancelled
            | TaskStatus::Failed => terminal(status) && !parked(status),
            TaskStatus::AwaitingApproval | TaskStatus::Paused => parked(status) && !terminal(
                status,
            ),
            TaskStatus::Pending | TaskStatus::Running => !parked(status) && !terminal(status),
        },
{
}

/// Every status and every limit is told by a name of its own.
pub proof fn a_name_tells_the_status(
    a: TaskStatus,
    b: TaskStatus,
    one: BudgetKind,
    other: BudgetKind,
)
    ensures
        status_name(a) == status_name(b) ==> a == b,
        budget_name(one) == budget_name(other) ==> one == other,
{
    reveal_strlit("Pending");
    reveal_strlit("Running");
    reveal_strlit("AwaitingApproval");
    reveal_strlit("Paused");
    reveal_strlit("Completed");
    reveal_strlit("Escalated");
    reveal_strlit("Cancelled");
    reveal_strlit("Failed");
    reveal_strlit("Steps");
    reveal_strlit("WallClock");
    reveal_strlit("Tokens");
    reveal_strlit("Money");
    reveal_strlit("Parallelism");
    assert("Pending"@[1] == 'e' && "Running"@[0] == 'R' && "AwaitingApproval"@[0] == 'A'
        && "Paused"@[1] == 'a' && "Completed"@[1] == 'o' && "Escalated"@[0] == 'E' && "Cancelled"@[1]
        == 'a' && "Failed"@[0] == 'F');
    assert("Pending"@[0] == 'P' && "Paused"@[0] == 'P' && "Completed"@[0] == 'C' && "Cancelled"@[0]
        == 'C');
    assert("Steps"@[0] == 'S' && "WallClock"@[0] == 'W' && "Tokens"@[0] == 'T' && "Money"@[0] == 'M'
        && "Parallelism"@[0] == 'P');
}

/// A status and a limit are told by the words that they are written with.
pub proof fn a_status_is_told_by_its_own_word()
    ensures
        status_name(TaskStatus::Pending) == "Pending"@,
        status_name(TaskStatus::Running) == "Running"@,
        status_name(TaskStatus::AwaitingApproval) == "AwaitingApproval"@,
        status_name(TaskStatus::Paused) == "Paused"@,
        status_name(TaskStatus::Completed) == "Completed"@,
        status_name(TaskStatus::Escalated) == "Escalated"@,
        status_name(TaskStatus::Cancelled) == "Cancelled"@,
        status_name(TaskStatus::Failed) == "Failed"@,
        budget_name(BudgetKind::Steps) == "Steps"@,
        budget_name(BudgetKind::WallClock) == "WallClock"@,
        budget_name(BudgetKind::Tokens) == "Tokens"@,
        budget_name(BudgetKind::Money) == "Money"@,
        budget_name(BudgetKind::Parallelism) == "Parallelism"@,
{
}

} // verus!
