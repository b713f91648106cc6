//! Events in the life of a task, as an observer is told of them.
//!
//! An event is told by a stable name and by identifiers and typed statuses. No free text ever
//! goes with it: not what a task is about, nor why it was escalated or given up.
use vstd::prelude::*;
use crate::json;
use crate::json::{Fields, JsonTree};
use crate::task::contract::{verification_name, VerificationStatus};
use crate::task::{
    budget_name, status_name, ActionId, ApprovalRef, AttemptId, ExecutionMode, StopReason,
    TaskCaseId, TaskStatus,
};

verus! {

/// Something that happened to a task.
#[derive(Debug, PartialEq)]
#[allow(inconsistent_fields)]
pub enum TaskLifecycleEvent {
    Created { owner: String, task: TaskCaseId, mode: ExecutionMode },
    AttemptStarted { owner: String, task: TaskCaseId, attempt: AttemptId },
    ActionChosen { owner: String, task: TaskCaseId, attempt: AttemptId, action: ActionId },
    ActionObserved { owner: String, task: TaskCaseId, attempt: AttemptId, action: ActionId },
    Verified { owner: String, task: TaskCaseId, attempt: AttemptId, status: VerificationStatus },
    Adapted { owner: String, task: TaskCaseId, attempt: AttemptId },
    ApprovalPending { owner: String, task: TaskCaseId, approval: ApprovalRef },
    StatusChanged { owner: String, task: TaskCaseId, status: TaskStatus },
    /// The task is over. There is one such event in a task's life.
    Terminal { owner: String, task: TaskCaseId, status: TaskStatus, stop_reason: StopReason },
}

/// The name of a mode.
pub open spec fn mode_name(mode: ExecutionMode) -> Seq<char> {
    match mode {
        ExecutionMode::Respond => "Respond"@,
        ExecutionMode::Act => "Act"@,
        ExecutionMode::Pursue => "Pursue"@,
    }
}

/// The name of an event.
pub open spec fn event_name_of(e: TaskLifecycleEvent) -> Seq<char> {
    match e {
        TaskLifecycleEvent::Created { .. } => "task.created"@,
        TaskLifecycleEvent::AttemptStarted { .. } => "task.attempt_started"@,
        TaskLifecycleEvent::ActionChosen { .. } => "task.action_chosen"@,
        TaskLifecycleEvent::ActionObserved { .. } => "task.action_observed"@,
        TaskLifecycleEvent::Verified { .. } => "task.verified"@,
        TaskLifecycleEvent::Adapted { .. } => "task.adapted"@,
        TaskLifecycleEvent::ApprovalPending { .. } => "task.approval_pending"@,
        TaskLifecycleEvent::StatusChanged { .. } => "task.status_changed"@,
        TaskLifecycleEvent::Terminal { .. } => "task.terminal"@,
    }
}

/// Whose task an event is about.
pub open spec fn event_owner(e: TaskLifecycleEvent) -> String {
    match e {
        TaskLifecycleEvent::Created { owner, .. } => owner,
        TaskLifecycleEvent::AttemptStarted { owner, .. } => owner,
        TaskLifecycleEvent::ActionChosen { owner, .. } => owner,
        TaskLifecycleEvent::ActionObserved { owner, .. } => owner,
        TaskLifecycleEvent::Verified { owner, .. } => owner,
        TaskLifecycleEvent::Adapted { owner, .. } => owner,
        TaskLifecycleEvent::ApprovalPending { owner, .. } => owner,
        TaskLifecycleEvent::StatusChanged { owner, .. } => owner,
        TaskLifecycleEvent::Terminal { owner, .. } => owner,
    }
}

/// The task that an event is about.
pub open spec fn event_task(e: TaskLifecycleEvent) -> TaskCaseId {
    match e {
        TaskLifecycleEvent::Created { task, .. } => task,
        TaskLifecycleEvent::AttemptStarted { task, .. } => task,
        TaskLifecycleEvent::ActionChosen { task, .. } => task,
        TaskLifecycleEvent::ActionObserved { task, .. } => task,
        TaskLifecycleEvent::Verified { task, .. } => task,
        TaskLifecycleEvent::Adapted { task, .. } => task,
        TaskLifecycleEvent::ApprovalPending { task, .. } => task,
        TaskLifecycleEvent::StatusChanged { task, .. } => task,
        TaskLifecycleEvent::Terminal { task, .. } => task,
    }
}

/// A reason to stop without the text that may go with it.
pub open spec fn stop_reason_tree(reason: StopReason) -> JsonTree {
    match reason {
        StopReason::Completed => JsonTree::Text("Completed"@),
        StopReason::BudgetExceeded(kind) => JsonTree::Object(
            Fields::empty().insert("BudgetExceeded"@, JsonTree::Text(budget_name(kind))),
        ),
        StopReason::Cancelled => JsonTree::Text("Cancelled"@),
        StopReason::AwaitingApproval => JsonTree::Text("AwaitingApproval"@),
        StopReason::Impossible(_) => JsonTree::Text("Impossible"@),
        StopReason::Escalated(_) => JsonTree::Text("Escalated"@),
    }
}

/// The fields that tell of an event, beside whose and which task it is.
pub open spec fn event_fields(base: Fields, e: TaskLifecycleEvent) -> Fields {
    match e {
        TaskLifecycleEvent::Created { mode, .. } => base.insert(
            "mode"@,
            JsonTree::Text(mode_name(mode)),
        ),
        TaskLifecycleEvent::AttemptStarted { attempt, .. } => base.insert(
            "attempt"@,
            JsonTree::Text(attempt.0@),
        ),
        TaskLifecycleEvent::Adapted { attempt, .. } => base.insert(
            "attempt"@,
            JsonTree::Text(attempt.0@),
        ),
        TaskLifecycleEvent::ActionChosen { attempt, action, .. } => base.insert(
            "attempt"@,
            JsonTree::Text(attempt.0@),
        ).insert("action"@, JsonTree::Text(action.0@)),
        TaskLifecycleEvent::ActionObserved { attempt, action, .. } => base.insert(
            "attempt"@,
            JsonTree::Text(attempt.0@),
        ).insert("action"@, JsonTree::Text(action.0@)),
        TaskLifecycleEvent::Verified { attempt, status, .. } => base.insert(
            "attempt"@,
            JsonTree::Text(attempt.0@),
        ).insert("status"@, JsonTree::Text(verification_name(status))),
        TaskLifecycleEvent::ApprovalPending { approval, .. } => base.insert(
            "approval"@,
            JsonTree::Text(approval.0@),
        ),
        TaskLifecycleEvent::StatusChanged { status, .. } => base.insert(
            "status"@,
            JsonTree::Text(status_name(status)),
        ),
        TaskLifecycleEvent::Terminal { status, stop_reason, .. } => base.insert(
            "status"@,
            JsonTree::Text(status_name(status)),
        ).insert("stop_reason"@, stop_reason_tree(stop_reason)),
    }
}

/// What an observer is told of an event.
pub open spec fn metadata_tree(e: TaskLifecycleEvent) -> JsonTree {
    JsonTree::Object(
        event_fields(
            Fields::empty().insert("owner"@, JsonTree::Text(event_owner(e)@)).insert(
                "task"@,
                JsonTree::Text(event_task(e).0@),
            ),
            e,
        ),
    )
}

/// A reason to stop as JSON, without the text that may go with it.
fn stop_reason_value(reason: &StopReason) -> (r: serde_json::Value)
    ensures
        json::tree(r) == stop_reason_tree(*reason),
{
    match reason {
        StopReason::Completed => json::string("Completed"),
        StopReason::BudgetExceeded(kind) => {
            let mut map = json::no_fields();
            json::set_field(&mut map, "BudgetExceeded", json::string(kind.name()));
            json::object(map)
        },
        StopReason::Cancelled => json::string("Cancelled"),
        StopReason::AwaitingApproval => json::string("AwaitingApproval"),
        StopReason::Impossible(_) => json::string("Impossible"),
        StopReason::Escalated(_) => json::string("Escalated"),
    }
}

impl TaskLifecycleEvent {
    /// The stable name of this event.
    pub fn event_name(&self) -> (r: &'static str)
        ensures
            r@ == event_name_of(*self),
    {
        match self {
            TaskLifecycleEvent::Created { .. } => "task.created",
            TaskLifecycleEvent::AttemptStarted { .. } => "task.attempt_started",
            TaskLifecycleEvent::ActionChosen { .. } => "task.action_chosen",
            TaskLifecycleEvent::ActionObserved { .. } => "task.action_observed",
            TaskLifecycleEvent::Verified { .. } => "task.verified",
            TaskLifecycleEvent::Adapted { .. } => "task.adapted",
            TaskLifecycleEvent::ApprovalPending { .. } => "task.approval_pending",
            TaskLifecycleEvent::StatusChanged { .. } => "task.status_changed",
            TaskLifecycleEvent::Terminal { .. } => "task.terminal",
        }
    }

    /// Whose task this is about.
    pub fn owner(&self) -> (r: &str)
        ensures
            r@ == event_owner(*self)@,
    {
        match self {
            TaskLifecycleEvent::Created { owner, .. } => owner.as_str(),
            TaskLifecycleEvent::AttemptStarted { owner, .. } => owner.as_str(),
            TaskLifecycleEvent::ActionChosen { owner, .. } => owner.as_str(),
            TaskLifecycleEvent::ActionObserved { owner, .. } => owner.as_str(),
            TaskLifecycleEvent::Verified { owner, .. } => owner.as_str(),
            TaskLifecycleEvent::Adapted { owner, .. } => owner.as_str(),
            TaskLifecycleEvent::ApprovalPending { owner, .. } => owner.as_str(),
            TaskLifecycleEvent::StatusChanged { owner, .. } => owner.as_str(),
            TaskLifecycleEvent::Terminal { owner, .. } => owner.as_str(),
        }
    }

    /// The task that this is about.
    pub fn task(&self) -> (r: &TaskCaseId)
        ensures
            *r == event_task(*self),
    {
        match self {
            TaskLifecycleEvent::Created { task, .. } => task,
            TaskLifecycleEvent::AttemptStarted { task, .. } => task,
            TaskLifecycleEvent::ActionChosen { task, .. } => task,
            TaskLifecycleEvent::ActionObserved { task, .. } => task,
            TaskLifecycleEvent::Verified { task, .. } => task,
            TaskLifecycleEvent::Adapted { task, .. } => task,
            TaskLifecycleEvent::ApprovalPending { task, .. } => task,
            TaskLifecycleEvent::StatusChanged { task, .. } => task,
            TaskLifecycleEvent::Terminal { task, .. } => task,
        }
    }

    /// Identifiers and statuses for an observer, and nothing else.
    pub fn metadata(&self) -> (r: serde_json::Value)
        ensures
            json::tree(r) == metadata_tree(*self),
    {
        let mut map = json::no_fields();
        json::set_field(&mut map, "owner", json::string(self.owner()));
        json::set_field(&mut map, "task", json::string(self.task().as_str()));
        match self {
            TaskLifecycleEvent::Created { mode, .. } => {
                let name: &str = match mode {
                    ExecutionMode::Respond => "Respond",
                    ExecutionMode::Act => "Act",
                    ExecutionMode::Pursue => "Pursue",
                };
                json::set_field(&mut map, "mode", json::string(name));
            },
            TaskLifecycleEvent::AttemptStarted { attempt, .. } => {
                json::set_field(&mut map, "attempt", json::string(attempt.as_str()));
            },
            TaskLifecycleEvent::Adapted { attempt, .. } => {
                json::set_field(&mut map, "attempt", json::string(attempt.as_str()));
            },
            TaskLifecycleEvent::ActionChosen { attempt, action, .. } => {
                json::set_field(&mut map, "attempt", json::string(attempt.as_str()));
                json::set_field(&mut map, "action", json::string(action.as_str()));
            },
            TaskLifecycleEvent::ActionObserved { attempt, action, .. } => {
                json::set_field(&mut map, "attempt", json::string(attempt.as_str()));
                json::set_field(&mut map, "action", json::string(action.as_str()));
            },
            TaskLifecycleEvent::Verified { attempt, status, .. } => {
                json::set_field(&mut map, "attempt", json::string(attempt.as_str()));
                json::set_field(&mut map, "status", json::string(status.name()));
            },
            TaskLifecycleEvent::ApprovalPending { approval, .. } => {
                json::set_field(&mut map, "approval", json::string(approval.as_str()));
            },
            TaskLifecycleEvent::StatusChanged { status, .. } => {
                json::set_field(&mut map, "status", json::string(status.name()));
            },
            TaskLifecycleEvent::Terminal { status, stop_reason, .. } => {
                json::set_field(&mut map, "status", json::string(status.name()));
                json::set_field(&mut map, "stop_reason", stop_reason_value(stop_reason));
            },
        }
        json::object(map)
    }
}

/// Why a task was escalated or given up does not show in what an observer is told.
pub proof fn metadata_does_not_tell_the_reason(
    owner: String,
    task: TaskCaseId,
    status: TaskStatus,
    reason: String,
    other: String,
)
    ensures
        metadata_tree(
            TaskLifecycleEvent::Terminal {
                owner,
                task,
                status,
                stop_reason: StopReason::Escalated(reason),
            },
        ) == metadata_tree(
            TaskLifecycleEvent::Terminal {
                owner,
                task,
                status,
                stop_reason: StopReason::Escalated(other),
            },
        ),
        metadata_tree(
            TaskLifecycleEvent::Terminal {
                owner,
                task,
                status,
                stop_reason: StopReason::Impossible(reason),
            },
        ) == metadata_tree(
            TaskLifecycleEvent::Terminal {
                owner,
                task,
                status,
                stop_reason: StopReason::Impossible(other),
            },
        ),
{
}

/// What an observer is told always names the owner and the task.
pub proof fn metadata_names_owner_and_task(e: TaskLifecycleEvent)
    ensures
        metadata_tree(e) matches JsonTree::Object(fields) && fields.contains_key("owner"@)
            && fields["owner"@] == JsonTree::Text(event_owner(e)@) && fields.contains_key("task"@)
            && fields["task"@] == JsonTree::Text(event_task(e).0@),
{
    reveal_strlit("owner");
    reveal_strlit("task");
    reveal_strlit("mode");
    reveal_strlit("attempt");
    reveal_strlit("action");
    reveal_strlit("status");
    reveal_strlit("approval");
    reveal_strlit("stop_reason");
    assert("owner"@.len() == 5 && "task"@.len() == 4 && "mode"@.len() == 4);
    assert("task"@[0] == 't' && "mode"@[0] == 'm');
}

/// An event tells whose task it is and which, as the event says.
pub proof fn an_event_tells_whose_task_it_is(e: TaskLifecycleEvent)
    ensures
        match e {
            TaskLifecycleEvent::Created { owner, task, .. } => event_owner(e) == owner && event_task(e)
                == task,
            TaskLifecycleEvent::AttemptStarted { owner, task, .. } => event_owner(e) == owner && event_task(e)
                == task,
            TaskLifecycleEvent::ActionChosen { owner, task, .. } => event_owner(e) == owner && event_task(e)
                == task,
            TaskLifecycleEvent::ActionObserved { owner, task, .. } => event_owner(e) == owner && event_task(e)
                == task,
            TaskLifecycleEvent::Verified { owner, task, .. } => event_owner(e) == owner && event_task(e)
                == task,
            TaskLifecycleEvent::Adapted { owner, task, .. } => event_owner(e) == owner && event_task(e)
                == task,
            TaskLifecycleEvent::ApprovalPending { owner, task, .. } => event_owner(e) == owner && event_task(e)
                == task,
            TaskLifecycleEvent::StatusChanged { owner, task, .. } => event_owner(e) == owner && event_task(e)
                == task,
            TaskLifecycleEvent::Terminal { owner, task, .. } => event_owner(e) == owner && event_task(e)
                == task,
        },
{
}

/// What an observer is told of an event names the attempt, the action, the approval, the mode and
/// the statuses that the event is about, each as the event says, and nothing more.
pub proof fn metadata_tells_what_happened(e: TaskLifecycleEvent)
    ensures
        metadata_tree(e) matches JsonTree::Object(fields) && match e {
            TaskLifecycleEvent::Created { mode, .. } => {
                &&& fields["mode"@] == JsonTree::Text(mode_name(mode))
                &&& fields.dom() == set!["owner"@, "task"@, "mode"@]
            },
            TaskLifecycleEvent::AttemptStarted { attempt, .. } => {
                &&& fields["attempt"@] == JsonTree::Text(attempt.0@)
                &&& fields.dom() == set!["owner"@, "task"@, "attempt"@]
            },
            TaskLifecycleEvent::Adapted { attempt, .. } => {
                &&& fields["attempt"@] == JsonTree::Text(attempt.0@)
                &&& fields.dom() == set!["owner"@, "task"@, "attempt"@]
            },
            TaskLifecycleEvent::ActionChosen { attempt, action, .. } => {
                &&& fields["attempt"@] == JsonTree::Text(attempt.0@)
                &&& fields["action"@] == JsonTree::Text(action.0@)
                &&& fields.dom() == set!["owner"@, "task"@, "attempt"@, "action"@]
            },
            TaskLifecycleEvent::ActionObserved { attempt, action, .. } => {
                &&& fields["attempt"@] == JsonTree::Text(attempt.0@)
                &&& fields["action"@] == JsonTree::Text(action.0@)
                &&& fields.dom() == set!["owner"@, "task"@, "attempt"@, "action"@]
            },
            TaskLifecycleEvent::Verified { attempt, status, .. } => {
                &&& fields["attempt"@] == JsonTree::Text(attempt.0@)
                &&& fields["status"@] == JsonTree::Text(verification_name(status))
                &&& fields.dom() == set!["owner"@, "task"@, "attempt"@, "status"@]
            },
            TaskLifecycleEvent::ApprovalPending { approval, .. } => {
                &&& fields["approval"@] == JsonTree::Text(approval.0@)
                &&& fields.dom() == set!["owner"@, "task"@, "approval"@]
            },
            TaskLifecycleEvent::StatusChanged { status, .. } => {
                &&& fields["status"@] == JsonTree::Text(status_name(status))
                &&& fields.dom() == set!["owner"@, "task"@, "status"@]
            },
            TaskLifecycleEvent::Terminal { status, stop_reason, .. } => {
                &&& fields["status"@] == JsonTree::Text(status_name(status))
                &&& fields.dom() == set!["owner"@, "task"@, "status"@, "stop_reason"@]
                &&& match stop_reason {
                    StopReason::BudgetExceeded(kind) => fields["stop_reason"@] matches
                        JsonTree::Object(inner) && inner["BudgetExceeded"@] == JsonTree::Text(
                        budget_name(kind),
                    ),
                    StopReason::Completed => fields["stop_reason"@] == JsonTree::Text("Completed"@),
                    StopReason::Cancelled => fields["stop_reason"@] == JsonTree::Text("Cancelled"@),
                    StopReason::AwaitingApproval => fields["stop_reason"@] == JsonTree::Text(
                        "AwaitingApproval"@,
                    ),
                    StopReason::Impossible(_) => fields["stop_reason"@] == JsonTree::Text(
                        "Impossible"@,
                    ),
                    StopReason::Escalated(_) => fields["stop_reason"@] == JsonTree::Text(
                        "Escalated"@,
                    ),
                }
            },
        },
{
    reveal_strlit("owner");
    reveal_strlit("task");
    reveal_strlit("mode");
    reveal_strlit("attempt");
    reveal_strlit("action");
    reveal_strlit("status");
    reveal_strlit("approval");
    reveal_strlit("stop_reason");
    assert("attempt"@.len() == 7 && "action"@.len() == 6 && "status"@.len() == 6
        && "approval"@.len() == 8 && "stop_reason"@.len() == 11);
    assert("owner"@.len() == 5 && "task"@.len() == 4 && "mode"@.len() == 4);
    assert("action"@[0] == 'a' && "status"@[0] == 's' && "task"@[0] == 't' && "mode"@[0] == 'm');
    let fields = metadata_tree(e)->Object_0;
    match e {
        TaskLifecycleEvent::Created { .. } => {
            assert(fields.dom() =~= set!["owner"@, "task"@, "mode"@]);
        },
        TaskLifecycleEvent::AttemptStarted { .. } | TaskLifecycleEvent::Adapted { .. } => {
            assert(fields.dom() =~= set!["owner"@, "task"@, "attempt"@]);
        },
        TaskLifecycleEvent::ActionChosen { .. } | TaskLifecycleEvent::ActionObserved { .. } => {
            assert(fields.dom() =~= set!["owner"@, "task"@, "attempt"@, "action"@]);
        },
        TaskLifecycleEvent::Verified { .. } => {
            assert(fields.dom() =~= set!["owner"@, "task"@, "attempt"@, "status"@]);
        },
        TaskLifecycleEvent::ApprovalPending { .. } => {
            assert(fields.dom() =~= set!["owner"@, "task"@, "approval"@]);
        },
        TaskLifecycleEvent::StatusChanged { .. } => {
            assert(fields.dom() =~= set!["owner"@, "task"@, "status"@]);
        },
        TaskLifecycleEvent::Terminal { .. } => {
            assert(fields.dom() =~= set!["owner"@, "task"@, "status"@, "stop_reason"@]);
        },
    }
}

/// Every mode is told by a name of its own, and the end of a task by one that no other event has.
pub proof fn a_name_tells_the_mode(a: ExecutionMode, b: ExecutionMode, e: TaskLifecycleEvent)
    ensures
        mode_name(a) == mode_name(b) ==> a == b,
        event_name_of(e) == "task.terminal"@ <==> e is Terminal,
{
    reveal_strlit("Respond");
    reveal_strlit("Act");
    reveal_strlit("Pursue");
    reveal_strlit("task.created");
    reveal_strlit("task.attempt_started");
    reveal_strlit("task.action_chosen");
    reveal_strlit("task.action_observed");
    reveal_strlit("task.verified");
    reveal_strlit("task.adapted");
    reveal_strlit("task.approval_pending");
    reveal_strlit("task.status_changed");
    reveal_strlit("task.terminal");
    assert("Respond"@[0] == 'R' && "Act"@[0] == 'A' && "Pursue"@[0] == 'P');
    assert("task.terminal"@[5] == 't' && "task.created"@[5] == 'c' && "task.attempt_started"@[5]
        == 'a' && "task.action_chosen"@[5] == 'a' && "task.action_observed"@[5] == 'a'
        && "task.verified"@[5] == 'v' && "task.adapted"@[5] == 'a' && "task.approval_pending"@[5]
        == 'a' && "task.status_changed"@[5] == 's');
}

/// Every event has its own name, which stays the same.
pub proof fn every_event_has_its_own_name(e: TaskLifecycleEvent)
    ensures
        e is Created ==> event_name_of(e) == "task.created"@,
        e is AttemptStarted ==> event_name_of(e) == "task.attempt_started"@,
        e is ActionChosen ==> event_name_of(e) == "task.action_chosen"@,
        e is ActionObserved ==> event_name_of(e) == "task.action_observed"@,
        e is Verified ==> event_name_of(e) == "task.verified"@,
        e is Adapted ==> event_name_of(e) == "task.adapted"@,
        e is ApprovalPending ==> event_name_of(e) == "task.approval_pending"@,
        e is StatusChanged ==> event_name_of(e) == "task.status_changed"@,
        e is Terminal ==> event_name_of(e) == "task.terminal"@,
        mode_name(ExecutionMode::Respond) == "Respond"@,
        mode_name(ExecutionMode::Act) == "Act"@,
        mode_name(ExecutionMode::Pursue) == "Pursue"@,
{
}

} // verus!
