//! The store of durable tasks: what every write keeps, and when one is refused.
//!
//! Every case belongs to an owner, and nobody else sees or changes it. A write to an existing
//! case names the revision that it is based on; where the case has moved on, the write is
//! refused. A task that is over changes its status no more. [`MemoryTaskStore`] keeps
//! everything in memory; a database behind the same rules uses [`check_transition`] and
//! [`next_revision`].
use vstd::prelude::*;
use crate::json::{reads_as, JsonTree};
use crate::table::{Key, KeyView, Row};
use crate::task::contract::{Attempt, Evidence, NextDecision, TaskCase};
use crate::task::{may_become, status_name, terminal, StopReason, TaskCaseId, TaskStatus};
use crate::text;
use crate::text::decimal_int;

verus! {

/// A session that a runtime outside the host holds.
#[derive(Debug, PartialEq)]
pub struct SessionHandle {
    pub runtime_id: String,
    pub owner: String,
    pub external_ref: String,
}

impl Clone for SessionHandle {
    fn clone(&self) -> (r: Self)
        ensures
            r == *self,
    {
        SessionHandle {
            runtime_id: self.runtime_id.clone(),
            owner: self.owner.clone(),
            external_ref: self.external_ref.clone(),
        }
    }
}

/// Why the store refused.
#[derive(Debug, PartialEq)]
pub enum StoreError {
    /// A status needs a reason exactly where it is terminal.
    ReasonMismatch { next: TaskStatus, reason_given: bool },
    /// The owner has no such case.
    CaseNotFound,
    /// The task is over.
    AlreadyTerminal(TaskStatus),
    /// The status does not follow.
    NotAllowed { from: TaskStatus, to: TaskStatus },
    /// The case has moved on since the caller read it.
    RevisionConflict(u64),
    /// No case of that owner has that revision.
    NoMatch { operation: StoreOperation, expected: u64 },
    /// An attempt at a task that does not exist.
    TaskMissing(String),
    /// Evidence of an attempt that the owner does not have.
    AttemptMissing(String),
    /// What is stored is no JSON document.
    Unreadable(String),
}

/// A write that names the revision it is based on.
#[derive(Clone, Copy, Debug, PartialEq, Eq, Structural)]
pub enum StoreOperation {
    UpdateCase,
    SetNextDecision,
    SetLastConfirmedEvent,
    SaveCheckpoint,
}

/// The text of a refusal.
pub open spec fn store_error_text(e: StoreError) -> Seq<char> {
    match e {
        StoreError::ReasonMismatch { next, reason_given } =>
            "transition_status: stop_reason must be Some(..) iff `next` is terminal (next="@
            + status_name(next) + ", next_terminal="@ + bool_text(terminal(next))
            + ", reason_given="@ + bool_text(reason_given) + ")"@,
        StoreError::CaseNotFound => "transition_status: case not found for owner"@,
        StoreError::AlreadyTerminal(current) => "transition_status: case is already terminal ("@
            + status_name(current) + ") — a task has exactly one terminal event, ever"@,
        StoreError::NotAllowed { from, to } => "transition_status: "@ + status_name(from)
            + " -> "@ + status_name(to) + " is not an allowed transition"@,
        StoreError::RevisionConflict(expected) =>
            "transition_status: revision conflict (expected "@ + decimal_int(
            (expected as i64) as int,
        ) + ") — concurrent modification between read and write"@,
        StoreError::NoMatch { operation, expected } => no_match_text(operation).0 + decimal_int(
            (expected as i64) as int,
        ) + no_match_text(operation).1,
        StoreError::TaskMissing(task) => "append_attempt: task case "@ + task@
            + " does not exist"@,
        StoreError::AttemptMissing(attempt) => "record_evidence: attempt "@ + attempt@
            + " not found for owner (cannot resolve its task)"@,
        StoreError::Unreadable(message) => message@,
    }
}

/// `true` or `false`.
pub open spec fn bool_text(b: bool) -> Seq<char> {
    if b {
        "true"@
    } else {
        "false"@
    }
}

/// What stands before and after the revision in a refusal.
pub open spec fn no_match_text(operation: StoreOperation) -> (Seq<char>, Seq<char>) {
    match operation {
        StoreOperation::UpdateCase => (
            "update_case: no row matched id/owner/revision="@,
            " — stale expected_revision, wrong owner, or missing case (optimistic concurrency guard)"@,
        ),
        StoreOperation::SetNextDecision => (
            "set_next_decision: no row matched id/owner/revision="@,
            " — stale expected_revision, wrong owner, or missing case"@,
        ),
        StoreOperation::SetLastConfirmedEvent => (
            "set_last_confirmed_event: no row matched id/owner/revision="@,
            Seq::empty(),
        ),
        StoreOperation::SaveCheckpoint => (
            "save_checkpoint: no row matched id/owner/revision="@,
            Seq::empty(),
        ),
    }
}

/// `true` or `false` as text.
fn bool_str(b: bool) -> (r: &'static str)
    ensures
        r@ == bool_text(b),
{
    if b {
        "true"
    } else {
        "false"
    }
}

impl StoreError {
    /// The text of this refusal.
    pub fn message(&self) -> (r: String)
        ensures
            r@ == store_error_text(*self),
    {
        let mut out: String = String::new();
        match self {
            StoreError::ReasonMismatch { next, reason_given } => {
                out.append(
                    "transition_status: stop_reason must be Some(..) iff `next` is terminal (next=",
                );
                out.append(next.name());
                out.append(", next_terminal=");
                out.append(bool_str(next.is_terminal()));
                out.append(", reason_given=");
                out.append(bool_str(*reason_given));
                out.append(")");
            },
            StoreError::CaseNotFound => {
                out.append("transition_status: case not found for owner");
            },
            StoreError::AlreadyTerminal(current) => {
                out.append("transition_status: case is already terminal (");
                out.append(current.name());
                out.append(") — a task has exactly one terminal event, ever");
            },
            StoreError::NotAllowed { from, to } => {
                out.append("transition_status: ");
                out.append(from.name());
                out.append(" -> ");
                out.append(to.name());
                out.append(" is not an allowed transition");
            },
            StoreError::RevisionConflict(expected) => {
                out.append("transition_status: revision conflict (expected ");
                text::push_decimal_i64(&mut out, *expected as i64);
                out.append(") — concurrent modification between read and write");
            },
            StoreError::NoMatch { operation, expected } => {
                let before: &str = match operation {
                    StoreOperation::UpdateCase =>
                        "update_case: no row matched id/owner/revision=",
                    StoreOperation::SetNextDecision =>
                        "set_next_decision: no row matched id/owner/revision=",
                    StoreOperation::SetLastConfirmedEvent =>
                        "set_last_confirmed_event: no row matched id/owner/revision=",
                    StoreOperation::SaveCheckpoint =>
                        "save_checkpoint: no row matched id/owner/revision=",
                };
                out.append(before);
                text::push_decimal_i64(&mut out, *expected as i64);
                match operation {
                    StoreOperation::UpdateCase => {
                        out.append(
                            " — stale expected_revision, wrong owner, or missing case (optimistic concurrency guard)",
                        );
                    },
                    StoreOperation::SetNextDecision => {
                        out.append(" — stale expected_revision, wrong owner, or missing case");
                    },
                    StoreOperation::SetLastConfirmedEvent => {},
                    StoreOperation::SaveCheckpoint => {},
                }
            },
            StoreError::TaskMissing(task) => {
                out.append("append_attempt: task case ");
                out.append(task.as_str());
                out.append(" does not exist");
            },
            StoreError::AttemptMissing(attempt) => {
                out.append("record_evidence: attempt ");
                out.append(attempt.as_str());
                out.append(" not found for owner (cannot resolve its task)");
            },
            StoreError::Unreadable(message) => {
                out.append(message.as_str());
            },
        }
        assert(out@ =~= store_error_text(*self));
        out
    }
}

/// The revision that follows.
pub open spec fn revision_after(expected: u64) -> u64 {
    if expected == u64::MAX {
        u64::MAX
    } else {
        (expected + 1) as u64
    }
}

/// The revision that follows, held at the largest number.
pub fn next_revision(expected: u64) -> (r: u64)
    ensures
        r == revision_after(expected),
{
    expected.saturating_add(1)
}

/// Why a status may not be set, whatever the revision: a reason that does not go with it, no
/// such case, a task that is over, or a status that does not follow, in that order.
pub open spec fn transition_refusal(
    current: Option<TaskStatus>,
    next: TaskStatus,
    reason_given: bool,
) -> Option<StoreError> {
    if terminal(next) != reason_given {
        Some(StoreError::ReasonMismatch { next, reason_given })
    } else {
        match current {
            None => Some(StoreError::CaseNotFound),
            Some(status) => if terminal(status) {
                Some(StoreError::AlreadyTerminal(status))
            } else if !may_become(status, next) {
                Some(StoreError::NotAllowed { from: status, to: next })
            } else {
                None
            },
        }
    }
}

/// Whether a case with this status, if the owner has one, may be given the next one.
pub fn check_transition(
    current: Option<TaskStatus>,
    next: TaskStatus,
    reason_given: bool,
) -> (r: Result<(), StoreError>)
    ensures
        match transition_refusal(current, next, reason_given) {
            Some(e) => r == Err::<(), StoreError>(e),
            None => r is Ok,
        },
{
    if next.is_terminal() != reason_given {
        return Err(StoreError::ReasonMismatch { next, reason_given });
    }
    match current {
        None => Err(StoreError::CaseNotFound),
        Some(status) => if status.is_terminal() {
            Err(StoreError::AlreadyTerminal(status))
        } else if !status.can_transition_to(next) {
            Err(StoreError::NotAllowed { from: status, to: next })
        } else {
            Ok(())
        },
    }
}

/// A case and what is kept beside it.
#[derive(Debug)]
pub struct CaseRow {
    pub case: TaskCase,
    pub idempotency_key: String,
    pub last_confirmed_event: Option<String>,
    pub checkpoint_json: Option<String>,
}

impl Row for CaseRow {
    open spec fn key(&self) -> KeyView {
        KeyView::Text(self.case.id.0@)
    }

    fn has_key(&self, key: Key) -> bool {
        match key {
            Key::Text(id) => text::same(self.case.id.as_str(), id),
            _ => false,
        }
    }
}

/// An attempt and the owner of its task.
#[derive(Debug)]
pub struct AttemptRow {
    pub owner: String,
    pub attempt: Attempt,
}

impl Row for AttemptRow {
    open spec fn key(&self) -> KeyView {
        KeyView::Text(self.attempt.id.0@)
    }

    fn has_key(&self, key: Key) -> bool {
        match key {
            Key::Text(id) => text::same(self.attempt.id.as_str(), id),
            _ => false,
        }
    }
}

/// Evidence, the owner and the task of its attempt.
#[derive(Debug)]
pub struct EvidenceRow {
    pub owner: String,
    pub task: TaskCaseId,
    pub evidence: Evidence,
}

impl Row for EvidenceRow {
    open spec fn key(&self) -> KeyView {
        KeyView::Text(self.evidence.id.0@)
    }

    fn has_key(&self, key: Key) -> bool {
        match key {
            Key::Text(id) => text::same(self.evidence.id.as_str(), id),
            _ => false,
        }
    }
}

/// The session that a task has with a runtime outside the host.
#[derive(Debug)]
pub struct HandleRow {
    pub task: String,
    pub owner: String,
    pub handle: SessionHandle,
}

impl Row for HandleRow {
    open spec fn key(&self) -> KeyView {
        KeyView::Pair(self.task@, self.owner@)
    }

    fn has_key(&self, key: Key) -> bool {
        match key {
            Key::Pair(task, owner) => text::same(self.task.as_str(), task) && text::same(
                self.owner.as_str(),
                owner,
            ),
            _ => false,
        }
    }
}

/// Cases by their identifiers.
pub type Cases = Map<KeyView, CaseRow>;

/// The owner has a case of this name.
pub open spec fn owns(cases: Cases, owner: Seq<char>, id: Seq<char>) -> bool {
    cases.contains_key(KeyView::Text(id)) && cases[KeyView::Text(id)].case.owner@ == owner
}

/// The owner has a case of this name, and it has this revision.
pub open spec fn owns_at(cases: Cases, owner: Seq<char>, id: Seq<char>, revision: u64) -> bool {
    owns(cases, owner, id) && cases[KeyView::Text(id)].case.revision == revision
}

/// The status of the owner's case.
pub open spec fn status_of(cases: Cases, owner: Seq<char>, id: Seq<char>) -> Option<TaskStatus> {
    if owns(cases, owner, id) {
        Some(cases[KeyView::Text(id)].case.status)
    } else {
        None
    }
}

/// A case was created under this key.
pub open spec fn key_used(cases: Cases, key: Seq<char>) -> bool {
    exists|k: KeyView| #[trigger] cases.contains_key(k) && cases[k].idempotency_key@ == key
}

/// The cases after a creation: nothing changes where the key or the name is taken.
pub open spec fn after_create(cases: Cases, case: TaskCase, key: String, now: i64) -> Cases {
    if key_used(cases, key@) || cases.contains_key(KeyView::Text(case.id.0@)) {
        cases
    } else {
        cases.insert(
            KeyView::Text(case.id.0@),
            CaseRow {
                case: TaskCase { created_at: now, updated_at: now, ..case },
                idempotency_key: key,
                last_confirmed_event: None,
                checkpoint_json: None,
            },
        )
    }
}

/// The cases after the owner's case of this name was changed to `row`.
pub open spec fn after_write(cases: Cases, id: Seq<char>, row: CaseRow) -> Cases {
    cases.insert(KeyView::Text(id), row)
}

/// A row after `case` was written over it: its identity, its owner and its creation stay.
pub open spec fn rewritten(row: CaseRow, case: TaskCase, expected: u64, now: i64) -> CaseRow {
    CaseRow {
        case: TaskCase {
            id: row.case.id,
            owner: row.case.owner,
            created_at: row.case.created_at,
            updated_at: now,
            revision: revision_after(expected),
            ..case
        },
        ..row
    }
}

/// A row after its status was set.
pub open spec fn with_status(
    row: CaseRow,
    next: TaskStatus,
    reason: Option<StopReason>,
    expected: u64,
    now: i64,
) -> CaseRow {
    CaseRow {
        case: TaskCase {
            status: next,
            stop_reason: reason,
            updated_at: now,
            revision: revision_after(expected),
            ..row.case
        },
        ..row
    }
}

/// A row with a new revision and nothing else changed in its case but the next decision.
pub open spec fn with_decision(
    row: CaseRow,
    decision: Option<NextDecision>,
    expected: u64,
    now: i64,
) -> CaseRow {
    CaseRow {
        case: TaskCase {
            next_decision: decision,
            updated_at: now,
            revision: revision_after(expected),
            ..row.case
        },
        ..row
    }
}

/// A row with a new revision.
pub open spec fn touched(row: CaseRow, expected: u64, now: i64) -> CaseRow {
    CaseRow {
        case: TaskCase { updated_at: now, revision: revision_after(expected), ..row.case },
        ..row
    }
}

/// A write moves the revision on, so that a second writer who read the same revision is
/// refused. At the largest revision there is nothing to move on to.
pub proof fn a_stale_writer_is_refused(
    cases: Cases,
    owner: Seq<char>,
    id: Seq<char>,
    expected: u64,
    written: CaseRow,
)
    requires
        owns_at(cases, owner, id, expected),
        expected < u64::MAX,
        written.case.revision == revision_after(expected),
    ensures
        !owns_at(after_write(cases, id, written), owner, id, expected),
{
}

/// Every kind of write names the revision that follows, and keeps the name, the owner and the
/// creation time of the case.
pub proof fn writes_keep_identity_and_move_the_revision_on(
    row: CaseRow,
    case: TaskCase,
    next: TaskStatus,
    reason: Option<StopReason>,
    decision: Option<NextDecision>,
    expected: u64,
    now: i64,
)
    ensures
        ({
            let a = rewritten(row, case, expected, now);
            &&& a.case.id == row.case.id && a.case.owner == row.case.owner
            &&& a.case.created_at == row.case.created_at
            &&& a.case.revision == revision_after(expected)
            &&& a.idempotency_key == row.idempotency_key
        }),
        ({
            let b = with_status(row, next, reason, expected, now);
            &&& b.case.id == row.case.id && b.case.owner == row.case.owner
            &&& b.case.created_at == row.case.created_at
            &&& b.case.revision == revision_after(expected)
            &&& b.idempotency_key == row.idempotency_key
        }),
        ({
            let c = with_decision(row, decision, expected, now);
            &&& c.case.id == row.case.id && c.case.owner == row.case.owner
            &&& c.case.created_at == row.case.created_at
            &&& c.case.revision == revision_after(expected)
            &&& c.idempotency_key == row.idempotency_key
        }),
        touched(row, expected, now).case.revision == revision_after(expected),
{
}

/// Once a status has ended a task, no status is ever set again, whoever asks and whatever for.
pub proof fn a_task_ends_once(
    cases: Cases,
    id: Seq<char>,
    end: TaskStatus,
    reason: Option<StopReason>,
    expected: u64,
    now: i64,
    later_owner: Seq<char>,
    later: TaskStatus,
    later_reason_given: bool,
)
    requires
        terminal(end),
        cases.contains_key(KeyView::Text(id)),
    ensures
        transition_refusal(
            status_of(
                after_write(
                    cases,
                    id,
                    with_status(cases[KeyView::Text(id)], end, reason, expected, now),
                ),
                later_owner,
                id,
            ),
            later,
            later_reason_given,
        ) is Some,
{
}

/// A status that is accepted carries a reason exactly where it ends the task.
pub proof fn an_accepted_status_has_a_reason_iff_terminal(
    current: Option<TaskStatus>,
    next: TaskStatus,
    reason: Option<StopReason>,
    row: CaseRow,
    expected: u64,
    now: i64,
)
    requires
        transition_refusal(current, next, reason is Some) is None,
    ensures
        current is Some && may_become(current->0, next),
        terminal(with_status(row, next, reason, expected, now).case.status) <==> with_status(
            row,
            next,
            reason,
            expected,
            now,
        ).case.stop_reason is Some,
{
}

/// A write to one case leaves every other case as it is; and it is only ever let through to a
/// case of the owner who asks.
pub proof fn other_owners_are_untouched(
    cases: Cases,
    owner: Seq<char>,
    id: Seq<char>,
    expected: u64,
    row: CaseRow,
    other: KeyView,
)
    requires
        owns_at(cases, owner, id, expected),
        cases.contains_key(other),
        cases[other].case.owner@ != owner,
    ensures
        after_write(cases, id, row).contains_key(other),
        after_write(cases, id, row)[other] == cases[other],
{
}

/// To an owner, somebody else's case is as good as none: it is neither seen nor written.
pub proof fn a_foreign_case_is_as_good_as_none(
    cases: Cases,
    owner: Seq<char>,
    id: Seq<char>,
    expected: u64,
    next: TaskStatus,
    reason_given: bool,
)
    requires
        cases.contains_key(KeyView::Text(id)),
        cases[KeyView::Text(id)].case.owner@ != owner,
    ensures
        !owns(cases, owner, id),
        !owns_at(cases, owner, id, expected),
        transition_refusal(status_of(cases, owner, id), next, reason_given) is Some,
{
}

/// Creating twice under one key is creating once, whatever the second case holds. (Where the
/// first case's name was taken by a case with another key, nothing was created under this key,
/// and the second may be.)
pub proof fn creating_is_idempotent(
    cases: Cases,
    case: TaskCase,
    key: String,
    now: i64,
    again: TaskCase,
    later: i64,
)
    requires
        !cases.contains_key(KeyView::Text(case.id.0@)) || key_used(cases, key@),
    ensures
        after_create(after_create(cases, case, key, now), again, key, later) == after_create(
            cases,
            case,
            key,
            now,
        ),
{
    let once = after_create(cases, case, key, now);
    if !key_used(cases, key@) {
        let k = KeyView::Text(case.id.0@);
        assert(once.contains_key(k) && once[k].idempotency_key@ == key@);
        assert(key_used(once, key@));
    }
}

/// A case that was created is there for its owner, with the store's own times and everything
/// else as it was given.
pub proof fn a_created_case_can_be_loaded(cases: Cases, case: TaskCase, key: String, now: i64)
    requires
        !key_used(cases, key@),
        !cases.contains_key(KeyView::Text(case.id.0@)),
    ensures
        owns_at(after_create(cases, case, key, now), case.owner@, case.id.0@, case.revision),
        after_create(cases, case, key, now)[KeyView::Text(case.id.0@)].case == (TaskCase {
            created_at: now,
            updated_at: now,
            ..case
        }),
{
}

/// What was saved as the state of a task is what is read back, and the revision moves on.
pub proof fn a_saved_state_is_read_back(
    cases: Cases,
    owner: Seq<char>,
    id: Seq<char>,
    revision: u64,
    saved: String,
    state: JsonTree,
    now: i64,
)
    requires
        owns_at(cases, owner, id, revision),
        reads_as(saved@, state),
    ensures
        ({
            let row = cases[KeyView::Text(id)];
            let after = after_write(
                cases,
                id,
                CaseRow { checkpoint_json: Some(saved), ..touched(row, revision, now) },
            );
            &&& owns_at(after, owner, id, revision_after(revision))
            &&& after[KeyView::Text(id)].checkpoint_json matches Some(kept)
            &&& reads_as(kept@, state)
        }),
{
}

/// A write moves the revision on by one, as long as there is a next one.
pub proof fn a_write_moves_the_revision_on_by_one(expected: u64)
    ensures
        expected < u64::MAX ==> revision_after(expected) == expected + 1,
        expected == u64::MAX ==> revision_after(expected) == expected,
{
}

/// What is written over a case is all taken over but for what identifies it, and is dated.
pub proof fn a_written_case_is_taken_over(row: CaseRow, case: TaskCase, expected: u64, now: i64)
    ensures
        ({
            let after = rewritten(row, case, expected, now);
            &&& after.case.mode == case.mode
            &&& after.case.intent == case.intent
            &&& after.case.frame == case.frame
            &&& after.case.bounds == case.bounds
            &&& after.case.status == case.status
            &&& after.case.stop_reason == case.stop_reason
            &&& after.case.attempts == case.attempts
            &&& after.case.pending_approvals == case.pending_approvals
            &&& after.case.next_decision == case.next_decision
            &&& after.case.usage == case.usage
            &&& after.case.parent == case.parent
            &&& after.case.correlation == case.correlation
            &&& after.case.business_state == case.business_state
            &&& after.case.updated_at == now
            &&& after.idempotency_key == row.idempotency_key
            &&& after.last_confirmed_event == row.last_confirmed_event
            &&& after.checkpoint_json == row.checkpoint_json
        }),
{
}

/// Setting the status sets the status and the reason, dates the case, and leaves everything else as
/// it was.
pub proof fn setting_the_status_sets_nothing_else(
    row: CaseRow,
    next: TaskStatus,
    reason: Option<StopReason>,
    expected: u64,
    now: i64,
)
    ensures
        ({
            let after = with_status(row, next, reason, expected, now);
            &&& after.case.status == next
            &&& after.case.stop_reason == reason
            &&& after.case.updated_at == now
            &&& after.case.id == row.case.id
            &&& after.case.owner == row.case.owner
            &&& after.case.mode == row.case.mode
            &&& after.case.intent == row.case.intent
            &&& after.case.frame == row.case.frame
            &&& after.case.bounds == row.case.bounds
            &&& after.case.attempts == row.case.attempts
            &&& after.case.pending_approvals == row.case.pending_approvals
            &&& after.case.next_decision == row.case.next_decision
            &&& after.case.usage == row.case.usage
            &&& after.case.parent == row.case.parent
            &&& after.case.correlation == row.case.correlation
            &&& after.case.business_state == row.case.business_state
            &&& after.case.created_at == row.case.created_at
            &&& after.idempotency_key == row.idempotency_key
            &&& after.last_confirmed_event == row.last_confirmed_event
            &&& after.checkpoint_json == row.checkpoint_json
        }),
{
}

/// Setting the next decision sets that, dates the case, and leaves everything else as it was; and
/// what only touches a case leaves even that.
pub proof fn setting_the_decision_sets_nothing_else(
    row: CaseRow,
    decision: Option<NextDecision>,
    expected: u64,
    now: i64,
)
    ensures
        ({
            let after = with_decision(row, decision, expected, now);
            &&& after.case.next_decision == decision
            &&& after.case.updated_at == now
            &&& after.case.id == row.case.id
            &&& after.case.owner == row.case.owner
            &&& after.case.mode == row.case.mode
            &&& after.case.intent == row.case.intent
            &&& after.case.frame == row.case.frame
            &&& after.case.bounds == row.case.bounds
            &&& after.case.status == row.case.status
            &&& after.case.stop_reason == row.case.stop_reason
            &&& after.case.attempts == row.case.attempts
            &&& after.case.pending_approvals == row.case.pending_approvals
            &&& after.case.usage == row.case.usage
            &&& after.case.parent == row.case.parent
            &&& after.case.correlation == row.case.correlation
            &&& after.case.business_state == row.case.business_state
            &&& after.case.created_at == row.case.created_at
            &&& after.idempotency_key == row.idempotency_key
            &&& after.last_confirmed_event == row.last_confirmed_event
            &&& after.checkpoint_json == row.checkpoint_json
        }),
        ({
            let after = touched(row, expected, now);
            &&& after.case.updated_at == now
            &&& after.case.id == row.case.id
            &&& after.case.owner == row.case.owner
            &&& after.case.mode == row.case.mode
            &&& after.case.intent == row.case.intent
            &&& after.case.frame == row.case.frame
            &&& after.case.bounds == row.case.bounds
            &&& after.case.status == row.case.status
            &&& after.case.stop_reason == row.case.stop_reason
            &&& after.case.attempts == row.case.attempts
            &&& after.case.pending_approvals == row.case.pending_approvals
            &&& after.case.next_decision == row.case.next_decision
            &&& after.case.usage == row.case.usage
            &&& after.case.parent == row.case.parent
            &&& after.case.correlation == row.case.correlation
            &&& after.case.business_state == row.case.business_state
            &&& after.case.created_at == row.case.created_at
            &&& after.idempotency_key == row.idempotency_key
            &&& after.last_confirmed_event == row.last_confirmed_event
            &&& after.checkpoint_json == row.checkpoint_json
        }),
{
}

/// A status is set exactly where there is a case that is not over, may go on to it, and a reason is
/// given exactly where it ends the task; else the first of these that fails is told.
pub proof fn when_a_status_is_refused(
    current: Option<TaskStatus>,
    next: TaskStatus,
    reason_given: bool,
)
    ensures
        transition_refusal(current, next, reason_given) is None <==> (current matches Some(status)
            && may_become(status, next) && (reason_given <==> terminal(next))),
        match transition_refusal(current, next, reason_given) {
            None => true,
            Some(StoreError::ReasonMismatch { next: named, reason_given: given }) => terminal(next)
                != reason_given && named == next && given == reason_given,
            Some(StoreError::CaseNotFound) => current is None && terminal(next) == reason_given,
            Some(StoreError::AlreadyTerminal(status)) => current == Some(status) && terminal(status)
                && terminal(next) == reason_given,
            Some(StoreError::NotAllowed { from, to }) => current == Some(from) && to == next
                && !terminal(from) && !may_become(from, to) && terminal(next) == reason_given,
            Some(_) => false,
        },
{
}

/// A refusal names what it is about.
pub proof fn a_refusal_names_what_it_is_about(e: StoreError)
    ensures
        match e {
            StoreError::TaskMissing(task) => text::occurs(store_error_text(e), task@),
            StoreError::AttemptMissing(attempt) => text::occurs(store_error_text(e), attempt@),
            StoreError::AlreadyTerminal(current) => text::occurs(
                store_error_text(e),
                status_name(current),
            ),
            StoreError::NotAllowed { from, to } => text::occurs(
                store_error_text(e),
                status_name(from) + " -> "@ + status_name(to),
            ),
            StoreError::Unreadable(message) => store_error_text(e) == message@,
            _ => true,
        },
{
    match e {
        StoreError::TaskMissing(task) => {
            let a = "append_attempt: task case "@;
            text::what_is_written_last_stands_there(a, task@);
            text::what_stands_in_a_text_stands_in_a_longer_one(
                a + task@,
                " does not exist"@,
                task@,
            );
        },
        StoreError::AttemptMissing(attempt) => {
            let a = "record_evidence: attempt "@;
            text::what_is_written_last_stands_there(a, attempt@);
            text::what_stands_in_a_text_stands_in_a_longer_one(
                a + attempt@,
                " not found for owner (cannot resolve its task)"@,
                attempt@,
            );
        },
        StoreError::AlreadyTerminal(current) => {
            let a = "transition_status: case is already terminal ("@;
            let name = status_name(current);
            text::what_is_written_last_stands_there(a, name);
            text::what_stands_in_a_text_stands_in_a_longer_one(
                a + name,
                ") — a task has exactly one terminal event, ever"@,
                name,
            );
        },
        StoreError::NotAllowed { from, to } => {
            let a = "transition_status: "@;
            let middle = status_name(from) + " -> "@ + status_name(to);
            let end = " is not an allowed transition"@;
            text::what_is_written_between_stands_there(a, middle, end);
            assert(store_error_text(e) =~= a + middle + end);
        },
        _ => {},
    }
}

} // verus!
