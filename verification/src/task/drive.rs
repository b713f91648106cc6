//! Runs the adaptive cycle of a task over the store in memory, asking the ports of the host.
use vstd::prelude::*;
use crate::table::{in_place, KeyView};
use crate::task::contract::{
    same_case, usd_at_least, Attempt, CandidateAction, Evidence, TaskCase, UsageAccum, Usd,
    Verdict, VerificationStatus,
};
use crate::task::cycle::{
    adapted, all_stamped, attempt_count, count_attempts, exceeded, finish_effects, finishes,
    gen_id, last_verdict, latest_verdict, observes, records_attempt, records_evidence,
    step_ceiling, survey, surveyed, with_attempt, ActionOutcome, AdaptiveCycle, ChosenStep,
    CycleEffect, CycleNext, CyclePlan, Decision, Observed, PendingAttempt, Survey,
};
use crate::task::event::TaskLifecycleEvent;
use crate::task::memory::{
    a_task_sees_all_its_attempts, after_append, after_record, attempt_of, attempts_at, covers,
    lists_attempts, owns_attempt, MemoryTaskStore,
};
use crate::task::store::{
    after_write, owns, owns_at, revision_after, rewritten, status_of, transition_refusal,
    with_status, AttemptRow, CaseRow, Cases, EvidenceRow, HandleRow, StoreError, StoreOperation,
};
use crate::task::{
    may_become, parked, terminal, ActionId, ApprovalRef, AttemptId, StopReason, TaskCaseId,
    TaskStatus,
};
use crate::text;
use crate::text::{decimal, decimal_int};
use crate::types::BastionError;

verus! {

/// What a chooser is told of the attempts so far.
pub struct CycleHistory<'a> {
    pub last_verdict: Option<&'a Verdict>,
    pub attempt_count: u32,
    pub usage: &'a UsageAccum,
}

/// Chooses what to do next.
pub trait Chooser {
    /// Whether this may be chosen, after which the chooser is like this. Who says nothing here
    /// promises nothing.
    open spec fn may_choose(
        &self,
        case: TaskCase,
        history: CycleHistory<'_>,
        said: Result<ChosenStep, BastionError>,
        after: &Self,
    ) -> bool {
        true
    }

    /// The next step of a task.
    fn next_step(&mut self, case: &TaskCase, history: &CycleHistory<'_>) -> (r: Result<
        ChosenStep,
        BastionError,
    >)
        ensures
            old(self).may_choose(*case, *history, r, final(self)),
    ;
}

/// Does what was chosen.
pub trait TaskExecutor {
    /// Whether doing an action may come to this, after which the executor is like this. Who says
    /// nothing here promises nothing.
    open spec fn may_execute(
        &self,
        action: CandidateAction,
        case: TaskCase,
        said: Result<ActionOutcome, String>,
        after: &Self,
    ) -> bool {
        true
    }

    /// Whether the executor may be like this after it was told to give up.
    open spec fn may_give_up(&self, case: TaskCase, after: &Self) -> bool {
        true
    }

    /// Does it, or says why it could not be done.
    fn execute(&mut self, action: &CandidateAction, case: &TaskCase) -> (r: Result<
        ActionOutcome,
        String,
    >)
        ensures
            old(self).may_execute(*action, *case, r, final(self)),
    ;

    /// Gives up what is in hand.
    fn cancel(&mut self, case: &TaskCase)
        ensures
            old(self).may_give_up(*case, final(self)),
    ;
}

/// Judges what was done.
pub trait Verifier {
    /// Whether this may be said of an attempt, after which the verifier is like this. Who says
    /// nothing here promises nothing.
    open spec fn may_judge(
        &self,
        case: TaskCase,
        attempt: AttemptId,
        evidence: Seq<Evidence>,
        said: Result<Verdict, BastionError>,
        after: &Self,
    ) -> bool {
        true
    }

    /// The verdict on an attempt, by its evidence.
    fn verify(&mut self, case: &TaskCase, attempt: &AttemptId, evidence: &Vec<Evidence>) -> (r:
        Result<Verdict, BastionError>)
        ensures
            old(self).may_judge(*case, *attempt, evidence@, r, final(self)),
    ;
}

/// The rest of what a run needs of its host. Each answer comes with what the host may be like
/// after it; a host that says nothing of that promises nothing.
pub trait CycleHost {
    /// Whether it may be this time.
    open spec fn may_tell_time(&self, now: i64, after: &Self) -> bool {
        true
    }

    /// Whether the run may have taken this long.
    open spec fn may_have_taken(&self, wall_ms: u64, after: &Self) -> bool {
        true
    }

    /// Whether this may be said of a cancellation.
    open spec fn may_want_cancel(&self, answer: bool, after: &Self) -> bool {
        true
    }

    /// Whether this number may be given.
    open spec fn may_number(&self, n: u64, after: &Self) -> bool {
        true
    }

    /// Whether this may be the sum of two amounts.
    open spec fn may_add_up(
        &self,
        so_far: Option<Usd>,
        step: Option<Usd>,
        sum: Option<Usd>,
        after: &Self,
    ) -> bool {
        true
    }

    /// Nanoseconds since 1970.
    fn now_nanos(&mut self) -> (r: i64)
        ensures
            old(self).may_tell_time(r, final(self)),
    ;

    /// Milliseconds since the run began.
    fn elapsed_ms(&mut self) -> (r: u64)
        ensures
            old(self).may_have_taken(r, final(self)),
    ;

    /// Whether the run is to be cancelled.
    fn cancel_requested(&mut self) -> (r: bool)
        ensures
            old(self).may_want_cancel(r, final(self)),
    ;

    /// A number that was not given before.
    fn next_number(&mut self) -> (r: u64)
        ensures
            old(self).may_number(r, final(self)),
    ;

    /// The sum of two amounts.
    fn total_cost(&mut self, so_far: Option<Usd>, step: Option<Usd>) -> (r: Option<Usd>)
        ensures
            old(self).may_add_up(so_far, step, r, final(self)),
    ;
}

/// Hears what happens to a task.
pub trait TaskObserver {
    /// Whether the observer may be like this after it was told of an event.
    open spec fn may_record(&self, event: TaskLifecycleEvent, after: &Self) -> bool {
        true
    }

    /// Takes note of an event.
    fn record(&mut self, event: &TaskLifecycleEvent)
        ensures
            old(self).may_record(*event, final(self)),
    ;
}

/// Why a run ended without a status.
#[derive(Debug)]
pub enum CycleError {
    /// The owner has no such case.
    Missing(String),
    /// The store refused.
    Store(StoreError),
    /// The chooser or the verifier failed.
    Host(BastionError),
}

impl CycleError {
    /// The text of this error.
    pub fn message(&self) -> (r: String)
        ensures
            match *self {
                CycleError::Missing(text) => r@ == text@,
                CycleError::Store(e) => r@ == crate::task::store::store_error_text(e),
                CycleError::Host(e) => r@ == crate::types::error_text(e),
            },
    {
        match self {
            CycleError::Missing(text) => text.clone(),
            CycleError::Store(e) => e.message(),
            CycleError::Host(e) => e.message(),
        }
    }
}

/// The chooser chooses no action, whatever it is asked about.
pub open spec fn never_acts<C: Chooser>() -> bool {
    forall|
        c: C,
        case: TaskCase,
        history: CycleHistory<'_>,
        action: CandidateAction,
        after: C,
    |
        !#[trigger] c.may_choose(case, history, Ok(ChosenStep::Act(action)), &after)
}

/// The observer was told of these events, one after the other, and of nothing else.
pub open spec fn told<O: TaskObserver>(
    before: O,
    events: Seq<TaskLifecycleEvent>,
    after: O,
) -> bool
    decreases events.len(),
{
    if events.len() == 0 {
        after == before
    } else {
        exists|between: O|
            told(before, events.drop_last(), between) && #[trigger] between.may_record(
                events.last(),
                &after,
            )
    }
}

/// The rows of a store that a cycle writes to, and the sessions, which it leaves alone.
pub struct Rows {
    pub cases: Cases,
    /// The cases in the order in which they were created.
    pub case_order: Seq<CaseRow>,
    pub attempts: Map<KeyView, AttemptRow>,
    /// The attempts in the order in which they were appended.
    pub order: Seq<AttemptRow>,
    pub evidence: Map<KeyView, EvidenceRow>,
    /// The evidence in the order in which it was recorded.
    pub evidence_order: Seq<EvidenceRow>,
    pub handles: Map<KeyView, HandleRow>,
}

/// The rows of a store.
pub open spec fn rows_of(store: MemoryTaskStore) -> Rows {
    Rows {
        cases: store.cases(),
        case_order: store.case_order(),
        attempts: store.attempts(),
        order: store.attempt_order(),
        evidence: store.evidence(),
        evidence_order: store.evidence_order(),
        handles: store.handles(),
    }
}

/// The row of the cycle's case.
pub open spec fn row_of(cycle: AdaptiveCycle, rows: Rows) -> CaseRow {
    rows.cases[KeyView::Text(cycle.task.0@)]
}

/// The case of the cycle.
pub open spec fn case_of(cycle: AdaptiveCycle, cases: Cases) -> TaskCase {
    cases[KeyView::Text(cycle.task.0@)].case
}

/// The rows after the row of the cycle's case was written: it keeps its place.
pub open spec fn row_written(cycle: AdaptiveCycle, rows: Rows, row: CaseRow) -> Rows {
    let cases = after_write(rows.cases, cycle.task.0@, row);
    Rows {
        cases,
        case_order: in_place(rows.case_order, cases),
        ..rows
    }
}

/// The rows after the status of the cycle's case was set.
pub open spec fn status_set(
    cycle: AdaptiveCycle,
    rows: Rows,
    next: TaskStatus,
    reason: Option<StopReason>,
    now: i64,
) -> Rows {
    let row = row_of(cycle, rows);
    row_written(cycle, rows, with_status(row, next, reason, row.case.revision, now))
}

/// The rows after the cycle's case was written.
pub open spec fn case_written(cycle: AdaptiveCycle, rows: Rows, case: TaskCase, now: i64) -> Rows {
    let row = row_of(cycle, rows);
    row_written(cycle, rows, rewritten(row, case, row.case.revision, now))
}

/// The rows after an attempt was appended; one of that name stays as it is.
pub open spec fn attempt_appended(rows: Rows, owner: String, record: Attempt) -> Rows {
    if rows.attempts.contains_key(KeyView::Text(record.id.0@)) {
        rows
    } else {
        Rows {
            attempts: after_append(rows.attempts, owner, record),
            order: rows.order.push(AttemptRow { owner, attempt: record }),
            ..rows
        }
    }
}

/// The rows after a piece of evidence for a task was recorded; one of that name stays as it is.
pub open spec fn piece_recorded(
    cycle: AdaptiveCycle,
    rows: Rows,
    task: TaskCaseId,
    piece: Evidence,
) -> Rows {
    if rows.evidence.contains_key(KeyView::Text(piece.id.0@)) {
        rows
    } else {
        Rows {
            evidence: after_record(rows.evidence, cycle.owner, task, piece),
            evidence_order: rows.evidence_order.push(
                EvidenceRow { owner: cycle.owner, task, evidence: piece },
            ),
            ..rows
        }
    }
}

/// The rows after pieces of evidence for a task were recorded, one after the other.
pub open spec fn evidence_recorded(
    cycle: AdaptiveCycle,
    rows: Rows,
    task: TaskCaseId,
    pieces: Seq<Evidence>,
) -> Rows
    decreases pieces.len(),
{
    if pieces.len() == 0 {
        rows
    } else {
        let so_far = evidence_recorded(cycle, rows, task, pieces.drop_last());
        piece_recorded(cycle, so_far, task, pieces.last())
    }
}

/// The rows after an attempt and its evidence were stored.
pub open spec fn attempt_stored(
    cycle: AdaptiveCycle,
    rows: Rows,
    record: Attempt,
    pieces: Seq<Evidence>,
) -> Rows {
    let appended = attempt_appended(rows, row_of(cycle, rows).case.owner, record);
    evidence_recorded(
        cycle,
        appended,
        appended.attempts[KeyView::Text(record.id.0@)].attempt.task,
        pieces,
    )
}

/// The name of an attempt is not that of somebody else's.
pub open spec fn name_is_free(cycle: AdaptiveCycle, rows: Rows, attempt: AttemptId) -> bool {
    let key = KeyView::Text(attempt.0@);
    rows.attempts.contains_key(key) ==> rows.attempts[key].owner@ == cycle.owner@
}

/// The rows and the revision after one effect; `None` where the store refuses it.
spec fn effect_on_rows(
    cycle: AdaptiveCycle,
    rows: Rows,
    revision: u64,
    effect: CycleEffect,
    now: i64,
) -> Option<(Rows, u64)> {
    match effect {
        CycleEffect::Transition { next, reason } => if transition_refusal(
            status_of(rows.cases, cycle.owner@, cycle.task.0@),
            next,
            reason is Some,
        ) is None && owns_at(rows.cases, cycle.owner@, cycle.task.0@, revision) {
            Some((status_set(cycle, rows, next, reason, now), revision_after(revision)))
        } else {
            None
        },
        CycleEffect::UpdateCase(case) => if owns_at(
            rows.cases,
            case.owner@,
            case.id.0@,
            revision,
        ) {
            Some((case_written(cycle, rows, case, now), revision_after(revision)))
        } else {
            None
        },
        CycleEffect::AppendAttempt(record) => {
            let task = KeyView::Text(record.task.0@);
            if rows.cases.contains_key(task) {
                Some((attempt_appended(rows, rows.cases[task].case.owner, record), revision))
            } else {
                None
            }
        },
        CycleEffect::RecordEvidence(piece) => {
            let attempt = KeyView::Text(piece.attempt.0@);
            if owns_attempt(rows.attempts, cycle.owner@, piece.attempt.0@) {
                let task = rows.attempts[attempt].attempt.task;
                Some((piece_recorded(cycle, rows, task, piece), revision))
            } else {
                None
            }
        },
        CycleEffect::CancelExecutor | CycleEffect::Emit(_) => Some((rows, revision)),
    }
}

/// Why the store refuses an effect.
spec fn refused_for(
    cycle: AdaptiveCycle,
    rows: Rows,
    revision: u64,
    effect: CycleEffect,
    why: StoreError,
) -> bool {
    match effect {
        CycleEffect::Transition { next, reason } => why == match transition_refusal(
            status_of(rows.cases, cycle.owner@, cycle.task.0@),
            next,
            reason is Some,
        ) {
            Some(refusal) => refusal,
            None => StoreError::RevisionConflict(revision),
        },
        CycleEffect::UpdateCase(_) => why == (StoreError::NoMatch {
            operation: StoreOperation::UpdateCase,
            expected: revision,
        }),
        CycleEffect::AppendAttempt(record) => why matches StoreError::TaskMissing(task) && task@
            == record.task.0@,
        CycleEffect::RecordEvidence(piece) => why matches StoreError::AttemptMissing(attempt)
            && attempt@ == piece.attempt.0@,
        CycleEffect::CancelExecutor | CycleEffect::Emit(_) => false,
    }
}

/// The rows and the revision after some effects, one after the other; `None` where the store
/// refuses one of them.
#[verifier::opaque]
spec fn effects_on_rows(
    cycle: AdaptiveCycle,
    rows: Rows,
    revision: u64,
    effects: Seq<CycleEffect>,
    now: i64,
) -> Option<(Rows, u64)>
    decreases effects.len(),
{
    if effects.len() == 0 {
        Some((rows, revision))
    } else {
        match effects_on_rows(cycle, rows, revision, effects.drop_last(), now) {
            Some((so_far, next)) => effect_on_rows(cycle, so_far, next, effects.last(), now),
            None => None,
        }
    }
}

/// The effects stop at one that the store refuses, for this reason; those before it are carried
/// out.
spec fn stops_at(
    cycle: AdaptiveCycle,
    before: Rows,
    revision: u64,
    effects: Seq<CycleEffect>,
    now: i64,
    i: int,
    after: Rows,
    why: StoreError,
) -> bool {
    &&& 0 <= i < effects.len()
    &&& effects_on_rows(cycle, before, revision, effects.take(i), now) matches Some((rows, next))
    &&& rows == after
    &&& effect_on_rows(cycle, rows, next, effects[i], now) is None
    &&& refused_for(cycle, rows, next, effects[i], why)
}

/// No effect.
proof fn lemma_no_effect(cycle: AdaptiveCycle, rows: Rows, revision: u64, effects: Seq<CycleEffect>, now: i64)
    ensures
        effects_on_rows(cycle, rows, revision, effects.take(0), now) == Some((rows, revision)),
        effects.take(effects.len() as int) == effects,
{
    reveal(effects_on_rows);
    assert(effects.take(effects.len() as int) =~= effects);
}

/// One more effect.
proof fn lemma_next_effect(
    cycle: AdaptiveCycle,
    rows: Rows,
    revision: u64,
    effects: Seq<CycleEffect>,
    n: int,
    now: i64,
)
    requires
        0 <= n < effects.len(),
    ensures
        effects_on_rows(cycle, rows, revision, effects.take(n + 1), now) == match effects_on_rows(
            cycle,
            rows,
            revision,
            effects.take(n),
            now,
        ) {
            Some((so_far, next)) => effect_on_rows(cycle, so_far, next, effects[n], now),
            None => None,
        },
{
    reveal(effects_on_rows);
    assert(effects.take(n + 1).drop_last() =~= effects.take(n));
    assert(effects.take(n + 1).last() == effects[n]);
}

/// A refused effect is not made up for by later ones.
proof fn lemma_stays_refused(
    cycle: AdaptiveCycle,
    rows: Rows,
    revision: u64,
    effects: Seq<CycleEffect>,
    n: int,
    m: int,
    now: i64,
)
    requires
        0 <= n <= m <= effects.len(),
        effects_on_rows(cycle, rows, revision, effects.take(n), now) is None,
    ensures
        effects_on_rows(cycle, rows, revision, effects.take(m), now) is None,
    decreases m - n,
{
    if n < m {
        lemma_stays_refused(cycle, rows, revision, effects, n, m - 1, now);
        lemma_next_effect(cycle, rows, revision, effects, m - 1, now);
    }
}

/// Effects that are carried out stop nowhere.
proof fn lemma_stops_nowhere(
    cycle: AdaptiveCycle,
    rows: Rows,
    revision: u64,
    effects: Seq<CycleEffect>,
    now: i64,
    i: int,
    after: Rows,
    why: StoreError,
)
    requires
        effects_on_rows(cycle, rows, revision, effects, now) is Some,
    ensures
        !stops_at(cycle, rows, revision, effects, now, i, after, why),
{
    if stops_at(cycle, rows, revision, effects, now, i, after, why) {
        lemma_next_effect(cycle, rows, revision, effects, i, now);
        lemma_stays_refused(cycle, rows, revision, effects, i + 1, effects.len() as int, now);
        lemma_no_effect(cycle, rows, revision, effects, now);
    }
}

/// Evidence of an attempt of the owner is recorded piece by piece.
proof fn lemma_recording(
    cycle: AdaptiveCycle,
    first: Rows,
    revision: u64,
    effects: Seq<CycleEffect>,
    from: int,
    rows: Rows,
    next: u64,
    attempt: AttemptId,
    pieces: Seq<Evidence>,
    k: int,
    now: i64,
)
    requires
        0 <= from,
        0 <= k <= pieces.len(),
        records_evidence(effects, from, pieces),
        forall|i: int| 0 <= i < pieces.len() ==> (#[trigger] pieces[i]).attempt == attempt,
        effects_on_rows(cycle, first, revision, effects.take(from), now) == Some((rows, next)),
        owns_attempt(rows.attempts, cycle.owner@, attempt.0@),
    ensures
        effects_on_rows(cycle, first, revision, effects.take(from + k), now) == Some(
            (
                evidence_recorded(
                    cycle,
                    rows,
                    rows.attempts[KeyView::Text(attempt.0@)].attempt.task,
                    pieces.take(k),
                ),
                next,
            ),
        ),
        evidence_recorded(
            cycle,
            rows,
            rows.attempts[KeyView::Text(attempt.0@)].attempt.task,
            pieces.take(k),
        ).attempts == rows.attempts,
        evidence_recorded(
            cycle,
            rows,
            rows.attempts[KeyView::Text(attempt.0@)].attempt.task,
            pieces.take(k),
        ).cases == rows.cases,
    decreases k,
{
    if k > 0 {
        lemma_recording(
            cycle,
            first,
            revision,
            effects,
            from,
            rows,
            next,
            attempt,
            pieces,
            k - 1,
            now,
        );
        lemma_next_effect(cycle, first, revision, effects, from + k - 1, now);
        assert(pieces.take(k).drop_last() =~= pieces.take(k - 1));
        assert(effects[from + (k - 1)] == CycleEffect::RecordEvidence(pieces[k - 1]));
    }
}

/// Evidence of an attempt that the owner does not have is refused at the first piece.
proof fn lemma_recording_refused(
    cycle: AdaptiveCycle,
    first: Rows,
    revision: u64,
    effects: Seq<CycleEffect>,
    from: int,
    rows: Rows,
    next: u64,
    attempt: AttemptId,
    pieces: Seq<Evidence>,
    now: i64,
)
    requires
        0 <= from,
        0 < pieces.len(),
        records_evidence(effects, from, pieces),
        pieces[0].attempt == attempt,
        effects_on_rows(cycle, first, revision, effects.take(from), now) == Some((rows, next)),
        !owns_attempt(rows.attempts, cycle.owner@, attempt.0@),
    ensures
        effects_on_rows(cycle, first, revision, effects, now) is None,
        forall|i: int, after: Rows, why: StoreError|
            #[trigger] stops_at(cycle, first, revision, effects, now, i, after, why) ==> i == from
                && after == rows && (why matches StoreError::AttemptMissing(name) && name@
                == attempt.0@),
{
    assert(effects[from + 0] == CycleEffect::RecordEvidence(pieces[0]));
    lemma_next_effect(cycle, first, revision, effects, from, now);
    lemma_stays_refused(cycle, first, revision, effects, from + 1, effects.len() as int, now);
    lemma_no_effect(cycle, first, revision, effects, now);
    assert forall|i: int, after: Rows, why: StoreError|
        #[trigger] stops_at(cycle, first, revision, effects, now, i, after, why) implies i == from
        && after == rows && (why matches StoreError::AttemptMissing(name) && name@
        == attempt.0@) by {
        lemma_next_effect(cycle, first, revision, effects, i, now);
        if i < from {
            lemma_stays_refused(cycle, first, revision, effects, i + 1, from, now);
        } else if i > from {
            lemma_stays_refused(cycle, first, revision, effects, from + 1, i, now);
        }
    }
}

/// The effect writes to no other case than that of the cycle.
spec fn keeps_to_task(cycle: AdaptiveCycle, effect: CycleEffect) -> bool {
    effect matches CycleEffect::UpdateCase(case) ==> case.id.0@ == cycle.task.0@
}

/// Every case but that of the cycle is as it was.
pub open spec fn others_unchanged(cycle: AdaptiveCycle, before: Cases, after: Cases) -> bool {
    forall|k: KeyView|
        k != KeyView::Text(cycle.task.0@) ==> (#[trigger] after.contains_key(k)
            <==> before.contains_key(k)) && (before.contains_key(k) ==> after[k] == before[k])
}

/// What leaves the other cases alone twice leaves them alone.
proof fn lemma_others_unchanged(cycle: AdaptiveCycle, a: Cases, b: Cases, c: Cases)
    requires
        others_unchanged(cycle, a, b),
        others_unchanged(cycle, b, c),
    ensures
        others_unchanged(cycle, a, c),
{
    assert forall|k: KeyView| k != KeyView::Text(cycle.task.0@) implies (
    #[trigger] c.contains_key(k) <==> a.contains_key(k)) && (a.contains_key(k) ==> c[k]
        == a[k]) by {
        assert(b.contains_key(k) <==> a.contains_key(k));
    }
}

/// The task is over or waits for somebody.
pub open spec fn resting(status: TaskStatus) -> bool {
    terminal(status) || parked(status)
}

/// What a chooser is told where these are the attempts so far, the oldest first.
pub open spec fn history_of<'a>(list: Seq<&'a Attempt>, case: &'a TaskCase) -> CycleHistory<'a> {
    CycleHistory {
        last_verdict: match latest_verdict(list) {
            Some(verdict) => Some(&verdict),
            None => None,
        },
        attempt_count: attempt_count(*case),
        usage: &case.usage,
    }
}

/// The latest of the attempts at a task has a succeeding verdict.
pub open spec fn proven(order: Seq<AttemptRow>, owner: Seq<char>, task: Seq<char>) -> bool {
    exists|list: Seq<&Attempt>| #[trigger]
        lists_attempts(list, order, owner, task) && succeeds(list)
}

/// The latest of these attempts, the oldest of which comes first, has a succeeding verdict.
pub open spec fn succeeds(list: Seq<&Attempt>) -> bool {
    latest_verdict(list) matches Some(verdict) && verdict.status == VerificationStatus::Succeeded
}

/// The name of an attempt by time and number.
pub open spec fn attempt_name(nanos: i64, n: u64) -> Seq<char> {
    "attempt"@ + "-"@ + decimal_int(nanos as int) + "-"@ + decimal(n as nat)
}

/// What a step may write to whatever it leads to: the rows, and the host and the observer, who are
/// like this by now.
pub struct Scene<H, O> {
    pub rows: Rows,
    pub host: H,
    pub observer: O,
}

/// All that a run works on, at one moment.
pub struct World<C, X, V, H, O> {
    pub scene: Scene<H, O>,
    pub chooser: C,
    pub executor: X,
    pub verifier: V,
}

/// The event that the task has this status.
pub open spec fn status_event(cycle: AdaptiveCycle, status: TaskStatus) -> TaskLifecycleEvent {
    TaskLifecycleEvent::StatusChanged { owner: cycle.owner, task: cycle.task, status }
}

/// The events by which an attempt at an action is announced.
pub open spec fn announcement(
    cycle: AdaptiveCycle,
    attempt: AttemptId,
    action: ActionId,
) -> Seq<TaskLifecycleEvent> {
    seq![
        TaskLifecycleEvent::AttemptStarted { owner: cycle.owner, task: cycle.task, attempt },
        TaskLifecycleEvent::ActionChosen { owner: cycle.owner, task: cycle.task, attempt, action },
    ]
}

/// The events by which a judged attempt is told.
pub open spec fn judgement(
    cycle: AdaptiveCycle,
    attempt: AttemptId,
    status: VerificationStatus,
) -> Seq<TaskLifecycleEvent> {
    seq![
        TaskLifecycleEvent::Verified { owner: cycle.owner, task: cycle.task, attempt, status },
        TaskLifecycleEvent::Adapted { owner: cycle.owner, task: cycle.task, attempt },
    ]
}

/// The events by which it is told that a task waits for an approval.
pub open spec fn parking(cycle: AdaptiveCycle, approval: ApprovalRef) -> Seq<TaskLifecycleEvent> {
    seq![
        TaskLifecycleEvent::ApprovalPending { owner: cycle.owner, task: cycle.task, approval },
        status_event(cycle, TaskStatus::AwaitingApproval),
    ]
}

/// The task ended with this status for this reason, at the time that the host said, and the
/// observer was told so once.
pub open spec fn ended<H: CycleHost, O: TaskObserver>(
    cycle: AdaptiveCycle,
    before: Scene<H, O>,
    status: TaskStatus,
    reason: StopReason,
    after: Scene<H, O>,
    r: Result<Option<TaskStatus>, CycleError>,
) -> bool {
    &&& r == Ok::<Option<TaskStatus>, CycleError>(Some(status))
    &&& before.observer.may_record(
        TaskLifecycleEvent::Terminal {
            owner: cycle.owner,
            task: cycle.task,
            status,
            stop_reason: reason,
        },
        &after.observer,
    )
    &&& exists|now: i64| #[trigger]
        before.host.may_tell_time(now, &after.host) && after.rows == status_set(
            cycle,
            before.rows,
            status,
            Some(reason),
            now,
        )
}

/// The evidence was not stored, because the name of the attempt is taken, and the observer was not
/// told.
pub open spec fn not_stored<H: CycleHost, O: TaskObserver>(
    before: Scene<H, O>,
    attempt: AttemptId,
    after: Scene<H, O>,
    r: Result<Option<TaskStatus>, CycleError>,
) -> bool {
    &&& after.rows == before.rows
    &&& after.observer == before.observer
    &&& r matches Err(CycleError::Store(StoreError::AttemptMissing(name)))
    &&& name@ == attempt.0@
}

/// The attempt, its evidence and the case that counts it were stored, and the run goes on.
pub open spec fn goes_on<H: CycleHost, O: TaskObserver>(
    cycle: AdaptiveCycle,
    before: Scene<H, O>,
    record: Attempt,
    verdict: Verdict,
    pieces: Seq<Evidence>,
    counted: TaskCase,
    after: Scene<H, O>,
    r: Result<Option<TaskStatus>, CycleError>,
) -> bool {
    exists|now: i64|
        {
            &&& #[trigger] before.host.may_tell_time(now, &after.host)
            &&& if pieces.len() == 0 || name_is_free(cycle, before.rows, record.id) {
                &&& r == Ok::<Option<TaskStatus>, CycleError>(None)
                &&& told(
                    before.observer,
                    judgement(cycle, record.id, verdict.status),
                    after.observer,
                )
                &&& after.rows == case_written(
                    cycle,
                    attempt_stored(cycle, before.rows, record, pieces),
                    counted,
                    now,
                )
            } else {
                not_stored(before, record.id, after, r)
            }
        }
}

/// The attempt, its evidence and the case that counts it were stored, and the task waits for an
/// approval.
pub open spec fn waits<H: CycleHost, O: TaskObserver>(
    cycle: AdaptiveCycle,
    before: Scene<H, O>,
    record: Attempt,
    approval: ApprovalRef,
    pieces: Seq<Evidence>,
    counted: TaskCase,
    after: Scene<H, O>,
    r: Result<Option<TaskStatus>, CycleError>,
) -> bool {
    exists|now: i64|
        {
            &&& #[trigger] before.host.may_tell_time(now, &after.host)
            &&& if pieces.len() == 0 || name_is_free(cycle, before.rows, record.id) {
                &&& r == Ok::<Option<TaskStatus>, CycleError>(Some(TaskStatus::AwaitingApproval))
                &&& told(before.observer, parking(cycle, approval), after.observer)
                &&& after.rows == status_set(
                    cycle,
                    case_written(
                        cycle,
                        attempt_stored(cycle, before.rows, record, pieces),
                        counted,
                        now,
                    ),
                    TaskStatus::AwaitingApproval,
                    None,
                    now,
                )
            } else {
                not_stored(before, record.id, after, r)
            }
        }
}

/// What the verifier's word on an attempt led to: it was asked once, and by its verdict the attempt
/// was stored, begun and closed at the times that the host said.
pub open spec fn judged<V: Verifier, H: CycleHost, O: TaskObserver>(
    cycle: AdaptiveCycle,
    attempt: AttemptId,
    action: CandidateAction,
    usage: UsageAccum,
    pieces: Seq<Evidence>,
    counted: TaskCase,
    before: Scene<H, O>,
    verifier: V,
    after: Scene<H, O>,
    verifier_after: V,
    r: Result<Option<TaskStatus>, CycleError>,
) -> bool {
    exists|answer: Result<Verdict, BastionError>|
        {
            &&& #[trigger] verifier.may_judge(counted, attempt, pieces, answer, &verifier_after)
            &&& match answer {
                Err(e) => after == before && r == Err::<Option<TaskStatus>, CycleError>(
                    CycleError::Host(e),
                ),
                Ok(verdict) => exists|record: Attempt, started: i64, first: H, closed: i64, second: H|
                    {
                        &&& #[trigger] before.host.may_tell_time(started, &first)
                        &&& #[trigger] first.may_tell_time(closed, &second)
                        &&& #[trigger] records_attempt(
                            record,
                            attempt,
                            cycle.task,
                            action.id,
                            action.belief_refs@,
                            usage,
                            started,
                            Some(closed),
                            Some(verdict),
                        )
                        &&& goes_on(
                            cycle,
                            Scene { host: second, ..before },
                            record,
                            verdict,
                            pieces,
                            counted,
                            after,
                            r,
                        )
                    },
            }
        }
}

/// What an executed action led to: the observer is told of it, and the task waits for an approval,
/// or the verifier has the word.
pub open spec fn observed<V: Verifier, H: CycleHost, O: TaskObserver>(
    cycle: AdaptiveCycle,
    case: TaskCase,
    attempt: AttemptId,
    action: CandidateAction,
    outcome: ActionOutcome,
    cost: Option<Usd>,
    before: Scene<H, O>,
    verifier: V,
    after: Scene<H, O>,
    verifier_after: V,
    r: Result<Option<TaskStatus>, CycleError>,
) -> bool {
    let pieces = all_stamped(outcome.evidence@, attempt, action.id);
    exists|at: i64, host: H, observer: O, counted: TaskCase|
        {
            &&& #[trigger] before.host.may_tell_time(at, &host)
            &&& #[trigger] before.observer.may_record(
                TaskLifecycleEvent::ActionObserved {
                    owner: cycle.owner,
                    task: cycle.task,
                    attempt,
                    action: action.id,
                },
                &observer,
            )
            &&& #[trigger] with_attempt(
                case,
                counted,
                attempt,
                outcome.usage,
                cost,
                outcome.pending_approval,
            )
            &&& match outcome.pending_approval {
                Some(approval) => verifier_after == verifier && exists|record: Attempt|
                    {
                        &&& #[trigger] records_attempt(
                            record,
                            attempt,
                            cycle.task,
                            action.id,
                            action.belief_refs@,
                            outcome.usage,
                            at,
                            None,
                            None,
                        )
                        &&& waits(
                            cycle,
                            Scene { host, observer, ..before },
                            record,
                            approval,
                            pieces,
                            counted,
                            after,
                            r,
                        )
                    },
                None => judged(
                    cycle,
                    attempt,
                    action,
                    outcome.usage,
                    pieces,
                    counted,
                    Scene { host, observer, ..before },
                    verifier,
                    after,
                    verifier_after,
                    r,
                ),
            }
        }
}

/// What an action led to: it is announced under a new name and the executor is asked once; a
/// failure of it ends the task.
pub open spec fn acted<X: TaskExecutor, V: Verifier, H: CycleHost, O: TaskObserver>(
    cycle: AdaptiveCycle,
    case: TaskCase,
    action: CandidateAction,
    before: Scene<H, O>,
    executor: X,
    verifier: V,
    after: Scene<H, O>,
    executor_after: X,
    verifier_after: V,
    r: Result<Option<TaskStatus>, CycleError>,
) -> bool {
    exists|
        nanos: i64,
        first: H,
        n: u64,
        host: H,
        attempt: AttemptId,
        observer: O,
        answer: Result<ActionOutcome, String>,
    |
        {
            &&& #[trigger] before.host.may_tell_time(nanos, &first)
            &&& #[trigger] first.may_number(n, &host)
            &&& attempt.0@ == attempt_name(nanos, n)
            &&& #[trigger] told(
                before.observer,
                announcement(cycle, attempt, action.id),
                observer,
            )
            &&& #[trigger] executor.may_execute(action, case, answer, &executor_after)
            &&& match answer {
                Err(error) => verifier_after == verifier && exists|reason: String|
                    {
                        &&& #[trigger] reason@ == "executor error: "@ + error@
                        &&& ended(
                            cycle,
                            Scene { host, observer, ..before },
                            TaskStatus::Failed,
                            StopReason::Impossible(reason),
                            after,
                            r,
                        )
                    },
                Ok(outcome) => exists|cost: Option<Usd>, second: H|
                    {
                        &&& #[trigger] host.may_add_up(
                            case.usage.cost_usd,
                            outcome.usage.cost_usd,
                            cost,
                            &second,
                        )
                        &&& observed(
                            cycle,
                            case,
                            attempt,
                            action,
                            outcome,
                            cost,
                            Scene { host: second, observer, ..before },
                            verifier,
                            after,
                            verifier_after,
                            r,
                        )
                    },
            }
        }
}

/// What the chooser's step led to, where these are the attempts so far: success is stored only over
/// a succeeding verdict on the latest of them, and nobody else is asked unless there is something
/// to do.
pub open spec fn followed<X: TaskExecutor, V: Verifier, H: CycleHost, O: TaskObserver>(
    cycle: AdaptiveCycle,
    case: TaskCase,
    list: Seq<&Attempt>,
    step: ChosenStep,
    before: Scene<H, O>,
    executor: X,
    verifier: V,
    after: Scene<H, O>,
    executor_after: X,
    verifier_after: V,
    r: Result<Option<TaskStatus>, CycleError>,
) -> bool {
    match step {
        ChosenStep::Act(action) => acted(
            cycle,
            case,
            action,
            before,
            executor,
            verifier,
            after,
            executor_after,
            verifier_after,
            r,
        ),
        _ => {
            &&& executor_after == executor
            &&& verifier_after == verifier
            &&& match step {
                ChosenStep::Complete => if succeeds(list) {
                    ended(cycle, before, TaskStatus::Completed, StopReason::Completed, after, r)
                } else {
                    exists|reason: String|
                        {
                            &&& #[trigger] reason@
                                == "completion claimed without a succeeding verdict"@
                            &&& ended(
                                cycle,
                                before,
                                TaskStatus::Escalated,
                                StopReason::Escalated(reason),
                                after,
                                r,
                            )
                        }
                },
                ChosenStep::Escalate(reason) => ended(
                    cycle,
                    before,
                    TaskStatus::Escalated,
                    StopReason::Escalated(reason),
                    after,
                    r,
                ),
                ChosenStep::Impossible(reason) => ended(
                    cycle,
                    before,
                    TaskStatus::Failed,
                    StopReason::Impossible(reason),
                    after,
                    r,
                ),
                ChosenStep::Act(_) => false,
            }
        },
    }
}

/// What a running task was led to by the chooser, who is asked once, is told the verdict on the
/// latest attempt, and is followed.
pub open spec fn went_on<
    C: Chooser,
    X: TaskExecutor,
    V: Verifier,
    H: CycleHost,
    O: TaskObserver,
>(
    cycle: AdaptiveCycle,
    case: TaskCase,
    before: World<C, X, V, H, O>,
    after: World<C, X, V, H, O>,
    r: Result<Option<TaskStatus>, CycleError>,
) -> bool {
    exists|list: Seq<&Attempt>, answer: Result<ChosenStep, BastionError>|
        {
            &&& #[trigger] lists_attempts(
                list,
                before.scene.rows.order,
                cycle.owner@,
                cycle.task.0@,
            )
            &&& #[trigger] before.chooser.may_choose(
                case,
                history_of(list, &case),
                answer,
                &after.chooser,
            )
            &&& match answer {
                Err(e) => {
                    &&& after == (World { chooser: after.chooser, ..before })
                    &&& r == Err::<Option<TaskStatus>, CycleError>(CycleError::Host(e))
                },
                Ok(step) => followed(
                    cycle,
                    case,
                    list,
                    step,
                    before.scene,
                    before.executor,
                    before.verifier,
                    after.scene,
                    after.executor,
                    after.verifier,
                    r,
                ),
            }
        }
}

/// How a task that may go on is made a running one: one that has not begun is started, and the
/// observer is told.
pub open spec fn begun<H: CycleHost, O: TaskObserver>(
    cycle: AdaptiveCycle,
    before: Scene<H, O>,
    start: bool,
    after: Scene<H, O>,
) -> bool {
    exists|now: i64|
        {
            &&& #[trigger] before.host.may_tell_time(now, &after.host)
            &&& if start {
                &&& before.observer.may_record(
                    status_event(cycle, TaskStatus::Running),
                    &after.observer,
                )
                &&& after.rows == status_set(cycle, before.rows, TaskStatus::Running, None, now)
            } else {
                after.observer == before.observer && after.rows == before.rows
            }
        }
}

/// What a step did that found this about the owner's case: the task rests, ends, or goes on from
/// an attempt that was stored. Nobody is asked but whom it needs.
pub open spec fn stepped_by<
    C: Chooser,
    X: TaskExecutor,
    V: Verifier,
    H: CycleHost,
    O: TaskObserver,
>(
    cycle: AdaptiveCycle,
    case: TaskCase,
    found: Survey,
    before: World<C, X, V, H, O>,
    after: World<C, X, V, H, O>,
    r: Result<Option<TaskStatus>, CycleError>,
) -> bool {
    match found {
        Survey::Missing => false,
        Survey::Stop(status) => {
            &&& after == before
            &&& r == Ok::<Option<TaskStatus>, CycleError>(Some(status))
        },
        Survey::Cancel => {
            &&& after.chooser == before.chooser
            &&& after.verifier == before.verifier
            &&& before.executor.may_give_up(case, &after.executor)
            &&& ended(
                cycle,
                before.scene,
                TaskStatus::Cancelled,
                StopReason::Cancelled,
                after.scene,
                r,
            )
        },
        Survey::OverBudget(kind) => {
            &&& after == (World { scene: after.scene, ..before })
            &&& ended(
                cycle,
                before.scene,
                TaskStatus::Failed,
                StopReason::BudgetExceeded(kind),
                after.scene,
                r,
            )
        },
        Survey::Proceed { start } => exists|running: Scene<H, O>, copy: TaskCase|
            {
                &&& #[trigger] begun(cycle, before.scene, start, running)
                &&& #[trigger] same_case(copy, TaskCase { status: TaskStatus::Running, ..case })
                &&& went_on(cycle, copy, World { scene: running, ..before }, after, r)
            },
    }
}

/// What one step did to the owner's case: the host says whether the run is to be cancelled and how
/// long it has taken, and by that and by what is stored the step goes its way.
#[verifier::opaque]
pub open spec fn stepped<
    C: Chooser,
    X: TaskExecutor,
    V: Verifier,
    H: CycleHost,
    O: TaskObserver,
>(
    cycle: AdaptiveCycle,
    before: World<C, X, V, H, O>,
    after: World<C, X, V, H, O>,
    r: Result<Option<TaskStatus>, CycleError>,
) -> bool {
    let case = case_of(cycle, before.scene.rows.cases);
    exists|cancel: bool, first: H, wall_ms: u64, host: H|
        {
            &&& #[trigger] before.scene.host.may_want_cancel(cancel, &first)
            &&& #[trigger] first.may_have_taken(wall_ms, &host)
            &&& stepped_by(
                cycle,
                case,
                surveyed(Some(case), cancel, wall_ms),
                World { scene: Scene { host, ..before.scene }, ..before },
                after,
                r,
            )
        }
}

/// The events among the effects, in order.
spec fn emitted(effects: Seq<CycleEffect>) -> Seq<TaskLifecycleEvent>
    decreases effects.len(),
{
    if effects.len() == 0 {
        Seq::empty()
    } else {
        let so_far = emitted(effects.drop_last());
        match effects.last() {
            CycleEffect::Emit(event) => so_far.push(event),
            _ => so_far,
        }
    }
}

/// One more effect, which may be an event.
proof fn lemma_next_emitted(effects: Seq<CycleEffect>, n: int)
    requires
        0 <= n < effects.len(),
    ensures
        emitted(effects.take(0)) == Seq::<TaskLifecycleEvent>::empty(),
        emitted(effects.take(n + 1)) == match effects[n] {
            CycleEffect::Emit(event) => emitted(effects.take(n)).push(event),
            _ => emitted(effects.take(n)),
        },
{
    assert(effects.take(n + 1).drop_last() =~= effects.take(n));
}

/// Effects that are no events tell nothing.
proof fn lemma_nothing_emitted(effects: Seq<CycleEffect>, from: int, to: int)
    requires
        0 <= from <= to <= effects.len(),
        forall|i: int| from <= i < to ==> !(#[trigger] effects[i] is Emit),
    ensures
        emitted(effects.take(to)) == emitted(effects.take(from)),
    decreases to - from,
{
    if from < to {
        lemma_nothing_emitted(effects, from, to - 1);
        lemma_next_emitted(effects, to - 1);
    }
}

/// One more event was told.
proof fn lemma_told_more<O: TaskObserver>(
    before: O,
    events: Seq<TaskLifecycleEvent>,
    between: O,
    event: TaskLifecycleEvent,
    after: O,
)
    requires
        told(before, events, between),
        between.may_record(event, &after),
    ensures
        told(before, events.push(event), after),
{
    let more = events.push(event);
    assert(more.drop_last() =~= events);
    assert(between.may_record(more.last(), &after));
}

/// One event was told.
proof fn lemma_told_one<O: TaskObserver>(before: O, event: TaskLifecycleEvent, after: O)
    ensures
        told(before, seq![event], after) <==> before.may_record(event, &after),
{
    let none = seq![event].drop_last();
    assert(none.len() == 0);
    assert(told(before, none, before));
    assert(seq![event].last() == event);
    if told(before, seq![event], after) {
        let between = choose|between: O|
            told(before, none, between) && #[trigger] between.may_record(
                seq![event].last(),
                &after,
            );
        assert(between == before);
    }
}

/// What was told can be told apart: the first event, and the rest.
proof fn lemma_told_first<O: TaskObserver>(
    before: O,
    first: TaskLifecycleEvent,
    events: Seq<TaskLifecycleEvent>,
    after: O,
) -> (between: O)
    requires
        told(before, seq![first] + events, after),
    ensures
        before.may_record(first, &between),
        told(between, events, after),
    decreases events.len(),
{
    let all = seq![first] + events;
    if events.len() == 0 {
        assert(all =~= seq![first]);
        lemma_told_one(before, first, after);
        after
    } else {
        assert(all.drop_last() =~= seq![first] + events.drop_last());
        let last = choose|last: O|
            told(before, all.drop_last(), last) && #[trigger] last.may_record(all.last(), &after);
        let between = lemma_told_first(before, first, events.drop_last(), last);
        assert(last.may_record(events.last(), &after));
        between
    }
}

/// The plan sets a status that ends the task and tells of it, perhaps after the executor was told
/// to give up.
spec fn ends_with(
    cycle: AdaptiveCycle,
    effects: Seq<CycleEffect>,
    status: TaskStatus,
    reason: StopReason,
) -> bool {
    effects == finish_effects(cycle, status, reason) || effects == seq![
        CycleEffect::CancelExecutor,
    ] + finish_effects(cycle, status, reason)
}

/// A status that may follow is set.
proof fn lemma_one_status(
    cycle: AdaptiveCycle,
    rows: Rows,
    revision: u64,
    effects: Seq<CycleEffect>,
    at: int,
    next: TaskStatus,
    reason: Option<StopReason>,
    now: i64,
)
    requires
        0 <= at <= 1,
        effects.len() == at + 2,
        at == 1 ==> effects[0] is CancelExecutor,
        effects[at] == (CycleEffect::Transition { next, reason }),
        effects[at + 1] is Emit,
        owns_at(rows.cases, cycle.owner@, cycle.task.0@, revision),
        may_become(case_of(cycle, rows.cases).status, next),
        terminal(next) == (reason is Some),
    ensures
        effects_on_rows(cycle, rows, revision, effects, now) == Some(
            (status_set(cycle, rows, next, reason, now), revision_after(revision)),
        ),
{
    lemma_no_effect(cycle, rows, revision, effects, now);
    lemma_next_effect(cycle, rows, revision, effects, 0, now);
    lemma_next_effect(cycle, rows, revision, effects, 1, now);
    if at == 1 {
        lemma_next_effect(cycle, rows, revision, effects, 2, now);
    }
}

/// An attempt and its evidence are stored, or the evidence is refused at its first piece.
proof fn lemma_storing(
    cycle: AdaptiveCycle,
    first: Rows,
    revision: u64,
    effects: Seq<CycleEffect>,
    from: int,
    record: Attempt,
    pieces: Seq<Evidence>,
    now: i64,
)
    requires
        0 <= from < effects.len(),
        effects[from] == CycleEffect::AppendAttempt(record),
        records_evidence(effects, from + 1, pieces),
        forall|i: int| 0 <= i < pieces.len() ==> (#[trigger] pieces[i]).attempt == record.id,
        effects_on_rows(cycle, first, revision, effects.take(from), now) == Some((first, revision)),
        record.task == cycle.task,
        owns(first.cases, cycle.owner@, cycle.task.0@),
    ensures
        if pieces.len() == 0 || name_is_free(cycle, first, record.id) {
            let stored = attempt_stored(cycle, first, record, pieces);
            &&& stored.cases == first.cases
            &&& effects_on_rows(
                cycle,
                first,
                revision,
                effects.take(from + 1 + pieces.len()),
                now,
            ) == Some((stored, revision))
        } else {
            &&& effects_on_rows(cycle, first, revision, effects, now) is None
            &&& forall|i: int, after: Rows, why: StoreError|
                #[trigger] stops_at(cycle, first, revision, effects, now, i, after, why) ==> i
                    == from + 1 && after == first && (why matches StoreError::AttemptMissing(
                    name,
                ) && name@ == record.id.0@)
        },
{
    let appended = attempt_appended(first, row_of(cycle, first).case.owner, record);
    lemma_next_effect(cycle, first, revision, effects, from, now);
    assert(pieces.take(pieces.len() as int) =~= pieces);
    if pieces.len() == 0 {
    } else if name_is_free(cycle, first, record.id) {
        lemma_recording(
            cycle,
            first,
            revision,
            effects,
            from + 1,
            appended,
            revision,
            record.id,
            pieces,
            pieces.len() as int,
            now,
        );
    } else {
        lemma_recording_refused(
            cycle,
            first,
            revision,
            effects,
            from + 1,
            appended,
            revision,
            record.id,
            pieces,
            now,
        );
    }
}

/// How a task ends by a step that ends it.
spec fn ending_of(
    cycle: AdaptiveCycle,
    step: ChosenStep,
    list: Seq<&Attempt>,
    plan: CyclePlan,
) -> (TaskStatus, StopReason) {
    match step {
        ChosenStep::Complete => if succeeds(list) {
            (TaskStatus::Completed, StopReason::Completed)
        } else {
            (
                TaskStatus::Escalated,
                StopReason::Escalated(
                    choose|reason: String| #[trigger]
                        reason@ == "completion claimed without a succeeding verdict"@ && finishes(
                            plan,
                            cycle,
                            TaskStatus::Escalated,
                            StopReason::Escalated(reason),
                        ),
                ),
            )
        },
        ChosenStep::Escalate(reason) => (TaskStatus::Escalated, StopReason::Escalated(reason)),
        ChosenStep::Impossible(reason) => (TaskStatus::Failed, StopReason::Impossible(reason)),
        ChosenStep::Act(_) => arbitrary(),
    }
}

/// Each of these was made of the one before by a step after which the run went on.
pub open spec fn passed<
    C: Chooser,
    X: TaskExecutor,
    V: Verifier,
    H: CycleHost,
    O: TaskObserver,
>(cycle: AdaptiveCycle, trail: Seq<World<C, X, V, H, O>>) -> bool {
    forall|i: int|
        0 <= i < trail.len() - 1 ==> stepped(cycle, #[trigger] trail[i], trail[i + 1], Ok(None))
}

/// The steps of a run went along this trail, and the last one of them ended it.
pub open spec fn ran<C: Chooser, X: TaskExecutor, V: Verifier, H: CycleHost, O: TaskObserver>(
    cycle: AdaptiveCycle,
    trail: Seq<World<C, X, V, H, O>>,
    after: World<C, X, V, H, O>,
    r: Result<TaskStatus, CycleError>,
) -> bool {
    &&& trail.len() > 0
    &&& passed(cycle, trail)
    &&& stepped(
        cycle,
        trail.last(),
        after,
        match r {
            Ok(status) => Ok(Some(status)),
            Err(e) => Err(e),
        },
    )
}

/// The reason that is stored with the status in which a run leaves a task.
pub open spec fn goes_with(status: TaskStatus, reason: Option<StopReason>) -> bool {
    match status {
        TaskStatus::Completed => reason == Some(StopReason::Completed),
        TaskStatus::Cancelled => reason == Some(StopReason::Cancelled),
        TaskStatus::Escalated => reason matches Some(StopReason::Escalated(_)),
        TaskStatus::Failed => {
            ||| reason matches Some(StopReason::BudgetExceeded(_))
            ||| reason matches Some(StopReason::Impossible(_))
        },
        TaskStatus::AwaitingApproval => reason is None,
        TaskStatus::Pending | TaskStatus::Running | TaskStatus::Paused => false,
    }
}

/// A limit other than time is reached, whatever the time.
pub open spec fn used_up(case: TaskCase) -> bool {
    forall|wall_ms: u64| #[trigger] exceeded(case, attempt_count(case), wall_ms) is Some
}

/// How a task ends whose limits are reached: it is cancelled where the host wants that, else it
/// fails. Neither the chooser nor the verifier is asked, and the executor does nothing.
pub open spec fn stopped_short<
    C: Chooser,
    X: TaskExecutor,
    V: Verifier,
    H: CycleHost,
    O: TaskObserver,
>(
    cycle: AdaptiveCycle,
    before: World<C, X, V, H, O>,
    after: World<C, X, V, H, O>,
    status: TaskStatus,
) -> bool {
    let first = case_of(cycle, before.scene.rows.cases);
    let last = case_of(cycle, after.scene.rows.cases);
    &&& after.chooser == before.chooser
    &&& after.verifier == before.verifier
    &&& exists|cancel: bool, between: H, wall_ms: u64, host: H|
        {
            &&& #[trigger] before.scene.host.may_want_cancel(cancel, &between)
            &&& #[trigger] between.may_have_taken(wall_ms, &host)
            &&& if cancel {
                &&& status == TaskStatus::Cancelled
                &&& last.stop_reason == Some(StopReason::Cancelled)
                &&& before.executor.may_give_up(first, &after.executor)
            } else {
                &&& status == TaskStatus::Failed
                &&& last.stop_reason matches Some(StopReason::BudgetExceeded(kind))
                &&& exceeded(first, attempt_count(first), wall_ms) == Some(kind)
                &&& after.executor == before.executor
            }
        }
}

/// The chooser or the verifier failed in this way.
pub open spec fn port_failed<C: Chooser, V: Verifier>(e: BastionError) -> bool {
    ||| exists|before: C, case: TaskCase, history: CycleHistory<'_>, after: C| #[trigger]
        before.may_choose(case, history, Err(e), &after)
    ||| exists|before: V, case: TaskCase, attempt: AttemptId, evidence: Seq<Evidence>, after: V|
        #[trigger] before.may_judge(case, attempt, evidence, Err(e), &after)
}

/// Recording evidence changes nothing else.
proof fn lemma_evidence_only(
    cycle: AdaptiveCycle,
    rows: Rows,
    task: TaskCaseId,
    pieces: Seq<Evidence>,
)
    ensures
        evidence_recorded(cycle, rows, task, pieces) == (Rows {
            evidence: evidence_recorded(cycle, rows, task, pieces).evidence,
            evidence_order: evidence_recorded(cycle, rows, task, pieces).evidence_order,
            ..rows
        }),
    decreases pieces.len(),
{
    if pieces.len() > 0 {
        lemma_evidence_only(cycle, rows, task, pieces.drop_last());
    }
}

/// What one step leaves behind, as far as a run needs it.
#[verifier::spinoff_prover]
proof fn lemma_stepped<C: Chooser, X: TaskExecutor, V: Verifier, H: CycleHost, O: TaskObserver>(
    cycle: AdaptiveCycle,
    before: World<C, X, V, H, O>,
    after: World<C, X, V, H, O>,
    r: Result<Option<TaskStatus>, CycleError>,
)
    requires
        owns(before.scene.rows.cases, cycle.owner@, cycle.task.0@),
        stepped(cycle, before, after, r),
    ensures
        others_unchanged(cycle, before.scene.rows.cases, after.scene.rows.cases),
        after.scene.rows.handles == before.scene.rows.handles,
        !(r matches Err(CycleError::Missing(_))),
        r matches Err(CycleError::Host(e)) ==> port_failed::<C, V>(e),
        r matches Err(CycleError::Store(why)) ==> why is AttemptMissing,
        never_acts::<C>() ==> after.verifier == before.verifier && (after.executor
            == before.executor || r == Ok::<Option<TaskStatus>, CycleError>(
            Some(TaskStatus::Cancelled),
        )),
        ({
            let first = case_of(cycle, before.scene.rows.cases);
            let last = case_of(cycle, after.scene.rows.cases);
            &&& resting(first.status) ==> {
                &&& r == Ok::<Option<TaskStatus>, CycleError>(Some(first.status))
                &&& after == (World {
                    scene: Scene { host: after.scene.host, ..before.scene },
                    ..before
                })
            }
            &&& !resting(first.status) && used_up(first) ==> (r matches Ok(Some(status))
                && stopped_short(cycle, before, after, status))
            &&& r matches Ok(stop) ==> {
                &&& owns(after.scene.rows.cases, cycle.owner@, cycle.task.0@)
                &&& last.bounds == first.bounds
                &&& stop == (if resting(last.status) {
                    Some(last.status)
                } else {
                    None
                })
                &&& last.attempts@.len() == first.attempts@.len() || (last.attempts@.len()
                    == first.attempts@.len() + 1 && attempt_count(first) < step_ceiling(first))
                &&& stop is None ==> last.attempts@.len() == first.attempts@.len() + 1
                &&& !resting(first.status) && resting(last.status) ==> goes_with(
                    last.status,
                    last.stop_reason,
                )
                &&& stop == Some(TaskStatus::Completed) && !resting(first.status) ==> proven(
                    after.scene.rows.order,
                    cycle.owner@,
                    cycle.task.0@,
                )
            }
        }),
{
    reveal(stepped);
    assert forall|rows: Rows, record: Attempt, pieces: Seq<Evidence>| {
        let stored = #[trigger] attempt_stored(cycle, rows, record, pieces);
        stored.cases == rows.cases && stored.handles == rows.handles
    } by {
        let appended = attempt_appended(rows, row_of(cycle, rows).case.owner, record);
        lemma_evidence_only(
            cycle,
            appended,
            appended.attempts[KeyView::Text(record.id.0@)].attempt.task,
            pieces,
        );
    }
}

impl AdaptiveCycle {
    /// Carries one effect out.
    fn perform<X: TaskExecutor, O: TaskObserver>(
        &self,
        store: &mut MemoryTaskStore,
        executor: &mut X,
        observer: &mut O,
        effect: CycleEffect,
        revision: u64,
        now: i64,
    ) -> (r: Result<u64, StoreError>)
        requires
            keeps_to_task(*self, effect),
        ensures
            match effect_on_rows(*self, rows_of(*old(store)), revision, effect, now) {
                Some((rows, next)) => r == Ok::<u64, StoreError>(next) && rows_of(*final(store))
                    == rows,
                None => *final(store) == *old(store) && (r matches Err(why) && refused_for(
                    *self,
                    rows_of(*old(store)),
                    revision,
                    effect,
                    why,
                )),
            },
            !(effect is CancelExecutor) ==> *final(executor) == *old(executor),
            match effect {
                CycleEffect::Emit(event) => old(observer).may_record(event, final(observer)),
                _ => *final(observer) == *old(observer),
            },
            effect is CancelExecutor && owns(old(store).cases(), self.owner@, self.task.0@)
                ==> old(executor).may_give_up(case_of(*self, old(store).cases()), final(executor)),
    {
        let ghost rows = rows_of(*store);
        match effect {
            CycleEffect::CancelExecutor => {
                match store.load_case(self.owner.as_str(), &self.task) {
                    Some(case) => {
                        executor.cancel(case);
                    },
                    None => {},
                }
                Ok(revision)
            },
            CycleEffect::Transition { next, reason } => {
                let r = store.transition_status(
                    self.owner.as_str(),
                    &self.task,
                    next,
                    reason,
                    revision,
                    now,
                );
                assert(r is Ok ==> rows_of(*store).case_order =~= status_set(
                    *self,
                    rows,
                    next,
                    reason,
                    now,
                ).case_order);
                r
            },
            CycleEffect::Emit(event) => {
                observer.record(&event);
                Ok(revision)
            },
            CycleEffect::AppendAttempt(attempt) => match store.append_attempt(attempt) {
                Ok(_) => Ok(revision),
                Err(e) => Err(e),
            },
            CycleEffect::RecordEvidence(evidence) => match store.record_evidence(
                self.owner.clone(),
                evidence,
            ) {
                Ok(_) => Ok(revision),
                Err(e) => Err(e),
            },
            CycleEffect::UpdateCase(case) => {
                let r = store.update_case(case, revision, now);
                assert(r is Ok ==> rows_of(*store).case_order =~= case_written(
                    *self,
                    rows,
                    case,
                    now,
                ).case_order);
                r
            },
        }
    }

    /// Carries effects out in order, up to the first that the store refuses.
    fn perform_all<X: TaskExecutor, O: TaskObserver>(
        &self,
        store: &mut MemoryTaskStore,
        executor: &mut X,
        observer: &mut O,
        effects: Vec<CycleEffect>,
        revision: u64,
        now: i64,
    ) -> (r: Result<u64, StoreError>)
        requires
            forall|i: int| 0 <= i < effects@.len() ==> keeps_to_task(*self, #[trigger] effects@[i]),
        ensures
            match r {
                Ok(next) => effects_on_rows(*self, rows_of(*old(store)), revision, effects@, now)
                    == Some((rows_of(*final(store)), next)) && told(
                    *old(observer),
                    emitted(effects@),
                    *final(observer),
                ),
                Err(why) => exists|i: int|
                    #[trigger] stops_at(
                        *self,
                        rows_of(*old(store)),
                        revision,
                        effects@,
                        now,
                        i,
                        rows_of(*final(store)),
                        why,
                    ) && told(*old(observer), emitted(effects@.take(i)), *final(observer)),
            },
            effects@.len() > 0 && effects@[0] is CancelExecutor && owns(
                old(store).cases(),
                self.owner@,
                self.task.0@,
            ) && (forall|i: int|
                1 <= i < effects@.len() ==> !(#[trigger] effects@[i] is CancelExecutor))
                ==> old(executor).may_give_up(case_of(*self, old(store).cases()), final(executor)),
            (forall|i: int| 0 <= i < effects@.len() ==> !(#[trigger] effects@[i] is CancelExecutor))
                ==> *final(executor) == *old(executor),
    {
        let ghost rows = rows_of(*store);
        let mut rest: Vec<CycleEffect> = effects;
        let mut current: u64 = revision;
        let ghost mut done: int = 0;
        proof {
            lemma_no_effect(*self, rows, revision, effects@, now);
            assert(told(*observer, emitted(effects@.take(0)), *observer));
        }
        while rest.len() > 0
            invariant
                0 <= done <= effects@.len(),
                rest@ == effects@.skip(done),
                rows == rows_of(*old(store)),
                effects_on_rows(*self, rows, revision, effects@.take(done), now) == Some(
                    (rows_of(*store), current),
                ),
                done == 0 ==> *store == *old(store) && *executor == *old(executor),
                (forall|i: int|
                    0 <= i < effects@.len() ==> !(#[trigger] effects@[i] is CancelExecutor))
                    ==> *executor == *old(executor),
                forall|i: int|
                    0 <= i < effects@.len() ==> keeps_to_task(*self, #[trigger] effects@[i]),
                told(*old(observer), emitted(effects@.take(done)), *observer),
                done > 0 && effects@[0] is CancelExecutor && owns(
                    rows.cases,
                    self.owner@,
                    self.task.0@,
                ) && (forall|i: int|
                    1 <= i < effects@.len() ==> !(#[trigger] effects@[i] is CancelExecutor))
                    ==> old(executor).may_give_up(case_of(*self, rows.cases), executor),
            decreases rest@.len(),
        {
            proof {
                assert(rest@[0] == effects@[done]);
                lemma_next_effect(*self, rows, revision, effects@, done, now);
                assert(effects@.skip(done).remove(0) =~= effects@.skip(done + 1));
                lemma_next_emitted(effects@, done);
            }
            let ghost heard = *observer;
            let effect: CycleEffect = rest.remove(0);
            match self.perform(store, executor, observer, effect, current, now) {
                Ok(next) => {
                    current = next;
                },
                Err(e) => {
                    assert(stops_at(
                        *self,
                        rows,
                        revision,
                        effects@,
                        now,
                        done,
                        rows_of(*store),
                        e,
                    ));
                    return Err(e);
                },
            }
            proof {
                match effects@[done] {
                    CycleEffect::Emit(event) => lemma_told_more(
                        *old(observer),
                        emitted(effects@.take(done)),
                        heard,
                        event,
                        *observer,
                    ),
                    _ => {},
                }
                done = done + 1;
            }
        }
        assert(effects@.take(done) =~= effects@);
        Ok(current)
    }

    /// Carries out what ends the task, and says how it ended.
    fn conclude<X: TaskExecutor, H: CycleHost, O: TaskObserver>(
        &self,
        store: &mut MemoryTaskStore,
        executor: &mut X,
        host: &mut H,
        observer: &mut O,
        plan: CyclePlan,
        revision: u64,
        Ghost(status): Ghost<TaskStatus>,
        Ghost(reason): Ghost<StopReason>,
    ) -> (r: Result<Option<TaskStatus>, CycleError>)
        requires
            ends_with(*self, plan.effects@, status, reason),
            plan.next == CycleNext::Return(status),
            terminal(status),
            owns_at(old(store).cases(), self.owner@, self.task.0@, revision),
            may_become(case_of(*self, old(store).cases()).status, status),
        ensures
            ended(
                *self,
                Scene {
                    rows: rows_of(*old(store)),
                    host: *old(host),
                    observer: *old(observer),
                },
                status,
                reason,
                Scene {
                    rows: rows_of(*final(store)),
                    host: *final(host),
                    observer: *final(observer),
                },
                r,
            ),
            if plan.effects@[0] is CancelExecutor {
                old(executor).may_give_up(case_of(*self, old(store).cases()), final(executor))
            } else {
                *final(executor) == *old(executor)
            },
    {
        let now: i64 = host.now_nanos();
        assert(old(host).may_tell_time(now, host));
        let ghost rows = rows_of(*store);
        let ghost at: int = if plan.effects@[0] is CancelExecutor {
            1
        } else {
            0
        };
        let ghost effects = plan.effects@;
        proof {
            lemma_one_status(*self, rows, revision, effects, at, status, Some(reason), now);
            lemma_next_emitted(effects, 0);
            lemma_next_emitted(effects, at);
            lemma_next_emitted(effects, at + 1);
            assert(effects.take(at + 2) =~= effects);
            assert(effects[at + 1] is Emit);
        }
        match self.perform_all(store, executor, observer, plan.effects, revision, now) {
            Ok(_) => {
                proof {
                    let event = effects[at + 1]->Emit_0;
                    assert(emitted(effects) =~= seq![event]);
                    lemma_told_one(*old(observer), event, *observer);
                    let before = Scene { rows, host: *old(host), observer: *old(observer) };
                    let after = Scene {
                        rows: rows_of(*store),
                        host: *host,
                        observer: *observer,
                    };
                    assert(before.host.may_tell_time(now, &after.host));
                    assert(ended(*self, before, status, reason, after, Ok(Some(status))));
                }
                match plan.next {
                    CycleNext::Return(ended) => Ok(Some(ended)),
                    _ => Ok(None),
                }
            },
            Err(e) => {
                proof {
                    let i = choose|i: int| #[trigger]
                        stops_at(*self, rows, revision, effects, now, i, rows_of(*store), e);
                    lemma_stops_nowhere(
                        *self,
                        rows,
                        revision,
                        effects,
                        now,
                        i,
                        rows_of(*store),
                        e,
                    );
                }
                Err(CycleError::Store(e))
            },
        }
    }

    /// Stores a judged attempt, its evidence and the case that counts it.
    fn store_judged<X: TaskExecutor, H: CycleHost, O: TaskObserver>(
        &self,
        store: &mut MemoryTaskStore,
        executor: &mut X,
        host: &mut H,
        observer: &mut O,
        plan: CyclePlan,
        revision: u64,
        Ghost(pending): Ghost<PendingAttempt>,
        Ghost(verdict): Ghost<Verdict>,
        Ghost(started): Ghost<i64>,
        Ghost(closed): Ghost<i64>,
    ) -> (r: Result<Option<TaskStatus>, CycleError>)
        requires
            adapted(*self, pending, verdict, started, closed, plan),
            owns_at(old(store).cases(), self.owner@, self.task.0@, revision),
            pending.case.id.0@ == self.task.0@,
            pending.case.owner@ == self.owner@,
            forall|i: int|
                0 <= i < pending.evidence@.len() ==> (#[trigger] pending.evidence@[i]).attempt
                    == pending.id,
        ensures
            exists|record: Attempt|
                {
                    &&& #[trigger] records_attempt(
                        record,
                        pending.id,
                        self.task,
                        pending.action,
                        pending.belief_refs@,
                        pending.usage,
                        started,
                        Some(closed),
                        Some(verdict),
                    )
                    &&& goes_on(
                        *self,
                        Scene {
                            rows: rows_of(*old(store)),
                            host: *old(host),
                            observer: *old(observer),
                        },
                        record,
                        verdict,
                        pending.evidence@,
                        pending.case,
                        Scene {
                            rows: rows_of(*final(store)),
                            host: *final(host),
                            observer: *final(observer),
                        },
                        r,
                    )
                },
            *final(executor) == *old(executor),
    {
        let now: i64 = host.now_nanos();
        assert(old(host).may_tell_time(now, host));
        let ghost rows = rows_of(*store);
        let ghost effects = plan.effects@;
        let ghost pieces = pending.evidence@;
        let ghost n = pieces.len() as int;
        let ghost record = effects[0]->AppendAttempt_0;
        proof {
            assert forall|i: int| 0 <= i < effects.len() implies keeps_to_task(
                *self,
                #[trigger] effects[i],
            ) by {
                if 1 <= i < n + 1 {
                    assert(effects[1 + (i - 1)] == CycleEffect::RecordEvidence(pieces[i - 1]));
                }
            }
            lemma_no_effect(*self, rows, revision, effects, now);
            lemma_storing(*self, rows, revision, effects, 0, record, pieces, now);
            if pieces.len() == 0 || name_is_free(*self, rows, record.id) {
                lemma_next_effect(*self, rows, revision, effects, n + 1, now);
                lemma_next_effect(*self, rows, revision, effects, n + 2, now);
                lemma_next_effect(*self, rows, revision, effects, n + 3, now);
            }
            lemma_next_emitted(effects, 0);
            assert forall|i: int| 1 <= i < n + 1 implies !(#[trigger] effects[i] is Emit) by {
                assert(effects[1 + (i - 1)] == CycleEffect::RecordEvidence(pieces[i - 1]));
            }
            assert forall|i: int| 0 <= i < effects.len() implies !(#[trigger] effects[i]
                is CancelExecutor) by {
                if 1 <= i < n + 1 {
                    assert(effects[1 + (i - 1)] == CycleEffect::RecordEvidence(pieces[i - 1]));
                }
            }
            lemma_nothing_emitted(effects, 0, n + 1);
            lemma_next_emitted(effects, n + 1);
            lemma_next_emitted(effects, n + 2);
            lemma_next_emitted(effects, n + 3);
            assert(emitted(effects) =~= judgement(*self, record.id, verdict.status));
        }
        match self.perform_all(store, executor, observer, plan.effects, revision, now) {
            Ok(_) => {
                proof {
                    let before = Scene { rows, host: *old(host), observer: *old(observer) };
                    let after = Scene {
                        rows: rows_of(*store),
                        host: *host,
                        observer: *observer,
                    };
                    assert(before.host.may_tell_time(now, &after.host));
                    assert(goes_on(
                        *self,
                        before,
                        record,
                        verdict,
                        pieces,
                        pending.case,
                        after,
                        Ok(None),
                    ));
                }
                Ok(None)
            },
            Err(e) => {
                proof {
                    let i = choose|i: int|
                        #[trigger] stops_at(
                            *self,
                            rows,
                            revision,
                            effects,
                            now,
                            i,
                            rows_of(*store),
                            e,
                        ) && told(*old(observer), emitted(effects.take(i)), *observer);
                    if effects_on_rows(*self, rows, revision, effects, now) is Some {
                        lemma_stops_nowhere(
                            *self,
                            rows,
                            revision,
                            effects,
                            now,
                            i,
                            rows_of(*store),
                            e,
                        );
                    }
                    let before = Scene { rows, host: *old(host), observer: *old(observer) };
                    let after = Scene {
                        rows: rows_of(*store),
                        host: *host,
                        observer: *observer,
                    };
                    assert(before.host.may_tell_time(now, &after.host));
                    assert(emitted(effects.take(1)) =~= Seq::<TaskLifecycleEvent>::empty());
                    assert(goes_on(
                        *self,
                        before,
                        record,
                        verdict,
                        pieces,
                        pending.case,
                        after,
                        Err(CycleError::Store(e)),
                    ));
                }
                Err(CycleError::Store(e))
            },
        }
    }

    /// Stores an attempt that waits for an approval, its evidence and the case that counts it, and
    /// parks the task.
    fn store_parked<X: TaskExecutor, H: CycleHost, O: TaskObserver>(
        &self,
        store: &mut MemoryTaskStore,
        executor: &mut X,
        host: &mut H,
        observer: &mut O,
        plan: CyclePlan,
        revision: u64,
        Ghost(case): Ghost<TaskCase>,
        Ghost(attempt): Ghost<AttemptId>,
        Ghost(action): Ghost<CandidateAction>,
        Ghost(outcome): Ghost<ActionOutcome>,
        Ghost(cost): Ghost<Option<Usd>>,
        Ghost(at): Ghost<i64>,
    ) -> (r: Result<Option<TaskStatus>, CycleError>)
        requires
            outcome.pending_approval is Some,
            observes(*self, case, attempt, action, outcome, cost, at, Observed::Park(plan)),
            owns_at(old(store).cases(), self.owner@, self.task.0@, revision),
            case.status == TaskStatus::Running,
            case.id.0@ == self.task.0@,
            case.owner@ == self.owner@,
        ensures
            exists|record: Attempt, counted: TaskCase, seen: O|
                {
                    &&& #[trigger] records_attempt(
                        record,
                        attempt,
                        self.task,
                        action.id,
                        action.belief_refs@,
                        outcome.usage,
                        at,
                        None,
                        None,
                    )
                    &&& #[trigger] with_attempt(
                        case,
                        counted,
                        attempt,
                        outcome.usage,
                        cost,
                        outcome.pending_approval,
                    )
                    &&& #[trigger] old(observer).may_record(
                        TaskLifecycleEvent::ActionObserved {
                            owner: self.owner,
                            task: self.task,
                            attempt,
                            action: action.id,
                        },
                        &seen,
                    )
                    &&& waits(
                        *self,
                        Scene { rows: rows_of(*old(store)), host: *old(host), observer: seen },
                        record,
                        outcome.pending_approval->0,
                        all_stamped(outcome.evidence@, attempt, action.id),
                        counted,
                        Scene {
                            rows: rows_of(*final(store)),
                            host: *final(host),
                            observer: *final(observer),
                        },
                        r,
                    )
                },
            *final(executor) == *old(executor),
    {
        let now: i64 = host.now_nanos();
        assert(old(host).may_tell_time(now, host));
        let ghost rows = rows_of(*store);
        let ghost effects = plan.effects@;
        let ghost pieces = all_stamped(outcome.evidence@, attempt, action.id);
        let ghost n = pieces.len() as int;
        let ghost record = effects[1]->AppendAttempt_0;
        let ghost counted = effects[n + 2]->UpdateCase_0;
        let ghost event = effects[0]->Emit_0;
        proof {
            assert forall|i: int| 0 <= i < effects.len() implies keeps_to_task(
                *self,
                #[trigger] effects[i],
            ) by {
                if 2 <= i < n + 2 {
                    assert(effects[2 + (i - 2)] == CycleEffect::RecordEvidence(pieces[i - 2]));
                }
            }
            lemma_no_effect(*self, rows, revision, effects, now);
            lemma_next_effect(*self, rows, revision, effects, 0, now);
            lemma_storing(*self, rows, revision, effects, 1, record, pieces, now);
            if pieces.len() == 0 || name_is_free(*self, rows, record.id) {
                lemma_next_effect(*self, rows, revision, effects, n + 2, now);
                lemma_next_effect(*self, rows, revision, effects, n + 3, now);
                lemma_next_effect(*self, rows, revision, effects, n + 4, now);
                lemma_next_effect(*self, rows, revision, effects, n + 5, now);
            }
            lemma_next_emitted(effects, 0);
            lemma_next_emitted(effects, 1);
            assert forall|i: int| 1 <= i < n + 2 implies !(#[trigger] effects[i] is Emit) by {
                if i > 1 {
                    assert(effects[2 + (i - 2)] == CycleEffect::RecordEvidence(pieces[i - 2]));
                }
            }
            assert forall|i: int| 0 <= i < effects.len() implies !(#[trigger] effects[i]
                is CancelExecutor) by {
                if 2 <= i < n + 2 {
                    assert(effects[2 + (i - 2)] == CycleEffect::RecordEvidence(pieces[i - 2]));
                }
            }
            lemma_nothing_emitted(effects, 1, n + 2);
            lemma_next_emitted(effects, n + 2);
            lemma_next_emitted(effects, n + 3);
            lemma_next_emitted(effects, n + 4);
            lemma_next_emitted(effects, n + 5);
            assert(emitted(effects.take(2)) =~= seq![event]);
            assert(emitted(effects) =~= seq![event] + parking(*self, outcome.pending_approval->0));
        }
        match self.perform_all(store, executor, observer, plan.effects, revision, now) {
            Ok(_) => {
                proof {
                    let seen = lemma_told_first(
                        *old(observer),
                        event,
                        parking(*self, outcome.pending_approval->0),
                        *observer,
                    );
                    assert(old(observer).may_record(event, &seen));
                    let before = Scene { rows, host: *old(host), observer: seen };
                    let after = Scene {
                        rows: rows_of(*store),
                        host: *host,
                        observer: *observer,
                    };
                    assert(before.host.may_tell_time(now, &after.host));
                    assert(waits(
                        *self,
                        before,
                        record,
                        outcome.pending_approval->0,
                        pieces,
                        counted,
                        after,
                        Ok(Some(TaskStatus::AwaitingApproval)),
                    ));
                }
                Ok(Some(TaskStatus::AwaitingApproval))
            },
            Err(e) => {
                proof {
                    let i = choose|i: int|
                        #[trigger] stops_at(
                            *self,
                            rows,
                            revision,
                            effects,
                            now,
                            i,
                            rows_of(*store),
                            e,
                        ) && told(*old(observer), emitted(effects.take(i)), *observer);
                    if effects_on_rows(*self, rows, revision, effects, now) is Some {
                        lemma_stops_nowhere(
                            *self,
                            rows,
                            revision,
                            effects,
                            now,
                            i,
                            rows_of(*store),
                            e,
                        );
                    }
                    lemma_told_one(*old(observer), event, *observer);
                    let seen = *observer;
                    assert(old(observer).may_record(event, &seen));
                    let before = Scene { rows, host: *old(host), observer: seen };
                    let after = Scene {
                        rows: rows_of(*store),
                        host: *host,
                        observer: *observer,
                    };
                    assert(before.host.may_tell_time(now, &after.host));
                    assert(waits(
                        *self,
                        before,
                        record,
                        outcome.pending_approval->0,
                        pieces,
                        counted,
                        after,
                        Err(CycleError::Store(e)),
                    ));
                }
                Err(CycleError::Store(e))
            },
        }
    }

    /// Asks the executor for an action and stores what it leads to.
    fn act<X: TaskExecutor, V: Verifier, H: CycleHost, O: TaskObserver>(
        &self,
        store: &mut MemoryTaskStore,
        executor: &mut X,
        verifier: &mut V,
        host: &mut H,
        observer: &mut O,
        case: TaskCase,
        action: CandidateAction,
        revision: u64,
    ) -> (r: Result<Option<TaskStatus>, CycleError>)
        requires
            owns_at(old(store).cases(), self.owner@, self.task.0@, revision),
            case_of(*self, old(store).cases()).status == TaskStatus::Running,
            case.status == TaskStatus::Running,
            case.id.0@ == self.task.0@,
            case.owner@ == self.owner@,
        ensures
            acted(
                *self,
                case,
                action,
                Scene {
                    rows: rows_of(*old(store)),
                    host: *old(host),
                    observer: *old(observer),
                },
                *old(executor),
                *old(verifier),
                Scene {
                    rows: rows_of(*final(store)),
                    host: *final(host),
                    observer: *final(observer),
                },
                *final(executor),
                *final(verifier),
                r,
            ),
    {
        let ghost scene = Scene { rows: rows_of(*store), host: *host, observer: *observer };
        let chosen_at: i64 = host.now_nanos();
        let ghost timing = *host;
        assert(scene.host.may_tell_time(chosen_at, &timing));
        let number: u64 = host.next_number();
        let ghost numbering = *host;
        assert(timing.may_number(number, &numbering));
        let attempt: AttemptId = AttemptId(gen_id("attempt", chosen_at, number));
        let announcing: CyclePlan = self.announce(&attempt, &action.id);
        let ghost events = announcing.effects@;
        let ghost rows = rows_of(*store);
        proof {
            lemma_no_effect(*self, rows, revision, events, chosen_at);
            lemma_next_effect(*self, rows, revision, events, 0, chosen_at);
            lemma_next_effect(*self, rows, revision, events, 1, chosen_at);
            lemma_next_emitted(events, 0);
            lemma_next_emitted(events, 1);
            assert(emitted(events) =~= announcement(*self, attempt, action.id));
        }
        match self.perform_all(store, executor, observer, announcing.effects, revision, chosen_at) {
            Ok(_) => {},
            Err(e) => {
                proof {
                    let i = choose|i: int| #[trigger]
                        stops_at(*self, rows, revision, events, chosen_at, i, rows_of(*store), e);
                    lemma_stops_nowhere(
                        *self,
                        rows,
                        revision,
                        events,
                        chosen_at,
                        i,
                        rows_of(*store),
                        e,
                    );
                }
                return Err(CycleError::Store(e));
            },
        }
        let ghost announced = *observer;
        assert(told(scene.observer, announcement(*self, attempt, action.id), announced));
        let answer: Result<ActionOutcome, String> = executor.execute(&action, &case);
        assert(old(executor).may_execute(action, case, answer, executor));
        let outcome: ActionOutcome = match answer {
            Ok(outcome) => outcome,
            Err(error) => {
                let plan: CyclePlan = self.executor_failed(error.as_str());
                let ghost reason = choose|reason: String| #[trigger]
                    reason@ == "executor error: "@ + error@ && finishes(
                        plan,
                        *self,
                        TaskStatus::Failed,
                        StopReason::Impossible(reason),
                    );
                return self.conclude(
                    store,
                    executor,
                    host,
                    observer,
                    plan,
                    revision,
                    Ghost(TaskStatus::Failed),
                    Ghost(StopReason::Impossible(reason)),
                );
            },
        };
        let cost: Option<Usd> = host.total_cost(case.usage.cost_usd, outcome.usage.cost_usd);
        let ghost adding = *host;
        assert(numbering.may_add_up(
            case.usage.cost_usd,
            outcome.usage.cost_usd,
            cost,
            &adding,
        ));
        let at: i64 = host.now_nanos();
        let ghost observing = *host;
        assert(adding.may_tell_time(at, &observing));
        let ghost ordered = action;
        let ghost brought = outcome;
        let ghost executed = Scene { host: adding, observer: announced, ..scene };
        assert(executed.host.may_tell_time(at, &observing));
        let seen: Observed = self.observe(case, &attempt, action, outcome, cost, at);
        match seen {
            Observed::Park(plan) => {
                let r = self.store_parked(
                    store,
                    executor,
                    host,
                    observer,
                    plan,
                    revision,
                    Ghost(case),
                    Ghost(attempt),
                    Ghost(ordered),
                    Ghost(brought),
                    Ghost(cost),
                    Ghost(at),
                );
                let ghost after = Scene {
                    rows: rows_of(*store),
                    host: *host,
                    observer: *observer,
                };
                proof {
                    let event = TaskLifecycleEvent::ActionObserved {
                        owner: self.owner,
                        task: self.task,
                        attempt,
                        action: ordered.id,
                    };
                    let (record, counted, seen) = choose|
                        record: Attempt,
                        counted: TaskCase,
                        seen: O,
                    |
                        {
                            &&& #[trigger] records_attempt(
                                record,
                                attempt,
                                self.task,
                                ordered.id,
                                ordered.belief_refs@,
                                brought.usage,
                                at,
                                None,
                                None,
                            )
                            &&& #[trigger] with_attempt(
                                case,
                                counted,
                                attempt,
                                brought.usage,
                                cost,
                                brought.pending_approval,
                            )
                            &&& #[trigger] announced.may_record(event, &seen)
                            &&& waits(
                                *self,
                                Scene { rows, host: observing, observer: seen },
                                record,
                                brought.pending_approval->0,
                                all_stamped(brought.evidence@, attempt, ordered.id),
                                counted,
                                after,
                                r,
                            )
                        };
                    assert(executed.observer.may_record(event, &seen));
                    assert(Scene { host: observing, observer: seen, ..executed } == Scene {
                        rows,
                        host: observing,
                        observer: seen,
                    });
                }
                assert(observed(
                    *self,
                    case,
                    attempt,
                    ordered,
                    brought,
                    cost,
                    executed,
                    *verifier,
                    after,
                    *verifier,
                    r,
                ));
                r
            },
            Observed::Verify { told, pending } => {
                match told {
                    CycleEffect::Emit(event) => {
                        observer.record(&event);
                        assert(executed.observer.may_record(event, observer));
                    },
                    _ => {},
                }
                let ghost looked = Scene { host: observing, observer: *observer, ..executed };
                let ghost counted = pending.case;
                let ghost pieces = pending.evidence@;
                let answer: Result<Verdict, BastionError> = verifier.verify(
                    &pending.case,
                    &pending.id,
                    &pending.evidence,
                );
                assert(old(verifier).may_judge(counted, attempt, pieces, answer, verifier));
                let r = match answer {
                    Err(e) => Err(CycleError::Host(e)),
                    Ok(verdict) => {
                        let started: i64 = host.now_nanos();
                        let ghost first = *host;
                        assert(looked.host.may_tell_time(started, &first));
                        let closed: i64 = host.now_nanos();
                        assert(first.may_tell_time(closed, host));
                        let ghost waiting = pending;
                        let ghost heard = verdict;
                        let plan: CyclePlan = self.adapt(pending, verdict, started, closed);
                        self.store_judged(
                            store,
                            executor,
                            host,
                            observer,
                            plan,
                            revision,
                            Ghost(waiting),
                            Ghost(heard),
                            Ghost(started),
                            Ghost(closed),
                        )
                    },
                };
                let ghost after = Scene {
                    rows: rows_of(*store),
                    host: *host,
                    observer: *observer,
                };
                assert(judged(
                    *self,
                    attempt,
                    ordered,
                    brought.usage,
                    pieces,
                    counted,
                    looked,
                    *old(verifier),
                    after,
                    *verifier,
                    r,
                ));
                assert(observed(
                    *self,
                    case,
                    attempt,
                    ordered,
                    brought,
                    cost,
                    executed,
                    *old(verifier),
                    after,
                    *verifier,
                    r,
                ));
                r
            },
        }
    }

    /// Asks the chooser about a running task, and does what it chooses.
    fn go_on<C: Chooser, X: TaskExecutor, V: Verifier, H: CycleHost, O: TaskObserver>(
        &self,
        store: &mut MemoryTaskStore,
        chooser: &mut C,
        executor: &mut X,
        verifier: &mut V,
        host: &mut H,
        observer: &mut O,
        case: TaskCase,
        revision: u64,
    ) -> (r: Result<Option<TaskStatus>, CycleError>)
        requires
            owns_at(old(store).cases(), self.owner@, self.task.0@, revision),
            case_of(*self, old(store).cases()).status == TaskStatus::Running,
            case.status == TaskStatus::Running,
            case.id.0@ == self.task.0@,
            case.owner@ == self.owner@,
        ensures
            went_on(
                *self,
                case,
                World {
                    scene: Scene {
                        rows: rows_of(*old(store)),
                        host: *old(host),
                        observer: *old(observer),
                    },
                    chooser: *old(chooser),
                    executor: *old(executor),
                    verifier: *old(verifier),
                },
                World {
                    scene: Scene {
                        rows: rows_of(*final(store)),
                        host: *final(host),
                        observer: *final(observer),
                    },
                    chooser: *final(chooser),
                    executor: *final(executor),
                    verifier: *final(verifier),
                },
                r,
            ),
    {
        let attempt_count: u32 = count_attempts(&case);
        let ghost rows = rows_of(*store);
        let ghost world = World {
            scene: Scene { rows, host: *host, observer: *observer },
            chooser: *chooser,
            executor: *executor,
            verifier: *verifier,
        };
        let ghost mut listed: Seq<&Attempt> = Seq::empty();
        let (answer, last): (Result<ChosenStep, BastionError>, Option<VerificationStatus>) = {
            let list: Vec<&Attempt> = store.list_attempts_for_case(self.owner.as_str(), &self.task);
            proof {
                listed = list@;
            }
            let last: Option<&Verdict> = last_verdict(&list);
            let history = CycleHistory { last_verdict: last, attempt_count, usage: &case.usage };
            let status: Option<VerificationStatus> = match last {
                Some(verdict) => Some(verdict.status),
                None => None,
            };
            assert(history == history_of(list@, &case));
            let answer: Result<ChosenStep, BastionError> = chooser.next_step(&case, &history);
            (answer, status)
        };
        assert(lists_attempts(listed, rows.order, self.owner@, self.task.0@));
        let ghost asked = World { chooser: *chooser, ..world };
        assert(world.chooser.may_choose(
            case,
            history_of(listed, &case),
            answer,
            &asked.chooser,
        ));
        let step: ChosenStep = match answer {
            Ok(step) => step,
            Err(e) => {
                assert(world.chooser.may_choose(
                    case,
                    history_of(listed, &case),
                    Err(e),
                    &asked.chooser,
                ));
                assert(lists_attempts(
                    listed,
                    world.scene.rows.order,
                    self.owner@,
                    self.task.0@,
                ));
                assert(went_on(*self, case, world, asked, Err(CycleError::Host(e))));
                return Err(CycleError::Host(e));
            },
        };
        let ghost wanted = step;
        let r = match self.decide(step, last) {
            Decision::Finish(plan) => {
                let ghost ending = ending_of(*self, wanted, listed, plan);
                self.conclude(
                    store,
                    executor,
                    host,
                    observer,
                    plan,
                    revision,
                    Ghost(ending.0),
                    Ghost(ending.1),
                )
            },
            Decision::Act(action) => self.act(
                store,
                executor,
                verifier,
                host,
                observer,
                case,
                action,
                revision,
            ),
        };
        proof {
            let after = World {
                scene: Scene { rows: rows_of(*store), host: *host, observer: *observer },
                chooser: *chooser,
                executor: *executor,
                verifier: *verifier,
            };
            assert(followed(
                *self,
                case,
                listed,
                wanted,
                world.scene,
                world.executor,
                world.verifier,
                after.scene,
                after.executor,
                after.verifier,
                r,
            ));
            assert(world.chooser.may_choose(
                case,
                history_of(listed, &case),
                Ok(wanted),
                &after.chooser,
            ));
            assert(went_on(*self, case, world, after, r));
        }
        r
    }

    /// Takes one step: looks at the stored case, and chooses, acts, observes, verifies and
    /// adapts where it may go on.
    fn step<C: Chooser, X: TaskExecutor, V: Verifier, H: CycleHost, O: TaskObserver>(
        &self,
        store: &mut MemoryTaskStore,
        chooser: &mut C,
        executor: &mut X,
        verifier: &mut V,
        host: &mut H,
        observer: &mut O,
    ) -> (r: Result<Option<TaskStatus>, CycleError>)
        ensures
            if owns(old(store).cases(), self.owner@, self.task.0@) {
                stepped(
                    *self,
                    World {
                        scene: Scene {
                            rows: rows_of(*old(store)),
                            host: *old(host),
                            observer: *old(observer),
                        },
                        chooser: *old(chooser),
                        executor: *old(executor),
                        verifier: *old(verifier),
                    },
                    World {
                        scene: Scene {
                            rows: rows_of(*final(store)),
                            host: *final(host),
                            observer: *final(observer),
                        },
                        chooser: *final(chooser),
                        executor: *final(executor),
                        verifier: *final(verifier),
                    },
                    r,
                )
            } else {
                &&& *final(store) == *old(store)
                &&& *final(chooser) == *old(chooser)
                &&& *final(executor) == *old(executor)
                &&& *final(verifier) == *old(verifier)
                &&& *final(observer) == *old(observer)
                &&& r matches Err(CycleError::Missing(text))
                &&& text@ == "adaptive cycle: case "@ + self.task.0@ + " not found for owner"@
            },
            owns(old(store).cases(), self.owner@, self.task.0@) && resting(
                case_of(*self, old(store).cases()).status,
            ) ==> *final(store) == *old(store),
    {
        reveal(stepped);
        let ghost rows = rows_of(*store);
        let ghost world = World {
            scene: Scene { rows, host: *host, observer: *observer },
            chooser: *chooser,
            executor: *executor,
            verifier: *verifier,
        };
        let cancel: bool = host.cancel_requested();
        let ghost first = *host;
        assert(world.scene.host.may_want_cancel(cancel, &first));
        let wall_ms: u64 = host.elapsed_ms();
        assert(first.may_have_taken(wall_ms, host));
        let ghost polled = World { scene: Scene { host: *host, ..world.scene }, ..world };
        let (looked, mut case): (Survey, TaskCase) = match store.load_case(
            self.owner.as_str(),
            &self.task,
        ) {
            None => return Err(CycleError::Missing(self.missing_message())),
            Some(case) => (survey(Some(case), cancel, wall_ms), case.clone()),
        };
        let revision: u64 = case.revision;
        let plan: CyclePlan = match self.begin(looked) {
            Some(plan) => plan,
            None => return Err(CycleError::Missing(self.missing_message())),
        };
        match looked {
            Survey::Stop(status) => return Ok(Some(status)),
            Survey::Cancel => {
                return self.conclude(
                    store,
                    executor,
                    host,
                    observer,
                    plan,
                    revision,
                    Ghost(TaskStatus::Cancelled),
                    Ghost(StopReason::Cancelled),
                );
            },
            Survey::OverBudget(kind) => {
                return self.conclude(
                    store,
                    executor,
                    host,
                    observer,
                    plan,
                    revision,
                    Ghost(TaskStatus::Failed),
                    Ghost(StopReason::BudgetExceeded(kind)),
                );
            },
            _ => {},
        }
        let now: i64 = host.now_nanos();
        assert(polled.scene.host.may_tell_time(now, host));
        let ghost effects = plan.effects@;
        let ghost start = looked->start;
        proof {
            lemma_no_effect(*self, rows, revision, effects, now);
            if start {
                lemma_one_status(
                    *self,
                    rows,
                    revision,
                    effects,
                    0,
                    TaskStatus::Running,
                    None,
                    now,
                );
                lemma_next_emitted(effects, 0);
                lemma_next_emitted(effects, 1);
                assert(effects.take(2) =~= effects);
                assert(emitted(effects) =~= seq![status_event(*self, TaskStatus::Running)]);
            }
        }
        let revision: u64 = match self.perform_all(
            store,
            executor,
            observer,
            plan.effects,
            revision,
            now,
        ) {
            Ok(next) => next,
            Err(e) => {
                proof {
                    let i = choose|i: int| #[trigger]
                        stops_at(*self, rows, case.revision, effects, now, i, rows_of(*store), e);
                    lemma_stops_nowhere(
                        *self,
                        rows,
                        case.revision,
                        effects,
                        now,
                        i,
                        rows_of(*store),
                        e,
                    );
                }
                return Err(CycleError::Store(e));
            },
        };
        case.status = TaskStatus::Running;
        let ghost running = Scene { rows: rows_of(*store), host: *host, observer: *observer };
        proof {
            if start {
                lemma_told_one(
                    *old(observer),
                    status_event(*self, TaskStatus::Running),
                    *observer,
                );
            }
            assert(polled.scene.host.may_tell_time(now, &running.host));
            assert(begun(*self, polled.scene, start, running));
        }
        let r = self.go_on(store, chooser, executor, verifier, host, observer, case, revision);
        proof {
            let after = World {
                scene: Scene { rows: rows_of(*store), host: *host, observer: *observer },
                chooser: *chooser,
                executor: *executor,
                verifier: *verifier,
            };
            assert(went_on(*self, case, World { scene: running, ..polled }, after, r));
            assert(same_case(
                case,
                TaskCase { status: TaskStatus::Running, ..case_of(*self, rows.cases) },
            ));
            assert(stepped_by(
                *self,
                case_of(*self, rows.cases),
                looked,
                polled,
                after,
                r,
            ));
        }
        r
    }

    /// Runs the task until it is over, waits for somebody or fails.
    ///
    /// The run is a row of steps, each of which looks at what is stored and does by the answers
    /// of the ports what [`stepped`] says; no port is asked for anything else. A task that is over
    /// or waits already is left as it is: nothing is stored, and neither the chooser, the executor,
    /// the verifier nor the observer hears of it. Success is stored only over a succeeding verdict
    /// on the latest attempt, a task whose attempts, tokens or money are used up fails (or is
    /// cancelled, where the host wants that), and no other task is touched. The store refuses
    /// nothing but the evidence of an attempt whose name is that of somebody else's attempt.
    pub fn run<C: Chooser, X: TaskExecutor, V: Verifier, H: CycleHost, O: TaskObserver>(
        &self,
        store: &mut MemoryTaskStore,
        chooser: &mut C,
        executor: &mut X,
        verifier: &mut V,
        host: &mut H,
        observer: &mut O,
    ) -> (r: Result<TaskStatus, CycleError>)
        ensures
            owns(old(store).cases(), self.owner@, self.task.0@) ==> exists|
                trail: Seq<World<C, X, V, H, O>>,
            |
                {
                    &&& #[trigger] ran(
                        *self,
                        trail,
                        World {
                            scene: Scene {
                                rows: rows_of(*final(store)),
                                host: *final(host),
                                observer: *final(observer),
                            },
                            chooser: *final(chooser),
                            executor: *final(executor),
                            verifier: *final(verifier),
                        },
                        r,
                    )
                    &&& trail.first() == (World {
                        scene: Scene {
                            rows: rows_of(*old(store)),
                            host: *old(host),
                            observer: *old(observer),
                        },
                        chooser: *old(chooser),
                        executor: *old(executor),
                        verifier: *old(verifier),
                    })
                },
            r matches Err(CycleError::Missing(_)) <==> !owns(
                old(store).cases(),
                self.owner@,
                self.task.0@,
            ),
            r matches Err(CycleError::Missing(text)) ==> *final(store) == *old(store) && text@
                == "adaptive cycle: case "@ + self.task.0@ + " not found for owner"@,
            r matches Err(CycleError::Host(e)) ==> port_failed::<C, V>(e),
            r matches Err(CycleError::Store(why)) ==> why is AttemptMissing,
            others_unchanged(*self, old(store).cases(), final(store).cases()),
            final(store).handles() == old(store).handles(),
            owns(old(store).cases(), self.owner@, self.task.0@) && resting(
                case_of(*self, old(store).cases()).status,
            ) ==> r == Ok::<TaskStatus, CycleError>(case_of(*self, old(store).cases()).status),
            !owns(old(store).cases(), self.owner@, self.task.0@) || resting(
                case_of(*self, old(store).cases()).status,
            ) ==> {
                &&& *final(store) == *old(store)
                &&& *final(chooser) == *old(chooser)
                &&& *final(executor) == *old(executor)
                &&& *final(verifier) == *old(verifier)
                &&& *final(observer) == *old(observer)
            },
            never_acts::<C>() ==> *final(verifier) == *old(verifier) && (*final(executor) == *old(
                executor,
            ) || r == Ok::<TaskStatus, CycleError>(TaskStatus::Cancelled)),
            owns(old(store).cases(), self.owner@, self.task.0@) && !resting(
                case_of(*self, old(store).cases()).status,
            ) && used_up(case_of(*self, old(store).cases())) ==> (r matches Ok(status)
                && stopped_short(
                *self,
                World {
                    scene: Scene {
                        rows: rows_of(*old(store)),
                        host: *old(host),
                        observer: *old(observer),
                    },
                    chooser: *old(chooser),
                    executor: *old(executor),
                    verifier: *old(verifier),
                },
                World {
                    scene: Scene {
                        rows: rows_of(*final(store)),
                        host: *final(host),
                        observer: *final(observer),
                    },
                    chooser: *final(chooser),
                    executor: *final(executor),
                    verifier: *final(verifier),
                },
                status,
            )),
            r matches Ok(status) ==> {
                let first = case_of(*self, old(store).cases());
                let last = case_of(*self, final(store).cases());
                &&& owns(final(store).cases(), self.owner@, self.task.0@)
                &&& last.status == status && resting(status)
                &&& last.bounds == first.bounds
                &&& first.attempts@.len() <= last.attempts@.len()
                &&& last.attempts@.len() == first.attempts@.len() || last.attempts@.len()
                    - first.attempts@.len() <= step_ceiling(first) - attempt_count(first)
                &&& !resting(first.status) ==> goes_with(status, last.stop_reason)
                &&& status == TaskStatus::Completed && !resting(first.status) ==> proven(
                    final(store).attempt_order(),
                    self.owner@,
                    self.task.0@,
                )
            },
    {
        let ghost first = store.cases();
        let ghost owned = owns(first, self.owner@, self.task.0@);
        let ghost mut trail: Seq<World<C, X, V, H, O>> = seq![
            World {
                scene: Scene { rows: rows_of(*store), host: *host, observer: *observer },
                chooser: *chooser,
                executor: *executor,
                verifier: *verifier,
            },
        ];
        loop
            invariant
                first == old(store).cases(),
                owned == owns(first, self.owner@, self.task.0@),
                others_unchanged(*self, first, store.cases()),
                store.handles() == old(store).handles(),
                trail.len() > 0,
                trail.first() == (World {
                    scene: Scene {
                        rows: rows_of(*old(store)),
                        host: *old(host),
                        observer: *old(observer),
                    },
                    chooser: *old(chooser),
                    executor: *old(executor),
                    verifier: *old(verifier),
                }),
                trail.last() == (World {
                    scene: Scene { rows: rows_of(*store), host: *host, observer: *observer },
                    chooser: *chooser,
                    executor: *executor,
                    verifier: *verifier,
                }),
                passed(*self, trail),
                never_acts::<C>() ==> *executor == *old(executor) && *verifier == *old(verifier),
                trail.len() == 1 ==> *store == *old(store),
                trail.len() > 1 ==> owned && !resting(case_of(*self, first).status) && owns(
                    store.cases(),
                    self.owner@,
                    self.task.0@,
                ) && !resting(case_of(*self, store.cases()).status) && !used_up(
                    case_of(*self, first),
                ),
                owned ==> {
                    let case = case_of(*self, store.cases());
                    let start = case_of(*self, first);
                    &&& case.bounds == start.bounds
                    &&& case.attempts@.len() == start.attempts@.len() + trail.len() - 1
                    &&& trail.len() > 1 ==> trail.len() - 1 <= step_ceiling(start) - attempt_count(
                        start,
                    )
                },
            decreases u32::MAX + 2 - trail.len(),
        {
            let ghost world = trail.last();
            let stop: Result<Option<TaskStatus>, CycleError> = self.step(
                store,
                chooser,
                executor,
                verifier,
                host,
                observer,
            );
            let ghost reached = World {
                scene: Scene { rows: rows_of(*store), host: *host, observer: *observer },
                chooser: *chooser,
                executor: *executor,
                verifier: *verifier,
            };
            proof {
                if owned {
                    lemma_stepped(*self, world, reached, stop);
                    lemma_others_unchanged(*self, first, world.scene.rows.cases, store.cases());
                }
            }
            match stop {
                Ok(Some(status)) => {
                    assert(ran(*self, trail, reached, Ok::<TaskStatus, CycleError>(status)));
                    return Ok(status);
                },
                Ok(None) => {},
                Err(e) => {
                    assert(owned ==> ran(*self, trail, reached, Err::<TaskStatus, CycleError>(e)));
                    return Err(e);
                },
            }
            proof {
                let longer = trail.push(reached);
                assert forall|i: int| 0 <= i < longer.len() - 1 implies stepped(
                    *self,
                    #[trigger] longer[i],
                    longer[i + 1],
                    Ok(None),
                ) by {
                    if i < trail.len() - 1 {
                        assert(longer[i] == trail[i] && longer[i + 1] == trail[i + 1]);
                    }
                }
                trail = longer;
            }
        }
    }
}

/// A run leaves a task that is over or waits as it is, whatever its limits and whether or not the
/// host wants it cancelled: nothing is stored, and nobody but the host is asked. So a run after one
/// that ended the task does nothing.
pub proof fn a_resting_task_is_run_in_vain<
    C: Chooser,
    X: TaskExecutor,
    V: Verifier,
    H: CycleHost,
    O: TaskObserver,
>(
    cycle: AdaptiveCycle,
    trail: Seq<World<C, X, V, H, O>>,
    after: World<C, X, V, H, O>,
    r: Result<TaskStatus, CycleError>,
)
    requires
        ran(cycle, trail, after, r),
        owns(trail.first().scene.rows.cases, cycle.owner@, cycle.task.0@),
        resting(case_of(cycle, trail.first().scene.rows.cases).status),
    ensures
        r == Ok::<TaskStatus, CycleError>(
            case_of(cycle, trail.first().scene.rows.cases).status,
        ),
        after == (World {
            scene: Scene { host: after.scene.host, ..trail.first().scene },
            ..trail.first()
        }),
{
    if trail.len() > 1 {
        assert(stepped(cycle, trail[0], trail[1], Ok(None)));
        lemma_stepped(cycle, trail[0], trail[1], Ok(None));
    }
    lemma_stepped(
        cycle,
        trail[0],
        after,
        match r {
            Ok(status) => Ok(Some(status)),
            Err(e) => Err(e),
        },
    );
}

/// A step of a task that may go on, whose latest attempt has no succeeding verdict and whose
/// chooser says that it is complete.
proof fn lemma_claimed<C: Chooser, X: TaskExecutor, V: Verifier, H: CycleHost, O: TaskObserver>(
    cycle: AdaptiveCycle,
    before: World<C, X, V, H, O>,
    after: World<C, X, V, H, O>,
    r: Result<Option<TaskStatus>, CycleError>,
)
    requires
        stepped(cycle, before, after, r),
        claims_only(cycle, before),
    ensures
        r == Ok::<Option<TaskStatus>, CycleError>(Some(TaskStatus::Escalated)),
        after.executor == before.executor,
        after.verifier == before.verifier,
        case_of(cycle, after.scene.rows.cases).status == TaskStatus::Escalated,
        case_of(cycle, after.scene.rows.cases).stop_reason matches Some(StopReason::Escalated(_)),
{
    reveal(stepped);
}

/// A task of the owner that is neither over nor waiting, that the host does not want cancelled and
/// whose limits are not reached, whose latest attempt has no succeeding verdict, and of which the
/// chooser says that it is complete.
pub open spec fn claims_only<
    C: Chooser,
    X: TaskExecutor,
    V: Verifier,
    H: CycleHost,
    O: TaskObserver,
>(cycle: AdaptiveCycle, world: World<C, X, V, H, O>) -> bool {
    let rows = world.scene.rows;
    let case = case_of(cycle, rows.cases);
    &&& owns(rows.cases, cycle.owner@, cycle.task.0@)
    &&& !resting(case.status)
    &&& forall|after: H| !#[trigger] world.scene.host.may_want_cancel(true, &after)
    &&& forall|before: H, wall_ms: u64, after: H| #[trigger]
        before.may_have_taken(wall_ms, &after) ==> exceeded(
            case,
            attempt_count(case),
            wall_ms,
        ) is None
    &&& forall|
        of: TaskCase,
        history: CycleHistory<'_>,
        said: Result<ChosenStep, BastionError>,
        after: C,
    | #[trigger]
        world.chooser.may_choose(of, history, said, &after) ==> said == Ok::<
            ChosenStep,
            BastionError,
        >(ChosenStep::Complete)
    &&& !proven(rows.order, cycle.owner@, cycle.task.0@)
}

/// Nothing is done without proof: where the chooser claims that a task is complete and its latest
/// attempt has no succeeding verdict, the task is handed on to somebody else. It is not stored as
/// completed, and neither the executor nor the verifier is asked.
pub proof fn nothing_is_done_without_proof<
    C: Chooser,
    X: TaskExecutor,
    V: Verifier,
    H: CycleHost,
    O: TaskObserver,
>(
    cycle: AdaptiveCycle,
    trail: Seq<World<C, X, V, H, O>>,
    after: World<C, X, V, H, O>,
    r: Result<TaskStatus, CycleError>,
)
    requires
        ran(cycle, trail, after, r),
        claims_only(cycle, trail.first()),
    ensures
        r == Ok::<TaskStatus, CycleError>(TaskStatus::Escalated),
        case_of(cycle, after.scene.rows.cases).status == TaskStatus::Escalated,
        case_of(cycle, after.scene.rows.cases).stop_reason matches Some(StopReason::Escalated(_)),
        after.executor == trail.first().executor,
        after.verifier == trail.first().verifier,
{
    if trail.len() > 1 {
        assert(stepped(cycle, trail[0], trail[1], Ok(None)));
        lemma_claimed(cycle, trail[0], trail[1], Ok(None));
    }
    lemma_claimed(
        cycle,
        trail[0],
        after,
        match r {
            Ok(status) => Ok(Some(status)),
            Err(e) => Err(e),
        },
    );
}

/// Success rests on the latest attempt: some attempt at the owner's task has a succeeding verdict,
/// and none at it was begun later.
pub proof fn success_rests_on_the_latest_attempt(
    order: Seq<AttemptRow>,
    owner: Seq<char>,
    task: Seq<char>,
)
    requires
        proven(order, owner, task),
    ensures
        exists|i: int|
            {
                &&& 0 <= i < order.len()
                &&& (#[trigger] order[i]).owner@ == owner
                &&& order[i].attempt.task.0@ == task
                &&& order[i].attempt.verdict matches Some(verdict)
                &&& verdict.status == VerificationStatus::Succeeded
                &&& forall|j: int|
                    0 <= j < order.len() && (#[trigger] order[j]).owner@ == owner
                        && order[j].attempt.task.0@ == task ==> order[j].attempt.started_at
                        <= order[i].attempt.started_at
            },
{
    let list = choose|list: Seq<&Attempt>| #[trigger]
        lists_attempts(list, order, owner, task) && succeeds(list);
    let asked = attempt_of(owner, task);
    let places = choose|places: Seq<int>| #[trigger]
        covers(places, order, asked) && attempts_at(list, order, places);
    let n = list.len() - 1;
    let i = places[n];
    assert(*list[n] == order[places[n]].attempt);
    assert(asked(order[i]));
    assert(order[i].owner@ == owner);
    assert forall|j: int|
        0 <= j < order.len() && (#[trigger] order[j]).owner@ == owner && order[j].attempt.task.0@
            == task implies order[j].attempt.started_at <= order[i].attempt.started_at by {
        a_task_sees_all_its_attempts(list, order, owner, task, j);
    }
}

/// A step after which the run goes on did one action and stored one attempt at it: the chooser chose
/// it, the executor was asked for it once, the verifier judged all the evidence that it brought,
/// once, and the attempt is counted on the case and stored, unless its name is taken, with the
/// verdict that was given.
pub proof fn a_step_that_goes_on_stores_one_attempt<
    C: Chooser,
    X: TaskExecutor,
    V: Verifier,
    H: CycleHost,
    O: TaskObserver,
>(
    cycle: AdaptiveCycle,
    before: World<C, X, V, H, O>,
    after: World<C, X, V, H, O>,
)
    requires
        stepped(cycle, before, after, Ok::<Option<TaskStatus>, CycleError>(None)),
        owns(before.scene.rows.cases, cycle.owner@, cycle.task.0@),
    ensures
        exists|
            case: TaskCase,
            action: CandidateAction,
            outcome: ActionOutcome,
            counted: TaskCase,
            record: Attempt,
            pieces: Seq<Evidence>,
            verdict: Verdict,
        |
            {
                &&& #[trigger] before.executor.may_execute(
                    action,
                    case,
                    Ok::<ActionOutcome, String>(outcome),
                    &after.executor,
                )
                &&& #[trigger] before.verifier.may_judge(
                    counted,
                    record.id,
                    pieces,
                    Ok::<Verdict, BastionError>(verdict),
                    &after.verifier,
                )
                &&& pieces == all_stamped(outcome.evidence@, record.id, action.id)
                &&& record.verdict == Some(verdict)
                &&& record.task == cycle.task
                &&& record.actions@ == seq![action.id]
                &&& record.usage == outcome.usage
                &&& case_of(cycle, after.scene.rows.cases).attempts@ == case_of(
                    cycle,
                    before.scene.rows.cases,
                ).attempts@.push(record.id)
                &&& after.scene.rows.order == if before.scene.rows.attempts.contains_key(
                    KeyView::Text(record.id.0@),
                ) {
                    before.scene.rows.order
                } else {
                    before.scene.rows.order.push(
                        AttemptRow {
                            owner: case_of(cycle, before.scene.rows.cases).owner,
                            attempt: record,
                        },
                    )
                }
            },
{
    reveal(stepped);
    let start = case_of(cycle, before.scene.rows.cases);
    let (cancel, first, wall_ms, host) = choose|cancel: bool, first: H, wall_ms: u64, host: H|
        {
            &&& #[trigger] before.scene.host.may_want_cancel(cancel, &first)
            &&& #[trigger] first.may_have_taken(wall_ms, &host)
            &&& stepped_by(
                cycle,
                start,
                surveyed(Some(start), cancel, wall_ms),
                World { scene: Scene { host, ..before.scene }, ..before },
                after,
                Ok(None),
            )
        };
    let polled = World { scene: Scene { host, ..before.scene }, ..before };
    let begin = surveyed(Some(start), cancel, wall_ms)->start;
    let (running, case) = choose|running: Scene<H, O>, copy: TaskCase|
        {
            &&& #[trigger] begun(cycle, polled.scene, begin, running)
            &&& #[trigger] same_case(copy, TaskCase { status: TaskStatus::Running, ..start })
            &&& went_on(cycle, copy, World { scene: running, ..polled }, after, Ok(None))
        };
    let world = World { scene: running, ..polled };
    let (list, answer) = choose|list: Seq<&Attempt>, answer: Result<ChosenStep, BastionError>|
        {
            &&& #[trigger] lists_attempts(
                list,
                world.scene.rows.order,
                cycle.owner@,
                cycle.task.0@,
            )
            &&& #[trigger] world.chooser.may_choose(
                case,
                history_of(list, &case),
                answer,
                &after.chooser,
            )
            &&& match answer {
                Err(e) => {
                    &&& after == (World { chooser: after.chooser, ..world })
                    &&& Ok::<Option<TaskStatus>, CycleError>(None) == Err::<
                        Option<TaskStatus>,
                        CycleError,
                    >(CycleError::Host(e))
                },
                Ok(step) => followed(
                    cycle,
                    case,
                    list,
                    step,
                    world.scene,
                    world.executor,
                    world.verifier,
                    after.scene,
                    after.executor,
                    after.verifier,
                    Ok(None),
                ),
            }
        };
    let action = answer->Ok_0->Act_0;
    assert(acted(
        cycle,
        case,
        action,
        running,
        before.executor,
        before.verifier,
        after.scene,
        after.executor,
        after.verifier,
        Ok(None),
    ));
    lemma_acted(cycle, case, action, running, before.executor, before.verifier, after.scene,
        after.executor, after.verifier);
}

/// What an action led to after which the run goes on.
proof fn lemma_acted<X: TaskExecutor, V: Verifier, H: CycleHost, O: TaskObserver>(
    cycle: AdaptiveCycle,
    case: TaskCase,
    action: CandidateAction,
    before: Scene<H, O>,
    executor: X,
    verifier: V,
    after: Scene<H, O>,
    executor_after: X,
    verifier_after: V,
)
    requires
        acted(
            cycle,
            case,
            action,
            before,
            executor,
            verifier,
            after,
            executor_after,
            verifier_after,
            Ok(None),
        ),
        owns(before.rows.cases, cycle.owner@, cycle.task.0@),
    ensures
        exists|
            outcome: ActionOutcome,
            counted: TaskCase,
            record: Attempt,
            pieces: Seq<Evidence>,
            verdict: Verdict,
        |
            {
                &&& #[trigger] executor.may_execute(
                    action,
                    case,
                    Ok::<ActionOutcome, String>(outcome),
                    &executor_after,
                )
                &&& #[trigger] verifier.may_judge(
                    counted,
                    record.id,
                    pieces,
                    Ok::<Verdict, BastionError>(verdict),
                    &verifier_after,
                )
                &&& pieces == all_stamped(outcome.evidence@, record.id, action.id)
                &&& record.verdict == Some(verdict)
                &&& record.task == cycle.task
                &&& record.actions@ == seq![action.id]
                &&& record.usage == outcome.usage
                &&& case_of(cycle, after.rows.cases).attempts@ == case.attempts@.push(record.id)
                &&& after.rows.order == if before.rows.attempts.contains_key(
                    KeyView::Text(record.id.0@),
                ) {
                    before.rows.order
                } else {
                    before.rows.order.push(
                        AttemptRow { owner: row_of(cycle, before.rows).case.owner, attempt: record },
                    )
                }
            },
{
    assert forall|rows: Rows, record: Attempt, pieces: Seq<Evidence>| {
        let stored = #[trigger] attempt_stored(cycle, rows, record, pieces);
        let appended = attempt_appended(rows, row_of(cycle, rows).case.owner, record);
        stored.cases == rows.cases && stored.order == appended.order
    } by {
        let appended = attempt_appended(rows, row_of(cycle, rows).case.owner, record);
        lemma_evidence_only(
            cycle,
            appended,
            appended.attempts[KeyView::Text(record.id.0@)].attempt.task,
            pieces,
        );
    }
}

/// Where the executor fails, the task fails, for the reason that the executor gave, and neither the
/// verifier is asked nor an attempt stored.
pub proof fn a_failing_executor_fails_the_task<
    X: TaskExecutor,
    V: Verifier,
    H: CycleHost,
    O: TaskObserver,
>(
    cycle: AdaptiveCycle,
    case: TaskCase,
    action: CandidateAction,
    before: Scene<H, O>,
    executor: X,
    verifier: V,
    after: Scene<H, O>,
    executor_after: X,
    verifier_after: V,
    r: Result<Option<TaskStatus>, CycleError>,
)
    requires
        acted(
            cycle,
            case,
            action,
            before,
            executor,
            verifier,
            after,
            executor_after,
            verifier_after,
            r,
        ),
        forall|said: Result<ActionOutcome, String>, then: X| #[trigger]
            executor.may_execute(action, case, said, &then) ==> said is Err,
    ensures
        r == Ok::<Option<TaskStatus>, CycleError>(Some(TaskStatus::Failed)),
        verifier_after == verifier,
        after.rows.order == before.rows.order,
        after.rows.evidence == before.rows.evidence,
        case_of(cycle, after.rows.cases).status == TaskStatus::Failed,
        exists|error: String|
            {
                &&& #[trigger] executor.may_execute(
                    action,
                    case,
                    Err::<ActionOutcome, String>(error),
                    &executor_after,
                )
                &&& case_of(cycle, after.rows.cases).stop_reason matches Some(
                    StopReason::Impossible(reason),
                ) && text::occurs(reason@, error@)
            },
{
    assert forall|error: String| text::occurs("executor error: "@ + #[trigger] error@, error@) by {
        text::what_is_written_last_stands_there("executor error: "@, error@);
    }
}

/// The end of a task is stored with its status and its reason, at the time that the host said, every
/// other row stays as it is, and the observer is told of it once.
pub proof fn an_end_is_stored_and_told_once<H: CycleHost, O: TaskObserver>(
    cycle: AdaptiveCycle,
    before: Scene<H, O>,
    status: TaskStatus,
    reason: StopReason,
    after: Scene<H, O>,
    r: Result<Option<TaskStatus>, CycleError>,
)
    requires
        ended(cycle, before, status, reason, after, r),
        owns(before.rows.cases, cycle.owner@, cycle.task.0@),
    ensures
        r == Ok::<Option<TaskStatus>, CycleError>(Some(status)),
        case_of(cycle, after.rows.cases).status == status,
        case_of(cycle, after.rows.cases).stop_reason == Some(reason),
        case_of(cycle, after.rows.cases).attempts == case_of(cycle, before.rows.cases).attempts,
        case_of(cycle, after.rows.cases).usage == case_of(cycle, before.rows.cases).usage,
        others_unchanged(cycle, before.rows.cases, after.rows.cases),
        after.rows.order == before.rows.order,
        after.rows.evidence_order == before.rows.evidence_order,
        after.rows.handles == before.rows.handles,
        after.rows.case_order.len() == before.rows.case_order.len(),
        exists|event: TaskLifecycleEvent|
            {
                &&& #[trigger] before.observer.may_record(event, &after.observer)
                &&& event matches TaskLifecycleEvent::Terminal {
                    owner,
                    task,
                    status: told,
                    stop_reason,
                }
                &&& owner == cycle.owner && task == cycle.task && told == status && stop_reason
                    == reason
            },
{
    let event = TaskLifecycleEvent::Terminal {
        owner: cycle.owner,
        task: cycle.task,
        status,
        stop_reason: reason,
    };
    assert(before.observer.may_record(event, &after.observer));
}

/// The name of an attempt tells when it was chosen and the number that it was given, so that two
/// attempts have two names where their numbers differ.
pub proof fn an_attempt_has_a_name_of_its_own(nanos: i64, n: u64, other_nanos: i64, other_n: u64)
    ensures
        attempt_name(nanos, n) == attempt_name(other_nanos, other_n) ==> nanos == other_nanos && n
            == other_n,
{
    let head = "attempt"@ + "-"@;
    let a = decimal_int(nanos as int);
    let b = decimal_int(other_nanos as int);
    let x = decimal(n as nat);
    let y = decimal(other_n as nat);
    let one = attempt_name(nanos, n);
    let two = attempt_name(other_nanos, other_n);
    reveal_strlit("-");
    lemma_minus_only_first(nanos as int);
    lemma_minus_only_first(other_nanos as int);
    text::a_number_is_read_as_it_is_written(nanos as int);
    text::a_number_is_read_as_it_is_written(other_nanos as int);
    text::a_decimal_reads_back(n as nat);
    text::a_decimal_reads_back(other_n as nat);
    if one == two {
        let at = head.len() as int;
        assert(one =~= head + a + "-"@ + x);
        assert(two =~= head + b + "-"@ + y);
        assert(one[at + a.len()] == '-');
        assert(two[at + b.len()] == '-');
        if a.len() < b.len() {
            assert(two[at + a.len()] == b[a.len() as int]);
        }
        if b.len() < a.len() {
            assert(one[at + b.len()] == a[b.len() as int]);
        }
        assert(one.subrange(at, at + a.len()) =~= a);
        assert(two.subrange(at, at + b.len()) =~= b);
        assert(one.skip(at + a.len() + 1) =~= x);
        assert(two.skip(at + b.len() + 1) =~= y);
    }
}

/// In a number a minus sign stands at the beginning alone.
proof fn lemma_minus_only_first(n: int)
    ensures
        decimal_int(n).len() > 0,
        forall|i: int| 0 < i < decimal_int(n).len() ==> #[trigger] decimal_int(n)[i] != '-',
{
    let digits = if n < 0 {
        decimal((-n) as nat)
    } else {
        decimal(n as nat)
    };
    text::a_decimal_reads_back(
        if n < 0 {
            (-n) as nat
        } else {
            n as nat
        },
    );
    assert forall|i: int| 0 < i < decimal_int(n).len() implies #[trigger] decimal_int(n)[i]
        != '-' by {
        if n < 0 {
            assert(decimal_int(n)[i] == digits[i - 1]);
            assert(text::is_digit(digits[i - 1]));
        } else {
            assert(text::is_digit(digits[i]));
        }
    }
}

/// A chooser is told the verdict on the latest attempt, how many attempts there were, and what was
/// used.
pub proof fn a_chooser_is_told_what_was_done(list: Seq<&Attempt>, case: TaskCase)
    ensures
        ({
            let told = history_of(list, &case);
            &&& list.len() == 0 ==> told.last_verdict is None
            &&& list.len() > 0 ==> match list[list.len() - 1].verdict {
                None => told.last_verdict is None,
                Some(verdict) => told.last_verdict matches Some(known) && *known == verdict,
            }
            &&& case.attempts@.len() <= u32::MAX ==> told.attempt_count == case.attempts@.len()
            &&& *told.usage == case.usage
        }),
{
}

/// The events of a step are told in the order in which things happen: the attempt is begun and its
/// action chosen before the action is done, it is judged before the task is adapted, and an approval
/// is waited for before the task is said to wait.
pub proof fn events_are_told_in_order(
    cycle: AdaptiveCycle,
    attempt: AttemptId,
    action: ActionId,
    status: VerificationStatus,
    approval: ApprovalRef,
)
    ensures
        announcement(cycle, attempt, action).len() == 2,
        announcement(cycle, attempt, action)[0] == (TaskLifecycleEvent::AttemptStarted {
            owner: cycle.owner,
            task: cycle.task,
            attempt,
        }),
        announcement(cycle, attempt, action)[1] == (TaskLifecycleEvent::ActionChosen {
            owner: cycle.owner,
            task: cycle.task,
            attempt,
            action,
        }),
        judgement(cycle, attempt, status).len() == 2,
        judgement(cycle, attempt, status)[0] == (TaskLifecycleEvent::Verified {
            owner: cycle.owner,
            task: cycle.task,
            attempt,
            status,
        }),
        judgement(cycle, attempt, status)[1] == (TaskLifecycleEvent::Adapted {
            owner: cycle.owner,
            task: cycle.task,
            attempt,
        }),
        parking(cycle, approval).len() == 2,
        parking(cycle, approval)[0] == (TaskLifecycleEvent::ApprovalPending {
            owner: cycle.owner,
            task: cycle.task,
            approval,
        }),
        parking(cycle, approval)[1] == (TaskLifecycleEvent::StatusChanged {
            owner: cycle.owner,
            task: cycle.task,
            status: TaskStatus::AwaitingApproval,
        }),
{
}

/// A task that has not begun is stored as running before anybody is asked about it, and the observer
/// is told; one that has is left as it is.
pub proof fn a_task_is_started_once<H: CycleHost, O: TaskObserver>(
    cycle: AdaptiveCycle,
    before: Scene<H, O>,
    start: bool,
    after: Scene<H, O>,
)
    requires
        begun(cycle, before, start, after),
        owns(before.rows.cases, cycle.owner@, cycle.task.0@),
    ensures
        start ==> {
            &&& case_of(cycle, after.rows.cases).status == TaskStatus::Running
            &&& case_of(cycle, after.rows.cases).stop_reason is None
            &&& case_of(cycle, after.rows.cases).attempts == case_of(
                cycle,
                before.rows.cases,
            ).attempts
            &&& others_unchanged(cycle, before.rows.cases, after.rows.cases)
            &&& exists|event: TaskLifecycleEvent|
                {
                    &&& #[trigger] before.observer.may_record(event, &after.observer)
                    &&& event == (TaskLifecycleEvent::StatusChanged {
                        owner: cycle.owner,
                        task: cycle.task,
                        status: TaskStatus::Running,
                    })
                }
        },
        !start ==> after.rows == before.rows && after.observer == before.observer,
{
    if start {
        let event = TaskLifecycleEvent::StatusChanged {
            owner: cycle.owner,
            task: cycle.task,
            status: TaskStatus::Running,
        };
        assert(before.observer.may_record(event, &after.observer));
    }
}

/// Every piece of evidence is recorded: all of them are there afterwards, those of a new name as
/// they are and for the owner and the task, and what was there stays.
pub proof fn every_piece_is_recorded(
    cycle: AdaptiveCycle,
    rows: Rows,
    task: TaskCaseId,
    pieces: Seq<Evidence>,
)
    ensures
        ({
            let after = evidence_recorded(cycle, rows, task, pieces);
            &&& forall|i: int|
                0 <= i < pieces.len() ==> after.evidence.contains_key(
                    KeyView::Text((#[trigger] pieces[i]).id.0@),
                )
            &&& forall|k: KeyView|
                rows.evidence.contains_key(k) ==> #[trigger] after.evidence.contains_key(k)
                    && after.evidence[k] == rows.evidence[k]
            &&& after.evidence_order.len() >= rows.evidence_order.len()
            &&& after.evidence_order.take(rows.evidence_order.len() as int) == rows.evidence_order
            &&& after.cases == rows.cases && after.attempts == rows.attempts && after.order
                == rows.order && after.handles == rows.handles
        }),
        pieces.len() == 1 && !rows.evidence.contains_key(KeyView::Text(pieces[0].id.0@)) ==> {
            let after = evidence_recorded(cycle, rows, task, pieces);
            &&& after.evidence_order.len() == rows.evidence_order.len() + 1
            &&& after.evidence_order.last().evidence == pieces[0]
            &&& after.evidence_order.last().owner == cycle.owner
            &&& after.evidence_order.last().task == task
        },
    decreases pieces.len(),
{
    if pieces.len() == 0 {
        assert(rows.evidence_order.take(rows.evidence_order.len() as int) =~= rows.evidence_order);
    } else {
        let fewer = pieces.drop_last();
        every_piece_is_recorded(cycle, rows, task, fewer);
        let so_far = evidence_recorded(cycle, rows, task, fewer);
        let after = evidence_recorded(cycle, rows, task, pieces);
        let last = KeyView::Text(pieces.last().id.0@);
        assert forall|i: int| 0 <= i < pieces.len() implies after.evidence.contains_key(
            KeyView::Text((#[trigger] pieces[i]).id.0@),
        ) by {
            if i < fewer.len() {
                assert(so_far.evidence.contains_key(KeyView::Text(fewer[i].id.0@)));
            }
        }
        assert forall|k: KeyView| rows.evidence.contains_key(k) implies
            #[trigger] after.evidence.contains_key(k) && after.evidence[k] == rows.evidence[k] by {
            assert(so_far.evidence.contains_key(k));
        }
        assert(after.evidence_order.take(rows.evidence_order.len() as int)
            =~= so_far.evidence_order.take(rows.evidence_order.len() as int));
        if pieces.len() == 1 {
            assert(fewer.len() == 0);
        }
    }
}

/// A step of a task whose tokens, attempts or cost have reached their limit.
proof fn lemma_spent_step<
    C: Chooser,
    X: TaskExecutor,
    V: Verifier,
    H: CycleHost,
    O: TaskObserver,
>(
    cycle: AdaptiveCycle,
    before: World<C, X, V, H, O>,
    after: World<C, X, V, H, O>,
    r: Result<Option<TaskStatus>, CycleError>,
)
    requires
        stepped(cycle, before, after, r),
        is_spent(cycle, before),
    ensures
        r == Ok::<Option<TaskStatus>, CycleError>(Some(TaskStatus::Failed)),
        after.chooser == before.chooser,
        after.executor == before.executor,
        after.verifier == before.verifier,
        after.scene.rows.order == before.scene.rows.order,
        case_of(cycle, after.scene.rows.cases).status == TaskStatus::Failed,
        case_of(cycle, after.scene.rows.cases).stop_reason matches Some(
            StopReason::BudgetExceeded(_),
        ),
{
    reveal(stepped);
}

/// A task of the owner that is under way, that the host does not want cancelled, and whose tokens,
/// attempts or cost have reached their limit.
pub open spec fn is_spent<
    C: Chooser,
    X: TaskExecutor,
    V: Verifier,
    H: CycleHost,
    O: TaskObserver,
>(cycle: AdaptiveCycle, world: World<C, X, V, H, O>) -> bool {
    let case = case_of(cycle, world.scene.rows.cases);
    &&& owns(world.scene.rows.cases, cycle.owner@, cycle.task.0@)
    &&& case.status == TaskStatus::Pending || case.status == TaskStatus::Running
    &&& forall|after: H| !#[trigger] world.scene.host.may_want_cancel(true, &after)
    &&& {
        ||| case.bounds.max_tokens matches Some(max) && case.usage.input_tokens
            + case.usage.output_tokens >= max
        ||| case.bounds.max_steps matches Some(max) && attempt_count(case) >= max
        ||| case.bounds.max_steps is None && attempt_count(case) >= 100
        ||| case.bounds.max_cost_usd matches Some(max) && (case.usage.cost_usd matches Some(spent)
            && usd_at_least(spent, max))
    }
}

/// A task whose tokens, attempts or cost have reached their limit is run no further: it fails for
/// that reason, nothing is chosen, done or judged, and no attempt is stored.
pub proof fn a_spent_task_is_run_no_further<
    C: Chooser,
    X: TaskExecutor,
    V: Verifier,
    H: CycleHost,
    O: TaskObserver,
>(
    cycle: AdaptiveCycle,
    trail: Seq<World<C, X, V, H, O>>,
    after: World<C, X, V, H, O>,
    r: Result<TaskStatus, CycleError>,
)
    requires
        ran(cycle, trail, after, r),
        is_spent(cycle, trail.first()),
    ensures
        r == Ok::<TaskStatus, CycleError>(TaskStatus::Failed),
        after.chooser == trail.first().chooser,
        after.executor == trail.first().executor,
        after.verifier == trail.first().verifier,
        after.scene.rows.order == trail.first().scene.rows.order,
        case_of(cycle, after.scene.rows.cases).status == TaskStatus::Failed,
        case_of(cycle, after.scene.rows.cases).stop_reason matches Some(
            StopReason::BudgetExceeded(_),
        ),
{
    if trail.len() > 1 {
        assert(stepped(cycle, trail[0], trail[1], Ok(None)));
        lemma_spent_step(cycle, trail[0], trail[1], Ok(None));
    }
    lemma_spent_step(
        cycle,
        trail[0],
        after,
        match r {
            Ok(status) => Ok(Some(status)),
            Err(e) => Err(e),
        },
    );
}

/// A step of a task that is under way and is to be cancelled tells the executor to give up, once,
/// and ends the task as cancelled; neither the chooser nor the verifier is asked.
pub proof fn a_cancelled_task_is_given_up<
    C: Chooser,
    X: TaskExecutor,
    V: Verifier,
    H: CycleHost,
    O: TaskObserver,
>(
    cycle: AdaptiveCycle,
    before: World<C, X, V, H, O>,
    after: World<C, X, V, H, O>,
    r: Result<Option<TaskStatus>, CycleError>,
)
    requires
        stepped(cycle, before, after, r),
        owns(before.scene.rows.cases, cycle.owner@, cycle.task.0@),
        case_of(cycle, before.scene.rows.cases).status == TaskStatus::Pending || case_of(
            cycle,
            before.scene.rows.cases,
        ).status == TaskStatus::Running,
        forall|then: H| !#[trigger] before.scene.host.may_want_cancel(false, &then),
    ensures
        r == Ok::<Option<TaskStatus>, CycleError>(Some(TaskStatus::Cancelled)),
        before.executor.may_give_up(
            case_of(cycle, before.scene.rows.cases),
            &after.executor,
        ),
        after.chooser == before.chooser,
        after.verifier == before.verifier,
        case_of(cycle, after.scene.rows.cases).status == TaskStatus::Cancelled,
        case_of(cycle, after.scene.rows.cases).stop_reason == Some(StopReason::Cancelled),
{
    reveal(stepped);
}

} // verus!
