//! A task store that keeps everything in memory.
use vstd::prelude::*;
use crate::json;
use crate::table::{distinct_keys, Key, KeyView, Row, Table};
use crate::task::contract::{Attempt, Evidence, NextDecision, TaskCase};
use crate::task::store::{
    after_create, after_write, check_transition, key_used, next_revision, owns, owns_at,
    revision_after, rewritten, status_of, touched, transition_refusal, with_decision, with_status,
    AttemptRow, CaseRow, Cases, EvidenceRow, HandleRow, SessionHandle, StoreError, StoreOperation,
};
use crate::task::{AttemptId, StopReason, TaskCaseId, TaskStatus};
use crate::text;

verus! {

/// Something at a position that has a time.
#[derive(Clone, Copy)]
pub struct Stamped {
    pub position: usize,
    pub stamp: i64,
}

/// Ordered by time: the newest first, or the oldest first.
pub open spec fn in_time_order(list: Seq<Stamped>, newest_first: bool) -> bool {
    forall|i: int, j: int|
        0 <= i < j < list.len() ==> if newest_first {
            #[trigger] list[i].stamp >= #[trigger] list[j].stamp
        } else {
            list[i].stamp <= list[j].stamp
        }
}

/// No position occurs twice.
pub open spec fn positions_distinct(list: Seq<Stamped>) -> bool {
    forall|i: int, j: int|
        0 <= i < j < list.len() ==> #[trigger] list[i].position != #[trigger] list[j].position
}

/// Whether an entry of the first time stays before one of the second.
fn stays_before(stamp: i64, other: i64, newest_first: bool) -> (r: bool)
    ensures
        r == if newest_first {
            stamp >= other
        } else {
            stamp <= other
        },
{
    if newest_first {
        stamp >= other
    } else {
        stamp <= other
    }
}

/// The same entries, in order of time.
fn sort_by_time(list: &Vec<Stamped>, newest_first: bool) -> (r: Vec<Stamped>)
    requires
        positions_distinct(list@),
    ensures
        in_time_order(r@, newest_first),
        positions_distinct(r@),
        forall|i: int| 0 <= i < r@.len() ==> list@.contains(#[trigger] r@[i]),
        forall|i: int| 0 <= i < list@.len() ==> r@.contains(#[trigger] list@[i]),
{
    let mut out: Vec<Stamped> = Vec::new();
    let mut n: usize = 0;
    while n < list.len()
        invariant
            n <= list@.len(),
            positions_distinct(list@),
            in_time_order(out@, newest_first),
            positions_distinct(out@),
            forall|i: int|
                0 <= i < out@.len() ==> exists|j: int| 0 <= j < n && list@[j] == #[trigger] out@[i],
            forall|i: int| 0 <= i < n ==> out@.contains(#[trigger] list@[i]),
        decreases list@.len() - n,
    {
        let entry: Stamped = list[n];
        let mut k: usize = 0;
        while k < out.len() && stays_before(out[k].stamp, entry.stamp, newest_first)
            invariant
                k <= out@.len(),
                forall|i: int|
                    0 <= i < k ==> if newest_first {
                        #[trigger] out@[i].stamp >= entry.stamp
                    } else {
                        out@[i].stamp <= entry.stamp
                    },
            decreases out@.len() - k,
        {
            k = k + 1;
        }
        let ghost before = out@;
        out.insert(k, entry);
        proof {
            let after = out@;
            assert(after =~= before.insert(k as int, entry));
            assert forall|i: int, j: int| 0 <= i < j < after.len() implies if newest_first {
                #[trigger] after[i].stamp >= #[trigger] after[j].stamp
            } else {
                after[i].stamp <= after[j].stamp
            } by {
                let bi = if i < k { i } else { i - 1 };
                let bj = if j < k { j } else { j - 1 };
                if i != k {
                    assert(after[i] == before[bi]);
                }
                if j != k {
                    assert(after[j] == before[bj]);
                }
                if i == k && k < before.len() {
                    assert(before[k as int] == after[k + 1]);
                }
            }
            assert forall|i: int| 0 <= i < after.len() implies exists|j: int|
                0 <= j < n + 1 && list@[j] == #[trigger] after[i] by {
                if i == k {
                    assert(list@[n as int] == after[i]);
                } else {
                    let bi = if i < k { i } else { i - 1 };
                    assert(after[i] == before[bi]);
                    let j = choose|j: int| 0 <= j < n && list@[j] == before[bi];
                    assert(list@[j] == after[i]);
                }
            }
            assert forall|i: int, j: int| 0 <= i < j < after.len() implies #[trigger] after[i].position
                != #[trigger] after[j].position by {
                let bi = if i < k { i } else { i - 1 };
                let bj = if j < k { j } else { j - 1 };
                if i != k {
                    assert(after[i] == before[bi]);
                    let a = choose|a: int| 0 <= a < n && list@[a] == before[bi];
                    assert(list@[a].position != list@[n as int].position);
                }
                if j != k {
                    assert(after[j] == before[bj]);
                    let b = choose|b: int| 0 <= b < n && list@[b] == before[bj];
                    assert(list@[b].position != list@[n as int].position);
                }
            }
            assert forall|i: int| 0 <= i < n + 1 implies after.contains(#[trigger] list@[i]) by {
                if i < n {
                    let b = choose|b: int| 0 <= b < before.len() && before[b] == list@[i];
                    assert(before.contains(list@[i]));
                    let a = if b < k { b } else { b + 1 };
                    assert(after[a] == list@[i]);
                } else {
                    assert(after[k as int] == list@[i]);
                }
            }
        }
        n = n + 1;
    }
    assert forall|i: int| 0 <= i < out@.len() implies list@.contains(#[trigger] out@[i]) by {
        let j = choose|j: int| 0 <= j < n && list@[j] == out@[i];
        assert(list@[j] == out@[i]);
    }
    out
}

/// The places at which `listed` stand in `rows`: every row that is asked for, once, and no
/// other.
pub open spec fn covers<R>(
    places: Seq<int>,
    rows: Seq<R>,
    asked: spec_fn(R) -> bool,
) -> bool {
    &&& forall|i: int|
        0 <= i < places.len() ==> 0 <= #[trigger] places[i] < rows.len() && asked(rows[places[i]])
    &&& forall|i: int, j: int|
        0 <= i < j < places.len() ==> #[trigger] places[i] != #[trigger] places[j]
    &&& forall|k: int| 0 <= k < rows.len() && asked(#[trigger] rows[k]) ==> places.contains(k)
}

/// Something with a time.
pub trait Dated {
    /// The time by which it is listed.
    spec fn date(&self) -> i64;
}

impl Dated for CaseRow {
    open spec fn date(&self) -> i64 {
        self.case.created_at
    }
}

impl Dated for AttemptRow {
    open spec fn date(&self) -> i64 {
        self.attempt.started_at
    }
}

/// What was found among the first `n` rows: each one that is asked for, with its time, in the
/// order of the rows.
pub open spec fn collected<R: Dated>(
    found: Seq<Stamped>,
    rows: Seq<R>,
    asked: spec_fn(R) -> bool,
    n: int,
) -> bool {
    &&& forall|i: int|
        0 <= i < found.len() ==> {
            &&& (#[trigger] found[i]).position < n <= rows.len()
            &&& asked(rows[found[i].position as int])
            &&& found[i].stamp == rows[found[i].position as int].date()
        }
    &&& forall|i: int, j: int|
        0 <= i < j < found.len() ==> #[trigger] found[i].position < #[trigger] found[j].position
    &&& forall|k: int|
        0 <= k < n && asked(#[trigger] rows[k]) ==> exists|i: int|
            0 <= i < found.len() && (#[trigger] found[i]).position == k
}

/// One more row that is asked for.
proof fn lemma_collected_push<R: Dated>(
    found: Seq<Stamped>,
    rows: Seq<R>,
    asked: spec_fn(R) -> bool,
    n: int,
    entry: Stamped,
)
    requires
        collected(found, rows, asked, n),
        0 <= n < rows.len(),
        asked(rows[n]),
        entry.position == n,
        entry.stamp == rows[n].date(),
    ensures
        collected(found.push(entry), rows, asked, n + 1),
{
    let after = found.push(entry);
    assert forall|k: int| 0 <= k < n + 1 && asked(#[trigger] rows[k]) implies exists|i: int|
        0 <= i < after.len() && (#[trigger] after[i]).position == k by {
        if k < n {
            let i = choose|i: int| 0 <= i < found.len() && (#[trigger] found[i]).position == k;
            assert(after[i].position == k);
        } else {
            assert(after[found.len() as int].position == k);
        }
    }
}

/// One more row that is not asked for.
proof fn lemma_collected_skip<R: Dated>(
    found: Seq<Stamped>,
    rows: Seq<R>,
    asked: spec_fn(R) -> bool,
    n: int,
)
    requires
        collected(found, rows, asked, n),
        0 <= n < rows.len(),
        !asked(rows[n]),
    ensures
        collected(found, rows, asked, n + 1),
{
}

/// Sorting what was found keeps it complete.
proof fn lemma_covers<R: Dated>(
    found: Seq<Stamped>,
    sorted: Seq<Stamped>,
    rows: Seq<R>,
    asked: spec_fn(R) -> bool,
    places: Seq<int>,
)
    requires
        collected(found, rows, asked, rows.len() as int),
        positions_distinct(sorted),
        forall|i: int| 0 <= i < sorted.len() ==> found.contains(#[trigger] sorted[i]),
        forall|i: int| 0 <= i < found.len() ==> sorted.contains(#[trigger] found[i]),
        places == Seq::new(sorted.len(), |i: int| sorted[i].position as int),
    ensures
        covers(places, rows, asked),
{
    assert forall|i: int| 0 <= i < places.len() implies 0 <= #[trigger] places[i] < rows.len()
        && asked(rows[places[i]]) by {
        assert(found.contains(sorted[i]));
    }
    assert forall|i: int, j: int| 0 <= i < j < places.len() implies #[trigger] places[i]
        != #[trigger] places[j] by {
        assert(sorted[i].position != sorted[j].position);
    }
    assert forall|k: int| 0 <= k < rows.len() && asked(#[trigger] rows[k]) implies places.contains(
        k,
    ) by {
        let i = choose|i: int| 0 <= i < found.len() && (#[trigger] found[i]).position == k;
        assert(sorted.contains(found[i]));
        let j = choose|j: int| 0 <= j < sorted.len() && sorted[j] == found[i];
        assert(places[j] == k);
    }
}

/// The cases of a listing stand at these places.
pub open spec fn cases_at(list: Seq<&TaskCase>, rows: Seq<CaseRow>, places: Seq<int>) -> bool {
    list.len() == places.len() && forall|i: int|
        0 <= i < list.len() ==> *#[trigger] list[i] == rows[places[i]].case
}

/// A listing of exactly the rows that are asked for, by the time at which they were created.
pub open spec fn lists_cases(
    list: Seq<&TaskCase>,
    rows: Seq<CaseRow>,
    asked: spec_fn(CaseRow) -> bool,
    newest_first: bool,
) -> bool {
    &&& exists|places: Seq<int>|
        #[trigger] covers(places, rows, asked) && cases_at(list, rows, places)
    &&& forall|i: int, j: int|
        0 <= i < j < list.len() ==> if newest_first {
            #[trigger] list[i].created_at >= #[trigger] list[j].created_at
        } else {
            list[i].created_at <= list[j].created_at
        }
}

/// The row belongs to this owner.
pub open spec fn of_owner(owner: Seq<char>) -> spec_fn(CaseRow) -> bool {
    |row: CaseRow| row.case.owner@ == owner
}

/// The row belongs to this owner and has this parent.
pub open spec fn child_of(owner: Seq<char>, parent: Seq<char>) -> spec_fn(CaseRow) -> bool {
    |row: CaseRow|
        row.case.owner@ == owner && (row.case.parent matches Some(link) && link.0@ == parent)
}

/// The attempts of a listing stand at these places.
pub open spec fn attempts_at(list: Seq<&Attempt>, rows: Seq<AttemptRow>, places: Seq<int>) -> bool {
    list.len() == places.len() && forall|i: int|
        0 <= i < list.len() ==> *#[trigger] list[i] == rows[places[i]].attempt
}

/// A listing of exactly the attempts of an owner's task, the oldest first.
pub open spec fn lists_attempts(
    list: Seq<&Attempt>,
    rows: Seq<AttemptRow>,
    owner: Seq<char>,
    task: Seq<char>,
) -> bool {
    &&& exists|places: Seq<int>|
        #[trigger] covers(places, rows, attempt_of(owner, task)) && attempts_at(list, rows, places)
    &&& forall|i: int, j: int|
        0 <= i < j < list.len() ==> #[trigger] list[i].started_at <= #[trigger] list[j].started_at
}

/// The attempt is one at this owner's task.
pub open spec fn attempt_of(owner: Seq<char>, task: Seq<char>) -> spec_fn(AttemptRow) -> bool {
    |row: AttemptRow| row.owner@ == owner && row.attempt.task.0@ == task
}

/// The cases keep their places: each place holds the case of the same name as before, as it now
/// is.
pub open spec fn keeps_places(before: Seq<CaseRow>, after: Seq<CaseRow>, cases: Cases) -> bool {
    before.len() == after.len() && forall|i: int|
        0 <= i < after.len() ==> (#[trigger] after[i]).key() == before[i].key()
            && cases.contains_key(after[i].key()) && after[i] == cases[after[i].key()]
}

/// Task cases, attempts, evidence and sessions, in memory.
pub struct MemoryTaskStore {
    cases: Table<CaseRow>,
    attempts: Table<AttemptRow>,
    evidence: Table<EvidenceRow>,
    handles: Table<HandleRow>,
}

impl MemoryTaskStore {
    /// The cases by their identifiers.
    pub closed spec fn cases(self) -> Cases {
        self.cases@
    }

    /// The cases in the order in which they were created.
    pub closed spec fn case_order(self) -> Seq<CaseRow> {
        self.cases.order()
    }

    /// The attempts by their identifiers.
    pub closed spec fn attempts(self) -> Map<KeyView, AttemptRow> {
        self.attempts@
    }

    /// The attempts in the order in which they were appended.
    pub closed spec fn attempt_order(self) -> Seq<AttemptRow> {
        self.attempts.order()
    }

    /// The evidence by its identifiers.
    pub closed spec fn evidence(self) -> Map<KeyView, EvidenceRow> {
        self.evidence@
    }

    /// The evidence in the order in which it was recorded.
    pub closed spec fn evidence_order(self) -> Seq<EvidenceRow> {
        self.evidence.order()
    }

    /// The sessions by task and owner.
    pub closed spec fn handles(self) -> Map<KeyView, HandleRow> {
        self.handles@
    }

    /// Nothing but the cases differs.
    pub open spec fn same_beside_cases(self, other: Self) -> bool {
        self.attempts() == other.attempts() && self.attempt_order() == other.attempt_order()
            && self.evidence() == other.evidence() && self.evidence_order()
            == other.evidence_order() && self.handles() == other.handles()
    }

    /// An empty store.
    pub fn new() -> (r: Self)
        ensures
            r.cases() == Cases::empty(),
            r.case_order() == Seq::<CaseRow>::empty(),
            r.attempts() == Map::<KeyView, AttemptRow>::empty(),
            r.attempt_order() == Seq::<AttemptRow>::empty(),
            r.evidence() == Map::<KeyView, EvidenceRow>::empty(),
            r.evidence_order() == Seq::<EvidenceRow>::empty(),
            r.handles() == Map::<KeyView, HandleRow>::empty(),
    {
        MemoryTaskStore {
            cases: Table::new(),
            attempts: Table::new(),
            evidence: Table::new(),
            handles: Table::new(),
        }
    }

    /// How many cases there are.
    pub fn case_count(&self) -> (r: usize)
        ensures
            r == self.case_order().len(),
            distinct_keys(self.case_order()),
    {
        self.cases.len()
    }

    /// The case at a place.
    pub fn case_at(&self, i: usize) -> (r: &TaskCase)
        requires
            i < self.case_order().len(),
        ensures
            *r == self.case_order()[i as int].case,
            self.cases().contains_key(self.case_order()[i as int].key()),
            self.cases()[self.case_order()[i as int].key()] == self.case_order()[i as int],
    {
        &self.cases.at(i).case
    }

    /// The case at a place is the one of its name.
    pub proof fn lemma_case_at_place(&self, i: int)
        requires
            distinct_keys(self.case_order()),
            0 <= i < self.case_order().len(),
        ensures
            self.cases().contains_key(self.case_order()[i].key()),
            self.cases()[self.case_order()[i].key()] == self.case_order()[i],
    {
        self.cases.lemma_view();
        crate::table::lemma_by_key_at(self.cases.order(), i);
    }

    /// Every case stands at a place.
    pub proof fn lemma_place_of_case(&self, key: KeyView) -> (i: int)
        requires
            self.cases().contains_key(key),
        ensures
            0 <= i < self.case_order().len(),
            self.case_order()[i].key() == key,
            self.case_order()[i] == self.cases()[key],
    {
        self.cases.lemma_place_of(key)
    }

    /// Whether a case was created under this key.
    fn has_idempotency_key(&self, key: &str) -> (r: bool)
        ensures
            r == key_used(self.cases(), key@),
    {
        let mut i: usize = 0;
        while i < self.cases.len()
            invariant
                i <= self.cases.order().len(),
                forall|j: int|
                    0 <= j < i ==> #[trigger] self.cases.order()[j].idempotency_key@ != key@,
            decreases self.cases.order().len() - i,
        {
            let row = self.cases.at(i);
            if text::same(row.idempotency_key.as_str(), key) {
                assert(self.cases().contains_key(row.key()));
                return true;
            }
            i = i + 1;
        }
        assert(!key_used(self.cases(), key@)) by {
            if key_used(self.cases(), key@) {
                let k = choose|k: KeyView| #[trigger] self.cases().contains_key(k) && self.cases()[
                    k
                ].idempotency_key@ == key@;
                let j = self.cases.lemma_place_of(k);
                assert(self.cases.order()[j].idempotency_key@ != key@);
            }
        }
        false
    }

    /// Adds a case, unless its key or its name is taken: then nothing happens. The times of
    /// the stored case are the store's own.
    pub fn create_case(&mut self, case: TaskCase, idempotency_key: String, now: i64)
        ensures
            final(self).cases() == after_create(old(self).cases(), case, idempotency_key, now),
            final(self).case_order() == if final(self).cases() == old(self).cases() {
                old(self).case_order()
            } else {
                old(self).case_order().push(final(self).cases()[KeyView::Text(case.id.0@)])
            },
            final(self).same_beside_cases(*old(self)),
    {
        if self.has_idempotency_key(idempotency_key.as_str()) {
            return;
        }
        match self.cases.find(Key::Text(case.id.as_str())) {
            Some(_) => {},
            None => {
                let mut case: TaskCase = case;
                case.created_at = now;
                case.updated_at = now;
                let ghost before = self.cases();
                let row: CaseRow = CaseRow {
                    case,
                    idempotency_key,
                    last_confirmed_event: None,
                    checkpoint_json: None,
                };
                proof {
                    assert(before.insert(row.key(), row).contains_key(row.key()));
                    assert(!before.contains_key(row.key()));
                }
                self.cases.push(row);
            },
        }
    }

    /// The owner's case of this name; somebody else's is as good as none.
    pub fn load_case(&self, owner: &str, id: &TaskCaseId) -> (r: Option<&TaskCase>)
        ensures
            match r {
                Some(case) => owns(self.cases(), owner@, id.0@) && *case == self.cases()[
                    KeyView::Text(id.0@)
                ].case && case.id.0@ == id.0@,
                None => !owns(self.cases(), owner@, id.0@),
            },
    {
        match self.cases.get(Key::Text(id.as_str())) {
            Some(row) => if text::same(row.case.owner.as_str(), owner) {
                Some(&row.case)
            } else {
                None
            },
            None => None,
        }
    }

    /// The position of the owner's case at this revision.
    fn locate(&self, owner: &str, id: &str, expected: u64) -> (r: Option<usize>)
        ensures
            match r {
                Some(i) => {
                    &&& owns_at(self.cases(), owner@, id@, expected)
                    &&& i < self.cases.order().len()
                    &&& self.cases.order()[i as int] == self.cases()[KeyView::Text(id@)]
                    &&& self.cases.order()[i as int].key() == KeyView::Text(id@)
                },
                None => !owns_at(self.cases(), owner@, id@, expected),
            },
    {
        match self.cases.find(Key::Text(id)) {
            Some(i) => {
                let row = self.cases.at(i);
                if text::same(row.case.owner.as_str(), owner) && row.case.revision == expected {
                    Some(i)
                } else {
                    None
                }
            },
            None => None,
        }
    }

    /// Writes a case over the stored one, where that still has the expected revision.
    pub fn update_case(&mut self, case: TaskCase, expected_revision: u64, now: i64) -> (r: Result<
        u64,
        StoreError,
    >)
        ensures
            final(self).same_beside_cases(*old(self)),
            if owns_at(old(self).cases(), case.owner@, case.id.0@, expected_revision) {
                &&& r == Ok::<u64, StoreError>(revision_after(expected_revision))
                &&& keeps_places(
                    old(self).case_order(),
                    final(self).case_order(),
                    final(self).cases(),
                )
                &&& final(self).cases() == after_write(
                    old(self).cases(),
                    case.id.0@,
                    rewritten(
                        old(self).cases()[KeyView::Text(case.id.0@)],
                        case,
                        expected_revision,
                        now,
                    ),
                )
            } else {
                &&& r == Err::<u64, StoreError>(
                    StoreError::NoMatch {
                        operation: StoreOperation::UpdateCase,
                        expected: expected_revision,
                    },
                )
                &&& *final(self) == *old(self)
            },
    {
        match self.locate(case.owner.as_str(), case.id.as_str(), expected_revision) {
            None => Err(
                StoreError::NoMatch {
                    operation: StoreOperation::UpdateCase,
                    expected: expected_revision,
                },
            ),
            Some(i) => {
                let row: CaseRow = self.cases.remove_at(i);
                let mut case: TaskCase = case;
                case.id = row.case.id;
                case.owner = row.case.owner;
                case.created_at = row.case.created_at;
                case.updated_at = now;
                case.revision = next_revision(expected_revision);
                let row: CaseRow = CaseRow {
                    case,
                    idempotency_key: row.idempotency_key,
                    last_confirmed_event: row.last_confirmed_event,
                    checkpoint_json: row.checkpoint_json,
                };
                self.cases.insert_at(i, row);
                Ok(next_revision(expected_revision))
            },
        }
    }

    /// Sets the status of a case, and the reason where it ends the task.
    pub fn transition_status(
        &mut self,
        owner: &str,
        id: &TaskCaseId,
        next: TaskStatus,
        stop_reason: Option<StopReason>,
        expected_revision: u64,
        now: i64,
    ) -> (r: Result<u64, StoreError>)
        ensures
            final(self).same_beside_cases(*old(self)),
            match transition_refusal(
                status_of(old(self).cases(), owner@, id.0@),
                next,
                stop_reason is Some,
            ) {
                Some(e) => r == Err::<u64, StoreError>(e) && *final(self) == *old(self),
                None => if owns_at(old(self).cases(), owner@, id.0@, expected_revision) {
                    &&& r == Ok::<u64, StoreError>(revision_after(expected_revision))
                &&& keeps_places(
                    old(self).case_order(),
                    final(self).case_order(),
                    final(self).cases(),
                )
                    &&& final(self).cases() == after_write(
                        old(self).cases(),
                        id.0@,
                        with_status(
                            old(self).cases()[KeyView::Text(id.0@)],
                            next,
                            stop_reason,
                            expected_revision,
                            now,
                        ),
                    )
                } else {
                    &&& r == Err::<u64, StoreError>(
                        StoreError::RevisionConflict(expected_revision),
                    )
                    &&& *final(self) == *old(self)
                },
            },
    {
        let current: Option<TaskStatus> = match self.load_case(owner, id) {
            Some(case) => Some(case.status),
            None => None,
        };
        match check_transition(current, next, stop_reason.is_some()) {
            Err(e) => return Err(e),
            Ok(_) => {},
        }
        match self.locate(owner, id.as_str(), expected_revision) {
            None => Err(StoreError::RevisionConflict(expected_revision)),
            Some(i) => {
                let mut row: CaseRow = self.cases.remove_at(i);
                row.case.status = next;
                row.case.stop_reason = stop_reason;
                row.case.updated_at = now;
                row.case.revision = next_revision(expected_revision);
                self.cases.insert_at(i, row);
                Ok(next_revision(expected_revision))
            },
        }
    }
    /// Replaces what is to be done next, or clears it.
    pub fn set_next_decision(
        &mut self,
        owner: &str,
        id: &TaskCaseId,
        decision: Option<NextDecision>,
        expected_revision: u64,
        now: i64,
    ) -> (r: Result<u64, StoreError>)
        ensures
            final(self).same_beside_cases(*old(self)),
            if owns_at(old(self).cases(), owner@, id.0@, expected_revision) {
                &&& r == Ok::<u64, StoreError>(revision_after(expected_revision))
                &&& keeps_places(
                    old(self).case_order(),
                    final(self).case_order(),
                    final(self).cases(),
                )
                &&& final(self).cases() == after_write(
                    old(self).cases(),
                    id.0@,
                    with_decision(
                        old(self).cases()[KeyView::Text(id.0@)],
                        decision,
                        expected_revision,
                        now,
                    ),
                )
            } else {
                &&& r == Err::<u64, StoreError>(
                    StoreError::NoMatch {
                        operation: StoreOperation::SetNextDecision,
                        expected: expected_revision,
                    },
                )
                &&& *final(self) == *old(self)
            },
    {
        match self.locate(owner, id.as_str(), expected_revision) {
            None => Err(
                StoreError::NoMatch {
                    operation: StoreOperation::SetNextDecision,
                    expected: expected_revision,
                },
            ),
            Some(i) => {
                let mut row: CaseRow = self.cases.remove_at(i);
                row.case.next_decision = decision;
                row.case.updated_at = now;
                row.case.revision = next_revision(expected_revision);
                self.cases.insert_at(i, row);
                Ok(next_revision(expected_revision))
            },
        }
    }

    /// Notes the last event that is known to have been observed.
    pub fn set_last_confirmed_event(
        &mut self,
        owner: &str,
        id: &TaskCaseId,
        marker: String,
        expected_revision: u64,
        now: i64,
    ) -> (r: Result<u64, StoreError>)
        ensures
            final(self).same_beside_cases(*old(self)),
            if owns_at(old(self).cases(), owner@, id.0@, expected_revision) {
                &&& r == Ok::<u64, StoreError>(revision_after(expected_revision))
                &&& keeps_places(
                    old(self).case_order(),
                    final(self).case_order(),
                    final(self).cases(),
                )
                &&& final(self).cases() == after_write(
                    old(self).cases(),
                    id.0@,
                    CaseRow {
                        last_confirmed_event: Some(marker),
                        ..touched(
                            old(self).cases()[KeyView::Text(id.0@)],
                            expected_revision,
                            now,
                        )
                    },
                )
            } else {
                &&& r == Err::<u64, StoreError>(
                    StoreError::NoMatch {
                        operation: StoreOperation::SetLastConfirmedEvent,
                        expected: expected_revision,
                    },
                )
                &&& *final(self) == *old(self)
            },
    {
        match self.locate(owner, id.as_str(), expected_revision) {
            None => Err(
                StoreError::NoMatch {
                    operation: StoreOperation::SetLastConfirmedEvent,
                    expected: expected_revision,
                },
            ),
            Some(i) => {
                let mut row: CaseRow = self.cases.remove_at(i);
                row.last_confirmed_event = Some(marker);
                row.case.updated_at = now;
                row.case.revision = next_revision(expected_revision);
                self.cases.insert_at(i, row);
                Ok(next_revision(expected_revision))
            },
        }
    }

    /// Saves a state to resume from, as text.
    pub fn save_checkpoint(
        &mut self,
        owner: &str,
        id: &TaskCaseId,
        checkpoint: &serde_json::Value,
        expected_revision: u64,
        now: i64,
    ) -> (r: Result<u64, StoreError>)
        ensures
            final(self).same_beside_cases(*old(self)),
            if owns_at(old(self).cases(), owner@, id.0@, expected_revision) {
                &&& r == Ok::<u64, StoreError>(revision_after(expected_revision))
                &&& keeps_places(
                    old(self).case_order(),
                    final(self).case_order(),
                    final(self).cases(),
                )
                &&& exists|saved: String| #[trigger]
                    saved@ == json::printed(json::tree(*checkpoint)) && (json::plain(
                        json::tree(*checkpoint),
                        json::deepest(),
                    ) ==> json::reads_as(saved@, json::tree(*checkpoint))) && final(self).cases()
                        == after_write(
                        old(self).cases(),
                        id.0@,
                        CaseRow {
                            checkpoint_json: Some(saved),
                            ..touched(
                                old(self).cases()[KeyView::Text(id.0@)],
                                expected_revision,
                                now,
                            )
                        },
                    )
            } else {
                &&& r == Err::<u64, StoreError>(
                    StoreError::NoMatch {
                        operation: StoreOperation::SaveCheckpoint,
                        expected: expected_revision,
                    },
                )
                &&& *final(self) == *old(self)
            },
    {
        match self.locate(owner, id.as_str(), expected_revision) {
            None => Err(
                StoreError::NoMatch {
                    operation: StoreOperation::SaveCheckpoint,
                    expected: expected_revision,
                },
            ),
            Some(i) => {
                let mut row: CaseRow = self.cases.remove_at(i);
                let saved: String = json::print(checkpoint);
                assert(saved@ == json::printed(json::tree(*checkpoint)));
                row.checkpoint_json = Some(saved);
                row.case.updated_at = now;
                row.case.revision = next_revision(expected_revision);
                self.cases.insert_at(i, row);
                Ok(next_revision(expected_revision))
            },
        }
    }

    /// The state that was saved last for the owner's case, read back from its text.
    pub fn load_checkpoint(&self, owner: &str, id: &TaskCaseId) -> (r: Result<
        Option<serde_json::Value>,
        StoreError,
    >)
        ensures
            if owns(self.cases(), owner@, id.0@) {
                match self.cases()[KeyView::Text(id.0@)].checkpoint_json {
                    None => r == Ok::<Option<serde_json::Value>, StoreError>(None),
                    Some(saved) => match json::parsed(saved@) {
                        Ok(tree) => r matches Ok(Some(value)) && json::tree(value) == tree,
                        Err(message) => r matches Err(StoreError::Unreadable(m)) && m@ == message,
                    },
                }
            } else {
                r == Ok::<Option<serde_json::Value>, StoreError>(None)
            },
    {
        match self.cases.get(Key::Text(id.as_str())) {
            None => Ok(None),
            Some(row) => {
                if !text::same(row.case.owner.as_str(), owner) {
                    return Ok(None);
                }
                match &row.checkpoint_json {
                    None => Ok(None),
                    Some(saved) => match json::parse(saved.as_str()) {
                        Ok(value) => Ok(Some(value)),
                        Err(message) => Err(StoreError::Unreadable(message)),
                    },
                }
            },
        }
    }

    /// Adds an attempt to its task, under the task's owner. One that is there already stays as
    /// it is.
    pub fn append_attempt(&mut self, attempt: Attempt) -> (r: Result<(), StoreError>)
        ensures
            final(self).cases() == old(self).cases(),
            final(self).case_order() == old(self).case_order(),
            final(self).evidence() == old(self).evidence(),
            final(self).evidence_order() == old(self).evidence_order(),
            final(self).handles() == old(self).handles(),
            if !old(self).cases().contains_key(KeyView::Text(attempt.task.0@)) {
                &&& r matches Err(StoreError::TaskMissing(task)) && task@ == attempt.task.0@
                &&& *final(self) == *old(self)
            } else {
                &&& r is Ok
                &&& final(self).attempts() == after_append(
                    old(self).attempts(),
                    old(self).cases()[KeyView::Text(attempt.task.0@)].case.owner,
                    attempt,
                )
                &&& if old(self).attempts().contains_key(KeyView::Text(attempt.id.0@)) {
                    *final(self) == *old(self)
                } else {
                    final(self).attempt_order() == old(self).attempt_order().push(
                        AttemptRow {
                            owner: old(self).cases()[KeyView::Text(attempt.task.0@)].case.owner,
                            attempt,
                        },
                    )
                }
            },
    {
        let owner: String = match self.cases.get(Key::Text(attempt.task.as_str())) {
            None => return Err(StoreError::TaskMissing(attempt.task.as_str().to_owned())),
            Some(row) => row.case.owner.clone(),
        };
        match self.attempts.find(Key::Text(attempt.id.as_str())) {
            Some(_) => {},
            None => {
                self.attempts.push(AttemptRow { owner, attempt });
            },
        }
        Ok(())
    }

    /// The owner's attempt of this name.
    pub fn load_attempt(&self, owner: &str, id: &AttemptId) -> (r: Option<&Attempt>)
        ensures
            match r {
                Some(attempt) => owns_attempt(self.attempts(), owner@, id.0@) && *attempt
                    == self.attempts()[KeyView::Text(id.0@)].attempt,
                None => !owns_attempt(self.attempts(), owner@, id.0@),
            },
    {
        match self.attempts.get(Key::Text(id.as_str())) {
            Some(row) => if text::same(row.owner.as_str(), owner) {
                Some(&row.attempt)
            } else {
                None
            },
            None => None,
        }
    }

    /// Records evidence of one of the owner's attempts. What is there already stays as it is.
    pub fn record_evidence(&mut self, owner: String, evidence: Evidence) -> (r: Result<
        (),
        StoreError,
    >)
        ensures
            final(self).cases() == old(self).cases(),
            final(self).case_order() == old(self).case_order(),
            final(self).attempts() == old(self).attempts(),
            final(self).attempt_order() == old(self).attempt_order(),
            final(self).handles() == old(self).handles(),
            if !owns_attempt(old(self).attempts(), owner@, evidence.attempt.0@) {
                &&& r matches Err(StoreError::AttemptMissing(id)) && id@ == evidence.attempt.0@
                &&& *final(self) == *old(self)
            } else {
                &&& r is Ok
                &&& final(self).evidence() == after_record(
                    old(self).evidence(),
                    owner,
                    old(self).attempts()[KeyView::Text(evidence.attempt.0@)].attempt.task,
                    evidence,
                )
                &&& if old(self).evidence().contains_key(KeyView::Text(evidence.id.0@)) {
                    *final(self) == *old(self)
                } else {
                    final(self).evidence_order() == old(self).evidence_order().push(
                        EvidenceRow {
                            owner,
                            task: old(self).attempts()[KeyView::Text(
                                evidence.attempt.0@,
                            )].attempt.task,
                            evidence,
                        },
                    )
                }
            },
    {
        let task: TaskCaseId = match self.load_attempt(owner.as_str(), &evidence.attempt) {
            None => return Err(StoreError::AttemptMissing(evidence.attempt.as_str().to_owned())),
            Some(attempt) => attempt.task.clone(),
        };
        match self.evidence.find(Key::Text(evidence.id.as_str())) {
            Some(_) => {},
            None => {
                self.evidence.push(EvidenceRow { owner, task, evidence });
            },
        }
        Ok(())
    }

    /// How many pieces of evidence there are.
    pub fn evidence_count(&self) -> (r: usize)
        ensures
            r == self.evidence_order().len(),
            distinct_keys(self.evidence_order()),
    {
        self.evidence.len()
    }

    /// Remembers the session of a task, in place of an earlier one.
    pub fn save_external_handle(&mut self, owner: String, task: String, handle: SessionHandle)
        ensures
            final(self).cases() == old(self).cases(),
            final(self).case_order() == old(self).case_order(),
            final(self).attempts() == old(self).attempts(),
            final(self).attempt_order() == old(self).attempt_order(),
            final(self).evidence() == old(self).evidence(),
            final(self).evidence_order() == old(self).evidence_order(),
            final(self).handles().dom() == old(self).handles().dom().insert(
                KeyView::Pair(task@, owner@),
            ),
            final(self).handles()[KeyView::Pair(task@, owner@)].handle == handle,
            forall|k: KeyView|
                k != KeyView::Pair(task@, owner@) && old(self).handles().contains_key(k)
                    ==> #[trigger] final(self).handles()[k] == old(self).handles()[k],
    {
        match self.handles.find(Key::Pair(task.as_str(), owner.as_str())) {
            Some(i) => {
                let mut row: HandleRow = self.handles.remove_at(i);
                row.handle = handle;
                self.handles.insert_at(i, row);
            },
            None => {
                self.handles.push(HandleRow { task, owner, handle });
            },
        }
    }

    /// The session of the owner's task.
    pub fn load_external_handle(&self, owner: &str, task: &TaskCaseId) -> (r: Option<
        &SessionHandle,
    >)
        ensures
            match r {
                Some(handle) => self.handles().contains_key(KeyView::Pair(task.0@, owner@))
                    && *handle == self.handles()[KeyView::Pair(task.0@, owner@)].handle,
                None => !self.handles().contains_key(KeyView::Pair(task.0@, owner@)),
            },
    {
        match self.handles.get(Key::Pair(task.as_str(), owner)) {
            Some(row) => Some(&row.handle),
            None => None,
        }
    }

    /// Forgets the session of the owner's task, where there is one.
    pub fn delete_external_handle(&mut self, owner: &str, task: &TaskCaseId)
        ensures
            final(self).cases() == old(self).cases(),
            final(self).case_order() == old(self).case_order(),
            final(self).attempts() == old(self).attempts(),
            final(self).attempt_order() == old(self).attempt_order(),
            final(self).evidence() == old(self).evidence(),
            final(self).evidence_order() == old(self).evidence_order(),
            final(self).handles() == old(self).handles().remove(KeyView::Pair(task.0@, owner@)),
    {
        match self.handles.find(Key::Pair(task.as_str(), owner)) {
            Some(i) => {
                let _row: HandleRow = self.handles.remove_at(i);
            },
            None => {},
        }
    }

    /// The owner's cases, the newest first.
    pub fn list_cases_for_owner(&self, owner: &str) -> (r: Vec<&TaskCase>)
        ensures
            lists_cases(r@, self.case_order(), of_owner(owner@), true),
    {
        let mut found: Vec<Stamped> = Vec::new();
        let mut i: usize = 0;
        while i < self.cases.len()
            invariant
                i <= self.case_order().len(),
                collected(found@, self.case_order(), of_owner(owner@), i as int),
            decreases self.case_order().len() - i,
        {
            let row = self.cases.at(i);
            let ghost before = found@;
            if text::same(row.case.owner.as_str(), owner) {
                found.push(Stamped { position: i, stamp: row.case.created_at });
                proof {
                    lemma_collected_push(before, self.case_order(), of_owner(owner@), i as int, found@.last());
                }
            } else {
                proof {
                    lemma_collected_skip(before, self.case_order(), of_owner(owner@), i as int);
                }
            }
            i = i + 1;
        }
        self.cases_of(&found, true, Ghost(of_owner(owner@)))
    }

    /// The owner's cases with this parent, the oldest first.
    pub fn list_children(&self, owner: &str, parent: &TaskCaseId) -> (r: Vec<&TaskCase>)
        ensures
            lists_cases(r@, self.case_order(), child_of(owner@, parent.0@), false),
    {
        let mut found: Vec<Stamped> = Vec::new();
        let mut i: usize = 0;
        while i < self.cases.len()
            invariant
                i <= self.case_order().len(),
                collected(found@, self.case_order(), child_of(owner@, parent.0@), i as int),
            decreases self.case_order().len() - i,
        {
            let row = self.cases.at(i);
            let is_child: bool = text::same(row.case.owner.as_str(), owner) && match &row.case.parent {
                Some(link) => text::same(link.as_str(), parent.as_str()),
                None => false,
            };
            let ghost before = found@;
            if is_child {
                found.push(Stamped { position: i, stamp: row.case.created_at });
                proof {
                    lemma_collected_push(before, self.case_order(), child_of(owner@, parent.0@), i as int, found@.last());
                }
            } else {
                proof {
                    lemma_collected_skip(before, self.case_order(), child_of(owner@, parent.0@), i as int);
                }
            }
            i = i + 1;
        }
        self.cases_of(&found, false, Ghost(child_of(owner@, parent.0@)))
    }

    /// The cases at the places that were found, in order of time.
    fn cases_of(
        &self,
        found: &Vec<Stamped>,
        newest_first: bool,
        Ghost(asked): Ghost<spec_fn(CaseRow) -> bool>,
    ) -> (r: Vec<&TaskCase>)
        requires
            collected(found@, self.case_order(), asked, self.case_order().len() as int),
        ensures
            lists_cases(r@, self.case_order(), asked, newest_first),
    {
        let sorted: Vec<Stamped> = sort_by_time(found, newest_first);
        let mut out: Vec<&TaskCase> = Vec::new();
        let mut n: usize = 0;
        let ghost rows = self.case_order();
        while n < sorted.len()
            invariant
                n <= sorted@.len(),
                rows == self.case_order(),
                collected(found@, rows, asked, rows.len() as int),
                forall|i: int| 0 <= i < sorted@.len() ==> found@.contains(#[trigger] sorted@[i]),
                out@.len() == n,
                forall|i: int|
                    0 <= i < n ==> *#[trigger] out@[i] == rows[sorted@[i].position as int].case,
            decreases sorted@.len() - n,
        {
            proof {
                let j = choose|j: int| 0 <= j < found@.len() && found@[j] == sorted@[n as int];
                assert(found@.contains(sorted@[n as int]));
                assert(found@[j] == sorted@[n as int]);
            }
            out.push(&self.cases.at(sorted[n].position).case);
            n = n + 1;
        }
        proof {
            let places = Seq::new(sorted@.len(), |i: int| sorted@[i].position as int);
            lemma_covers(found@, sorted@, rows, asked, places);
            assert(cases_at(out@, rows, places));
            assert forall|i: int, j: int| 0 <= i < j < out@.len() implies if newest_first {
                #[trigger] out@[i].created_at >= #[trigger] out@[j].created_at
            } else {
                out@[i].created_at <= out@[j].created_at
            } by {
                assert(sorted@[i].stamp == rows[sorted@[i].position as int].case.created_at) by {
                    assert(found@.contains(sorted@[i]));
                }
                assert(sorted@[j].stamp == rows[sorted@[j].position as int].case.created_at) by {
                    assert(found@.contains(sorted@[j]));
                }
            }
        }
        out
    }

    /// The attempts at the owner's task, the oldest first.
    pub fn list_attempts_for_case(&self, owner: &str, task: &TaskCaseId) -> (r: Vec<&Attempt>)
        ensures
            lists_attempts(r@, self.attempt_order(), owner@, task.0@),
    {
        let ghost rows = self.attempt_order();
        let ghost asked = attempt_of(owner@, task.0@);
        let mut found: Vec<Stamped> = Vec::new();
        let mut i: usize = 0;
        while i < self.attempts.len()
            invariant
                i <= rows.len(),
                rows == self.attempt_order(),
                asked == attempt_of(owner@, task.0@),
                collected(found@, rows, asked, i as int),
            decreases rows.len() - i,
        {
            let row = self.attempts.at(i);
            let ghost before = found@;
            if text::same(row.owner.as_str(), owner) && text::same(
                row.attempt.task.as_str(),
                task.as_str(),
            ) {
                found.push(Stamped { position: i, stamp: row.attempt.started_at });
                proof {
                    lemma_collected_push(before, rows, asked, i as int, found@.last());
                }
            } else {
                proof {
                    lemma_collected_skip(before, rows, asked, i as int);
                }
            }
            i = i + 1;
        }
        let sorted: Vec<Stamped> = sort_by_time(&found, false);
        let mut out: Vec<&Attempt> = Vec::new();
        let mut n: usize = 0;
        while n < sorted.len()
            invariant
                n <= sorted@.len(),
                rows == self.attempt_order(),
                collected(found@, rows, asked, rows.len() as int),
                forall|i: int| 0 <= i < sorted@.len() ==> found@.contains(#[trigger] sorted@[i]),
                out@.len() == n,
                forall|i: int|
                    0 <= i < n ==> *#[trigger] out@[i] == rows[sorted@[i].position as int].attempt,
            decreases sorted@.len() - n,
        {
            assert(found@.contains(sorted@[n as int]));
            out.push(&self.attempts.at(sorted[n].position).attempt);
            n = n + 1;
        }
        proof {
            let places = Seq::new(sorted@.len(), |i: int| sorted@[i].position as int);
            lemma_covers(found@, sorted@, rows, asked, places);
            assert(attempts_at(out@, rows, places));
            assert forall|i: int, j: int| 0 <= i < j < out@.len() implies #[trigger] out@[i].started_at
                <= #[trigger] out@[j].started_at by {
                assert(found@.contains(sorted@[i]));
                assert(found@.contains(sorted@[j]));
            }
        }
        out
    }
}

/// The owner has an attempt of this name.
pub open spec fn owns_attempt(
    attempts: Map<KeyView, AttemptRow>,
    owner: Seq<char>,
    id: Seq<char>,
) -> bool {
    attempts.contains_key(KeyView::Text(id)) && attempts[KeyView::Text(id)].owner@ == owner
}

/// The attempts after one was appended: one of that name stays as it is.
pub open spec fn after_append(
    attempts: Map<KeyView, AttemptRow>,
    owner: String,
    attempt: Attempt,
) -> Map<KeyView, AttemptRow> {
    if attempts.contains_key(KeyView::Text(attempt.id.0@)) {
        attempts
    } else {
        attempts.insert(KeyView::Text(attempt.id.0@), AttemptRow { owner, attempt })
    }
}

/// The evidence after a piece was recorded: one of that name stays as it is.
pub open spec fn after_record(
    evidence: Map<KeyView, EvidenceRow>,
    owner: String,
    task: TaskCaseId,
    piece: Evidence,
) -> Map<KeyView, EvidenceRow> {
    if evidence.contains_key(KeyView::Text(piece.id.0@)) {
        evidence
    } else {
        evidence.insert(
            KeyView::Text(piece.id.0@),
            EvidenceRow { owner, task, evidence: piece },
        )
    }
}

/// Every case that an owner has is in the listing of the owner's cases, and nothing else is: as many
/// entries as the owner has cases, each of them one of these, the newest first.
pub proof fn an_owner_sees_all_their_cases(
    list: Seq<&TaskCase>,
    rows: Seq<CaseRow>,
    owner: Seq<char>,
    k: int,
)
    requires
        lists_cases(list, rows, of_owner(owner), true),
        0 <= k < rows.len(),
        rows[k].case.owner@ == owner,
    ensures
        exists|i: int| 0 <= i < list.len() && *#[trigger] list[i] == rows[k].case,
        forall|i: int| 0 <= i < list.len() ==> (#[trigger] list[i]).owner@ == owner,
        forall|i: int, j: int|
            0 <= i < j < list.len() ==> (#[trigger] list[i]).created_at >= (
            #[trigger] list[j]).created_at,
{
    lemma_listed(list, rows, of_owner(owner), k);
    lemma_only_listed(list, rows, of_owner(owner));
}

/// Every child of a parent is in the listing of its children, and nothing else is, the oldest first.
pub proof fn a_parent_sees_all_its_children(
    list: Seq<&TaskCase>,
    rows: Seq<CaseRow>,
    owner: Seq<char>,
    parent: Seq<char>,
    k: int,
)
    requires
        lists_cases(list, rows, child_of(owner, parent), false),
        0 <= k < rows.len(),
        rows[k].case.owner@ == owner,
        rows[k].case.parent matches Some(link) && link.0@ == parent,
    ensures
        exists|i: int| 0 <= i < list.len() && *#[trigger] list[i] == rows[k].case,
        forall|i: int|
            0 <= i < list.len() ==> (#[trigger] list[i]).owner@ == owner && (
            list[i].parent matches Some(link) && link.0@ == parent),
        forall|i: int, j: int|
            0 <= i < j < list.len() ==> (#[trigger] list[i]).created_at <= (
            #[trigger] list[j]).created_at,
{
    lemma_listed(list, rows, child_of(owner, parent), k);
    lemma_only_listed(list, rows, child_of(owner, parent));
}

/// What is asked for is listed.
proof fn lemma_listed(
    list: Seq<&TaskCase>,
    rows: Seq<CaseRow>,
    asked: spec_fn(CaseRow) -> bool,
    k: int,
)
    requires
        exists|places: Seq<int>| #[trigger]
            covers(places, rows, asked) && cases_at(list, rows, places),
        0 <= k < rows.len(),
        asked(rows[k]),
    ensures
        exists|i: int| 0 <= i < list.len() && *#[trigger] list[i] == rows[k].case,
{
    let places = choose|places: Seq<int>| #[trigger]
        covers(places, rows, asked) && cases_at(list, rows, places);
    assert(places.contains(k));
    let i = choose|i: int| 0 <= i < places.len() && places[i] == k;
    assert(*list[i] == rows[places[i]].case);
}

/// What is not asked for is not listed.
proof fn lemma_only_listed(
    list: Seq<&TaskCase>,
    rows: Seq<CaseRow>,
    asked: spec_fn(CaseRow) -> bool,
)
    requires
        exists|places: Seq<int>| #[trigger]
            covers(places, rows, asked) && cases_at(list, rows, places),
    ensures
        forall|i: int|
            0 <= i < list.len() ==> exists|k: int|
                {
                    &&& 0 <= k < rows.len()
                    &&& asked(#[trigger] rows[k])
                    &&& *(#[trigger] list[i]) == rows[k].case
                },
{
    let places = choose|places: Seq<int>| #[trigger]
        covers(places, rows, asked) && cases_at(list, rows, places);
    assert forall|i: int| 0 <= i < list.len() implies exists|k: int|
        {
            &&& 0 <= k < rows.len()
            &&& asked(#[trigger] rows[k])
            &&& *(#[trigger] list[i]) == rows[k].case
        } by {
        assert(*list[i] == rows[places[i]].case);
        assert(asked(rows[places[i]]));
    }
}

/// Every attempt at an owner's task is in the listing of its attempts, and nothing else is, the
/// oldest first.
pub proof fn a_task_sees_all_its_attempts(
    list: Seq<&Attempt>,
    rows: Seq<AttemptRow>,
    owner: Seq<char>,
    task: Seq<char>,
    k: int,
)
    requires
        lists_attempts(list, rows, owner, task),
        0 <= k < rows.len(),
        rows[k].owner@ == owner,
        rows[k].attempt.task.0@ == task,
    ensures
        exists|i: int| 0 <= i < list.len() && *#[trigger] list[i] == rows[k].attempt,
        forall|i: int| 0 <= i < list.len() ==> (#[trigger] list[i]).task.0@ == task,
        forall|i: int, j: int|
            0 <= i < j < list.len() ==> (#[trigger] list[i]).started_at <= (
            #[trigger] list[j]).started_at,
        list.len() > 0 && list.last().started_at >= rows[k].attempt.started_at,
{
    let asked = attempt_of(owner, task);
    let places = choose|places: Seq<int>| #[trigger]
        covers(places, rows, asked) && attempts_at(list, rows, places);
    assert(asked(rows[k]));
    assert(places.contains(k));
    let i = choose|i: int| 0 <= i < places.len() && places[i] == k;
    assert(*list[i] == rows[places[i]].attempt);
    assert forall|i: int| 0 <= i < list.len() implies (#[trigger] list[i]).task.0@ == task by {
        assert(*list[i] == rows[places[i]].attempt);
        assert(asked(rows[places[i]]));
    }
    if i < list.len() - 1 {
        assert(list[i].started_at <= list[list.len() - 1].started_at);
    }
}

/// An attempt and a piece of evidence of a new name are stored as they are, for their owner and
/// task; one of a name that is taken changes nothing.
pub proof fn what_is_appended_is_stored_once(
    attempts: Map<KeyView, AttemptRow>,
    evidence: Map<KeyView, EvidenceRow>,
    owner: String,
    attempt: Attempt,
    task: TaskCaseId,
    piece: Evidence,
)
    ensures
        ({
            let key = KeyView::Text(attempt.id.0@);
            let after = after_append(attempts, owner, attempt);
            &&& after.dom() == attempts.dom().insert(key)
            &&& forall|k: KeyView|
                attempts.contains_key(k) ==> #[trigger] after[k] == attempts[k]
            &&& !attempts.contains_key(key) ==> after[key].owner == owner && after[key].attempt
                == attempt
        }),
        ({
            let key = KeyView::Text(piece.id.0@);
            let after = after_record(evidence, owner, task, piece);
            &&& after.dom() == evidence.dom().insert(key)
            &&& forall|k: KeyView|
                evidence.contains_key(k) ==> #[trigger] after[k] == evidence[k]
            &&& !evidence.contains_key(key) ==> after[key].owner == owner && after[key].task == task
                && after[key].evidence == piece
        }),
{
    assert(after_append(attempts, owner, attempt).dom() =~= attempts.dom().insert(
        KeyView::Text(attempt.id.0@),
    ));
    assert(after_record(evidence, owner, task, piece).dom() =~= evidence.dom().insert(
        KeyView::Text(piece.id.0@),
    ));
}

} // verus!
