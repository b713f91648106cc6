//! Parents and children: a task that watches over others.
//!
//! A child is a case like any other, with a link to its parent. The parent lists its children,
//! cancels those that are not over, and counts what came of them. What one child comes to does
//! not touch another.
use vstd::prelude::*;
use crate::table::{distinct_keys, KeyView, Row};
use crate::task::contract::TaskCase;
use crate::task::memory::{child_of, keeps_places, lists_cases, MemoryTaskStore};
use crate::task::store::{after_create, with_status, CaseRow, Cases};
use crate::task::{may_become, terminal, StopReason, TaskCaseId, TaskStatus};
use crate::text;
use crate::types::BastionError;

verus! {

/// What came of a parent's children.
#[derive(Clone, Copy, Debug, PartialEq, Eq, Structural)]
pub struct ChildSummary {
    pub total: usize,
    pub succeeded: usize,
    /// Failed, escalated or cancelled.
    pub failed: usize,
    /// Not over yet.
    pub in_flight: usize,
}

impl Default for ChildSummary {
    fn default() -> (r: Self)
        ensures
            r == (ChildSummary { total: 0, succeeded: 0, failed: 0, in_flight: 0 }),
    {
        ChildSummary { total: 0, succeeded: 0, failed: 0, in_flight: 0 }
    }
}

/// Numbers of children.
pub struct ChildCount {
    pub total: nat,
    pub succeeded: nat,
    pub failed: nat,
    pub in_flight: nat,
}

/// One more child, with this status.
pub open spec fn counted(c: ChildCount, status: TaskStatus) -> ChildCount {
    if status == TaskStatus::Completed {
        ChildCount { total: c.total + 1, succeeded: c.succeeded + 1, ..c }
    } else if terminal(status) {
        ChildCount { total: c.total + 1, failed: c.failed + 1, ..c }
    } else {
        ChildCount { total: c.total + 1, in_flight: c.in_flight + 1, ..c }
    }
}

/// What came of the children among these cases.
pub open spec fn children_count(
    rows: Seq<CaseRow>,
    owner: Seq<char>,
    parent: Seq<char>,
) -> ChildCount
    decreases rows.len(),
{
    if rows.len() == 0 {
        ChildCount { total: 0, succeeded: 0, failed: 0, in_flight: 0 }
    } else {
        let earlier = children_count(rows.drop_last(), owner, parent);
        if child_of(owner, parent)(rows.last()) {
            counted(earlier, rows.last().case.status)
        } else {
            earlier
        }
    }
}

/// The case is a child that is not over.
pub open spec fn open_child(row: CaseRow, owner: Seq<char>, parent: Seq<char>) -> bool {
    child_of(owner, parent)(row) && !terminal(row.case.status)
}

/// A case after its parent was cancelled.
pub open spec fn swept_row(
    row: CaseRow,
    owner: Seq<char>,
    parent: Seq<char>,
    now: i64,
) -> CaseRow {
    if open_child(row, owner, parent) {
        with_status(
            row,
            TaskStatus::Cancelled,
            Some(StopReason::Cancelled),
            row.case.revision,
            now,
        )
    } else {
        row
    }
}

/// The cases after a parent was cancelled: its open children are cancelled, and every other case
/// is as it was.
pub open spec fn swept(cases: Cases, owner: Seq<char>, parent: Seq<char>, now: i64) -> Cases {
    cases.map_values(|row: CaseRow| swept_row(row, owner, parent, now))
}

/// Watches over the children of tasks.
pub struct Orchestrator {
    pub store: MemoryTaskStore,
}

impl Orchestrator {
    /// Watches over the tasks in a store.
    pub fn new(store: MemoryTaskStore) -> (r: Self)
        ensures
            r.store == store,
    {
        Orchestrator { store }
    }

    /// Puts a child under a parent. It must belong to the parent's owner and name the parent, so
    /// that no task is put under somebody else's.
    pub fn spawn_child(
        &mut self,
        parent: &TaskCase,
        child: TaskCase,
        idempotency_key: String,
        now: i64,
    ) -> (r: Result<(), BastionError>)
        ensures
            if child.owner@ != parent.owner@ {
                &&& r matches Err(BastionError::Failed(m))
                &&& m@ == "spawn_child: child owner must match parent owner"@
                &&& *final(self) == *old(self)
            } else if !(child.parent matches Some(link) && link.0@ == parent.id.0@) {
                &&& r matches Err(BastionError::Failed(m))
                &&& m@ == "spawn_child: child.parent must reference the parent case"@
                &&& *final(self) == *old(self)
            } else {
                &&& r is Ok
                &&& final(self).store.cases() == after_create(
                    old(self).store.cases(),
                    child,
                    idempotency_key,
                    now,
                )
                &&& final(self).store.same_beside_cases(old(self).store)
            },
    {
        if !text::same(child.owner.as_str(), parent.owner.as_str()) {
            return Err(
                BastionError::Failed(
                    "spawn_child: child owner must match parent owner".to_owned(),
                ),
            );
        }
        let linked: bool = match &child.parent {
            Some(link) => text::same(link.as_str(), parent.id.as_str()),
            None => false,
        };
        if !linked {
            return Err(
                BastionError::Failed(
                    "spawn_child: child.parent must reference the parent case".to_owned(),
                ),
            );
        }
        self.store.create_case(child, idempotency_key, now);
        Ok(())
    }

    /// The children of a parent, the oldest first.
    pub fn children(&self, owner: &str, parent: &TaskCaseId) -> (r: Vec<&TaskCase>)
        ensures
            lists_cases(r@, self.store.case_order(), child_of(owner@, parent.0@), false),
    {
        self.store.list_children(owner, parent)
    }

    /// Cancels the children of a parent that are not over, and says how many there were. What
    /// the others came to stays as it is.
    pub fn cancel_children(&mut self, owner: &str, parent: &TaskCaseId, now: i64) -> (r: usize)
        ensures
            final(self).store.cases() == swept(old(self).store.cases(), owner@, parent.0@, now),
            final(self).store.same_beside_cases(old(self).store),
            keeps_places(
                old(self).store.case_order(),
                final(self).store.case_order(),
                final(self).store.cases(),
            ),
            r == children_count(old(self).store.case_order(), owner@, parent.0@).in_flight,
    {
        let total: usize = self.store.case_count();
        let ghost rows = self.store.case_order();
        let ghost cases = self.store.cases();
        let ghost first = self.store;
        proof {
            assert forall|k: KeyView| #[trigger] cases.contains_key(k) implies exists|j: int|
                0 <= j < rows.len() && (#[trigger] rows[j]).key() == k && rows[j] == cases[k] by {
                let j = self.store.lemma_place_of_case(k);
                assert(rows[j].key() == k);
            }
        }
        let mut cancelled: usize = 0;
        let mut i: usize = 0;
        proof {
            assert forall|j: int| 0 <= j < rows.len() implies cases.contains_key(
                (#[trigger] rows[j]).key(),
            ) && cases[rows[j].key()] == rows[j] by {
                self.store.lemma_case_at_place(j);
            }
        }
        while i < total
            invariant
                i <= total == rows.len(),
                distinct_keys(rows),
                cases == first.cases(),
                rows == first.case_order(),
                forall|j: int|
                    0 <= j < rows.len() ==> cases.contains_key((#[trigger] rows[j]).key())
                        && cases[rows[j].key()] == rows[j],
                self.store.same_beside_cases(first),
                self.store.case_order().len() == rows.len(),
                forall|j: int|
                    0 <= j < rows.len() ==> (#[trigger] self.store.case_order()[j]).key()
                        == rows[j].key(),
                self.store.cases().dom() == cases.dom(),
                forall|j: int|
                    0 <= j < rows.len() ==> self.store.cases()[(#[trigger] rows[j]).key()] == if j
                        < i {
                        swept_row(rows[j], owner@, parent.0@, now)
                    } else {
                        rows[j]
                    },
                cancelled <= i,
                cancelled == children_count(rows.take(i as int), owner@, parent.0@).in_flight,
            decreases total - i,
        {
            proof {
                let next = rows.take(i + 1);
                assert(next.drop_last() =~= rows.take(i as int));
                assert(next.last() == rows[i as int]);
            }
            let ghost before = self.store;
            let case = self.store.case_at(i);
            assert(before.case_order()[i as int].key() == rows[i as int].key());
            assert(*case == rows[i as int].case);
            let is_child: bool = text::same(case.owner.as_str(), owner) && match &case.parent {
                Some(link) => text::same(link.as_str(), parent.as_str()),
                None => false,
            };
            if is_child && !case.is_terminal() {
                let id: TaskCaseId = case.id.clone();
                let revision: u64 = case.revision;
                let r = self.store.transition_status(
                    owner,
                    &id,
                    TaskStatus::Cancelled,
                    Some(StopReason::Cancelled),
                    revision,
                    now,
                );
                assert(r is Ok);
                cancelled = cancelled + 1;
                proof {
                    assert forall|j: int| 0 <= j < rows.len() implies (#[trigger] self.store.case_order()[j]).key()
                        == rows[j].key() by {
                        assert(before.case_order()[j].key() == rows[j].key());
                    }
                    assert forall|j: int| 0 <= j < rows.len() implies self.store.cases()[(
                    #[trigger] rows[j]).key()] == if j < i + 1 {
                        swept_row(rows[j], owner@, parent.0@, now)
                    } else {
                        rows[j]
                    } by {
                        if j < i {
                            assert(rows[j].key() != rows[i as int].key());
                        } else if j > i {
                            assert(rows[i as int].key() != rows[j].key());
                        }
                    }
                    assert(self.store.cases().dom() =~= cases.dom());
                }
            }
            i = i + 1;
        }
        proof {
            assert(rows.take(rows.len() as int) =~= rows);
            let after = swept(cases, owner@, parent.0@, now);
            assert forall|k: KeyView| #[trigger] cases.contains_key(k) implies self.store.cases()[k]
                == after[k] by {
                let j = choose|j: int|
                    0 <= j < rows.len() && (#[trigger] rows[j]).key() == k && rows[j] == cases[k];
                assert(self.store.cases()[rows[j].key()] == swept_row(
                    rows[j],
                    owner@,
                    parent.0@,
                    now,
                ));
            }
            assert(self.store.cases() =~= after);
            let order = self.store.case_order();
            assert(distinct_keys(order)) by {
                assert forall|a: int, b: int| 0 <= a < b < order.len() implies #[trigger] order[a].key()
                    != #[trigger] order[b].key() by {
                    assert(rows[a].key() != rows[b].key());
                }
            }
            assert forall|j: int| 0 <= j < order.len() implies (#[trigger] order[j]).key()
                == rows[j].key() && self.store.cases().contains_key(order[j].key()) && order[j]
                == self.store.cases()[order[j].key()] by {
                self.store.lemma_case_at_place(j);
            }
        }
        cancelled
    }

    /// What came of the children of a parent.
    pub fn summarize_children(&self, owner: &str, parent: &TaskCaseId) -> (r: ChildSummary)
        ensures
            ({
                let c = children_count(self.store.case_order(), owner@, parent.0@);
                r.total == c.total && r.succeeded == c.succeeded && r.failed == c.failed
                    && r.in_flight == c.in_flight
            }),
    {
        let total: usize = self.store.case_count();
        let ghost rows = self.store.case_order();
        let mut s: ChildSummary = ChildSummary::default();
        let mut i: usize = 0;
        while i < total
            invariant
                i <= total == rows.len(),
                rows == self.store.case_order(),
                s.total <= i && s.succeeded <= i && s.failed <= i && s.in_flight <= i,
                ({
                    let c = children_count(rows.take(i as int), owner@, parent.0@);
                    s.total == c.total && s.succeeded == c.succeeded && s.failed == c.failed
                        && s.in_flight == c.in_flight
                }),
            decreases total - i,
        {
            proof {
                let next = rows.take(i + 1);
                assert(next.drop_last() =~= rows.take(i as int));
                assert(next.last() == rows[i as int]);
            }
            let case = self.store.case_at(i);
            let is_child: bool = text::same(case.owner.as_str(), owner) && match &case.parent {
                Some(link) => text::same(link.as_str(), parent.as_str()),
                None => false,
            };
            if is_child {
                s.total = s.total + 1;
                match case.status {
                    TaskStatus::Completed => {
                        s.succeeded = s.succeeded + 1;
                    },
                    TaskStatus::Failed | TaskStatus::Escalated | TaskStatus::Cancelled => {
                        s.failed = s.failed + 1;
                    },
                    _ => {
                        s.in_flight = s.in_flight + 1;
                    },
                }
            }
            i = i + 1;
        }
        assert(rows.take(rows.len() as int) =~= rows);
        s
    }
}

/// Every child is counted once: succeeded, failed or still under way.
pub proof fn every_child_is_counted_once(rows: Seq<CaseRow>, owner: Seq<char>, parent: Seq<char>)
    ensures
        ({
            let c = children_count(rows, owner, parent);
            c.total == c.succeeded + c.failed + c.in_flight
        }),
    decreases rows.len(),
{
    if rows.len() > 0 {
        every_child_is_counted_once(rows.drop_last(), owner, parent);
    }
}

/// Cancelling a parent leaves alone what is not one of its open children: other owners' tasks,
/// other parents' children, and children that are over.
pub proof fn cancelling_touches_open_children_only(
    row: CaseRow,
    owner: Seq<char>,
    parent: Seq<char>,
    now: i64,
)
    ensures
        !open_child(row, owner, parent) ==> swept_row(row, owner, parent, now) == row,
        open_child(row, owner, parent) ==> {
            &&& swept_row(row, owner, parent, now).case.status == TaskStatus::Cancelled
            &&& may_become(row.case.status, TaskStatus::Cancelled)
            &&& swept_row(row, owner, parent, now).case.attempts == row.case.attempts
        },
        !open_child(swept_row(row, owner, parent, now), owner, parent),
{
}

/// After a parent was cancelled none of its children is under way, and as many have not succeeded
/// as had not or were under way.
pub proof fn a_cancelled_parent_has_no_child_under_way(
    rows: Seq<CaseRow>,
    after: Seq<CaseRow>,
    owner: Seq<char>,
    parent: Seq<char>,
    now: i64,
)
    requires
        after.len() == rows.len(),
        forall|i: int|
            0 <= i < rows.len() ==> #[trigger] after[i] == swept_row(rows[i], owner, parent, now),
    ensures
        ({
            let c = children_count(rows, owner, parent);
            let d = children_count(after, owner, parent);
            &&& d.in_flight == 0
            &&& d.total == c.total
            &&& d.succeeded == c.succeeded
            &&& d.failed == c.failed + c.in_flight
        }),
    decreases rows.len(),
{
    if rows.len() > 0 {
        let n = rows.len() - 1;
        assert(after[n] == swept_row(rows[n], owner, parent, now));
        assert forall|i: int| 0 <= i < rows.drop_last().len() implies #[trigger] after.drop_last()[i]
            == swept_row(rows.drop_last()[i], owner, parent, now) by {
            assert(after[i] == swept_row(rows[i], owner, parent, now));
        }
        a_cancelled_parent_has_no_child_under_way(
            rows.drop_last(),
            after.drop_last(),
            owner,
            parent,
            now,
        );
    }
}

/// The children are counted as what they are: all cases of the owner that name the parent, those
/// that completed as succeeded, those that failed, escalated or were cancelled as failed, and the
/// rest as under way.
pub proof fn children_are_counted_by_their_status(
    rows: Seq<CaseRow>,
    owner: Seq<char>,
    parent: Seq<char>,
)
    ensures
        ({
            let c = children_count(rows, owner, parent);
            let children = rows.filter(
                |row: CaseRow|
                    row.case.owner@ == owner && (row.case.parent matches Some(link) && link.0@
                        == parent),
            );
            &&& c.total == children.len()
            &&& c.succeeded == children.filter(
                |row: CaseRow| row.case.status == TaskStatus::Completed,
            ).len()
            &&& c.failed == children.filter(
                |row: CaseRow|
                    row.case.status == TaskStatus::Failed || row.case.status
                        == TaskStatus::Escalated || row.case.status == TaskStatus::Cancelled,
            ).len()
        }),
    decreases rows.len(),
{
    reveal(Seq::filter);
    let child = |row: CaseRow|
        row.case.owner@ == owner && (row.case.parent matches Some(link) && link.0@ == parent);
    let succeeded = |row: CaseRow| row.case.status == TaskStatus::Completed;
    let failed = |row: CaseRow|
        row.case.status == TaskStatus::Failed || row.case.status == TaskStatus::Escalated
            || row.case.status == TaskStatus::Cancelled;
    if rows.len() > 0 {
        children_are_counted_by_their_status(rows.drop_last(), owner, parent);
        let earlier = rows.drop_last().filter(child);
        assert(earlier.push(rows.last()).drop_last() =~= earlier);
        assert(child(rows.last()) <==> child_of(owner, parent)(rows.last()));
        if child(rows.last()) {
            assert(rows.filter(child) =~= earlier.push(rows.last()));
        }
    }
}

/// A child that is under way is cancelled with its parent, for that reason, and otherwise stays as it
/// is; nothing else is touched.
pub proof fn a_child_is_cancelled_with_its_parent(
    row: CaseRow,
    owner: Seq<char>,
    parent: Seq<char>,
    now: i64,
)
    ensures
        ({
            let after = swept_row(row, owner, parent, now);
            let child = row.case.owner@ == owner && (row.case.parent matches Some(link) && link.0@
                == parent);
            if child && !terminal(row.case.status) {
                &&& after.case.status == TaskStatus::Cancelled
                &&& after.case.stop_reason == Some(StopReason::Cancelled)
                &&& after.case.updated_at == now
                &&& after.case.id == row.case.id && after.case.owner == row.case.owner
                &&& after.case.usage == row.case.usage
                &&& after.case.parent == row.case.parent
            } else {
                after == row
            }
        }),
{
}

} // verus!
