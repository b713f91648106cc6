//! The permission queue: what a runtime outside the host asks leave for.
//!
//! A request waits for a decision of its owner. It is decided once: the first decision stands,
//! and a decision by anybody else, or a second one, is an error and changes nothing.
use vstd::prelude::*;
use crate::table::{by_key, distinct_keys, in_place, lemma_filtered, Key, KeyView, Row, Table};
use crate::task::store::SessionHandle;
use crate::text;
use crate::text::{decimal, decimal_int};
use crate::types::{BastionError, DenyScope};

verus! {

/// What a runtime wants to do.
#[derive(Clone, Copy, Debug, PartialEq, Eq, Structural)]
pub enum PermissionAction {
    RunCommand,
    WriteFile,
    UseTool,
    Network,
}

/// What the owner says to it.
#[derive(Clone, Copy, Debug, PartialEq, Eq, Structural)]
pub enum PermissionDecision {
    Allow,
    Deny { scope: DenyScope },
}

/// The number under which a runtime asks.
#[derive(Clone, Copy, Debug, PartialEq, Eq, Structural)]
pub struct PermissionRequestId(pub u64);

/// A request as it stands in the queue.
#[derive(Debug, PartialEq)]
pub struct PendingPermission {
    pub row_id: i64,
    pub id: PermissionRequestId,
    pub owner: String,
    pub session: SessionHandle,
    pub action: PermissionAction,
    pub detail: String,
    pub raised_at: i64,
    pub expires_at: i64,
}

/// A decision, and when it was taken.
#[derive(Clone, Copy, Debug, PartialEq, Eq, Structural)]
pub struct Resolution {
    pub decision: PermissionDecision,
    pub resolved_at: i64,
}

/// A request and what became of it.
#[derive(Debug, PartialEq)]
pub struct PermissionRow {
    pub request: PendingPermission,
    pub resolution: Option<Resolution>,
}

impl Row for PermissionRow {
    open spec fn key(&self) -> KeyView {
        KeyView::Number(self.request.row_id as int)
    }

    fn has_key(&self, key: Key) -> bool {
        match key {
            Key::Number(id) => self.request.row_id == id,
            _ => false,
        }
    }
}

/// The rows of a queue by their numbers.
pub type PermissionRows = Map<KeyView, PermissionRow>;

/// The row waits for this owner's decision.
pub open spec fn waits_for(row: PermissionRow, owner: Seq<char>) -> bool {
    row.resolution is None && row.request.owner@ == owner
}

/// The owner can decide this row: it is there, it is the owner's, and nobody has decided it.
pub open spec fn decidable(rows: PermissionRows, owner: Seq<char>, row_id: i64) -> bool {
    &&& rows.contains_key(KeyView::Number(row_id as int))
    &&& waits_for(rows[KeyView::Number(row_id as int)], owner)
}

/// The rows that wait for this owner's decision, in their order.
pub open spec fn waiting_rows(order: Seq<PermissionRow>, owner: Seq<char>) -> Seq<PermissionRow> {
    order.filter(|row: PermissionRow| waits_for(row, owner))
}

/// What the queue says where it cannot take a decision.
pub open spec fn undecidable_text(row_id: i64) -> Seq<char> {
    "permission_queue row "@ + decimal_int(row_id as int)
        + " not found for owner (or already resolved) — IDOR guard / race-lost, no row resolved"@
}

/// The rows after a decision: where the owner can decide the row, it is decided, and nothing
/// else has changed.
pub open spec fn after_decision(
    rows: PermissionRows,
    owner: Seq<char>,
    row_id: i64,
    resolution: Resolution,
) -> PermissionRows {
    let key = KeyView::Number(row_id as int);
    if decidable(rows, owner, row_id) {
        rows.insert(
            key,
            PermissionRow { request: rows[key].request, resolution: Some(resolution) },
        )
    } else {
        rows
    }
}

/// A permission queue in memory.
pub struct MemoryPermissionGate {
    rows: Table<PermissionRow>,
    next_id: i64,
}

impl MemoryPermissionGate {
    /// Every number given out so far is smaller than the next one.
    #[verifier::type_invariant]
    closed spec fn inv(self) -> bool {
        forall|k: KeyView| #[trigger]
            self.rows@.contains_key(k) ==> (k matches KeyView::Number(n) && n < self.next_id)
    }

    /// The rows by their numbers.
    pub closed spec fn rows(self) -> PermissionRows {
        self.rows@
    }

    /// The rows in the order in which they were queued.
    pub closed spec fn order(self) -> Seq<PermissionRow> {
        self.rows.order()
    }

    /// The number of the next row.
    pub closed spec fn next(self) -> i64 {
        self.next_id
    }

    /// An empty queue.
    pub fn new() -> (r: Self)
        ensures
            r.rows() == PermissionRows::empty(),
            r.order() == Seq::<PermissionRow>::empty(),
            r.next() == 1,
    {
        MemoryPermissionGate { rows: Table::new(), next_id: 1 }
    }

    /// Puts a request in the queue, under the next number, unless there is none left.
    pub fn enqueue(
        &mut self,
        owner_id: &str,
        session: &SessionHandle,
        id: PermissionRequestId,
        action: PermissionAction,
        detail: &str,
        raised_at: i64,
        expires_at: i64,
    ) -> (r: Result<i64, BastionError>)
        ensures
            if old(self).next() == i64::MAX {
                &&& r matches Err(BastionError::Failed(m))
                &&& m@ == "permission queue is full"@
                &&& *final(self) == *old(self)
            } else {
                let row_id = old(self).next();
                let key = KeyView::Number(row_id as int);
                let row = final(self).rows()[key];
                &&& r == Ok::<i64, BastionError>(row_id)
                &&& !old(self).rows().contains_key(key)
                &&& final(self).rows() == old(self).rows().insert(key, row)
                &&& final(self).order() == old(self).order().push(row)
                &&& final(self).next() == row_id + 1
                &&& row.resolution is None
                &&& row.request == (PendingPermission {
                    row_id,
                    id,
                    owner: row.request.owner,
                    session: *session,
                    action,
                    detail: row.request.detail,
                    raised_at,
                    expires_at,
                })
                &&& row.request.owner@ == owner_id@
                &&& row.request.detail@ == detail@
            },
    {
        proof {
            use_type_invariant(&*self);
        }
        let row_id: i64 = self.next_id;
        if row_id == i64::MAX {
            return Err(BastionError::Failed("permission queue is full".to_owned()));
        }
        let row: PermissionRow = PermissionRow {
            request: PendingPermission {
                row_id,
                id,
                owner: owner_id.to_owned(),
                session: session.clone(),
                action,
                detail: detail.to_owned(),
                raised_at,
                expires_at,
            },
            resolution: None,
        };
        let mut rows: Table<PermissionRow> = Table::new();
        std::mem::swap(&mut rows, &mut self.rows);
        self.next_id = row_id + 1;
        rows.push(row);
        self.rows = rows;
        Ok(row_id)
    }

    /// The owner's requests that wait for a decision, in the order in which they were queued.
    pub fn pending_for_owner(&self, owner_id: &str) -> (r: Vec<&PendingPermission>)
        ensures
            r@.len() == waiting_rows(self.order(), owner_id@).len(),
            forall|i: int|
                0 <= i < r@.len() ==> *#[trigger] r@[i] == waiting_rows(
                    self.order(),
                    owner_id@,
                )[i].request,
            distinct_keys(self.order()),
            self.rows() == by_key(self.order()),
    {
        let ghost waiting = |row: PermissionRow| waits_for(row, owner_id@);
        let mut out: Vec<&PendingPermission> = Vec::new();
        let mut i: usize = 0;
        assert(self.order().take(0).filter(waiting) =~= Seq::<PermissionRow>::empty()) by {
            reveal(Seq::filter);
        }
        while i < self.rows.len()
            invariant
                i <= self.order().len(),
                waiting == (|row: PermissionRow| waits_for(row, owner_id@)),
                out@.len() == self.order().take(i as int).filter(waiting).len(),
                forall|j: int|
                    0 <= j < out@.len() ==> *#[trigger] out@[j] == self.order().take(
                        i as int,
                    ).filter(waiting)[j].request,
            decreases self.order().len() - i,
        {
            proof {
                reveal(Seq::filter);
                let next = self.order().take(i + 1);
                assert(next.drop_last() =~= self.order().take(i as int));
                assert(next.last() == self.order()[i as int]);
            }
            let row = self.rows.at(i);
            if row.resolution.is_none() && text::same(row.request.owner.as_str(), owner_id) {
                out.push(&row.request);
            }
            i = i + 1;
        }
        assert(self.order().take(self.order().len() as int) =~= self.order());
        proof {
            self.rows.lemma_view();
        }
        out
    }

    /// Takes the owner's decision on a request. The first decision stands.
    pub fn resolve(
        &mut self,
        owner_id: &str,
        row_id: i64,
        decision: PermissionDecision,
        now: i64,
    ) -> (r: Result<&PendingPermission, BastionError>)
        ensures
            final(self).next() == old(self).next(),
            final(self).rows() == after_decision(
                old(self).rows(),
                owner_id@,
                row_id,
                Resolution { decision, resolved_at: now },
            ),
            if decidable(old(self).rows(), owner_id@, row_id) {
                &&& final(self).order() == in_place(old(self).order(), final(self).rows())
                &&& r matches Ok(request)
                &&& *request == old(self).rows()[KeyView::Number(row_id as int)].request
            } else {
                &&& r matches Err(BastionError::Failed(m))
                &&& m@ == undecidable_text(row_id)
                &&& *final(self) == *old(self)
            },
    {
        proof {
            use_type_invariant(&*self);
        }
        let place: Option<usize> = match self.rows.find(Key::Number(row_id)) {
            Some(i) => {
                let row = self.rows.at(i);
                if row.resolution.is_none() && text::same(row.request.owner.as_str(), owner_id) {
                    Some(i)
                } else {
                    None
                }
            },
            None => None,
        };
        match place {
            Some(i) => {
                let ghost before = self.rows@;
                let ghost places = self.order();
                let mut rows: Table<PermissionRow> = Table::new();
                std::mem::swap(&mut rows, &mut self.rows);
                let mut row: PermissionRow = rows.remove_at(i);
                row.resolution = Some(Resolution { decision, resolved_at: now });
                rows.insert_at(i, row);
                assert(rows@ =~= before.insert(KeyView::Number(row_id as int), row));
                assert(rows.order() =~= in_place(places, rows@));
                self.rows = rows;
                Ok(&self.rows.at(i).request)
            },
            None => {
                let mut message: String = "permission_queue row ".to_owned();
                text::push_decimal_i64(&mut message, row_id);
                message.append(
                    " not found for owner (or already resolved) — IDOR guard / race-lost, no row resolved",
                );
                Err(BastionError::Failed(message))
            },
        }
    }
}

/// A request that waits for its owner's decision is listed, wherever it stands, and nothing else
/// is.
pub proof fn a_request_that_waits_is_listed(
    order: Seq<PermissionRow>,
    owner: Seq<char>,
    row: PermissionRow,
)
    requires
        distinct_keys(order),
    ensures
        waiting_rows(order, owner).contains(row) <==> {
            &&& by_key(order).contains_key(row.key())
            &&& by_key(order)[row.key()] == row
            &&& waits_for(row, owner)
        },
{
    lemma_filtered(order, |row: PermissionRow| waits_for(row, owner), row);
}

/// Stands in where no queue is wired: no request can wait, so each is denied at once.
pub struct NullPermissionGate;

impl NullPermissionGate {
    /// Refuses every request.
    pub fn enqueue(
        &self,
        owner_id: &str,
        session: &SessionHandle,
        id: PermissionRequestId,
        action: PermissionAction,
        detail: &str,
        raised_at: i64,
        expires_at: i64,
    ) -> (r: Result<i64, BastionError>)
        ensures
            r matches Err(BastionError::Failed(m)) && m@
                == "permission request PermissionRequestId("@ + decimal(id.0 as nat)
                + ") cannot be queued — no PermissionGate is wired (fail-closed immediate deny)"@,
    {
        let mut message: String = "permission request PermissionRequestId(".to_owned();
        text::push_decimal(&mut message, id.0);
        message.append(
            ") cannot be queued — no PermissionGate is wired (fail-closed immediate deny)",
        );
        Err(BastionError::Failed(message))
    }

    /// Nothing waits.
    pub fn pending_for_owner(&self, owner_id: &str) -> (r: Vec<&PendingPermission>)
        ensures
            r@.len() == 0,
    {
        Vec::new()
    }

    /// There is nothing to decide.
    pub fn resolve(&self, owner_id: &str, row_id: i64, decision: PermissionDecision) -> (r: Result<
        PendingPermission,
        BastionError,
    >)
        ensures
            r matches Err(BastionError::Failed(m)) && m@
                == "no PermissionGate is wired — cannot resolve permission request "@
                + decimal_int(row_id as int),
    {
        let mut message: String = "no PermissionGate is wired — cannot resolve permission request ".to_owned();
        text::push_decimal_i64(&mut message, row_id);
        Err(BastionError::Failed(message))
    }
}

/// The first decision stands: once a request is decided, no later decision on the same row
/// changes it, whoever takes it.
pub proof fn the_first_decision_on_a_request_stands(
    rows: PermissionRows,
    owner: Seq<char>,
    row_id: i64,
    first: Resolution,
    somebody: Seq<char>,
    second: Resolution,
)
    requires
        decidable(rows, owner, row_id),
    ensures
        ({
            let decided = after_decision(rows, owner, row_id, first);
            &&& !decidable(decided, somebody, row_id)
            &&& after_decision(decided, somebody, row_id, second) == decided
            &&& decided[KeyView::Number(row_id as int)].resolution == Some(first)
        }),
{
}

/// Nobody decides what another owner was asked: a decision by somebody else changes nothing,
/// and the owner can still decide.
pub proof fn a_foreign_request_cannot_be_decided(
    rows: PermissionRows,
    owner: Seq<char>,
    row_id: i64,
    somebody: Seq<char>,
    resolution: Resolution,
)
    requires
        decidable(rows, owner, row_id),
        somebody != owner,
    ensures
        !decidable(rows, somebody, row_id),
        decidable(after_decision(rows, somebody, row_id, resolution), owner, row_id),
{
}

/// A decision concerns one request: every other row stays as it is.
pub proof fn a_decision_concerns_one_request(
    rows: PermissionRows,
    owner: Seq<char>,
    row_id: i64,
    resolution: Resolution,
    other: KeyView,
)
    requires
        rows.contains_key(other),
        other != KeyView::Number(row_id as int),
    ensures
        after_decision(rows, owner, row_id, resolution).contains_key(other),
        after_decision(rows, owner, row_id, resolution)[other] == rows[other],
{
}

/// What waits is listed in the order in which it was queued: a new request that waits for the owner
/// comes last, and any other row changes nothing in the listing.
pub proof fn a_request_queued_last_is_listed_last(
    order: Seq<PermissionRow>,
    row: PermissionRow,
    owner: Seq<char>,
)
    ensures
        waiting_rows(order.push(row), owner) == if row.resolution is None && row.request.owner@
            == owner {
            waiting_rows(order, owner).push(row)
        } else {
            waiting_rows(order, owner)
        },
        waiting_rows(Seq::<PermissionRow>::empty(), owner).len() == 0,
{
    reveal(Seq::filter);
    assert(order.push(row).drop_last() =~= order);
}

/// A decision is kept with what was decided and when, and the request stays as it was asked; it is
/// then listed no more.
pub proof fn a_decision_is_kept(
    rows: PermissionRows,
    owner: Seq<char>,
    row_id: i64,
    resolution: Resolution,
)
    requires
        rows.contains_key(KeyView::Number(row_id as int)),
        rows[KeyView::Number(row_id as int)].resolution is None,
        rows[KeyView::Number(row_id as int)].request.owner@ == owner,
    ensures
        ({
            let key = KeyView::Number(row_id as int);
            let after = after_decision(rows, owner, row_id, resolution);
            &&& after[key].resolution == Some(resolution)
            &&& after[key].request == rows[key].request
            &&& after.dom() == rows.dom()
            &&& !waits_for(after[key], owner)
        }),
{
    let key = KeyView::Number(row_id as int);
    assert(after_decision(rows, owner, row_id, resolution).dom() =~= rows.dom());
}

} // verus!
