//! The approval queue: actions that wait for their owner's word.
//!
//! An action is the capability, the owner and the arguments; the same action has the same row,
//! however often it is asked for. The owner approves or rejects it; an approved one runs once,
//! and its result is kept for every later request. A rejection is reported once as such, and
//! after that like a result.
use vstd::prelude::*;
use vstd::utf8::{
    char_u32_cast, encode_scalar, encode_utf8, encode_utf8_decode_utf8, has_width_1_encoding,
    last_continuation_byte, leading_byte_width_1, leading_byte_width_2, leading_byte_width_3,
    leading_byte_width_4, second_last_continuation_byte, third_last_continuation_byte,
};
use sha2::Digest;
use crate::json;
use crate::json::{Fields, JsonTree};
use crate::table::{by_key, distinct_keys, in_place, lemma_filtered, Key, KeyView, Row, Table};
use crate::text;
use crate::text::{decimal_int, hex_digit};
use crate::types::{BastionError, DenyScope};

verus! {

/// Where an action stands with its owner.
#[derive(Clone, Copy, Debug, PartialEq, Eq, Structural)]
pub enum ApprovalStatus {
    Pending,
    Approved,
    Rejected,
    Expired,
}

/// The text under which a status is stored.
pub open spec fn approval_status_text(status: ApprovalStatus) -> Seq<char> {
    match status {
        ApprovalStatus::Pending => "pending"@,
        ApprovalStatus::Approved => "approved"@,
        ApprovalStatus::Rejected => "rejected"@,
        ApprovalStatus::Expired => "expired"@,
    }
}

impl ApprovalStatus {
    /// The text under which this status is stored.
    pub fn as_sql_str(self) -> (r: &'static str)
        ensures
            r@ == approval_status_text(self),
    {
        match self {
            ApprovalStatus::Pending => "pending",
            ApprovalStatus::Approved => "approved",
            ApprovalStatus::Rejected => "rejected",
            ApprovalStatus::Expired => "expired",
        }
    }

    /// The status that is stored under this text; `None` where there is none.
    pub fn from_sql_str(text: &str) -> (r: Option<ApprovalStatus>)
        ensures
            match r {
                Some(status) => approval_status_text(status) == text@,
                None => forall|status: ApprovalStatus|
                    #[trigger] approval_status_text(status) != text@,
            },
    {
        if text::same(text, "pending") {
            Some(ApprovalStatus::Pending)
        } else if text::same(text, "approved") {
            Some(ApprovalStatus::Approved)
        } else if text::same(text, "rejected") {
            Some(ApprovalStatus::Rejected)
        } else if text::same(text, "expired") {
            Some(ApprovalStatus::Expired)
        } else {
            None
        }
    }
}

/// One action in the queue.
#[derive(Debug, PartialEq)]
pub struct ApprovalRow {
    pub id: i64,
    pub owner_id: String,
    pub capability_name: String,
    pub args_json: String,
    pub idempotency_hash: String,
    pub status: ApprovalStatus,
    pub result_json: Option<String>,
    pub created_at: i64,
    pub resolved_at: Option<i64>,
    pub executed_at: Option<i64>,
}

impl Row for ApprovalRow {
    open spec fn key(&self) -> KeyView {
        KeyView::Number(self.id as int)
    }

    fn has_key(&self, key: Key) -> bool {
        match key {
            Key::Number(id) => self.id == id,
            _ => false,
        }
    }
}

/// What the queue says to a request.
#[derive(Debug, PartialEq)]
pub enum ApprovalOutcome {
    /// It ran already; this was its result.
    AlreadyExecuted(serde_json::Value),
    /// The owner has not said anything yet.
    AlreadyPending,
    /// The owner approved it, and it is to be run now.
    ApprovedPendingExecution(i64),
    /// The owner rejected it.
    Rejected(DenyScope),
    /// It was put in the queue under this number.
    NewlyQueued(i64),
}

/// The SHA-256 digest of a sequence of bytes.
pub uninterp spec fn sha256(bytes: Seq<u8>) -> Seq<u8>;

/// `sha2::Sha256::digest`: the SHA-256 digest of the bytes, which has thirty-two bytes.
#[verifier::external_body]
fn digest(bytes: &Vec<u8>) -> (r: Vec<u8>)
    ensures
        r@ == sha256(bytes@),
        r@.len() == 32,
{
    sha2::Sha256::digest(bytes).to_vec()
}

/// Bytes in hexadecimal notation, two digits each.
pub open spec fn hex(bytes: Seq<u8>) -> Seq<char>
    decreases bytes.len(),
{
    if bytes.len() == 0 {
        Seq::empty()
    } else {
        hex(bytes.drop_last()).push(hex_digit(bytes.last() as int / 16)).push(
            hex_digit(bytes.last() as int % 16),
        )
    }
}

/// Bytes in hexadecimal notation.
pub fn hex_of(bytes: &Vec<u8>) -> (r: String)
    ensures
        r@ == hex(bytes@),
{
    let mut out: String = String::new();
    let mut i: usize = 0;
    while i < bytes.len()
        invariant
            i <= bytes@.len(),
            out@ == hex(bytes@.take(i as int)),
        decreases bytes@.len() - i,
    {
        proof {
            let next = bytes@.take(i + 1);
            assert(next.drop_last() =~= bytes@.take(i as int));
            assert(next.last() == bytes@[i as int]);
        }
        let b: u8 = bytes[i];
        text::push_hex_digit(&mut out, b / 16);
        text::push_hex_digit(&mut out, b % 16);
        i = i + 1;
    }
    assert(bytes@.take(bytes@.len() as int) =~= bytes@);
    out
}

/// The bytes by which an action is known: its capability, its owner and its arguments as text,
/// with a zero byte between them.
pub open spec fn action_bytes(capability: Seq<char>, owner: Seq<char>, args: Seq<char>) -> Seq<u8> {
    encode_utf8(capability) + seq![0u8] + encode_utf8(owner) + seq![0u8] + encode_utf8(args)
}

/// Appends the bytes of a text.
fn push_bytes(out: &mut Vec<u8>, s: &str)
    ensures
        final(out)@ == old(out)@ + encode_utf8(s@),
{
    let bytes: &[u8] = s.as_bytes();
    let mut i: usize = 0;
    while i < bytes.len()
        invariant
            i <= bytes@.len(),
            bytes@ == encode_utf8(s@),
            out@ == old(out)@ + bytes@.take(i as int),
        decreases bytes@.len() - i,
    {
        out.push(bytes[i]);
        assert(bytes@.take(i + 1) =~= bytes@.take(i as int).push(bytes@[i as int]));
        i = i + 1;
    }
    assert(bytes@.take(bytes@.len() as int) =~= bytes@);
}

/// The bytes by which an action is known.
pub fn action_key(capability_name: &str, args_text: &str, owner: &str) -> (r: Vec<u8>)
    ensures
        r@ == action_bytes(capability_name@, owner@, args_text@),
{
    let mut out: Vec<u8> = Vec::new();
    push_bytes(&mut out, capability_name);
    out.push(0);
    push_bytes(&mut out, owner);
    out.push(0);
    push_bytes(&mut out, args_text);
    assert(out@ =~= action_bytes(capability_name@, owner@, args_text@));
    out
}

/// The key of an action in the queue.
pub open spec fn action_hash(capability: Seq<char>, args: JsonTree, owner: Seq<char>) -> Seq<char> {
    hex(sha256(action_bytes(capability, owner, json::printed(args))))
}

/// The key of an action in the queue: the same capability, arguments and owner always have the
/// same one.
pub fn compute_hash(capability_name: &str, args: &serde_json::Value, owner: &str) -> (r: String)
    ensures
        r@ == action_hash(capability_name@, json::tree(*args), owner@),
{
    let args_text: String = json::print(args);
    let bytes: Vec<u8> = action_key(capability_name, args_text.as_str(), owner);
    let hashed: Vec<u8> = digest(&bytes);
    hex_of(&hashed)
}

/// What is kept in place of a result once a rejection was reported.
pub open spec fn denial_marker(capability: Seq<char>) -> JsonTree {
    JsonTree::Object(
        Fields::empty().insert("approval_denied"@, JsonTree::Bool(true)).insert(
            "capability"@,
            JsonTree::Text(capability),
        ),
    )
}

/// What the queue says of a row that is there, and what becomes of the row. A row that ran
/// gives its result back; an approved one is to be run; a rejected one is reported, and from
/// then on counts as having run, with its status and the time of the rejection as they were;
/// any other one waits.
pub open spec fn reused(
    row: ApprovalRow,
    now: i64,
    after: ApprovalRow,
    said: Result<ApprovalOutcome, BastionError>,
) -> bool {
    if row.executed_at is Some {
        after == row && match row.result_json {
            None => said matches Ok(ApprovalOutcome::AlreadyExecuted(v)) && json::tree(v)
                == JsonTree::Null,
            Some(kept) => match json::parsed(kept@) {
                Ok(tree) => said matches Ok(ApprovalOutcome::AlreadyExecuted(v)) && json::tree(v)
                    == tree,
                Err(message) => said matches Err(BastionError::Failed(m)) && m@ == message,
            },
        }
    } else if row.status == ApprovalStatus::Approved {
        after == row && said == Ok::<ApprovalOutcome, BastionError>(
            ApprovalOutcome::ApprovedPendingExecution(row.id),
        )
    } else if row.status == ApprovalStatus::Rejected {
        &&& said == Ok::<ApprovalOutcome, BastionError>(ApprovalOutcome::Rejected(DenyScope::Turn))
        &&& after == (ApprovalRow {
            executed_at: Some(now),
            result_json: after.result_json,
            ..row
        })
        &&& after.result_json matches Some(kept)
        &&& kept@ == json::printed(denial_marker(row.capability_name@))
        &&& json::reads_as(kept@, denial_marker(row.capability_name@))
    } else {
        after == row && said == Ok::<ApprovalOutcome, BastionError>(ApprovalOutcome::AlreadyPending)
    }
}

/// What the queue says of a row that is there, and the row as it is to be kept.
pub fn outcome_for_existing_row(row: ApprovalRow, now: i64) -> (r: (
    ApprovalRow,
    Result<ApprovalOutcome, BastionError>,
))
    ensures
        reused(row, now, r.0, r.1),
{
    if row.executed_at.is_some() {
        let cached: Result<serde_json::Value, String> = match &row.result_json {
            Some(kept) => json::parse(kept.as_str()),
            None => Ok(json::null()),
        };
        return match cached {
            Ok(value) => (row, Ok(ApprovalOutcome::AlreadyExecuted(value))),
            Err(message) => (row, Err(BastionError::Failed(message))),
        };
    }
    if row.status == ApprovalStatus::Approved {
        let id: i64 = row.id;
        return (row, Ok(ApprovalOutcome::ApprovedPendingExecution(id)));
    }
    if row.status == ApprovalStatus::Rejected {
        let mut map = json::no_fields();
        json::set_field(&mut map, "approval_denied", json::boolean(true));
        json::set_field(&mut map, "capability", json::string(row.capability_name.as_str()));
        let marker = json::object(map);
        let mut row: ApprovalRow = row;
        row.executed_at = Some(now);
        proof {
            reveal_with_fuel(json::plain, 2);
        }
        row.result_json = Some(json::print(&marker));
        return (row, Ok(ApprovalOutcome::Rejected(DenyScope::Turn)));
    }
    (row, Ok(ApprovalOutcome::AlreadyPending))
}

/// Rows of the queue by their numbers.
pub type ApprovalRows = Map<KeyView, ApprovalRow>;

/// The row of this number belongs to this owner.
pub open spec fn owns_row(rows: ApprovalRows, owner: Seq<char>, id: i64) -> bool {
    rows.contains_key(KeyView::Number(id as int)) && rows[KeyView::Number(
        id as int,
    )].owner_id@ == owner
}

/// The row is known under this hash.
pub open spec fn known_under(rows: ApprovalRows, key: KeyView, hash: Seq<char>) -> bool {
    rows.contains_key(key) && rows[key].idempotency_hash@ == hash
}

/// A row that waits for its owner's word, as it is first queued.
pub open spec fn queued(
    row: ApprovalRow,
    id: i64,
    owner: Seq<char>,
    capability: Seq<char>,
    args: JsonTree,
    now: i64,
) -> bool {
    &&& row.id == id && row.owner_id@ == owner && row.capability_name@ == capability
    &&& row.args_json@ == json::printed(args)
    &&& json::plain(args, json::deepest()) ==> json::reads_as(row.args_json@, args)
    &&& row.idempotency_hash@ == action_hash(capability, args, owner)
    &&& row.status == ApprovalStatus::Pending && row.result_json is None
    &&& row.created_at == now && row.resolved_at is None && row.executed_at is None
}

/// An approval queue in memory.
pub struct MemoryApprovalGate {
    rows: Table<ApprovalRow>,
    next_id: i64,
}

impl MemoryApprovalGate {
    /// Every number given out so far is smaller than the next one, and no two rows have the
    /// same hash.
    #[verifier::type_invariant]
    closed spec fn inv(self) -> bool {
        &&& forall|k: KeyView| #[trigger]
            self.rows@.contains_key(k) ==> (k matches KeyView::Number(n) && n < self.next_id)
        &&& forall|a: KeyView, b: KeyView|
            #[trigger] self.rows@.contains_key(a) && #[trigger] self.rows@.contains_key(b)
                && self.rows@[a].idempotency_hash@ == self.rows@[b].idempotency_hash@ ==> a == b
    }

    /// The rows by their numbers.
    pub closed spec fn rows(self) -> ApprovalRows {
        self.rows@
    }

    /// The rows in the order in which they were queued.
    pub closed spec fn order(self) -> Seq<ApprovalRow> {
        self.rows.order()
    }

    /// The number of the next row.
    pub closed spec fn next(self) -> i64 {
        self.next_id
    }

    /// An empty queue.
    pub fn new() -> (r: Self)
        ensures
            r.rows() == ApprovalRows::empty(),
            r.order() == Seq::<ApprovalRow>::empty(),
            r.next() == 1,
    {
        MemoryApprovalGate { rows: Table::new(), next_id: 1 }
    }

    /// The position of the row that is known under a hash.
    fn find_hash(&self, hash: &str) -> (r: Option<usize>)
        ensures
            match r {
                Some(i) => {
                    &&& i < self.rows.order().len()
                    &&& known_under(self.rows(), self.rows.order()[i as int].key(), hash@)
                    &&& self.rows()[self.rows.order()[i as int].key()]
                        == self.rows.order()[i as int]
                },
                None => forall|k: KeyView| !#[trigger] known_under(self.rows(), k, hash@),
            },
    {
        let mut i: usize = 0;
        while i < self.rows.len()
            invariant
                i <= self.rows.order().len(),
                forall|j: int|
                    0 <= j < i ==> #[trigger] self.rows.order()[j].idempotency_hash@ != hash@,
            decreases self.rows.order().len() - i,
        {
            let row = self.rows.at(i);
            if text::same(row.idempotency_hash.as_str(), hash) {
                return Some(i);
            }
            i = i + 1;
        }
        assert forall|k: KeyView| !#[trigger] known_under(self.rows(), k, hash@) by {
            if known_under(self.rows(), k, hash@) {
                let j = self.rows.lemma_place_of(k);
                assert(self.rows.order()[j].idempotency_hash@ != hash@);
            }
        }
        None
    }

    /// Asks for an action. Where its row is there, the row has the word; else it is queued
    /// under the next number, unless there is none left.
    pub fn enqueue_or_reuse(
        &mut self,
        owner_id: &str,
        capability_name: &str,
        args: &serde_json::Value,
        now: i64,
    ) -> (r: Result<ApprovalOutcome, BastionError>)
        ensures
            ({
                let hash = action_hash(capability_name@, json::tree(*args), owner_id@);
                &&& forall|k: KeyView| #[trigger]
                    known_under(old(self).rows(), k, hash) ==> {
                        &&& k == KeyView::Number(old(self).rows()[k].id as int)
                        &&& final(self).rows().contains_key(k)
                        &&& reused(old(self).rows()[k], now, final(self).rows()[k], r)
                        &&& final(self).rows() == old(self).rows().insert(k, final(self).rows()[k])
                        &&& final(self).order() == in_place(old(self).order(), final(self).rows())
                        &&& final(self).rows()[k] == old(self).rows()[k] ==> final(self).order()
                            == old(self).order()
                        &&& final(self).next() == old(self).next()
                    }
                &&& (forall|k: KeyView| !#[trigger] known_under(old(self).rows(), k, hash)) ==> {
                    let key = KeyView::Number(old(self).next() as int);
                    &&& !old(self).rows().contains_key(key)
                    &&& if old(self).next() == i64::MAX {
                        &&& r matches Err(BastionError::Failed(m))
                        &&& m@ == "approval queue is full"@
                        &&& *final(self) == *old(self)
                    } else {
                        &&& r == Ok::<ApprovalOutcome, BastionError>(
                            ApprovalOutcome::NewlyQueued(old(self).next()),
                        )
                        &&& final(self).rows() == old(self).rows().insert(
                            key,
                            final(self).rows()[key],
                        )
                        &&& final(self).order() == old(self).order().push(
                            final(self).rows()[key],
                        )
                        &&& queued(
                            final(self).rows()[key],
                            old(self).next(),
                            owner_id@,
                            capability_name@,
                            json::tree(*args),
                            now,
                        )
                        &&& final(self).next() == old(self).next() + 1
                    }
                }
            }),
    {
        proof {
            use_type_invariant(&*self);
        }
        let hash: String = compute_hash(capability_name, args, owner_id);
        let ghost before = self.rows@;
        let ghost wanted = hash@;
        let ghost places = self.order();
        let mut rows: Table<ApprovalRow> = Table::new();
        match self.find_hash(hash.as_str()) {
            Some(i) => {
                std::mem::swap(&mut rows, &mut self.rows);
                let row: ApprovalRow = rows.remove_at(i);
                let ghost key = row.key();
                let (row, said) = outcome_for_existing_row(row, now);
                rows.insert_at(i, row);
                assert(rows@ =~= before.insert(key, row));
                assert(rows.order() =~= in_place(places, rows@));
                assert(row == places[i as int] ==> rows.order() =~= places);
                self.rows = rows;
                assert forall|k: KeyView| #[trigger] known_under(before, k, wanted) implies k
                    == key by {
                    assert(known_under(before, key, wanted));
                }
                said
            },
            None => {
                assert(self.rows() == before);
                assert(forall|k: KeyView| !#[trigger] known_under(before, k, wanted));
                if self.next_id == i64::MAX {
                    return Err(BastionError::Failed("approval queue is full".to_owned()));
                }
                let row: ApprovalRow = ApprovalRow {
                    id: self.next_id,
                    owner_id: owner_id.to_owned(),
                    capability_name: capability_name.to_owned(),
                    args_json: json::print(args),
                    idempotency_hash: hash,
                    status: ApprovalStatus::Pending,
                    result_json: None,
                    created_at: now,
                    resolved_at: None,
                    executed_at: None,
                };
                let ghost key = row.key();
                std::mem::swap(&mut rows, &mut self.rows);
                let id: i64 = self.next_id;
                self.next_id = id + 1;
                rows.push(row);
                assert forall|a: KeyView, b: KeyView|
                    #[trigger] rows@.contains_key(a) && #[trigger] rows@.contains_key(b)
                        && rows@[a].idempotency_hash@ == rows@[b].idempotency_hash@ implies a
                    == b by {
                    if a != b {
                        if a == key {
                            assert(!known_under(before, b, wanted));
                        } else if b == key {
                            assert(!known_under(before, a, wanted));
                        }
                    }
                }
                self.rows = rows;
                Ok(ApprovalOutcome::NewlyQueued(id))
            },
        }
    }

    /// The position of the owner's row.
    fn find_owned(&self, owner_id: &str, id: i64) -> (r: Option<usize>)
        ensures
            match r {
                Some(i) => {
                    &&& owns_row(self.rows(), owner_id@, id)
                    &&& i < self.rows.order().len()
                    &&& self.rows.order()[i as int] == self.rows()[KeyView::Number(id as int)]
                    &&& self.rows.order()[i as int].key() == KeyView::Number(id as int)
                },
                None => !owns_row(self.rows(), owner_id@, id),
            },
    {
        match self.rows.find(Key::Number(id)) {
            Some(i) => if text::same(self.rows.at(i).owner_id.as_str(), owner_id) {
                Some(i)
            } else {
                None
            },
            None => None,
        }
    }

    /// The row of this number.
    pub fn read_row_by_id(&self, id: i64) -> (r: Option<&ApprovalRow>)
        ensures
            match r {
                Some(row) => self.rows().contains_key(KeyView::Number(id as int)) && *row
                    == self.rows()[KeyView::Number(id as int)],
                None => !self.rows().contains_key(KeyView::Number(id as int)),
            },
    {
        self.rows.get(Key::Number(id))
    }

    /// The owner's rows that wait for a word, in the order in which they were queued.
    pub fn pending_for_owner(&self, owner_id: &str) -> (r: Vec<&ApprovalRow>)
        ensures
            pending_rows(self.order(), owner_id@).len() == r@.len(),
            forall|i: int|
                0 <= i < r@.len() ==> *#[trigger] r@[i] == pending_rows(self.order(), owner_id@)[i],
            distinct_keys(self.order()),
            self.rows() == by_key(self.order()),
    {
        let ghost waiting = |row: ApprovalRow| is_pending_for(row, owner_id@);
        let mut out: Vec<&ApprovalRow> = Vec::new();
        let mut i: usize = 0;
        assert(self.order().take(0).filter(waiting) =~= Seq::<ApprovalRow>::empty()) by {
            reveal(Seq::filter);
        }
        while i < self.rows.len()
            invariant
                i <= self.order().len(),
                waiting == (|row: ApprovalRow| is_pending_for(row, owner_id@)),
                out@.len() == self.order().take(i as int).filter(waiting).len(),
                forall|j: int|
                    0 <= j < out@.len() ==> *#[trigger] out@[j] == self.order().take(
                        i as int,
                    ).filter(waiting)[j],
            decreases self.order().len() - i,
        {
            proof {
                reveal(Seq::filter);
                let next = self.order().take(i + 1);
                assert(next.drop_last() =~= self.order().take(i as int));
                assert(next.last() == self.order()[i as int]);
            }
            let row = self.rows.at(i);
            if row.status == ApprovalStatus::Pending && text::same(row.owner_id.as_str(), owner_id) {
                out.push(row);
            }
            i = i + 1;
        }
        assert(self.order().take(self.order().len() as int) =~= self.order());
        proof {
            self.rows.lemma_view();
        }
        out
    }

    /// Approves a row of the owner. A row that is not the owner's is as good as none.
    pub fn approve(&mut self, owner_id: &str, id: i64, now: i64) -> (r: Result<
        &ApprovalRow,
        BastionError,
    >)
        ensures
            final(self).next() == old(self).next(),
            if owns_row(old(self).rows(), owner_id@, id) {
                let key = KeyView::Number(id as int);
                &&& final(self).rows() == old(self).rows().insert(
                    key,
                    ApprovalRow {
                        status: ApprovalStatus::Approved,
                        resolved_at: Some(now),
                        ..old(self).rows()[key]
                    },
                )
                &&& final(self).order() == in_place(old(self).order(), final(self).rows())
                &&& r matches Ok(row) && *row == final(self).rows()[key]
            } else {
                &&& r matches Err(BastionError::Failed(m))
                &&& m@ == "approval_queue row "@ + decimal_int(id as int)
                    + " not found for owner (no row approved) — IDOR guard"@
                &&& *final(self) == *old(self)
            },
    {
        proof {
            use_type_invariant(&*self);
        }
        match self.find_owned(owner_id, id) {
            Some(i) => {
                let ghost before = self.rows@;
                let ghost places = self.order();
                let mut rows: Table<ApprovalRow> = Table::new();
                std::mem::swap(&mut rows, &mut self.rows);
                let mut row: ApprovalRow = rows.remove_at(i);
                row.status = ApprovalStatus::Approved;
                row.resolved_at = Some(now);
                rows.insert_at(i, row);
                assert(rows@ =~= before.insert(KeyView::Number(id as int), row));
                assert(rows.order() =~= in_place(places, rows@));
                self.rows = rows;
                Ok(self.rows.at(i))
            },
            None => {
                let mut message: String = "approval_queue row ".to_owned();
                text::push_decimal_i64(&mut message, id);
                message.append(" not found for owner (no row approved) — IDOR guard");
                Err(BastionError::Failed(message))
            },
        }
    }

    /// Rejects a row of the owner. A row that is not the owner's is as good as none.
    pub fn reject(&mut self, owner_id: &str, id: i64, now: i64) -> (r: Result<(), BastionError>)
        ensures
            final(self).next() == old(self).next(),
            if owns_row(old(self).rows(), owner_id@, id) {
                let key = KeyView::Number(id as int);
                &&& final(self).rows() == old(self).rows().insert(
                    key,
                    ApprovalRow {
                        status: ApprovalStatus::Rejected,
                        resolved_at: Some(now),
                        ..old(self).rows()[key]
                    },
                )
                &&& final(self).order() == in_place(old(self).order(), final(self).rows())
                &&& r is Ok
            } else {
                &&& r matches Err(BastionError::Failed(m))
                &&& m@ == "approval_queue row "@ + decimal_int(id as int)
                    + " not found for owner (no row rejected) — IDOR guard"@
                &&& *final(self) == *old(self)
            },
    {
        proof {
            use_type_invariant(&*self);
        }
        match self.find_owned(owner_id, id) {
            Some(i) => {
                let ghost before = self.rows@;
                let ghost places = self.order();
                let mut rows: Table<ApprovalRow> = Table::new();
                std::mem::swap(&mut rows, &mut self.rows);
                let mut row: ApprovalRow = rows.remove_at(i);
                row.status = ApprovalStatus::Rejected;
                row.resolved_at = Some(now);
                rows.insert_at(i, row);
                assert(rows@ =~= before.insert(KeyView::Number(id as int), row));
                assert(rows.order() =~= in_place(places, rows@));
                self.rows = rows;
                Ok(())
            },
            None => {
                let mut message: String = "approval_queue row ".to_owned();
                text::push_decimal_i64(&mut message, id);
                message.append(" not found for owner (no row rejected) — IDOR guard");
                Err(BastionError::Failed(message))
            },
        }
    }

    /// Keeps the result of a row that was run, as text.
    pub fn record_executed(&mut self, id: i64, result: &serde_json::Value, now: i64) -> (r: Result<
        (),
        BastionError,
    >)
        ensures
            final(self).next() == old(self).next(),
            ({
                let key = KeyView::Number(id as int);
                if old(self).rows().contains_key(key) {
                    let row = final(self).rows()[key];
                    &&& r is Ok
                    &&& final(self).rows() == old(self).rows().insert(key, row)
                    &&& final(self).order() == in_place(old(self).order(), final(self).rows())
                    &&& row == (ApprovalRow {
                        executed_at: Some(now),
                        result_json: row.result_json,
                        ..old(self).rows()[key]
                    })
                    &&& row.result_json matches Some(kept)
                    &&& kept@ == json::printed(json::tree(*result))
                    &&& json::plain(json::tree(*result), json::deepest()) ==> json::reads_as(
                        kept@,
                        json::tree(*result),
                    )
                } else {
                    &&& r matches Err(BastionError::Failed(m))
                    &&& m@ == "approval_queue row "@ + decimal_int(id as int)
                        + " not found (record_executed)"@
                    &&& *final(self) == *old(self)
                }
            }),
    {
        proof {
            use_type_invariant(&*self);
        }
        match self.rows.find(Key::Number(id)) {
            Some(i) => {
                let ghost before = self.rows@;
                let ghost places = self.order();
                let mut rows: Table<ApprovalRow> = Table::new();
                std::mem::swap(&mut rows, &mut self.rows);
                let mut row: ApprovalRow = rows.remove_at(i);
                row.executed_at = Some(now);
                row.result_json = Some(json::print(result));
                rows.insert_at(i, row);
                assert(rows@ =~= before.insert(KeyView::Number(id as int), row));
                assert(rows.order() =~= in_place(places, rows@));
                self.rows = rows;
                Ok(())
            },
            None => {
                let mut message: String = "approval_queue row ".to_owned();
                text::push_decimal_i64(&mut message, id);
                message.append(" not found (record_executed)");
                Err(BastionError::Failed(message))
            },
        }
    }
}

/// The row waits for this owner's word.
pub open spec fn is_pending_for(row: ApprovalRow, owner: Seq<char>) -> bool {
    row.status == ApprovalStatus::Pending && row.owner_id@ == owner
}

/// The rows that wait for this owner's word, in their order.
pub open spec fn pending_rows(order: Seq<ApprovalRow>, owner: Seq<char>) -> Seq<ApprovalRow> {
    order.filter(|row: ApprovalRow| is_pending_for(row, owner))
}

/// What waits for its owner's word is listed, wherever it stands, and nothing else is.
pub proof fn what_waits_is_listed(order: Seq<ApprovalRow>, owner: Seq<char>, row: ApprovalRow)
    requires
        distinct_keys(order),
    ensures
        pending_rows(order, owner).contains(row) <==> {
            &&& by_key(order).contains_key(row.key())
            &&& by_key(order)[row.key()] == row
            &&& is_pending_for(row, owner)
        },
{
    lemma_filtered(order, |row: ApprovalRow| is_pending_for(row, owner), row);
}

/// Stands in where no queue is wired: whatever needs approval is refused, and nothing waits.
pub struct NullApprovalGate;

impl NullApprovalGate {
    /// Refuses every action.
    pub fn enqueue_or_reuse(
        &self,
        owner_id: &str,
        capability_name: &str,
        args: &serde_json::Value,
    ) -> (r: Result<ApprovalOutcome, BastionError>)
        ensures
            r matches Err(BastionError::Failed(m)) && m@ == "capability '"@ + capability_name@
                + "' requires approval but no approval gate is wired — denying fail-closed"@,
    {
        Err(
            BastionError::Failed(
                text::concat3(
                    "capability '",
                    capability_name,
                    "' requires approval but no approval gate is wired — denying fail-closed",
                ),
            ),
        )
    }

    /// Nothing waits.
    pub fn pending_for_owner(&self, owner_id: &str) -> (r: Vec<&ApprovalRow>)
        ensures
            r@.len() == 0,
    {
        Vec::new()
    }

    /// There is nothing to approve.
    pub fn approve(&self, owner_id: &str, id: i64) -> (r: Result<(), BastionError>)
        ensures
            r matches Err(BastionError::Failed(m)) && m@
                == "no approval gate is wired — cannot approve row "@ + decimal_int(id as int),
    {
        let mut message: String = "no approval gate is wired — cannot approve row ".to_owned();
        text::push_decimal_i64(&mut message, id);
        Err(BastionError::Failed(message))
    }

    /// There is nothing to reject.
    pub fn reject(&self, owner_id: &str, id: i64) -> (r: Result<(), BastionError>)
        ensures
            r matches Err(BastionError::Failed(m)) && m@
                == "no approval gate is wired — cannot reject row "@ + decimal_int(id as int),
    {
        let mut message: String = "no approval gate is wired — cannot reject row ".to_owned();
        text::push_decimal_i64(&mut message, id);
        Err(BastionError::Failed(message))
    }

    /// There is nothing whose result could be kept.
    pub fn record_executed(&self, id: i64, result: &serde_json::Value) -> (r: Result<
        (),
        BastionError,
    >)
        ensures
            r matches Err(BastionError::Failed(m)) && m@
                == "no approval gate is wired — cannot record execution for row "@ + decimal_int(
                id as int,
            ),
    {
        let mut message: String = "no approval gate is wired — cannot record execution for row ".to_owned();
        text::push_decimal_i64(&mut message, id);
        Err(BastionError::Failed(message))
    }
}

/// A rejection is reported as such once. Every later request for the same action is answered
/// with the marker that was kept, as if that were its result.
pub proof fn a_rejection_is_reported_once(
    row: ApprovalRow,
    first: i64,
    kept: ApprovalRow,
    said: Result<ApprovalOutcome, BastionError>,
    later: i64,
    after: ApprovalRow,
    again: Result<ApprovalOutcome, BastionError>,
)
    requires
        row.status == ApprovalStatus::Rejected,
        row.executed_at is None,
        reused(row, first, kept, said),
        reused(kept, later, after, again),
    ensures
        said == Ok::<ApprovalOutcome, BastionError>(ApprovalOutcome::Rejected(DenyScope::Turn)),
        after == kept,
        again matches Ok(ApprovalOutcome::AlreadyExecuted(v)) && json::tree(v) == denial_marker(
            row.capability_name@,
        ),
{
}

/// What was kept of an action that ran is what a later request for it gets.
pub proof fn a_kept_result_is_given_back(
    row: ApprovalRow,
    result: JsonTree,
    now: i64,
    after: ApprovalRow,
    said: Result<ApprovalOutcome, BastionError>,
)
    requires
        row.executed_at is Some,
        row.result_json matches Some(kept) && json::reads_as(kept@, result),
        reused(row, now, after, said),
    ensures
        after == row,
        said matches Ok(ApprovalOutcome::AlreadyExecuted(v)) && json::tree(v) == result,
{
}

/// Reporting a rejection leaves the record of it alone: who asked for what, that it was
/// rejected and when.
pub proof fn the_record_of_a_rejection_is_kept(
    row: ApprovalRow,
    now: i64,
    after: ApprovalRow,
    said: Result<ApprovalOutcome, BastionError>,
)
    requires
        reused(row, now, after, said),
    ensures
        after.status == row.status,
        after.resolved_at == row.resolved_at,
        after.id == row.id && after.owner_id == row.owner_id,
        after.capability_name == row.capability_name && after.args_json == row.args_json,
        after.idempotency_hash == row.idempotency_hash,
{
}

/// An action that ran is not run again: a later request gets what was kept, whatever the owner
/// has said since.
pub proof fn an_executed_action_is_not_run_again(
    row: ApprovalRow,
    now: i64,
    after: ApprovalRow,
    said: Result<ApprovalOutcome, BastionError>,
)
    requires
        row.executed_at is Some,
        reused(row, now, after, said),
    ensures
        after == row,
        !(said matches Ok(ApprovalOutcome::ApprovedPendingExecution(_))),
        !(said matches Ok(ApprovalOutcome::NewlyQueued(_))),
{
}

/// An action is run only on its owner's approval.
pub proof fn nothing_runs_unapproved(
    row: ApprovalRow,
    now: i64,
    after: ApprovalRow,
    said: Result<ApprovalOutcome, BastionError>,
)
    requires
        reused(row, now, after, said),
        said matches Ok(ApprovalOutcome::ApprovedPendingExecution(_)),
    ensures
        row.status == ApprovalStatus::Approved,
        row.executed_at is None,
{
}

/// The bytes by which an action is known tell actions apart: two actions with the same bytes
/// have the same capability, the same owner and the same printed arguments. (A capability or an
/// owner with a zero character in its name could blur where one ends and the next begins.)
pub proof fn the_same_bytes_are_the_same_action(
    capability: Seq<char>,
    owner: Seq<char>,
    args: Seq<char>,
    other_capability: Seq<char>,
    other_owner: Seq<char>,
    other_args: Seq<char>,
)
    requires
        action_bytes(capability, owner, args) == action_bytes(
            other_capability,
            other_owner,
            other_args,
        ),
        !capability.contains('\0'),
        !owner.contains('\0'),
        !other_capability.contains('\0'),
        !other_owner.contains('\0'),
    ensures
        capability == other_capability,
        owner == other_owner,
        args == other_args,
{
    let c = encode_utf8(capability);
    let o = encode_utf8(owner);
    let a = encode_utf8(args);
    let c2 = encode_utf8(other_capability);
    let o2 = encode_utf8(other_owner);
    let a2 = encode_utf8(other_args);
    lemma_no_zero_byte(capability);
    lemma_no_zero_byte(owner);
    lemma_no_zero_byte(other_capability);
    lemma_no_zero_byte(other_owner);
    let z = seq![0u8];
    assert(c + z + (o + z + a) =~= action_bytes(capability, owner, args));
    assert(c2 + z + (o2 + z + a2) =~= action_bytes(other_capability, other_owner, other_args));
    lemma_split_at_zero(c, o + z + a, c2, o2 + z + a2);
    lemma_split_at_zero(o, a, o2, a2);
    encode_utf8_decode_utf8(capability);
    encode_utf8_decode_utf8(other_capability);
    encode_utf8_decode_utf8(owner);
    encode_utf8_decode_utf8(other_owner);
    encode_utf8_decode_utf8(args);
    encode_utf8_decode_utf8(other_args);
}

/// Only the zero character has a zero byte.
proof fn lemma_no_zero_byte(chars: Seq<char>)
    requires
        !chars.contains('\0'),
    ensures
        !encode_utf8(chars).contains(0u8),
    decreases chars.len(),
{
    if chars.len() > 0 {
        let rest = chars.drop_first();
        let c = chars[0] as u32;
        assert(chars.contains(chars[0]));
        assert(c != 0) by {
            if c == 0 {
                char_u32_cast(chars[0], c);
            }
        }
        assert(!rest.contains('\0')) by {
            if rest.contains('\0') {
                let k = choose|k: int| 0 <= k < rest.len() && rest[k] == '\0';
                assert(chars[k + 1] == '\0');
            }
        }
        lemma_no_zero_byte(rest);
        assert(has_width_1_encoding(c) && c != 0 ==> leading_byte_width_1(c) != 0) by (bit_vector);
        assert(leading_byte_width_2(c) != 0) by (bit_vector);
        assert(leading_byte_width_3(c) != 0) by (bit_vector);
        assert(leading_byte_width_4(c) != 0) by (bit_vector);
        assert(last_continuation_byte(c) != 0) by (bit_vector);
        assert(second_last_continuation_byte(c) != 0) by (bit_vector);
        assert(third_last_continuation_byte(c) != 0) by (bit_vector);
        let head = encode_scalar(c);
        assert forall|k: int| 0 <= k < head.len() implies head[k] != 0u8 by {}
        assert forall|k: int| 0 <= k < encode_utf8(chars).len() implies encode_utf8(chars)[k]
            != 0u8 by {
            if k < head.len() {
                assert(encode_utf8(chars)[k] == head[k]);
            } else {
                assert(encode_utf8(chars)[k] == encode_utf8(rest)[k - head.len()]);
                assert(encode_utf8(rest).contains(encode_utf8(rest)[k - head.len()]));
            }
        }
    }
}

/// Where two sequences are equal, what stands before the first zero is equal, and what stands
/// behind it.
proof fn lemma_split_at_zero(a: Seq<u8>, b: Seq<u8>, c: Seq<u8>, d: Seq<u8>)
    requires
        !a.contains(0u8),
        !c.contains(0u8),
        a + seq![0u8] + b == c + seq![0u8] + d,
    ensures
        a == c,
        b == d,
{
    let left = a + seq![0u8] + b;
    let right = c + seq![0u8] + d;
    assert(left[a.len() as int] == 0u8);
    assert(right[c.len() as int] == 0u8);
    if a.len() < c.len() {
        assert(right[a.len() as int] == c[a.len() as int]);
        assert(c.contains(0u8));
    } else if c.len() < a.len() {
        assert(left[c.len() as int] == a[c.len() as int]);
        assert(a.contains(0u8));
    }
    assert forall|i: int| 0 <= i < a.len() implies a[i] == c[i] by {
        assert(left[i] == a[i]);
        assert(right[i] == c[i]);
    }
    assert(a =~= c);
    assert(left.len() == right.len());
    assert forall|i: int| 0 <= i < b.len() implies b[i] == d[i] by {
        assert(left[a.len() + 1 + i] == b[i]);
        assert(right[c.len() + 1 + i] == d[i]);
    }
    assert(b =~= d);
}

/// Bytes in hexadecimal notation have two digits each, and tell the bytes.
pub proof fn hexadecimal_tells_the_bytes(a: Seq<u8>, b: Seq<u8>)
    ensures
        hex(a).len() == 2 * a.len(),
        hex(a) == hex(b) ==> a == b,
    decreases a.len(),
{
    if a.len() > 0 {
        hexadecimal_tells_the_bytes(
            a.drop_last(),
            if b.len() > 0 {
                b.drop_last()
            } else {
                b
            },
        );
    }
    if b.len() > 0 {
        lemma_hex_len(b);
    }
    if hex(a) == hex(b) && a.len() > 0 {
        let x = hex(a);
        let n = x.len() as int;
        assert(hex(b.drop_last()).len() == 2 * (b.len() - 1)) by {
            lemma_hex_len(b.drop_last());
        }
        assert(x[n - 2] == hex_digit(a.last() as int / 16));
        assert(x[n - 1] == hex_digit(a.last() as int % 16));
        assert(x[n - 2] == hex_digit(b.last() as int / 16));
        assert(x[n - 1] == hex_digit(b.last() as int % 16));
        lemma_hex_digit(a.last() as int / 16, b.last() as int / 16);
        lemma_hex_digit(a.last() as int % 16, b.last() as int % 16);
        assert(hex(a.drop_last()) =~= x.take(n - 2));
        assert(hex(b.drop_last()) =~= x.take(n - 2));
        assert(a =~= a.drop_last().push(a.last()));
        assert(b =~= b.drop_last().push(b.last()));
    } else if hex(a) == hex(b) {
        assert(a =~= b);
    }
}

/// How many digits bytes have.
proof fn lemma_hex_len(b: Seq<u8>)
    ensures
        hex(b).len() == 2 * b.len(),
    decreases b.len(),
{
    if b.len() > 0 {
        lemma_hex_len(b.drop_last());
    }
}

/// A hexadecimal digit tells its value, and is one of the digits and the first six letters.
proof fn lemma_hex_digit(a: int, b: int)
    requires
        0 <= a < 16,
        0 <= b < 16,
    ensures
        hex_digit(a) == hex_digit(b) ==> a == b,
        '0' <= hex_digit(a) <= '9' || 'a' <= hex_digit(a) <= 'f',
{
}

/// What the queue says of an action that has not run goes by its owner's word alone: an approved
/// one is handed out under its number, a rejected one ends the turn, and any other waits. Only a
/// rejection leaves a mark, and that it was reported is then on record with what stands for its
/// result.
pub proof fn the_owners_word_decides(
    row: ApprovalRow,
    now: i64,
    after: ApprovalRow,
    said: Result<ApprovalOutcome, BastionError>,
)
    requires
        reused(row, now, after, said),
        row.executed_at is None,
    ensures
        match row.status {
            ApprovalStatus::Approved => after == row && said == Ok::<
                ApprovalOutcome,
                BastionError,
            >(ApprovalOutcome::ApprovedPendingExecution(row.id)),
            ApprovalStatus::Rejected => {
                &&& said == Ok::<ApprovalOutcome, BastionError>(
                    ApprovalOutcome::Rejected(DenyScope::Turn),
                )
                &&& after.executed_at == Some(now)
                &&& after.result_json matches Some(kept)
                &&& json::parsed(kept@) matches Ok(JsonTree::Object(fields))
                &&& fields.contains_key("approval_denied"@) && fields["approval_denied"@]
                    == JsonTree::Bool(true)
                &&& fields.contains_key("capability"@) && fields["capability"@] == JsonTree::Text(
                    row.capability_name@,
                )
            },
            ApprovalStatus::Pending | ApprovalStatus::Expired => after == row && said == Ok::<
                ApprovalOutcome,
                BastionError,
            >(ApprovalOutcome::AlreadyPending),
        },
{
    reveal_strlit("approval_denied");
    reveal_strlit("capability");
    assert("approval_denied"@[0] == 'a' && "capability"@[0] == 'c');
}

/// A new action stands in the queue as it was asked for, and waits: who asked for what, with which
/// arguments and when, that nobody has decided it, and that it has not run.
pub proof fn a_new_action_waits_as_it_was_asked_for(
    row: ApprovalRow,
    id: i64,
    owner: Seq<char>,
    capability: Seq<char>,
    args: JsonTree,
    now: i64,
)
    requires
        queued(row, id, owner, capability, args, now),
    ensures
        row.id == id,
        row.owner_id@ == owner,
        row.capability_name@ == capability,
        row.args_json@ == json::printed(args),
        row.created_at == now,
        row.status == ApprovalStatus::Pending,
        row.resolved_at is None && row.executed_at is None && row.result_json is None,
        is_pending_for(row, owner),
        row.idempotency_hash@ == action_hash(row.capability_name@, args, row.owner_id@),
{
}

/// Every status is stored under a text of its own.
pub proof fn a_status_is_told_by_its_text(a: ApprovalStatus, b: ApprovalStatus)
    ensures
        approval_status_text(a) == approval_status_text(b) ==> a == b,
{
    reveal_strlit("pending");
    reveal_strlit("approved");
    reveal_strlit("rejected");
    reveal_strlit("expired");
    assert("pending"@[0] == 'p' && "approved"@[0] == 'a' && "rejected"@[0] == 'r' && "expired"@[0]
        == 'e');
}

/// A status is stored under its own word.
pub proof fn a_status_is_stored_under_its_own_word()
    ensures
        approval_status_text(ApprovalStatus::Pending) == "pending"@,
        approval_status_text(ApprovalStatus::Approved) == "approved"@,
        approval_status_text(ApprovalStatus::Rejected) == "rejected"@,
        approval_status_text(ApprovalStatus::Expired) == "expired"@,
{
}

/// What waits is listed in the order in which it was queued: a new row that waits for the owner
/// comes last, and any other row changes nothing in the listing.
pub proof fn what_is_queued_last_is_listed_last(
    order: Seq<ApprovalRow>,
    row: ApprovalRow,
    owner: Seq<char>,
)
    ensures
        pending_rows(order.push(row), owner) == if row.status == ApprovalStatus::Pending
            && row.owner_id@ == owner {
            pending_rows(order, owner).push(row)
        } else {
            pending_rows(order, owner)
        },
        pending_rows(Seq::<ApprovalRow>::empty(), owner).len() == 0,
{
    reveal(Seq::filter);
    assert(order.push(row).drop_last() =~= order);
}

/// An action is known by the digest of all that it is: the bytes of its capability, of its owner and
/// of its printed arguments, with a zero byte between them.
pub proof fn an_action_is_known_by_all_that_it_is(
    capability: Seq<char>,
    args: JsonTree,
    owner: Seq<char>,
)
    ensures
        action_hash(capability, args, owner) == hex(
            sha256(
                encode_utf8(capability) + seq![0u8] + encode_utf8(owner) + seq![0u8] + encode_utf8(
                    json::printed(args),
                ),
            ),
        ),
{
}

/// A row belongs to the owner who asked for it, and to nobody else.
pub proof fn a_row_belongs_to_who_asked(rows: ApprovalRows, owner: Seq<char>, id: i64)
    ensures
        owns_row(rows, owner, id) <==> rows.dom().contains(KeyView::Number(id as int))
            && rows[KeyView::Number(id as int)].owner_id@ == owner,
{
}

/// An action is found by its hash, and by nothing else.
pub proof fn an_action_is_found_by_its_hash(rows: ApprovalRows, key: KeyView, hash: Seq<char>)
    ensures
        known_under(rows, key, hash) <==> rows.dom().contains(key) && rows[key].idempotency_hash@
            == hash,
{
}

} // verus!
