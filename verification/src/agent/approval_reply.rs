//! The owner's reply to a question for approval, in plain words.
//!
//! Where actions of the owner wait for approval, a message that approves or rejects settles the
//! oldest of them, and no model is asked. Any other message is an ordinary one, and leaves the
//! actions waiting.
use vstd::prelude::*;
use crate::capability::approval::{
    queued, reused, ApprovalOutcome, ApprovalRow, ApprovalStatus,
};
use crate::capability::authority::InvokeCtx;
use crate::hooks::approval_intent::{
    approval_phrases, approves, approves_in_lowercase, rejection_phrases, rejects,
    rejects_in_lowercase, says_one_of,
};
use crate::json;
use crate::json::JsonTree;
use crate::text;
use crate::types::{BastionError, PrivacyTier};
use crate::unicode;
use crate::unicode::lowercase;

verus! {

/// One row was queued before another.
pub open spec fn queued_before(a: ApprovalRow, b: ApprovalRow) -> bool {
    a.created_at < b.created_at || (a.created_at == b.created_at && a.id < b.id)
}

/// The row at this place is the oldest, and the first of the oldest.
pub open spec fn oldest_at(rows: Seq<&ApprovalRow>, k: int) -> bool {
    &&& 0 <= k < rows.len()
    &&& forall|j: int| 0 <= j < k ==> queued_before(*rows[k], *#[trigger] rows[j])
    &&& forall|j: int| k < j < rows.len() ==> !queued_before(*#[trigger] rows[j], *rows[k])
}

/// The place of the oldest row.
fn oldest(rows: &Vec<&ApprovalRow>) -> (r: usize)
    requires
        rows@.len() > 0,
    ensures
        oldest_at(rows@, r as int),
{
    let mut best: usize = 0;
    let mut i: usize = 1;
    while i < rows.len()
        invariant
            best < i <= rows@.len(),
            forall|j: int|
                0 <= j < best ==> queued_before(*rows@[best as int], *#[trigger] rows@[j]),
            forall|j: int|
                best < j < i ==> !queued_before(*#[trigger] rows@[j], *rows@[best as int]),
        decreases rows@.len() - i,
    {
        if rows[i].created_at < rows[best].created_at || (rows[i].created_at
            == rows[best].created_at && rows[i].id < rows[best].id) {
            best = i;
        }
        i = i + 1;
    }
    best
}

/// What a message says to the actions that wait.
#[derive(Clone, Copy, Debug, PartialEq, Eq, Structural)]
pub enum ApprovalReply {
    /// Nothing: it is an ordinary message.
    Ordinary,
    /// The action with this number is approved.
    Approve(i64),
    /// The action with this number is rejected.
    Reject(i64),
}

/// What a message in lower case says to the action with this number.
pub open spec fn reply_to(lowered: Seq<char>, id: i64) -> ApprovalReply {
    if says_one_of(lowered, approval_phrases()) {
        ApprovalReply::Approve(id)
    } else if says_one_of(lowered, rejection_phrases()) {
        ApprovalReply::Reject(id)
    } else {
        ApprovalReply::Ordinary
    }
}

/// What a message in lower case says to the actions that wait.
pub fn resolution_in_lowercase(lowered: &str, pending: &Vec<&ApprovalRow>) -> (r: ApprovalReply)
    ensures
        if pending@.len() == 0 {
            r == ApprovalReply::Ordinary
        } else {
            exists|k: int| #[trigger] oldest_at(pending@, k) && r == reply_to(lowered@, pending@[k].id)
        },
{
    if pending.len() == 0 {
        return ApprovalReply::Ordinary;
    }
    let k: usize = oldest(pending);
    let id: i64 = pending[k].id;
    assert(oldest_at(pending@, k as int));
    if approves_in_lowercase(lowered) {
        ApprovalReply::Approve(id)
    } else if rejects_in_lowercase(lowered) {
        ApprovalReply::Reject(id)
    } else {
        ApprovalReply::Ordinary
    }
}

/// What a message says to the actions that wait. Where several wait, it speaks of the oldest.
pub fn approval_resolution(input: &str, pending: &Vec<&ApprovalRow>) -> (r: ApprovalReply)
    ensures
        if pending@.len() == 0 {
            r == ApprovalReply::Ordinary
        } else {
            exists|k: int| #[trigger]
                oldest_at(pending@, k) && r == reply_to(lowercase(input@), pending@[k].id)
        },
{
    let lowered: String = unicode::to_lowercase(input);
    resolution_in_lowercase(lowered.as_str(), pending)
}

/// The arguments with which an approved action is run.
pub fn approved_arguments(row: &ApprovalRow) -> (r: Result<serde_json::Value, BastionError>)
    ensures
        match json::parsed(row.args_json@) {
            Ok(tree) => r matches Ok(value) && json::tree(value) == tree,
            Err(message) => r matches Err(BastionError::Failed(m)) && m@ == message,
        },
{
    match json::parse(row.args_json.as_str()) {
        Ok(value) => Ok(value),
        Err(message) => Err(BastionError::Failed(message)),
    }
}

/// On whose behalf an approved action is run: the owner's. The owner has asked for it to be done,
/// so the data may go where the action sends it, and no persona's tool set is in force.
pub fn approved_context(owner: &str) -> (r: InvokeCtx)
    ensures
        r.owner@ == owner@,
        r.privacy_tier == Some(PrivacyTier::CloudOk),
        r.allowed_tools is None,
{
    InvokeCtx {
        owner: owner.to_owned(),
        privacy_tier: Some(PrivacyTier::CloudOk),
        allowed_tools: None,
    }
}

/// What is said when an approved action has run.
pub fn confirmed_reply(capability: &str) -> (r: String)
    ensures
        r@ == "Confirmado: "@ + capability@ + " executado."@,
{
    text::concat3("Confirmado: ", capability, " executado.")
}

/// What is said when an action is rejected.
pub const CANCELLED_REPLY: &'static str = "Ação cancelada.";

/// There is one oldest row.
pub proof fn the_oldest_is_unique(rows: Seq<&ApprovalRow>, a: int, b: int)
    requires
        oldest_at(rows, a),
        oldest_at(rows, b),
    ensures
        a == b,
{
    if a < b {
        assert(queued_before(*rows[b], *rows[a]));
        assert(!queued_before(*rows[b], *rows[a]));
    } else if b < a {
        assert(queued_before(*rows[a], *rows[b]));
        assert(!queued_before(*rows[a], *rows[b]));
    }
}

/// The arguments with which an approved action is run are those with which it was asked for:
/// neither the owner's word nor a later request changes them.
pub proof fn what_is_run_is_what_was_asked(
    asked: ApprovalRow,
    id: i64,
    owner: Seq<char>,
    capability: Seq<char>,
    args: JsonTree,
    created: i64,
    resolved: Option<i64>,
    now: i64,
    after: ApprovalRow,
    said: Result<ApprovalOutcome, BastionError>,
)
    requires
        queued(asked, id, owner, capability, args, created),
        json::plain(args, json::deepest()),
        reused(
            ApprovalRow { status: ApprovalStatus::Approved, resolved_at: resolved, ..asked },
            now,
            after,
            said,
        ),
    ensures
        said == Ok::<ApprovalOutcome, BastionError>(ApprovalOutcome::ApprovedPendingExecution(id)),
        json::reads_as(after.args_json@, args),
        after.owner_id@ == owner && after.capability_name@ == capability,
{
}

/// A reply speaks of the action that has waited longest: none was queued earlier, and of those
/// queued at the same time none has a lower number.
pub proof fn a_reply_speaks_of_what_waited_longest(rows: Seq<&ApprovalRow>, k: int, j: int)
    requires
        oldest_at(rows, k),
        0 <= j < rows.len(),
    ensures
        rows[k].created_at <= rows[j].created_at,
        rows[k].created_at == rows[j].created_at ==> rows[k].id <= rows[j].id,
{
    let other = rows[j];
    if j < k {
        assert(queued_before(*rows[k], *rows[j]));
    } else if j > k {
        assert(!queued_before(*rows[j], *rows[k]));
    }
}

/// An approving message approves, one that rejects and does not approve rejects, and any other
/// settles nothing; what is settled is the action that was asked about.
pub proof fn a_reply_does_what_it_says(input: Seq<char>, id: i64)
    ensures
        reply_to(lowercase(input), id) == ApprovalReply::Approve(id) <==> approves(input),
        reply_to(lowercase(input), id) == ApprovalReply::Reject(id) <==> rejects(input)
            && !approves(input),
        reply_to(lowercase(input), id) == ApprovalReply::Ordinary <==> !approves(input) && !rejects(
            input,
        ),
{
}

/// An approved action runs on behalf of its owner, with data that may go where it goes and no tool
/// set in force.
pub proof fn an_approved_action_runs_for_its_owner(owner: &str, r: InvokeCtx)
    requires
        call_ensures(approved_context, (owner,), r),
    ensures
        r.owner@ == owner@,
        r.privacy_tier == Some(PrivacyTier::CloudOk),
        r.allowed_tools is None,
{
}

/// A message settles nothing where nothing waits, and else at most the action that waited longest.
pub proof fn a_message_settles_the_oldest_at_most(
    input: &str,
    pending: &Vec<&ApprovalRow>,
    r: ApprovalReply,
)
    requires
        call_ensures(approval_resolution, (input, pending), r),
    ensures
        pending@.len() == 0 ==> r == ApprovalReply::Ordinary,
        pending@.len() > 0 ==> (r is Approve <==> approves(input@)),
        pending@.len() > 0 ==> (r is Reject <==> rejects(input@) && !approves(input@)),
        r != ApprovalReply::Ordinary ==> exists|k: int|
            {
                &&& 0 <= k < pending@.len()
                &&& r == ApprovalReply::Approve((#[trigger] pending@[k]).id) || r
                    == ApprovalReply::Reject(pending@[k].id)
                &&& forall|j: int|
                    0 <= j < pending@.len() ==> pending@[k].created_at <= (
                    #[trigger] pending@[j]).created_at
            },
{
    if pending@.len() > 0 {
        let k = choose|k: int| #[trigger]
            oldest_at(pending@, k) && r == reply_to(lowercase(input@), pending@[k].id);
        assert forall|j: int| 0 <= j < pending@.len() implies pending@[k].created_at <= (
        #[trigger] pending@[j]).created_at by {
            a_reply_speaks_of_what_waited_longest(pending@, k, j);
        }
        assert(pending@[k].id == pending@[k].id);
    }
}

} // verus!
