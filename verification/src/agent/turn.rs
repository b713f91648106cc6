//! One turn of a conversation, from the owner's message to the answer.
//!
//! A message is screened first. A command of the cockpit is answered at once. A reply to a
//! question for approval settles that question, unless the message comes from somebody who may
//! not be the owner. Only what is left is an ordinary turn, an [`AdmittedTurn`]: it is written
//! down, answered by the chosen backend or by the personas, and by the provider itself where
//! they have no answer.
use vstd::prelude::*;
use crate::agent::approval_reply::{approval_resolution, oldest_at, reply_to, ApprovalReply};
use crate::agent::backend::ConversationBackend;
use crate::agent::cockpit::{command_of, parse_command, CockpitCommand};
use crate::capability::approval::ApprovalRow;
use crate::hooks::guardrails::{rejection, InputGuardrail};
use crate::text;
use crate::types::{
    BastionError, FailureKind, FailureReport, Message, MessageContent, PrivacyTier, Role,
};
use crate::unicode::lowercase;

verus! {

/// The owner of what is said at the host itself.
pub const DEFAULT_OWNER: &'static str = "_local";

/// Something that was said to an owner without being asked for.
#[derive(Debug, PartialEq)]
pub struct PendingItem {
    /// Whom it is for; without an owner it is for [`DEFAULT_OWNER`].
    pub owner: Option<String>,
    pub text: String,
}

impl PendingItem {
    /// Something for an owner.
    pub fn for_owner(owner: &str, text: String) -> (r: Self)
        ensures
            r.owner matches Some(name) && name@ == owner@,
            r.text == text,
    {
        PendingItem { owner: Some(owner.to_owned()), text }
    }
}

/// What comes of a message.
pub enum TurnOpening<'a> {
    /// It is not accepted.
    Refuse(BastionError),
    /// It is a command, whose answer is the answer.
    Command(CockpitCommand<'a>),
    /// It may be a reply to a question for approval: look which actions wait.
    AskApprovals(WaitingTurn<'a>),
    /// It is an ordinary turn.
    Start(AdmittedTurn<'a>),
}

/// What comes of a message when it is known which actions wait for approval.
pub enum ApprovalStage<'a> {
    /// It approves this action: run it and say so.
    Approve(i64),
    /// It rejects this action: say so.
    Reject(i64),
    /// It is an ordinary turn.
    Start(AdmittedTurn<'a>),
}

/// A message that may be a reply to a question for approval. It comes from the owner.
pub struct WaitingTurn<'a> {
    turn: AdmittedTurn<'a>,
}

/// A message that was screened, is no command, and settles no question for approval.
pub struct AdmittedTurn<'a> {
    guard: InputGuardrail,
    input: &'a str,
    owner: &'a str,
    untrusted: bool,
}

/// Takes a message.
pub fn open_turn<'a>(
    guard: &InputGuardrail,
    input: &'a str,
    owner: &'a str,
    untrusted: bool,
) -> (r: TurnOpening<'a>)
    ensures
        match rejection(guard.max_len, input@) {
            Some(detail) => {
                &&& r matches TurnOpening::Refuse(BastionError::InputGuardrailRejected(d))
                &&& d@ == detail
            },
            None => match command_of(input@) {
                Some(wanted) => r matches TurnOpening::Command(command) && command@ == wanted,
                None => if untrusted {
                    &&& r matches TurnOpening::Start(turn)
                    &&& turn.input() == input@ && turn.owner() == owner@ && turn.untrusted()
                } else {
                    &&& r matches TurnOpening::AskApprovals(waiting)
                    &&& waiting.input() == input@ && waiting.owner() == owner@
                },
            },
        },
{
    match guard.screen(input) {
        Err(e) => {
            return TurnOpening::Refuse(e);
        },
        Ok(_) => {},
    }
    match parse_command(input) {
        Some(command) => {
            return TurnOpening::Command(command);
        },
        None => {},
    }
    let turn: AdmittedTurn<'a> = AdmittedTurn {
        guard: InputGuardrail::new(guard.max_len),
        input,
        owner,
        untrusted,
    };
    if untrusted {
        TurnOpening::Start(turn)
    } else {
        TurnOpening::AskApprovals(WaitingTurn { turn })
    }
}

impl<'a> WaitingTurn<'a> {
    #[verifier::type_invariant]
    closed spec fn inv(self) -> bool {
        !self.turn.untrusted
    }

    /// The message.
    pub closed spec fn input(self) -> Seq<char> {
        self.turn.input@
    }

    /// Whose it is.
    pub closed spec fn owner(self) -> Seq<char> {
        self.turn.owner@
    }

    /// Takes the actions that wait for approval.
    pub fn hear(self, pending: &Vec<&ApprovalRow>) -> (r: ApprovalStage<'a>)
        ensures
            ({
                let ordinary = {
                    &&& r matches ApprovalStage::Start(turn)
                    &&& turn.input() == self.input() && turn.owner() == self.owner()
                    &&& !turn.untrusted()
                };
                if pending@.len() == 0 {
                    ordinary
                } else {
                    exists|k: int| #[trigger]
                        oldest_at(pending@, k) && match reply_to(
                            lowercase(self.input()),
                            pending@[k].id,
                        ) {
                            ApprovalReply::Approve(id) => r == ApprovalStage::<'a>::Approve(id),
                            ApprovalReply::Reject(id) => r == ApprovalStage::<'a>::Reject(id),
                            ApprovalReply::Ordinary => ordinary,
                        }
                }
            }),
    {
        proof {
            use_type_invariant(&self);
        }
        match approval_resolution(self.turn.input, pending) {
            ApprovalReply::Approve(id) => ApprovalStage::Approve(id),
            ApprovalReply::Reject(id) => ApprovalStage::Reject(id),
            ApprovalReply::Ordinary => ApprovalStage::Start(self.turn),
        }
    }
}

/// Which session a turn belongs to.
#[derive(Debug, PartialEq)]
pub enum SessionChoice {
    /// This one.
    Use(String),
    /// A new one of the owner.
    Create,
}

/// What answers a turn.
#[derive(Debug, PartialEq)]
pub enum Route<'b> {
    /// This runtime outside the host.
    Runtime(&'b str),
    /// The personas.
    Responder,
}

/// What the personas answered.
#[derive(Debug)]
pub struct RespondOutcome {
    pub text: String,
    pub attribution: Vec<String>,
    pub turn_tier: Option<PrivacyTier>,
}

/// What becomes of the personas' answer.
#[derive(Debug)]
pub enum Settled {
    /// It is the answer.
    Answer(String),
    /// There is none: ask the provider itself, with data of this tier, in the name of this
    /// persona.
    AskProvider { tier: Option<PrivacyTier>, persona: Option<String> },
}

impl<'a> AdmittedTurn<'a> {
    #[verifier::type_invariant]
    closed spec fn inv(self) -> bool {
        &&& rejection(self.guard.max_len, self.input@) is None
        &&& command_of(self.input@) is None
    }

    /// The message.
    pub closed spec fn input(self) -> Seq<char> {
        self.input@
    }

    /// Whose it is.
    pub closed spec fn owner(self) -> Seq<char> {
        self.owner@
    }

    /// Whether it may come from somebody else.
    pub closed spec fn untrusted(self) -> bool {
        self.untrusted
    }

    /// The longest message that was accepted.
    pub closed spec fn limit(self) -> usize {
        self.guard.max_len
    }

    /// The message, which is sound and no command.
    pub fn message(&self) -> (r: &'a str)
        ensures
            r@ == self.input(),
            rejection(self.limit(), self.input()) is None,
            command_of(self.input()) is None,
    {
        proof {
            use_type_invariant(self);
        }
        self.input
    }

    /// Whether the model is to see no capability at all in this turn.
    pub fn quarantined(&self) -> (r: bool)
        ensures
            r == self.untrusted(),
    {
        self.untrusted
    }

    /// Which session the turn belongs to: what is said at the host itself belongs to the session
    /// that was opened at the start, anything else to the most recent one of its owner.
    pub fn session(&self, own_session: &str, most_recent: Option<String>) -> (r: SessionChoice)
        ensures
            if self.owner() == DEFAULT_OWNER@ {
                r matches SessionChoice::Use(id) && id@ == own_session@
            } else {
                r == match most_recent {
                    Some(id) => SessionChoice::Use(id),
                    None => SessionChoice::Create,
                }
            },
    {
        if text::same(self.owner, DEFAULT_OWNER) {
            SessionChoice::Use(own_session.to_owned())
        } else {
            match most_recent {
                Some(id) => SessionChoice::Use(id),
                None => SessionChoice::Create,
            }
        }
    }

    /// What is written down of the message.
    pub fn user_message(&self) -> (r: Message)
        ensures
            r.role == Role::User,
            r.content matches MessageContent::Text(text) && text@ == self.input(),
    {
        Message { role: Role::User, content: MessageContent::Text(self.input.to_owned()) }
    }

    /// What answers the turn. A runtime outside the host answers it alone.
    pub fn route<'b>(&self, conversation: &'b ConversationBackend) -> (r: Route<'b>)
        ensures
            match *conversation {
                ConversationBackend::Model => r == Route::<'b>::Responder,
                ConversationBackend::Runtime(id) => r matches Route::Runtime(name) && name@ == id@,
            },
    {
        match conversation {
            ConversationBackend::Model => Route::Responder,
            ConversationBackend::Runtime(id) => Route::Runtime(id.as_str()),
        }
    }

    /// What is written down of the answer of a runtime outside the host.
    pub fn runtime_answer(&self, text: &str) -> (r: Message)
        ensures
            r.role == Role::Assistant,
            r.content matches MessageContent::Text(said) && said@ == text@,
    {
        Message { role: Role::Assistant, content: MessageContent::Text(text.to_owned()) }
    }

    /// What becomes of the personas' answer.
    pub fn settle(&self, outcome: RespondOutcome) -> (r: Settled)
        ensures
            if outcome.text@.len() == 0 {
                &&& r matches Settled::AskProvider { tier, persona }
                &&& tier == outcome.turn_tier
                &&& persona == if outcome.attribution@.len() == 0 {
                    None
                } else {
                    Some(outcome.attribution@[0])
                }
            } else {
                r == Settled::Answer(outcome.text)
            },
    {
        if outcome.text.as_str().unicode_len() == 0 {
            let persona: Option<String> = if outcome.attribution.len() == 0 {
                None
            } else {
                Some(outcome.attribution[0].clone())
            };
            Settled::AskProvider { tier: outcome.turn_tier, persona }
        } else {
            Settled::Answer(outcome.text)
        }
    }
}

/// What is reported when the provider could not be asked: that data was kept from leaving the
/// host, and nothing else.
pub fn failure_report(error: &BastionError, tier: Option<PrivacyTier>) -> (r: Option<FailureReport>)
    ensures
        if *error == BastionError::PrivacyEgressBlocked {
            &&& r matches Some(report)
            &&& report.kind == FailureKind::EgressReject
            &&& report.tier == tier
            &&& report.detail@ == "localonly_belief_blocked_from_cloud_provider"@
        } else {
            r is None
        },
{
    match error {
        BastionError::PrivacyEgressBlocked => Some(
            FailureReport {
                kind: FailureKind::EgressReject,
                tier,
                detail: "localonly_belief_blocked_from_cloud_provider",
            },
        ),
        _ => None,
    }
}

/// A message is taken up in this order: what is not sound is refused, a command is answered, and
/// only what is neither begins a turn. What may not be the owner's never settles a question for
/// approval.
pub proof fn how_a_message_is_taken_up<'a>(
    guard: &InputGuardrail,
    input: &'a str,
    owner: &'a str,
    untrusted: bool,
    r: TurnOpening<'a>,
)
    requires
        call_ensures(open_turn, (guard, input, owner, untrusted), r),
    ensures
        r is Refuse <==> rejection(guard.max_len, input@) is Some,
        r is Command <==> rejection(guard.max_len, input@) is None && command_of(input@) is Some,
        r is AskApprovals <==> rejection(guard.max_len, input@) is None && command_of(
            input@,
        ) is None && !untrusted,
        r is Start <==> rejection(guard.max_len, input@) is None && command_of(input@) is None
            && untrusted,
        r matches TurnOpening::Start(turn) ==> turn.input() == input@ && turn.owner() == owner@
            && turn.untrusted(),
        r matches TurnOpening::AskApprovals(waiting) ==> waiting.input() == input@
            && waiting.owner() == owner@,
{
}

/// What the personas answer is the answer, whole; where they have none the provider is asked in the
/// name of the first of them and with data of the turn's tier.
pub proof fn what_the_personas_say_stands<'a>(
    turn: &AdmittedTurn<'a>,
    outcome: RespondOutcome,
    r: Settled,
)
    requires
        call_ensures(AdmittedTurn::settle, (turn, outcome), r),
    ensures
        r is Answer <==> outcome.text@.len() > 0,
        r matches Settled::Answer(text) ==> text@ == outcome.text@,
        r matches Settled::AskProvider { tier, persona } ==> tier == outcome.turn_tier && (
        outcome.attribution@.len() > 0 ==> persona == Some(outcome.attribution@[0])) && (
        outcome.attribution@.len() == 0 ==> persona is None),
{
}

/// A turn goes on in a session of its own owner: at the host itself in the one that was opened
/// there, and else in the owner's most recent one, or in a new one.
pub proof fn a_turn_goes_on_in_its_owners_session<'a>(
    turn: &AdmittedTurn<'a>,
    own_session: &str,
    most_recent: Option<String>,
    r: SessionChoice,
)
    requires
        call_ensures(AdmittedTurn::session, (turn, own_session, most_recent), r),
    ensures
        turn.owner() == "_local"@ ==> (r matches SessionChoice::Use(id) && id@ == own_session@),
        turn.owner() != "_local"@ ==> (r is Create <==> most_recent is None),
        turn.owner() != "_local"@ ==> (most_recent matches Some(id) ==> r == SessionChoice::Use(
            id,
        )),
{
}

/// Only that data was kept on the host is reported, with the tier of the data.
pub proof fn only_kept_data_is_reported(
    error: &BastionError,
    tier: Option<PrivacyTier>,
    r: Option<FailureReport>,
)
    requires
        call_ensures(failure_report, (error, tier), r),
    ensures
        r is Some <==> *error == BastionError::PrivacyEgressBlocked,
        r matches Some(report) ==> report.tier == tier && report.kind == FailureKind::EgressReject,
{
}

} // verus!
