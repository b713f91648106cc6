//! Sessions with a runtime outside the host: a conversation that it serves, and tasks that are
//! delegated to it.
//!
//! The runtime reports what happens as events, each of which belongs to a task. A conversation
//! takes the text of its own task and denies every permission at once, for nobody can be asked
//! in the middle of a turn. A delegated task runs on its own: it may wait for the owner's decision,
//! and in the end the owner, and nobody else, is told what came of it.
use vstd::prelude::*;
use vstd::utf8::char_u32_cast;
use crate::agent::backend::{AuthProfileRef, BackendProfile};
use crate::agent::turn::PendingItem;
use crate::capability::permission_queue::{
    PermissionAction, PermissionDecision, PermissionRequestId,
};
use crate::task::store::SessionHandle;
use crate::text;
use crate::text::{decimal, hex_digit, joined, views};
use crate::types::{BastionError, DenyScope};

verus! {

/// How a task ended.
#[derive(Debug, PartialEq)]
pub enum TaskOutcome {
    Success,
    Cancelled,
    TimedOut,
    Failed { reason: String },
}

/// Something that a runtime reports. Of what nobody acts on, only the task is kept.
#[allow(inconsistent_fields)]
#[derive(Debug, PartialEq)]
pub enum RuntimeEvent {
    /// A piece of the answer.
    MessageDelta { task: u64, text: String },
    /// The runtime asks for leave.
    PermissionRequest {
        task: u64,
        id: PermissionRequestId,
        action: PermissionAction,
        detail: String,
    },
    /// The runtime made something: of which kind, and where it is.
    Artifact { task: u64, kind: String, path: String },
    /// The runtime changed a file.
    Diff { task: u64, path: String, added: u64, removed: u64 },
    /// The task is over.
    Ended { task: u64, outcome: TaskOutcome },
    /// Anything else.
    Other { task: Option<u64> },
}

/// The text that an event adds to the answer of a task.
pub open spec fn delta_of(event: RuntimeEvent, wanted: u64) -> Seq<char> {
    match event {
        RuntimeEvent::MessageDelta { task, text } => if task == wanted {
            text@
        } else {
            Seq::empty()
        },
        _ => Seq::empty(),
    }
}

/// The text of a task after these events.
pub open spec fn text_of(events: Seq<RuntimeEvent>, wanted: u64) -> Seq<char>
    decreases events.len(),
{
    if events.len() == 0 {
        Seq::empty()
    } else {
        text_of(events.drop_last(), wanted) + delta_of(events.last(), wanted)
    }
}

/// What is said where the events stop before the task does.
pub const STREAM_CLOSED: &'static str = "runtime session event stream closed before the task ended";

/// The decision that nobody had to take.
pub open spec fn denial() -> PermissionDecision {
    PermissionDecision::Deny { scope: DenyScope::Turn }
}

/// The decision that nobody had to take.
pub fn deny_turn() -> (r: PermissionDecision)
    ensures
        r == denial(),
{
    PermissionDecision::Deny { scope: DenyScope::Turn }
}

/// The prompt of a conversation turn: what the context has to say, an empty line, and the
/// message.
pub open spec fn runtime_prompt_text(parts: Seq<Seq<char>>, input: Seq<char>) -> Seq<char> {
    let context = joined(parts, "\n\n"@);
    if context.len() == 0 {
        input
    } else {
        context + "\n\n"@ + input
    }
}

/// The prompt of a conversation turn.
pub fn runtime_prompt(parts: &Vec<String>, input: &str) -> (r: String)
    ensures
        r@ == runtime_prompt_text(views(parts@), input@),
{
    let mut prompt: String = text::join(parts, "\n\n");
    if prompt.as_str().unicode_len() > 0 {
        prompt.append("\n\n");
    }
    let ghost head = prompt@;
    prompt.append(input);
    assert(Seq::<char>::empty() + input@ =~= input@);
    prompt
}

/// Whether a stored session is reattached: it is where it belongs to the runtime that is chosen
/// now. If that fails, or there is none, a new one is begun.
pub fn reattaches(persisted: &Option<SessionHandle>, runtime_id: &str) -> (r: bool)
    ensures
        r == (*persisted matches Some(handle) && handle.runtime_id@ == runtime_id@),
{
    match persisted {
        Some(handle) => text::same(handle.runtime_id.as_str(), runtime_id),
        None => false,
    }
}

/// The error of a backend that cannot serve.
pub fn unavailable(why: &str) -> (r: BastionError)
    ensures
        r matches BastionError::BackendUnavailable(m) && m@ == why@,
{
    BastionError::BackendUnavailable(why.to_owned())
}

/// What an event means to a conversation.
#[derive(Debug)]
pub enum ConversationStep {
    /// Wait for the next one.
    Continue,
    /// The runtime asked for leave: queue the request as decided, and deny it.
    Deny { id: PermissionRequestId, action: PermissionAction, detail: String },
    /// The turn is over.
    Finish(Result<String, BastionError>),
}

/// The result of a conversation turn whose task ended so.
pub open spec fn conversation_result(
    outcome: TaskOutcome,
    said: Seq<char>,
    r: Result<String, BastionError>,
) -> bool {
    match outcome {
        TaskOutcome::Success => r matches Ok(text) && text@ == said,
        TaskOutcome::Cancelled => r matches Err(BastionError::BackendUnavailable(m)) && m@
            == "runtime task was cancelled before completion"@,
        TaskOutcome::TimedOut => r matches Err(BastionError::BackendUnavailable(m)) && m@
            == "runtime task timed out"@,
        TaskOutcome::Failed { reason } => r matches Err(BastionError::BackendUnavailable(m)) && m@
            == reason@,
    }
}

/// A conversation turn that a runtime serves.
pub struct RuntimeConversation {
    task: u64,
    text: String,
}

impl RuntimeConversation {
    /// The task of the turn.
    pub closed spec fn task(self) -> u64 {
        self.task
    }

    /// The answer so far.
    pub closed spec fn said(self) -> Seq<char> {
        self.text@
    }

    /// Before the first event.
    pub fn new(task: u64) -> (r: Self)
        ensures
            r.task() == task,
            r.said() == Seq::<char>::empty(),
    {
        RuntimeConversation { task, text: String::new() }
    }

    /// Takes the next event; `None` where there will be no more.
    pub fn hear(self, event: Option<RuntimeEvent>) -> (r: (Self, ConversationStep))
        ensures
            r.0.task() == self.task(),
            match event {
                None => {
                    &&& r.0.said() == self.said()
                    &&& r.1 matches ConversationStep::Finish(Err(BastionError::BackendUnavailable(m)))
                    &&& m@ == STREAM_CLOSED@
                },
                Some(event) => {
                    &&& r.0.said() == self.said() + delta_of(event, self.task())
                    &&& match event {
                        RuntimeEvent::PermissionRequest { task, id, action, detail } => if task
                            == self.task() {
                            r.1 == (ConversationStep::Deny { id, action, detail })
                        } else {
                            r.1 == ConversationStep::Continue
                        },
                        RuntimeEvent::Ended { task, outcome } => if task == self.task() {
                            &&& r.1 matches ConversationStep::Finish(result)
                            &&& conversation_result(outcome, self.said(), result)
                        } else {
                            r.1 == ConversationStep::Continue
                        },
                        _ => r.1 == ConversationStep::Continue,
                    }
                },
            },
    {
        let task: u64 = self.task;
        let mut text: String = self.text;
        let ghost before = text@;
        assert(before + Seq::<char>::empty() =~= before);
        let step: ConversationStep = match event {
            None => ConversationStep::Finish(Err(unavailable(STREAM_CLOSED))),
            Some(RuntimeEvent::MessageDelta { task: t, text: delta }) => {
                if t == task {
                    text.append(delta.as_str());
                }
                ConversationStep::Continue
            },
            Some(RuntimeEvent::PermissionRequest { task: t, id, action, detail }) => if t == task {
                ConversationStep::Deny { id, action, detail }
            } else {
                ConversationStep::Continue
            },
            Some(RuntimeEvent::Ended { task: t, outcome }) => if t == task {
                ConversationStep::Finish(
                    match outcome {
                        TaskOutcome::Success => Ok(text.clone()),
                        TaskOutcome::Cancelled => Err(
                            unavailable("runtime task was cancelled before completion"),
                        ),
                        TaskOutcome::TimedOut => Err(unavailable("runtime task timed out")),
                        TaskOutcome::Failed { reason } => Err(
                            BastionError::BackendUnavailable(reason),
                        ),
                    },
                )
            } else {
                ConversationStep::Continue
            },
            Some(RuntimeEvent::Artifact { .. })
            | Some(RuntimeEvent::Diff { .. })
            | Some(RuntimeEvent::Other { .. }) => ConversationStep::Continue,
        };
        (RuntimeConversation { task, text }, step)
    }
}

/// When the wait for a permission ends by itself.
pub fn expiry(raised_at: i64, timeout_nanos: i64) -> (r: i64)
    requires
        i64::MIN <= raised_at + timeout_nanos <= i64::MAX,
    ensures
        r == raised_at + timeout_nanos,
{
    raised_at + timeout_nanos
}

/// What ends the wait for a decision.
#[derive(Clone, Copy, Debug, PartialEq, Eq, Structural)]
pub enum WaitEnd {
    /// The request could not be queued, so there is nothing to wait for.
    NotQueued,
    /// A decision was taken; `None` where whoever was to take it is gone.
    Answered(Option<PermissionDecision>),
    /// The time is over.
    TimedOut,
    /// The task was cancelled.
    Cancelled,
}

/// What the wait for a decision comes to.
#[derive(Clone, Copy, Debug, PartialEq, Eq, Structural)]
pub struct PermissionWaitOutcome {
    /// What the runtime is told.
    pub decision: PermissionDecision,
    /// Whether the decision is still to be written to the queue.
    pub record: bool,
    /// Whether the runtime is also to cancel the task.
    pub cancel: bool,
}

/// What the wait for a decision comes to. Without a decision of the owner it is a denial.
pub open spec fn wait_result(end: WaitEnd) -> PermissionWaitOutcome {
    match end {
        WaitEnd::NotQueued => PermissionWaitOutcome {
            decision: denial(),
            record: false,
            cancel: false,
        },
        WaitEnd::Answered(Some(decision)) => PermissionWaitOutcome {
            decision,
            record: false,
            cancel: false,
        },
        WaitEnd::Answered(None) => PermissionWaitOutcome {
            decision: denial(),
            record: false,
            cancel: false,
        },
        WaitEnd::TimedOut => PermissionWaitOutcome {
            decision: denial(),
            record: true,
            cancel: false,
        },
        WaitEnd::Cancelled => PermissionWaitOutcome {
            decision: denial(),
            record: true,
            cancel: true,
        },
    }
}

/// What the wait for a decision comes to.
pub fn permission_outcome(end: WaitEnd) -> (r: PermissionWaitOutcome)
    ensures
        r == wait_result(end),
{
    match end {
        WaitEnd::Answered(Some(decision)) => PermissionWaitOutcome {
            decision,
            record: false,
            cancel: false,
        },
        WaitEnd::NotQueued | WaitEnd::Answered(None) => PermissionWaitOutcome {
            decision: deny_turn(),
            record: false,
            cancel: false,
        },
        WaitEnd::TimedOut => PermissionWaitOutcome {
            decision: deny_turn(),
            record: true,
            cancel: false,
        },
        WaitEnd::Cancelled => PermissionWaitOutcome {
            decision: deny_turn(),
            record: true,
            cancel: true,
        },
    }
}

/// A runtime is allowed something only where somebody decided so.
pub proof fn nothing_is_allowed_by_default(end: WaitEnd)
    ensures
        wait_result(end).decision == PermissionDecision::Allow <==> end == WaitEnd::Answered(
            Some(PermissionDecision::Allow),
        ),
{
}

/// What an event adds to the list of what a task made.
pub open spec fn artifact_of(event: RuntimeEvent, wanted: u64) -> Seq<Seq<char>> {
    match event {
        RuntimeEvent::Artifact { task, kind, path } => if task == wanted {
            seq![kind@ + " "@ + path@]
        } else {
            Seq::empty()
        },
        RuntimeEvent::Diff { task, path, added, removed } => if task == wanted {
            seq![
                "diff "@ + path@ + " (+"@ + decimal(added as nat) + "/-"@ + decimal(
                    removed as nat,
                ) + ")"@,
            ]
        } else {
            Seq::empty()
        },
        _ => Seq::empty(),
    }
}

/// What a task made, after these events.
pub open spec fn artifacts_of(events: Seq<RuntimeEvent>, wanted: u64) -> Seq<Seq<char>>
    decreases events.len(),
{
    if events.len() == 0 {
        Seq::empty()
    } else {
        artifacts_of(events.drop_last(), wanted) + artifact_of(events.last(), wanted)
    }
}

/// What an event means to a delegated task.
#[derive(Debug)]
pub enum DelegatedStep {
    /// Wait for the next one.
    Continue,
    /// The runtime asks for leave: wait for the owner's decision.
    AskPermission { id: PermissionRequestId, action: PermissionAction, detail: String },
    /// The task is over: forget its session, and tell the owner by [`DelegatedTask::report`].
    Ended(TaskOutcome),
}

/// The list of what a task made, as the owner is told.
pub open spec fn artifact_summary(artifacts: Seq<Seq<char>>) -> Seq<char> {
    if artifacts.len() == 0 {
        Seq::empty()
    } else {
        "\nArtefatos: "@ + joined(artifacts, ", "@)
    }
}

/// What the owner is told of a task.
pub open spec fn task_report(
    key: Seq<char>,
    outcome: TaskOutcome,
    said: Seq<char>,
    artifacts: Seq<Seq<char>>,
) -> Seq<char> {
    "[Tarefa delegada '"@ + key + match outcome {
        TaskOutcome::Success => "' concluída]\n"@ + said,
        TaskOutcome::Cancelled => "' cancelada]"@,
        TaskOutcome::TimedOut => "' expirou por timeout]"@,
        TaskOutcome::Failed { reason } => "' falhou: "@ + reason@ + "]"@,
    } + artifact_summary(artifacts)
}

/// A task that was delegated to a runtime.
pub struct DelegatedTask {
    key: String,
    owner: String,
    task: u64,
    text: String,
    artifacts: Vec<String>,
}

impl DelegatedTask {
    /// Under which name it is known.
    pub closed spec fn key(self) -> Seq<char> {
        self.key@
    }

    /// Whose it is.
    pub closed spec fn owner(self) -> Seq<char> {
        self.owner@
    }

    /// The task.
    pub closed spec fn task(self) -> u64 {
        self.task
    }

    /// The answer so far.
    pub closed spec fn said(self) -> Seq<char> {
        self.text@
    }

    /// What was made so far.
    pub closed spec fn made(self) -> Seq<Seq<char>> {
        views(self.artifacts@)
    }

    /// Which task it is stays the same.
    pub open spec fn same_task(self, other: DelegatedTask) -> bool {
        self.key() == other.key() && self.owner() == other.owner() && self.task() == other.task()
    }

    /// Before the first event.
    pub fn new(key: String, owner: String, task: u64) -> (r: Self)
        ensures
            r.key() == key@,
            r.owner() == owner@,
            r.task() == task,
            r.said() == Seq::<char>::empty(),
            r.made() == Seq::<Seq<char>>::empty(),
    {
        let r: DelegatedTask = DelegatedTask {
            key,
            owner,
            task,
            text: String::new(),
            artifacts: Vec::new(),
        };
        assert(r.made() =~= Seq::<Seq<char>>::empty());
        r
    }

    /// Takes the next event; `None` where there will be no more, which is a failure of the task.
    pub fn hear(self, event: Option<RuntimeEvent>) -> (r: (Self, DelegatedStep))
        ensures
            r.0.same_task(self),
            match event {
                None => {
                    &&& r.0.said() == self.said() && r.0.made() == self.made()
                    &&& r.1 matches DelegatedStep::Ended(TaskOutcome::Failed { reason })
                    &&& reason@ == STREAM_CLOSED@
                },
                Some(event) => {
                    &&& r.0.said() == self.said() + delta_of(event, self.task())
                    &&& r.0.made() == self.made() + artifact_of(event, self.task())
                    &&& match event {
                        RuntimeEvent::PermissionRequest { task, id, action, detail } => if task
                            == self.task() {
                            r.1 == (DelegatedStep::AskPermission { id, action, detail })
                        } else {
                            r.1 == DelegatedStep::Continue
                        },
                        RuntimeEvent::Ended { task, outcome } => if task == self.task() {
                            r.1 == DelegatedStep::Ended(outcome)
                        } else {
                            r.1 == DelegatedStep::Continue
                        },
                        _ => r.1 == DelegatedStep::Continue,
                    }
                },
            },
    {
        let task: u64 = self.task;
        let mut text: String = self.text;
        let mut artifacts: Vec<String> = self.artifacts;
        let ghost said = text@;
        let ghost made = views(artifacts@);
        assert(said + Seq::<char>::empty() =~= said);
        assert(made + Seq::<Seq<char>>::empty() =~= made);
        let step: DelegatedStep = match event {
            None => DelegatedStep::Ended(TaskOutcome::Failed { reason: STREAM_CLOSED.to_owned() }),
            Some(RuntimeEvent::MessageDelta { task: t, text: delta }) => {
                if t == task {
                    text.append(delta.as_str());
                }
                DelegatedStep::Continue
            },
            Some(RuntimeEvent::PermissionRequest { task: t, id, action, detail }) => if t == task {
                DelegatedStep::AskPermission { id, action, detail }
            } else {
                DelegatedStep::Continue
            },
            Some(RuntimeEvent::Artifact { task: t, kind, path }) => {
                if t == task {
                    let line: String = text::concat3(kind.as_str(), " ", path.as_str());
                    let ghost one = line@;
                    artifacts.push(line);
                    assert(views(artifacts@) =~= made + seq![one]);
                }
                DelegatedStep::Continue
            },
            Some(RuntimeEvent::Diff { task: t, path, added, removed }) => {
                if t == task {
                    let mut line: String = "diff ".to_owned();
                    line.append(path.as_str());
                    line.append(" (+");
                    text::push_decimal(&mut line, added);
                    line.append("/-");
                    text::push_decimal(&mut line, removed);
                    line.append(")");
                    let ghost one = line@;
                    artifacts.push(line);
                    assert(views(artifacts@) =~= made + seq![one]);
                }
                DelegatedStep::Continue
            },
            Some(RuntimeEvent::Ended { task: t, outcome }) => if t == task {
                DelegatedStep::Ended(outcome)
            } else {
                DelegatedStep::Continue
            },
            Some(RuntimeEvent::Other { .. }) => DelegatedStep::Continue,
        };
        (DelegatedTask { key: self.key, owner: self.owner, task, text, artifacts }, step)
    }

    /// What the owner is told, and nobody else.
    pub fn report(&self, outcome: &TaskOutcome) -> (r: PendingItem)
        ensures
            r.owner matches Some(name) && name@ == self.owner(),
            r.text@ == task_report(self.key(), *outcome, self.said(), self.made()),
    {
        let mut list: String = String::new();
        if self.artifacts.len() > 0 {
            list.append("\nArtefatos: ");
            let joined_list: String = text::join(&self.artifacts, ", ");
            list.append(joined_list.as_str());
        }
        assert(list@ =~= artifact_summary(self.made()));
        let mut out: String = "[Tarefa delegada '".to_owned();
        out.append(self.key.as_str());
        let ghost head = out@;
        let mut middle: String = String::new();
        match outcome {
            TaskOutcome::Success => {
                middle.append("' concluída]\n");
                middle.append(self.text.as_str());
                assert(middle@ =~= "' concluída]\n"@ + self.said());
            },
            TaskOutcome::Cancelled => {
                middle.append("' cancelada]");
                assert(middle@ =~= "' cancelada]"@);
            },
            TaskOutcome::TimedOut => {
                middle.append("' expirou por timeout]");
                assert(middle@ =~= "' expirou por timeout]"@);
            },
            TaskOutcome::Failed { reason } => {
                middle.append("' falhou: ");
                middle.append(reason.as_str());
                middle.append("]");
                assert(middle@ =~= "' falhou: "@ + reason@ + "]"@);
            },
        }
        out.append(middle.as_str());
        out.append(list.as_str());
        PendingItem::for_owner(self.owner.as_str(), out)
    }
}

/// A number in hexadecimal notation, in lower case and without leading zeros.
pub open spec fn hexadecimal(n: nat) -> Seq<char>
    decreases n,
{
    if n < 16 {
        seq![hex_digit(n as int)]
    } else {
        hexadecimal(n / 16).push(hex_digit((n % 16) as int))
    }
}

/// Adds a number in hexadecimal notation.
fn push_hexadecimal(out: &mut String, n: u128)
    ensures
        final(out)@ == old(out)@ + hexadecimal(n as nat),
    decreases n,
{
    let ghost before = out@;
    if n >= 16 {
        push_hexadecimal(out, n / 16);
    }
    text::push_hex_digit(out, (n % 16) as u8);
    assert(out@ =~= before + hexadecimal(n as nat));
}

/// The name of a delegated task: whose it is, when it was begun, and the how-manieth it is.
pub open spec fn task_key_text(owner: Seq<char>, nanos: nat, n: nat) -> Seq<char> {
    "task:"@ + owner + ":"@ + hexadecimal(nanos) + "-"@ + decimal(n)
}

/// The name of a delegated task.
pub fn task_key(owner: &str, nanos: u128, n: u64) -> (r: String)
    ensures
        r@ == task_key_text(owner@, nanos as nat, n as nat),
{
    let mut out: String = "task:".to_owned();
    out.append(owner);
    out.append(":");
    push_hexadecimal(&mut out, nanos);
    out.append("-");
    text::push_decimal(&mut out, n);
    out
}

/// The runtime that tasks are delegated to.
pub fn delegation_target(profile: &BackendProfile) -> (r: Result<&str, BastionError>)
    ensures
        match profile.task_runtime {
            Some(id) => r matches Ok(name) && name@ == id@,
            None => r matches Err(BastionError::BackendUnavailable(m)) && m@
                == "no task_runtime configured in BackendProfile — delegation is disabled"@,
        },
{
    match &profile.task_runtime {
        Some(id) => Ok(id.as_str()),
        None => Err(
            unavailable("no task_runtime configured in BackendProfile — delegation is disabled"),
        ),
    }
}

/// The stored session of a delegated task that is to go on.
pub fn stored_session(key: &str, persisted: Option<SessionHandle>) -> (r: Result<
    SessionHandle,
    BastionError,
>)
    ensures
        match persisted {
            Some(handle) => r == Ok::<SessionHandle, BastionError>(handle),
            None => r matches Err(BastionError::BackendUnavailable(m)) && m@
                == "no persisted handle for delegated task '"@ + key@ + "'"@,
        },
{
    match persisted {
        Some(handle) => Ok(handle),
        None => Err(
            BastionError::BackendUnavailable(
                text::concat3("no persisted handle for delegated task '", key, "'"),
            ),
        ),
    }
}

/// The character is an ASCII letter or digit.
pub open spec fn plain_char(c: char) -> bool {
    ('a' <= c && c <= 'z') || ('A' <= c && c <= 'Z') || ('0' <= c && c <= '9')
}

/// How a character stands in the name of a directory: a letter or a digit as it is, anything else
/// by its number between underscores.
pub open spec fn named_char(c: char) -> Seq<char> {
    if plain_char(c) {
        seq![c]
    } else {
        seq!['_'] + text::decimal(c as u32 as nat) + seq!['_']
    }
}

/// How a text stands in the name of a directory, character by character.
pub open spec fn named_text(s: Seq<char>) -> Seq<char>
    decreases s.len(),
{
    if s.len() == 0 {
        Seq::empty()
    } else {
        named_char(s[0]) + named_text(s.skip(1))
    }
}

/// The name of an owner's directory, of which every owner has one of their own.
pub open spec fn workspace_text(owner: Seq<char>) -> Seq<char> {
    if owner.len() == 0 {
        "_owner"@
    } else {
        named_text(owner)
    }
}

/// The name of an owner's directory, below the directory of all workspaces.
pub fn workspace_name(owner: &str) -> (r: String)
    ensures
        r@ == workspace_text(owner@),
{
    let chars: Vec<char> = text::chars_of(owner);
    if chars.len() == 0 {
        return "_owner".to_owned();
    }
    proof {
        reveal_strlit("_");
        assert("_"@ =~= seq!['_']);
    }
    let mut out: String = String::new();
    let mut i: usize = 0;
    assert(owner@.skip(0) =~= owner@);
    assert(out@ + named_text(owner@.skip(0)) =~= named_text(owner@));
    while i < chars.len()
        invariant
            i <= chars@.len(),
            chars@ == owner@,
            "_"@ == seq!['_'],
            out@ + named_text(owner@.skip(i as int)) == named_text(owner@),
        decreases chars@.len() - i,
    {
        let c: char = chars[i];
        let ghost before = out@;
        let ghost rest = owner@.skip(i as int);
        assert(rest[0] == c);
        assert(rest.skip(1) =~= owner@.skip(i + 1));
        if ('a' <= c && c <= 'z') || ('A' <= c && c <= 'Z') || ('0' <= c && c <= '9') {
            let one: &str = owner.substring_char(i, i + 1);
            assert(one@ =~= seq![c]);
            out.append(one);
        } else {
            out.append("_");
            let number: u32 = c as u32;
            text::push_decimal(&mut out, number as u64);
            out.append("_");
        }
        assert(out@ =~= before + named_char(c));
        assert(out@ + named_text(owner@.skip(i + 1)) =~= before + named_text(rest));
        i = i + 1;
    }
    assert(owner@.skip(i as int) =~= Seq::<char>::empty());
    assert(out@ =~= named_text(owner@));
    out
}

/// The name of a directory never leads out of the directory of all workspaces: it is not empty,
/// and holds letters, digits and underscores alone.
pub proof fn a_workspace_name_is_plain(owner: Seq<char>)
    ensures
        workspace_text(owner).len() > 0,
        forall|i: int|
            0 <= i < workspace_text(owner).len() ==> plain_char(#[trigger] workspace_text(owner)[i])
                || workspace_text(owner)[i] == '_',
{
    reveal_strlit("_owner");
    let name = workspace_text(owner);
    if owner.len() == 0 {
        assert("_owner"@.len() == 6);
        assert(name[0] == '_' && name[1] == 'o' && name[2] == 'w' && name[3] == 'n' && name[4]
            == 'e' && name[5] == 'r');
    } else {
        lemma_named_char(owner[0]);
        lemma_named_text(owner);
    }
}

/// How a character stands in a name.
proof fn lemma_named_char(c: char)
    ensures
        named_char(c).len() > 0,
        named_char(c)[0] == if plain_char(c) {
            c
        } else {
            '_'
        },
        forall|i: int|
            0 <= i < named_char(c).len() ==> plain_char(#[trigger] named_char(c)[i])
                || named_char(c)[i] == '_',
{
    text::a_decimal_reads_back(c as u32 as nat);
    let digits = text::decimal(c as u32 as nat);
    assert forall|i: int| 0 <= i < named_char(c).len() implies plain_char(
        #[trigger] named_char(c)[i],
    ) || named_char(c)[i] == '_' by {
        if !plain_char(c) && 0 < i <= digits.len() {
            assert(named_char(c)[i] == digits[i - 1]);
        }
    }
}

/// How a text stands in a name.
proof fn lemma_named_text(s: Seq<char>)
    ensures
        forall|i: int|
            0 <= i < named_text(s).len() ==> plain_char(#[trigger] named_text(s)[i])
                || named_text(s)[i] == '_',
    decreases s.len(),
{
    if s.len() > 0 {
        let head = named_char(s[0]);
        let tail = named_text(s.skip(1));
        lemma_named_char(s[0]);
        lemma_named_text(s.skip(1));
        assert forall|i: int| 0 <= i < named_text(s).len() implies plain_char(
            #[trigger] named_text(s)[i],
        ) || named_text(s)[i] == '_' by {
            if i < head.len() {
                assert(named_text(s)[i] == head[i]);
            } else {
                assert(named_text(s)[i] == tail[i - head.len()]);
            }
        }
    }
}

/// Two characters of which one stands in a name where the other does, before whatever follows,
/// are the same.
proof fn lemma_named_chars_differ(a: char, b: char, after_a: Seq<char>, after_b: Seq<char>)
    requires
        named_char(a) + after_a == named_char(b) + after_b,
    ensures
        a == b,
{
    let left = named_char(a) + after_a;
    let right = named_char(b) + after_b;
    lemma_named_char(a);
    lemma_named_char(b);
    assert(left[0] == named_char(a)[0] && right[0] == named_char(b)[0]);
    if !plain_char(a) && !plain_char(b) {
        text::a_decimal_reads_back(a as u32 as nat);
        char_u32_cast(a, a as u32);
        text::a_decimal_reads_back(b as u32 as nat);
        char_u32_cast(b, b as u32);
        let in_a = text::decimal(a as u32 as nat);
        let in_b = text::decimal(b as u32 as nat);
        assert forall|i: int| 0 <= i < in_a.len() implies left[i + 1] == #[trigger] in_a[i] by {}
        assert forall|i: int| 0 <= i < in_b.len() implies right[i + 1] == #[trigger] in_b[i] by {}
        assert(left[in_a.len() as int + 1] == '_' && right[in_b.len() as int + 1] == '_');
        if in_a.len() < in_b.len() {
            assert(text::is_digit(in_b[in_a.len() as int]));
        }
        if in_b.len() < in_a.len() {
            assert(text::is_digit(in_a[in_b.len() as int]));
        }
        assert forall|i: int| 0 <= i < in_a.len() implies in_a[i] == in_b[i] by {
            assert(left[i + 1] == in_a[i] && right[i + 1] == in_b[i]);
        }
        assert(in_a =~= in_b);
    }
}

/// Texts that stand in a name alike are alike.
proof fn lemma_named_texts_differ(a: Seq<char>, b: Seq<char>)
    requires
        named_text(a) == named_text(b),
    ensures
        a == b,
    decreases a.len(),
{
    if a.len() > 0 {
        lemma_named_char(a[0]);
    }
    if b.len() > 0 {
        lemma_named_char(b[0]);
    }
    if a.len() > 0 && b.len() > 0 {
        lemma_named_chars_differ(a[0], b[0], named_text(a.skip(1)), named_text(b.skip(1)));
        let n = named_char(a[0]).len() as int;
        assert(named_text(a).skip(n) =~= named_text(a.skip(1)));
        assert(named_text(b).skip(n) =~= named_text(b.skip(1)));
        lemma_named_texts_differ(a.skip(1), b.skip(1));
        assert(a =~= seq![a[0]] + a.skip(1));
        assert(b =~= seq![b[0]] + b.skip(1));
    } else {
        assert(a =~= b);
    }
}

/// Every owner has a directory of their own: owners whose directories have the same name are the
/// same owner.
pub proof fn every_owner_has_a_workspace_of_their_own(a: Seq<char>, b: Seq<char>)
    requires
        workspace_text(a) == workspace_text(b),
    ensures
        a == b,
{
    reveal_strlit("_owner");
    assert("_owner"@[0] == '_' && "_owner"@[1] == 'o');
    if a.len() > 0 && b.len() > 0 {
        lemma_named_texts_differ(a, b);
    } else if a.len() > 0 {
        lemma_named_text_is_not_reserved(a);
    } else if b.len() > 0 {
        lemma_named_text_is_not_reserved(b);
    } else {
        assert(a =~= b);
    }
}

/// The name for nobody is no name of anybody.
proof fn lemma_named_text_is_not_reserved(s: Seq<char>)
    requires
        s.len() > 0,
    ensures
        named_text(s) != "_owner"@,
{
    reveal_strlit("_owner");
    lemma_named_char(s[0]);
    assert(named_text(s)[0] == named_char(s[0])[0]);
    if !plain_char(s[0]) {
        let digits = text::decimal(s[0] as u32 as nat);
        text::a_decimal_reads_back(s[0] as u32 as nat);
        assert(named_text(s)[1] == digits[0]);
        assert(text::is_digit(digits[0]));
    }
}

/// How long a runtime may take: over one task, and without anything to do, in seconds.
#[derive(Clone, Copy, Debug, PartialEq, Eq, Structural)]
pub struct TimeoutPolicy {
    pub per_task_secs: u64,
    pub idle_secs: u64,
}

/// What a session with a runtime is begun with. The runtime is confined to the owner's directory,
/// may use the network, is allowed nothing beforehand, and sees of the environment what stands
/// here.
#[derive(Debug)]
pub struct SessionSpec {
    pub owner: String,
    pub workspace: String,
    pub read_only: bool,
    pub allow_network: bool,
    pub allowed_actions: Vec<PermissionAction>,
    pub auth: AuthProfileRef,
    pub runtime_id: String,
    pub timeout: TimeoutPolicy,
    pub env_home: Option<String>,
    pub env_path: Option<String>,
}

/// The credentials that are used where none are chosen: those of the runtime's own login.
pub const HOST_LOGIN: &'static str = "host-cli-login";

/// What a session with a runtime is begun with. A session that is reattached keeps the workspace
/// it was begun with, and takes the timeouts, the allowed actions and the environment anew.
pub fn build_runtime_session_spec(
    owner: &str,
    runtime_id: &str,
    profile: &BackendProfile,
    env_home: Option<String>,
    env_path: Option<String>,
) -> (r: SessionSpec)
    ensures
        r.owner@ == owner@,
        r.workspace@ == workspace_text(owner@),
        !r.read_only,
        r.allow_network,
        r.allowed_actions@ == Seq::<PermissionAction>::empty(),
        match profile.auth {
            Some(reference) => r.auth == reference,
            None => r.auth.0@ == HOST_LOGIN@,
        },
        r.runtime_id@ == runtime_id@,
        r.timeout == (TimeoutPolicy { per_task_secs: 120, idle_secs: 300 }),
        r.env_home == env_home,
        r.env_path == env_path,
{
    let auth: AuthProfileRef = match &profile.auth {
        Some(reference) => reference.clone(),
        None => AuthProfileRef(HOST_LOGIN.to_owned()),
    };
    SessionSpec {
        owner: owner.to_owned(),
        workspace: workspace_name(owner),
        read_only: false,
        allow_network: true,
        allowed_actions: Vec::new(),
        auth,
        runtime_id: runtime_id.to_owned(),
        timeout: TimeoutPolicy { per_task_secs: 120, idle_secs: 300 },
        env_home,
        env_path,
    }
}

/// The task that an event belongs to, if it belongs to one.
pub open spec fn task_of(event: RuntimeEvent) -> Option<u64> {
    match event {
        RuntimeEvent::MessageDelta { task, text } => Some(task),
        RuntimeEvent::PermissionRequest { task, id, action, detail } => Some(task),
        RuntimeEvent::Artifact { task, kind, path } => Some(task),
        RuntimeEvent::Diff { task, path, added, removed } => Some(task),
        RuntimeEvent::Ended { task, outcome } => Some(task),
        RuntimeEvent::Other { task } => task,
    }
}

/// Event by event, the text of a task grows by what its own events say, and the list of what it
/// made by what they report; events of other tasks leave no trace in either.
pub proof fn a_task_is_told_apart(events: Seq<RuntimeEvent>, next: RuntimeEvent, wanted: u64)
    ensures
        text_of(events.push(next), wanted) == text_of(events, wanted) + delta_of(next, wanted),
        artifacts_of(events.push(next), wanted) == artifacts_of(events, wanted) + artifact_of(
            next,
            wanted,
        ),
        task_of(next) != Some(wanted) ==> text_of(events.push(next), wanted) == text_of(
            events,
            wanted,
        ) && artifacts_of(events.push(next), wanted) == artifacts_of(events, wanted),
{
    assert(events.push(next).drop_last() =~= events);
    assert(text_of(events, wanted) + Seq::<char>::empty() =~= text_of(events, wanted));
    assert(artifacts_of(events, wanted) + Seq::<Seq<char>>::empty() =~= artifacts_of(
        events,
        wanted,
    ));
}

/// A piece of text adds itself, whole, to the answer of its own task and to no other, and nothing
/// else adds anything.
pub proof fn only_its_own_text_is_added(event: RuntimeEvent, wanted: u64)
    ensures
        match event {
            RuntimeEvent::MessageDelta { task, text } => delta_of(event, wanted) == if task
                == wanted {
                text@
            } else {
                Seq::<char>::empty()
            },
            _ => delta_of(event, wanted).len() == 0,
        },
{
}

/// The answer of a task is made of the pieces of its own, all of them and in their order: two
/// stretches of events tell one after the other what each tells.
pub proof fn the_answer_is_made_piece_by_piece(
    earlier: Seq<RuntimeEvent>,
    later: Seq<RuntimeEvent>,
    wanted: u64,
)
    ensures
        text_of(earlier + later, wanted) == text_of(earlier, wanted) + text_of(later, wanted),
        artifacts_of(earlier + later, wanted) == artifacts_of(earlier, wanted) + artifacts_of(
            later,
            wanted,
        ),
    decreases later.len(),
{
    if later.len() == 0 {
        assert(earlier + later =~= earlier);
        assert(text_of(earlier, wanted) + Seq::<char>::empty() =~= text_of(earlier, wanted));
        assert(artifacts_of(earlier, wanted) + Seq::<Seq<char>>::empty() =~= artifacts_of(
            earlier,
            wanted,
        ));
    } else {
        the_answer_is_made_piece_by_piece(earlier, later.drop_last(), wanted);
        assert((earlier + later).drop_last() =~= earlier + later.drop_last());
        assert(text_of(earlier + later, wanted) =~= text_of(earlier, wanted) + text_of(
            later,
            wanted,
        ));
        assert(artifacts_of(earlier + later, wanted) =~= artifacts_of(earlier, wanted)
            + artifacts_of(later, wanted));
    }
}

/// What a task made is told by one entry with its kind and its path, and a change of a file by one
/// with its path and how much was added and removed; other tasks and other events add none.
pub proof fn what_a_task_made_is_told(event: RuntimeEvent, wanted: u64)
    ensures
        match event {
            RuntimeEvent::Artifact { task, kind, path } => if task == wanted {
                &&& artifact_of(event, wanted).len() == 1
                &&& text::begins_with(artifact_of(event, wanted)[0], kind@)
                &&& text::occurs(artifact_of(event, wanted)[0], path@)
            } else {
                artifact_of(event, wanted).len() == 0
            },
            RuntimeEvent::Diff { task, path, added, removed } => if task == wanted {
                &&& artifact_of(event, wanted).len() == 1
                &&& text::occurs(artifact_of(event, wanted)[0], path@)
                &&& text::occurs(artifact_of(event, wanted)[0], seq!['+'] + decimal(added as nat))
                &&& text::occurs(artifact_of(event, wanted)[0], seq!['-'] + decimal(removed as nat))
            } else {
                artifact_of(event, wanted).len() == 0
            },
            _ => artifact_of(event, wanted).len() == 0,
        },
{
    match event {
        RuntimeEvent::Artifact { task, kind, path } => {
            let line = kind@ + " "@ + path@;
            assert(line.subrange(0, kind@.len() as int) =~= kind@);
            text::what_is_written_last_stands_there(kind@ + " "@, path@);
        },
        RuntimeEvent::Diff { task, path, added, removed } => {
            let plus = decimal(added as nat);
            let minus = decimal(removed as nat);
            reveal_strlit(" (+");
            reveal_strlit("/-");
            let line = "diff "@ + path@ + " (+"@ + plus + "/-"@ + minus + ")"@;
            let rest = " (+"@ + plus + "/-"@ + minus + ")"@;
            text::what_is_written_between_stands_there("diff "@, path@, rest);
            assert(line =~= "diff "@ + path@ + rest);
            let left = "diff "@ + path@ + seq![' ', '('];
            let rest = "/-"@ + minus + ")"@;
            text::what_is_written_between_stands_there(left, seq!['+'] + plus, rest);
            assert(line =~= left + (seq!['+'] + plus) + rest);
            let left = "diff "@ + path@ + " (+"@ + plus + seq!['/'];
            text::what_is_written_between_stands_there(left, seq!['-'] + minus, ")"@);
            assert(line =~= left + (seq!['-'] + minus) + ")"@);
        },
        _ => {},
    }
}

/// A runtime is asked with the whole context and the whole message: every part of the context
/// stands in the prompt, and the message is what it ends with.
pub proof fn the_prompt_holds_the_context_and_the_message(
    parts: Seq<Seq<char>>,
    input: Seq<char>,
    i: int,
)
    requires
        0 <= i < parts.len(),
    ensures
        ({
            let prompt = runtime_prompt_text(parts, input);
            &&& text::occurs(prompt, parts[i])
            &&& prompt.len() >= input.len()
            &&& prompt.skip(prompt.len() - input.len()) == input
        }),
{
    let prompt = runtime_prompt_text(parts, input);
    let context = joined(parts, "\n\n"@);
    let places = text::every_part_stands_in_what_is_joined(parts, "\n\n"@);
    assert(text::occurs_at(context, parts[i], places[i]));
    if context.len() == 0 {
        assert(context + input =~= prompt);
        text::what_stands_in_a_text_stands_in_a_longer_one(context, input, parts[i]);
    } else {
        text::what_stands_in_a_text_stands_in_a_longer_one(context, "\n\n"@, parts[i]);
        text::what_stands_in_a_text_stands_in_a_longer_one(
            context + "\n\n"@,
            input,
            parts[i],
        );
    }
    assert(prompt.skip(prompt.len() - input.len()) =~= input);
}

/// A turn has an answer exactly where its task succeeded, and that is all that was said; else it
/// fails, and a failure of the runtime is told in its own words.
pub proof fn only_success_answers(
    outcome: TaskOutcome,
    said: Seq<char>,
    r: Result<String, BastionError>,
)
    requires
        conversation_result(outcome, said, r),
    ensures
        r is Ok <==> outcome is Success,
        r matches Ok(text) ==> text@ == said,
        r matches Err(e) ==> e is BackendUnavailable,
        outcome matches TaskOutcome::Failed { reason } ==> (
        r matches Err(BastionError::BackendUnavailable(m)) && m@ == reason@),
{
}

/// The owner's decision is handed on as it is; without one the runtime is denied for the whole
/// turn. The denial is written to the queue where the request still stands in it, and the task is
/// cancelled only where that was asked for.
pub proof fn a_decision_is_handed_on(end: WaitEnd)
    ensures
        end matches WaitEnd::Answered(Some(decision)) ==> wait_result(end).decision == decision,
        !(end matches WaitEnd::Answered(Some(_))) ==> wait_result(end).decision
            == (PermissionDecision::Deny { scope: DenyScope::Turn }),
        wait_result(end).record <==> end == WaitEnd::TimedOut || end == WaitEnd::Cancelled,
        wait_result(end).cancel <==> end == WaitEnd::Cancelled,
{
}

/// The owner is told which task it is, what it answered or why it failed, and all that it made.
pub proof fn a_report_tells_all(
    key: Seq<char>,
    outcome: TaskOutcome,
    said: Seq<char>,
    artifacts: Seq<Seq<char>>,
)
    ensures
        ({
            let told = task_report(key, outcome, said, artifacts);
            &&& text::occurs(told, key)
            &&& outcome is Success ==> text::occurs(told, said)
            &&& outcome matches TaskOutcome::Failed { reason } ==> text::occurs(told, reason@)
            &&& forall|i: int|
                0 <= i < artifacts.len() ==> text::occurs(told, #[trigger] artifacts[i])
        }),
{
    let told = task_report(key, outcome, said, artifacts);
    let head = "[Tarefa delegada '"@ + key;
    let middle = match outcome {
        TaskOutcome::Success => "' concluída]\n"@ + said,
        TaskOutcome::Cancelled => "' cancelada]"@,
        TaskOutcome::TimedOut => "' expirou por timeout]"@,
        TaskOutcome::Failed { reason } => "' falhou: "@ + reason@ + "]"@,
    };
    let end = artifact_summary(artifacts);
    text::what_is_written_last_stands_there("[Tarefa delegada '"@, key);
    text::what_stands_in_a_text_stands_in_a_longer_one(head, middle, key);
    text::what_stands_in_a_text_stands_in_a_longer_one(head + middle, end, key);
    match outcome {
        TaskOutcome::Success => {
            text::what_is_written_last_stands_there("' concluída]\n"@, said);
            text::what_stands_in_a_text_stands_in_a_longer_one(middle, head, said);
            text::what_stands_in_a_text_stands_in_a_longer_one(head + middle, end, said);
        },
        TaskOutcome::Failed { reason } => {
            text::what_is_written_last_stands_there("' falhou: "@, reason@);
            text::what_stands_in_a_text_stands_in_a_longer_one(
                "' falhou: "@ + reason@,
                "]"@,
                reason@,
            );
            text::what_stands_in_a_text_stands_in_a_longer_one(middle, head, reason@);
            text::what_stands_in_a_text_stands_in_a_longer_one(head + middle, end, reason@);
        },
        _ => {},
    }
    let places = text::every_part_stands_in_what_is_joined(artifacts, ", "@);
    assert forall|i: int| 0 <= i < artifacts.len() implies text::occurs(
        told,
        #[trigger] artifacts[i],
    ) by {
        let list = joined(artifacts, ", "@);
        assert(text::occurs_at(list, artifacts[i], places[i]));
        text::what_stands_in_a_text_stands_in_a_longer_one(
            list,
            "\nArtefatos: "@,
            artifacts[i],
        );
        text::what_stands_in_a_text_stands_in_a_longer_one(end, head + middle, artifacts[i]);
    }
}

/// A number in hexadecimal notation tells the number, and has digits and letters alone.
proof fn lemma_hexadecimal(a: nat, b: nat)
    ensures
        hexadecimal(a).len() > 0,
        forall|i: int| 0 <= i < hexadecimal(a).len() ==> #[trigger] hexadecimal(a)[i] != '-',
        hexadecimal(a) == hexadecimal(b) ==> a == b,
    decreases a,
{
    if a >= 16 {
        lemma_hexadecimal(a / 16, b / 16);
    }
    let one = hexadecimal(a);
    assert forall|i: int| 0 <= i < one.len() implies #[trigger] one[i] != '-' by {
        if a >= 16 && i < one.len() - 1 {
            assert(one[i] == hexadecimal(a / 16)[i]);
        }
    }
    if hexadecimal(a) == hexadecimal(b) {
        assert(hexadecimal(a).last() == hexadecimal(b).last());
        if b >= 16 {
            lemma_hexadecimal_is_some(b / 16);
        }
        if a >= 16 && b >= 16 {
            assert(hexadecimal(a).drop_last() =~= hexadecimal(a / 16));
            assert(hexadecimal(b).drop_last() =~= hexadecimal(b / 16));
        }
    }
}

/// A number in hexadecimal notation has a digit.
proof fn lemma_hexadecimal_is_some(a: nat)
    ensures
        hexadecimal(a).len() > 0,
    decreases a,
{
    if a >= 16 {
        lemma_hexadecimal_is_some(a / 16);
    }
}

/// No two tasks of an owner have the same name: it tells when the task was begun and the
/// how-manieth it is. And it begins with whose it is.
pub proof fn a_task_has_a_name_of_its_own(
    owner: Seq<char>,
    nanos: nat,
    n: nat,
    other_nanos: nat,
    other_n: nat,
)
    ensures
        text::begins_with(task_key_text(owner, nanos, n), "task:"@ + owner),
        task_key_text(owner, nanos, n) == task_key_text(owner, other_nanos, other_n) ==> nanos
            == other_nanos && n == other_n,
{
    let head = "task:"@ + owner + ":"@;
    let a = hexadecimal(nanos);
    let b = hexadecimal(other_nanos);
    let x = text::decimal(n);
    let y = text::decimal(other_n);
    reveal_strlit("-");
    let one = task_key_text(owner, nanos, n);
    let two = task_key_text(owner, other_nanos, other_n);
    let start = "task:"@ + owner;
    assert(one.subrange(0, start.len() as int) =~= start);
    lemma_hexadecimal(nanos, other_nanos);
    lemma_hexadecimal(other_nanos, nanos);
    text::a_decimal_reads_back(n);
    text::a_decimal_reads_back(other_n);
    if one == two {
        let at = head.len() as int;
        assert(one =~= head + a + "-"@ + x);
        assert(two =~= head + b + "-"@ + y);
        assert(one[at + a.len()] == '-');
        assert(two[at + b.len()] == '-');
        if a.len() < b.len() {
            assert(two[at + a.len()] == b[a.len() as int]);
        }
        if b.len() < a.len() {
            assert(one[at + b.len()] == a[b.len() as int]);
        }
        assert(one.subrange(at, at + a.len()) =~= a);
        assert(two.subrange(at, at + b.len()) =~= b);
        assert(one.skip(at + a.len() + 1) =~= x);
        assert(two.skip(at + b.len() + 1) =~= y);
    }
}

/// The characters that stand for themselves in the name of a directory are the letters and digits of
/// ASCII, so that no name has a dot, a slash or a backslash.
pub proof fn a_workspace_name_leads_nowhere_else(owner: Seq<char>, i: int)
    requires
        0 <= i < workspace_text(owner).len(),
    ensures
        ({
            let c = workspace_text(owner)[i];
            &&& 'a' <= c <= 'z' || 'A' <= c <= 'Z' || '0' <= c <= '9' || c == '_'
            &&& c != '.' && c != '/' && c != '\\'
        }),
{
    a_workspace_name_is_plain(owner);
    let c = workspace_text(owner)[i];
    assert(plain_char(workspace_text(owner)[i]) || workspace_text(owner)[i] == '_');
}

/// A session is begun for its owner in the owner's own directory, with nothing allowed beforehand,
/// for the runtime that was chosen and with the credentials that were, or the runtime's own.
pub proof fn a_session_is_confined_to_its_owner(
    owner: &str,
    runtime_id: &str,
    profile: &BackendProfile,
    env_home: Option<String>,
    env_path: Option<String>,
    r: SessionSpec,
)
    requires
        call_ensures(
            build_runtime_session_spec,
            (owner, runtime_id, profile, env_home, env_path),
            r,
        ),
    ensures
        r.owner@ == owner@,
        r.workspace@ == workspace_text(owner@),
        r.allowed_actions@.len() == 0,
        r.runtime_id@ == runtime_id@,
        profile.auth matches Some(reference) ==> r.auth == reference,
        profile.auth is None ==> r.auth.0@ == "host-cli-login"@,
        r.env_home == env_home && r.env_path == env_path,
        r.timeout.per_task_secs == 120 && r.timeout.idle_secs == 300,
        r.allow_network && !r.read_only,
{
}

/// A stored session is taken up again exactly where it belongs to the runtime that is chosen.
pub proof fn a_session_is_taken_up_by_its_own_runtime(
    persisted: &Option<SessionHandle>,
    runtime_id: &str,
    r: bool,
)
    requires
        call_ensures(reattaches, (persisted, runtime_id), r),
    ensures
        r <==> (*persisted matches Some(handle) && handle.runtime_id@ == runtime_id@),
{
}

/// In a conversation a runtime is never allowed anything: what it asks leave for is denied, under
/// the number that it asked with. Only the end of its own task, or of its events, ends the turn.
pub proof fn a_conversation_allows_nothing(
    before: RuntimeConversation,
    event: Option<RuntimeEvent>,
    r: (RuntimeConversation, ConversationStep),
)
    requires
        call_ensures(RuntimeConversation::hear, (before, event), r),
    ensures
        r.0.task() == before.task(),
        r.1 is Deny <==> (event matches Some(RuntimeEvent::PermissionRequest { task, .. }) && task
            == before.task()),
        r.1 is Finish <==> event is None || (event matches Some(RuntimeEvent::Ended { task, .. })
            && task == before.task()),
        event matches Some(RuntimeEvent::PermissionRequest { task, id, action, detail }) ==> (task
            == before.task() ==> r.1 == (ConversationStep::Deny { id, action, detail })),
        event matches Some(RuntimeEvent::MessageDelta { task, text }) ==> r.0.said() == if task
            == before.task() {
            before.said() + text@
        } else {
            before.said()
        },
        event matches Some(RuntimeEvent::Ended { task, outcome }) ==> (task == before.task()
            && outcome is Success ==> (r.1 matches ConversationStep::Finish(Ok(text)) && text@
            == before.said())),
{
    assert(before.said() + Seq::<char>::empty() =~= before.said());
}

/// A delegated task hears of its own events alone: it asks for leave where the runtime does, it ends
/// where the runtime says so, with that outcome, and it fails where the events stop before that.
pub proof fn a_delegated_task_hears_its_own_events(
    before: DelegatedTask,
    event: Option<RuntimeEvent>,
    r: (DelegatedTask, DelegatedStep),
)
    requires
        call_ensures(DelegatedTask::hear, (before, event), r),
    ensures
        r.0.same_task(before),
        r.1 is AskPermission <==> (event matches Some(RuntimeEvent::PermissionRequest { task, .. })
            && task == before.task()),
        event is None ==> (r.1 matches DelegatedStep::Ended(TaskOutcome::Failed { .. })),
        event matches Some(RuntimeEvent::Ended { task, outcome }) ==> (task == before.task()
            ==> r.1 == DelegatedStep::Ended(outcome)),
        event matches Some(e) ==> (task_of(e) != Some(before.task()) ==> r.1
            == DelegatedStep::Continue && r.0.said() == before.said() && r.0.made()
            == before.made()),
{
    assert(before.said() + Seq::<char>::empty() =~= before.said());
    assert(before.made() + Seq::<Seq<char>>::empty() =~= before.made());
}

} // verus!
