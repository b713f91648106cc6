//! The commands of the cockpit, which are answered from memory, goals and the backends without
//! asking a model.
use vstd::prelude::*;
use crate::agent::backend::{
    resolution_text, BackendProfile, BackendResolutionError, ConversationBackend, PolicyCoverage,
    RuntimeDescriptor,
};
use crate::hooks::output_validator::Belief;
use crate::text;
use crate::text::{before, begins_with, decimal, decimal_int, i64_value, joined, views};
use crate::types::BastionError;
use crate::unicode;
use crate::unicode::{stripped, whitespace};

verus! {

/// A command of the cockpit.
#[derive(Debug, PartialEq)]
pub enum CockpitCommand<'a> {
    /// List what is remembered.
    Memories,
    /// Revoke a memory; without a number, say how to.
    Contest(Option<i64>),
    /// List the backends.
    Backends,
    /// Choose a backend.
    BackendUse(&'a str),
    /// List the goals.
    Goals,
    /// Say how the goals fare.
    Drift,
}

/// A command as a value.
pub enum CommandView {
    Memories,
    Contest(Option<i64>),
    Backends,
    BackendUse(Seq<char>),
    Goals,
    Drift,
}

impl<'a> View for CockpitCommand<'a> {
    type V = CommandView;

    open spec fn view(&self) -> CommandView {
        match self {
            CockpitCommand::Memories => CommandView::Memories,
            CockpitCommand::Contest(id) => CommandView::Contest(*id),
            CockpitCommand::Backends => CommandView::Backends,
            CockpitCommand::BackendUse(spec) => CommandView::BackendUse(spec@),
            CockpitCommand::Goals => CommandView::Goals,
            CockpitCommand::Drift => CommandView::Drift,
        }
    }
}

/// The command that an input is, if it is one.
pub open spec fn command_of(input: Seq<char>) -> Option<CommandView> {
    let t = stripped(input);
    if t == "/memories"@ {
        Some(CommandView::Memories)
    } else if begins_with(t, "/contest "@) {
        Some(CommandView::Contest(i64_value(stripped(t.skip("/contest "@.len() as int)))))
    } else if t == "/backends"@ || t == "/backend"@ {
        Some(CommandView::Backends)
    } else if begins_with(t, "/backend use "@) {
        Some(CommandView::BackendUse(stripped(t.skip("/backend use "@.len() as int))))
    } else if t == "/goals"@ {
        Some(CommandView::Goals)
    } else if t == "/drift"@ {
        Some(CommandView::Drift)
    } else {
        None
    }
}

/// The command that an input is, if it is one.
pub fn parse_command<'a>(input: &'a str) -> (r: Option<CockpitCommand<'a>>)
    ensures
        match r {
            Some(command) => command_of(input@) == Some(command@),
            None => command_of(input@) is None,
        },
{
    let t: &str = unicode::trim(input);
    if text::same(t, "/memories") {
        return Some(CockpitCommand::Memories);
    }
    if let Some(id) = text::strip_prefix(t, "/contest ") {
        return Some(CockpitCommand::Contest(text::parse_i64(unicode::trim(id))));
    }
    if text::same(t, "/backends") || text::same(t, "/backend") {
        return Some(CockpitCommand::Backends);
    }
    if let Some(spec) = text::strip_prefix(t, "/backend use ") {
        return Some(CockpitCommand::BackendUse(unicode::trim(spec)));
    }
    if text::same(t, "/goals") {
        return Some(CockpitCommand::Goals);
    }
    if text::same(t, "/drift") {
        return Some(CockpitCommand::Drift);
    }
    None
}

/// One memory in a listing.
pub open spec fn memory_line(belief: Belief) -> Seq<char> {
    decimal_int(belief.id as int) + ": "@ + belief.content@
}

/// The listing of what is remembered.
pub open spec fn memories_text(beliefs: Seq<Belief>) -> Seq<char> {
    if beliefs.len() == 0 {
        "Nenhuma memória registrada."@
    } else {
        joined(Seq::new(beliefs.len(), |i: int| memory_line(beliefs[i])), "\n"@)
    }
}

/// The listing of what is remembered.
pub fn memories_reply(beliefs: &Vec<Belief>) -> (r: String)
    ensures
        r@ == memories_text(beliefs@),
{
    if beliefs.len() == 0 {
        return "Nenhuma memória registrada.".to_owned();
    }
    let ghost lines = Seq::new(beliefs@.len(), |i: int| memory_line(beliefs@[i]));
    let mut out: Vec<String> = Vec::new();
    let mut i: usize = 0;
    while i < beliefs.len()
        invariant
            i <= beliefs@.len(),
            lines == Seq::new(beliefs@.len(), |i: int| memory_line(beliefs@[i])),
            views(out@) == lines.take(i as int),
        decreases beliefs@.len() - i,
    {
        let mut line: String = String::new();
        text::push_decimal_i64(&mut line, beliefs[i].id);
        line.append(": ");
        line.append(beliefs[i].content.as_str());
        proof {
            assert(line@ =~= memory_line(beliefs@[i as int]));
        }
        let ghost said = line@;
        let ghost earlier = views(out@);
        out.push(line);
        assert(views(out@) =~= earlier.push(said));
        i = i + 1;
        assert(views(out@) =~= lines.take(i as int));
    }
    assert(views(out@) =~= lines);
    text::join(&out, "\n")
}

/// What is said where no memory is named.
pub const CONTEST_USAGE: &'static str = "Uso: /contest <id>";

/// What is said of a memory that was revoked.
pub fn contested_reply(id: i64) -> (r: String)
    ensures
        r@ == "Memória "@ + decimal_int(id as int) + " contestada e revogada."@,
{
    let mut out: String = "Memória ".to_owned();
    text::push_decimal_i64(&mut out, id);
    out.append(" contestada e revogada.");
    out
}

/// Something that the owner wants to reach.
#[derive(Debug, PartialEq)]
pub struct Goal {
    pub description: String,
    pub metric: Option<String>,
    /// When progress was last confirmed, if ever.
    pub last_confirmed: Option<i64>,
}

/// One goal in a listing.
pub open spec fn goal_line(goal: Goal) -> Seq<char> {
    match goal.metric {
        Some(metric) => "- "@ + goal.description@ + " ("@ + metric@ + ")"@,
        None => "- "@ + goal.description@,
    }
}

/// The listing of the goals.
pub open spec fn goals_text(goals: Seq<Goal>) -> Seq<char> {
    if goals.len() == 0 {
        "Nenhuma meta ativa."@
    } else {
        decimal(goals.len()) + " metas ativas\n"@ + joined(
            Seq::new(goals.len(), |i: int| goal_line(goals[i])),
            "\n"@,
        )
    }
}

/// The listing of the goals. Without a goal engine there are none.
pub fn goals_reply(goals: &Vec<Goal>) -> (r: String)
    ensures
        r@ == goals_text(goals@),
{
    if goals.len() == 0 {
        return "Nenhuma meta ativa.".to_owned();
    }
    let ghost lines = Seq::new(goals@.len(), |i: int| goal_line(goals@[i]));
    let mut out: Vec<String> = Vec::new();
    let mut i: usize = 0;
    while i < goals.len()
        invariant
            i <= goals@.len(),
            lines == Seq::new(goals@.len(), |i: int| goal_line(goals@[i])),
            views(out@) == lines.take(i as int),
        decreases goals@.len() - i,
    {
        let mut line: String = "- ".to_owned();
        line.append(goals[i].description.as_str());
        if let Some(metric) = &goals[i].metric {
            line.append(" (");
            line.append(metric.as_str());
            line.append(")");
        }
        let ghost said = line@;
        let ghost earlier = views(out@);
        out.push(line);
        assert(said == goal_line(goals@[i as int]));
        assert(views(out@) =~= earlier.push(said));
        i = i + 1;
        assert(views(out@) =~= lines.take(i as int));
    }
    assert(views(out@) =~= lines);
    let list: String = text::join(&out, "\n");
    let mut r: String = String::new();
    text::push_decimal(&mut r, goals.len() as u64);
    proof {
        assert(r@ =~= decimal(goals@.len()));
    }
    r.append(" metas ativas\n");
    r.append(list.as_str());
    r
}

/// How many of the goals have confirmed progress.
pub open spec fn confirmed(goals: Seq<Goal>) -> nat
    decreases goals.len(),
{
    if goals.len() == 0 {
        0
    } else {
        confirmed(goals.drop_last()) + if goals.last().last_confirmed is Some {
            1nat
        } else {
            0nat
        }
    }
}

/// The share of the goals that have confirmed progress, in percent.
pub open spec fn share(goals: Seq<Goal>) -> int {
    (confirmed(goals) as int * 100) / (goals.len() as int)
}

/// The word for a share.
pub open spec fn drift_word(percent: int) -> Seq<char> {
    if percent >= 60 {
        "estável"@
    } else if percent >= 30 {
        "atenção"@
    } else {
        "em risco"@
    }
}

/// How the goals fare.
pub open spec fn drift_text(goals: Seq<Goal>) -> Seq<char> {
    if goals.len() == 0 {
        "Nenhuma meta ativa — sem drift a monitorar."@
    } else {
        "drift "@ + drift_word(share(goals)) + " ("@ + decimal(share(goals) as nat) + "%) — "@
            + decimal(confirmed(goals)) + "/"@ + decimal(goals.len())
            + " metas com progresso confirmado."@
    }
}

/// At most all goals have confirmed progress.
proof fn lemma_confirmed_bound(goals: Seq<Goal>)
    ensures
        confirmed(goals) <= goals.len(),
    decreases goals.len(),
{
    if goals.len() > 0 {
        lemma_confirmed_bound(goals.drop_last());
    }
}

/// How the goals fare. Without a goal engine there are none.
pub fn drift_reply(goals: &Vec<Goal>) -> (r: String)
    ensures
        r@ == drift_text(goals@),
{
    if goals.len() == 0 {
        return "Nenhuma meta ativa — sem drift a monitorar.".to_owned();
    }
    let mut healthy: usize = 0;
    let mut i: usize = 0;
    while i < goals.len()
        invariant
            i <= goals@.len(),
            healthy <= i,
            healthy == confirmed(goals@.take(i as int)),
        decreases goals@.len() - i,
    {
        proof {
            let next = goals@.take(i + 1);
            assert(next.drop_last() =~= goals@.take(i as int));
            assert(next.last() == goals@[i as int]);
        }
        if goals[i].last_confirmed.is_some() {
            healthy = healthy + 1;
        }
        i = i + 1;
    }
    assert(goals@.take(goals@.len() as int) =~= goals@);
    let percent: u128 = (healthy as u128 * 100) / (goals.len() as u128);
    proof {
        lemma_confirmed_bound(goals@);
        let h = healthy as int;
        let n = goals@.len() as int;
        assert((h * 100) / n <= 100) by (nonlinear_arith)
            requires
                0 <= h <= n,
                n > 0,
        ;
        assert(percent == share(goals@));
        assert(0 <= share(goals@) <= 100);
    }
    let status: &str = if percent >= 60 {
        "estável"
    } else if percent >= 30 {
        "atenção"
    } else {
        "em risco"
    };
    let mut out: String = "drift ".to_owned();
    out.append(status);
    out.append(" (");
    text::push_decimal(&mut out, percent as u64);
    out.append("%) — ");
    text::push_decimal(&mut out, healthy as u64);
    out.append("/");
    text::push_decimal(&mut out, goals.len() as u64);
    out.append(" metas com progresso confirmado.");
    out
}

/// Which choice of a backend a text stands for.
#[derive(Debug, PartialEq)]
pub enum BackendSelection<'a> {
    /// Delegate nothing.
    NoTaskRuntime,
    /// Delegate to this runtime.
    TaskRuntime(&'a str),
    /// Converse in the host's own tool loop.
    Model,
    /// Converse in this runtime.
    Runtime(&'a str),
}

/// A choice as a value.
pub enum SelectionView {
    NoTaskRuntime,
    TaskRuntime(Seq<char>),
    Model,
    Runtime(Seq<char>),
}

impl<'a> View for BackendSelection<'a> {
    type V = SelectionView;

    open spec fn view(&self) -> SelectionView {
        match self {
            BackendSelection::NoTaskRuntime => SelectionView::NoTaskRuntime,
            BackendSelection::TaskRuntime(id) => SelectionView::TaskRuntime(id@),
            BackendSelection::Model => SelectionView::Model,
            BackendSelection::Runtime(id) => SelectionView::Runtime(id@),
        }
    }
}

/// The choice that a text stands for.
pub open spec fn selection_of(spec_text: Seq<char>) -> SelectionView {
    if begins_with(spec_text, "task:"@) {
        let task = stripped(spec_text.skip("task:"@.len() as int));
        if task == "none"@ {
            SelectionView::NoTaskRuntime
        } else {
            SelectionView::TaskRuntime(task)
        }
    } else if spec_text == "model"@ || spec_text.len() == 0 {
        SelectionView::Model
    } else if begins_with(spec_text, "runtime:"@) {
        SelectionView::Runtime(spec_text.skip("runtime:"@.len() as int))
    } else {
        SelectionView::Runtime(spec_text)
    }
}

/// The choice that a text stands for.
pub fn parse_selection<'a>(spec_text: &'a str) -> (r: BackendSelection<'a>)
    ensures
        r@ == selection_of(spec_text@),
{
    if let Some(task) = text::strip_prefix(spec_text, "task:") {
        let task: &str = unicode::trim(task);
        if text::same(task, "none") {
            return BackendSelection::NoTaskRuntime;
        }
        return BackendSelection::TaskRuntime(task);
    }
    if text::same(spec_text, "model") || spec_text.unicode_len() == 0 {
        return BackendSelection::Model;
    }
    match text::strip_prefix(spec_text, "runtime:") {
        Some(id) => BackendSelection::Runtime(id),
        None => BackendSelection::Runtime(spec_text),
    }
}

/// What a runtime declares to honour, spelled out.
pub open spec fn coverage_text(c: PolicyCoverage) -> Seq<char> {
    "Some(PolicyCoverage { tool_visibility: "@ + c.tool_visibility@ + ", approvals: "@
        + c.approvals@ + ", egress: "@ + c.egress@ + ", budget: "@ + c.budget@ + ", sandbox: "@
        + c.sandbox@ + " })"@
}

/// Adds what a runtime declares to honour, spelled out.
fn push_coverage(out: &mut String, c: &PolicyCoverage)
    ensures
        final(out)@ == old(out)@ + coverage_text(*c),
{
    out.append("Some(PolicyCoverage { tool_visibility: ");
    out.append(c.tool_visibility.as_str());
    out.append(", approvals: ");
    out.append(c.approvals.as_str());
    out.append(", egress: ");
    out.append(c.egress.as_str());
    out.append(", budget: ");
    out.append(c.budget.as_str());
    out.append(", sandbox: ");
    out.append(c.sandbox.as_str());
    out.append(" })");
    assert(out@ =~= old(out)@ + coverage_text(*c));
}

/// Why a choice cannot be made.
pub open spec fn refusal_text(id: Seq<char>, role: Seq<char>, why: Seq<char>) -> Seq<char> {
    "não é possível selecionar '"@ + id + "' como "@ + role + ": "@ + why
        + " (veja /backends para os ids disponíveis agora)"@
}

/// Why a choice cannot be made.
fn refusal(id: &str, role: &str, why: &BackendResolutionError) -> (r: BastionError)
    ensures
        r matches BastionError::Failed(m) && m@ == refusal_text(id@, role@, resolution_text(*why)),
{
    let mut out: String = "não é possível selecionar '".to_owned();
    out.append(id);
    out.append("' como ");
    out.append(role);
    out.append(": ");
    out.append(why.message().as_str());
    out.append(" (veja /backends para os ids disponíveis agora)");
    BastionError::Failed(out)
}

/// The answer to a choice that was made, and the profile with it.
pub open spec fn selected(
    before: BackendProfile,
    choice: SelectionView,
    coverage: PolicyCoverage,
    after: BackendProfile,
    said: Seq<char>,
) -> bool {
    match choice {
        SelectionView::NoTaskRuntime => {
            &&& after == (BackendProfile { task_runtime: None, ..before })
            &&& said == "task_runtime desabilitado (delegação desligada)."@
        },
        SelectionView::TaskRuntime(id) => {
            &&& after == (BackendProfile { task_runtime: after.task_runtime, ..before })
            &&& after.task_runtime matches Some(name)
            &&& name@ == id
            &&& said == "task_runtime definido para: "@ + id
        },
        SelectionView::Model => {
            &&& after == (BackendProfile {
                conversation: ConversationBackend::Model,
                coverage_note: None,
                ..before
            })
            &&& said == "Backend de conversa definido para: model (Bastion tool loop)."@
        },
        SelectionView::Runtime(id) => {
            &&& after == (BackendProfile {
                conversation: after.conversation,
                coverage_note: Some(coverage),
                ..before
            })
            &&& after.conversation matches ConversationBackend::Runtime(name)
            &&& name@ == id
            &&& said == "Backend de conversa definido para: runtime:"@ + id
                + " (harness tool loop; policy coverage: "@ + coverage_text(coverage) + ")."@
        },
    }
}

/// Makes a choice. `resolved` is what the registry says of the runtime that is chosen; a runtime
/// that does not resolve is not chosen, and then nothing changes at all. Where no runtime is
/// chosen, `resolved` plays no part.
pub fn set_backend(
    profile: &mut BackendProfile,
    choice: &BackendSelection,
    resolved: Result<PolicyCoverage, BackendResolutionError>,
) -> (r: Result<String, BastionError>)
    ensures
        match (choice@, resolved) {
            (SelectionView::TaskRuntime(id), Err(why)) => {
                &&& *final(profile) == *old(profile)
                &&& r matches Err(BastionError::Failed(m))
                &&& m@ == refusal_text(id, "task_runtime"@, resolution_text(why))
            },
            (SelectionView::Runtime(id), Err(why)) => {
                &&& *final(profile) == *old(profile)
                &&& r matches Err(BastionError::Failed(m))
                &&& m@ == refusal_text(id, "backend de conversa"@, resolution_text(why))
            },
            (other, Ok(coverage)) => {
                &&& r matches Ok(said)
                &&& selected(*old(profile), other, coverage, *final(profile), said@)
            },
            (other, Err(_)) => {
                &&& r matches Ok(said)
                &&& forall|coverage: PolicyCoverage|
                    selected(*old(profile), other, coverage, *final(profile), said@)
            },
        },
{
    match choice {
        BackendSelection::NoTaskRuntime => {
            profile.task_runtime = None;
            Ok("task_runtime desabilitado (delegação desligada).".to_owned())
        },
        BackendSelection::TaskRuntime(id) => match resolved {
            Err(why) => Err(refusal(id, "task_runtime", &why)),
            Ok(_) => {
                profile.task_runtime = Some((*id).to_owned());
                Ok(text::concat2("task_runtime definido para: ", id))
            },
        },
        BackendSelection::Model => {
            profile.conversation = ConversationBackend::Model;
            profile.coverage_note = None;
            Ok("Backend de conversa definido para: model (Bastion tool loop).".to_owned())
        },
        BackendSelection::Runtime(id) => match resolved {
            Err(why) => Err(refusal(id, "backend de conversa", &why)),
            Ok(coverage) => {
                let mut said: String = "Backend de conversa definido para: runtime:".to_owned();
                said.append(id);
                said.append(" (harness tool loop; policy coverage: ");
                push_coverage(&mut said, &coverage);
                said.append(").");
                profile.conversation = ConversationBackend::Runtime((*id).to_owned());
                profile.coverage_note = Some(coverage);
                Ok(said)
            },
        },
    }
}

/// What serves the conversation and what is delegated to are chosen apart: neither choice
/// touches the other, and no choice touches the credentials.
pub proof fn conversation_and_tasks_are_chosen_apart(
    before: BackendProfile,
    choice: SelectionView,
    coverage: PolicyCoverage,
    after: BackendProfile,
    said: Seq<char>,
)
    requires
        selected(before, choice, coverage, after, said),
    ensures
        after.auth == before.auth,
        (choice is NoTaskRuntime || choice is TaskRuntime) ==> after.conversation
            == before.conversation && after.coverage_note == before.coverage_note,
        (choice is Model || choice is Runtime) ==> after.task_runtime == before.task_runtime,
{
}

/// A registered runtime and how it does right now.
#[derive(Debug)]
pub struct RuntimeStatus {
    pub descriptor: RuntimeDescriptor,
    /// Why it cannot serve, if it cannot.
    pub problem: Option<BackendResolutionError>,
}

/// The places of the runtimes in the order of their names.
pub open spec fn in_name_order(runtimes: Seq<RuntimeStatus>, order: Seq<int>) -> bool {
    &&& order.len() == runtimes.len()
    &&& forall|i: int| 0 <= i < order.len() ==> 0 <= #[trigger] order[i] < runtimes.len()
    &&& forall|i: int, j: int| 0 <= i < j < order.len() ==> #[trigger] order[i] != #[trigger] order[j]
    &&& forall|i: int, j: int|
        0 <= i < j < order.len() ==> !before(
            runtimes[#[trigger] order[j]].descriptor.id@,
            runtimes[#[trigger] order[i]].descriptor.id@,
        )
}

/// The mark of the runtime that is chosen.
pub open spec fn selection_mark(profile: BackendProfile, id: Seq<char>) -> Seq<char> {
    if profile.conversation matches ConversationBackend::Runtime(name) && name@ == id {
        " [conversa atual]"@
    } else if profile.task_runtime matches Some(name) && name@ == id {
        " [task_runtime atual]"@
    } else {
        ""@
    }
}

/// One runtime in the listing.
pub open spec fn runtime_line(profile: BackendProfile, runtime: RuntimeStatus) -> Seq<char> {
    let d = runtime.descriptor;
    "- "@ + d.id@ + " ["@ + d.transport@ + "] approvals="@ + d.policy_coverage.approvals@
        + " sandbox="@ + d.policy_coverage.sandbox@ + " egress="@ + d.policy_coverage.egress@
        + " budget="@ + d.policy_coverage.budget@ + " — "@ + match runtime.problem {
        None => "saudável agora"@,
        Some(e) => "INDISPONÍVEL — "@ + resolution_text(e),
    } + selection_mark(profile, d.id@)
}

/// What the listing says of the credentials.
pub open spec fn auth_line(profile: BackendProfile, auth: Result<(), String>) -> Seq<char> {
    match profile.auth {
        None => "Auth configurado: nenhum"@,
        Some(reference) => "Auth configurado ('"@ + reference.0@ + "'): "@ + match auth {
            Ok(_) => "resolvido"@,
            Err(e) => "FALHOU — "@ + e@,
        },
    }
}

/// What the listing begins with.
pub open spec fn backends_head(profile: BackendProfile, auth: Result<(), String>) -> Seq<Seq<char>> {
    seq![
        "Conversa: "@ + match profile.conversation {
            ConversationBackend::Model => "model (Bastion tool loop)"@,
            ConversationBackend::Runtime(id) => "runtime:"@ + id@,
        },
        "Tarefa delegada (task_runtime): "@ + match profile.task_runtime {
            Some(id) => id@,
            None => "nenhum"@,
        },
        auth_line(profile, auth),
        ""@,
        "Backends disponíveis:"@,
        "- model — sempre disponível (Bastion possui o tool loop)"@,
    ]
}

/// What the listing says of the runtimes.
pub open spec fn backends_body(
    profile: BackendProfile,
    runtimes: Seq<RuntimeStatus>,
    order: Seq<int>,
) -> Seq<Seq<char>> {
    if runtimes.len() == 0 {
        seq![
            "(nenhum AgentRuntime registrado — instale/autentique acpx/codex/opencode e reinicie o daemon para vê-los aqui)"@,
        ]
    } else {
        Seq::new(order.len(), |i: int| runtime_line(profile, runtimes[order[i]]))
    }
}

/// What the listing ends with.
pub open spec fn backends_tail() -> Seq<Seq<char>> {
    seq![
        ""@,
        "Uso: /backend use model | /backend use <id> | /backend use task:<id> | /backend use task:none"@,
    ]
}

/// The listing of the backends.
pub open spec fn backends_text(
    profile: BackendProfile,
    auth: Result<(), String>,
    runtimes: Seq<RuntimeStatus>,
    order: Seq<int>,
) -> Seq<char> {
    joined(
        backends_head(profile, auth) + backends_body(profile, runtimes, order) + backends_tail(),
        "\n"@,
    )
}

/// The places as numbers.
spec fn as_ints(order: Seq<usize>) -> Seq<int> {
    Seq::new(order.len(), |i: int| order[i] as int)
}

/// The places of the runtimes in the order of their names.
fn name_order(runtimes: &Vec<RuntimeStatus>) -> (r: Vec<usize>)
    ensures
        in_name_order(runtimes@, as_ints(r@)),
{
    let mut out: Vec<usize> = Vec::new();
    let mut n: usize = 0;
    while n < runtimes.len()
        invariant
            n <= runtimes@.len(),
            out@.len() == n,
            forall|i: int| 0 <= i < out@.len() ==> (#[trigger] out@[i]) < n,
            forall|i: int, j: int| 0 <= i < j < n ==> #[trigger] out@[i] != #[trigger] out@[j],
            forall|i: int, j: int|
                0 <= i < j < n ==> !before(
                    runtimes@[(#[trigger] out@[j]) as int].descriptor.id@,
                    runtimes@[(#[trigger] out@[i]) as int].descriptor.id@,
                ),
        decreases runtimes@.len() - n,
    {
        let id: &str = runtimes[n].descriptor.id.as_str();
        let mut k: usize = 0;
        while k < out.len() && !text::comes_before(id, runtimes[out[k]].descriptor.id.as_str())
            invariant
                k <= out@.len(),
                n < runtimes@.len(),
                id@ == runtimes@[n as int].descriptor.id@,
                forall|i: int| 0 <= i < out@.len() ==> (#[trigger] out@[i]) < n,
                forall|i: int|
                    0 <= i < k ==> !before(
                        id@,
                        runtimes@[(#[trigger] out@[i]) as int].descriptor.id@,
                    ),
            decreases out@.len() - k,
        {
            k = k + 1;
        }
        let ghost earlier = out@;
        out.insert(k, n);
        proof {
            let later = out@;
            assert forall|i: int| 0 <= i < later.len() implies (#[trigger] later[i]) < n + 1 by {
                if i != k {
                    let ei = if i < k { i } else { i - 1 };
                    assert(later[i] == earlier[ei]);
                }
            }
            assert forall|i: int, j: int| 0 <= i < j < n + 1 implies #[trigger] later[i]
                != #[trigger] later[j] && !before(
                runtimes@[later[j] as int].descriptor.id@,
                runtimes@[later[i] as int].descriptor.id@,
            ) by {
                let ei = if i < k { i } else { i - 1 };
                let ej = if j < k { j } else { j - 1 };
                if i != k {
                    assert(later[i] == earlier[ei]);
                }
                if j != k {
                    assert(later[j] == earlier[ej]);
                }
                if i == k {
                    let first = runtimes@[earlier[k as int] as int].descriptor.id@;
                    let other = runtimes@[earlier[ej] as int].descriptor.id@;
                    assert(before(id@, first));
                    if ej > k {
                        assert(!before(other, first));
                        text::lemma_before_total(first, other);
                        if first != other {
                            text::lemma_before_transitive(id@, first, other);
                        }
                    }
                    text::lemma_before_asymmetric(id@, other);
                }
            }
        }
        n = n + 1;
    }
    proof {
        let order = as_ints(out@);
        assert forall|i: int, j: int| 0 <= i < j < order.len() implies #[trigger] order[i]
            != #[trigger] order[j] && !before(
            runtimes@[order[j]].descriptor.id@,
            runtimes@[order[i]].descriptor.id@,
        ) by {
            assert(out@[i] != out@[j]);
        }
        assert forall|i: int| 0 <= i < order.len() implies 0 <= #[trigger] order[i]
            < runtimes@.len() by {
            assert(out@[i] < n);
        }
    }
    out
}

/// One runtime in the listing.
fn describe_runtime(profile: &BackendProfile, runtime: &RuntimeStatus) -> (r: String)
    ensures
        r@ == runtime_line(*profile, *runtime),
{
    let d = &runtime.descriptor;
    let mut line: String = "- ".to_owned();
    line.append(d.id.as_str());
    line.append(" [");
    line.append(d.transport.as_str());
    line.append("] approvals=");
    line.append(d.policy_coverage.approvals.as_str());
    line.append(" sandbox=");
    line.append(d.policy_coverage.sandbox.as_str());
    line.append(" egress=");
    line.append(d.policy_coverage.egress.as_str());
    line.append(" budget=");
    line.append(d.policy_coverage.budget.as_str());
    line.append(" — ");
    let status: String = match &runtime.problem {
        None => "saudável agora".to_owned(),
        Some(e) => text::concat2("INDISPONÍVEL — ", e.message().as_str()),
    };
    line.append(status.as_str());
    let converses: bool = match &profile.conversation {
        ConversationBackend::Runtime(name) => text::same(name.as_str(), d.id.as_str()),
        ConversationBackend::Model => false,
    };
    let delegated: bool = match &profile.task_runtime {
        Some(name) => text::same(name.as_str(), d.id.as_str()),
        None => false,
    };
    let mark: &str = if converses {
        " [conversa atual]"
    } else if delegated {
        " [task_runtime atual]"
    } else {
        ""
    };
    line.append(mark);
    line
}

/// Adds a line to a list of lines.
fn push_line(lines: &mut Vec<String>, line: String)
    ensures
        views(final(lines)@) == views(old(lines)@).push(line@),
{
    let ghost earlier = views(lines@);
    lines.push(line);
    assert(views(lines@) =~= earlier.push(line@));
}

/// The listing of the backends: what is chosen, whether the credentials resolve, and every
/// registered runtime with how it does right now, in the order of their names. `auth` is what
/// the credentials resolve to; without any it plays no part.
pub fn describe_backends(
    profile: &BackendProfile,
    auth: &Result<(), String>,
    runtimes: &Vec<RuntimeStatus>,
) -> (r: String)
    ensures
        exists|order: Seq<int>| #[trigger]
            in_name_order(runtimes@, order) && r@ == backends_text(
                *profile,
                *auth,
                runtimes@,
                order,
            ),
{
    let mut lines: Vec<String> = Vec::new();
    assert(views(lines@) =~= Seq::<Seq<char>>::empty());
    let conversation: String = match &profile.conversation {
        ConversationBackend::Model => "model (Bastion tool loop)".to_owned(),
        ConversationBackend::Runtime(id) => text::concat2("runtime:", id.as_str()),
    };
    push_line(&mut lines, text::concat2("Conversa: ", conversation.as_str()));
    let task: &str = match &profile.task_runtime {
        Some(id) => id.as_str(),
        None => "nenhum",
    };
    push_line(&mut lines, text::concat2("Tarefa delegada (task_runtime): ", task));
    match &profile.auth {
        None => {
            push_line(&mut lines, "Auth configurado: nenhum".to_owned());
        },
        Some(reference) => {
            let status: String = match auth {
                Ok(_) => "resolvido".to_owned(),
                Err(e) => text::concat2("FALHOU — ", e.as_str()),
            };
            let mut line: String = "Auth configurado ('".to_owned();
            line.append(reference.0.as_str());
            line.append("'): ");
            line.append(status.as_str());
            push_line(&mut lines, line);
        },
    }
    push_line(&mut lines, "".to_owned());
    push_line(&mut lines, "Backends disponíveis:".to_owned());
    push_line(
        &mut lines,
        "- model — sempre disponível (Bastion possui o tool loop)".to_owned(),
    );
    let ghost head = backends_head(*profile, *auth);
    assert(views(lines@) =~= head);
    let order: Vec<usize> = name_order(runtimes);
    let ghost places = as_ints(order@);
    let ghost body = backends_body(*profile, runtimes@, places);
    if runtimes.len() == 0 {
        push_line(
            &mut lines,
            "(nenhum AgentRuntime registrado — instale/autentique acpx/codex/opencode e reinicie o daemon para vê-los aqui)".to_owned(),
        );
        assert(views(lines@) =~= head + body);
    } else {
        let mut i: usize = 0;
        assert(views(lines@) =~= head + body.take(0));
        while i < order.len()
            invariant
                i <= order@.len(),
                order@.len() == body.len(),
                runtimes@.len() > 0,
                places == as_ints(order@),
                in_name_order(runtimes@, places),
                body == backends_body(*profile, runtimes@, places),
                views(lines@) == head + body.take(i as int),
            decreases order@.len() - i,
        {
            assert(places[i as int] == order@[i as int]);
            let line: String = describe_runtime(profile, &runtimes[order[i]]);
            assert(line@ == body[i as int]);
            push_line(&mut lines, line);
            i = i + 1;
            assert(views(lines@) =~= head + body.take(i as int));
        }
        assert(views(lines@) =~= head + body);
    }
    push_line(&mut lines, "".to_owned());
    push_line(
        &mut lines,
        "Uso: /backend use model | /backend use <id> | /backend use task:<id> | /backend use task:none".to_owned(),
    );
    assert(views(lines@) =~= head + body + backends_tail());
    text::join(&lines, "\n")
}

/// The listing depends on what is registered and chosen alone: where no two runtimes have the
/// same name, there is one order of their names.
pub proof fn the_backends_have_one_order(
    runtimes: Seq<RuntimeStatus>,
    a: Seq<int>,
    b: Seq<int>,
)
    requires
        in_name_order(runtimes, a),
        in_name_order(runtimes, b),
        forall|i: int, j: int|
            0 <= i < j < runtimes.len() ==> #[trigger] runtimes[i].descriptor.id@
                != #[trigger] runtimes[j].descriptor.id@,
    ensures
        a == b,
{
    assert forall|n: int| 0 <= n <= runtimes.len() implies a.take(n) == b.take(n) by {
        lemma_same_start(runtimes, a, b, n);
    }
    assert(a =~= a.take(runtimes.len() as int));
    assert(b =~= b.take(runtimes.len() as int));
}

/// Every place is somewhere in the order.
proof fn lemma_order_is_onto(order: Seq<int>, n: nat, place: int) -> (i: int)
    requires
        order.len() == n,
        forall|i: int| 0 <= i < order.len() ==> 0 <= #[trigger] order[i] < n,
        forall|i: int, j: int|
            0 <= i < j < order.len() ==> #[trigger] order[i] != #[trigger] order[j],
        0 <= place < n,
    ensures
        0 <= i < n,
        order[i] == place,
{
    if exists|i: int| 0 <= i < n && order[i] == place {
        choose|i: int| 0 <= i < n && order[i] == place
    } else {
        let all = vstd::set_lib::set_int_range(0, n as int);
        vstd::set_lib::lemma_int_range(0, n as int);
        let used = order.to_set();
        assert(order.no_duplicates());
        order.unique_seq_to_set();
        assert(used.subset_of(all.remove(place)));
        vstd::set_lib::lemma_len_subset(used, all.remove(place));
        0
    }
}

/// Two orders of the names begin alike.
proof fn lemma_same_start(runtimes: Seq<RuntimeStatus>, a: Seq<int>, b: Seq<int>, n: int)
    requires
        in_name_order(runtimes, a),
        in_name_order(runtimes, b),
        forall|i: int, j: int|
            0 <= i < j < runtimes.len() ==> #[trigger] runtimes[i].descriptor.id@
                != #[trigger] runtimes[j].descriptor.id@,
        0 <= n <= runtimes.len(),
    ensures
        a.take(n) == b.take(n),
    decreases n,
{
    if n > 0 {
        lemma_same_start(runtimes, a, b, n - 1);
        let x = a[n - 1];
        let y = b[n - 1];
        if x != y {
            let at = lemma_order_is_onto(b, runtimes.len(), x);
            let bt = lemma_order_is_onto(a, runtimes.len(), y);
            if at < n - 1 {
                assert(a.take(n - 1)[at] == b.take(n - 1)[at]);
                assert(a[at] == x);
            }
            if bt < n - 1 {
                assert(a.take(n - 1)[bt] == b.take(n - 1)[bt]);
                assert(b[bt] == y);
            }
            assert(at > n - 1 && bt > n - 1);
            assert(!before(runtimes[b[at]].descriptor.id@, runtimes[b[n - 1]].descriptor.id@));
            assert(!before(runtimes[a[bt]].descriptor.id@, runtimes[a[n - 1]].descriptor.id@));
            text::lemma_before_total(
                runtimes[x].descriptor.id@,
                runtimes[y].descriptor.id@,
            );
            if x < y {
                assert(runtimes[x].descriptor.id@ != runtimes[y].descriptor.id@);
            } else {
                assert(runtimes[y].descriptor.id@ != runtimes[x].descriptor.id@);
            }
        }
        assert(a.take(n) =~= a.take(n - 1).push(x));
        assert(b.take(n) =~= b.take(n - 1).push(y));
    } else {
        assert(a.take(0) =~= b.take(0));
    }
}

/// Every memory is listed: its number, a colon and its text stand in the listing, and one more
/// memory adds one line behind those before it.
pub proof fn every_memory_is_listed(beliefs: Seq<Belief>, i: int)
    requires
        0 <= i < beliefs.len(),
    ensures
        text::occurs(
            memories_text(beliefs),
            decimal_int(beliefs[i].id as int) + seq![':', ' '] + beliefs[i].content@,
        ),
{
    let lines = Seq::new(beliefs.len(), |i: int| memory_line(beliefs[i]));
    reveal_strlit(": ");
    assert(": "@ =~= seq![':', ' ']);
    let places = text::every_part_stands_in_what_is_joined(lines, "\n"@);
    assert(text::occurs_at(joined(lines, "\n"@), lines[i], places[i]));
}

/// One more memory adds one line to the listing.
pub proof fn one_more_memory_adds_its_line(beliefs: Seq<Belief>, belief: Belief)
    ensures
        memories_text(beliefs.push(belief)) == if beliefs.len() == 0 {
            memory_line(belief)
        } else {
            memories_text(beliefs) + seq!['\n'] + memory_line(belief)
        },
{
    let all = beliefs.push(belief);
    let lines = Seq::new(beliefs.len(), |i: int| memory_line(beliefs[i]));
    assert(Seq::new(all.len(), |i: int| memory_line(all[i])) =~= lines.push(memory_line(belief)));
    text::one_more_part_follows(lines, memory_line(belief), "\n"@);
    reveal_strlit("\n");
    assert("\n"@ =~= seq!['\n']);
}

/// Every goal is listed, with its metric where it has one, and the listing begins with how many
/// there are.
pub proof fn every_goal_is_listed(goals: Seq<Goal>, i: int)
    requires
        0 <= i < goals.len(),
    ensures
        text::begins_with(goals_text(goals), decimal(goals.len())),
        text::occurs(goals_text(goals), seq!['-', ' '] + goals[i].description@),
        goals[i].metric matches Some(metric) ==> text::occurs(
            goals_text(goals),
            seq!['-', ' '] + goals[i].description@ + seq![' ', '('] + metric@ + seq![')'],
        ),
{
    let lines = Seq::new(goals.len(), |i: int| goal_line(goals[i]));
    reveal_strlit("- ");
    reveal_strlit(" (");
    reveal_strlit(")");
    assert("- "@ =~= seq!['-', ' ']);
    assert(" ("@ =~= seq![' ', '(']);
    assert(")"@ =~= seq![')']);
    let list = joined(lines, "\n"@);
    let head = decimal(goals.len()) + " metas ativas\n"@;
    let all = goals_text(goals);
    let places = text::every_part_stands_in_what_is_joined(lines, "\n"@);
    let at = places[i];
    assert(text::occurs_at(list, lines[i], at));
    let line = lines[i];
    let from = head.len() + at;
    assert(all =~= head + list);
    assert(all.subrange(0, decimal(goals.len()).len() as int) =~= decimal(goals.len()));
    assert(all.subrange(from, from + line.len()) =~= list.subrange(at, at + line.len()));
    assert(text::occurs_at(all, line, from));
    let short = seq!['-', ' '] + goals[i].description@;
    assert(line.subrange(0, short.len() as int) =~= short);
    assert(all.subrange(from, from + short.len()) =~= line.subrange(0, short.len() as int));
    assert(text::occurs_at(all, short, from));
}

/// One more goal adds one line to the listing and one to the count.
pub proof fn one_more_goal_adds_its_line(goals: Seq<Goal>, goal: Goal)
    ensures
        ({
            let lines = goals_text(goals).skip(decimal(goals.len()).len() as int);
            let more = goals_text(goals.push(goal)).skip(decimal(goals.len() + 1).len() as int);
            goals.len() > 0 ==> more == lines + seq!['\n'] + goal_line(goal)
        }),
{
    let all = goals.push(goal);
    let lines = Seq::new(goals.len(), |i: int| goal_line(goals[i]));
    assert(Seq::new(all.len(), |i: int| goal_line(all[i])) =~= lines.push(goal_line(goal)));
    text::one_more_part_follows(lines, goal_line(goal), "\n"@);
    reveal_strlit("\n");
    assert("\n"@ =~= seq!['\n']);
    if goals.len() > 0 {
        assert(goals_text(all).skip(decimal(goals.len() + 1).len() as int) =~= goals_text(
            goals,
        ).skip(decimal(goals.len()).len() as int) + seq!['\n'] + goal_line(goal));
    }
}

/// The goals that count as confirmed are those with a time of confirmation, all of them.
pub proof fn confirmed_goals_are_counted(goals: Seq<Goal>)
    ensures
        confirmed(goals) == goals.filter(|goal: Goal| goal.last_confirmed is Some).len(),
        confirmed(goals) <= goals.len(),
    decreases goals.len(),
{
    reveal(Seq::filter);
    if goals.len() > 0 {
        confirmed_goals_are_counted(goals.drop_last());
    }
}

/// The goals are stable where three in five or more are confirmed, want attention where three in
/// ten or more are, and are at risk else; and the percentage that is told is the share, rounded
/// down.
pub proof fn drift_goes_by_the_share_of_confirmed_goals(goals: Seq<Goal>)
    requires
        goals.len() > 0,
    ensures
        ({
            let n = goals.len() as int;
            let c = goals.filter(|goal: Goal| goal.last_confirmed is Some).len() as int;
            let percent = share(goals);
            &&& percent * n <= c * 100 < (percent + 1) * n
            &&& 0 <= percent <= 100
            &&& drift_word(percent) == if 5 * c >= 3 * n {
                "estável"@
            } else if 10 * c >= 3 * n {
                "atenção"@
            } else {
                "em risco"@
            }
            &&& text::occurs(drift_text(goals), drift_word(percent))
            &&& text::occurs(drift_text(goals), decimal(percent as nat) + seq!['%'])
            &&& text::occurs(drift_text(goals), decimal(c as nat) + seq!['/'] + decimal(n as nat))
        }),
{
    confirmed_goals_are_counted(goals);
    let n = goals.len() as int;
    let c = confirmed(goals) as int;
    let percent = share(goals);
    vstd::arithmetic::div_mod::lemma_fundamental_div_mod(c * 100, n);
    vstd::arithmetic::div_mod::lemma_mod_bound(c * 100, n);
    assert(percent * n <= c * 100 < (percent + 1) * n) by (nonlinear_arith)
        requires
            c * 100 == n * percent + (c * 100) % n,
            0 <= (c * 100) % n < n,
    ;
    assert(0 <= percent <= 100) by (nonlinear_arith)
        requires
            percent * n <= c * 100 < (percent + 1) * n,
            0 <= c <= n,
            n > 0,
    ;
    assert(percent >= 60 <==> 5 * c >= 3 * n) by (nonlinear_arith)
        requires
            percent * n <= c * 100 < (percent + 1) * n,
            n > 0,
    ;
    assert(percent >= 30 <==> 10 * c >= 3 * n) by (nonlinear_arith)
        requires
            percent * n <= c * 100 < (percent + 1) * n,
            n > 0,
    ;
    let word = drift_word(percent);
    let told = decimal(percent as nat);
    let all = drift_text(goals);
    let end = " metas com progresso confirmado."@;
    reveal_strlit("%) — ");
    reveal_strlit("/");
    assert("/"@ =~= seq!['/']);
    assert("%) — "@ =~= seq!['%'] + "%) — "@.skip(1));
    let rest = " ("@ + told + "%) — "@ + decimal(c as nat) + "/"@ + decimal(n as nat) + end;
    text::what_is_written_between_stands_there("drift "@, word, rest);
    assert(all =~= "drift "@ + word + rest);
    let left = "drift "@ + word + " ("@;
    let right = "%) — "@.skip(1) + decimal(c as nat) + "/"@ + decimal(n as nat) + end;
    text::what_is_written_between_stands_there(left, told + seq!['%'], right);
    assert(all =~= left + (told + seq!['%']) + right);
    let left = "drift "@ + word + " ("@ + told + "%) — "@;
    let middle = decimal(c as nat) + seq!['/'] + decimal(n as nat);
    text::what_is_written_between_stands_there(left, middle, end);
    assert(all =~= left + middle + end);
}

/// A memory is contested by its number, whichever it is, and whatever white space is around the
/// command.
pub proof fn a_memory_is_contested_by_its_number(id: i64, left: Seq<char>, right: Seq<char>)
    requires
        forall|i: int| 0 <= i < left.len() ==> whitespace(#[trigger] left[i]),
        forall|i: int| 0 <= i < right.len() ==> whitespace(#[trigger] right[i]),
    ensures
        command_of(left + ("/contest "@ + decimal_int(id as int)) + right) == Some(
            CommandView::Contest(Some(id)),
        ),
{
    let number = decimal_int(id as int);
    let t = "/contest "@ + number;
    text::a_number_is_read_as_it_is_written(id as int);
    lemma_number_is_plain(id as int);
    reveal_strlit("/contest ");
    reveal_strlit("/memories");
    unicode::white_space_around_a_text_is_stripped(left, t, right);
    let none = Seq::<char>::empty();
    unicode::white_space_around_a_text_is_stripped(none, number, none);
    assert(none + number + none =~= number);
    assert(t.subrange(0, "/contest "@.len() as int) =~= "/contest "@);
    assert(t.skip("/contest "@.len() as int) =~= number);
    assert("/memories"@[1] == 'm' && t[1] == 'c');
}

/// A number in decimal notation has no white space at its ends.
proof fn lemma_number_is_plain(n: int)
    ensures
        decimal_int(n).len() > 0,
        !whitespace(decimal_int(n)[0]),
        !whitespace(decimal_int(n).last()),
{
    let digits = if n < 0 {
        decimal((-n) as nat)
    } else {
        decimal(n as nat)
    };
    text::a_decimal_reads_back(
        if n < 0 {
            (-n) as nat
        } else {
            n as nat
        },
    );
    assert(text::is_digit(digits[0]));
    assert(text::is_digit(digits[digits.len() - 1]));
    assert(decimal_int(n).last() == digits.last());
}

/// A backend is chosen by what is written behind the command, whatever white space is around it.
pub proof fn a_backend_is_chosen_by_what_is_written(
    choice: Seq<char>,
    left: Seq<char>,
    right: Seq<char>,
)
    requires
        choice.len() > 0,
        !whitespace(choice[0]),
        !whitespace(choice.last()),
        forall|i: int| 0 <= i < left.len() ==> whitespace(#[trigger] left[i]),
        forall|i: int| 0 <= i < right.len() ==> whitespace(#[trigger] right[i]),
    ensures
        command_of(left + ("/backend use "@ + choice) + right) == Some(
            CommandView::BackendUse(choice),
        ),
{
    let t = "/backend use "@ + choice;
    reveal_strlit("/backend use ");
    reveal_strlit("/contest ");
    reveal_strlit("/memories");
    reveal_strlit("/backends");
    reveal_strlit("/backend");
    unicode::white_space_around_a_text_is_stripped(left, t, right);
    let none = Seq::<char>::empty();
    unicode::white_space_around_a_text_is_stripped(none, choice, none);
    assert(none + choice + none =~= choice);
    assert(t.subrange(0, "/backend use "@.len() as int) =~= "/backend use "@);
    assert(t.skip("/backend use "@.len() as int) =~= choice);
    assert(t[1] == 'b' && t[8] == ' ');
    assert("/memories"@[1] == 'm');
    assert("/backends"@[8] == 's');
    if begins_with(t, "/contest "@) {
        assert(t.subrange(0, "/contest "@.len() as int)[1] == 'c');
    }
}

/// What does not begin with a slash is no command.
pub proof fn a_plain_message_is_no_command(input: Seq<char>)
    requires
        stripped(input).len() == 0 || stripped(input)[0] != '/',
    ensures
        command_of(input) is None,
{
    reveal_strlit("/backend use ");
    reveal_strlit("/contest ");
    reveal_strlit("/memories");
    reveal_strlit("/backends");
    reveal_strlit("/backend");
    reveal_strlit("/goals");
    reveal_strlit("/drift");
    let t = stripped(input);
    if begins_with(t, "/contest "@) {
        assert(t.subrange(0, "/contest "@.len() as int)[0] == t[0]);
    }
    if begins_with(t, "/backend use "@) {
        assert(t.subrange(0, "/backend use "@.len() as int)[0] == t[0]);
    }
    assert("/memories"@[0] == '/' && "/backends"@[0] == '/' && "/backend"@[0] == '/' && "/goals"@[0]
        == '/' && "/drift"@[0] == '/');
}

/// A choice of the form `task:` names what is delegated to, one of the form `runtime:` what serves
/// the conversation, and any other name does the same as the latter.
pub proof fn a_choice_names_its_runtime(id: Seq<char>)
    requires
        id.len() > 0,
        !whitespace(id[0]),
        !whitespace(id.last()),
    ensures
        id != "none"@ ==> selection_of("task:"@ + id) == SelectionView::TaskRuntime(id),
        selection_of("task:"@ + "none"@) == SelectionView::NoTaskRuntime,
        selection_of("runtime:"@ + id) == SelectionView::Runtime(id),
        selection_of("model"@) == SelectionView::Model,
        id != "model"@ && !begins_with(id, "task:"@) && !begins_with(id, "runtime:"@)
            ==> selection_of(id) == SelectionView::Runtime(id),
{
    reveal_strlit("task:");
    reveal_strlit("runtime:");
    reveal_strlit("model");
    reveal_strlit("none");
    let none = Seq::<char>::empty();
    let task = "task:"@ + id;
    unicode::white_space_around_a_text_is_stripped(none, id, none);
    assert(none + id + none =~= id);
    assert(task.subrange(0, "task:"@.len() as int) =~= "task:"@);
    assert(task.skip("task:"@.len() as int) =~= id);
    let off = "task:"@ + "none"@;
    unicode::white_space_around_a_text_is_stripped(none, "none"@, none);
    assert(none + "none"@ + none =~= "none"@);
    assert(off.subrange(0, "task:"@.len() as int) =~= "task:"@);
    assert(off.skip("task:"@.len() as int) =~= "none"@);
    let runtime = "runtime:"@ + id;
    assert(runtime.subrange(0, "runtime:"@.len() as int) =~= "runtime:"@);
    assert(runtime.skip("runtime:"@.len() as int) =~= id);
    assert(runtime[0] == 'r');
    if begins_with(runtime, "task:"@) {
        assert(runtime.subrange(0, "task:"@.len() as int)[0] == 't');
    }
    assert("model"@[0] == 'm');
    if begins_with("model"@, "task:"@) {
        assert("model"@.subrange(0, "task:"@.len() as int)[0] == 't');
    }
}

/// What a runtime declares to honour is told in full.
proof fn lemma_coverage_is_told(c: PolicyCoverage)
    ensures
        text::occurs(coverage_text(c), c.tool_visibility@),
        text::occurs(coverage_text(c), c.approvals@),
        text::occurs(coverage_text(c), c.egress@),
        text::occurs(coverage_text(c), c.budget@),
        text::occurs(coverage_text(c), c.sandbox@),
{
    let p0 = "Some(PolicyCoverage { tool_visibility: "@;
    let p1 = p0 + c.tool_visibility@;
    let p2 = p1 + ", approvals: "@;
    let p3 = p2 + c.approvals@;
    let p4 = p3 + ", egress: "@;
    let p5 = p4 + c.egress@;
    let p6 = p5 + ", budget: "@;
    let p7 = p6 + c.budget@;
    let p8 = p7 + ", sandbox: "@;
    let p9 = p8 + c.sandbox@;
    let p10 = p9 + " })"@;
    text::what_is_written_last_stands_there(p0, c.tool_visibility@);
    text::what_stands_in_a_text_stands_in_a_longer_one(p1, ", approvals: "@, c.tool_visibility@);
    text::what_stands_in_a_text_stands_in_a_longer_one(p2, c.approvals@, c.tool_visibility@);
    text::what_stands_in_a_text_stands_in_a_longer_one(p3, ", egress: "@, c.tool_visibility@);
    text::what_stands_in_a_text_stands_in_a_longer_one(p4, c.egress@, c.tool_visibility@);
    text::what_stands_in_a_text_stands_in_a_longer_one(p5, ", budget: "@, c.tool_visibility@);
    text::what_stands_in_a_text_stands_in_a_longer_one(p6, c.budget@, c.tool_visibility@);
    text::what_stands_in_a_text_stands_in_a_longer_one(p7, ", sandbox: "@, c.tool_visibility@);
    text::what_stands_in_a_text_stands_in_a_longer_one(p8, c.sandbox@, c.tool_visibility@);
    text::what_stands_in_a_text_stands_in_a_longer_one(p9, " })"@, c.tool_visibility@);
    text::what_is_written_last_stands_there(p2, c.approvals@);
    text::what_stands_in_a_text_stands_in_a_longer_one(p3, ", egress: "@, c.approvals@);
    text::what_stands_in_a_text_stands_in_a_longer_one(p4, c.egress@, c.approvals@);
    text::what_stands_in_a_text_stands_in_a_longer_one(p5, ", budget: "@, c.approvals@);
    text::what_stands_in_a_text_stands_in_a_longer_one(p6, c.budget@, c.approvals@);
    text::what_stands_in_a_text_stands_in_a_longer_one(p7, ", sandbox: "@, c.approvals@);
    text::what_stands_in_a_text_stands_in_a_longer_one(p8, c.sandbox@, c.approvals@);
    text::what_stands_in_a_text_stands_in_a_longer_one(p9, " })"@, c.approvals@);
    text::what_is_written_last_stands_there(p4, c.egress@);
    text::what_stands_in_a_text_stands_in_a_longer_one(p5, ", budget: "@, c.egress@);
    text::what_stands_in_a_text_stands_in_a_longer_one(p6, c.budget@, c.egress@);
    text::what_stands_in_a_text_stands_in_a_longer_one(p7, ", sandbox: "@, c.egress@);
    text::what_stands_in_a_text_stands_in_a_longer_one(p8, c.sandbox@, c.egress@);
    text::what_stands_in_a_text_stands_in_a_longer_one(p9, " })"@, c.egress@);
    text::what_is_written_last_stands_there(p6, c.budget@);
    text::what_stands_in_a_text_stands_in_a_longer_one(p7, ", sandbox: "@, c.budget@);
    text::what_stands_in_a_text_stands_in_a_longer_one(p8, c.sandbox@, c.budget@);
    text::what_stands_in_a_text_stands_in_a_longer_one(p9, " })"@, c.budget@);
    text::what_is_written_last_stands_there(p8, c.sandbox@);
    text::what_stands_in_a_text_stands_in_a_longer_one(p9, " })"@, c.sandbox@);
}

/// A choice that was made is in force, and the answer says which it is.
pub proof fn a_choice_is_in_force(
    before: BackendProfile,
    choice: SelectionView,
    coverage: PolicyCoverage,
    after: BackendProfile,
    said: Seq<char>,
)
    requires
        selected(before, choice, coverage, after, said),
    ensures
        match choice {
            SelectionView::NoTaskRuntime => after.task_runtime is None,
            SelectionView::TaskRuntime(id) => after.task_runtime matches Some(name) && name@ == id
                && text::occurs(said, id),
            SelectionView::Model => after.conversation is Model && after.coverage_note is None,
            SelectionView::Runtime(id) => {
                &&& after.conversation matches ConversationBackend::Runtime(name)
                &&& name@ == id
                &&& after.coverage_note == Some(coverage)
                &&& text::occurs(said, id)
                &&& text::occurs(said, coverage.approvals@)
                &&& text::occurs(said, coverage.sandbox@)
                &&& text::occurs(said, coverage.egress@)
                &&& text::occurs(said, coverage.budget@)
                &&& text::occurs(said, coverage.tool_visibility@)
            },
        },
{
    match choice {
        SelectionView::TaskRuntime(id) => {
            text::what_is_written_last_stands_there("task_runtime definido para: "@, id);
        },
        SelectionView::Runtime(id) => {
            let c = coverage;
            lemma_coverage_is_told(c);
            lemma_told_around(id, coverage_text(c), c.tool_visibility@);
            lemma_told_around(id, coverage_text(c), c.approvals@);
            lemma_told_around(id, coverage_text(c), c.egress@);
            lemma_told_around(id, coverage_text(c), c.budget@);
            lemma_told_around(id, coverage_text(c), c.sandbox@);
        },
        _ => {},
    }
}

/// What the coverage tells, the answer to a choice tells.
proof fn lemma_told_around(id: Seq<char>, told: Seq<char>, pat: Seq<char>)
    requires
        text::occurs(told, pat),
    ensures
        ({
            let said = "Backend de conversa definido para: runtime:"@ + id
                + " (harness tool loop; policy coverage: "@ + told + ")."@;
            text::occurs(said, id) && text::occurs(said, pat)
        }),
{
    let p1 = "Backend de conversa definido para: runtime:"@ + id;
    let p2 = p1 + " (harness tool loop; policy coverage: "@;
    text::what_is_written_last_stands_there("Backend de conversa definido para: runtime:"@, id);
    text::what_stands_in_a_text_stands_in_a_longer_one(
        p1,
        " (harness tool loop; policy coverage: "@,
        id,
    );
    text::what_stands_in_a_text_stands_in_a_longer_one(p2, told, id);
    text::what_stands_in_a_text_stands_in_a_longer_one(told, p2, pat);
    text::what_stands_in_a_text_stands_in_a_longer_one(p2 + told, ")."@, id);
    text::what_stands_in_a_text_stands_in_a_longer_one(p2 + told, ")."@, pat);
}

/// A line of the listing tells what the runtime declares, how it does and whether it is chosen.
proof fn lemma_line_tells(profile: BackendProfile, runtime: RuntimeStatus)
    ensures
        ({
            let line = runtime_line(profile, runtime);
            let d = runtime.descriptor;
            &&& text::occurs(line, d.id@)
            &&& text::occurs(line, d.transport@)
            &&& text::occurs(line, d.policy_coverage.approvals@)
            &&& text::occurs(line, d.policy_coverage.sandbox@)
            &&& text::occurs(line, d.policy_coverage.egress@)
            &&& text::occurs(line, d.policy_coverage.budget@)
            &&& text::occurs(line, selection_mark(profile, d.id@))
            &&& text::occurs(
                line,
                match runtime.problem {
                    None => "saudável agora"@,
                    Some(e) => "INDISPONÍVEL — "@ + resolution_text(e),
                },
            )
        }),
{
    let d = runtime.descriptor;
    let state = match runtime.problem {
        None => "saudável agora"@,
        Some(e) => "INDISPONÍVEL — "@ + resolution_text(e),
    };
    let mark = selection_mark(profile, d.id@);
    let p0 = "- "@;
    let p1 = p0 + d.id@;
    let p2 = p1 + " ["@;
    let p3 = p2 + d.transport@;
    let p4 = p3 + "] approvals="@;
    let p5 = p4 + d.policy_coverage.approvals@;
    let p6 = p5 + " sandbox="@;
    let p7 = p6 + d.policy_coverage.sandbox@;
    let p8 = p7 + " egress="@;
    let p9 = p8 + d.policy_coverage.egress@;
    let p10 = p9 + " budget="@;
    let p11 = p10 + d.policy_coverage.budget@;
    let p12 = p11 + " — "@;
    let p13 = p12 + state;
    let p14 = p13 + mark;
    text::what_is_written_last_stands_there(p0, d.id@);
    text::what_stands_in_a_text_stands_in_a_longer_one(p1, " ["@, d.id@);
    text::what_stands_in_a_text_stands_in_a_longer_one(p2, d.transport@, d.id@);
    text::what_stands_in_a_text_stands_in_a_longer_one(p3, "] approvals="@, d.id@);
    text::what_stands_in_a_text_stands_in_a_longer_one(p4, d.policy_coverage.approvals@, d.id@);
    text::what_stands_in_a_text_stands_in_a_longer_one(p5, " sandbox="@, d.id@);
    text::what_stands_in_a_text_stands_in_a_longer_one(p6, d.policy_coverage.sandbox@, d.id@);
    text::what_stands_in_a_text_stands_in_a_longer_one(p7, " egress="@, d.id@);
    text::what_stands_in_a_text_stands_in_a_longer_one(p8, d.policy_coverage.egress@, d.id@);
    text::what_stands_in_a_text_stands_in_a_longer_one(p9, " budget="@, d.id@);
    text::what_stands_in_a_text_stands_in_a_longer_one(p10, d.policy_coverage.budget@, d.id@);
    text::what_stands_in_a_text_stands_in_a_longer_one(p11, " — "@, d.id@);
    text::what_stands_in_a_text_stands_in_a_longer_one(p12, state, d.id@);
    text::what_stands_in_a_text_stands_in_a_longer_one(p13, mark, d.id@);
    text::what_is_written_last_stands_there(p2, d.transport@);
    text::what_stands_in_a_text_stands_in_a_longer_one(p3, "] approvals="@, d.transport@);
    text::what_stands_in_a_text_stands_in_a_longer_one(p4, d.policy_coverage.approvals@, d.transport@);
    text::what_stands_in_a_text_stands_in_a_longer_one(p5, " sandbox="@, d.transport@);
    text::what_stands_in_a_text_stands_in_a_longer_one(p6, d.policy_coverage.sandbox@, d.transport@);
    text::what_stands_in_a_text_stands_in_a_longer_one(p7, " egress="@, d.transport@);
    text::what_stands_in_a_text_stands_in_a_longer_one(p8, d.policy_coverage.egress@, d.transport@);
    text::what_stands_in_a_text_stands_in_a_longer_one(p9, " budget="@, d.transport@);
    text::what_stands_in_a_text_stands_in_a_longer_one(p10, d.policy_coverage.budget@, d.transport@);
    text::what_stands_in_a_text_stands_in_a_longer_one(p11, " — "@, d.transport@);
    text::what_stands_in_a_text_stands_in_a_longer_one(p12, state, d.transport@);
    text::what_stands_in_a_text_stands_in_a_longer_one(p13, mark, d.transport@);
    text::what_is_written_last_stands_there(p4, d.policy_coverage.approvals@);
    text::what_stands_in_a_text_stands_in_a_longer_one(p5, " sandbox="@, d.policy_coverage.approvals@);
    text::what_stands_in_a_text_stands_in_a_longer_one(p6, d.policy_coverage.sandbox@, d.policy_coverage.approvals@);
    text::what_stands_in_a_text_stands_in_a_longer_one(p7, " egress="@, d.policy_coverage.approvals@);
    text::what_stands_in_a_text_stands_in_a_longer_one(p8, d.policy_coverage.egress@, d.policy_coverage.approvals@);
    text::what_stands_in_a_text_stands_in_a_longer_one(p9, " budget="@, d.policy_coverage.approvals@);
    text::what_stands_in_a_text_stands_in_a_longer_one(p10, d.policy_coverage.budget@, d.policy_coverage.approvals@);
    text::what_stands_in_a_text_stands_in_a_longer_one(p11, " — "@, d.policy_coverage.approvals@);
    text::what_stands_in_a_text_stands_in_a_longer_one(p12, state, d.policy_coverage.approvals@);
    text::what_stands_in_a_text_stands_in_a_longer_one(p13, mark, d.policy_coverage.approvals@);
    text::what_is_written_last_stands_there(p6, d.policy_coverage.sandbox@);
    text::what_stands_in_a_text_stands_in_a_longer_one(p7, " egress="@, d.policy_coverage.sandbox@);
    text::what_stands_in_a_text_stands_in_a_longer_one(p8, d.policy_coverage.egress@, d.policy_coverage.sandbox@);
    text::what_stands_in_a_text_stands_in_a_longer_one(p9, " budget="@, d.policy_coverage.sandbox@);
    text::what_stands_in_a_text_stands_in_a_longer_one(p10, d.policy_coverage.budget@, d.policy_coverage.sandbox@);
    text::what_stands_in_a_text_stands_in_a_longer_one(p11, " — "@, d.policy_coverage.sandbox@);
    text::what_stands_in_a_text_stands_in_a_longer_one(p12, state, d.policy_coverage.sandbox@);
    text::what_stands_in_a_text_stands_in_a_longer_one(p13, mark, d.policy_coverage.sandbox@);
    text::what_is_written_last_stands_there(p8, d.policy_coverage.egress@);
    text::what_stands_in_a_text_stands_in_a_longer_one(p9, " budget="@, d.policy_coverage.egress@);
    text::what_stands_in_a_text_stands_in_a_longer_one(p10, d.policy_coverage.budget@, d.policy_coverage.egress@);
    text::what_stands_in_a_text_stands_in_a_longer_one(p11, " — "@, d.policy_coverage.egress@);
    text::what_stands_in_a_text_stands_in_a_longer_one(p12, state, d.policy_coverage.egress@);
    text::what_stands_in_a_text_stands_in_a_longer_one(p13, mark, d.policy_coverage.egress@);
    text::what_is_written_last_stands_there(p10, d.policy_coverage.budget@);
    text::what_stands_in_a_text_stands_in_a_longer_one(p11, " — "@, d.policy_coverage.budget@);
    text::what_stands_in_a_text_stands_in_a_longer_one(p12, state, d.policy_coverage.budget@);
    text::what_stands_in_a_text_stands_in_a_longer_one(p13, mark, d.policy_coverage.budget@);
    text::what_is_written_last_stands_there(p12, state);
    text::what_stands_in_a_text_stands_in_a_longer_one(p13, mark, state);
    text::what_is_written_last_stands_there(p13, mark);
}

/// Every runtime is listed, whatever its place, with its name, its transport, what it declares to
/// honour, whether it can serve and why not, and whether it is the one that is chosen.
pub proof fn every_runtime_is_listed(
    profile: BackendProfile,
    auth: Result<(), String>,
    runtimes: Seq<RuntimeStatus>,
    order: Seq<int>,
    k: int,
)
    requires
        in_name_order(runtimes, order),
        0 <= k < runtimes.len(),
    ensures
        ({
            let line = runtime_line(profile, runtimes[k]);
            let d = runtimes[k].descriptor;
            &&& text::occurs(backends_text(profile, auth, runtimes, order), line)
            &&& text::occurs(line, d.id@)
            &&& text::occurs(line, d.transport@)
            &&& text::occurs(line, d.policy_coverage.approvals@)
            &&& text::occurs(line, d.policy_coverage.sandbox@)
            &&& text::occurs(line, d.policy_coverage.egress@)
            &&& text::occurs(line, d.policy_coverage.budget@)
            &&& match runtimes[k].problem {
                None => text::occurs(line, "saudável agora"@),
                Some(e) => text::occurs(line, "INDISPONÍVEL — "@ + resolution_text(e)),
            }
            &&& profile.conversation matches ConversationBackend::Runtime(name) ==> (name@ == d.id@
                ==> text::occurs(line, " [conversa atual]"@))
            &&& profile.conversation is Model ==> (profile.task_runtime matches Some(name) ==> (
            name@ == d.id@ ==> text::occurs(line, " [task_runtime atual]"@)))
        }),
{
    let i = lemma_order_is_onto(order, runtimes.len(), k);
    let head = backends_head(profile, auth);
    let body = backends_body(profile, runtimes, order);
    let all = head + body + backends_tail();
    let line = runtime_line(profile, runtimes[k]);
    assert(body[i] == line);
    assert(all[head.len() + i] == line);
    let places = text::every_part_stands_in_what_is_joined(all, "\n"@);
    assert(text::occurs_at(joined(all, "\n"@), all[head.len() + i], places[head.len() + i]));
    lemma_line_tells(profile, runtimes[k]);
}

/// The listing tells what serves the conversation, what is delegated to, and how the credentials
/// fare, and that the host's own loop can always be chosen.
pub proof fn the_listing_tells_what_is_chosen(
    profile: BackendProfile,
    auth: Result<(), String>,
    runtimes: Seq<RuntimeStatus>,
    order: Seq<int>,
)
    ensures
        ({
            let all = backends_text(profile, auth, runtimes, order);
            &&& match profile.conversation {
                ConversationBackend::Model => text::occurs(
                    all,
                    "Conversa: "@ + "model (Bastion tool loop)"@,
                ),
                ConversationBackend::Runtime(id) => text::occurs(
                    all,
                    "Conversa: "@ + ("runtime:"@ + id@),
                ),
            }
            &&& match profile.task_runtime {
                Some(id) => text::occurs(all, "Tarefa delegada (task_runtime): "@ + id@),
                None => text::occurs(all, "Tarefa delegada (task_runtime): "@ + "nenhum"@),
            }
            &&& match profile.auth {
                None => text::occurs(all, "Auth configurado: nenhum"@),
                Some(reference) => text::occurs(all, reference.0@) && (auth matches Err(e)
                    ==> text::occurs(all, e@)),
            }
            &&& text::occurs(all, "- model — sempre disponível (Bastion possui o tool loop)"@)
            &&& text::occurs(
                all,
                "Uso: /backend use model | /backend use <id> | /backend use task:<id> | /backend use task:none"@,
            )
        }),
{
    let head = backends_head(profile, auth);
    let body = backends_body(profile, runtimes, order);
    let parts = head + body + backends_tail();
    let all = backends_text(profile, auth, runtimes, order);
    let places = text::every_part_stands_in_what_is_joined(parts, "\n"@);
    let n = (head + body).len() as int;
    assert(parts[0] == head[0] && parts[1] == head[1] && parts[2] == head[2] && parts[5] == head[5]);
    assert(parts[n + 1] == backends_tail()[1]);
    assert(text::occurs_at(all, parts[0], places[0]));
    assert(text::occurs_at(all, parts[1], places[1]));
    assert(text::occurs_at(all, parts[2], places[2]));
    assert(text::occurs_at(all, parts[5], places[5]));
    assert(text::occurs_at(all, parts[n + 1], places[n + 1]));
    if let Some(reference) = profile.auth {
        let a = "Auth configurado ('"@;
        let b = "'): "@;
        let line = auth_line(profile, auth);
        let state = match auth {
            Ok(_) => "resolvido"@,
            Err(e) => "FALHOU — "@ + e@,
        };
        text::what_is_written_last_stands_there(a, reference.0@);
        text::what_stands_in_a_text_stands_in_a_longer_one(a + reference.0@, b, reference.0@);
        text::what_stands_in_a_text_stands_in_a_longer_one(
            a + reference.0@ + b,
            state,
            reference.0@,
        );
        lemma_stands_within(all, line, reference.0@);
        if let Err(e) = auth {
            text::what_is_written_last_stands_there("FALHOU — "@, e@);
            text::what_stands_in_a_text_stands_in_a_longer_one(state, a + reference.0@ + b, e@);
            lemma_stands_within(all, line, e@);
        }
    }
}

/// What stands in a part of a text stands in the text.
proof fn lemma_stands_within(all: Seq<char>, part: Seq<char>, pat: Seq<char>)
    requires
        text::occurs(all, part),
        text::occurs(part, pat),
    ensures
        text::occurs(all, pat),
{
    let i = choose|i: int| text::occurs_at(all, part, i);
    let j = choose|j: int| text::occurs_at(part, pat, j);
    let inner = all.subrange(i, i + part.len());
    assert(inner == part);
    assert(all.subrange(i + j, i + j + pat.len()) =~= inner.subrange(j, j + pat.len()));
    assert(text::occurs_at(all, pat, i + j));
}

/// A choice that is refused is told with the name that was asked for, what it was wanted as, and why
/// it cannot be had.
pub proof fn a_refused_choice_is_told_why(id: Seq<char>, role: Seq<char>, why: Seq<char>)
    ensures
        text::occurs(refusal_text(id, role, why), id),
        text::occurs(refusal_text(id, role, why), role),
        text::occurs(refusal_text(id, role, why), why),
{
    let a = "não é possível selecionar '"@;
    let b = "' como "@;
    let c = ": "@;
    let d = " (veja /backends para os ids disponíveis agora)"@;
    let p1 = a + id;
    let p2 = p1 + b;
    let p3 = p2 + role;
    let p4 = p3 + c;
    let p5 = p4 + why;
    text::what_is_written_last_stands_there(a, id);
    text::what_stands_in_a_text_stands_in_a_longer_one(p1, b, id);
    text::what_stands_in_a_text_stands_in_a_longer_one(p2, role, id);
    text::what_stands_in_a_text_stands_in_a_longer_one(p3, c, id);
    text::what_stands_in_a_text_stands_in_a_longer_one(p4, why, id);
    text::what_stands_in_a_text_stands_in_a_longer_one(p5, d, id);
    text::what_is_written_last_stands_there(p2, role);
    text::what_stands_in_a_text_stands_in_a_longer_one(p3, c, role);
    text::what_stands_in_a_text_stands_in_a_longer_one(p4, why, role);
    text::what_stands_in_a_text_stands_in_a_longer_one(p5, d, role);
    text::what_is_written_last_stands_there(p4, why);
    text::what_stands_in_a_text_stands_in_a_longer_one(p5, d, why);
}

/// The plain commands are told by their words, whatever white space is around them.
pub proof fn a_plain_command_is_told_by_its_word(left: Seq<char>, right: Seq<char>)
    requires
        forall|i: int| 0 <= i < left.len() ==> whitespace(#[trigger] left[i]),
        forall|i: int| 0 <= i < right.len() ==> whitespace(#[trigger] right[i]),
    ensures
        command_of(left + "/memories"@ + right) == Some(CommandView::Memories),
        command_of(left + "/backends"@ + right) == Some(CommandView::Backends),
        command_of(left + "/backend"@ + right) == Some(CommandView::Backends),
        command_of(left + "/goals"@ + right) == Some(CommandView::Goals),
        command_of(left + "/drift"@ + right) == Some(CommandView::Drift),
{
    reveal_strlit("/backend use ");
    reveal_strlit("/contest ");
    reveal_strlit("/memories");
    reveal_strlit("/backends");
    reveal_strlit("/backend");
    reveal_strlit("/goals");
    reveal_strlit("/drift");
    unicode::white_space_around_a_text_is_stripped(left, "/memories"@, right);
    unicode::white_space_around_a_text_is_stripped(left, "/backends"@, right);
    unicode::white_space_around_a_text_is_stripped(left, "/backend"@, right);
    unicode::white_space_around_a_text_is_stripped(left, "/goals"@, right);
    unicode::white_space_around_a_text_is_stripped(left, "/drift"@, right);
    assert("/memories"@[1] == 'm' && "/backends"@[1] == 'b' && "/backend"@[1] == 'b' && "/goals"@[1]
        == 'g' && "/drift"@[1] == 'd');
    assert("/contest "@[1] == 'c');
    lemma_no_contest("/backends"@);
    lemma_no_contest("/backend"@);
    lemma_no_contest("/goals"@);
    lemma_no_contest("/drift"@);
    assert(!begins_with("/goals"@, "/backend use "@));
    assert(!begins_with("/drift"@, "/backend use "@));
}

/// A command with another second letter is not that of contesting.
proof fn lemma_no_contest(t: Seq<char>)
    requires
        t.len() > 1,
        t[1] != 'c',
    ensures
        !begins_with(t, "/contest "@),
{
    reveal_strlit("/contest ");
    if begins_with(t, "/contest "@) {
        assert(t.subrange(0, "/contest "@.len() as int)[1] == t[1]);
        assert("/contest "@[1] == 'c');
    }
}

/// What is written behind the command to contest is read as a number, and where it is none no memory
/// is named.
pub proof fn what_is_contested_is_read_as_a_number(
    wanted: Seq<char>,
    left: Seq<char>,
    right: Seq<char>,
)
    requires
        wanted.len() > 0,
        !whitespace(wanted[0]),
        !whitespace(wanted.last()),
        forall|i: int| 0 <= i < left.len() ==> whitespace(#[trigger] left[i]),
        forall|i: int| 0 <= i < right.len() ==> whitespace(#[trigger] right[i]),
    ensures
        command_of(left + ("/contest "@ + wanted) + right) == Some(
            CommandView::Contest(i64_value(wanted)),
        ),
{
    let t = "/contest "@ + wanted;
    reveal_strlit("/contest ");
    reveal_strlit("/memories");
    unicode::white_space_around_a_text_is_stripped(left, t, right);
    let none = Seq::<char>::empty();
    unicode::white_space_around_a_text_is_stripped(none, wanted, none);
    assert(none + wanted + none =~= wanted);
    assert(t.subrange(0, "/contest "@.len() as int) =~= "/contest "@);
    assert(t.skip("/contest "@.len() as int) =~= wanted);
    assert("/memories"@[1] == 'm' && t[1] == 'c');
}

/// Without anything to list the owner is told so.
pub proof fn nothing_to_list_is_told()
    ensures
        memories_text(Seq::<Belief>::empty()) == "Nenhuma memória registrada."@,
        goals_text(Seq::<Goal>::empty()) == "Nenhuma meta ativa."@,
        drift_text(Seq::<Goal>::empty()) == "Nenhuma meta ativa — sem drift a monitorar."@,
{
}

} // verus!
