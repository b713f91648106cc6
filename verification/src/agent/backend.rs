//! Which backend serves a turn: the runtime's own tool loop, or a runtime outside the host.
//!
//! A backend that is not registered, or not healthy, is an error. Nothing falls back to another
//! backend on its own, for that would hide from the owner what watches over the turn.
use vstd::prelude::*;
use crate::table::{Key, KeyView, Row, Table};
use crate::text;

verus! {

/// Which backend serves a conversation.
#[derive(Debug, PartialEq)]
pub enum ConversationBackend {
    /// The host's own tool loop.
    Model,
    /// The registered runtime of this name.
    Runtime(String),
}

impl Default for ConversationBackend {
    fn default() -> (r: Self)
        ensures
            r == ConversationBackend::Model,
    {
        ConversationBackend::Model
    }
}

impl Clone for ConversationBackend {
    fn clone(&self) -> (r: Self)
        ensures
            r == *self,
    {
        match self {
            ConversationBackend::Model => ConversationBackend::Model,
            ConversationBackend::Runtime(id) => ConversationBackend::Runtime(id.clone()),
        }
    }
}

/// Which of the host's policies a runtime declares to honour, each in the runtime's own word.
#[derive(Debug, PartialEq)]
pub struct PolicyCoverage {
    pub tool_visibility: String,
    pub approvals: String,
    pub egress: String,
    pub budget: String,
    pub sandbox: String,
}

impl Clone for PolicyCoverage {
    fn clone(&self) -> (r: Self)
        ensures
            r == *self,
    {
        PolicyCoverage {
            tool_visibility: self.tool_visibility.clone(),
            approvals: self.approvals.clone(),
            egress: self.egress.clone(),
            budget: self.budget.clone(),
            sandbox: self.sandbox.clone(),
        }
    }
}

/// What a runtime says of itself.
#[derive(Debug, PartialEq)]
pub struct RuntimeDescriptor {
    pub id: String,
    /// How it is reached.
    pub transport: String,
    pub policy_coverage: PolicyCoverage,
}

/// A reference to credentials that an adapter uses.
#[derive(Debug, PartialEq)]
pub struct AuthProfileRef(pub String);

impl Clone for AuthProfileRef {
    fn clone(&self) -> (r: Self)
        ensures
            r == *self,
    {
        AuthProfileRef(self.0.clone())
    }
}

/// Which backends are chosen. Delegated tasks have a runtime of their own, whatever serves the
/// conversation.
#[derive(Debug, PartialEq)]
pub struct BackendProfile {
    pub conversation: ConversationBackend,
    /// The runtime for delegated tasks; without one, nothing is delegated.
    pub task_runtime: Option<String>,
    pub auth: Option<AuthProfileRef>,
    /// What the chosen runtime declares to honour, as it says itself.
    pub coverage_note: Option<PolicyCoverage>,
}

impl Default for BackendProfile {
    fn default() -> (r: Self)
        ensures
            r.conversation == ConversationBackend::Model,
            r.task_runtime is None && r.auth is None && r.coverage_note is None,
    {
        BackendProfile {
            conversation: ConversationBackend::Model,
            task_runtime: None,
            auth: None,
            coverage_note: None,
        }
    }
}

/// Why a backend cannot serve.
#[derive(Debug, PartialEq)]
pub enum BackendResolutionError {
    /// There is none of that name.
    UnknownRuntime(String),
    /// There is one of that name, but it does not work, and says this.
    Unhealthy(String, String),
}

/// The text of such an error.
pub open spec fn resolution_text(e: BackendResolutionError) -> Seq<char> {
    match e {
        BackendResolutionError::UnknownRuntime(id) => "no AgentRuntime registered for backend id '"@
            + id@ + "'"@,
        BackendResolutionError::Unhealthy(id, detail) => "AgentRuntime '"@ + id@
            + "' is registered but unhealthy: "@ + detail@,
    }
}

impl BackendResolutionError {
    /// The text of this error.
    pub fn message(&self) -> (r: String)
        ensures
            r@ == resolution_text(*self),
    {
        match self {
            BackendResolutionError::UnknownRuntime(id) => text::concat3(
                "no AgentRuntime registered for backend id '",
                id.as_str(),
                "'",
            ),
            BackendResolutionError::Unhealthy(id, detail) => {
                let mut out: String = "AgentRuntime '".to_owned();
                out.append(id.as_str());
                out.append("' is registered but unhealthy: ");
                out.append(detail.as_str());
                out
            },
        }
    }
}

/// How a runtime does.
#[derive(Debug, PartialEq)]
pub struct RuntimeHealth {
    pub detected_version: String,
    pub ready: bool,
    pub detail: Option<String>,
}

/// A registered runtime: what it says of itself, and the adapter that reaches it.
#[derive(Debug)]
pub struct RegisteredRuntime<A> {
    pub descriptor: RuntimeDescriptor,
    pub adapter: A,
}

impl<A> Row for RegisteredRuntime<A> {
    open spec fn key(&self) -> KeyView {
        KeyView::Text(self.descriptor.id@)
    }

    fn has_key(&self, key: Key) -> bool {
        match key {
            Key::Text(id) => text::same(self.descriptor.id.as_str(), id),
            _ => false,
        }
    }
}

/// Runtimes by their names.
pub type Runtimes<A> = Map<KeyView, RegisteredRuntime<A>>;

/// Why a probed runtime cannot serve, if it cannot.
pub open spec fn unfit(health: Result<RuntimeHealth, String>) -> Option<Seq<char>> {
    match health {
        Err(e) => Some(e@),
        Ok(health) => if health.ready {
            None
        } else {
            match health.detail {
                Some(detail) => Some(detail@),
                None => Some(Seq::empty()),
            }
        },
    }
}

/// The runtimes that can be chosen.
pub struct RuntimeRegistry<A> {
    runtimes: Table<RegisteredRuntime<A>>,
}

impl<A> View for RuntimeRegistry<A> {
    type V = Runtimes<A>;

    closed spec fn view(&self) -> Runtimes<A> {
        self.runtimes@
    }
}

impl<A> Default for RuntimeRegistry<A> {
    fn default() -> (r: Self)
        ensures
            r@ == Runtimes::<A>::empty(),
            r.order() == Seq::<RegisteredRuntime<A>>::empty(),
    {
        RuntimeRegistry { runtimes: Table::new() }
    }
}

impl<A> RuntimeRegistry<A> {
    /// The runtimes in the order in which they are held.
    pub closed spec fn order(self) -> Seq<RegisteredRuntime<A>> {
        self.runtimes.order()
    }

    /// A registry without runtimes.
    pub fn new() -> (r: Self)
        ensures
            r@ == Runtimes::<A>::empty(),
            r.order() == Seq::<RegisteredRuntime<A>>::empty(),
    {
        RuntimeRegistry { runtimes: Table::new() }
    }

    /// Registers a runtime under the name it gives itself, behind all others and in place of any
    /// other of that name.
    pub fn register(&mut self, runtime: RegisteredRuntime<A>)
        ensures
            final(self)@ == old(self)@.insert(runtime.key(), runtime),
            if old(self)@.contains_key(runtime.key()) {
                exists|i: int|
                    0 <= i < old(self).order().len() && (#[trigger] old(self).order()[i]).key()
                        == runtime.key() && final(self).order() == old(self).order().remove(i).push(
                        runtime,
                    )
            } else {
                final(self).order() == old(self).order().push(runtime)
            },
    {
        let ghost before = self@;
        let ghost places = self.order();
        match self.runtimes.find(Key::Text(runtime.descriptor.id.as_str())) {
            Some(i) => {
                assert(places[i as int].key() == runtime.key());
                let _replaced: RegisteredRuntime<A> = self.runtimes.remove_at(i);
            },
            None => {},
        }
        self.runtimes.push(runtime);
        assert(self@ =~= before.insert(runtime.key(), runtime));
    }

    /// Whether there is no runtime.
    pub fn is_empty(&self) -> (r: bool)
        ensures
            r == (self@ == Runtimes::<A>::empty()),
    {
        let r: bool = self.runtimes.len() == 0;
        proof {
            if r {
                assert forall|k: KeyView| !self@.contains_key(k) by {
                    if self@.contains_key(k) {
                        let i = self.runtimes.lemma_place_of(k);
                    }
                }
                assert(self@ =~= Runtimes::<A>::empty());
            } else {
                self.runtimes.lemma_view();
                crate::table::lemma_by_key_at(self.runtimes.order(), 0);
                assert(self@.contains_key(self.runtimes.order()[0].key()));
            }
        }
        r
    }

    /// How many runtimes there are.
    pub fn len(&self) -> (r: usize)
        ensures
            r == self.order().len(),
    {
        self.runtimes.len()
    }

    /// The runtime of a name, whether or not it is healthy.
    pub fn get(&self, id: &str) -> (r: Option<&RegisteredRuntime<A>>)
        ensures
            match r {
                Some(runtime) => self@.contains_key(KeyView::Text(id@)) && *runtime
                    == self@[KeyView::Text(id@)],
                None => !self@.contains_key(KeyView::Text(id@)),
            },
    {
        self.runtimes.get(Key::Text(id))
    }

    /// What every runtime says of itself.
    pub fn descriptors(&self) -> (r: Vec<&RuntimeDescriptor>)
        ensures
            r@.len() == self.order().len(),
            forall|i: int|
                0 <= i < r@.len() ==> *#[trigger] r@[i] == self.order()[i].descriptor,
    {
        let mut out: Vec<&RuntimeDescriptor> = Vec::new();
        let mut i: usize = 0;
        while i < self.runtimes.len()
            invariant
                i <= self.order().len(),
                out@.len() == i,
                forall|j: int|
                    0 <= j < i ==> *#[trigger] out@[j] == self.order()[j].descriptor,
            decreases self.order().len() - i,
        {
            out.push(&self.runtimes.at(i).descriptor);
            i = i + 1;
        }
        out
    }

    /// The runtime of a name, by what it says to a probe that was made just now. There is no
    /// probe of a runtime that is not registered.
    pub fn resolve(&self, id: &str, health: &Result<RuntimeHealth, String>) -> (r: Result<
        &RegisteredRuntime<A>,
        BackendResolutionError,
    >)
        ensures
            if !self@.contains_key(KeyView::Text(id@)) {
                r matches Err(BackendResolutionError::UnknownRuntime(name)) && name@ == id@
            } else {
                match unfit(*health) {
                    Some(why) => {
                        &&& r matches Err(BackendResolutionError::Unhealthy(name, detail))
                        &&& name@ == id@ && detail@ == why
                    },
                    None => r matches Ok(runtime) && *runtime == self@[KeyView::Text(id@)],
                }
            },
    {
        let runtime = match self.get(id) {
            Some(runtime) => runtime,
            None => {
                return Err(BackendResolutionError::UnknownRuntime(id.to_owned()));
            },
        };
        match health {
            Err(e) => Err(BackendResolutionError::Unhealthy(id.to_owned(), e.clone())),
            Ok(health) => if health.ready {
                Ok(runtime)
            } else {
                let detail: String = match &health.detail {
                    Some(detail) => detail.clone(),
                    None => String::new(),
                };
                Err(BackendResolutionError::Unhealthy(id.to_owned(), detail))
            },
        }
    }
}

/// A runtime can serve exactly where its probe succeeded and it says that it is ready; else it is
/// told what the probe or the runtime said.
pub proof fn only_a_ready_runtime_can_serve(health: Result<RuntimeHealth, String>)
    ensures
        unfit(health) is None <==> (health matches Ok(h) && h.ready),
        health matches Err(e) ==> unfit(health) == Some(e@),
        health matches Ok(h) ==> (!h.ready ==> unfit(health) == Some(
            match h.detail {
                Some(detail) => detail@,
                None => Seq::empty(),
            },
        )),
{
}

/// The text of a resolution error names the runtime, and what is wrong with it.
pub proof fn a_resolution_error_names_the_runtime(e: BackendResolutionError)
    ensures
        match e {
            BackendResolutionError::UnknownRuntime(id) => text::occurs(resolution_text(e), id@),
            BackendResolutionError::Unhealthy(id, detail) => text::occurs(
                resolution_text(e),
                id@,
            ) && text::occurs(resolution_text(e), detail@),
        },
{
    match e {
        BackendResolutionError::UnknownRuntime(id) => {
            let a = "no AgentRuntime registered for backend id '"@;
            text::what_is_written_last_stands_there(a, id@);
            text::what_stands_in_a_text_stands_in_a_longer_one(a + id@, "'"@, id@);
        },
        BackendResolutionError::Unhealthy(id, detail) => {
            let a = "AgentRuntime '"@;
            let b = "' is registered but unhealthy: "@;
            text::what_is_written_last_stands_there(a, id@);
            text::what_stands_in_a_text_stands_in_a_longer_one(a + id@, b, id@);
            text::what_stands_in_a_text_stands_in_a_longer_one(a + id@ + b, detail@, id@);
            text::what_is_written_last_stands_there(a + id@ + b, detail@);
        },
    }
}

} // verus!
