//! The registry of capabilities and the one place where an invocation is let through.
//!
//! A capability is known by its name and by what its adapter says of itself: whether it stays
//! on the host, whether it needs its owner's approval, and whether its results may be trusted.
//! The adapter itself belongs to the host; the registry carries it along.
use vstd::prelude::*;
use crate::capability::approval::ApprovalOutcome;
use crate::capability::authority::{
    admits, check_tool_allowed, tool_set, InvokeCtx, TaggedValue,
};
use crate::hooks::egress::{check_egress, may_leave};
use crate::json;
use crate::json::{Fields, JsonTree};
use crate::table::{by_key, distinct_keys, Key, KeyView, Row, Table};
use crate::text;
use crate::text::{before, begins_with};
use crate::types::{BastionError, PrivacyTier};

verus! {

/// What a capability says of itself.
#[derive(Debug)]
pub struct CapabilityInfo {
    pub name: String,
    pub description: String,
    pub input_schema: serde_json::Value,
    /// No data leaves the host through it.
    pub local: bool,
    /// It runs only on its owner's approval.
    pub needs_approval: bool,
    /// Its results may be shown to the model as they are.
    pub trusted: bool,
}

impl CapabilityInfo {
    /// A capability that says nothing of itself: it reaches outside the host, so that its
    /// results are not trusted, and it needs no approval.
    pub fn external(name: String, description: String, input_schema: serde_json::Value) -> (r: Self)
        ensures
            r == (CapabilityInfo {
                name,
                description,
                input_schema,
                local: false,
                needs_approval: false,
                trusted: false,
            }),
    {
        CapabilityInfo {
            name,
            description,
            input_schema,
            local: false,
            needs_approval: false,
            trusted: false,
        }
    }

    /// A capability that stays on the host; its results are trusted.
    pub fn local(name: String, description: String, input_schema: serde_json::Value) -> (r: Self)
        ensures
            r == (CapabilityInfo {
                name,
                description,
                input_schema,
                local: true,
                needs_approval: false,
                trusted: true,
            }),
    {
        CapabilityInfo {
            name,
            description,
            input_schema,
            local: true,
            needs_approval: false,
            trusted: true,
        }
    }
}

/// A capability and the adapter behind it.
#[derive(Debug)]
pub struct Registered<C> {
    pub info: CapabilityInfo,
    pub adapter: C,
}

impl<C> Row for Registered<C> {
    open spec fn key(&self) -> KeyView {
        KeyView::Text(self.info.name@)
    }

    fn has_key(&self, key: Key) -> bool {
        match key {
            Key::Text(name) => text::same(self.info.name.as_str(), name),
            _ => false,
        }
    }
}

/// Capabilities by their names.
pub type Capabilities<C> = Map<KeyView, Registered<C>>;

/// The name lies in the part of the name space that is kept for the host's own commands.
pub open spec fn reserved(name: Seq<char>) -> bool {
    begins_with(name, "cmd:"@)
}

/// The capability may be registered: a reserved name is for what stays on the host, and no name
/// is given twice.
pub open spec fn may_register<C>(caps: Capabilities<C>, info: CapabilityInfo) -> bool {
    (reserved(info.name@) ==> info.local) && !caps.contains_key(KeyView::Text(info.name@))
}

/// The capabilities after a registration.
pub open spec fn after_register<C>(caps: Capabilities<C>, cap: Registered<C>) -> Capabilities<C> {
    if may_register(caps, cap.info) {
        caps.insert(cap.key(), cap)
    } else {
        caps
    }
}

/// The capabilities after several were registered one after another.
pub open spec fn after_register_all<C>(
    caps: Capabilities<C>,
    list: Seq<Registered<C>>,
) -> Capabilities<C>
    decreases list.len(),
{
    if list.len() == 0 {
        caps
    } else {
        after_register(after_register_all(caps, list.drop_last()), list.last())
    }
}

/// The names of those that got registered.
pub open spec fn names_registered<C>(
    caps: Capabilities<C>,
    list: Seq<Registered<C>>,
) -> Seq<Seq<char>>
    decreases list.len(),
{
    if list.len() == 0 {
        Seq::empty()
    } else {
        let before = names_registered(caps, list.drop_last());
        if may_register(after_register_all(caps, list.drop_last()), list.last().info) {
            before.push(list.last().info.name@)
        } else {
            before
        }
    }
}

/// The capabilities without those of these names.
pub open spec fn without<C>(caps: Capabilities<C>, names: Seq<Seq<char>>) -> Capabilities<C>
    decreases names.len(),
{
    if names.len() == 0 {
        caps
    } else {
        without(caps, names.drop_last()).remove(KeyView::Text(names.last()))
    }
}

/// The capabilities after these were put back, each in place of one of the same name.
pub open spec fn with_restored<C>(
    caps: Capabilities<C>,
    list: Seq<Registered<C>>,
) -> Capabilities<C>
    decreases list.len(),
{
    if list.len() == 0 {
        caps
    } else {
        with_restored(caps, list.drop_last()).insert(list.last().key(), list.last())
    }
}

/// The definition of a tool, as a provider is given it.
pub open spec fn tool_definition(info: CapabilityInfo) -> JsonTree {
    JsonTree::Object(
        Fields::empty().insert("name"@, JsonTree::Text(info.name@)).insert(
            "description"@,
            JsonTree::Text(info.description@),
        ).insert("input_schema"@, json::tree(info.input_schema)),
    )
}

/// Each name comes before the ones behind it.
pub open spec fn strictly_ordered(names: Seq<Seq<char>>) -> bool {
    forall|i: int, j: int|
        0 <= i < j < names.len() ==> before(#[trigger] names[i], #[trigger] names[j])
}

/// The names are exactly those of the capabilities, in their order.
pub open spec fn ordered_names<C>(caps: Capabilities<C>, names: Seq<Seq<char>>) -> bool {
    &&& strictly_ordered(names)
    &&& forall|n: Seq<char>| #[trigger]
        caps.contains_key(KeyView::Text(n)) <==> names.contains(n)
}

/// The position is in the list.
spec fn holds_position(positions: Seq<usize>, j: int) -> bool {
    exists|i: int| 0 <= i < positions.len() && #[trigger] positions[i] == j
}

/// What an invocation comes to before anything is run.
#[derive(Clone, Copy, Debug, PartialEq, Eq, Structural)]
pub enum InvokePlan {
    /// Run it.
    Dispatch { trusted: bool },
    /// Ask whether the owner approves.
    AskApproval { trusted: bool },
}

/// What the word of the approval queue comes to.
#[derive(Debug)]
pub enum ApprovalStep {
    /// This is the result; nothing is run.
    Return(TaggedValue),
    /// Run it, and keep the result under this number.
    DispatchAndRecord(i64),
    /// The owner does not want it.
    Deny(BastionError),
}

/// The destination that an invocation counts as: the host itself, or the world outside.
pub open spec fn destination(local: bool) -> Seq<char> {
    if local {
        "ollama"@
    } else {
        "external"@
    }
}

/// What is answered while the owner has not said anything.
pub open spec fn awaiting_tree(name: Seq<char>) -> JsonTree {
    JsonTree::Object(
        Fields::empty().insert("awaiting_approval"@, JsonTree::Bool(true)).insert(
            "capability"@,
            JsonTree::Text(name),
        ),
    )
}

/// The capabilities that can be invoked.
pub struct CapabilityRegistry<C> {
    caps: Table<Registered<C>>,
}

impl<C> View for CapabilityRegistry<C> {
    type V = Capabilities<C>;

    closed spec fn view(&self) -> Capabilities<C> {
        self.caps@
    }
}

impl<C> CapabilityRegistry<C> {
    /// An empty registry.
    pub fn new() -> (r: Self)
        ensures
            r@ == Capabilities::<C>::empty(),
    {
        CapabilityRegistry { caps: Table::new() }
    }

    /// Registers a capability under its name, unless it claims a reserved name without staying
    /// on the host, or its name is taken.
    pub fn register(&mut self, cap: Registered<C>) -> (r: Result<(), BastionError>)
        ensures
            final(self)@ == after_register(old(self)@, cap),
            r is Ok <==> may_register(old(self)@, cap.info),
            r matches Err(e) ==> (e matches BastionError::Failed(m) && m@ == if reserved(
                cap.info.name@,
            ) && !cap.info.local {
                "capability '"@ + cap.info.name@
                    + "' uses the reserved 'cmd:' namespace but is not a local NL command — refusing to register"@
            } else {
                "capability '"@ + cap.info.name@
                    + "' is already registered — refusing to overwrite"@
            }),
    {
        if text::starts_with(cap.info.name.as_str(), "cmd:") && !cap.info.local {
            return Err(
                BastionError::Failed(
                    text::concat3(
                        "capability '",
                        cap.info.name.as_str(),
                        "' uses the reserved 'cmd:' namespace but is not a local NL command — refusing to register",
                    ),
                ),
            );
        }
        match self.caps.find(Key::Text(cap.info.name.as_str())) {
            Some(_) => Err(
                BastionError::Failed(
                    text::concat3(
                        "capability '",
                        cap.info.name.as_str(),
                        "' is already registered — refusing to overwrite",
                    ),
                ),
            ),
            None => {
                self.caps.push(cap);
                Ok(())
            },
        }
    }

    /// The names of all capabilities, each once, in no particular order.
    pub fn list_names(&self) -> (r: Vec<&str>)
        ensures
            forall|i: int|
                0 <= i < r@.len() ==> self@.contains_key(KeyView::Text(#[trigger] r@[i]@)),
            forall|n: Seq<char>| #[trigger]
                self@.contains_key(KeyView::Text(n)) ==> exists|i: int|
                    0 <= i < r@.len() && #[trigger] r@[i]@ == n,
            forall|i: int, j: int|
                0 <= i < j < r@.len() ==> #[trigger] r@[i]@ != #[trigger] r@[j]@,
    {
        let mut out: Vec<&str> = Vec::new();
        let mut i: usize = 0;
        let total: usize = self.caps.len();
        while i < total
            invariant
                i <= self.caps.order().len(),
                total == self.caps.order().len(),
                distinct_keys(self.caps.order()),
                out@.len() == i,
                forall|j: int|
                    0 <= j < i ==> #[trigger] out@[j]@ == self.caps.order()[j].info.name@,
                forall|j: int|
                    0 <= j < i ==> self@.contains_key(KeyView::Text(#[trigger] out@[j]@)),
            decreases self.caps.order().len() - i,
        {
            let cap = self.caps.at(i);
            out.push(cap.info.name.as_str());
            i = i + 1;
        }
        proof {
            assert forall|n: Seq<char>| #[trigger]
                self@.contains_key(KeyView::Text(n)) implies exists|i: int|
                0 <= i < out@.len() && #[trigger] out@[i]@ == n by {
                let j = self.caps.lemma_place_of(KeyView::Text(n));
                assert(out@[j]@ == n);
            }
            assert forall|i: int, j: int| 0 <= i < j < out@.len() implies #[trigger] out@[i]@
                != #[trigger] out@[j]@ by {
                assert(self.caps.order()[i].key() != self.caps.order()[j].key());
            }
        }
        out
    }

    /// Whether there is no capability.
    pub fn is_empty(&self) -> (r: bool)
        ensures
            r == (self@ == Capabilities::<C>::empty()),
    {
        if self.caps.len() == 0 {
            assert(self@ =~= Capabilities::<C>::empty()) by {
                assert forall|k: KeyView| !self@.contains_key(k) by {
                    if self@.contains_key(k) {
                        let j = self.caps.lemma_place_of(k);
                    }
                }
            }
            true
        } else {
            let first = self.caps.at(0);
            assert(self@.contains_key(first.key()));
            false
        }
    }

    /// The capability of this name.
    pub fn get(&self, name: &str) -> (r: Option<&Registered<C>>)
        ensures
            match r {
                Some(cap) => self@.contains_key(KeyView::Text(name@)) && *cap
                    == self@[KeyView::Text(name@)],
                None => !self@.contains_key(KeyView::Text(name@)),
            },
    {
        self.caps.get(Key::Text(name))
    }

    /// Takes a capability out, and says whether it was there.
    pub fn remove(&mut self, name: &str) -> (r: bool)
        ensures
            r == old(self)@.contains_key(KeyView::Text(name@)),
            final(self)@ == old(self)@.remove(KeyView::Text(name@)),
    {
        match self.caps.find(Key::Text(name)) {
            Some(i) => {
                let _cap: Registered<C> = self.caps.remove_at(i);
                true
            },
            None => false,
        }
    }

    /// Takes every capability out.
    pub fn drain_all(&mut self) -> (r: Vec<Registered<C>>)
        ensures
            final(self)@ == Capabilities::<C>::empty(),
            distinct_keys(r@),
            by_key(r@) == old(self)@,
    {
        let mut caps: Table<Registered<C>> = Table::new();
        std::mem::swap(&mut caps, &mut self.caps);
        caps.into_rows()
    }

    /// Puts capabilities back, each in place of one of the same name. They were looked at when
    /// they were first registered, and are not looked at again.
    pub fn restore(&mut self, caps: Vec<Registered<C>>)
        ensures
            final(self)@ == with_restored(old(self)@, caps@),
    {
        let mut rest: Vec<Registered<C>> = caps;
        let ghost mut done: int = 0;
        while rest.len() > 0
            invariant
                0 <= done <= caps@.len(),
                rest@ == caps@.skip(done),
                self@ == with_restored(old(self)@, caps@.take(done)),
            decreases rest@.len(),
        {
            proof {
                let next = caps@.take(done + 1);
                assert(next.drop_last() =~= caps@.take(done));
                assert(next.last() == caps@[done]);
                assert(caps@.skip(done)[0] == caps@[done]);
            }
            let ghost start = self@;
            let cap: Registered<C> = rest.remove(0);
            match self.caps.find(Key::Text(cap.info.name.as_str())) {
                Some(i) => {
                    let _old: Registered<C> = self.caps.remove_at(i);
                    self.caps.insert_at(i, cap);
                },
                None => {
                    self.caps.push(cap);
                },
            }
            proof {
                assert(self@ =~= start.insert(cap.key(), cap));
                assert(rest@ =~= caps@.skip(done + 1));
                done = done + 1;
            }
        }
        assert(caps@.take(done) =~= caps@);
    }

    /// The name at a position.
    spec fn name_at(self, i: int) -> Seq<char> {
        self.caps.order()[i].info.name@
    }

    /// The names at these positions, in this order.
    spec fn names_at(self, positions: Seq<usize>) -> Seq<Seq<char>> {
        Seq::new(positions.len(), |i: int| self.name_at(positions[i] as int))
    }

    /// The positions of the capabilities, in the order of their names.
    fn sorted_positions(&self) -> (r: Vec<usize>)
        ensures
            ordered_names(self@, self.names_at(r@)),
            forall|i: int| 0 <= i < r@.len() ==> (#[trigger] r@[i]) < self.caps.order().len(),
    {
        let total: usize = self.caps.len();
        let ghost rows = self.caps.order();
        let mut out: Vec<usize> = Vec::new();
        let mut n: usize = 0;
        while n < total
            invariant
                n <= total == rows.len(),
                rows == self.caps.order(),
                distinct_keys(rows),
                forall|i: int| 0 <= i < out@.len() ==> (#[trigger] out@[i]) < n,
                forall|j: int| 0 <= j < n ==> #[trigger] holds_position(out@, j),
                strictly_ordered(self.names_at(out@)),
            decreases total - n,
        {
            let name: &str = self.caps.at(n).info.name.as_str();
            let mut k: usize = 0;
            while k < out.len() && !text::comes_before(
                name,
                self.caps.at(out[k]).info.name.as_str(),
            )
                invariant
                    k <= out@.len(),
                    n < rows.len(),
                    rows == self.caps.order(),
                    name@ == rows[n as int].info.name@,
                    forall|i: int| 0 <= i < out@.len() ==> (#[trigger] out@[i]) < n,
                    forall|i: int|
                        0 <= i < k ==> !before(name@, self.name_at((#[trigger] out@[i]) as int)),
                decreases out@.len() - k,
            {
                k = k + 1;
            }
            let ghost earlier = out@;
            out.insert(k, n);
            proof {
                let later = out@;
                let names = self.names_at(later);
                let old_names = self.names_at(earlier);
                assert forall|i: int, j: int| 0 <= i < j < names.len() implies before(
                    #[trigger] names[i],
                    #[trigger] names[j],
                ) by {
                    let ei = if i < k { i } else { i - 1 };
                    let ej = if j < k { j } else { j - 1 };
                    if i != k {
                        assert(later[i] == earlier[ei]);
                        assert(names[i] == old_names[ei]);
                        assert(rows[earlier[ei] as int].key() != rows[n as int].key());
                    }
                    if j != k {
                        assert(later[j] == earlier[ej]);
                        assert(names[j] == old_names[ej]);
                    }
                    if i != k && j != k {
                        assert(before(old_names[ei], old_names[ej]));
                    } else if j == k {
                        assert(!before(name@, self.name_at(earlier[i] as int)));
                        text::lemma_before_total(name@, old_names[i]);
                    } else {
                        assert(before(name@, old_names[k as int]));
                        if ej > k {
                            assert(before(old_names[k as int], old_names[ej]));
                            text::lemma_before_transitive(name@, old_names[k as int], old_names[ej]);
                        }
                    }
                }
                assert forall|j: int| 0 <= j < n + 1 implies #[trigger] holds_position(later, j) by {
                    if j == n {
                        assert(later[k as int] == j);
                    } else {
                        assert(holds_position(earlier, j));
                        let e = choose|e: int| 0 <= e < earlier.len() && #[trigger] earlier[e] == j;
                        let l = if e < k { e } else { e + 1 };
                        assert(later[l] == j);
                    }
                }
                assert forall|i: int| 0 <= i < later.len() implies (#[trigger] later[i]) < n + 1 by {
                    if i != k {
                        let ei = if i < k { i } else { i - 1 };
                        assert(later[i] == earlier[ei]);
                    }
                }
            }
            n = n + 1;
        }
        proof {
            let names = self.names_at(out@);
            assert forall|m: Seq<char>| #[trigger]
                self@.contains_key(KeyView::Text(m)) <==> names.contains(m) by {
                if self@.contains_key(KeyView::Text(m)) {
                    let j = self.caps.lemma_place_of(KeyView::Text(m));
                    assert(holds_position(out@, j));
                    let i = choose|i: int| 0 <= i < out@.len() && #[trigger] out@[i] == j;
                    assert(names[i] == m);
                }
                if names.contains(m) {
                    let i = choose|i: int| 0 <= i < names.len() && names[i] == m;
                    assert(out@[i] < rows.len());
                    crate::table::lemma_by_key_at(rows, out@[i] as int);
                    self.caps.lemma_view();
                }
            }
        }
        out
    }

    /// The definitions of all tools, in the order of their names: what is listed depends on
    /// what is registered, and on nothing else.
    pub fn list_tool_defs(&self) -> (r: Vec<serde_json::Value>)
        ensures
            exists|names: Seq<Seq<char>>| #[trigger]
                ordered_names(self@, names) && names.len() == r@.len() && forall|i: int|
                    0 <= i < names.len() ==> json::tree(#[trigger] r@[i]) == tool_definition(
                        self@[KeyView::Text(names[i])].info,
                    ) && self@[KeyView::Text(names[i])].info.name@ == names[i],
    {
        let positions: Vec<usize> = self.sorted_positions();
        let ghost names = self.names_at(positions@);
        let mut out: Vec<serde_json::Value> = Vec::new();
        let mut i: usize = 0;
        while i < positions.len()
            invariant
                i <= positions@.len(),
                names == self.names_at(positions@),
                forall|j: int|
                    0 <= j < positions@.len() ==> (#[trigger] positions@[j])
                        < self.caps.order().len(),
                out@.len() == i,
                forall|j: int|
                    0 <= j < i ==> json::tree(#[trigger] out@[j]) == tool_definition(
                        self@[KeyView::Text(names[j])].info,
                    ) && self@[KeyView::Text(names[j])].info.name@ == names[j],
            decreases positions@.len() - i,
        {
            let info: &CapabilityInfo = &self.caps.at(positions[i]).info;
            let mut map = json::no_fields();
            json::set_field(&mut map, "name", json::string(info.name.as_str()));
            json::set_field(&mut map, "description", json::string(info.description.as_str()));
            json::set_field(&mut map, "input_schema", json::duplicate(&info.input_schema));
            out.push(json::object(map));
            i = i + 1;
        }
        out
    }

    /// Whether an invocation may go on, and how. In this order: the capability must be known;
    /// the persona must be allowed to use it; the data must be allowed to go where it goes; and
    /// where it needs approval, the owner is asked before anything runs.
    pub fn invoke(&self, name: &str, ctx: &InvokeCtx) -> (r: Result<InvokePlan, BastionError>)
        ensures
            ({
                let key = KeyView::Text(name@);
                if !self@.contains_key(key) {
                    &&& r matches Err(BastionError::Failed(m))
                    &&& m@ == "unknown capability: "@ + name@
                } else if !admits(tool_set(ctx.allowed_tools), name@) {
                    &&& r matches Err(BastionError::ToolNotAllowed { capability })
                    &&& capability@ == name@
                } else if !may_leave(ctx.privacy_tier, destination(self@[key].info.local)) {
                    r == Err::<InvokePlan, BastionError>(BastionError::PrivacyEgressBlocked)
                } else if self@[key].info.needs_approval {
                    r == Ok::<InvokePlan, BastionError>(
                        InvokePlan::AskApproval { trusted: self@[key].info.trusted },
                    )
                } else {
                    r == Ok::<InvokePlan, BastionError>(
                        InvokePlan::Dispatch { trusted: self@[key].info.trusted },
                    )
                }
            }),
    {
        let info: &CapabilityInfo = match self.caps.get(Key::Text(name)) {
            Some(cap) => &cap.info,
            None => {
                return Err(BastionError::Failed(text::concat2("unknown capability: ", name)));
            },
        };
        match check_tool_allowed(&ctx.allowed_tools, name) {
            Ok(_) => {},
            Err(e) => return Err(e),
        }
        let goes_to: &str = if info.local {
            "ollama"
        } else {
            "external"
        };
        match check_egress(ctx.privacy_tier, goes_to) {
            Ok(_) => {},
            Err(e) => return Err(e),
        }
        if info.needs_approval {
            Ok(InvokePlan::AskApproval { trusted: info.trusted })
        } else {
            Ok(InvokePlan::Dispatch { trusted: info.trusted })
        }
    }
}

/// What the word of the approval queue comes to. A result that is there is given back; an
/// action that waits is answered as waiting; an approved one is run and its result kept; a
/// rejected one is an error.
pub fn after_approval(name: &str, trusted: bool, outcome: ApprovalOutcome) -> (r: ApprovalStep)
    ensures
        match outcome {
            ApprovalOutcome::AlreadyExecuted(cached) => {
                &&& r matches ApprovalStep::Return(tagged)
                &&& tagged.data == cached && tagged.source@ == name@ && tagged.trusted == trusted
            },
            ApprovalOutcome::AlreadyPending | ApprovalOutcome::NewlyQueued(_) => {
                &&& r matches ApprovalStep::Return(tagged)
                &&& json::tree(tagged.data) == awaiting_tree(name@) && tagged.source@ == name@
                &&& tagged.trusted == trusted
            },
            ApprovalOutcome::ApprovedPendingExecution(id) => r == ApprovalStep::DispatchAndRecord(
                id,
            ),
            ApprovalOutcome::Rejected(scope) => {
                &&& r matches ApprovalStep::Deny(BastionError::ApprovalDenied {
                    capability,
                    scope: reach,
                })
                &&& capability@ == name@ && reach == scope
            },
        },
{
    match outcome {
        ApprovalOutcome::AlreadyExecuted(cached) => ApprovalStep::Return(
            tag_result(name, trusted, cached),
        ),
        ApprovalOutcome::AlreadyPending | ApprovalOutcome::NewlyQueued(_) => {
            let mut map = json::no_fields();
            json::set_field(&mut map, "awaiting_approval", json::boolean(true));
            json::set_field(&mut map, "capability", json::string(name));
            ApprovalStep::Return(tag_result(name, trusted, json::object(map)))
        },
        ApprovalOutcome::ApprovedPendingExecution(id) => ApprovalStep::DispatchAndRecord(id),
        ApprovalOutcome::Rejected(scope) => ApprovalStep::Deny(
            BastionError::ApprovalDenied { capability: name.to_owned(), scope },
        ),
    }
}

/// A result with its source and the trust that its capability has.
pub fn tag_result(name: &str, trusted: bool, data: serde_json::Value) -> (r: TaggedValue)
    ensures
        r.data == data,
        r.source@ == name@,
        r.trusted == trusted,
{
    TaggedValue { data, source: name.to_owned(), trusted }
}

/// What a turn did to the registry, and what is to be undone when it is over.
pub struct TurnCapabilityScope<C> {
    registered: Vec<String>,
    quarantined: Vec<Registered<C>>,
}

impl<C> TurnCapabilityScope<C> {
    /// The names that the scope added.
    pub closed spec fn added(self) -> Seq<Seq<char>> {
        text::views(self.registered@)
    }

    /// The capabilities that the scope took away.
    pub closed spec fn taken(self) -> Seq<Registered<C>> {
        self.quarantined@
    }

    /// Adds capabilities for a turn. One that cannot be registered is left out.
    pub fn new(registry: &mut CapabilityRegistry<C>, caps: Vec<Registered<C>>) -> (r: Self)
        ensures
            final(registry)@ == after_register_all(old(registry)@, caps@),
            r.added() == names_registered(old(registry)@, caps@),
            r.taken() == Seq::<Registered<C>>::empty(),
    {
        let mut rest: Vec<Registered<C>> = caps;
        let mut registered: Vec<String> = Vec::new();
        let ghost mut done: int = 0;
        assert(text::views(registered@) =~= Seq::<Seq<char>>::empty());
        while rest.len() > 0
            invariant
                0 <= done <= caps@.len(),
                rest@ == caps@.skip(done),
                registry@ == after_register_all(old(registry)@, caps@.take(done)),
                text::views(registered@) == names_registered(old(registry)@, caps@.take(done)),
            decreases rest@.len(),
        {
            proof {
                let next = caps@.take(done + 1);
                assert(next.drop_last() =~= caps@.take(done));
                assert(next.last() == caps@[done]);
                assert(caps@.skip(done)[0] == caps@[done]);
            }
            let ghost names = text::views(registered@);
            let cap: Registered<C> = rest.remove(0);
            let name: String = cap.info.name.clone();
            match registry.register(cap) {
                Ok(_) => {
                    registered.push(name);
                    assert(text::views(registered@) =~= names.push(name@));
                },
                Err(_) => {},
            }
            proof {
                assert(rest@ =~= caps@.skip(done + 1));
                done = done + 1;
            }
        }
        assert(caps@.take(done) =~= caps@);
        TurnCapabilityScope { registered, quarantined: Vec::new() }
    }

    /// Takes every capability away for a turn.
    pub fn quarantine(registry: &mut CapabilityRegistry<C>) -> (r: Self)
        ensures
            final(registry)@ == Capabilities::<C>::empty(),
            r.added() == Seq::<Seq<char>>::empty(),
            distinct_keys(r.taken()),
            by_key(r.taken()) == old(registry)@,
    {
        let quarantined: Vec<Registered<C>> = registry.drain_all();
        let r: TurnCapabilityScope<C> = TurnCapabilityScope { registered: Vec::new(), quarantined };
        assert(r.added() =~= Seq::<Seq<char>>::empty());
        r
    }

    /// Undoes what the scope did.
    pub fn close(self, registry: &mut CapabilityRegistry<C>)
        ensures
            final(registry)@ == with_restored(without(old(registry)@, self.added()), self.taken()),
    {
        let mut i: usize = 0;
        while i < self.registered.len()
            invariant
                i <= self.registered@.len(),
                registry@ == without(old(registry)@, self.added().take(i as int)),
            decreases self.registered@.len() - i,
        {
            proof {
                let next = self.added().take(i + 1);
                assert(next.drop_last() =~= self.added().take(i as int));
                assert(next.last() == self.registered@[i as int]@);
            }
            let _was_there: bool = registry.remove(self.registered[i].as_str());
            i = i + 1;
        }
        assert(self.added().take(i as int) =~= self.added());
        registry.restore(self.quarantined);
    }
}

/// A turn that adds capabilities and closes its scope leaves the registry as it found it.
pub proof fn a_closed_scope_leaves_no_trace<C>(caps: Capabilities<C>, list: Seq<Registered<C>>)
    ensures
        with_restored(
            without(after_register_all(caps, list), names_registered(caps, list)),
            Seq::empty(),
        ) == caps,
{
    lemma_added_names(caps, list);
    lemma_without(after_register_all(caps, list), names_registered(caps, list));
    assert(without(after_register_all(caps, list), names_registered(caps, list)) =~= caps);
}

/// The names that got registered are the ones that are new, and what was there is unchanged.
proof fn lemma_added_names<C>(caps: Capabilities<C>, list: Seq<Registered<C>>)
    ensures
        forall|k: KeyView| #[trigger]
            after_register_all(caps, list).contains_key(k) <==> caps.contains_key(k)
                || is_named(names_registered(caps, list), k),
        forall|k: KeyView| is_named(names_registered(caps, list), k) ==> !caps.contains_key(k),
        forall|k: KeyView|
            caps.contains_key(k) ==> #[trigger] after_register_all(caps, list)[k] == caps[k],
    decreases list.len(),
{
    if list.len() > 0 {
        let earlier = list.drop_last();
        lemma_added_names(caps, earlier);
        let names = names_registered(caps, earlier);
        let all = names_registered(caps, list);
        let cap = list.last();
        if may_register(after_register_all(caps, earlier), cap.info) {
            assert forall|k: KeyView| is_named(all, k) <==> is_named(names, k) || k
                == cap.key() by {
                if is_named(all, k) {
                    let i = choose|i: int| 0 <= i < all.len() && KeyView::Text(#[trigger] all[i]) == k;
                    if i < names.len() {
                        assert(KeyView::Text(names[i]) == k);
                    }
                }
                if is_named(names, k) {
                    let i = choose|i: int|
                        0 <= i < names.len() && KeyView::Text(#[trigger] names[i]) == k;
                    assert(KeyView::Text(all[i]) == k);
                }
                if k == cap.key() {
                    assert(KeyView::Text(all[names.len() as int]) == k);
                }
            }
        }
    }
}

/// The key is one of these names.
spec fn is_named(names: Seq<Seq<char>>, k: KeyView) -> bool {
    exists|i: int| 0 <= i < names.len() && KeyView::Text(#[trigger] names[i]) == k
}

/// What is left without some names.
proof fn lemma_without<C>(caps: Capabilities<C>, names: Seq<Seq<char>>)
    ensures
        forall|k: KeyView| #[trigger]
            without(caps, names).contains_key(k) <==> caps.contains_key(k) && !is_named(names, k),
        forall|k: KeyView| #[trigger]
            without(caps, names).contains_key(k) ==> without(caps, names)[k] == caps[k],
    decreases names.len(),
{
    if names.len() > 0 {
        let earlier = names.drop_last();
        lemma_without(caps, earlier);
        assert forall|k: KeyView| is_named(names, k) <==> is_named(earlier, k) || k
            == KeyView::Text(names.last()) by {
            if is_named(names, k) {
                let i = choose|i: int|
                    0 <= i < names.len() && KeyView::Text(#[trigger] names[i]) == k;
                if i < earlier.len() {
                    assert(KeyView::Text(earlier[i]) == k);
                }
            }
            if is_named(earlier, k) {
                let i = choose|i: int|
                    0 <= i < earlier.len() && KeyView::Text(#[trigger] earlier[i]) == k;
                assert(KeyView::Text(names[i]) == k);
            }
            if k == KeyView::Text(names.last()) {
                assert(KeyView::Text(names[names.len() - 1]) == k);
            }
        }
        assert forall|k: KeyView| #[trigger]
            without(caps, names).contains_key(k) <==> caps.contains_key(k) && !is_named(
                names,
                k,
            ) by {
            assert(without(caps, earlier).contains_key(k) <==> caps.contains_key(k) && !is_named(
                earlier,
                k,
            ));
        }
        assert forall|k: KeyView| #[trigger] without(caps, names).contains_key(k) implies without(
            caps,
            names,
        )[k] == caps[k] by {
            assert(without(caps, earlier).contains_key(k));
        }
    }
}

/// What was drained and is put back is what was there: a quarantine leaves no trace either.
pub proof fn a_quarantine_leaves_no_trace<C>(taken: Seq<Registered<C>>)
    requires
        distinct_keys(taken),
    ensures
        with_restored(without(Capabilities::<C>::empty(), Seq::empty()), taken) == by_key(taken),
    decreases taken.len(),
{
    if taken.len() == 0 {
        assert(by_key(taken) =~= Capabilities::<C>::empty());
    } else {
        let earlier = taken.drop_last();
        assert(distinct_keys(earlier)) by {
            assert forall|i: int, j: int| 0 <= i < j < earlier.len() implies #[trigger] earlier[i].key()
                != #[trigger] earlier[j].key() by {
                assert(earlier[i] == taken[i] && earlier[j] == taken[j]);
            }
        }
        a_quarantine_leaves_no_trace(earlier);
        let last = taken.last();
        assert(!by_key(earlier).contains_key(last.key())) by {
            if by_key(earlier).contains_key(last.key()) {
                let i = crate::table::lemma_by_key_has_position(earlier, last.key());
                assert(taken[i].key() != taken[taken.len() - 1].key());
            }
        }
        crate::table::lemma_by_key_insert(earlier, earlier.len() as int, last);
        assert(earlier.insert(earlier.len() as int, last) =~= taken);
    }
}

/// The order in which tools are listed depends on what is registered alone, not on how it came
/// to be there.
pub proof fn the_listing_is_determined<C>(
    caps: Capabilities<C>,
    a: Seq<Seq<char>>,
    b: Seq<Seq<char>>,
)
    requires
        ordered_names(caps, a),
        ordered_names(caps, b),
    ensures
        a == b,
{
    assert forall|n: Seq<char>| a.contains(n) <==> b.contains(n) by {
        assert(caps.contains_key(KeyView::Text(n)) <==> a.contains(n));
        assert(caps.contains_key(KeyView::Text(n)) <==> b.contains(n));
    }
    lemma_same_members_same_order(a, b);
}

/// Two strictly ordered lists with the same members are the same.
proof fn lemma_same_members_same_order(a: Seq<Seq<char>>, b: Seq<Seq<char>>)
    requires
        strictly_ordered(a),
        strictly_ordered(b),
        forall|n: Seq<char>| a.contains(n) <==> b.contains(n),
    ensures
        a == b,
    decreases a.len(),
{
    if a.len() == 0 {
        if b.len() > 0 {
            assert(b.contains(b[0]));
            assert(a.contains(b[0]));
        }
        assert(a =~= b);
    } else {
        assert(a.contains(a.last()));
        assert(b.contains(a.last()));
        assert(b.len() > 0);
        assert(b.contains(b.last()));
        assert(a.contains(b.last()));
        lemma_last_is_greatest(a, b.last());
        lemma_last_is_greatest(b, a.last());
        if a.last() != b.last() {
            text::lemma_before_asymmetric(a.last(), b.last());
        }
        let x = a.drop_last();
        let y = b.drop_last();
        assert forall|n: Seq<char>| x.contains(n) <==> y.contains(n) by {
            lemma_member_of_front(a, n);
            lemma_member_of_front(b, n);
        }
        assert(strictly_ordered(x)) by {
            assert forall|i: int, j: int| 0 <= i < j < x.len() implies before(
                #[trigger] x[i],
                #[trigger] x[j],
            ) by {
                assert(before(a[i], a[j]));
            }
        }
        assert(strictly_ordered(y)) by {
            assert forall|i: int, j: int| 0 <= i < j < y.len() implies before(
                #[trigger] y[i],
                #[trigger] y[j],
            ) by {
                assert(before(b[i], b[j]));
            }
        }
        lemma_same_members_same_order(x, y);
        assert(a =~= x.push(a.last()));
        assert(b =~= y.push(b.last()));
    }
}

/// Everything in a strictly ordered list is its last entry or comes before it.
proof fn lemma_last_is_greatest(a: Seq<Seq<char>>, n: Seq<char>)
    requires
        strictly_ordered(a),
        a.contains(n),
    ensures
        n == a.last() || before(n, a.last()),
{
    let i = choose|i: int| 0 <= i < a.len() && a[i] == n;
    if i < a.len() - 1 {
        assert(before(a[i], a[a.len() - 1]));
    }
}

/// Without its last entry a strictly ordered list has all its other members, and not the last.
proof fn lemma_member_of_front(a: Seq<Seq<char>>, n: Seq<char>)
    requires
        strictly_ordered(a),
        a.len() > 0,
    ensures
        a.drop_last().contains(n) <==> a.contains(n) && n != a.last(),
{
    let x = a.drop_last();
    if x.contains(n) {
        let i = choose|i: int| 0 <= i < x.len() && x[i] == n;
        assert(a[i] == n);
        assert(before(a[i], a[a.len() - 1]));
        text::lemma_before_irreflexive(n);
    }
    if a.contains(n) && n != a.last() {
        let i = choose|i: int| 0 <= i < a.len() && a[i] == n;
        assert(x[i] == n);
    }
}

/// Every reserved name belongs to a capability that stays on the host.
pub open spec fn reserved_names_are_local<C>(caps: Capabilities<C>) -> bool {
    forall|k: KeyView| #[trigger]
        caps.contains_key(k) ==> (reserved(caps[k].info.name@) ==> caps[k].info.local)
}

/// No registration and no removal puts a reserved name in the hands of a capability that
/// reaches outside: a name cannot make a capability local.
pub proof fn a_name_cannot_grant_locality<C>(
    caps: Capabilities<C>,
    cap: Registered<C>,
    name: KeyView,
)
    requires
        reserved_names_are_local(caps),
    ensures
        reserved_names_are_local(after_register(caps, cap)),
        reserved_names_are_local(caps.remove(name)),
        reserved_names_are_local(Capabilities::<C>::empty()),
{
    let added = after_register(caps, cap);
    assert forall|k: KeyView|
        #[trigger] added.contains_key(k) && reserved(added[k].info.name@) implies
        added[k].info.local by {
        if k != cap.key() {
            assert(caps.contains_key(k));
        } else if !may_register(caps, cap.info) {
            assert(caps.contains_key(k));
        }
    }
    let removed = caps.remove(name);
    assert forall|k: KeyView|
        #[trigger] removed.contains_key(k) && reserved(removed[k].info.name@) implies
        removed[k].info.local by {
        assert(caps.contains_key(k));
    }
}

/// A registration never takes the place of another: what is there stays as it is.
pub proof fn registering_overwrites_nothing<C>(
    caps: Capabilities<C>,
    cap: Registered<C>,
    k: KeyView,
)
    requires
        caps.contains_key(k),
    ensures
        after_register(caps, cap).contains_key(k),
        after_register(caps, cap)[k] == caps[k],
{
}

/// What reaches outside the host is invoked only with data that may leave it.
pub proof fn outside_capabilities_get_cleared_data_only(tier: Option<PrivacyTier>)
    ensures
        may_leave(tier, destination(false)) <==> tier == Some(PrivacyTier::CloudOk),
        may_leave(tier, destination(true)) <==> tier is Some,
{
    reveal_strlit("ollama");
    reveal_strlit("external");
    assert("ollama"@.len() == 6);
    assert("external"@.len() == 8);
}

/// The definition of a tool names it, describes it and gives its schema, each as the capability
/// says, and nothing else.
pub proof fn a_tool_is_defined_as_it_says(info: CapabilityInfo)
    ensures
        tool_definition(info) matches JsonTree::Object(fields) && {
            &&& fields.contains_key("name"@) && fields["name"@] == JsonTree::Text(info.name@)
            &&& fields.contains_key("description"@) && fields["description"@] == JsonTree::Text(
                info.description@,
            )
            &&& fields.contains_key("input_schema"@) && fields["input_schema"@] == json::tree(
                info.input_schema,
            )
            &&& fields.dom() == set!["name"@, "description"@, "input_schema"@]
        },
{
    reveal_strlit("name");
    reveal_strlit("description");
    reveal_strlit("input_schema");
    assert("name"@[0] == 'n' && "description"@[0] == 'd' && "input_schema"@[0] == 'i');
    let fields = tool_definition(info)->Object_0;
    assert(fields.dom() =~= set!["name"@, "description"@, "input_schema"@]);
}

/// Who waits for the owner is told so, and for which capability.
pub proof fn who_waits_is_told_for_what(name: Seq<char>)
    ensures
        awaiting_tree(name) matches JsonTree::Object(fields) && {
            &&& fields.contains_key("awaiting_approval"@) && fields["awaiting_approval"@]
                == JsonTree::Bool(true)
            &&& fields.contains_key("capability"@) && fields["capability"@] == JsonTree::Text(name)
            &&& fields.dom() == set!["awaiting_approval"@, "capability"@]
        },
{
    reveal_strlit("awaiting_approval");
    reveal_strlit("capability");
    assert("awaiting_approval"@[0] == 'a' && "capability"@[0] == 'c');
    let fields = awaiting_tree(name)->Object_0;
    assert(fields.dom() =~= set!["awaiting_approval"@, "capability"@]);
}

/// A capability is registered, as it is and under its own name, exactly where that name is free and
/// is not one of the host's own commands, unless the capability stays on the host.
pub proof fn a_free_name_can_be_registered<C>(caps: Capabilities<C>, cap: Registered<C>)
    ensures
        ({
            let key = KeyView::Text(cap.info.name@);
            let after = after_register(caps, cap);
            let command = begins_with(cap.info.name@, seq!['c', 'm', 'd', ':']);
            if !caps.contains_key(key) && (cap.info.local || !command) {
                &&& after.contains_key(key)
                &&& after[key] == cap
                &&& after.dom() == caps.dom().insert(key)
            } else {
                after == caps
            }
        }),
{
    reveal_strlit("cmd:");
    assert("cmd:"@ =~= seq!['c', 'm', 'd', ':']);
    let key = KeyView::Text(cap.info.name@);
    if may_register(caps, cap.info) {
        assert(after_register(caps, cap).dom() =~= caps.dom().insert(key));
    }
}

/// Of several that are registered one after the other the first of each name stays, and all that
/// may be registered are.
pub proof fn the_first_of_a_name_is_registered<C>(
    caps: Capabilities<C>,
    list: Seq<Registered<C>>,
    i: int,
)
    requires
        0 <= i < list.len(),
        list[i].info.local || !begins_with(list[i].info.name@, seq!['c', 'm', 'd', ':']),
        !caps.contains_key(KeyView::Text(list[i].info.name@)),
        forall|j: int|
            0 <= j < i ==> (#[trigger] list[j]).info.name@ != list[i].info.name@,
    ensures
        after_register_all(caps, list).contains_key(KeyView::Text(list[i].info.name@)),
        after_register_all(caps, list)[KeyView::Text(list[i].info.name@)] == list[i],
    decreases list.len(),
{
    let earlier = list.drop_last();
    if i < earlier.len() {
        assert forall|j: int| 0 <= j < i implies (#[trigger] earlier[j]).info.name@
            != earlier[i].info.name@ by {
            assert(list[j].info.name@ != list[i].info.name@);
        }
        the_first_of_a_name_is_registered(caps, earlier, i);
    } else {
        lemma_not_registered(caps, earlier, list[i].info.name@);
        a_free_name_can_be_registered(after_register_all(caps, earlier), list[i]);
    }
}

/// A name that nobody has is not registered.
proof fn lemma_not_registered<C>(
    caps: Capabilities<C>,
    list: Seq<Registered<C>>,
    name: Seq<char>,
)
    requires
        !caps.contains_key(KeyView::Text(name)),
        forall|j: int| 0 <= j < list.len() ==> (#[trigger] list[j]).info.name@ != name,
    ensures
        !after_register_all(caps, list).contains_key(KeyView::Text(name)),
    decreases list.len(),
{
    if list.len() > 0 {
        let earlier = list.drop_last();
        assert forall|j: int| 0 <= j < earlier.len() implies (#[trigger] earlier[j]).info.name@
            != name by {
            assert(list[j].info.name@ != name);
        }
        lemma_not_registered(caps, earlier, name);
        assert(list[list.len() - 1].info.name@ != name);
    }
}

/// What the approval queue says decides whether something runs: only what is approved and has not
/// run does, a rejection is an error that names the capability, and anything else is answered.
pub proof fn only_an_approved_action_is_run(
    name: &str,
    trusted: bool,
    outcome: ApprovalOutcome,
    r: ApprovalStep,
)
    requires
        call_ensures(after_approval, (name, trusted, outcome), r),
    ensures
        r is DispatchAndRecord <==> outcome is ApprovedPendingExecution,
        r is Deny <==> outcome is Rejected,
        outcome matches ApprovalOutcome::ApprovedPendingExecution(id) ==> r
            == ApprovalStep::DispatchAndRecord(id),
        r matches ApprovalStep::Return(tagged) ==> tagged.source@ == name@ && tagged.trusted
            == trusted,
        outcome matches ApprovalOutcome::AlreadyExecuted(kept) ==> (
        r matches ApprovalStep::Return(tagged) && tagged.data == kept),
        r matches ApprovalStep::Deny(e) ==> (e matches BastionError::ApprovalDenied {
            capability,
            ..
        } && capability@ == name@),
{
}

/// A capability is let run only where it is registered, the persona may use it and the data may go
/// where it goes, and without approval only where it needs none.
pub proof fn what_an_invocation_takes<C>(
    registry: &CapabilityRegistry<C>,
    name: &str,
    ctx: &InvokeCtx,
    r: Result<InvokePlan, BastionError>,
)
    requires
        call_ensures(CapabilityRegistry::<C>::invoke, (registry, name, ctx), r),
    ensures
        r is Ok ==> {
            &&& registry@.contains_key(KeyView::Text(name@))
            &&& admits(tool_set(ctx.allowed_tools), name@)
            &&& ctx.privacy_tier is Some
            &&& registry@[KeyView::Text(name@)].info.local || ctx.privacy_tier == Some(
                PrivacyTier::CloudOk,
            )
        },
        r matches Ok(InvokePlan::Dispatch { trusted }) ==> !registry@[KeyView::Text(
            name@,
        )].info.needs_approval && trusted == registry@[KeyView::Text(name@)].info.trusted,
        r matches Ok(InvokePlan::AskApproval { trusted }) ==> registry@[KeyView::Text(
            name@,
        )].info.needs_approval && trusted == registry@[KeyView::Text(name@)].info.trusted,
{
    outside_capabilities_get_cleared_data_only(ctx.privacy_tier);
}

} // verus!
