//! The context of an invocation, the tool allow-list, and results with their trust tag.
use vstd::prelude::*;
use crate::json;
use crate::json::{Fields, JsonTree};
use crate::text;
use crate::types::{BastionError, PrivacyTier};

verus! {

/// On whose behalf a capability is invoked, for data of which tier, and from which tool set.
#[derive(Debug)]
pub struct InvokeCtx {
    pub owner: String,
    pub privacy_tier: Option<PrivacyTier>,
    /// The capability names that the persona may use; `None` leaves it unrestricted.
    pub allowed_tools: Option<Vec<String>>,
}

/// One of the names is this one.
pub open spec fn listed(names: Seq<String>, name: Seq<char>) -> bool {
    exists|i: int| 0 <= i < names.len() && #[trigger] names[i]@ == name
}

/// The allow-list admits this capability name.
pub open spec fn admits(allowed_tools: Option<Seq<String>>, name: Seq<char>) -> bool {
    match allowed_tools {
        Some(names) => listed(names, name),
        None => true,
    }
}

/// The names of an allow-list.
pub open spec fn tool_set(allowed_tools: Option<Vec<String>>) -> Option<Seq<String>> {
    match allowed_tools {
        Some(names) => Some(names@),
        None => None,
    }
}

/// Whether the allow-list admits this capability. An absent list admits everything; a list
/// refuses every name outside it.
pub fn check_tool_allowed(allowed_tools: &Option<Vec<String>>, name: &str) -> (r: Result<
    (),
    BastionError,
>)
    ensures
        r is Ok <==> admits(tool_set(*allowed_tools), name@),
        r is Err ==> (r->Err_0 matches BastionError::ToolNotAllowed { capability } && capability@
            == name@),
{
    match allowed_tools {
        None => Ok(()),
        Some(names) => {
            let mut i: usize = 0;
            while i < names.len()
                invariant
                    i <= names@.len(),
                    tool_set(*allowed_tools) == Some(names@),
                    forall|j: int| 0 <= j < i ==> #[trigger] names@[j]@ != name@,
                decreases names@.len() - i,
            {
                if text::same(names[i].as_str(), name) {
                    assert(names@[i as int]@ == name@);
                    return Ok(());
                }
                i = i + 1;
            }
            Err(BastionError::ToolNotAllowed { capability: name.to_owned() })
        },
    }
}

/// A result together with where it came from and whether its content may be taken as an
/// instruction.
#[derive(Debug, PartialEq)]
pub struct TaggedValue {
    pub data: serde_json::Value,
    pub source: String,
    pub trusted: bool,
}

impl TaggedValue {
    /// The tag of a result from outside the host.
    pub fn untrusted(source: &str, data: serde_json::Value) -> (r: Self)
        ensures
            r.data == data,
            r.source@ == source@,
            !r.trusted,
    {
        TaggedValue { data, source: source.to_owned(), trusted: false }
    }
}

/// The JSON object `{"error": text}`.
pub open spec fn error_tree(text: Seq<char>) -> JsonTree {
    JsonTree::Object(Fields::empty().insert("error"@, JsonTree::Text(text)))
}

/// The JSON object that reports an error.
pub fn error_value(text: &str) -> (r: serde_json::Value)
    ensures
        json::tree(r) == error_tree(text@),
{
    let mut map = json::no_fields();
    json::set_field(&mut map, "error", json::string(text));
    json::object(map)
}

/// An allow-list admits exactly the names on it; without one everything is admitted, and an empty
/// one admits nothing.
pub proof fn an_allow_list_admits_what_is_on_it(
    allowed_tools: Option<Vec<String>>,
    name: Seq<char>,
)
    ensures
        admits(tool_set(allowed_tools), name) <==> match allowed_tools {
            None => true,
            Some(names) => names@.map_values(|listed: String| listed@).contains(name),
        },
        allowed_tools matches Some(names) ==> (names@.len() == 0 ==> !admits(
            tool_set(allowed_tools),
            name,
        )),
{
    if let Some(names) = allowed_tools {
        let views = names@.map_values(|listed: String| listed@);
        if listed(names@, name) {
            let i = choose|i: int| 0 <= i < names@.len() && #[trigger] names@[i]@ == name;
            assert(views[i] == name);
        }
        if views.contains(name) {
            let i = choose|i: int| 0 <= i < views.len() && views[i] == name;
            assert(names@[i]@ == name);
        }
    }
}

/// An error is reported by an object with its text and nothing else.
pub proof fn an_error_is_reported_by_its_text(text: Seq<char>)
    ensures
        error_tree(text) matches JsonTree::Object(fields) && fields.dom() == set!["error"@]
            && fields["error"@] == JsonTree::Text(text),
{
    assert(error_tree(text)->Object_0.dom() =~= set!["error"@]);
}

} // verus!
