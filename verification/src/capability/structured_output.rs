//! A capability that hands its input back: the form in which a model that can only be made to
//! call a tool gives a structured answer.
use vstd::prelude::*;
use crate::capability::authority::InvokeCtx;
use crate::capability::registry::CapabilityInfo;
use crate::types::BastionError;

verus! {

/// What the capability says of itself.
pub const DESCRIPTION: &'static str =
    "Emit the structured response matching the required JSON schema — internal, no side effects";

/// A capability without side effects, whose result is its input.
pub struct StructuredOutputCapability {
    name: String,
    description: String,
    schema: serde_json::Value,
}

impl StructuredOutputCapability {
    /// Its name.
    pub closed spec fn called(self) -> Seq<char> {
        self.name@
    }

    /// The schema of its input.
    pub closed spec fn wants(self) -> serde_json::Value {
        self.schema
    }

    /// What it says of itself.
    pub closed spec fn says(self) -> Seq<char> {
        self.description@
    }

    /// A capability with a name and a schema for its input.
    pub fn new(name: &str, schema: serde_json::Value) -> (r: Self)
        ensures
            r.called() == name@,
            r.wants() == schema,
            r.says() == DESCRIPTION@,
    {
        StructuredOutputCapability {
            name: name.to_owned(),
            description: DESCRIPTION.to_owned(),
            schema,
        }
    }

    /// Its name.
    pub fn name(&self) -> (r: &str)
        ensures
            r@ == self.called(),
    {
        self.name.as_str()
    }

    /// What it says of itself.
    pub fn description(&self) -> (r: &str)
        ensures
            r@ == self.says(),
    {
        self.description.as_str()
    }

    /// The schema of its input.
    pub fn input_schema(&self) -> (r: &serde_json::Value)
        ensures
            *r == self.wants(),
    {
        &self.schema
    }

    /// It never leaves the host.
    pub fn is_local(&self) -> (r: bool)
        ensures
            r,
    {
        true
    }

    /// What the registry knows it by.
    pub fn into_info(self) -> (r: CapabilityInfo)
        ensures
            r.name@ == self.called(),
            r.description@ == self.says(),
            r.input_schema == self.wants(),
            r.local && !r.needs_approval && r.trusted,
    {
        CapabilityInfo::local(self.name, self.description, self.schema)
    }

    /// Its result is its input.
    pub fn invoke(&self, args: serde_json::Value, ctx: &InvokeCtx) -> (r: Result<
        serde_json::Value,
        BastionError,
    >)
        ensures
            r == Ok::<serde_json::Value, BastionError>(args),
    {
        Ok(args)
    }
}

} // verus!
