//! Checks references to credentials.
use vstd::prelude::*;
use crate::agent::backend::AuthProfileRef;
use crate::types::BastionError;

verus! {

/// Accepts every reference to credentials: where nothing checks them, nothing is refused.
pub struct NullAuthResolver;

impl NullAuthResolver {
    /// Accepts the reference.
    pub fn resolve(&self, auth: &AuthProfileRef) -> (r: Result<(), BastionError>)
        ensures
            r is Ok,
    {
        Ok(())
    }
}

} // verus!
