//! Verified core of the Bastion agent runtime.
//!
//! Every decision that the runtime takes stands in this crate as a function with a contract:
//! what may leave the host, which capability may run, when a durable task starts, stops or
//! waits, and what is written to a conversation. The host around it does the waiting, the
//! storage and the network.
#![allow(unused_imports)]
#![allow(unused_variables)]

use vstd::prelude::*;

pub mod agent;
pub mod capability;
pub mod hooks;
pub mod json;
pub mod provider;
pub mod provider_auth;
pub mod provider_conformance;
pub mod table;
pub mod task;
pub mod text;
pub mod types;
pub mod unicode;
