//! What the agent can do, and the gates in front of it.
pub mod approval;
pub mod auth_resolver;
pub mod authority;
pub mod dispatch;
pub mod permission_queue;
pub mod registry;
pub mod structured_output;
