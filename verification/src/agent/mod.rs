//! One conversation turn and everything that can happen in it.
pub mod approval_reply;
pub mod backend;
pub mod cockpit;
pub mod compactor;
pub mod context;
pub mod converse;
pub mod fallback;
pub mod price;
pub mod runtime_session;
pub mod tool_loop;
pub mod turn;
