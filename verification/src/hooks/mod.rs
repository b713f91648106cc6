//! Checks around a turn: what may leave the host, what may come in, what the owner said.
pub mod approval_intent;
pub mod egress;
pub mod guardrails;
pub mod output_validator;
