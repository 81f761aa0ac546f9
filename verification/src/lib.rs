//! dry-exec: ephemeral execution boundary and deterministic state delta engine.
pub mod decision;
pub mod delta;
pub mod error;
pub mod isolation;
pub mod outcome;
