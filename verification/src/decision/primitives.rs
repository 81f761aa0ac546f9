//! System-One decision primitives: categorical choice and escalation state.
use vstd::prelude::*;

verus! {

/// Categorical validation of a state delta against environment rules.
#[derive(Debug, Clone, Copy, PartialEq, Eq, Structural)]
pub enum Choice {
    /// No categorical refusal and no calibrated mutation ceiling breached.
    Allowed,
    /// The transparent proxy refused a route outside the registered schema.
    Blocked,
    /// A calibrated mutation ceiling was breached.
    Violated,
}

impl Choice {
    /// Stable wire representation shared with the Python SDK.
    pub fn as_str(self) -> (r: &'static str)
        ensures
            r@ == match self {
                Choice::Allowed => "allowed"@,
                Choice::Blocked => "blocked"@,
                Choice::Violated => "violated"@,
            },
    {
        match self {
            Choice::Allowed => "allowed",
            Choice::Blocked => "blocked",
            Choice::Violated => "violated",
        }
    }
}

/// Escalation state routed from the System-One decision layer.
#[derive(Debug, Clone, Copy, PartialEq, Eq, Structural)]
pub enum Noul {
    /// Within calibrated limits; the autonomous execution loop may proceed.
    AutoCommit,
    /// Escalation required: the mutation needs explicit approval before it is applied.
    Escalate,
}

impl Noul {
    /// Stable wire representation shared with the Python SDK.
    pub fn as_str(self) -> (r: &'static str)
        ensures
            r@ == match self {
                Noul::AutoCommit => "auto_commit"@,
                Noul::Escalate => "escalate"@,
            },
    {
        match self {
            Noul::AutoCommit => "auto_commit",
            Noul::Escalate => "escalate",
        }
    }
}

} // verus!
