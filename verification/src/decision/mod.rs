//! System-One decision layer: deterministic routing of a state delta onto an escalation state.
//!
//! The categorical choice and the escalation routing are decided on counts alone. The
//! calibrated risk score itself is a floating-point ratio, compared against the threshold
//! by the caller, which hands the outcome of that comparison to [`noul_for`].
pub mod environment;
pub mod primitives;

use vstd::prelude::*;
use crate::decision::environment::DeltaSummary;
use crate::decision::primitives::{Choice, Noul};
use crate::delta::network::{decimal, decimal_string};

verus! {

/// Categorical choice for a delta against the mutation ceilings: a count above its ceiling
/// (a mutation ratio above 1) is a violation; otherwise a refused route blocks; otherwise
/// the delta is allowed. A zero ceiling is an exhausted budget: any mutation breaches it.
pub open spec fn choice_spec(summary: DeltaSummary, max_mutated_bytes: usize, max_network_calls: usize) -> Choice {
    if summary.total_bytes_mutated > max_mutated_bytes || summary.network_calls > max_network_calls {
        Choice::Violated
    } else if summary.schema_breaches > 0 {
        Choice::Blocked
    } else {
        Choice::Allowed
    }
}

/// Categorical validation of a delta summary against the calibrated mutation ceilings.
pub fn choice_for(summary: &DeltaSummary, max_mutated_bytes: usize, max_network_calls: usize) -> (r: Choice)
    ensures
        r == choice_spec(*summary, max_mutated_bytes, max_network_calls),
{
    if summary.total_bytes_mutated > max_mutated_bytes || summary.network_calls > max_network_calls {
        Choice::Violated
    } else if summary.schema_breaches > 0 {
        Choice::Blocked
    } else {
        Choice::Allowed
    }
}

/// Escalation routing: only an allowed delta whose risk score stays within the calibrated
/// threshold commits automatically; every other delta escalates.
pub fn noul_for(choice: Choice, risk_within_threshold: bool) -> (r: Noul)
    ensures
        r == if choice == Choice::Allowed && risk_within_threshold { Noul::AutoCommit } else { Noul::Escalate },
{
    if choice == Choice::Allowed && risk_within_threshold {
        Noul::AutoCommit
    } else {
        Noul::Escalate
    }
}

/// Whether the optional local scorer is consulted: deterministic refusals never reach it.
pub fn consults_local_scorer(choice: Choice, scorer_present: bool) -> (r: bool)
    ensures
        r == (choice == Choice::Allowed && scorer_present),
{
    choice == Choice::Allowed && scorer_present
}

/// The system reason of a categorical refusal; `None` for an allowed delta, whose reason
/// quotes the risk score.
pub open spec fn refusal_reason_text(choice: Choice, summary: DeltaSummary, max_mutated_bytes: usize) -> Option<Seq<char>> {
    match choice {
        Choice::Violated => Some(
            "Mutation volume "@ + decimal(summary.total_bytes_mutated as nat) + " bytes exceeds calibrated ceiling "@
                + decimal(max_mutated_bytes as nat) + " bytes"@,
        ),
        Choice::Blocked => Some(
            "Transparent proxy refused "@ + decimal(summary.schema_breaches as nat)
                + " route(s) outside the registered schema"@,
        ),
        Choice::Allowed => None,
    }
}

/// The interpolated system reason of a categorical refusal.
pub fn refusal_reason(choice: Choice, summary: &DeltaSummary, max_mutated_bytes: usize) -> (r: Option<String>)
    ensures
        match refusal_reason_text(choice, *summary, max_mutated_bytes) {
            Some(t) => r matches Some(s) && s@ == t,
            None => r is None,
        },
{
    match choice {
        Choice::Violated => {
            let mut s = String::from_str("Mutation volume ");
            s.append(decimal_string(summary.total_bytes_mutated as u64).as_str());
            s.append(" bytes exceeds calibrated ceiling ");
            s.append(decimal_string(max_mutated_bytes as u64).as_str());
            s.append(" bytes");
            Some(s)
        },
        Choice::Blocked => {
            let mut s = String::from_str("Transparent proxy refused ");
            s.append(decimal_string(summary.schema_breaches as u64).as_str());
            s.append(" route(s) outside the registered schema");
            Some(s)
        },
        Choice::Allowed => None,
    }
}

/// The routing table of the decision layer: a violation or a block always escalates, and
/// only an allowed delta within the risk threshold commits automatically. A violation takes
/// precedence over a block.
pub proof fn lemma_refusals_always_escalate(
    summary: DeltaSummary,
    max_mutated_bytes: usize,
    max_network_calls: usize,
    risk_within_threshold: bool,
)
    ensures
        ({
            let c = choice_spec(summary, max_mutated_bytes, max_network_calls);
            let n = if c == Choice::Allowed && risk_within_threshold { Noul::AutoCommit } else { Noul::Escalate };
            &&& c != Choice::Allowed ==> n == Noul::Escalate
            &&& n == Noul::AutoCommit ==> c == Choice::Allowed && summary.schema_breaches == 0
                && summary.total_bytes_mutated <= max_mutated_bytes && summary.network_calls <= max_network_calls
            &&& summary.total_bytes_mutated > max_mutated_bytes ==> c == Choice::Violated
        }),
{
}

} // verus!
