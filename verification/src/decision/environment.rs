//! The scalar state delta summary that the decision layer evaluates.
use vstd::prelude::*;
use crate::delta::types::StateDelta;

verus! {

/// Scalar summary of a state delta: the sole input the decision layer reads.
///
/// The summary is `Copy` and holds counts and totals only, so the scorer cannot reach the
/// mutation vectors: the decision layer is O(1) in the size of the state by construction,
/// and the projection itself reads only lengths.
#[derive(Debug, Clone, Copy, PartialEq, Eq, Structural, Default)]
pub struct DeltaSummary {
    /// Aggregate count of mutated bytes across memory, filesystem, and network.
    pub total_bytes_mutated: usize,
    /// Number of mutated memory pages.
    pub memory_pages_mutated: usize,
    /// Number of ephemeral filesystem mutations.
    pub fs_mutations: usize,
    /// Number of outbound requests intercepted by the transparent proxy.
    pub network_calls: usize,
    /// Number of intercepted routes the transparent proxy refused outside the schema.
    pub schema_breaches: usize,
    /// State delta computation latency in nanoseconds.
    pub duration_nanos: u64,
}

/// The scalar projection of a state delta.
pub open spec fn summary_of(delta: StateDelta) -> DeltaSummary {
    DeltaSummary {
        total_bytes_mutated: delta.total_bytes_mutated,
        memory_pages_mutated: delta.memory_mutations@.len() as usize,
        fs_mutations: delta.fs_mutations@.len() as usize,
        network_calls: delta.network_mutations@.len() as usize,
        schema_breaches: delta.schema_breaches,
        duration_nanos: delta.duration_nanos,
    }
}

/// The summary of a delta counts its memory pages, filesystem mutations and intercepted
/// requests, and carries its byte total, breach count and duration unchanged.
pub proof fn lemma_summary_counts(delta: StateDelta)
    requires
        delta.memory_mutations@.len() <= usize::MAX,
        delta.fs_mutations@.len() <= usize::MAX,
        delta.network_mutations@.len() <= usize::MAX,
    ensures
        summary_of(delta).total_bytes_mutated == delta.total_bytes_mutated,
        summary_of(delta).memory_pages_mutated == delta.memory_mutations@.len(),
        summary_of(delta).fs_mutations == delta.fs_mutations@.len(),
        summary_of(delta).network_calls == delta.network_mutations@.len(),
        summary_of(delta).schema_breaches == delta.schema_breaches,
        summary_of(delta).duration_nanos == delta.duration_nanos,
{
}

impl DeltaSummary {
    /// Projects a state delta onto its scalar summary in O(1) time.
    pub fn from_state_delta(delta: &StateDelta) -> (r: Self)
        ensures
            r == summary_of(*delta),
            r.total_bytes_mutated == delta.total_bytes_mutated,
            r.memory_pages_mutated == delta.memory_mutations@.len(),
            r.fs_mutations == delta.fs_mutations@.len(),
            r.network_calls == delta.network_mutations@.len(),
            r.schema_breaches == delta.schema_breaches,
            r.duration_nanos == delta.duration_nanos,
    {
        Self {
            total_bytes_mutated: delta.total_bytes_mutated,
            memory_pages_mutated: delta.memory_mutations.len(),
            fs_mutations: delta.fs_mutations.len(),
            network_calls: delta.network_mutations.len(),
            schema_breaches: delta.schema_breaches,
            duration_nanos: delta.duration_nanos,
        }
    }
}

impl<'a> From<&'a StateDelta> for DeltaSummary {
    fn from(delta: &'a StateDelta) -> (r: Self) {
        Self::from_state_delta(delta)
    }
}

impl<'a> vstd::std_specs::convert::FromSpecImpl<&'a StateDelta> for DeltaSummary {
    open spec fn obeys_from_spec() -> bool {
        true
    }

    open spec fn from_spec(delta: &'a StateDelta) -> Self {
        summary_of(*delta)
    }
}

} // verus!
