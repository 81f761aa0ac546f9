//! Type-safe data structures representing deterministic state deltas.
use vstd::prelude::*;

verus! {

/// Discrete byte delta within an isolated memory page or ephemeral file.
#[derive(Debug, Clone, PartialEq, Eq)]
pub struct ByteDelta {
    /// Relative offset from start of mapped region or file.
    pub offset: usize,
    /// Pre-execution baseline bytes.
    pub original: Vec<u8>,
    /// Post-execution mutated bytes.
    pub mutated: Vec<u8>,
}

/// Mathematical model of a [`ByteDelta`].
pub struct ByteDeltaView {
    pub offset: usize,
    pub original: Seq<u8>,
    pub mutated: Seq<u8>,
}

impl View for ByteDelta {
    type V = ByteDeltaView;

    open spec fn view(&self) -> ByteDeltaView {
        ByteDeltaView { offset: self.offset, original: self.original@, mutated: self.mutated@ }
    }
}

/// The models of a sequence of byte deltas.
pub open spec fn byte_deltas_view(s: Seq<ByteDelta>) -> Seq<ByteDeltaView> {
    s.map_values(|d: ByteDelta| d@)
}

/// State mutation detected on a single virtual memory page.
#[derive(Debug, Clone, PartialEq, Eq)]
pub struct PageMutation {
    /// 0-indexed page number within the mapped memory region.
    pub page_index: usize,
    /// Starting virtual memory address of the page.
    pub page_address: usize,
    /// Detailed byte deltas detected on this page.
    pub deltas: Vec<ByteDelta>,
}

/// Ephemeral filesystem state mutation within the isolated tmpfs mount.
///
/// Paths are relative to the observed root, written with `/` between components.
#[derive(Debug, Clone, PartialEq, Eq)]
pub enum FsMutation {
    /// New inode created in the execution layer.
    Created { path: String, mode: u32, size: u64 },
    /// Existing inode mutated in the execution layer.
    Modified { path: String, deltas: Vec<ByteDelta> },
    /// Inode removed during execution layer lifecycle.
    Deleted { path: String },
}

/// Mathematical model of an [`FsMutation`].
pub enum FsMutationView {
    Created { path: Seq<char>, mode: u32, size: u64 },
    Modified { path: Seq<char>, deltas: Seq<ByteDeltaView> },
    Deleted { path: Seq<char> },
}

impl View for FsMutation {
    type V = FsMutationView;

    open spec fn view(&self) -> FsMutationView {
        match self {
            FsMutation::Created { path, mode, size } => FsMutationView::Created {
                path: path@,
                mode: *mode,
                size: *size,
            },
            FsMutation::Modified { path, deltas } => FsMutationView::Modified {
                path: path@,
                deltas: byte_deltas_view(deltas@),
            },
            FsMutation::Deleted { path } => FsMutationView::Deleted { path: path@ },
        }
    }
}

/// The models of a sequence of filesystem mutations.
pub open spec fn fs_mutations_view(s: Seq<FsMutation>) -> Seq<FsMutationView> {
    s.map_values(|m: FsMutation| m@)
}

/// Discrete network request intercepted by the transparent proxy boundary.
///
/// Headers are kept as `(name, value)` pairs, each name at most once.
#[derive(Debug, Clone, PartialEq, Eq)]
pub struct InterceptedRequest {
    pub method: String,
    pub url: String,
    pub headers: Vec<(String, String)>,
    pub request_body: Vec<u8>,
    pub response_status: u16,
    pub response_body: Vec<u8>,
}

/// Complete deterministic state delta computed post-execution.
#[derive(Debug, Clone, PartialEq, Eq)]
pub struct StateDelta {
    /// Memory mutations categorized by page.
    pub memory_mutations: Vec<PageMutation>,
    /// Ephemeral filesystem mutations.
    pub fs_mutations: Vec<FsMutation>,
    /// Outbound network mutations intercepted by the transparent proxy.
    pub network_mutations: Vec<InterceptedRequest>,
    /// Number of intercepted routes the transparent proxy refused outside the schema.
    pub schema_breaches: usize,
    /// Total count of mutated bytes across memory, filesystem and network.
    pub total_bytes_mutated: usize,
    /// State delta computation duration in nanoseconds.
    pub duration_nanos: u64,
}

impl StateDelta {
    /// A delta that records no mutation at all.
    pub fn empty() -> (r: Self)
        ensures
            r.memory_mutations@.len() == 0,
            r.fs_mutations@.len() == 0,
            r.network_mutations@.len() == 0,
            r.schema_breaches == 0,
            r.total_bytes_mutated == 0,
            r.duration_nanos == 0,
    {
        StateDelta {
            memory_mutations: Vec::new(),
            fs_mutations: Vec::new(),
            network_mutations: Vec::new(),
            schema_breaches: 0,
            total_bytes_mutated: 0,
            duration_nanos: 0,
        }
    }
}

impl Default for StateDelta {
    /// The delta that records no mutation at all.
    fn default() -> (r: Self)
        ensures
            r.memory_mutations@.len() == 0,
            r.fs_mutations@.len() == 0,
            r.network_mutations@.len() == 0,
            r.schema_breaches == 0,
            r.total_bytes_mutated == 0,
            r.duration_nanos == 0,
    {
        Self::empty()
    }
}

} // verus!
