//! Deterministic state delta engine.
pub mod fs;
pub mod http;
pub mod macos_fs;
pub mod memory;
pub mod network;
pub mod pagemap;
pub mod types;

use vstd::prelude::*;
use crate::delta::types::{ByteDelta, FsMutation, InterceptedRequest, PageMutation, StateDelta};

verus! {

/// Sum of a sequence of integers.
pub open spec fn seq_sum(s: Seq<int>) -> int
    decreases s.len(),
{
    if s.len() == 0 {
        0
    } else {
        seq_sum(s.drop_last()) + s.last()
    }
}

proof fn lemma_sum_nonneg(s: Seq<int>)
    requires
        forall|i: int| 0 <= i < s.len() ==> s[i] >= 0,
    ensures
        seq_sum(s) >= 0,
    decreases s.len(),
{
    if s.len() > 0 {
        lemma_sum_nonneg(s.drop_last());
    }
}

proof fn lemma_prefix_sum_step(s: Seq<int>, k: int)
    requires
        0 <= k < s.len(),
    ensures
        seq_sum(s.take(k + 1)) == seq_sum(s.take(k)) + s[k],
{
    assert(s.take(k + 1).drop_last() =~= s.take(k));
}

/// Number of mutated bytes that a list of byte deltas carries.
pub open spec fn delta_bytes(ds: Seq<ByteDelta>) -> int {
    seq_sum(ds.map_values(|d: ByteDelta| d.mutated@.len() as int))
}

/// Number of mutated bytes across memory page mutations.
pub open spec fn memory_bytes(ps: Seq<PageMutation>) -> int {
    seq_sum(ps.map_values(|p: PageMutation| delta_bytes(p.deltas@)))
}

/// Number of mutated bytes a filesystem mutation accounts for: the size of a created inode,
/// the mutated bytes of a modified one, nothing for a deletion.
pub open spec fn fs_mutation_bytes(m: FsMutation) -> int {
    match m {
        FsMutation::Created { size, .. } => (size as usize) as int,
        FsMutation::Modified { deltas, .. } => delta_bytes(deltas@),
        FsMutation::Deleted { .. } => 0,
    }
}

/// Number of mutated bytes across filesystem mutations.
pub open spec fn fs_bytes(ms: Seq<FsMutation>) -> int {
    seq_sum(ms.map_values(|m: FsMutation| fs_mutation_bytes(m)))
}

/// Number of request body bytes across intercepted requests.
pub open spec fn network_bytes(rs: Seq<InterceptedRequest>) -> int {
    seq_sum(rs.map_values(|r: InterceptedRequest| r.request_body@.len() as int))
}

/// Aggregate count of mutated bytes across memory, filesystem and network.
pub open spec fn mutated_byte_total(mem: Seq<PageMutation>, fs: Seq<FsMutation>, net: Seq<InterceptedRequest>) -> int {
    memory_bytes(mem) + fs_bytes(fs) + network_bytes(net)
}

/// `acc` holds `sum` when `sum` fits in a `usize`, and is `None` once it does not.
pub open spec fn counts(sum: int, acc: Option<usize>) -> bool {
    match acc {
        Some(a) => a == sum,
        None => sum > usize::MAX,
    }
}

/// Adds `x` to a running count that gives up once it leaves `usize`.
fn add_count(acc: Option<usize>, x: usize, sum: Ghost<int>) -> (r: Option<usize>)
    requires
        counts(sum@, acc),
    ensures
        counts(sum@ + x, r),
{
    match acc {
        Some(a) => a.checked_add(x),
        None => None,
    }
}

/// Adds the mutated bytes of a list of deltas to a running count.
fn add_delta_bytes(acc: Option<usize>, ds: &Vec<ByteDelta>, sum: Ghost<int>) -> (r: Option<usize>)
    requires
        counts(sum@, acc),
    ensures
        counts(sum@ + delta_bytes(ds@), r),
{
    let ghost s = ds@.map_values(|d: ByteDelta| d.mutated@.len() as int);
    let mut total = acc;
    let mut j: usize = 0;
    while j < ds.len()
        invariant
            s == ds@.map_values(|d: ByteDelta| d.mutated@.len() as int),
            j <= ds@.len(),
            counts(sum@ + seq_sum(s.take(j as int)), total),
        decreases ds@.len() - j,
    {
        proof {
            lemma_prefix_sum_step(s, j as int);
        }
        total = add_count(total, ds[j].mutated.len(), Ghost(sum@ + seq_sum(s.take(j as int))));
        j = j + 1;
    }
    assert(s.take(ds@.len() as int) =~= s);
    total
}

/// Assembles the state delta of one execution from its memory, filesystem and network
/// mutations, counting the mutated bytes across all three; `None` when that count does not
/// fit in a `usize`.
pub fn assemble_state_delta(
    memory_mutations: Vec<PageMutation>,
    fs_mutations: Vec<FsMutation>,
    network_mutations: Vec<InterceptedRequest>,
    schema_breaches: usize,
    duration_nanos: u64,
) -> (r: Option<StateDelta>)
    ensures
        r is Some <==> mutated_byte_total(memory_mutations@, fs_mutations@, network_mutations@) <= usize::MAX,
        r matches Some(d) ==> {
            &&& d.memory_mutations == memory_mutations
            &&& d.fs_mutations == fs_mutations
            &&& d.network_mutations == network_mutations
            &&& d.schema_breaches == schema_breaches
            &&& d.duration_nanos == duration_nanos
            &&& d.total_bytes_mutated == mutated_byte_total(memory_mutations@, fs_mutations@, network_mutations@)
        },
{
    let ghost ms = memory_mutations@.map_values(|p: PageMutation| delta_bytes(p.deltas@));
    let ghost fss = fs_mutations@.map_values(|m: FsMutation| fs_mutation_bytes(m));
    let ghost ns = network_mutations@.map_values(|r: InterceptedRequest| r.request_body@.len() as int);
    proof {
        assert forall|i: int| 0 <= i < ms.len() implies ms[i] >= 0 by {
            let ds = memory_mutations@[i].deltas@;
            lemma_sum_nonneg(ds.map_values(|d: ByteDelta| d.mutated@.len() as int));
        }
        assert forall|i: int| 0 <= i < fss.len() implies fss[i] >= 0 by {
            match fs_mutations@[i] {
                FsMutation::Modified { deltas, .. } => {
                    lemma_sum_nonneg(deltas@.map_values(|d: ByteDelta| d.mutated@.len() as int));
                },
                _ => {},
            }
        }
        lemma_sum_nonneg(ms);
        lemma_sum_nonneg(fss);
        lemma_sum_nonneg(ns);
    }
    let mut total: Option<usize> = Some(0);
    assert(ms.take(0) =~= Seq::<int>::empty());
    let mut k: usize = 0;
    while k < memory_mutations.len()
        invariant
            ms == memory_mutations@.map_values(|p: PageMutation| delta_bytes(p.deltas@)),
            k <= memory_mutations@.len(),
            counts(seq_sum(ms.take(k as int)), total),
        decreases memory_mutations@.len() - k,
    {
        proof {
            lemma_prefix_sum_step(ms, k as int);
        }
        total = add_delta_bytes(total, &memory_mutations[k].deltas, Ghost(seq_sum(ms.take(k as int))));
        k = k + 1;
    }
    assert(ms.take(memory_mutations@.len() as int) =~= ms);
    assert(fss.take(0) =~= Seq::<int>::empty());
    let mut k: usize = 0;
    while k < fs_mutations.len()
        invariant
            fss == fs_mutations@.map_values(|m: FsMutation| fs_mutation_bytes(m)),
            k <= fs_mutations@.len(),
            counts(seq_sum(ms) + seq_sum(fss.take(k as int)), total),
        decreases fs_mutations@.len() - k,
    {
        proof {
            lemma_prefix_sum_step(fss, k as int);
        }
        let ghost sum = seq_sum(ms) + seq_sum(fss.take(k as int));
        match &fs_mutations[k] {
            FsMutation::Created { size, .. } => {
                total = add_count(total, *size as usize, Ghost(sum));
            },
            FsMutation::Modified { deltas, .. } => {
                total = add_delta_bytes(total, deltas, Ghost(sum));
            },
            FsMutation::Deleted { .. } => {},
        }
        k = k + 1;
    }
    assert(fss.take(fs_mutations@.len() as int) =~= fss);
    assert(ns.take(0) =~= Seq::<int>::empty());
    let mut k: usize = 0;
    while k < network_mutations.len()
        invariant
            ns == network_mutations@.map_values(|r: InterceptedRequest| r.request_body@.len() as int),
            k <= network_mutations@.len(),
            counts(seq_sum(ms) + seq_sum(fss) + seq_sum(ns.take(k as int)), total),
        decreases network_mutations@.len() - k,
    {
        proof {
            lemma_prefix_sum_step(ns, k as int);
        }
        total = add_count(
            total,
            network_mutations[k].request_body.len(),
            Ghost(seq_sum(ms) + seq_sum(fss) + seq_sum(ns.take(k as int))),
        );
        k = k + 1;
    }
    assert(ns.take(network_mutations@.len() as int) =~= ns);
    match total {
        Some(total_bytes_mutated) => Some(StateDelta {
            memory_mutations,
            fs_mutations,
            network_mutations,
            schema_breaches,
            total_bytes_mutated,
            duration_nanos,
        }),
        None => None,
    }
}

} // verus!
