//! Soft-dirty pagemap descriptors and byte-precise page diffing.
use vstd::prelude::*;
use crate::delta::memory::PAGE_SIZE;
use crate::delta::types::{ByteDelta, ByteDeltaView, PageMutation, byte_deltas_view};

verus! {

/// First position, relative to the compared slices, that a delta covers.
pub open spec fn run_start(d: ByteDeltaView, base: int) -> int {
    d.offset - base
}

/// Position just past the last one that a delta covers, relative to the compared slices.
pub open spec fn run_end(d: ByteDeltaView, base: int) -> int {
    d.offset - base + d.mutated.len()
}

/// `[start, end)` is a maximal non-empty run of positions below `n` at which the
/// baseline and mutated bytes differ.
pub open spec fn is_maximal_diff_run(b: Seq<u8>, m: Seq<u8>, n: int, start: int, end: int) -> bool {
    &&& 0 <= start < end <= n
    &&& forall|i: int| start <= i < end ==> b[i] != m[i]
    &&& (start == 0 || b[start - 1] == m[start - 1])
    &&& (end == n || b[end] == m[end])
}

/// `ds` lists, in ascending order, exactly the maximal runs of differing bytes between
/// `b` and the first `b.len()` bytes of `m`, each with offset `base + start` and the
/// baseline and mutated bytes of the run.
pub open spec fn describes_diff_runs(base: int, b: Seq<u8>, m: Seq<u8>, ds: Seq<ByteDeltaView>) -> bool {
    let n = b.len() as int;
    &&& forall|k: int|
        #![trigger ds[k]]
        0 <= k < ds.len() ==> {
            &&& is_maximal_diff_run(b, m, n, run_start(ds[k], base), run_end(ds[k], base))
            &&& ds[k].original == b.subrange(run_start(ds[k], base), run_end(ds[k], base))
            &&& ds[k].mutated == m.subrange(run_start(ds[k], base), run_end(ds[k], base))
        }
    &&& forall|k: int|
        #![trigger ds[k], ds[k + 1]]
        0 <= k < ds.len() - 1 ==> run_end(ds[k], base) < run_start(ds[k + 1], base)
    &&& forall|i: int|
        #![trigger b[i]]
        0 <= i < n && b[i] != m[i] ==> exists|k: int|
            0 <= k < ds.len() && run_start(ds[k], base) <= i < run_end(#[trigger] ds[k], base)
}

/// Replaces the bytes that a delta covers with its mutated bytes.
pub open spec fn splice_delta(s: Seq<u8>, d: ByteDeltaView, base: int) -> Seq<u8> {
    s.take(run_start(d, base)) + d.mutated + s.skip(run_end(d, base))
}

/// The baseline with every delta of `ds` applied, in order.
pub open spec fn apply_deltas(b: Seq<u8>, ds: Seq<ByteDeltaView>, base: int) -> Seq<u8>
    decreases ds.len(),
{
    if ds.len() == 0 {
        b
    } else {
        splice_delta(apply_deltas(b, ds.drop_last(), base), ds.last(), base)
    }
}

proof fn lemma_apply_prefix(b: Seq<u8>, m: Seq<u8>, ds: Seq<ByteDeltaView>, base: int, k: int)
    requires
        describes_diff_runs(base, b, m, ds),
        b.len() <= m.len(),
        0 <= k <= ds.len(),
    ensures
        apply_deltas(b, ds.take(k), base).len() == b.len(),
        forall|i: int|
            #![trigger apply_deltas(b, ds.take(k), base)[i]]
            0 <= i < b.len() ==> apply_deltas(b, ds.take(k), base)[i] == if exists|j: int|
                0 <= j < k && run_start(ds[j], base) <= i < run_end(#[trigger] ds[j], base) {
                m[i]
            } else {
                b[i]
            },
    decreases k,
{
    let n = b.len() as int;
    if k == 0 {
        assert(ds.take(0) =~= Seq::<ByteDeltaView>::empty());
    } else {
        lemma_apply_prefix(b, m, ds, base, k - 1);
        let prev = apply_deltas(b, ds.take(k - 1), base);
        assert(ds.take(k).drop_last() =~= ds.take(k - 1));
        assert(ds.take(k).last() == ds[k - 1]);
        let d = ds[k - 1];
        let s0 = run_start(d, base);
        let e0 = run_end(d, base);
        assert(is_maximal_diff_run(b, m, n, s0, e0));
        let cur = apply_deltas(b, ds.take(k), base);
        assert(cur == splice_delta(prev, d, base));
        assert forall|i: int| 0 <= i < n implies #[trigger] cur[i] == if exists|j: int|
            0 <= j < k && run_start(ds[j], base) <= i < run_end(#[trigger] ds[j], base) {
            m[i]
        } else {
            b[i]
        } by {
            if s0 <= i < e0 {
                assert(cur[i] == d.mutated[i - s0]);
                assert(d.mutated == m.subrange(s0, e0));
                assert(run_start(ds[k - 1], base) <= i < run_end(ds[k - 1], base));
            } else {
                if i < s0 {
                    assert(cur[i] == prev[i]);
                } else {
                    assert(cur[i] == prev[i]);
                }
                assert(prev[i] == if exists|j: int|
                    0 <= j < k - 1 && run_start(ds[j], base) <= i < run_end(#[trigger] ds[j], base) {
                    m[i]
                } else {
                    b[i]
                });
                if exists|j: int| 0 <= j < k && run_start(ds[j], base) <= i < run_end(#[trigger] ds[j], base) {
                    let j = choose|j: int| 0 <= j < k && run_start(ds[j], base) <= i < run_end(#[trigger] ds[j], base);
                    assert(j != k - 1);
                }
            }
        }
    }
}

/// Applying the deltas that [`compute_slice_deltas`] reports to the baseline reproduces the
/// mutated bytes, and identical slices yield no delta at all.
pub proof fn lemma_slice_deltas_reconstruct_mutation(base: int, b: Seq<u8>, m: Seq<u8>, ds: Seq<ByteDeltaView>)
    requires
        b.len() <= m.len(),
        describes_diff_runs(base, b, m, ds),
    ensures
        apply_deltas(b, ds, base) == m.take(b.len() as int),
        b == m.take(b.len() as int) ==> ds.len() == 0,
{
    let n = b.len() as int;
    lemma_apply_prefix(b, m, ds, base, ds.len() as int);
    assert(ds.take(ds.len() as int) =~= ds);
    let r = apply_deltas(b, ds, base);
    assert forall|i: int| 0 <= i < n implies #[trigger] r[i] == m.take(n)[i] by {
        assert(r == apply_deltas(b, ds.take(ds.len() as int), base));
        if b[i] != m[i] {
            let k = choose|k: int| 0 <= k < ds.len() && run_start(ds[k], base) <= i < run_end(#[trigger] ds[k], base);
            assert(exists|j: int| 0 <= j < ds.len() && run_start(ds[j], base) <= i < run_end(#[trigger] ds[j], base));
        }
    }
    assert(r =~= m.take(n));
    if b == m.take(n) && ds.len() > 0 {
        let d = ds[0];
        assert(is_maximal_diff_run(b, m, n, run_start(d, base), run_end(d, base)));
        let i = run_start(d, base);
        assert(b[i] != m[i]);
        assert(m.take(n)[i] == m[i]);
    }
}

/// Copies `s[from..to]` into a fresh vector.
pub(crate) fn copy_range(s: &[u8], from: usize, to: usize) -> (r: Vec<u8>)
    requires
        from <= to <= s@.len(),
    ensures
        r@ == s@.subrange(from as int, to as int),
{
    let mut r: Vec<u8> = Vec::new();
    let mut i: usize = from;
    while i < to
        invariant
            from <= i <= to <= s@.len(),
            r@ == s@.subrange(from as int, i as int),
        decreases to - i,
    {
        r.push(s[i]);
        i = i + 1;
    }
    r
}

/// Compute contiguous byte differences between a baseline slice and the mutated buffer.
///
/// Each returned delta is a maximal run of differing bytes; offsets are relative to the
/// mapped region, i.e. `page_region_offset` plus the position inside the slice.
pub fn compute_slice_deltas(page_region_offset: usize, baseline: &[u8], mutated: &[u8]) -> (r: Vec<ByteDelta>)
    requires
        baseline@.len() <= mutated@.len(),
        page_region_offset + baseline@.len() <= usize::MAX,
    ensures
        describes_diff_runs(page_region_offset as int, baseline@, mutated@, byte_deltas_view(r@)),
{
    let n = baseline.len();
    let ghost base = page_region_offset as int;
    let ghost b = baseline@;
    let ghost m = mutated@;
    let mut deltas: Vec<ByteDelta> = Vec::new();
    let mut in_diff = false;
    let mut diff_start: usize = 0;
    let mut i: usize = 0;
    while i < n
        invariant
            n == b.len(),
            b == baseline@,
            m == mutated@,
            n <= m.len(),
            base == page_region_offset as int,
            page_region_offset + n <= usize::MAX,
            i <= n,
            in_diff ==> diff_start < i,
            in_diff ==> forall|j: int| diff_start <= j < i ==> b[j] != m[j],
            in_diff ==> (diff_start == 0 || b[diff_start - 1] == m[diff_start - 1]),
            !in_diff ==> (i == 0 || b[i - 1] == m[i - 1]),
            forall|k: int|
                #![trigger deltas@[k]]
                0 <= k < deltas@.len() ==> {
                    &&& is_maximal_diff_run(b, m, n as int, run_start(deltas@[k]@, base), run_end(deltas@[k]@, base))
                    &&& run_end(deltas@[k]@, base) < i
                    &&& deltas@[k]@.original == b.subrange(run_start(deltas@[k]@, base), run_end(deltas@[k]@, base))
                    &&& deltas@[k]@.mutated == m.subrange(run_start(deltas@[k]@, base), run_end(deltas@[k]@, base))
                },
            forall|k: int|
                #![trigger deltas@[k], deltas@[k + 1]]
                0 <= k < deltas@.len() - 1 ==> run_end(deltas@[k]@, base) < run_start(deltas@[k + 1]@, base),
            in_diff && deltas@.len() > 0 ==> run_end(deltas@.last()@, base) < diff_start,
            forall|j: int|
                #![trigger b[j]]
                0 <= j < i && b[j] != m[j] ==> (in_diff && diff_start <= j) || exists|k: int|
                    0 <= k < deltas@.len() && run_start(deltas@[k]@, base) <= j < run_end(#[trigger] deltas@[k]@, base),
        decreases n - i,
    {
        if baseline[i] != mutated[i] {
            if !in_diff {
                in_diff = true;
                diff_start = i;
            }
        } else if in_diff {
            in_diff = false;
            let d = ByteDelta {
                offset: page_region_offset + diff_start,
                original: copy_range(baseline, diff_start, i),
                mutated: copy_range(mutated, diff_start, i),
            };
            let ghost old_deltas = deltas@;
            deltas.push(d);
            assert forall|j: int| 0 <= j <= i && #[trigger] b[j] != m[j] implies exists|k: int|
                0 <= k < deltas@.len() && run_start(deltas@[k]@, base) <= j < run_end(#[trigger] deltas@[k]@, base) by {
                if diff_start <= j {
                    assert(run_start(deltas@[old_deltas.len() as int]@, base) <= j);
                } else {
                    let k = choose|k: int| 0 <= k < old_deltas.len() && run_start(old_deltas[k]@, base) <= j < run_end(#[trigger] old_deltas[k]@, base);
                    assert(deltas@[k] == old_deltas[k]);
                }
            }
        }
        i = i + 1;
    }
    if in_diff {
        let d = ByteDelta {
            offset: page_region_offset + diff_start,
            original: copy_range(baseline, diff_start, n),
            mutated: copy_range(mutated, diff_start, n),
        };
        let ghost old_deltas = deltas@;
        deltas.push(d);
        assert forall|j: int| 0 <= j < n && #[trigger] b[j] != m[j] implies exists|k: int|
            0 <= k < deltas@.len() && run_start(deltas@[k]@, base) <= j < run_end(#[trigger] deltas@[k]@, base) by {
            if diff_start <= j {
                assert(run_start(deltas@[old_deltas.len() as int]@, base) <= j);
            } else {
                let k = choose|k: int| 0 <= k < old_deltas.len() && run_start(old_deltas[k]@, base) <= j < run_end(#[trigger] old_deltas[k]@, base);
                assert(deltas@[k] == old_deltas[k]);
            }
        }
    }
    proof {
        let dv = byte_deltas_view(deltas@);
        assert forall|k: int| 0 <= k < dv.len() implies #[trigger] dv[k] == deltas@[k]@ by {}
        assert forall|k: int| 0 <= k < dv.len() implies {
            &&& is_maximal_diff_run(b, m, n as int, run_start(#[trigger] dv[k], base), run_end(dv[k], base))
            &&& dv[k].original == b.subrange(run_start(dv[k], base), run_end(dv[k], base))
            &&& dv[k].mutated == m.subrange(run_start(dv[k], base), run_end(dv[k], base))
        } by {
            assert(dv[k] == deltas@[k]@);
        }
        assert forall|k: int| 0 <= k < dv.len() - 1 implies run_end(#[trigger] dv[k], base) < run_start(dv[k + 1], base) by {
            assert(dv[k] == deltas@[k]@);
            assert(dv[k + 1] == deltas@[k + 1]@);
        }
        assert forall|j: int| 0 <= j < n && #[trigger] b[j] != m[j] implies exists|k: int|
            0 <= k < dv.len() && run_start(dv[k], base) <= j < run_end(#[trigger] dv[k], base) by {
            let k = choose|k: int| 0 <= k < deltas@.len() && run_start(deltas@[k]@, base) <= j < run_end(#[trigger] deltas@[k]@, base);
            assert(dv[k] == deltas@[k]@);
        }
    }
    deltas
}


/// Size in bytes of one `/proc/[pid]/pagemap` descriptor.
pub const PAGEMAP_ENTRY_SIZE: usize = 8;

/// Bit 63 of a pagemap descriptor: the page is present.
pub const PAGE_PRESENT_BIT: u64 = 0x8000_0000_0000_0000;

/// Bit 55 of a pagemap descriptor: the page was written since the soft-dirty bits were cleared.
pub const PAGE_SOFT_DIRTY_BIT: u64 = 0x0080_0000_0000_0000;

/// Bit 56 of a pagemap descriptor: the page is mapped exclusively.
pub const PAGE_EXCLUSIVE_BIT: u64 = 0x0100_0000_0000_0000;

/// The little-endian 64-bit descriptor of page `p` in the raw pagemap bytes `d`.
pub open spec fn pagemap_entry(d: Seq<u8>, p: int) -> u64 {
    let o = p * 8;
    (d[o] as u64) | ((d[o + 1] as u64) << 8u64) | ((d[o + 2] as u64) << 16u64) | ((d[o + 3] as u64)
        << 24u64) | ((d[o + 4] as u64) << 32u64) | ((d[o + 5] as u64) << 40u64) | ((d[o + 6] as u64)
        << 48u64) | ((d[o + 7] as u64) << 56u64)
}

/// Whether any of the first `num_pages` descriptors carries the soft-dirty bit, i.e. whether
/// the kernel exposes soft-dirty tracking at all.
pub open spec fn soft_dirty_available(d: Seq<u8>, num_pages: int) -> bool {
    exists|p: int| 0 <= p < num_pages && #[trigger] pagemap_entry(d, p) & PAGE_SOFT_DIRTY_BIT != 0
}

/// Page `p` is present and was written: it carries the soft-dirty bit, or, on kernels that
/// expose no soft-dirty bit at all, the exclusive bit.
pub open spec fn is_dirty_candidate(d: Seq<u8>, num_pages: int, p: int) -> bool {
    let e = pagemap_entry(d, p);
    &&& e & PAGE_PRESENT_BIT != 0
    &&& (e & PAGE_SOFT_DIRTY_BIT != 0 || (!soft_dirty_available(d, num_pages) && e & PAGE_EXCLUSIVE_BIT != 0))
}

/// The dirty candidates among pages `0..k`, in ascending order.
pub open spec fn dirty_candidates_below(d: Seq<u8>, num_pages: int, k: int) -> Seq<usize>
    decreases k,
{
    if k <= 0 {
        Seq::empty()
    } else if is_dirty_candidate(d, num_pages, k - 1) {
        dirty_candidates_below(d, num_pages, k - 1).push((k - 1) as usize)
    } else {
        dirty_candidates_below(d, num_pages, k - 1)
    }
}

/// Decodes the descriptor of page `p`.
fn read_entry(d: &[u8], p: usize) -> (e: u64)
    requires
        (p + 1) * 8 <= d@.len(),
    ensures
        e == pagemap_entry(d@, p as int),
{
    let dl = d.len();
    assert(p * 8 + 8 == (p + 1) * 8) by (nonlinear_arith);
    let o = p * 8;
    (d[o] as u64) | ((d[o + 1] as u64) << 8u64) | ((d[o + 2] as u64) << 16u64) | ((d[o + 3] as u64)
        << 24u64) | ((d[o + 4] as u64) << 32u64) | ((d[o + 5] as u64) << 40u64) | ((d[o + 6] as u64)
        << 48u64) | ((d[o + 7] as u64) << 56u64)
}

/// Pages of a tracked region whose contents must be compared against the baseline: those
/// present and written since the baseline, read from the region's raw pagemap descriptors.
/// Clean pages are never listed.
pub fn dirty_page_candidates(descriptors: &[u8], num_pages: usize) -> (r: Vec<usize>)
    requires
        descriptors@.len() == num_pages * PAGEMAP_ENTRY_SIZE,
    ensures
        r@ == dirty_candidates_below(descriptors@, num_pages as int, num_pages as int),
{
    let ghost d = descriptors@;
    let mut available = false;
    let mut p: usize = 0;
    while p < num_pages
        invariant
            d == descriptors@,
            d.len() == num_pages * 8,
            p <= num_pages,
            available <==> exists|q: int| 0 <= q < p && #[trigger] pagemap_entry(d, q) & PAGE_SOFT_DIRTY_BIT != 0,
        decreases num_pages - p,
    {
        assert((p + 1) * 8 <= num_pages * 8) by (nonlinear_arith)
            requires p < num_pages;
        let e = read_entry(descriptors, p);
        if e & PAGE_SOFT_DIRTY_BIT != 0 {
            available = true;
        }
        p = p + 1;
    }
    let mut r: Vec<usize> = Vec::new();
    let mut p: usize = 0;
    while p < num_pages
        invariant
            d == descriptors@,
            d.len() == num_pages * 8,
            p <= num_pages,
            available == soft_dirty_available(d, num_pages as int),
            r@ == dirty_candidates_below(d, num_pages as int, p as int),
        decreases num_pages - p,
    {
        assert((p + 1) * 8 <= num_pages * 8) by (nonlinear_arith)
            requires p < num_pages;
        let e = read_entry(descriptors, p);
        let present = e & PAGE_PRESENT_BIT != 0;
        let soft_dirty = e & PAGE_SOFT_DIRTY_BIT != 0;
        let exclusive = e & PAGE_EXCLUSIVE_BIT != 0;
        if present && (soft_dirty || (!available && exclusive)) {
            r.push(p);
        }
        p = p + 1;
    }
    r
}

/// Offset of page `page_idx` from the start of the tracked region.
pub open spec fn page_region_offset(page_idx: int) -> int {
    page_idx * PAGE_SIZE
}

/// Number of bytes of page `page_idx` that lie inside a region of `region_len` bytes.
pub open spec fn page_span(region_len: int, page_idx: int) -> int {
    let rest = region_len - page_region_offset(page_idx);
    if rest <= 0 {
        0
    } else if rest < PAGE_SIZE {
        rest
    } else {
        PAGE_SIZE as int
    }
}

/// The baseline bytes of page `page_idx` of a region of `region_len` bytes.
pub open spec fn baseline_page(page_idx: int, region_len: int, b: Seq<u8>) -> Seq<u8> {
    b.subrange(page_region_offset(page_idx), page_region_offset(page_idx) + page_span(region_len, page_idx))
}

/// The child's view of page `page_idx` equals the baseline.
pub open spec fn page_unchanged(page_idx: int, region_len: int, b: Seq<u8>, child: Seq<u8>) -> bool {
    baseline_page(page_idx, region_len, b) == child
}

/// Where the isolated process holds page `page_idx` of a region mapped at `base_addr`, and
/// how many of its bytes lie inside the region: the address and length to read it from.
pub fn page_location(base_addr: usize, region_len: usize, page_idx: usize) -> (r: (usize, usize))
    requires
        base_addr + page_region_offset(page_idx as int) <= usize::MAX,
    ensures
        r.0 == base_addr + page_region_offset(page_idx as int),
        r.1 == page_span(region_len as int, page_idx as int),
{
    let region_offset = page_idx * PAGE_SIZE;
    let page_len = if region_len <= region_offset {
        0
    } else if region_len - region_offset < PAGE_SIZE {
        region_len - region_offset
    } else {
        PAGE_SIZE
    };
    (base_addr + region_offset, page_len)
}

/// `pm` records page `page_idx` at its address with the maximal runs of bytes in which the
/// child's view of the page differs from the baseline, offsets relative to the region start.
pub open spec fn is_page_mutation_for(page_idx: int, base_addr: int, region_len: int, b: Seq<u8>, child: Seq<u8>, pm: PageMutation) -> bool {
    &&& pm.page_index == page_idx
    &&& pm.page_address == base_addr + page_region_offset(page_idx)
    &&& pm.deltas@.len() > 0
    &&& describes_diff_runs(page_region_offset(page_idx), baseline_page(page_idx, region_len, b), child, byte_deltas_view(pm.deltas@))
}

/// The memory mutation recorded for a dirty page, given the page's bytes as the isolated
/// process sees them: `None` when the page equals the baseline, otherwise the page's maximal
/// runs of differing bytes, with offsets relative to the start of the region.
pub fn page_mutation(
    page_idx: usize,
    base_addr: usize,
    region_len: usize,
    parent_baseline: &[u8],
    child_page: &[u8],
) -> (r: Option<PageMutation>)
    requires
        page_region_offset(page_idx as int) <= usize::MAX,
        base_addr + page_region_offset(page_idx as int) <= usize::MAX,
        page_region_offset(page_idx as int) + page_span(region_len as int, page_idx as int)
            <= parent_baseline@.len(),
        child_page@.len() == page_span(region_len as int, page_idx as int),
    ensures
        r matches Some(pm) ==> is_page_mutation_for(page_idx as int, base_addr as int, region_len as int, parent_baseline@, child_page@, pm),
        r is None <==> page_unchanged(page_idx as int, region_len as int, parent_baseline@, child_page@),
{
    let region_offset = page_idx * PAGE_SIZE;
    let page_len = if region_len <= region_offset {
        0
    } else if region_len - region_offset < PAGE_SIZE {
        region_len - region_offset
    } else {
        PAGE_SIZE
    };
    let page_addr = base_addr + region_offset;
    let parent_page = &parent_baseline[region_offset..region_offset + page_len];
    let deltas = compute_slice_deltas(region_offset, parent_page, child_page);
    if deltas.len() == 0 {
        proof {
            let b = parent_page@;
            assert forall|i: int| 0 <= i < b.len() implies #[trigger] b[i] == child_page@[i] by {
                if b[i] != child_page@[i] {
                    assert(exists|k: int| 0 <= k < byte_deltas_view(deltas@).len() && run_start(byte_deltas_view(deltas@)[k], region_offset as int) <= i < run_end(#[trigger] byte_deltas_view(deltas@)[k], region_offset as int));
                }
            }
            assert(b =~= child_page@);
        }
        None
    } else {
        proof {
            let b = parent_page@;
            let dv = byte_deltas_view(deltas@);
            if b == child_page@ {
                let d = dv[0];
                let i = run_start(d, region_offset as int);
                assert(is_maximal_diff_run(b, child_page@, b.len() as int, i, run_end(d, region_offset as int)));
                assert(b[i] != child_page@[i]);
            }
        }
        Some(PageMutation { page_index: page_idx, page_address: page_addr, deltas })
    }
}

/// How many of the first `k` candidate pages differ from the baseline.
pub open spec fn changed_pages_below(
    candidates: Seq<usize>,
    region_len: int,
    b: Seq<u8>,
    child_pages: Seq<Vec<u8>>,
    k: int,
) -> int
    decreases k,
{
    if k <= 0 {
        0
    } else if page_unchanged(candidates[k - 1] as int, region_len, b, child_pages[k - 1]@) {
        changed_pages_below(candidates, region_len, b, child_pages, k - 1)
    } else {
        changed_pages_below(candidates, region_len, b, child_pages, k - 1) + 1
    }
}

proof fn lemma_changed_pages_grow(
    candidates: Seq<usize>,
    region_len: int,
    b: Seq<u8>,
    child_pages: Seq<Vec<u8>>,
    j: int,
    k: int,
)
    requires
        0 <= j < k,
    ensures
        0 <= changed_pages_below(candidates, region_len, b, child_pages, j),
        changed_pages_below(candidates, region_len, b, child_pages, j) <= changed_pages_below(candidates, region_len, b, child_pages, k),
        !page_unchanged(candidates[j] as int, region_len, b, child_pages[j]@) ==> changed_pages_below(candidates, region_len, b, child_pages, j)
            < changed_pages_below(candidates, region_len, b, child_pages, k),
    decreases k - j, j,
{
    if j + 1 < k {
        lemma_changed_pages_grow(candidates, region_len, b, child_pages, j, k - 1);
    } else if j > 0 {
        lemma_changed_pages_grow(candidates, region_len, b, child_pages, j - 1, j);
    }
}

/// Memory mutations of a tracked region, given its dirty candidate pages and, for each of
/// them, the page's bytes as the isolated process sees them: one mutation per candidate that
/// differs from the baseline, in candidate order.
pub fn collect_page_mutations(
    base_addr: usize,
    region_len: usize,
    parent_baseline: &[u8],
    candidates: &Vec<usize>,
    child_pages: &Vec<Vec<u8>>,
) -> (r: Vec<PageMutation>)
    requires
        region_len <= parent_baseline@.len(),
        base_addr + region_len <= usize::MAX,
        child_pages@.len() == candidates@.len(),
        forall|k: int|
            #![trigger candidates@[k]]
            0 <= k < candidates@.len() ==> page_region_offset(candidates@[k] as int) < region_len
                && child_pages@[k]@.len() == page_span(region_len as int, candidates@[k] as int),
    ensures
        r@.len() == changed_pages_below(candidates@, region_len as int, parent_baseline@, child_pages@, candidates@.len() as int),
        forall|k: int|
            #![trigger candidates@[k]]
            0 <= k < candidates@.len() && !page_unchanged(candidates@[k] as int, region_len as int, parent_baseline@, child_pages@[k]@)
                ==> is_page_mutation_for(candidates@[k] as int, base_addr as int, region_len as int, parent_baseline@,
                    child_pages@[k]@, r@[changed_pages_below(candidates@, region_len as int, parent_baseline@, child_pages@, k)]),
{
    let ghost b = parent_baseline@;
    let mut r: Vec<PageMutation> = Vec::new();
    let mut k: usize = 0;
    while k < candidates.len()
        invariant
            b == parent_baseline@,
            region_len <= b.len(),
            base_addr + region_len <= usize::MAX,
            child_pages@.len() == candidates@.len(),
            forall|j: int|
                #![trigger candidates@[j]]
                0 <= j < candidates@.len() ==> page_region_offset(candidates@[j] as int) < region_len
                    && child_pages@[j]@.len() == page_span(region_len as int, candidates@[j] as int),
            k <= candidates@.len(),
            r@.len() == changed_pages_below(candidates@, region_len as int, b, child_pages@, k as int),
            forall|j: int|
                #![trigger candidates@[j]]
                0 <= j < k && !page_unchanged(candidates@[j] as int, region_len as int, b, child_pages@[j]@)
                    ==> is_page_mutation_for(candidates@[j] as int, base_addr as int, region_len as int, b,
                        child_pages@[j]@, r@[changed_pages_below(candidates@, region_len as int, b, child_pages@, j)]),
        decreases candidates@.len() - k,
    {
        let c = candidates[k];
        assert(page_region_offset(c as int) < region_len);
        assert(page_span(region_len as int, c as int) <= region_len - page_region_offset(c as int));
        let ghost old_r = r@;
        match page_mutation(c, base_addr, region_len, parent_baseline, &child_pages[k]) {
            Some(pm) => {
                r.push(pm);
                assert(forall|i: int| 0 <= i < old_r.len() ==> r@[i] == old_r[i]);
            },
            None => {},
        }
        proof {
            assert forall|j: int|
                #![trigger candidates@[j]]
                0 <= j < k + 1 && !page_unchanged(candidates@[j] as int, region_len as int, b, child_pages@[j]@)
                    implies is_page_mutation_for(candidates@[j] as int, base_addr as int, region_len as int, b,
                        child_pages@[j]@, r@[changed_pages_below(candidates@, region_len as int, b, child_pages@, j)]) by {
                let idx = changed_pages_below(candidates@, region_len as int, b, child_pages@, j);
                if j < k {
                    lemma_changed_pages_grow(candidates@, region_len as int, b, child_pages@, j, k as int);
                    assert(r@[idx] == old_r[idx]);
                } else {
                    assert(idx == old_r.len());
                }
            }
        }
        k = k + 1;
    }
    r
}

} // verus!
