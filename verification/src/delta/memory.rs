//! Page geometry of the Copy-on-Write anonymous memory regions the delta engine tracks.
use vstd::prelude::*;
use crate::error::DeltaError;

verus! {

/// Size in bytes of one tracked virtual memory page.
pub const PAGE_SIZE: usize = 4096;

/// The smallest multiple of [`PAGE_SIZE`] that is at least `len`.
pub open spec fn page_aligned(len: int) -> int {
    ((len + PAGE_SIZE - 1) / PAGE_SIZE as int) * PAGE_SIZE
}

/// Length of the anonymous mapping that backs a requested region of `len` bytes.
///
/// A zero length is refused, as is a length that no page-aligned `usize` can hold
/// (no mapping of that size can exist); otherwise the length is rounded up to whole pages.
pub fn aligned_region_len(len: usize) -> (r: Result<usize, DeltaError>)
    ensures
        len == 0 ==> r matches Err(DeltaError::MmapFailure(_)),
        len > 0 && page_aligned(len as int) > usize::MAX ==> r matches Err(DeltaError::MmapFailure(_)),
        len > 0 && page_aligned(len as int) <= usize::MAX ==> (r matches Ok(v) && v == page_aligned(len as int)),
{
    if len == 0 {
        return Err(DeltaError::MmapFailure(String::from_str("Allocation length must be greater than zero")));
    }
    if len > usize::MAX - (PAGE_SIZE - 1) {
        proof {
            assert(page_aligned(len as int) >= len) by (nonlinear_arith)
                requires len > 0;
            assert(page_aligned(len as int) > usize::MAX) by (nonlinear_arith)
                requires len > usize::MAX - 4095, page_aligned(len as int) == ((len + 4095) / 4096) * 4096;
        }
        return Err(DeltaError::MmapFailure(String::from_str("Allocation length exceeds the addressable range")));
    }
    let pages = (len + (PAGE_SIZE - 1)) / PAGE_SIZE;
    assert(pages * 4096 <= usize::MAX) by (nonlinear_arith)
        requires pages == (len + 4095) / 4096, len <= usize::MAX - 4095;
    Ok(pages * PAGE_SIZE)
}

/// Number of pages that cover a region of `len` bytes.
pub fn page_count(len: usize) -> (r: usize)
    ensures
        r == (len + PAGE_SIZE - 1) / PAGE_SIZE as int,
{
    len / PAGE_SIZE + if len % PAGE_SIZE == 0 { 0 } else { 1 }
}

} // verus!
