//! Sizes that the rest of the crate is built on.
use vstd::prelude::*;

verus! {

/// Bytes in one page, the unit in which memory is mapped.
pub const PAGE_SIZE: usize = 4096;

/// Number of system call identifiers that a task keeps a counter for.
pub const MAX_SYSCALL_NUM: usize = 500;

/// Whether `addr` is the first byte of a page.
pub fn is_page_aligned(addr: usize) -> (aligned: bool)
    ensures
        aligned == (addr % PAGE_SIZE == 0),
{
    assert(addr & 0xfff == addr % 4096) by (bit_vector);
    addr & 0xfff == 0
}

} // verus!
