//! The firmware's own heap.
//!
//! The region is a reserved RAM window the memory map keeps to the firmware, so
//! the allocator never competes with the pages it hands out.
use vstd::prelude::*;

verus! {

/// What the heap says of itself: how large it is, and how much of it is in use.
#[derive(Clone, Copy, PartialEq, Eq, Structural, Debug)]
pub struct FirmwareHeap {
    pub size: usize,
    pub used: usize,
}

/// How much of the heap is still unallocated, for the boot log.
pub fn free_bytes(heap: &FirmwareHeap) -> (free: usize)
    requires
        heap.used <= heap.size,
    ensures
        free == heap.size - heap.used,
{
    heap.size - heap.used
}

} // verus!
