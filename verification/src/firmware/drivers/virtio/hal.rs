//! The virtio HAL: DMA memory and the address translation a driver asks its
//! platform for.
//!
//! The firmware's identity map makes this the simplest possible HAL: a physical
//! address *is* the pointer the driver uses, and a DMA buffer is just pages.
use crate::firmware::uefi::mem::{Allocation, Memory};
use crate::seqs::first;
use crate::status::Status;
use vstd::prelude::*;

verus! {

/// `EfiLoaderData`.
pub const LOADER_DATA: u32 = 2;

/// The platform's virtio HAL.
pub struct PlatformHal {}

impl PlatformHal {
    /// Pages for a DMA buffer; `None` when there are none.
    pub fn dma_alloc(memory: &mut Memory, pages: u64) -> (address: Option<u64>)
        requires
            old(memory).wf(),
            pages <= 0xf_ffff_ffff_ffff,
        ensures
            final(memory).wf(),
            match address {
                Some(a) => pages > 0 && old(memory).granted(
                    final(memory),
                    Allocation { start: a, pages, memory_type: LOADER_DATA },
                ),
                None => *final(memory) == *old(memory) && (pages == 0 || old(memory).lacks(
                    pages * 4096,
                )),
            },
    {
        assert((pages * 4096 + 4095) / 4096 == pages);
        memory.pages_for(LOADER_DATA, pages * 4096)
    }

    /// Frees a DMA buffer: zero, or one when that fails.
    pub fn dma_dealloc(memory: &mut Memory, address: u64) -> (failed: i32)
        requires
            old(memory).wf(),
        ensures
            final(memory).wf(),
            ({
                let k = first(old(memory).allocations@, |a: Allocation| a.start == address);
                if k < old(memory).allocations@.len() {
                    failed == 0 && old(memory).removed(final(memory), k)
                } else {
                    failed == 1 && *final(memory) == *old(memory)
                }
            }),
    {
        if memory.free_pages(address) == Status::Success {
            0
        } else {
            1
        }
    }

    /// The address a device uses for a buffer: no IOMMU and no bounce buffer, so
    /// the address is the pointer.
    pub fn share(address: u64) -> (shared: u64)
        ensures
            shared == address,
    {
        address
    }
}

} // verus!
