//! virtio-blk over PCI: what a request to the disk is checked against, and what the
//! driver asks the platform for.
//!
//! DMA buffers are UEFI pages. Memory is identity-mapped, so a physical address is
//! the pointer the driver uses.
use crate::block::BlockError;
use crate::status::Status;
use vstd::prelude::*;

verus! {

/// The sector size virtio-blk addresses in.
pub const SECTOR: u32 = 512;

/// A virtio block device, as far as it describes itself.
#[derive(Clone, Copy, PartialEq, Eq, Structural, Debug)]
pub struct VirtioBlk {
    pub block_count: u64,
    pub readonly: bool,
}

/// What keeps a request from the device: bytes that are no whole sectors, or blocks
/// past the last one.
pub open spec fn misplaced(disk: VirtioBlk, lba: u64, bytes: nat) -> Option<BlockError> {
    if bytes % 512 != 0 {
        Some(BlockError::Io)
    } else if lba + bytes / 512 > disk.block_count {
        Some(BlockError::OutOfRange)
    } else {
        None
    }
}

impl VirtioBlk {
    /// Checks a read.
    pub fn check_read(&self, lba: u64, bytes: usize) -> (error: Option<BlockError>)
        ensures
            error == misplaced(*self, lba, bytes as nat),
    {
        if bytes % 512 != 0 {
            return Some(BlockError::Io);
        }
        if lba as u128 + bytes as u128 / 512 > self.block_count as u128 {
            return Some(BlockError::OutOfRange);
        }
        None
    }

    /// Checks a write: that the device takes none comes before anything else.
    pub fn check_write(&self, lba: u64, bytes: usize) -> (error: Option<BlockError>)
        ensures
            error == (if self.readonly {
                Some(BlockError::WriteProtected)
            } else {
                misplaced(*self, lba, bytes as nat)
            }),
    {
        if self.readonly {
            return Some(BlockError::WriteProtected);
        }
        self.check_read(lba, bytes)
    }

    /// The sector size.
    pub fn block_size(&self) -> (size: u32)
        ensures
            size == SECTOR,
    {
        SECTOR
    }

    /// Whether the device accepts writes.
    pub fn is_writable(&self) -> (writable: bool)
        ensures
            writable == !self.readonly,
    {
        !self.readonly
    }
}

/// The platform's virtio HAL.
pub struct PlatformHal {}

impl PlatformHal {
    /// What freeing a DMA buffer comes to: zero, or one when that fails. `freed` is
    /// what `FreePages` answered, if there were boot services to ask.
    pub fn dma_dealloc(freed: Option<Status>) -> (failed: i32)
        ensures
            failed == (if freed == Some(Status::Success) {
                0i32
            } else {
                1i32
            }),
    {
        match freed {
            Some(Status::Success) => 0,
            _ => 1,
        }
    }

    /// The address a device uses for a buffer: no IOMMU and an identity map, so the
    /// address is the pointer.
    pub fn share(address: u64) -> (shared: u64)
        ensures
            shared == address,
    {
        address
    }
}

} // verus!
