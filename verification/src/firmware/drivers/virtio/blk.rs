//! virtio-blk: the boot disk.
//!
//! The driver owns the device; this module owns the *interface*: what a request to
//! the disk is checked against before it reaches it.
use crate::block::BlockError;
use vstd::prelude::*;

verus! {

/// The sector size virtio-blk uses, and the size GPT and FAT expect.
pub const SECTOR: u32 = 512;

/// What the device says of itself.
#[derive(Clone, Copy, PartialEq, Eq, Structural, Debug)]
pub struct VirtioBlk {
    pub block_count: u64,
    pub readonly: bool,
    /// Which disk this is, in bus order.
    pub index: usize,
}

/// What keeps a request from the device: bytes that are no whole sectors, a write
/// to a device that advertised itself read-only, or blocks past the last one.
pub open spec fn fault(
    disk: VirtioBlk,
    lba: u64,
    bytes: nat,
    writing: bool,
) -> Option<BlockError> {
    if bytes % 512 != 0 {
        Some(BlockError::Io)
    } else if writing && disk.readonly {
        Some(BlockError::WriteProtected)
    } else if lba + bytes / 512 > disk.block_count {
        Some(BlockError::OutOfRange)
    } else {
        None
    }
}

impl VirtioBlk {
    fn check(&self, lba: u64, bytes: usize, writing: bool) -> (error: Option<BlockError>)
        ensures
            error == fault(*self, lba, bytes as nat, writing),
    {
        if bytes % 512 != 0 {
            return Some(BlockError::Io);
        }
        if writing && self.readonly {
            return Some(BlockError::WriteProtected);
        }
        if lba as u128 + bytes as u128 / 512 > self.block_count as u128 {
            return Some(BlockError::OutOfRange);
        }
        None
    }

    /// Checks a read.
    pub fn check_read(&self, lba: u64, bytes: usize) -> (error: Option<BlockError>)
        ensures
            error == fault(*self, lba, bytes as nat, false),
    {
        self.check(lba, bytes, false)
    }

    /// Checks a write.
    pub fn check_write(&self, lba: u64, bytes: usize) -> (error: Option<BlockError>)
        ensures
            error == fault(*self, lba, bytes as nat, true),
    {
        self.check(lba, bytes, true)
    }

    /// Whether the device advertised itself read-only.
    pub fn readonly(&self) -> (readonly: bool)
        ensures
            readonly == self.readonly,
    {
        self.readonly
    }

    /// The sector size.
    pub fn block_size(&self) -> (size: u32)
        ensures
            size == SECTOR,
    {
        SECTOR
    }

    /// Whether the device accepts writes.
    pub fn is_writable(&self) -> (writable: bool)
        ensures
            writable == !self.readonly,
    {
        !self.readonly
    }

    /// A name for the log, the same for all disks from the eighth on.
    pub fn name(&self) -> (name: &'static str)
        ensures
            name@ == disk_name(self.index as int),
    {
        match self.index {
            0 => "virtio-blk0",
            1 => "virtio-blk1",
            2 => "virtio-blk2",
            3 => "virtio-blk3",
            4 => "virtio-blk4",
            5 => "virtio-blk5",
            6 => "virtio-blk6",
            _ => "virtio-blk7",
        }
    }
}

/// The name of a disk.
pub open spec fn disk_name(index: int) -> Seq<char> {
    if index == 0 {
        "virtio-blk0"@
    } else if index == 1 {
        "virtio-blk1"@
    } else if index == 2 {
        "virtio-blk2"@
    } else if index == 3 {
        "virtio-blk3"@
    } else if index == 4 {
        "virtio-blk4"@
    } else if index == 5 {
        "virtio-blk5"@
    } else if index == 6 {
        "virtio-blk6"@
    } else {
        "virtio-blk7"@
    }
}

} // verus!
