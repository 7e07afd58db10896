//! Views of part of a block device.
use crate::block::{check, part_lba, BlockDevice, BlockError};
use vstd::prelude::*;

verus! {

/// An owned view of part of a block device.
///
/// `Partition` borrows its device, which suits a caller walking disks in a loop;
/// the filesystem keeps its device for as long as it is mounted, so it needs
/// this instead: the same offset arithmetic, holding the disk.
pub struct SubDevice<D: BlockDevice> {
    pub device: D,
    pub first_lba: u64,
    pub block_count: u64,
    pub number: u32,
}

impl<D: BlockDevice> SubDevice<D> {
    pub fn new(device: D, first_lba: u64, block_count: u64, number: u32) -> (view: Self)
        ensures
            view == (SubDevice { device, first_lba, block_count, number }),
    {
        SubDevice { device, first_lba, block_count, number }
    }

    /// The partition number this view was made for, for device paths.
    pub fn number(&self) -> (number: u32)
        ensures
            number == self.number,
    {
        self.number
    }
}

impl<D: BlockDevice> BlockDevice for SubDevice<D> {
    open spec fn size_of_block(&self) -> u32 {
        self.device.size_of_block()
    }

    open spec fn blocks(&self) -> u64 {
        self.block_count
    }

    open spec fn writable(&self) -> bool {
        self.device.writable()
    }

    /// Past the view nothing is read; inside it the device reads at the block's
    /// place on the device.
    open spec fn reads(
        &self,
        lba: u64,
        before: Seq<u8>,
        after: Seq<u8>,
        error: Option<BlockError>,
    ) -> bool {
        match part_lba(
            self.first_lba,
            self.block_count,
            self.size_of_block(),
            lba,
            before.len(),
        ) {
            Some(at) => self.device.reads(at, before, after, error),
            None => after == before && error == Some(BlockError::OutOfRange),
        }
    }

    open spec fn writes(&self, lba: u64, data: Seq<u8>, error: Option<BlockError>) -> bool {
        match part_lba(
            self.first_lba,
            self.block_count,
            self.size_of_block(),
            lba,
            data.len(),
        ) {
            Some(at) => self.device.writes(at, data, error),
            None => error == Some(BlockError::OutOfRange),
        }
    }

    fn block_size(&self) -> (size: u32) {
        self.device.block_size()
    }

    fn block_count(&self) -> (count: u64) {
        self.block_count
    }

    fn read(&self, lba: u64, buf: &mut Vec<u8>) -> (outcome: Result<(), BlockError>) {
        let block_size: u32 = self.block_size();
        match check(self.first_lba, self.block_count, block_size, lba, buf.len()) {
            Ok(at) => self.device.read(at, buf),
            Err(error) => Err(error),
        }
    }

    fn write(&self, lba: u64, buf: &[u8]) -> (outcome: Result<(), BlockError>) {
        let block_size: u32 = self.block_size();
        match check(self.first_lba, self.block_count, block_size, lba, buf.len()) {
            Ok(at) => self.device.write(at, buf),
            Err(error) => Err(error),
        }
    }

    fn is_writable(&self) -> (writable: bool) {
        self.device.is_writable()
    }

    fn name(&self) -> &'static str {
        "partition"
    }
}

/// A read-only view of part of a borrowed block device, as a partition is.
pub struct Partition<'a, D: BlockDevice> {
    pub device: &'a D,
    /// First LBA of the partition.
    pub first_lba: u64,
    /// Number of blocks in the partition.
    pub block_count: u64,
    /// One-based GPT partition number, or 0 for a whole disk.
    pub number: u32,
}

impl<'a, D: BlockDevice> Partition<'a, D> {
    pub fn new(device: &'a D, first_lba: u64, block_count: u64, number: u32) -> (view: Self)
        ensures
            view == (Partition { device, first_lba, block_count, number }),
    {
        Partition { device, first_lba, block_count, number }
    }
}

impl<'a, D: BlockDevice> BlockDevice for Partition<'a, D> {
    open spec fn size_of_block(&self) -> u32 {
        self.device.size_of_block()
    }

    open spec fn blocks(&self) -> u64 {
        self.block_count
    }

    open spec fn writable(&self) -> bool {
        false
    }

    open spec fn reads(
        &self,
        lba: u64,
        before: Seq<u8>,
        after: Seq<u8>,
        error: Option<BlockError>,
    ) -> bool {
        match part_lba(
            self.first_lba,
            self.block_count,
            self.size_of_block(),
            lba,
            before.len(),
        ) {
            Some(at) => self.device.reads(at, before, after, error),
            None => after == before && error == Some(BlockError::OutOfRange),
        }
    }

    /// Nothing is written.
    open spec fn writes(&self, lba: u64, data: Seq<u8>, error: Option<BlockError>) -> bool {
        error == Some(BlockError::WriteProtected)
    }

    fn block_size(&self) -> (size: u32) {
        self.device.block_size()
    }

    fn block_count(&self) -> (count: u64) {
        self.block_count
    }

    fn read(&self, lba: u64, buf: &mut Vec<u8>) -> (outcome: Result<(), BlockError>) {
        let block_size: u32 = self.block_size();
        match check(self.first_lba, self.block_count, block_size, lba, buf.len()) {
            Ok(at) => self.device.read(at, buf),
            Err(error) => Err(error),
        }
    }

    fn write(&self, lba: u64, buf: &[u8]) -> (outcome: Result<(), BlockError>) {
        Err(BlockError::WriteProtected)
    }

    fn is_writable(&self) -> (writable: bool) {
        false
    }

    fn name(&self) -> &'static str {
        "partition"
    }
}

} // verus!
