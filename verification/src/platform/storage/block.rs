//! A partition: a window onto part of a device, holding it.
use crate::block::{check, part_lba, BlockDevice, BlockError};
use vstd::prelude::*;

verus! {

/// A partition: a window onto part of a device.
pub struct SubDevice<D: BlockDevice> {
    pub device: D,
    pub first_lba: u64,
    pub block_count: u64,
}

impl<D: BlockDevice> SubDevice<D> {
    pub fn new(device: D, first_lba: u64, block_count: u64) -> (view: Self)
        ensures
            view == (SubDevice { device, first_lba, block_count }),
    {
        SubDevice { device, first_lba, block_count }
    }

    /// Where a request for `bytes` bytes at `lba` goes on the device.
    fn check(&self, lba: u64, bytes: usize) -> (at: Result<u64, BlockError>)
        ensures
            match at {
                Ok(at) => part_lba(
                    self.first_lba,
                    self.block_count,
                    self.size_of_block(),
                    lba,
                    bytes as nat,
                ) == Some(at),
                Err(error) => part_lba(
                    self.first_lba,
                    self.block_count,
                    self.size_of_block(),
                    lba,
                    bytes as nat,
                ) is None && error == BlockError::OutOfRange,
            },
    {
        check(self.first_lba, self.block_count, self.block_size(), lba, bytes)
    }
}

impl<D: BlockDevice> BlockDevice for SubDevice<D> {
    open spec fn size_of_block(&self) -> u32 {
        self.device.size_of_block()
    }

    open spec fn blocks(&self) -> u64 {
        self.block_count
    }

    open spec fn writable(&self) -> bool {
        self.device.writable()
    }

    open spec fn reads(
        &self,
        lba: u64,
        before: Seq<u8>,
        after: Seq<u8>,
        error: Option<BlockError>,
    ) -> bool {
        match part_lba(
            self.first_lba,
            self.block_count,
            self.size_of_block(),
            lba,
            before.len(),
        ) {
            Some(at) => self.device.reads(at, before, after, error),
            None => after == before && error == Some(BlockError::OutOfRange),
        }
    }

    open spec fn writes(&self, lba: u64, data: Seq<u8>, error: Option<BlockError>) -> bool {
        match part_lba(
            self.first_lba,
            self.block_count,
            self.size_of_block(),
            lba,
            data.len(),
        ) {
            Some(at) => self.device.writes(at, data, error),
            None => error == Some(BlockError::OutOfRange),
        }
    }

    fn block_size(&self) -> (size: u32) {
        self.device.block_size()
    }

    fn block_count(&self) -> (count: u64) {
        self.block_count
    }

    fn read(&self, lba: u64, buf: &mut Vec<u8>) -> (outcome: Result<(), BlockError>) {
        match self.check(lba, buf.len()) {
            Ok(at) => self.device.read(at, buf),
            Err(error) => Err(error),
        }
    }

    fn write(&self, lba: u64, buf: &[u8]) -> (outcome: Result<(), BlockError>) {
        match self.check(lba, buf.len()) {
            Ok(at) => self.device.write(at, buf),
            Err(error) => Err(error),
        }
    }

    fn is_writable(&self) -> (writable: bool) {
        self.device.is_writable()
    }

    fn name(&self) -> &'static str {
        "partition"
    }
}

} // verus!
