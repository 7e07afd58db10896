//! The block-device abstraction.
//!
//! Everything above the drivers - GPT, the filesystem, the Block I/O protocol -
//! speaks this and only this, so a driver can be a virtio disk, an SD card, or a
//! test double without the layers above knowing.
use vstd::prelude::*;

verus! {

/// A failure from a block device.
#[derive(Clone, Copy, PartialEq, Eq, Structural, Debug)]
pub enum BlockError {
    /// The device did not answer, or answered with an error.
    Io,
    /// The request was outside the device's capacity.
    OutOfRange,
    /// The device is read-only.
    WriteProtected,
}

/// The error of an outcome that has one.
pub open spec fn error_of(outcome: Result<(), BlockError>) -> Option<BlockError> {
    match outcome {
        Ok(_) => None,
        Err(error) => Some(error),
    }
}

/// A block device: fixed-size blocks, addressed from zero.
///
/// What a device answers is its own matter: `reads` and `writes` are the answers
/// it may give. An implementation that does not say is one of which nothing is known.
pub trait BlockDevice {
    /// The logical block size in bytes.
    closed spec fn size_of_block(&self) -> u32 {
        arbitrary()
    }

    /// How many blocks the device has.
    closed spec fn blocks(&self) -> u64 {
        arbitrary()
    }

    /// Whether the device accepts writes.
    closed spec fn writable(&self) -> bool {
        arbitrary()
    }

    /// Whether a read at `lba` into a buffer holding `before` may leave `after`
    /// in it and fail with `error`, or not fail.
    closed spec fn reads(
        &self,
        lba: u64,
        before: Seq<u8>,
        after: Seq<u8>,
        error: Option<BlockError>,
    ) -> bool {
        arbitrary()
    }

    /// Whether a write of `data` at `lba` may fail with `error`, or not fail.
    closed spec fn writes(&self, lba: u64, data: Seq<u8>, error: Option<BlockError>) -> bool {
        arbitrary()
    }

    /// The device's logical block size in bytes. Always a power of two.
    fn block_size(&self) -> (size: u32)
        ensures
            size == self.size_of_block(),
            size > 0,
    ;

    /// How many blocks the device has.
    fn block_count(&self) -> (count: u64)
        ensures
            count == self.blocks(),
    ;

    /// Reads `buf.len()` bytes starting at `lba`; `buf.len()` is a multiple of
    /// the block size.
    fn read(&self, lba: u64, buf: &mut Vec<u8>) -> (outcome: Result<(), BlockError>)
        ensures
            final(buf)@.len() == old(buf)@.len(),
            self.reads(lba, old(buf)@, final(buf)@, error_of(outcome)),
    ;

    /// Writes `buf.len()` bytes starting at `lba`.
    fn write(&self, lba: u64, buf: &[u8]) -> (outcome: Result<(), BlockError>)
        ensures
            self.writes(lba, buf@, error_of(outcome)),
    ;

    /// Whether the device accepts writes.
    fn is_writable(&self) -> (writable: bool)
        ensures
            writable == self.writable(),
    ;

    /// A short name for the boot log, e.g. `virtio-blk0`.
    fn name(&self) -> &'static str;
}

/// A borrowed device answers as the device does.
impl<'a, D: BlockDevice> BlockDevice for &'a D {
    open spec fn size_of_block(&self) -> u32 {
        (**self).size_of_block()
    }

    open spec fn blocks(&self) -> u64 {
        (**self).blocks()
    }

    open spec fn writable(&self) -> bool {
        (**self).writable()
    }

    open spec fn reads(
        &self,
        lba: u64,
        before: Seq<u8>,
        after: Seq<u8>,
        error: Option<BlockError>,
    ) -> bool {
        (**self).reads(lba, before, after, error)
    }

    open spec fn writes(&self, lba: u64, data: Seq<u8>, error: Option<BlockError>) -> bool {
        (**self).writes(lba, data, error)
    }

    fn block_size(&self) -> (size: u32) {
        (**self).block_size()
    }

    fn block_count(&self) -> (count: u64) {
        (**self).block_count()
    }

    fn read(&self, lba: u64, buf: &mut Vec<u8>) -> (outcome: Result<(), BlockError>) {
        (**self).read(lba, buf)
    }

    fn write(&self, lba: u64, buf: &[u8]) -> (outcome: Result<(), BlockError>) {
        (**self).write(lba, buf)
    }

    fn is_writable(&self) -> (writable: bool) {
        (**self).is_writable()
    }

    fn name(&self) -> &'static str {
        (**self).name()
    }
}

/// A device behind a pointer answers as the device does.
impl<'a> BlockDevice for Box<dyn BlockDevice + 'a> {
    open spec fn size_of_block(&self) -> u32 {
        (**self).size_of_block()
    }

    open spec fn blocks(&self) -> u64 {
        (**self).blocks()
    }

    open spec fn writable(&self) -> bool {
        (**self).writable()
    }

    open spec fn reads(
        &self,
        lba: u64,
        before: Seq<u8>,
        after: Seq<u8>,
        error: Option<BlockError>,
    ) -> bool {
        (**self).reads(lba, before, after, error)
    }

    open spec fn writes(&self, lba: u64, data: Seq<u8>, error: Option<BlockError>) -> bool {
        (**self).writes(lba, data, error)
    }

    fn block_size(&self) -> (size: u32) {
        (**self).block_size()
    }

    fn block_count(&self) -> (count: u64) {
        (**self).block_count()
    }

    fn read(&self, lba: u64, buf: &mut Vec<u8>) -> (outcome: Result<(), BlockError>) {
        (**self).read(lba, buf)
    }

    fn write(&self, lba: u64, buf: &[u8]) -> (outcome: Result<(), BlockError>) {
        (**self).write(lba, buf)
    }

    fn is_writable(&self) -> (writable: bool) {
        (**self).is_writable()
    }

    fn name(&self) -> &'static str {
        (**self).name()
    }
}

/// Whether a device always answers the same: `data` are its blocks, the bytes of one that
/// a read always gives, and `None` for one whose read always fails.
pub open spec fn steady<D: BlockDevice>(device: &D, data: Seq<Option<Seq<u8>>>) -> bool {
    let block = device.size_of_block();
    &&& block > 0
    &&& data.len() == device.blocks()
    &&& data.len() * block <= u64::MAX
    &&& forall|lba: u64, before: Seq<u8>, after: Seq<u8>, error: Option<BlockError>|
        lba < data.len() && before.len() == block ==> match data[lba as int] {
            Some(bytes) => (#[trigger] device.reads(lba, before, after, error)) == (error is None
                && after == bytes),
            None => device.reads(lba, before, after, error) ==> error is Some,
        }
}

/// Where a request for the bytes of `bytes` bytes at `lba` of a part of a device
/// goes: the part starts at `first_lba` and has `count` blocks. `None` when the
/// request runs past the part.
pub open spec fn part_lba(
    first_lba: u64,
    count: u64,
    block_size: u32,
    lba: u64,
    bytes: nat,
) -> Option<u64> {
    if lba + bytes / (block_size as nat) <= count && first_lba + lba <= u64::MAX {
        Some((first_lba + lba) as u64)
    } else {
        None
    }
}

/// Checks a request against a part of a device.
pub fn check(first_lba: u64, count: u64, block_size: u32, lba: u64, bytes: usize) -> (at: Result<
    u64,
    BlockError,
>)
    requires
        block_size > 0,
    ensures
        match at {
            Ok(at) => part_lba(first_lba, count, block_size, lba, bytes as nat) == Some(at),
            Err(error) => part_lba(first_lba, count, block_size, lba, bytes as nat) is None && error
                == BlockError::OutOfRange,
        },
{
    let blocks: u64 = bytes as u64 / block_size as u64;
    match lba.checked_add(blocks) {
        Some(end) => {
            if end > count {
                return Err(BlockError::OutOfRange);
            }
        },
        None => {
            return Err(BlockError::OutOfRange);
        },
    }
    match first_lba.checked_add(lba) {
        Some(at) => Ok(at),
        None => Err(BlockError::OutOfRange),
    }
}

} // verus!
