//! What the two Block I/O protocols share: the media structure, the range check and
//! the transfer.
use crate::block::{error_of, BlockDevice, BlockError};
use crate::status::Status;
use vstd::prelude::*;

verus! {

/// Revision 2 of the protocol: the one with `lowest_aligned_lba`.
pub const REVISION: u64 = 0x0002_0001;

/// What an application reads to find out how big a device is and whether it is
/// removable.
#[derive(Clone, Copy, PartialEq, Eq, Structural, Debug)]
pub struct Media {
    pub media_id: u32,
    pub removable_media: bool,
    pub media_present: bool,
    pub logical_partition: bool,
    pub read_only: bool,
    pub write_caching: bool,
    pub block_size: u32,
    pub io_align: u32,
    pub last_block: u64,
    pub lowest_aligned_lba: u64,
    pub logical_blocks_per_physical_block: u32,
    pub optimal_transfer_length_granularity: u32,
}

/// The last block of a device with so many blocks.
pub open spec fn last_block(blocks: u64) -> u64 {
    if blocks == 0 {
        0
    } else {
        (blocks - 1) as u64
    }
}

/// The media of a device.
pub open spec fn media_of<D: BlockDevice>(
    device: D,
    media_id: u32,
    removable: bool,
    partition: bool,
    caching: bool,
) -> Media {
    Media {
        media_id,
        removable_media: removable,
        media_present: true,
        logical_partition: partition,
        read_only: !device.writable(),
        write_caching: caching,
        block_size: device.size_of_block(),
        io_align: 0,
        last_block: last_block(device.blocks()),
        lowest_aligned_lba: 0,
        logical_blocks_per_physical_block: 1,
        optimal_transfer_length_granularity: 0,
    }
}

/// Fills in the media structure from a device.
pub fn media<D: BlockDevice>(
    device: &D,
    media_id: u32,
    removable: bool,
    partition: bool,
    caching: bool,
) -> (media: Media)
    ensures
        media == media_of(*device, media_id, removable, partition, caching),
        media.block_size > 0,
{
    let blocks: u64 = device.block_count();
    Media {
        media_id,
        removable_media: removable,
        media_present: true,
        logical_partition: partition,
        read_only: !device.is_writable(),
        write_caching: caching,
        block_size: device.block_size(),
        io_align: 0,
        last_block: if blocks == 0 {
            0
        } else {
            blocks - 1
        },
        lowest_aligned_lba: 0,
        logical_blocks_per_physical_block: 1,
        optimal_transfer_length_granularity: 0,
    }
}

/// The status a device's answer becomes.
pub open spec fn status_of(error: Option<BlockError>) -> Status {
    match error {
        None => Status::Success,
        Some(BlockError::WriteProtected) => Status::WriteProtected,
        Some(BlockError::OutOfRange) => Status::InvalidParameter,
        Some(BlockError::Io) => Status::DeviceError,
    }
}

/// What is wrong with the size and the range of a transfer, if anything is.
pub open spec fn misfit(media: Media, lba: u64, size: nat) -> Option<Status> {
    if size % (media.block_size as nat) != 0 {
        Some(Status::BadBufferSize)
    } else if lba + size / (media.block_size as nat) > media.last_block + 1 {
        Some(Status::InvalidParameter)
    } else {
        None
    }
}

/// Checks the size and the range of a transfer.
pub fn check_range(media: &Media, lba: u64, size: usize) -> (wrong: Option<Status>)
    requires
        media.block_size > 0,
    ensures
        wrong == misfit(*media, lba, size as nat),
{
    let block_size: u64 = media.block_size as u64;
    if size as u64 % block_size != 0 {
        return Some(Status::BadBufferSize);
    }
    let blocks: u64 = size as u64 / block_size;
    if lba as u128 + blocks as u128 > media.last_block as u128 + 1 {
        return Some(Status::InvalidParameter);
    }
    None
}

/// Whether a transfer with a device may end with a status and leave `after` in the
/// buffer that held `before`.
pub open spec fn transferred<D: BlockDevice>(
    device: D,
    lba: u64,
    before: Seq<u8>,
    after: Seq<u8>,
    writing: bool,
    status: Status,
) -> bool {
    exists|error: Option<BlockError>|
        {
            &&& status == #[trigger] status_of(error)
            &&& if writing {
                device.writes(lba, before, error) && after == before
            } else {
                device.reads(lba, before, after, error)
            }
        }
}

/// Has the device read into or write from a buffer.
pub fn with_device<D: BlockDevice>(device: &D, lba: u64, buffer: &mut Vec<u8>, writing: bool) -> (status:
    Status)
    ensures
        transferred(*device, lba, old(buffer)@, final(buffer)@, writing, status),
        final(buffer)@.len() == old(buffer)@.len(),
{
    let result: Result<(), BlockError> = if writing {
        device.write(lba, buffer.as_slice())
    } else {
        device.read(lba, buffer)
    };
    let ghost error = error_of(result);
    let status: Status = match result {
        Ok(()) => Status::Success,
        Err(BlockError::WriteProtected) => Status::WriteProtected,
        Err(BlockError::OutOfRange) => Status::InvalidParameter,
        Err(BlockError::Io) => Status::DeviceError,
    };
    assert(status == status_of(error));
    status
}

/// A transfer fits when it is of whole blocks, none of them behind the last.
pub proof fn law_whole_blocks_fit(media: Media, lba: u64, size: nat)
    requires
        media.block_size > 0,
    ensures
        misfit(media, lba, size) is None <==> exists|blocks: nat|
            #![trigger blocks * media.block_size]
            size == blocks * media.block_size && lba + blocks <= media.last_block + 1,
{
    let b = media.block_size as nat;
    vstd::arithmetic::div_mod::lemma_fundamental_div_mod(size as int, b as int);
    if misfit(media, lba, size) is None {
        let blocks = size / b;
        assert(blocks * b == size) by (nonlinear_arith)
            requires
                size == b * (size / b) + size % b,
                size % b == 0,
                blocks == size / b,
        ;
    }
    if exists|blocks: nat|
        #![trigger blocks * media.block_size]
        size == blocks * media.block_size && lba + blocks <= media.last_block + 1 {
        let blocks = choose|blocks: nat|
            #![trigger blocks * media.block_size]
            size == blocks * media.block_size && lba + blocks <= media.last_block + 1;
        vstd::arithmetic::div_mod::lemma_fundamental_div_mod_converse(
            size as int,
            b as int,
            blocks as int,
            0,
        );
    }
}

} // verus!
