//! `EFI_BLOCK_IO_PROTOCOL` over a `BlockDevice`.
use crate::block::BlockDevice;
use crate::block_io::{check_range, media, media_of, misfit, transferred, with_device, Media};
use crate::status::Status;
use vstd::prelude::*;

verus! {

/// A Block I/O instance: the media, and the device.
pub struct BlockIo<D> {
    pub media: Media,
    pub device: D,
}

/// What a transfer answers without asking the device, if it does.
pub open spec fn answered(media: Media, media_id: u32, lba: u64, size: nat, given: bool) -> Option<
    Status,
> {
    if media_id != media.media_id {
        Some(Status::MediaChanged)
    } else if size == 0 {
        Some(Status::Success)
    } else if !given {
        Some(Status::InvalidParameter)
    } else {
        misfit(media, lba, size)
    }
}

impl<D: BlockDevice> BlockIo<D> {
    /// What an instance keeps to: the media is that of its device.
    pub open spec fn wf(&self) -> bool {
        &&& self.media == media_of(
            self.device,
            self.media.media_id,
            false,
            self.media.logical_partition,
            false,
        )
        &&& self.media.block_size > 0
    }

    /// Builds a Block I/O instance for `device`.
    pub fn new(device: D, media_id: u32, partition: bool) -> (io: BlockIo<D>)
        ensures
            io.wf(),
            io.media == media_of(device, media_id, false, partition, false),
            io.device == device,
    {
        let media: Media = media(&device, media_id, false, partition, false);
        BlockIo { media, device }
    }

    /// `Reset`.
    pub fn reset(&self) -> (status: Status)
        ensures
            status == Status::Success,
    {
        Status::Success
    }

    /// `ReadBlocks`.
    pub fn read_blocks(&self, media_id: u32, lba: u64, buffer: &mut Vec<u8>, given: bool) -> (status:
        Status)
        requires
            self.wf(),
        ensures
            final(buffer)@.len() == old(buffer)@.len(),
            match answered(self.media, media_id, lba, old(buffer)@.len(), given) {
                Some(answer) => status == answer && final(buffer)@ == old(buffer)@,
                None => transferred(
                    self.device,
                    lba,
                    old(buffer)@,
                    final(buffer)@,
                    false,
                    status,
                ),
            },
    {
        self.transfer(media_id, lba, buffer, given, false)
    }

    /// `WriteBlocks`.
    pub fn write_blocks(&self, media_id: u32, lba: u64, buffer: &mut Vec<u8>, given: bool) -> (status:
        Status)
        requires
            self.wf(),
        ensures
            final(buffer)@ == old(buffer)@,
            match answered(self.media, media_id, lba, old(buffer)@.len(), given) {
                Some(answer) => status == answer,
                None => transferred(self.device, lba, old(buffer)@, final(buffer)@, true, status),
            },
    {
        self.transfer(media_id, lba, buffer, given, true)
    }

    /// The specification's media, size and range checks, then the device.
    fn transfer(
        &self,
        media_id: u32,
        lba: u64,
        buffer: &mut Vec<u8>,
        given: bool,
        writing: bool,
    ) -> (status: Status)
        requires
            self.wf(),
        ensures
            final(buffer)@.len() == old(buffer)@.len(),
            writing ==> final(buffer)@ == old(buffer)@,
            match answered(self.media, media_id, lba, old(buffer)@.len(), given) {
                Some(answer) => status == answer && final(buffer)@ == old(buffer)@,
                None => transferred(
                    self.device,
                    lba,
                    old(buffer)@,
                    final(buffer)@,
                    writing,
                    status,
                ),
            },
    {
        if media_id != self.media.media_id {
            return Status::MediaChanged;
        }
        if buffer.len() == 0 {
            return Status::Success;
        }
        if !given {
            return Status::InvalidParameter;
        }
        match check_range(&self.media, lba, buffer.len()) {
            Some(wrong) => {
                return wrong;
            },
            None => {},
        }
        with_device(&self.device, lba, buffer, writing)
    }

    /// `FlushBlocks`.
    pub fn flush_blocks(&self) -> (status: Status)
        ensures
            status == Status::Success,
    {
        Status::Success
    }
}

} // verus!
