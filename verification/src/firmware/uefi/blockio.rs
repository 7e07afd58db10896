//! `EFI_BLOCK_IO_PROTOCOL`, over the block-device abstraction.
//!
//! The protocol is what a boot loader or an operating system's EFI stub uses to read
//! a disk without knowing anything about virtio. It is also what an application
//! reads `Media` from to find out how big a device is and whether it is removable -
//! so the media structure is filled in from the device rather than assumed.
use crate::block::BlockDevice;
use crate::block_io::{check_range, media, media_of, misfit, transferred, with_device, Media};
use crate::firmware::uefi::handles::{Database, Installed, MAX_HANDLES};
use crate::firmware::uefi::services::BLOCK_IO_PROTOCOL_GUID;
use crate::seqs::{first, lemma_first};
use crate::status::Status;
use vstd::prelude::*;

verus! {

/// How many block devices the firmware will publish.
pub const MAX_SLOTS: usize = 8;

/// A published device: the address of its protocol, its media, and the device.
pub struct Slot<D> {
    pub address: u64,
    pub media: Media,
    pub device: D,
}

/// The published devices.
pub struct Slots<D> {
    pub slots: Vec<Slot<D>>,
}

/// Where the device of a protocol is in the list, or how long that is.
pub open spec fn slot_at<D>(slots: Seq<Slot<D>>, protocol: u64) -> int {
    first(slots, |s: Slot<D>| s.address == protocol)
}

/// What the checks of a transfer find wrong, if anything.
pub open spec fn wrong_with<D>(
    slots: Seq<Slot<D>>,
    protocol: u64,
    media_id: u32,
    lba: u64,
    size: nat,
    given: bool,
) -> Option<Status> {
    let k = slot_at(slots, protocol);
    if protocol == 0 || k >= slots.len() || !given || size == 0 || media_id
        != slots[k].media.media_id {
        Some(Status::InvalidParameter)
    } else {
        misfit(slots[k].media, lba, size)
    }
}

impl<D: BlockDevice> Slots<D> {
    /// What the table keeps to: each media structure is that of its device.
    pub open spec fn wf(&self) -> bool {
        &&& self.slots@.len() <= MAX_SLOTS
        &&& forall|i: int|
            0 <= i < self.slots@.len() ==> (#[trigger] self.slots@[i]).media == media_of(
                self.slots@[i].device,
                (i + 1) as u32,
                self.slots@[i].media.removable_media,
                self.slots@[i].media.logical_partition,
                true,
            ) && self.slots@[i].media.block_size > 0
    }

    /// Prepares the slot table.
    pub fn init() -> (slots: Slots<D>)
        ensures
            slots.wf(),
            slots.slots@ == Seq::<Slot<D>>::empty(),
    {
        Slots { slots: Vec::new() }
    }

    /// The slot a protocol address came from.
    fn slot_of(&self, protocol: u64) -> (k: Option<usize>)
        ensures
            match k {
                Some(k) => protocol != 0 && k == slot_at(self.slots@, protocol) && k
                    < self.slots@.len(),
                None => protocol == 0 || slot_at(self.slots@, protocol) >= self.slots@.len(),
            },
    {
        if protocol == 0 {
            return None;
        }
        let ghost hit = |s: Slot<D>| s.address == protocol;
        let mut k: usize = 0;
        while k < self.slots.len()
            invariant
                k <= self.slots@.len(),
                hit == (|s: Slot<D>| s.address == protocol),
                forall|i: int| 0 <= i < k ==> !hit(#[trigger] self.slots@[i]),
                protocol != 0,
            decreases self.slots@.len() - k,
        {
            if self.slots[k].address == protocol {
                proof {
                    lemma_first(self.slots@, hit, k as int);
                }
                return Some(k);
            }
            k = k + 1;
        }
        proof {
            lemma_first(self.slots@, hit, k as int);
        }
        None
    }

    /// Publishes `device` as an EFI block device, returning the handle it lives on.
    ///
    /// `removable` and `partition` describe the device to the application: a whole
    /// disk is not a logical partition, and a disk the machine may swap out is
    /// removable. `protocol` and `media_page` are the pages for the two structures,
    /// where there were any.
    pub fn install(
        &mut self,
        database: &mut Database,
        device: D,
        removable: bool,
        partition: bool,
        protocol: Option<u64>,
        media_page: Option<u64>,
    ) -> (handle: Result<u64, Status>)
        requires
            old(self).wf(),
            old(database).wf(),
            old(database).count < MAX_HANDLES,
        ensures
            final(self).wf(),
            final(database).wf(),
            final(database).opens@ == old(database).opens@,
            match handle {
                Ok(handle) => {
                    &&& old(self).slots@.len() < MAX_SLOTS
                    &&& protocol is Some && media_page is Some
                    &&& handle == old(database).count + 1
                    &&& final(database).count == handle
                    &&& final(database).protocols@ == old(database).protocols@.push(
                        Installed { handle, guid: BLOCK_IO_PROTOCOL_GUID, interface: protocol->0 },
                    )
                    &&& final(self).slots@ == old(self).slots@.push(
                        Slot {
                            address: protocol->0,
                            media: media_of(
                                device,
                                (old(self).slots@.len() + 1) as u32,
                                removable,
                                partition,
                                true,
                            ),
                            device,
                        },
                    )
                },
                Err(status) => {
                    &&& status == Status::OutOfResources
                    &&& old(self).slots@.len() == MAX_SLOTS || protocol is None || media_page
                        is None
                    &&& final(self).slots@ == old(self).slots@
                    &&& final(database).protocols@ == old(database).protocols@
                    &&& final(database).count == old(database).count
                },
            },
    {
        let count: usize = self.slots.len();
        if count >= MAX_SLOTS {
            return Err(Status::OutOfResources);
        }
        let address: u64 = match protocol {
            Some(address) => address,
            None => {
                return Err(Status::OutOfResources);
            },
        };
        if media_page.is_none() {
            return Err(Status::OutOfResources);
        }
        let media: Media = media(&device, count as u32 + 1, removable, partition, true);
        let ghost before = self.slots@;
        self.slots.push(Slot { address, media, device });
        assert forall|i: int| 0 <= i < self.slots@.len() implies (#[trigger] self.slots@[i]).media
            == media_of(
            self.slots@[i].device,
            (i + 1) as u32,
            self.slots@[i].media.removable_media,
            self.slots@[i].media.logical_partition,
            true,
        ) && self.slots@[i].media.block_size > 0 by {
            if i < before.len() {
                assert(self.slots@[i] == before[i]);
            }
        }
        let handle: u64 = database.install_new(&BLOCK_IO_PROTOCOL_GUID, address);
        Ok(handle)
    }

    /// `Reset`: nothing to reset, so anything that asks gets a clean answer.
    pub fn reset(&self) -> (status: Status)
        ensures
            status == Status::Success,
    {
        Status::Success
    }

    /// `ReadBlocks`.
    pub fn read_blocks(
        &self,
        protocol: u64,
        media_id: u32,
        lba: u64,
        buffer: &mut Vec<u8>,
        given: bool,
    ) -> (status: Status)
        requires
            self.wf(),
        ensures
            final(buffer)@.len() == old(buffer)@.len(),
            match wrong_with(self.slots@, protocol, media_id, lba, old(buffer)@.len(), given) {
                Some(wrong) => status == wrong && final(buffer)@ == old(buffer)@,
                None => transferred(
                    self.slots@[slot_at(self.slots@, protocol)].device,
                    lba,
                    old(buffer)@,
                    final(buffer)@,
                    false,
                    status,
                ),
            },
    {
        self.transfer(protocol, media_id, lba, buffer, given, false)
    }

    /// `WriteBlocks`.
    pub fn write_blocks(
        &self,
        protocol: u64,
        media_id: u32,
        lba: u64,
        buffer: &mut Vec<u8>,
        given: bool,
    ) -> (status: Status)
        requires
            self.wf(),
        ensures
            final(buffer)@ == old(buffer)@,
            match wrong_with(self.slots@, protocol, media_id, lba, old(buffer)@.len(), given) {
                Some(wrong) => status == wrong,
                None => transferred(
                    self.slots@[slot_at(self.slots@, protocol)].device,
                    lba,
                    old(buffer)@,
                    final(buffer)@,
                    true,
                    status,
                ),
            },
    {
        self.transfer(protocol, media_id, lba, buffer, given, true)
    }

    /// The shared body of the two transfer calls: the specification's media id,
    /// alignment, and range checks, then the device.
    fn transfer(
        &self,
        protocol: u64,
        media_id: u32,
        lba: u64,
        buffer: &mut Vec<u8>,
        given: bool,
        writing: bool,
    ) -> (status: Status)
        requires
            self.wf(),
        ensures
            final(buffer)@.len() == old(buffer)@.len(),
            writing ==> final(buffer)@ == old(buffer)@,
            match wrong_with(self.slots@, protocol, media_id, lba, old(buffer)@.len(), given) {
                Some(wrong) => status == wrong && final(buffer)@ == old(buffer)@,
                None => transferred(
                    self.slots@[slot_at(self.slots@, protocol)].device,
                    lba,
                    old(buffer)@,
                    final(buffer)@,
                    writing,
                    status,
                ),
            },
    {
        let k: usize = match self.slot_of(protocol) {
            Some(k) => k,
            None => {
                return Status::InvalidParameter;
            },
        };
        if !given || buffer.len() == 0 {
            return Status::InvalidParameter;
        }
        if media_id != self.slots[k].media.media_id {
            return Status::InvalidParameter;
        }
        match check_range(&self.slots[k].media, lba, buffer.len()) {
            Some(wrong) => {
                return wrong;
            },
            None => {},
        }
        with_device(&self.slots[k].device, lba, buffer, writing)
    }

    /// `FlushBlocks`: this firmware's writes go straight to the device, but the call
    /// has to succeed for a caller that flushes before it trusts what it wrote.
    pub fn flush_blocks(&self) -> (status: Status)
        ensures
            status == Status::Success,
    {
        Status::Success
    }
}

/// The devices keep apart: publishing one more does not change which device a
/// protocol that was there already speaks for.
pub proof fn law_published_devices_stay<D>(slots: Seq<Slot<D>>, added: Slot<D>, protocol: u64)
    requires
        slot_at(slots, protocol) < slots.len(),
    ensures
        slot_at(slots.push(added), protocol) == slot_at(slots, protocol),
        slots.push(added)[slot_at(slots, protocol)] == slots[slot_at(slots, protocol)],
{
    let hit = |s: Slot<D>| s.address == protocol;
    crate::seqs::lemma_first_is(slots, hit);
    let k = slot_at(slots, protocol);
    assert(hit(slots[k]));
    assert forall|i: int| 0 <= i < k implies !hit(#[trigger] slots.push(added)[i]) by {
        assert(!hit(slots[i]));
    }
    lemma_first(slots.push(added), hit, k);
}

} // verus!
