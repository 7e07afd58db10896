use std::io::{Read, Seek};
use tinted_boot::block::{check, BlockDevice, BlockError};
use tinted_boot::firmware::block::{Partition, SubDevice};
use tinted_boot::firmware::drivers::virtio::blk::VirtioBlk;
use tinted_boot::firmware::drivers::virtio::hal::PlatformHal;
use tinted_boot::firmware::fat::{Adapter, SeekFrom};
use tinted_boot::firmware::storage::discover::{disk_line, Discovery, Opened, Place};
use tinted_boot::firmware::storage::gpt::read_range;
use tinted_boot::firmware::uefi::blockio::Slots;
use tinted_boot::firmware::uefi::handles::Database;
use tinted_boot::firmware::uefi::mem::{Layout, Memory};
use tinted_boot::firmware::uefi::services::BLOCK_IO_PROTOCOL_GUID;
use tinted_boot::platform::storage::block as platform_block;
use tinted_boot::platform::storage::blockio::BlockIo;
use tinted_boot::platform::storage::virtio as platform_virtio;
use tinted_boot::status::Status;

/// A disk whose bytes are the number of their block.
struct MemDisk {
    blocks: u64,
    readonly: bool,
    broken: bool,
}

impl BlockDevice for MemDisk {
    fn block_size(&self) -> u32 {
        512
    }

    fn block_count(&self) -> u64 {
        self.blocks
    }

    fn read(&self, lba: u64, buf: &mut Vec<u8>) -> Result<(), BlockError> {
        if self.broken {
            return Err(BlockError::Io);
        }
        let mut at = 0;
        while at < buf.len() {
            buf[at] = (lba as usize + at / 512) as u8;
            at += 1;
        }
        Ok(())
    }

    fn write(&self, _lba: u64, _buf: &[u8]) -> Result<(), BlockError> {
        if self.readonly {
            Err(BlockError::WriteProtected)
        } else {
            Ok(())
        }
    }

    fn is_writable(&self) -> bool {
        !self.readonly
    }

    fn name(&self) -> &'static str {
        "mem0"
    }
}

fn disk() -> MemDisk {
    MemDisk { blocks: 100, readonly: false, broken: false }
}

#[test]
fn a_request_is_placed_on_the_device() {
    assert_eq!(check(100, 10, 512, 9, 512), Ok(109));
    assert_eq!(check(100, 10, 512, 9, 1024), Err(BlockError::OutOfRange));
    assert_eq!(check(u64::MAX, 10, 512, 1, 512), Err(BlockError::OutOfRange));
}

#[test]
fn a_partition_reads_its_own_blocks() {
    let view = SubDevice::new(disk(), 40, 10, 3);
    let mut buffer = vec![0u8; 1024];
    assert_eq!(view.read(2, &mut buffer), Ok(()));
    assert_eq!((buffer[0], buffer[1023]), (42, 43));
    assert_eq!(view.read(9, &mut buffer), Err(BlockError::OutOfRange));
    assert_eq!((view.number(), view.block_count()), (3, 10));
    let view = platform_block::SubDevice::new(disk(), 50, 4);
    assert_eq!(view.read(1, &mut buffer), Ok(()));
    assert_eq!(buffer[0], 51);
    assert_eq!(view.write(3, &buffer), Err(BlockError::OutOfRange));
    let disk = disk();
    let borrowed = platform_block::SubDevice::new(&disk, 50, 4);
    assert!(borrowed.is_writable());
    assert_eq!((borrowed.block_size(), borrowed.block_count()), (512, 4));
}

#[test]
fn a_borrowed_partition_is_read_only() {
    let disk = disk();
    let view = Partition::new(&disk, 40, 10, 3);
    let mut buffer = vec![0u8; 512];
    assert_eq!(view.read(2, &mut buffer), Ok(()));
    assert_eq!(buffer[0], 42);
    assert_eq!(view.read(10, &mut buffer), Err(BlockError::OutOfRange));
    assert!(!view.is_writable());
    assert_eq!(view.write(2, &buffer), Err(BlockError::WriteProtected));
}

#[test]
fn a_range_is_read_across_blocks() {
    let read = read_range(&disk(), 1000, 30).unwrap();
    assert_eq!(read.len(), 30);
    assert_eq!((read[0], read[23], read[24], read[29]), (1, 1, 2, 2));
    let broken = MemDisk { blocks: 4, readonly: true, broken: true };
    assert_eq!(read_range(&broken, 0, 4), Err(BlockError::Io));
}

#[test]
fn an_adapter_keeps_its_place() {
    let mut adapter = Adapter::new(disk());
    assert_eq!(adapter.seek_to(SeekFrom::Start(510)), Some(510));
    let mut buffer = vec![0u8; 4];
    assert_eq!(adapter.read_bytes(&mut buffer), Ok(4));
    assert_eq!(buffer, vec![0, 0, 1, 1]);
    assert_eq!(adapter.seek_to(SeekFrom::Current(-4)), Some(510));
    assert_eq!(adapter.seek_to(SeekFrom::End(0)), Some(51_200));
    assert_eq!(adapter.read_bytes(&mut buffer), Ok(0));
    assert_eq!(adapter.seek_to(SeekFrom::Current(-60_000)), None);
}

#[test]
fn an_adapter_is_a_stream() {
    let mut adapter = Adapter::new(disk());
    assert_eq!(adapter.seek(std::io::SeekFrom::Start(1022)).unwrap(), 1022);
    let mut buffer = [0u8; 4];
    assert_eq!(adapter.read(&mut buffer).unwrap(), 4);
    assert_eq!(buffer, [1, 1, 2, 2]);
    assert_eq!(adapter.seek(std::io::SeekFrom::Current(-2)).unwrap(), 1024);
    assert_eq!(adapter.seek(std::io::SeekFrom::End(-2)).unwrap(), 51_198);
    assert_eq!(adapter.read(&mut buffer).unwrap(), 2);
    assert_eq!(buffer, [99, 99, 2, 2]);
    let before = adapter.seek(std::io::SeekFrom::Current(-60_000)).unwrap_err();
    assert_eq!(before.kind(), std::io::ErrorKind::InvalidInput);
    assert_eq!(adapter.position, 51_200);
    let mut broken = Adapter::new(MemDisk { blocks: 4, readonly: true, broken: true });
    assert_eq!(broken.read(&mut buffer).unwrap_err().kind(), std::io::ErrorKind::Other);
}

#[test]
fn block_devices_are_published() {
    let mut database = Database::init();
    let mut slots = Slots::init();
    let handle = slots
        .install(&mut database, disk(), false, true, Some(0x1000), Some(0x2000))
        .unwrap();
    assert_eq!(database.interface_on(handle, &BLOCK_IO_PROTOCOL_GUID), Some(0x1000));
    let media = slots.slots[0].media;
    assert_eq!((media.media_id, media.last_block, media.block_size), (1, 99, 512));
    assert!(media.logical_partition && media.media_present && media.write_caching);
    assert!(!media.read_only && !media.removable_media);
    assert_eq!(
        slots.install(&mut database, disk(), false, true, None, Some(0x2000)),
        Err(Status::OutOfResources)
    );
    let mut buffer = vec![0u8; 512];
    assert_eq!(slots.read_blocks(0x1000, 1, 7, &mut buffer, true), Status::Success);
    assert_eq!(buffer[511], 7);
    assert_eq!(slots.read_blocks(0x1001, 1, 7, &mut buffer, true), Status::InvalidParameter);
    assert_eq!(slots.read_blocks(0x1000, 2, 7, &mut buffer, true), Status::InvalidParameter);
    assert_eq!(slots.read_blocks(0x1000, 1, 100, &mut buffer, true), Status::InvalidParameter);
    assert_eq!(slots.read_blocks(0x1000, 1, 0, &mut buffer, false), Status::InvalidParameter);
    assert_eq!(slots.read_blocks(0x1000, 1, u64::MAX, &mut buffer, true), Status::InvalidParameter);
    let mut odd = vec![0u8; 100];
    assert_eq!(slots.read_blocks(0x1000, 1, 7, &mut odd, true), Status::BadBufferSize);
    assert_eq!(slots.write_blocks(0x1000, 1, 7, &mut buffer, true), Status::Success);
    assert_eq!((slots.reset(), slots.flush_blocks()), (Status::Success, Status::Success));
}

#[test]
fn eight_devices_are_published() {
    let mut database = Database::init();
    let mut slots = Slots::init();
    let mut at = 0;
    while at < 8 {
        assert!(slots.install(&mut database, disk(), false, false, Some(at + 1), Some(1)).is_ok());
        at += 1;
    }
    assert_eq!(
        slots.install(&mut database, disk(), false, false, Some(9), Some(1)),
        Err(Status::OutOfResources)
    );
}

#[test]
fn device_errors_become_statuses() {
    let mut database = Database::init();
    let mut slots = Slots::init();
    let readonly = MemDisk { blocks: 4, readonly: true, broken: true };
    slots.install(&mut database, readonly, false, false, Some(1), Some(2)).unwrap();
    let mut buffer = vec![0u8; 512];
    assert_eq!(slots.write_blocks(1, 1, 0, &mut buffer, true), Status::WriteProtected);
    assert_eq!(slots.read_blocks(1, 1, 0, &mut buffer, true), Status::DeviceError);
    assert!(slots.slots[0].media.read_only);
}

#[test]
fn the_platform_checks_the_media_first() {
    let io = BlockIo::new(disk(), 5, false);
    assert!(!io.media.write_caching);
    let mut nothing = Vec::new();
    assert_eq!(io.read_blocks(5, 0, &mut nothing, false), Status::Success);
    assert_eq!(io.read_blocks(6, 0, &mut nothing, false), Status::MediaChanged);
    let mut buffer = vec![0u8; 512];
    assert_eq!(io.read_blocks(5, 99, &mut buffer, true), Status::Success);
    assert_eq!(io.read_blocks(5, 99, &mut buffer, false), Status::InvalidParameter);
    assert_eq!(io.read_blocks(5, 100, &mut buffer, true), Status::InvalidParameter);
    let mut odd = vec![0u8; 511];
    assert_eq!(io.write_blocks(5, 0, &mut odd, true), Status::BadBufferSize);
    assert_eq!(io.write_blocks(5, 0, &mut buffer, true), Status::Success);
    assert_eq!((io.reset(), io.flush_blocks()), (Status::Success, Status::Success));
}

#[test]
fn virtio_requests_are_checked() {
    let disk = VirtioBlk { block_count: 10, readonly: true, index: 1 };
    assert_eq!(disk.check_read(9, 512), None);
    assert_eq!(disk.check_read(9, 513), Some(BlockError::Io));
    assert_eq!(disk.check_read(9, 1024), Some(BlockError::OutOfRange));
    assert_eq!(disk.check_write(20, 512), Some(BlockError::WriteProtected));
    assert_eq!((disk.name(), disk.block_size(), disk.is_writable()), ("virtio-blk1", 512, false));
    let disk = platform_virtio::VirtioBlk { block_count: 10, readonly: true };
    assert_eq!(disk.check_write(0, 1), Some(BlockError::WriteProtected));
    assert_eq!(disk.check_read(u64::MAX, 512), Some(BlockError::OutOfRange));
    assert_eq!((disk.block_size(), disk.is_writable()), (512, false));
    assert_eq!(platform_virtio::PlatformHal::dma_dealloc(None), 1);
    assert_eq!(platform_virtio::PlatformHal::dma_dealloc(Some(Status::Success)), 0);
    assert_eq!(platform_virtio::PlatformHal::share(0x55), 0x55);
}

#[test]
fn dma_pages_come_and_go() {
    let layout = Layout {
        ram_base: 0x4000_0000,
        stack_top: 0x4010_0000,
        heap_base: 0x4020_0000,
        heap_size: 0x10_0000,
    };
    let mut memory = Memory::new(layout, 0x4080_0000);
    assert_eq!(PlatformHal::dma_alloc(&mut memory, 4), Some(0x4010_0000));
    assert_eq!(memory.allocations[0].pages, 4);
    assert_eq!(PlatformHal::dma_dealloc(&mut memory, 0x4010_0000), 0);
    assert_eq!(PlatformHal::dma_dealloc(&mut memory, 0x4010_0000), 1);
    assert_eq!(PlatformHal::share(7), 7);
}

#[test]
fn disks_are_found_in_bus_order() {
    let mut discovery = Discovery::new();
    let place = Place { bus: 0, slot: 3, func: 1 };
    assert_eq!(discovery.offer(place, false, None), None);
    let opened = Opened { block_count: 2048, readonly: true };
    assert_eq!(
        discovery.offer(place, true, Some(opened)),
        Some("[storage] 00:03.1 virtio-blk0: 2048 sectors of 512 bytes (read-only)".to_string())
    );
    assert_eq!(discovery.offer(place, true, None), None);
    let opened = Opened { block_count: 9, readonly: false };
    discovery.offer(Place { bus: 1, slot: 31, func: 0 }, true, Some(opened));
    assert_eq!(
        disk_line(&discovery.disks[1]),
        "[storage] 01:1f.0 virtio-blk1: 9 sectors of 512 bytes"
    );
}
