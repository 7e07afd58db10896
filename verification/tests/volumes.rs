use tinted_boot::block::{BlockDevice, BlockError};
use tinted_boot::bytes::{get_u32, get_u64};
use tinted_boot::file_info::{FILE_INFO_GUID, FILE_SYSTEM_INFO_GUID, FILE_SYSTEM_VOLUME_LABEL_GUID};
use tinted_boot::firmware::block::Partition;
use tinted_boot::firmware::boot::load_option::{boot_order_paths, parse_load_option, Candidate};
use tinted_boot::firmware::boot::manager::{
    boot, choose_among, choose_boot_image, entry_line, esp_line, find_image, image_line, mount_esp,
    no_esp_line, open_file, publish_storage, volume_device_path, Attempt, Bootable, Pages,
    Published, Step,
};
use tinted_boot::firmware::fat::{
    children_in, mount, mounted_line, names_match, normalise, Adapter, Entry, FatKind, SeekFrom, Volume,
};
use tinted_boot::firmware::fs::{FileNode, FileSystem};
use tinted_boot::firmware::loader::pe::Loaded;
use tinted_boot::firmware::storage::gpt::find_esp;
use tinted_boot::firmware::uefi::blockio::Slots;
use tinted_boot::firmware::uefi::handles::Database;
use tinted_boot::firmware::uefi::mem::{Layout, Memory};
use tinted_boot::firmware::uefi::services::{
    BLOCK_IO_PROTOCOL_GUID, DEVICE_PATH_PROTOCOL_GUID, SIMPLE_FILE_SYSTEM_PROTOCOL_GUID,
};
use tinted_boot::firmware::uefi::simplefs::{Files, Volumes};
use tinted_boot::firmware::uefi::vars::Store;
use tinted_boot::platform::storage::component::{Found, Storage};
use tinted_boot::platform::storage::gpt::partitions;
use tinted_boot::status::Status;
use tinted_boot::tools::fat32::{Fat32, Source};
use tinted_boot::tools::mkesp::Disk;
use tinted_boot::utf16::encode;

/// A disk in memory.
struct MemDisk {
    bytes: Vec<u8>,
}

impl BlockDevice for MemDisk {
    fn block_size(&self) -> u32 {
        512
    }

    fn block_count(&self) -> u64 {
        (self.bytes.len() / 512) as u64
    }

    fn read(&self, lba: u64, buf: &mut Vec<u8>) -> Result<(), BlockError> {
        let start = lba as usize * 512;
        if start + buf.len() > self.bytes.len() {
            return Err(BlockError::OutOfRange);
        }
        let size = buf.len();
        buf.copy_from_slice(&self.bytes[start..start + size]);
        Ok(())
    }

    fn write(&self, _lba: u64, _buf: &[u8]) -> Result<(), BlockError> {
        Err(BlockError::WriteProtected)
    }

    fn is_writable(&self) -> bool {
        false
    }

    fn name(&self) -> &'static str {
        "virtio-blk0"
    }
}

const SIZE: usize = 40 * 1024 * 1024;

fn contents() -> Vec<u8> {
    let mut image = vec![0u8; 5000];
    let mut at = 0;
    while at < image.len() {
        image[at] = (at % 253) as u8;
        at += 1;
    }
    image
}

fn disk() -> MemDisk {
    let mut disk = Disk::new(SIZE).unwrap();
    let files = vec![
        Source { path: b"EFI/BOOT/BOOTAA64.EFI".to_vec(), contents: contents() },
        Source { path: b"KERNEL".to_vec(), contents: b"kernel!".to_vec() },
    ];
    let volume = Fat32::build(disk.partition_sectors(), &files).unwrap();
    disk.copy_partition(&volume);
    disk.write_gpt();
    MemDisk { bytes: disk.bytes }
}

fn volume(disk: &MemDisk) -> Volume<'_> {
    match mount_esp(disk) {
        Attempt::Mounted(_, volume) => volume,
        _ => panic!("the ESP mounts"),
    }
}

fn memory() -> Memory {
    let layout = Layout {
        ram_base: 0x4000_0000,
        stack_top: 0x4010_0000,
        heap_base: 0x4020_0000,
        heap_size: 0x10_0000,
    };
    Memory::new(layout, 0x4080_0000)
}

fn text(value: &str) -> Vec<u16> {
    let mut units = encode(value);
    units.push(0);
    units
}

#[test]
fn the_esp_is_found_and_mounted() {
    let disk = disk();
    let esp = find_esp(&disk).unwrap();
    assert_eq!((esp.first_lba, esp.number), (34, 1));
    assert_eq!(esp.last_lba, SIZE as u64 / 512 - 34);
    assert_eq!(
        esp_line("virtio-blk0", &esp),
        format!("[boot] virtio-blk0: ESP at LBA 34..{} (partition 1)", SIZE / 512 - 34)
    );
    let mounted = volume(&disk);
    let node = mounted.open("\\EFI\\boot\\BootAA64.efi").unwrap();
    assert_eq!((node.size, node.is_dir), (5000, false));
    assert!(matches!(
        mount_esp(&MemDisk { bytes: vec![0u8; 4096] }),
        Attempt::NoEsp
    ));
    assert_eq!(no_esp_line("virtio-blk1"), "[boot] virtio-blk1: no GPT ESP");
    assert!(mount(Partition::new(&disk, 0, 34, 1)).is_none());
}

#[test]
fn files_are_read_through_the_tree() {
    let disk = disk();
    let mounted = volume(&disk);
    let tree = &mounted;
    let root = tree.root();
    assert!(root.is_dir());
    let mut names: Vec<String> = root.children().iter().map(|node| node.name()).collect();
    names.sort();
    assert_eq!(names, vec!["EFI", "KERNEL"]);
    let node = FileSystem::open(&tree, "/EFI/./BOOT\\BOOTAA64.EFI").unwrap();
    assert_eq!(node.len(), 5000);
    assert_eq!(node.read_all(), contents());
    let mut part = vec![0u8; 10];
    assert_eq!(node.read_at(4995, &mut part), 5);
    assert_eq!(&part[0..5], &contents()[4995..]);
    assert!(FileSystem::open(&tree, "\\EFI\\NONE").is_none());
    assert!(open_file(&tree, "\\KERNEL\\x").is_none());
    assert!(names_match("Boot", "bOOT"));
    assert!(!names_match("Boot", "Boo"));
    assert_eq!(normalise("//EFI\\\\BOOT/"), "EFI\\BOOT");
}

fn load_option(path: &str, options: &[u8]) -> Vec<u8> {
    let units = encode(path);
    let mut node = vec![4u8, 4];
    node.extend_from_slice(&(4 + 2 * units.len() as u16).to_le_bytes());
    for unit in &units {
        node.extend_from_slice(&unit.to_le_bytes());
    }
    node.extend_from_slice(&[0x7f, 0xff, 4, 0]);
    let mut payload = vec![1u8, 0, 0, 0];
    payload.extend_from_slice(&(node.len() as u16).to_le_bytes());
    payload.extend_from_slice(&node);
    payload.extend_from_slice(&[0x4c, 0, 0x69, 0, 0, 0]);
    payload.extend_from_slice(options);
    payload
}

const GLOBAL: [u8; 16] = [
    0x61, 0xdf, 0xe4, 0x8b, 0xca, 0x93, 0xd2, 0x11, 0xaa, 0x0d, 0x00, 0xe0, 0x98, 0x03, 0x2b, 0x8c,
];

#[test]
fn a_load_option_names_its_file() {
    let candidate = parse_load_option(&load_option("\\KERNEL", b"quiet")).unwrap();
    assert_eq!(candidate.path, "\\KERNEL");
    assert_eq!(candidate.options, b"quiet");
    let mut inactive = load_option("\\KERNEL", b"");
    inactive[0] = 0;
    assert!(parse_load_option(&inactive).is_none());
    assert!(parse_load_option(&[1, 0, 0, 0, 0]).is_none());
    assert!(parse_load_option(&[1, 0, 0, 0, 9, 0]).is_none());
    assert!(parse_load_option(&[1, 0, 0, 0, 4, 0, 0x7f, 0xff, 4, 0]).is_none());
}

#[test]
fn the_boot_order_is_followed() {
    let mut store = Store::init();
    store.set(&encode("BootOrder"), &GLOBAL, 7, &[3, 0, 0x1a, 0, 7, 0]);
    store.set(&encode("Boot001a"), &GLOBAL, 7, &load_option("\\MISSING", b""));
    store.set(&encode("Boot0007"), &GLOBAL, 7, &load_option("\\KERNEL", b"x=1"));
    let candidates = boot_order_paths(&store);
    let paths: Vec<String> = candidates.iter().map(|c| c.path.clone()).collect();
    assert_eq!(paths, vec!["\\MISSING", "\\KERNEL"]);
    let disk = disk();
    let mounted = volume(&disk);
    let (found, said) = find_image(&&mounted, &store);
    assert_eq!(
        said,
        vec![
            "[boot] BootOrder entry \\MISSING is not on this volume",
            "[boot] BootOrder names \\KERNEL",
        ]
    );
    assert_eq!(image_line("d", &found), "[boot] loading \\KERNEL (7 bytes)");
    match found {
        Bootable::Image(candidate, bytes) => {
            assert_eq!(candidate.options, b"x=1");
            assert_eq!(bytes, b"kernel!");
        }
        _ => panic!("the image is there"),
    }
}

#[test]
fn without_a_boot_order_the_fallback_is_taken() {
    let disk = disk();
    let mounted = volume(&disk);
    let (found, said) = choose_boot_image(&&mounted, &Store::init());
    assert_eq!(found.unwrap().path, "\\EFI\\BOOT\\BOOTAA64.EFI");
    assert_eq!(said, vec!["[boot] using the removable-media fallback"]);
    let (found, said) = choose_among(Vec::new(), &Vec::new(), false);
    assert!(found.is_none() && said.is_empty());
    assert_eq!(image_line("disk", &Bootable::Nothing), "[boot] no boot image on disk");
    let candidate = Candidate { path: "\\X".to_string(), options: Vec::new() };
    assert_eq!(
        image_line("disk", &Bootable::NotOpened(candidate)),
        "[boot] \\X could not be opened"
    );
}

#[test]
fn disks_are_tried_until_one_runs() {
    assert_eq!(boot(0, 0, false), Step::NoDisks);
    assert_eq!(boot(2, 0, false), Step::Try(0));
    assert_eq!(boot(2, 1, false), Step::Try(1));
    assert_eq!(boot(2, 2, false), Step::NothingRan);
    assert_eq!(boot(2, 1, true), Step::Ran);
}

#[test]
fn a_volume_path_names_disk_and_partition() {
    let path = volume_device_path("virtio-blk0", 2);
    assert_eq!(&path[0..4], &[3, 1, 20, 0]);
    assert_eq!(&path[4..15], b"virtio-blk0");
    assert_eq!(&path[15..20], &[0, 2, 0, 0, 0]);
    assert_eq!(&path[20..24], &[0x7f, 0xff, 4, 0]);
    assert_ne!(path, volume_device_path("virtio-blk0", 1));
    assert_eq!(&volume_device_path("a-very-long-disk-name", 0)[4..16], b"a-very-long-");
}

#[test]
fn the_storage_stack_is_published() {
    let disk = disk();
    let mounted = volume(&disk);
    let mut database = Database::init();
    let mut slots = Slots::init();
    let mut volumes: Volumes<&Volume> = Volumes::init();
    let mut memory = memory();
    let pages = Pages {
        disk_protocol: Some(0x1000),
        disk_media: Some(0x2000),
        disk_path: 0x3000,
        volume_protocol: Some(0x4000),
        volume_media: Some(0x5000),
        volume_path: 0x6000,
    };
    let published = publish_storage(
        &mut database,
        &mut slots,
        &mut volumes,
        &mut memory,
        MemDisk { bytes: vec![0u8; 512] },
        MemDisk { bytes: vec![0u8; 1024] },
        &mounted,
        pages,
    );
    assert_eq!(published, Published::Volume(2));
    assert_eq!(database.interface_on(1, &BLOCK_IO_PROTOCOL_GUID), Some(0x1000));
    assert_eq!(database.interface_on(1, &DEVICE_PATH_PROTOCOL_GUID), Some(0x3000));
    assert_eq!(database.interface_on(2, &DEVICE_PATH_PROTOCOL_GUID), Some(0x6000));
    let address = database.interface_on(2, &SIMPLE_FILE_SYSTEM_PROTOCOL_GUID).unwrap();
    assert_eq!(volumes.published[0].address, address);
    let media: Vec<(u64, u32, bool)> = slots
        .slots
        .iter()
        .map(|slot| (slot.address, slot.media.media_id, slot.media.logical_partition))
        .collect();
    assert_eq!(media, vec![(0x1000, 1, false), (0x4000, 2, true)]);
    assert_eq!((slots.slots[0].device.bytes.len(), slots.slots[1].device.bytes.len()), (512, 1024));
    assert_eq!(memory.allocations.last().map(|run| run.start), Some(address));
    let refused = publish_storage(
        &mut database,
        &mut slots,
        &mut volumes,
        &mut memory,
        MemDisk { bytes: vec![0u8; 512] },
        MemDisk { bytes: vec![0u8; 512] },
        &mounted,
        Pages { volume_media: None, ..pages },
    );
    assert_eq!(refused, Published::PartitionRefused(Status::OutOfResources));
}

#[test]
fn entries_become_children() {
    let entry = |name: &str, is_dir: bool, size: u64| Entry { name: name.to_string(), is_dir, size };
    let entries = vec![entry("EFI", true, 0), entry("Kernel", false, 7)];
    let disk = disk();
    let mounted = volume(&disk);
    let children = children_in(&mounted, "A", &entries);
    assert_eq!(children.len(), 2);
    assert_eq!((children[1].path.as_str(), children[1].name.as_str()), ("A\\Kernel", "Kernel"));
    assert_eq!((children[0].is_dir, children[1].size), (true, 7));
}

#[test]
fn files_are_opened_through_the_firmware_protocol() {
    let disk = disk();
    let mounted = volume(&disk);
    let mut memory = memory();
    let mut volumes: Volumes<&Volume> = Volumes::init();
    let mut files = Files::init();
    let protocol = volumes.install(&mut memory, &mounted).unwrap();
    assert_eq!(
        volumes.open_volume(&mut files, &mut memory, protocol + 1, true),
        Err(Status::InvalidParameter)
    );
    let root = volumes.open_volume(&mut files, &mut memory, protocol, true).unwrap();
    let kernel = files.open(&mut memory, root, true, Some(&text("KERNEL")), 1).unwrap();
    assert_eq!(
        files.open(&mut memory, root, true, Some(&text("nope")), 1),
        Err(Status::NotFound)
    );
    assert_eq!(
        files.open(&mut memory, root, true, Some(&text("KERNEL")), 1 << 63),
        Err(Status::WriteProtected)
    );
    assert_eq!(files.open(&mut memory, 5, true, Some(&text("KERNEL")), 1), Err(Status::InvalidParameter));
    let mut size = 4;
    let mut buffer = vec![0u8; 4];
    assert_eq!(files.read(kernel, &mut size, true, &mut buffer, true), Status::Success);
    assert_eq!((size, buffer.as_slice()), (4, b"kern".as_slice()));
    assert_eq!(files.get_position(kernel, true), Ok(4));
    assert_eq!(files.read(kernel, &mut size, true, &mut buffer, true), Status::Success);
    assert_eq!((size, &buffer[0..3]), (3, b"el!".as_slice()));
    assert_eq!(files.set_position(kernel, 8), Status::InvalidParameter);
    assert_eq!(files.set_position(kernel, 7), Status::Success);
    assert_eq!(files.get_position(kernel, true), Ok(7));
    assert_eq!(files.set_position(kernel, 1), Status::Success);
    let mut size = 0;
    let mut none = Vec::new();
    assert_eq!(
        files.get_info(kernel, Some(FILE_INFO_GUID), &mut size, true, &mut none, true),
        Status::BufferTooSmall
    );
    assert_eq!(size, 80 + 14);
    let mut info = vec![0u8; size];
    assert_eq!(
        files.get_info(kernel, Some(FILE_INFO_GUID), &mut size, true, &mut info, true),
        Status::Success
    );
    assert_eq!((get_u64(&info, 0), get_u64(&info, 8)), (94, 7));
    assert_eq!(
        files.get_info(kernel, Some([9; 16]), &mut size, true, &mut info, true),
        Status::Unsupported
    );
    assert_eq!(files.write(kernel), Status::WriteProtected);
    assert_eq!(files.delete(kernel), Status::WriteProtected);
    assert_eq!(files.close(kernel), Status::Success);
    assert_eq!(files.get_position(kernel, true), Err(Status::InvalidParameter));
    assert_eq!(files.close(kernel), Status::InvalidParameter);
}

#[test]
fn partitions_are_listed_and_published() {
    let disk = disk();
    let parts = partitions(&disk).unwrap();
    assert_eq!(parts.len(), 1);
    assert!(parts[0].is_esp());
    let found = vec![
        Found { bus: 0, slot: 2, func: 0, device: disk },
        Found { bus: 0, slot: 3, func: 1, device: MemDisk { bytes: vec![0u8; 51_200] } },
    ];
    let (published, none) = Storage.entry_point(&found);
    assert!(none.is_none());
    assert_eq!((published[0].len(), published[1].len()), (2, 1));
    assert_eq!(published[0][0].media.media_id, 1);
    assert_eq!(published[0][1].media.media_id, 2);
    assert_eq!(published[1][0].media.media_id, 3);
    assert_eq!(
        published[0][0].lines,
        vec![format!("storage: virtio-blk at 00:02.0: {} sectors (read-only)", SIZE / 512)]
    );
    assert_eq!(
        published[0][1].lines,
        vec!["storage: partition 1 (ESP) (39 MiB) published as a FAT volume"]
    );
    assert_eq!(
        published[1][0].lines,
        vec![
            "storage: virtio-blk at 00:03.1: 100 sectors (read-only)",
            "storage: no valid GPT on the disk",
        ]
    );
    assert_eq!((published[0][0].first_lba, published[0][0].block_count), (0, SIZE as u64 / 512));
    assert_eq!((published[0][1].first_lba, published[0][1].block_count), (34, SIZE as u64 / 512 - 67));
    assert!(published[0][1].media.logical_partition && !published[0][0].media.logical_partition);
    assert!(published[0][0].volume.is_none() && published[1][0].volume.is_none());
    let mounted = published[0][1].volume.as_ref().unwrap();
    assert!(mounted.volume.open("\\KERNEL").is_some());
    let nobody: Vec<Found<MemDisk>> = Vec::new();
    let (published, line) = Storage.entry_point(&nobody);
    assert!(published.is_empty());
    assert_eq!(line.unwrap(), "storage: no virtio block devices");
}

#[test]
fn a_volume_says_what_it_is() {
    let disk = disk();
    let mounted = volume(&disk);
    let mut memory = memory();
    let mut volumes: Volumes<&Volume> = Volumes::init();
    let mut files = Files::init();
    let protocol = volumes.install(&mut memory, &mounted).unwrap();
    let root = volumes.open_volume(&mut files, &mut memory, protocol, true).unwrap();
    let mut size = 200;
    let mut info = vec![0u8; 200];
    assert_eq!(
        files.get_info(root, Some(FILE_SYSTEM_INFO_GUID), &mut size, true, &mut info, true),
        Status::Success
    );
    assert_eq!(get_u64(&info, 0), size as u64);
    assert_eq!(info[8], 1);
    assert_eq!(get_u32(&info, 32), 512);
    let mut size = 200;
    assert_eq!(
        files.get_info(root, Some(FILE_SYSTEM_VOLUME_LABEL_GUID), &mut size, true, &mut info, true),
        Status::Success
    );
    let mut buffer = vec![0u8; 8];
    let mut size = 8;
    assert_eq!(files.read(root, &mut size, true, &mut buffer, true), Status::AccessDenied);
}

#[test]
fn an_esp_is_told_by_its_type() {
    let mut part = tinted_boot::platform::storage::gpt::Partition {
        number: 1,
        first_lba: 34,
        last_lba: 99,
        type_guid: [
            0x28, 0x73, 0x2a, 0xc1, 0x1f, 0xf8, 0xd2, 0x11, 0xba, 0x4b, 0x00, 0xa0, 0xc9, 0x3e,
            0xc9, 0x3b,
        ],
        unique_guid: [0; 16],
    };
    assert!(part.is_esp());
    assert_eq!(part.blocks(), 66);
    part.type_guid[15] = 0;
    assert!(!part.is_esp());
}

#[test]
fn a_mounted_volume_is_walked() {
    let disk = disk();
    let mounted = volume(&disk);
    assert_eq!(mounted.fat_type(), FatKind::Fat32);
    assert_eq!(mounted_line(mounted.fat_type()), "[fat] mounted a FAT32 volume");
    // A file is no directory on the way, a directory is no file, and a name that is
    // not there leads nowhere.
    assert!(mounted.open("KERNEL\\BOOT").is_none());
    assert!(mounted.open("EFI\\NONE\\BOOTAA64.EFI").is_none());
    let efi = mounted.open("efi").unwrap();
    assert!(efi.is_dir);
    let mut nothing = vec![9u8; 4];
    assert_eq!(efi.read_at(0, &mut nothing), 0);
    assert_eq!(nothing, vec![9u8; 4]);
    assert!(mounted.open("KERNEL").unwrap().children().is_empty());
    let inner: Vec<(String, String)> = mounted
        .open("EFI\\BOOT")
        .unwrap()
        .children()
        .into_iter()
        .filter(|node| !node.is_dir)
        .map(|node| (node.name, node.path))
        .collect();
    assert_eq!(inner, vec![("BOOTAA64.EFI".to_string(), "EFI\\BOOT\\BOOTAA64.EFI".to_string())]);
    // A read that starts in one cluster and ends in another, and one past the end.
    let image = mounted.open("EFI\\BOOT\\BOOTAA64.EFI").unwrap();
    let mut part = vec![0u8; 3000];
    assert_eq!(image.read_at(400, &mut part), 3000);
    assert_eq!(part, contents()[400..3400]);
    assert_eq!(image.read_at(4990, &mut part), 10);
    assert_eq!(part[..10], contents()[4990..]);
    assert_eq!(image.read_at(5000, &mut part), 0);
    assert_eq!(image.read_at(u64::MAX, &mut part), 0);
}

/// A disk one of whose blocks cannot be read.
struct Worn {
    disk: MemDisk,
    bad: u64,
}

impl BlockDevice for Worn {
    fn block_size(&self) -> u32 {
        512
    }

    fn block_count(&self) -> u64 {
        self.disk.block_count()
    }

    fn read(&self, lba: u64, buf: &mut Vec<u8>) -> Result<(), BlockError> {
        if lba <= self.bad && self.bad < lba + (buf.len() / 512) as u64 {
            return Err(BlockError::Io);
        }
        self.disk.read(lba, buf)
    }

    fn write(&self, _lba: u64, _buf: &[u8]) -> Result<(), BlockError> {
        Err(BlockError::WriteProtected)
    }

    fn is_writable(&self) -> bool {
        false
    }

    fn name(&self) -> &'static str {
        "worn"
    }
}

#[test]
fn a_bad_block_counts_where_it_is_read() {
    let header = Worn { disk: disk(), bad: 1 };
    assert!(find_esp(&header).is_none());
    assert!(partitions(&header).is_none());
    let array = Worn { disk: disk(), bad: 2 };
    assert!(find_esp(&array).is_none());
    assert!(partitions(&array).is_none());
    // The last block of the disk is neither in the table nor in the partition.
    let spare = Worn { disk: disk(), bad: SIZE as u64 / 512 - 1 };
    assert!(find_esp(&spare).is_some());
    assert_eq!(partitions(&spare).unwrap().len(), 1);
    assert!(matches!(mount_esp(&spare), Attempt::Mounted(_, _)));
    // The first block of the partition is where mounting starts.
    let boot = Worn { disk: disk(), bad: 34 };
    assert!(matches!(mount_esp(&boot), Attempt::NoVolume(_)));
    // A block in the middle of a file fails the file, and nothing else.
    let whole = disk();
    let start = (0..SIZE / 512).find(|block| whole.bytes[block * 512..][..512] == contents()[..512]);
    let inside = Worn { disk: whole, bad: start.unwrap() as u64 + 2 };
    let mounted = match mount_esp(&inside) {
        Attempt::Mounted(_, volume) => volume,
        _ => panic!("the ESP mounts"),
    };
    assert_eq!(mounted.open("KERNEL").unwrap().read_all(), b"kernel!");
    let image = mounted.open("EFI\\BOOT\\BOOTAA64.EFI").unwrap();
    assert_eq!(image.size, 5000);
    let mut part = vec![0u8; 1024];
    assert_eq!(image.read_at(0, &mut part), 1024);
    assert_eq!(part, contents()[..1024]);
    assert_eq!(image.read_at(1024, &mut part), 0);
    assert!(image.read_all().len() < 5000);
    let mut adapter = Adapter::new(&inside);
    assert_eq!(adapter.seek_to(SeekFrom::Start((inside.bad - 1) * 512 + 100)), Some((inside.bad - 1) * 512 + 100));
    let mut buffer = vec![0u8; 2048];
    assert_eq!(adapter.read_bytes(&mut buffer), Err(BlockError::Io));
    assert_eq!(adapter.position, inside.bad * 512);
}

/// A disk that is written to, and counts its reads.
struct Live {
    bytes: std::cell::RefCell<Vec<u8>>,
    reads: std::cell::Cell<u64>,
}

impl BlockDevice for Live {
    fn block_size(&self) -> u32 {
        512
    }

    fn block_count(&self) -> u64 {
        (self.bytes.borrow().len() / 512) as u64
    }

    fn read(&self, lba: u64, buf: &mut Vec<u8>) -> Result<(), BlockError> {
        let size = buf.len();
        self.reads.set(self.reads.get() + (size / 512) as u64);
        buf.copy_from_slice(&self.bytes.borrow()[lba as usize * 512..][..size]);
        Ok(())
    }

    fn write(&self, lba: u64, buf: &[u8]) -> Result<(), BlockError> {
        self.bytes.borrow_mut()[lba as usize * 512..][..buf.len()].copy_from_slice(buf);
        Ok(())
    }

    fn is_writable(&self) -> bool {
        true
    }

    fn name(&self) -> &'static str {
        "live"
    }
}

#[test]
fn a_volume_is_read_as_it_is_used() {
    let bytes = disk().bytes;
    let start = (0..SIZE / 512).find(|block| bytes[block * 512..][..7] == *b"kernel!").unwrap();
    let live = Live { bytes: std::cell::RefCell::new(bytes), reads: std::cell::Cell::new(0) };
    let mounted = match mount_esp(&live) {
        Attempt::Mounted(_, volume) => volume,
        _ => panic!("the ESP mounts"),
    };
    // The table, its entries, and the first blocks of the volume.
    assert!(live.reads.get() < 100);
    let kernel = mounted.open("KERNEL").unwrap();
    assert_eq!(kernel.read_all(), b"kernel!");
    let mut block = vec![0u8; 512];
    block[..7].copy_from_slice(b"changed");
    live.write(start as u64, &block).unwrap();
    assert_eq!(kernel.read_all(), b"changed");
    // What is no volume is not read to its end.
    let blank = Live {
        bytes: std::cell::RefCell::new(vec![0u8; SIZE]),
        reads: std::cell::Cell::new(0),
    };
    assert!(mount(&blank).is_none());
    assert!(blank.reads.get() < 100);
}

#[test]
fn a_directory_is_listed_whole() {
    let mut disk = Disk::new(SIZE).unwrap();
    let files = (0..12)
        .map(|at| Source { path: format!("MANY/F{at}").into_bytes(), contents: vec![1] })
        .collect();
    let volume = Fat32::build(disk.partition_sectors(), &files).unwrap();
    disk.copy_partition(&volume);
    disk.write_gpt();
    let disk = MemDisk { bytes: disk.bytes };
    let mounted = self::volume(&disk);
    let children = mounted.open("MANY").unwrap().children();
    assert_eq!(children.iter().filter(|node| !node.is_dir).count(), 12);
    assert_eq!(mounted.open("many\\f11").unwrap().size, 1);
    assert!(mounted.open("many\\f12").is_none());
}

#[test]
fn an_entry_point_is_told() {
    let loaded = Loaded { base: 0x4100_0000, size: 0x3000, entry: 0x4100_1010 };
    assert_eq!(entry_line(&loaded), "[boot] PE entry 0x41001010 (base 0x41000000, 12288 bytes)");
}
