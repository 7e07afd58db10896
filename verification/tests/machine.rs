use tinted_boot::bytes::{get_u32, get_u64};
use tinted_boot::firmware::allocator::{free_bytes, FirmwareHeap};
use tinted_boot::firmware::arch::gic;
use tinted_boot::firmware::arch::gicv3::{self, Search};
use tinted_boot::firmware::arch::mmu;
use tinted_boot::firmware::arch::psci::{cpu_on, CPU_ON};
use tinted_boot::firmware::arch::timer::Timer;
use tinted_boot::firmware::arch::vectors::{exception_handler, ExceptionFrame, Kind, Outcome, Source};
use tinted_boot::firmware::boot::images::{file_path_bytes, Firmware, Images, Places};
use tinted_boot::firmware::console::{byte_of, Console, Pl011, UartWriter};
use tinted_boot::firmware::drivers::pci::{
    discover, is_virtio, windows, Access, Assignment, Bar, PciDevice,
};
use tinted_boot::firmware::fdt::Fdt;
use tinted_boot::firmware::hob::{build, Machine};
use tinted_boot::firmware::loader::pe::{load, load_at, size_of_image, PeError};
use tinted_boot::firmware::platform::Platform;
use tinted_boot::firmware::uefi::handles::Database;
use tinted_boot::firmware::uefi::mem::{Layout, Memory};
use tinted_boot::firmware::uefi::services::{DEVICE_PATH_PROTOCOL_GUID, LOADED_IMAGE_PROTOCOL_GUID};
use tinted_boot::firmware::uefi::text::{read_key_stroke, Output};
use tinted_boot::pci::{ecam, enable, needs_high, read16, word_offset, FunctionWords, Scan};
use tinted_boot::platform::console as platform_console;
use tinted_boot::platform::storage::pci as platform_pci;
use tinted_boot::status::Status;
use tinted_boot::utf16::encode;

fn put16(image: &mut [u8], at: usize, value: u16) {
    image[at..at + 2].copy_from_slice(&value.to_le_bytes());
}

fn put32(image: &mut [u8], at: usize, value: u32) {
    image[at..at + 4].copy_from_slice(&value.to_le_bytes());
}

fn put64(image: &mut [u8], at: usize, value: u64) {
    image[at..at + 8].copy_from_slice(&value.to_le_bytes());
}

/// A PE32+ image for AArch64 with a code section and one relocation.
fn pe() -> Vec<u8> {
    let mut image = vec![0u8; 0x600];
    image[0] = b'M';
    image[1] = b'Z';
    put32(&mut image, 0x3c, 0x80);
    let nt = 0x80;
    image[nt..nt + 4].copy_from_slice(b"PE\0\0");
    put16(&mut image, nt + 4, 0xaa64);
    put16(&mut image, nt + 6, 2);
    put16(&mut image, nt + 20, 240);
    put16(&mut image, nt + 24, 0x20b);
    put32(&mut image, nt + 40, 0x1010);
    put64(&mut image, nt + 48, 0x1_0000);
    put32(&mut image, nt + 56, 0x1000);
    put32(&mut image, nt + 60, 0x200);
    put32(&mut image, nt + 80, 0x3000);
    put32(&mut image, nt + 84, 0x200);
    put16(&mut image, nt + 92, 10);
    put32(&mut image, nt + 132, 16);
    put32(&mut image, nt + 176, 0x2000);
    put32(&mut image, nt + 180, 12);
    let table = nt + 24 + 240;
    image[table..table + 5].copy_from_slice(b".text");
    put32(&mut image, table + 8, 0x200);
    put32(&mut image, table + 12, 0x1000);
    put32(&mut image, table + 16, 0x200);
    put32(&mut image, table + 20, 0x200);
    let second = table + 40;
    image[second..second + 6].copy_from_slice(b".reloc");
    put32(&mut image, second + 8, 12);
    put32(&mut image, second + 12, 0x2000);
    put32(&mut image, second + 16, 0x200);
    put32(&mut image, second + 20, 0x400);
    put64(&mut image, 0x208, 0x1_1234);
    put32(&mut image, 0x400, 0x1000);
    put32(&mut image, 0x404, 12);
    put16(&mut image, 0x408, 0xa008);
    put16(&mut image, 0x40a, 0);
    image
}

fn memory() -> Memory {
    let layout = Layout {
        ram_base: 0x4000_0000,
        stack_top: 0x4010_0000,
        heap_base: 0x4020_0000,
        heap_size: 0x10_0000,
    };
    Memory::new(layout, 0x4080_0000)
}

#[test]
fn an_image_is_placed_and_relocated() {
    let bytes = pe();
    assert_eq!(size_of_image(&bytes), Ok(0x3000));
    let (loaded, image) = load_at(&bytes, 0x5_0000).unwrap();
    assert_eq!((loaded.base, loaded.size, loaded.entry), (0x5_0000, 0x3000, 0x5_1010));
    assert_eq!(&image[0..2], b"MZ");
    assert_eq!(get_u64(&image, 0x1008), 0x5_1234);
    // Where it asked to be, nothing moves.
    let (_, image) = load_at(&bytes, 0x1_0000).unwrap();
    assert_eq!(get_u64(&image, 0x1008), 0x1_1234);
}

#[test]
fn images_that_cannot_run_are_refused() {
    let mut machine = pe();
    put16(&mut machine, 0x84, 0x8664);
    assert!(matches!(load_at(&machine, 0), Err(PeError::WrongMachine)));
    let mut subsystem = pe();
    put16(&mut subsystem, 0x80 + 92, 3);
    assert!(matches!(load_at(&subsystem, 0), Err(PeError::WrongSubsystem)));
    let mut relocation = pe();
    put16(&mut relocation, 0x408, 0x3008);
    assert!(matches!(load_at(&relocation, 0), Err(PeError::UnsupportedRelocation)));
    let mut fixed = pe();
    put32(&mut fixed, 0x80 + 180, 0);
    assert!(matches!(load_at(&fixed, 0), Err(PeError::UnsupportedRelocation)));
    assert!(matches!(load_at(b"MZ", 0), Err(PeError::NotPe)));
    let mut large = pe();
    put32(&mut large, 0x80 + 80, 0x7000_0000);
    let mut memory = memory();
    assert!(matches!(load(&mut memory, &large), Err(PeError::OutOfMemory)));
    let (loaded, _) = load(&mut memory, &pe()).unwrap();
    assert_eq!(loaded.base, 0x4010_0000);
    assert_eq!(memory.allocations[0].pages, 3);
}

#[test]
fn a_loaded_image_gets_a_handle() {
    let mut memory = memory();
    let mut images = Images::init();
    let mut database = Database::init();
    let firmware = Firmware { image_handle: 1, system_table: 0x99 };
    let places = Places { protocol: 0x1000, device_path: 0x2000 };
    let loaded = load(&mut memory, &pe()).map(|(loaded, _)| loaded);
    let handle = images.load_image(&mut database, firmware, loaded, places).unwrap();
    assert_eq!(database.interface_on(handle, &LOADED_IMAGE_PROTOCOL_GUID), Some(0x1000));
    assert_eq!(database.interface_on(handle, &DEVICE_PATH_PROTOCOL_GUID), Some(0x2000));
    assert_eq!(images.start_image(handle), Ok(0x4010_1010));
    assert_eq!(images.start_image(99), Err(Status::InvalidParameter));
    assert_eq!(images.images[0].loaded.path, vec![0x7f, 0xff, 4, 0]);
    assert_eq!(
        images.load_image(&mut database, firmware, Err(PeError::NotPe), places),
        Err(Status::LoadError)
    );
    assert_eq!(images.unload_image(), Status::Unsupported);
    assert_eq!(Images::refuses(true, true, 0), Some(Status::InvalidParameter));
    assert_eq!(Images::refuses(true, true, 5), None);
}

#[test]
fn the_boot_image_knows_its_file() {
    let mut memory = memory();
    let mut images = Images::init();
    let mut database = Database::init();
    let firmware = Firmware { image_handle: 1, system_table: 0x99 };
    let places = Places { protocol: 0x1000, device_path: 0x2000 };
    let (loaded, _) = load(&mut memory, &pe()).unwrap();
    let handle = images.run(
        &mut database,
        firmware,
        loaded,
        places,
        "\\A",
        7,
        0x3000,
        b"quiet".to_vec(),
        0x4000,
    );
    let image = &images.images[0].loaded;
    assert_eq!(image.path, vec![4, 4, 8, 0, 0x5c, 0, 0x41, 0, 0x7f, 0xff, 4, 0]);
    assert_eq!((image.device_handle, image.file_path), (7, 0x3000));
    assert_eq!((image.load_options, image.options.as_slice()), (0x4000, b"quiet".as_slice()));
    assert_eq!((image.revision, image.parent_handle, image.system_table), (0x1000, 1, 0x99));
    assert_eq!(database.interface_on(handle, &DEVICE_PATH_PROTOCOL_GUID), Some(0x3000));
    assert_eq!(file_path_bytes("\\A"), Some(4096));
}

#[test]
fn the_hob_list_describes_memory() {
    let machine = Machine {
        ram: (0x4000_0000, 0x8000_0000),
        hob_heap: (0x5000_0000, 0x5010_0000),
        address_bits: 40,
        dxe_core: (0x6000_0000, 0x10_0000, 0x6000_1000),
        firmware_volume: (0x7000_0000, 0x20_0000),
        stack: (0x4010_0000, 0x1_0000),
    };
    let area = build(
        0x4400_0000,
        &machine,
        &[(0x7000_0000, 0x7020_0000), (0x3000_0000, 0x4020_0000)],
        &[(0x0800_0000, 0x0c00_0000)],
    )
    .unwrap();
    // The hand-off table comes first, and says where the list ends.
    assert_eq!((area[0], get_u32(&area, 8)), (1, 9));
    assert_eq!(get_u64(&area, 16), 0x8000_0000);
    assert_eq!(get_u64(&area, 24), 0x4000_0000);
    assert_eq!(get_u64(&area, 48), 0x4400_0000 + area.len() as u64);
    let mut at = 0;
    let mut memory = Vec::new();
    while at < area.len() {
        let kind = u16::from_le_bytes([area[at], area[at + 1]]);
        let size = u16::from_le_bytes([area[at + 2], area[at + 3]]) as usize;
        if kind == 0x0d {
            let start = get_u64(&area, at + 32);
            memory.push((get_u32(&area, at + 24), start, start + get_u64(&area, at + 40)));
        }
        at += size;
    }
    assert_eq!(
        memory,
        vec![
            (5, 0x4000_0000, 0x4020_0000),
            (0, 0x4020_0000, 0x5000_0000),
            (0, 0x5010_0000, 0x7000_0000),
            (5, 0x7000_0000, 0x7020_0000),
            (0, 0x7020_0000, 0x8000_0000),
            (1, 0x0800_0000, 0x0c00_0000),
        ]
    );
    let many: Vec<(u64, u64)> = (0..100).map(|i| (i * 4096, i * 4096 + 4096)).collect();
    assert!(build(0, &machine, &[], &many).is_none());
}

fn be32(out: &mut Vec<u8>, value: u32) {
    out.extend_from_slice(&value.to_be_bytes());
}

fn property(out: &mut Vec<u8>, name: u32, value: &[u8]) {
    be32(out, 3);
    be32(out, value.len() as u32);
    be32(out, name);
    out.extend_from_slice(value);
    while out.len() % 4 != 0 {
        out.push(0);
    }
}

fn tree() -> Vec<u8> {
    let strings = b"#address-cells\0#size-cells\0reg\0bootargs\0device_type\0";
    let mut structure = Vec::new();
    be32(&mut structure, 1);
    be32(&mut structure, 0);
    property(&mut structure, 0, &2u32.to_be_bytes());
    property(&mut structure, 15, &2u32.to_be_bytes());
    be32(&mut structure, 1);
    structure.extend_from_slice(b"memory@40000000\0");
    property(&mut structure, 40, b"memory\0");
    let mut reg = Vec::new();
    reg.extend_from_slice(&0x4000_0000u64.to_be_bytes());
    reg.extend_from_slice(&0x1000_0000u64.to_be_bytes());
    property(&mut structure, 27, &reg);
    be32(&mut structure, 2);
    be32(&mut structure, 1);
    structure.extend_from_slice(b"chosen\0\0");
    property(&mut structure, 31, b"quiet splash\0");
    be32(&mut structure, 2);
    be32(&mut structure, 2);
    be32(&mut structure, 9);
    let mut blob = Vec::new();
    be32(&mut blob, 0xd00d_feed);
    be32(&mut blob, (56 + structure.len() + strings.len()) as u32);
    be32(&mut blob, 56);
    be32(&mut blob, 56 + structure.len() as u32);
    be32(&mut blob, 40);
    be32(&mut blob, 17);
    be32(&mut blob, 16);
    be32(&mut blob, 0);
    be32(&mut blob, strings.len() as u32);
    be32(&mut blob, structure.len() as u32);
    blob.extend_from_slice(&[0u8; 16]);
    blob.extend_from_slice(&structure);
    blob.extend_from_slice(strings);
    blob
}

#[test]
fn the_device_tree_tells_memory_and_arguments() {
    let blob = tree();
    let fdt = Fdt::new(&blob).unwrap();
    assert_eq!(fdt.memory(), Some((0x4000_0000, 0x1000_0000)));
    assert_eq!(fdt.bootargs(), Some("quiet splash".to_string()));
    assert!(Fdt::new(&blob[4..]).is_none());
    assert!(Fdt::new(&[]).is_none());
}

#[test]
fn the_processors_and_ram_are_remembered() {
    let mut platform = Platform::new();
    platform.set_cpus(&[0, 1, 0x100]);
    assert_eq!((platform.cpu_count(), platform.mpidr(2)), (3, 0x100));
    platform.set_ram_end(0x8000_0000);
    assert_eq!(platform.ram_end(), 0x8000_0000);
    let call = cpu_on(3, 4, 5);
    assert_eq!((call.function, call.first, call.second, call.third), (CPU_ON, 3, 4, 5));
    let heap = FirmwareHeap { size: 100, used: 40 };
    assert_eq!(free_bytes(&heap), 60);
}

#[test]
fn the_interrupt_controller_is_brought_up() {
    let writes = gic::init(&[30, 33]);
    assert_eq!((writes[0].address, writes[0].value), (0x0800_0000, 0));
    assert_eq!((writes[1].address, writes[1].value), (0x0801_0000, 0));
    assert!(writes.iter().any(|w| (w.address, w.value) == (0x0800_0100, 1 << 30)));
    assert!(writes.iter().any(|w| (w.address, w.value) == (0x0800_0104, 2)));
    assert!(writes.iter().any(|w| (w.address, w.value) == (0x0800_0284, 2)));
    assert!(writes.iter().any(|w| (w.address, w.value) == (0x0800_0820, 0xff00)));
    let last = writes[writes.len() - 1];
    assert_eq!((last.address, last.value), (0x0800_0000, 1));
    // Interrupts that share a register keep their targets and groups.
    let shared = gic::init(&[33, 34]);
    assert!(shared.iter().any(|w| (w.address, w.value) == (0x0800_0820, 0x00ff_ff00)));
    assert!(shared.iter().any(|w| (w.address, w.value) == (0x0800_0084, 6)));
    assert!(gic::handle_irq(1023).is_none());
    let dispatch = gic::handle_irq(30).unwrap();
    assert!(dispatch.timer);
    assert_eq!((dispatch.end.address, dispatch.end.value), (0x0801_0010, 30));
    assert!(!gic::handle_irq(33).unwrap().timer);
    assert_eq!(gic::pending_register(33), 0x0800_0204);
    assert!(gic::is_pending(33, 2) && !gic::is_pending(33, 1));
}

#[test]
fn the_redistributor_is_found_by_affinity() {
    let mut search = Search::start(1);
    assert_eq!(search.typer_address(), 0x080a_0008);
    assert_eq!(search.step(0), gicv3::Step::Again);
    assert_eq!(search.typer_address(), 0x080c_0008);
    assert_eq!(search.step(1 << 32), gicv3::Step::Found(0x080c_0000));
    let mut search = Search::start(9);
    assert_eq!(search.step(0x10), gicv3::Step::Found(0x080a_0000));
    let plan = gicv3::init(0x080a_0000);
    assert_eq!(plan.priority_address, 0x080b_041e);
    assert_eq!((plan.priority, plan.enable), (0xa0, 1 << 30));
    assert_eq!(plan.enable_address, 0x080b_0100);
}

#[test]
fn the_page_tables_cover_the_machine() {
    let mut table = mmu::init(0x8000_0000).unwrap();
    assert!(mmu::map_device_window(&mut table, 0x0e00_0000, 0x0e00_1000));
    assert!(!mmu::map_device_window(&mut table, 0x80_0000_0000, 0x80_0000_2000));
    assert!(mmu::init(0x81_0000_0000).is_none());
    assert!(mmu::init(0x1000).is_none());
    assert_eq!(mmu::sctlr_value(0x8_0002), 0xf0d0_1805);
}

#[test]
fn the_timer_counts_and_converts() {
    let mut timer = Timer::new(62_500_000);
    assert_eq!(timer.period_ticks(), 625_000);
    assert_eq!(timer.ticks_from_ns(1_000_000), 62_500);
    assert_eq!(timer.now_100ns(62_500_000), 10_000_000);
    assert_eq!(timer.on_irq(625_000), 625_000);
    assert_eq!(timer.ticks(), 1);
    assert!(timer.stall_microseconds(0, 5).is_none());
    let stall = timer.stall_microseconds(10, 100).unwrap();
    assert_eq!(stall.ticks, 625);
    assert!(!stall.is_over(724));
    assert!(stall.is_over(725));
}

#[test]
fn a_trap_is_reported() {
    let mut frame = ExceptionFrame {
        x: [0; 31],
        vector: 4,
        sp_el0: 0,
        elr: 0x4000_1000,
        spsr: 5,
        esr: 0x9600_0045,
        far: 0xdead,
    };
    assert_eq!((frame.source(), frame.kind()), (Source::CurrentSpX, Kind::Synchronous));
    assert_eq!(frame.exception_class(), 0x25);
    match exception_handler(&frame) {
        Outcome::Halt(text) => {
            assert!(text.contains("esr=0x0000000096000045 elr=0x0000000040001000"));
            assert!(text.contains("exception class 0x25"));
        }
        Outcome::Dispatch => panic!("a fault halts"),
    }
    frame.vector = 5;
    assert!(matches!(exception_handler(&frame), Outcome::Dispatch));
}

#[test]
fn the_configuration_space_is_addressed() {
    assert_eq!(ecam(1, 2, 3, 0x10), 0x40_1011_3010);
    assert_eq!((word_offset(0x0e), read16(0xaabb_ccdd, 0x0e)), (0x0c, 0xaabb));
    assert_eq!(enable(0), Some(6));
    assert_eq!(enable(6), None);
    assert!(needs_high(0x0c) && !needs_high(0));
}

#[test]
fn registers_are_placed_in_their_windows() {
    let mut places = windows();
    let (mut assignment, off) = Assignment::begin(7);
    assert_eq!(off, 4);
    assert_eq!(assignment.register(), Some(0x10));
    let plan = assignment.place(&mut places, 0x0c, 0xffff_c00c, 0xffff_ffff);
    assert_eq!((plan.size, plan.assigned), (0x4000, Some(0x1000_0000)));
    assert_eq!((plan.low, plan.high, plan.registers), (0x1000_000c, Some(0), 2));
    assert_eq!(assignment.register(), Some(0x18));
    let plan = assignment.place(&mut places, 1, 0xffff_ffe1, 0);
    assert_eq!((plan.size, plan.assigned, plan.low), (0x20, Some(0x3eff_0000), 0x3eff_0001));
    // A window of four bytes, and one of eight behind it, at their own addresses.
    let plan = assignment.place(&mut places, 1, 0xffff_fffd, 0);
    assert_eq!((plan.size, plan.assigned, plan.low), (4, Some(0x3eff_0020), 0x3eff_0021));
    let plan = assignment.place(&mut places, 1, 0xffff_fff9, 0);
    assert_eq!((plan.size, plan.assigned, plan.low), (8, Some(0x3eff_0028), 0x3eff_0029));
    let plan = assignment.place(&mut places, 0, 0, 0);
    assert_eq!((plan.size, plan.assigned), (0, None));
    assert_eq!(assignment.finish(), 7);
    let mut places = platform_pci::windows();
    assert!(platform_pci::Assignment::begin(0x01_0000, 7).is_none());
    let (mut assignment, _) = platform_pci::Assignment::begin(0, 7).unwrap();
    let plan = assignment.place(&mut places, 0, 0xffff_f000, 0);
    assert_eq!(plan.size, 0x1000);
    let plan = assignment.place(&mut places, 0, 0xffff_f000, 0);
    assert_eq!(plan.registers, 1);
    let plan = assignment.place(&mut places, 1, 0xffff_fffd, 0);
    assert_eq!((plan.assigned, plan.low), (Some(0x1000), 0x1001));
    // What is left of an address beside the two low bits of a port is no flag.
    let plan = assignment.place(&mut places, 0x2005, 0xffff_fffd, 0);
    assert_eq!((plan.assigned, plan.low), (Some(0x1004), 0x1005));
}

#[test]
fn the_first_enumeration_stays() {
    let absent = FunctionWords { id: 0xffff_ffff, class: 0, header: 0, buses: 0 };
    let mut words = vec![absent; 256];
    words[8] = FunctionWords { id: 0x1042_1af4, class: 0x0100_0000, header: 0, buses: 0 };
    let mut enumeration = platform_pci::Enumeration::new();
    assert!(enumeration.is_due() && enumeration.list().is_empty());
    let mut scan = Scan::start(false);
    scan.scan_bus(&words);
    enumeration.keep(&scan);
    assert!(!enumeration.is_due());
    let first = enumeration.list();
    assert_eq!((first.len(), first[0].slot, first[0].vendor_id), (1, 1, 0x1af4));
    enumeration.keep(&Scan::start(false));
    assert_eq!(enumeration.list(), first);
}

#[test]
fn a_base_register_is_decoded() {
    let device = PciDevice {
        bus: 0,
        slot: 1,
        func: 0,
        vendor_id: 0x1af4,
        device_id: 0x1042,
        class: 1,
        subclass: 0,
        prog_if: 0,
    };
    assert_eq!(device.bar(0, 0, 0, 0), Bar::Absent);
    assert_eq!(
        device.bar(0x1000_0000, 0xffff_f000, 0, 0),
        Bar::Mem32 { address: 0x1000_0000, size: 0x1000, prefetchable: false }
    );
    assert_eq!(
        device.bar(0x1000_0002, 0xffff_f002, 0, 0),
        Bar::Mem32 { address: 0x1000_0000, size: 0x1000, prefetchable: false }
    );
    assert_eq!(device.bar(0x1000_0006, 0xffff_f006, 0, 0), Bar::Absent);
    assert_eq!(device.bar(0x1001, 0xffff_ffe1, 0, 0), Bar::Io { port: 0x1000, size: 0x20 });
    assert_eq!(
        device.bar(0x1000_000c, 0xffff_c00c, 1, 0xffff_ffff),
        Bar::Mem64 { address: 0x1_1000_0000, size: 0x4000, prefetchable: true }
    );
    assert_eq!(device.address(), (0, 1, 0));
    assert_eq!(device.read32(4), 0x40_1000_8004);
}

/// Probes a register of a device whose registers hold `values` and leave the bits of
/// `writable` to be written.
fn probed(index: usize, values: &mut [u32; 7], writable: &[u32; 7]) -> (Bar, Vec<(u16, u32)>) {
    let device = PciDevice {
        bus: 0,
        slot: 1,
        func: 0,
        vendor_id: 0x1af4,
        device_id: 0x1042,
        class: 1,
        subclass: 0,
        prog_if: 0,
    };
    let mut probe = device.probe(index);
    let mut writes = Vec::new();
    loop {
        let mut read = 0;
        match probe.access() {
            Access::Read(offset) => read = values[(offset as usize - 0x10) / 4],
            Access::Write(offset, value) => {
                let at = (offset as usize - 0x10) / 4;
                values[at] = (value & writable[at]) | (values[at] & !writable[at]);
                writes.push((offset, value));
            }
            Access::Found(bar) => return (bar, writes),
        }
        probe.done(read);
    }
}

#[test]
fn a_probe_puts_the_registers_back() {
    let before = [0xfebf_1000, 0, 0, 0, 0x1000_000c, 0x0000_0080, 0];
    let writable = [0xffff_f000, 0, 0, 0, 0xffff_c000, 0xffff_ffff, 0];
    let mut values = before;
    let (bar, writes) = probed(4, &mut values, &writable);
    assert_eq!(bar, Bar::Mem64 { address: 0x80_1000_0000, size: 0x4000, prefetchable: true });
    assert_eq!(
        writes,
        vec![(0x20, 0xffff_ffff), (0x20, 0x1000_000c), (0x24, 0xffff_ffff), (0x24, 0x80)]
    );
    assert_eq!(values, before);
    let (bar, writes) = probed(0, &mut values, &writable);
    assert_eq!(bar, Bar::Mem32 { address: 0xfebf_1000, size: 0x1000, prefetchable: false });
    assert_eq!(writes, vec![(0x10, 0xffff_ffff), (0x10, 0xfebf_1000)]);
    assert_eq!(values, before);
    assert_eq!(probed(2, &mut values, &writable), (Bar::Absent, vec![]));
}

#[test]
fn a_bus_is_walked() {
    let absent = FunctionWords { id: 0xffff_ffff, class: 0, header: 0, buses: 0 };
    let mut words = vec![absent; 256];
    words[8] = FunctionWords { id: 0x1042_1af4, class: 0x0100_0000, header: 0, buses: 0 };
    words[9] = FunctionWords { id: 0x1042_1af4, class: 0x0100_0000, header: 0, buses: 0 };
    words[16] = FunctionWords { id: 0x0001_8086, class: 0x0604_0000, header: 0x0081_0000, buses: 0x0002_0100 };
    words[17] = FunctionWords { id: 0x0001_8086, class: 0, header: 0, buses: 0 };
    let mut scan = Scan::start(false);
    assert_eq!(scan.next_bus(), Some(0));
    scan.scan_bus(&words);
    let slots: Vec<(u8, u8)> = scan.found.iter().map(|f| (f.slot, f.func)).collect();
    assert_eq!(slots, vec![(1, 0), (2, 0), (2, 1)]);
    assert_eq!(scan.next_bus(), Some(1));
    let devices = discover(&scan);
    assert_eq!((devices[0].vendor_id, devices[0].device_id), (0x1af4, 0x1042));
    assert_eq!((devices[1].class, devices[1].subclass), (6, 4));
    assert!(is_virtio(&devices[0]));
    assert!(!is_virtio(&devices[1]));
    assert!(is_virtio(&PciDevice { class: 3, ..devices[1] }));
}

#[test]
fn the_serial_port_is_polled() {
    let uart = Pl011::new(0x0900_0000);
    assert!(uart.write_byte(0x20, 0x41).is_none());
    let write = uart.write_byte(0, 0x41).unwrap();
    assert_eq!((write.address, write.value), (0x0900_0000, 0x41));
    assert_eq!(uart.flags_address(), 0x0900_0018);
    assert!(uart.try_read_byte(0x10).is_none());
    assert_eq!(uart.try_read_byte(0), Some(0x0900_0000));
    assert!(uart.has_input(0) && !uart.has_input(0x10));
    assert_eq!(byte_of(0x1_0041), 0x41);
    let writer = UartWriter { uart };
    assert!(writer.write_byte(0, 1).is_some());
}

#[test]
fn the_console_starts_once() {
    let mut console = Console::new();
    assert!(!console.ready());
    assert!(!console.init().is_empty());
    assert!(console.ready());
    console.write(b"hi\n");
    console.emergency_hex(0x1f);
    assert!(console.outgoing.starts_with(b"hi"));
    assert!(console.outgoing.ends_with(b"1f"));
}

fn units(text: &str) -> Vec<u16> {
    let mut out = encode(text);
    out.push(0);
    out
}

#[test]
fn text_goes_out_and_moves_the_cursor() {
    let mut output = Output::init();
    assert_eq!(output.output_string(Some(&units("A\u{e9}\r\n\tB"))), Status::Success);
    assert_eq!(output.sent, b"A\xc3\xa9\r\n        B");
    assert_eq!((output.mode.cursor_column, output.mode.cursor_row), (8, 1));
    assert_eq!(output.output_string(None), Status::InvalidParameter);
    assert_eq!(output.query_mode(0, true), Ok((80, 25)));
    assert_eq!(output.query_mode(1, true), Err(Status::Unsupported));
    assert_eq!(output.set_mode(1), Status::Unsupported);
    assert_eq!(output.set_cursor_position(3, 4), Status::Success);
    assert_eq!((output.mode.cursor_column, output.mode.cursor_row), (3, 4));
    assert_eq!(output.enable_cursor(false), Status::Success);
    assert!(!output.mode.cursor_visible);
    assert_eq!(output.output_reset(), Status::Success);
    assert_eq!(output.mode.cursor_column, 0);
    let mut keyboard = tinted_boot::firmware::uefi::text::input();
    assert_eq!(read_key_stroke(&mut keyboard, true), Err(Status::NotReady));
    keyboard.receive(0x61);
    assert_eq!(read_key_stroke(&mut keyboard, false), Err(Status::InvalidParameter));
    assert_eq!(read_key_stroke(&mut keyboard, true).unwrap().unicode, 0x61);
}

#[test]
fn the_platform_console_wraps() {
    let mut console = platform_console::Console::new();
    let text: String = "x".repeat(81);
    assert_eq!(console.output_string(Some(&units(&text))), Status::Success);
    assert_eq!((console.mode.cursor_column, console.mode.cursor_row), (1, 1));
    assert_eq!(console.output_string(Some(&units("\u{8}\u{8}"))), Status::Success);
    assert_eq!(console.mode.cursor_column, 0);
    assert_eq!(console.sent.len(), 81 + 3);
    assert_eq!(console.test_string(), Status::Success);
    assert_eq!(console.query_mode(0, true), Ok((80, 25)));
}
