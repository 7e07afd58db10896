use tinted_boot::firmware::uefi::services::{table, SYSTEM_TABLE_SIGNATURE};
use tinted_boot::graphics_output::Display;
use tinted_boot::platform::arch::{
    counter_ticks, wait_for_tick, Arch, ArchProtocols, Protocol, Tick, Timer,
};
use tinted_boot::platform::boot::{
    boot_path, reason_line, starting_line, Action, Boot, Event, Reason,
};
use tinted_boot::platform::gop::{query_mode, Gop};
use tinted_boot::platform::smbios::{
    baseboard_information, bios_information, chassis_handle, enclosure_information,
    processor_information, system_information, Next, RecordType, TintedSmbios,
};
use tinted_boot::platform::storage::device_path::{append_file, disk, length_without_end, partition};
use tinted_boot::platform::storage::gpt::Partition;
use tinted_boot::platform::storage::simplefs::resolve;
use tinted_boot::platform::tables::{bad_signature_line, rechecksum, Named, Tables};
use tinted_boot::status::Status;

#[test]
fn the_timer_is_armed_and_disarmed() {
    let mut arch = Arch::new();
    assert_eq!(counter_ticks(100_000, 62_500_000), 625_000);
    let timer = ArchProtocols.entry_point(&mut arch, Some(0x99), 62_500_000);
    assert_eq!(timer, Ok(Timer::Arm(625_000)));
    assert_eq!(arch.period, 100_000);
    assert_eq!(arch.set_timer_period(1, 1000), Timer::Arm(1));
    assert_eq!(arch.set_timer_period(u64::MAX / 4, 62_500_000), Timer::Arm(u32::MAX as u64));
    assert_eq!(arch.set_timer_period(0, 1000), Timer::Disarm);
    assert_eq!(arch.get_timer_period(true), Ok(0));
    assert_eq!(arch.get_timer_period(false), Err(Status::InvalidParameter));
    assert_eq!(
        ArchProtocols.entry_point(&mut Arch::new(), None, 1),
        Err(Status::NotReady)
    );
    assert_eq!(
        ArchProtocols.registered(Status::Success),
        Ok((Protocol::Metronome, Protocol::Watchdog, Protocol::Timer))
    );
    assert_eq!(ArchProtocols.registered(Status::NotFound), Err(Status::DeviceError));
    assert_eq!(
        ArchProtocols.timer_line(62_500_000),
        "timer: EL1 physical timer on interrupt 30, 62500000 Hz counter"
    );
}

#[test]
fn a_handler_is_registered_once() {
    let mut arch = Arch::new();
    assert_eq!(arch.register_handler(0), Status::InvalidParameter);
    assert_eq!(arch.register_handler(5), Status::Success);
    assert_eq!(arch.register_handler(6), Status::AlreadyStarted);
    assert_eq!(arch.generate_soft_interrupt(), Some(Tick { handler: 5, period: 0 }));
    arch.set_timer_period(10_000_000, 100);
    let interrupt = arch.timer_interrupt(30, 100);
    assert_eq!(interrupt.timer, Timer::Arm(100));
    assert_eq!(interrupt.end_of, None);
    assert_eq!(interrupt.tick, Some(Tick { handler: 5, period: 10_000_000 }));
    assert_eq!(arch.register_handler(0), Status::Success);
    assert_eq!(arch.generate_soft_interrupt(), None);
    assert_eq!(arch.watchdog_set(77), Status::Success);
    assert_eq!(arch.watchdog_get(true), Ok(77));
    assert_eq!(arch.watchdog_get(false), Err(Status::InvalidParameter));
}

#[test]
fn the_metronome_waits_over_the_wrap() {
    let wait = wait_for_tick(10, Some(1), 10_000_000, u64::MAX - 4);
    assert_eq!(wait.ticks, 10);
    assert!(!wait.is_over(4));
    assert!(wait.is_over(5));
}

#[test]
fn the_first_volume_that_loads_is_started() {
    let (mut selection, action) = Boot.begin(true, true, Some(3));
    assert_eq!(action, Action::Load(0));
    assert_eq!(Boot.boot(&mut selection, Event::NotLoaded), Action::Load(1));
    assert_eq!(Boot.boot(&mut selection, Event::Loaded), Action::Start(1));
    assert_eq!(Boot.boot(&mut selection, Event::Returned), Action::Park(Reason::Returned));
    assert_eq!(Boot.boot(&mut selection, Event::LoadedWithoutProtocol), Action::Park(Reason::NoLoadedImage));
    assert_eq!(Boot.boot(&mut selection, Event::NotLoaded), Action::Load(2));
    assert_eq!(Boot.boot(&mut selection, Event::NotLoaded), Action::Park(Reason::NoImage));
    assert_eq!(Boot.begin(false, true, Some(1)).1, Action::Park(Reason::NotCaptured));
    assert_eq!(Boot.begin(true, false, Some(1)).1, Action::Park(Reason::NoParent));
    assert_eq!(Boot.begin(true, true, None).1, Action::Park(Reason::NoFileSystem));
    assert_eq!(Boot.begin(true, true, Some(0)).1, Action::Park(Reason::NoImage));
    assert_eq!(
        reason_line(Reason::NoImage),
        "BDS: no volume carries \\EFI\\BOOT\\BOOTAA64.EFI; halting"
    );
    assert_eq!(
        starting_line(0x1f00),
        "BDS: starting \\EFI\\BOOT\\BOOTAA64.EFI from volume 0x1f00"
    );
}

fn part() -> Partition {
    Partition {
        number: 1,
        first_lba: 34,
        last_lba: 133,
        type_guid: [1; 16],
        unique_guid: [2; 16],
    }
}

#[test]
fn device_paths_extend_one_another() {
    let disk = disk(3, 1);
    let volume = partition(3, 1, &part());
    let nodes = length_without_end(&disk);
    assert_eq!(nodes, disk.len() - 4);
    assert_eq!(&volume[0..nodes], &disk[0..nodes]);
    assert_eq!(&volume[nodes..nodes + 4], &[4, 1, 42, 0]);
    assert_eq!(volume[nodes + 4], 1);
    assert_eq!(volume[nodes + 8], 34);
    assert_eq!(volume[nodes + 16], 100);
    let file = append_file(&volume, "\\A");
    let at = volume.len() - 4;
    assert_eq!(&file[at..], &[4, 4, 10, 0, 0x5c, 0, 0x41, 0, 0, 0, 0x7f, 0xff, 4, 0]);
    let boot = boot_path(&volume);
    assert_eq!(boot.len(), volume.len() + 4 + 2 * 23);
    assert_eq!(&boot[at + 4..at + 8], &[0x5c, 0, 0x45, 0]);
}

#[test]
fn paths_are_resolved() {
    assert_eq!(resolve("EFI\\BOOT", "x"), "EFI\\BOOT\\x");
    assert_eq!(resolve("EFI\\BOOT", "..\\KERNEL"), "EFI\\KERNEL");
    assert_eq!(resolve("EFI\\BOOT", "\\A\\.\\B"), "A\\B");
    assert_eq!(resolve("", "..\\.."), "");
}

#[test]
fn the_display_is_described() {
    let display = Display {
        width: 800,
        height: 600,
        frame_buffer_base: 0x5000_0000,
        frame_buffer_size: 1_920_000,
    };
    let (registry, line) = Gop.entry_point(Some(display));
    assert_eq!(line, "gop: virtio GPU 800x600, framebuffer 0x50000000 (1920000 bytes)");
    let registry = registry.unwrap();
    assert_eq!(registry.info.vertical_resolution, 600);
    assert_eq!(query_mode(&registry, 1, false, false), Err(Status::Unsupported));
    assert_eq!(query_mode(&registry, 0, false, true), Err(Status::InvalidParameter));
    assert_eq!(query_mode(&registry, 0, true, true).unwrap().0, 36);
    assert_eq!(Gop.entry_point(None).1, "gop: no virtio GPU found");
}

#[test]
fn records_name_their_strings() {
    let bios = bios_information();
    assert_eq!(bios.strings[bios.vendor as usize - 1], "Tinted Software");
    assert_eq!(bios.strings[bios.firmware_release_date as usize - 1], "01/01/2026");
    let system = system_information();
    assert_eq!(system.strings[system.product_name as usize - 1], "QEMU AArch64 Virtual Machine");
    assert_eq!(system.uuid[0..4], [0x57, 0x65, 0x69, 0x72]);
    let enclosure = enclosure_information();
    assert_eq!((enclosure.enclosure_type, enclosure.strings.len()), (3, 4));
    let board = baseboard_information(chassis_handle(Some(7)));
    assert_eq!((board.chassis_handle, board.board_type), (7, 10));
    assert_eq!(chassis_handle(None), 0xffff);
    let processor = processor_information(0x1234_5678_410f_d083);
    assert_eq!(processor.processor_id, [0x83, 0xd0, 0x0f, 0x41, 0, 0, 0, 0]);
    assert_eq!(processor.strings[processor.processor_version as usize - 1], "0x410fd083");
    assert_eq!((processor.core_count, processor.processor_family2), (0, 257));
}

#[test]
fn records_are_added_in_order() {
    let smbios = TintedSmbios::new();
    let mut next = smbios.entry_point(None);
    let mut seen = Vec::new();
    while let Next::Add(record) = next {
        seen.push(record.number());
        next = smbios.entry_point(Some((record, record != RecordType::Enclosure)));
    }
    assert_eq!(seen, vec![0, 1, 3, 2, 4]);
    assert_eq!(next, Next::Publish);
    assert_eq!(
        smbios.entry_point(Some((RecordType::System, false))),
        Next::Failed(RecordType::System)
    );
}

#[test]
fn the_system_table_is_found_by_its_signature() {
    let mut tables = Tables { system_table: None };
    assert_eq!(tables.init(None), None);
    let wrong = Named { table: 0x1000, signature: 5 };
    assert_eq!(tables.init(Some(wrong)), None);
    assert_eq!(
        bad_signature_line(&wrong),
        "the DXE core's loaded image names 0x1000 as the system table, but its signature is 0x5"
    );
    assert_eq!(tables.init(Some(Named { table: 0, signature: SYSTEM_TABLE_SIGNATURE })), None);
    let right = Named { table: 0x2000, signature: SYSTEM_TABLE_SIGNATURE };
    assert_eq!(tables.init(Some(right)), Some(0x2000));
    assert_eq!(tables.init(None), Some(0x2000));
    let mut bytes = table(SYSTEM_TABLE_SIGNATURE, &vec![1, 2]);
    let before = bytes.clone();
    rechecksum(&mut bytes, false);
    assert_eq!(bytes, before);
    rechecksum(&mut bytes, true);
    assert_ne!(bytes, before);
}
