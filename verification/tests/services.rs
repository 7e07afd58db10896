use tinted_boot::bytes::{get_u32, get_u64};
use tinted_boot::crc::crc32;
use tinted_boot::firmware::arch::psci::{SYSTEM_OFF, SYSTEM_RESET};
use tinted_boot::firmware::uefi::calendar::{civil_from_epoch, epoch_from_civil, Civil};
use tinted_boot::firmware::uefi::gop;
use tinted_boot::firmware::uefi::handles::Database;
use tinted_boot::firmware::uefi::runtime::{
    convert_pointer, get_time, reset_system, set_time, set_virtual_address_map, Time,
    UNSPECIFIED_TIMEZONE,
};
use tinted_boot::firmware::uefi::services::{
    build_runtime_services, calculate_crc32, copy_mem, init, recompute_crc, rt_properties,
    set_mem, set_watchdog_timer, table, unsupported, Addresses, Counters, RuntimeServices,
    SystemTable, DEVICE_TREE_GUID, GRAPHICS_OUTPUT_PROTOCOL_GUID, RT_PROPERTIES_TABLE_GUID,
    RUNTIME_SERVICES_SIGNATURE, SYSTEM_TABLE_SIGNATURE, VENDOR,
};
use tinted_boot::graphics_output::{blt, set_mode, Display};
use tinted_boot::status::Status;

fn addresses() -> Addresses {
    Addresses {
        vendor: 0x11,
        con_in: 0x22,
        con_out: 0x33,
        runtime_services: 0x44,
        boot_services: 0x55,
        configuration_table: 0x66,
    }
}

fn checks(bytes: &[u8]) -> bool {
    let mut copy = bytes.to_vec();
    for at in 16..20 {
        copy[at] = 0;
    }
    get_u32(bytes, 16) == crc32(&copy)
}

#[test]
fn the_system_table_is_laid_out() {
    let mut database = Database::init();
    let system = init(&mut database, addresses(), 0x77, 0x88);
    assert_eq!(system.bytes.len(), 120);
    assert_eq!(get_u64(&system.bytes, 0), SYSTEM_TABLE_SIGNATURE);
    assert_eq!(get_u32(&system.bytes, 8), 0x0002_0046);
    assert_eq!(get_u32(&system.bytes, 12), 120);
    assert_eq!(get_u64(&system.bytes, 24), 0x11);
    assert_eq!(get_u32(&system.bytes, 32), 0x0001_0001);
    assert_eq!(get_u64(&system.bytes, 40), 1);
    assert_eq!(get_u64(&system.bytes, 48), 0x22);
    assert_eq!(get_u64(&system.bytes, 64), 0x33);
    assert_eq!(get_u64(&system.bytes, 80), 0x33);
    assert_eq!(get_u64(&system.bytes, 88), 0x44);
    assert_eq!(get_u64(&system.bytes, 96), 0x55);
    assert_eq!(get_u64(&system.bytes, 104), 2);
    assert_eq!(get_u64(&system.bytes, 112), 0x66);
    assert!(checks(&system.bytes));
    assert_eq!(system.tables[0].guid, RT_PROPERTIES_TABLE_GUID);
    assert_eq!(system.tables[0].table, 0x77);
    assert_eq!(system.tables[1].guid, DEVICE_TREE_GUID);
    assert_eq!(system.tables[1].table, 0x88);
    assert_eq!(VENDOR[0], 0x4c);
    assert_eq!(VENDOR[16], 0);
}

#[test]
fn without_a_device_tree_none_is_published() {
    let mut database = Database::init();
    let system = init(&mut database, addresses(), 0x77, 0);
    assert_eq!(system.tables.len(), 1);
    assert_eq!(database.count, 1);
}

#[test]
fn a_configuration_table_is_replaced_by_its_guid() {
    let mut system = SystemTable::new(addresses(), 1);
    assert_eq!(system.install_configuration_table(Some([1; 16]), 5), Status::Success);
    assert_eq!(system.install_configuration_table(Some([2; 16]), 6), Status::Success);
    assert_eq!(system.install_configuration_table(Some([1; 16]), 7), Status::Success);
    assert_eq!(system.install_configuration_table(None, 7), Status::InvalidParameter);
    assert_eq!(system.tables.len(), 2);
    assert_eq!(system.tables[0].table, 7);
    assert_eq!(get_u64(&system.bytes, 104), 2);
    assert!(checks(&system.bytes));
    let mut at = 3u8;
    while at < 17 {
        assert_eq!(system.install_config_table(&[at; 16], 1), Status::Success);
        at += 1;
    }
    assert_eq!(system.install_config_table(&[99; 16], 1), Status::OutOfResources);
}

#[test]
fn a_table_checks_after_it_was_sealed() {
    let mut bytes = table(RUNTIME_SERVICES_SIGNATURE, &vec![1, 2, 3]);
    assert_eq!(bytes.len(), 48);
    assert_eq!(get_u64(&bytes, 40), 3);
    assert_eq!(get_u32(&bytes, 16), 0);
    recompute_crc(&mut bytes);
    assert!(checks(&bytes));
    let once = bytes.clone();
    recompute_crc(&mut bytes);
    assert_eq!(bytes, once);
}

#[test]
fn the_runtime_services_stand_in_order() {
    let services = RuntimeServices {
        get_time: 1,
        set_time: 2,
        get_wakeup_time: 3,
        set_wakeup_time: 4,
        set_virtual_address_map: 5,
        convert_pointer: 6,
        get_variable: 7,
        get_next_variable_name: 8,
        set_variable: 9,
        get_next_high_mono_count: 10,
        reset_system: 11,
        update_capsule: 12,
        query_capsule_capabilities: 13,
        query_variable_info: 14,
    };
    let bytes = build_runtime_services(&services);
    assert_eq!(bytes.len(), 136);
    assert!(checks(&bytes));
    let mut at = 0;
    while at < 14 {
        assert_eq!(get_u64(&bytes, 24 + 8 * at), at as u64 + 1);
        at += 1;
    }
}

#[test]
fn no_runtime_service_survives() {
    assert_eq!(rt_properties(), vec![1, 0, 8, 0, 0, 0, 0, 0]);
}

#[test]
fn memory_is_copied_and_set() {
    let mut memory = vec![1u8, 2, 3, 4, 5];
    copy_mem(&mut memory, 1, 0, 4);
    assert_eq!(memory, vec![1, 1, 2, 3, 4]);
    copy_mem(&mut memory, 0, 2, 3);
    assert_eq!(memory, vec![2, 3, 4, 3, 4]);
    set_mem(&mut memory, 1, 3, 9);
    assert_eq!(memory, vec![2, 9, 9, 9, 4]);
}

#[test]
fn small_services_answer() {
    assert_eq!(calculate_crc32(Some(b"123456789"), 9, true), Ok(0xcbf4_3926));
    assert_eq!(calculate_crc32(None, 0, true), Ok(0));
    assert_eq!(calculate_crc32(None, 4, true), Err(Status::InvalidParameter));
    assert_eq!(calculate_crc32(Some(b""), 0, false), Err(Status::InvalidParameter));
    assert_eq!(set_watchdog_timer(), Status::Success);
    assert_eq!(unsupported(), Status::Unsupported);
    assert_eq!(convert_pointer(), Status::Unsupported);
    let mut counters = Counters::new();
    assert_eq!(counters.get_next_monotonic_count(true), Ok(1));
    assert_eq!(counters.get_next_monotonic_count(true), Ok(2));
    assert_eq!(counters.get_next_monotonic_count(false), Err(Status::InvalidParameter));
    assert_eq!(counters.get_next_high_monotonic_count(true), Ok(1));
    let mut last = Counters { next: u64::MAX, high: u32::MAX };
    assert_eq!(last.get_next_high_monotonic_count(true), Ok(u32::MAX));
    assert_eq!(last.get_next_high_monotonic_count(true), Ok(u32::MAX));
}

fn civil(year: i64, month: u32, day: u32, hour: u32, minute: u32, second: u32) -> Civil {
    Civil { year, month, day, hour, minute, second }
}

#[test]
fn seconds_become_dates() {
    assert_eq!(civil_from_epoch(0), civil(1970, 1, 1, 0, 0, 0));
    assert_eq!(civil_from_epoch(951_782_400), civil(2000, 2, 29, 0, 0, 0));
    assert_eq!(civil_from_epoch(951_868_799), civil(2000, 2, 29, 23, 59, 59));
    assert_eq!(civil_from_epoch(951_868_800), civil(2000, 3, 1, 0, 0, 0));
    assert_eq!(civil_from_epoch(4_107_542_400), civil(2100, 3, 1, 0, 0, 0));
    assert_eq!(civil_from_epoch(1_767_225_600), civil(2026, 1, 1, 0, 0, 0));
    assert_eq!(civil_from_epoch(4_294_967_295), civil(2106, 2, 7, 6, 28, 15));
}

#[test]
fn dates_become_seconds_again() {
    let mut seconds = 0u64;
    while seconds < 4_294_967_296 {
        assert_eq!(epoch_from_civil(civil_from_epoch(seconds)), seconds);
        seconds += 1_234_567;
    }
    for seconds in [u64::MAX, u64::MAX - 86_400, u64::MAX / 2, 2_005_949_145_600, 1 << 50] {
        assert_eq!(epoch_from_civil(civil_from_epoch(seconds)), seconds);
    }
    assert_eq!(civil_from_epoch(2_005_949_145_600), civil(65_536, 1, 1, 0, 0, 0));
    // A day past the end of its month counts into the next.
    assert_eq!(
        epoch_from_civil(civil(2026, 2, 29, 0, 0, 0)),
        epoch_from_civil(civil(2026, 3, 1, 0, 0, 0))
    );
}

#[test]
fn the_time_is_read_and_set() {
    let (time, able) = get_time(true, true, Some(951_868_799)).unwrap();
    assert_eq!((time.year, time.month, time.day), (2000, 2, 29));
    assert_eq!((time.hour, time.minute, time.second), (23, 59, 59));
    assert_eq!(time.timezone, UNSPECIFIED_TIMEZONE);
    let able = able.unwrap();
    assert_eq!((able.resolution, able.accuracy, able.sets_to_zero), (1, 50_000_000, false));
    assert_eq!(get_time(true, false, None).unwrap().0.year, 1970);
    assert_eq!(get_time(false, false, None), Err(Status::InvalidParameter));
    let (seconds, rate) = set_time(Some(time)).unwrap();
    assert_eq!((seconds.address, seconds.value), (0x0901_0000, 951_868_799));
    assert_eq!((rate.address, rate.value), (0x0901_0004, 0));
    assert_eq!(set_time(Some(Time { month: 13, ..time })), Err(Status::InvalidParameter));
    assert_eq!(set_time(Some(Time { day: 0, ..time })), Err(Status::InvalidParameter));
    assert_eq!(set_time(Some(Time { year: 1969, ..time })), Err(Status::InvalidParameter));
    assert_eq!(set_time(None), Err(Status::InvalidParameter));
}

fn descriptor(physical: u64, virtual_start: u64) -> Vec<u8> {
    let mut bytes = vec![0u8; 40];
    bytes[8..16].copy_from_slice(&physical.to_le_bytes());
    bytes[16..24].copy_from_slice(&virtual_start.to_le_bytes());
    bytes
}

#[test]
fn only_an_identity_map_is_accepted() {
    let mut map = descriptor(0x4000_0000, 0x4000_0000);
    map.extend_from_slice(&descriptor(0x5000_0000, 0x5000_0000));
    assert_eq!(set_virtual_address_map(Some(&map), 40), Status::Success);
    map.extend_from_slice(&descriptor(0x6000_0000, 0xffff_0000_6000_0000));
    assert_eq!(set_virtual_address_map(Some(&map), 40), Status::Unsupported);
    assert_eq!(set_virtual_address_map(None, 40), Status::InvalidParameter);
    assert_eq!(set_virtual_address_map(Some(&map), 8), Status::Unsupported);
}

#[test]
fn shutdown_powers_off_and_anything_else_resets() {
    assert_eq!(reset_system(2).function, SYSTEM_OFF);
    assert_eq!(reset_system(0).function, SYSTEM_RESET);
    assert_eq!(reset_system(1).function, SYSTEM_RESET);
}

#[test]
fn a_display_is_published() {
    let mut database = Database::init();
    let display = Display {
        width: 1280,
        height: 800,
        frame_buffer_base: 0x4800_0000,
        frame_buffer_size: 4_096_000,
    };
    let (status, line, registry) = gop::install(&mut database, Some(display), 0x99);
    assert_eq!(status, Status::Success);
    assert_eq!(
        line,
        "[gop] virtio-gpu 1280x800 XRGB8888, framebuffer @ 0x48000000 (4000 KiB)"
    );
    let registry = registry.unwrap();
    assert_eq!(database.locate_protocol(Some(GRAPHICS_OUTPUT_PROTOCOL_GUID), true), Ok(0x99));
    let (size, info) = gop::query_mode(&registry, 0, true, true).unwrap();
    assert_eq!(size, 36);
    assert_eq!((info.pixel_format, info.pixels_per_scan_line), (1, 1280));
    assert_eq!(gop::query_mode(&registry, 1, true, true), Err(Status::Unsupported));
    assert_eq!(gop::query_mode(&registry, 1, false, true), Err(Status::InvalidParameter));
    assert_eq!(registry.mode.max_mode, 1);
    assert_eq!(set_mode(0), Status::Success);
    assert_eq!(set_mode(1), Status::Unsupported);
    assert_eq!(blt(), Status::Unsupported);
    let (status, line, none) = gop::install(&mut database, None, 0x99);
    assert_eq!((status, line.as_str()), (Status::NotFound, "[gop] no display"));
    assert!(none.is_none());
}
