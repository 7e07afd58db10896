use tinted_boot::firmware::uefi::runtime::Time;
use tinted_boot::status::Status;
use tinted_boot::testapp::console;
use tinted_boot::testapp::console::{push_named, push_status, Console};
use tinted_boot::testapp::report::{begin, step, Ask, ConfigurationTable, Reply, System};

fn said(lines: &[Vec<u16>]) -> Vec<String> {
    lines
        .iter()
        .map(|units| {
            assert_eq!(units[units.len() - 1], 0);
            let text = String::from_utf16(&units[0..units.len() - 1]).unwrap();
            assert!(text.ends_with("\r\n"));
            text[0..text.len() - 2].to_string()
        })
        .collect()
}

#[test]
fn a_line_is_cut_and_terminated() {
    let short = console::line("ab\u{e9}");
    assert_eq!(short, vec![0x61, 0x62, 0x3f, 0x0d, 0x0a, 0]);
    let long = console::line(&"x".repeat(300));
    assert_eq!(long.len(), 256);
    assert_eq!((long[254], long[255]), (0x78, 0));
}

#[test]
fn the_console_formats() {
    let mut console = Console::new();
    console.dec(0);
    console.chr(' ');
    console.dec(u64::MAX);
    console.chr(' ');
    console.hex(0xabc, 4);
    console.wstr(Some(&[0x20, 0x20ac, 0, 0x41]));
    console.wstr(None);
    console.guid(&[0x78, 0x56, 0x34, 0x12, 1, 0, 2, 0, 3, 4, 5, 6, 7, 8, 9, 10]);
    let units = console.flush();
    assert_eq!(
        String::from_utf16(&units[0..units.len() - 1]).unwrap(),
        "0 18446744073709551615 0abc \u{20ac}(null)12345678-0001-0002-0304-05060708090a"
    );
    assert!(console.buf.is_empty());
}

#[test]
fn statuses_carry_their_names() {
    let mut text = String::new();
    push_status(&mut text, 0x8000_0000_0000_000e);
    assert_eq!(text, "800000000000000e (Not Found)");
    let mut text = String::new();
    push_status(&mut text, 0x8000_0000_0000_ffff);
    assert_eq!(text, "800000000000ffff");
    let mut text = String::new();
    push_named(&mut text, 0, &Some("Success".to_string()));
    assert_eq!(text, "0000000000000000 (Success)");
    let mut console = Console::new();
    console.status(0);
    assert_eq!(console.buf.len(), 26);
}

#[test]
fn the_system_table_is_reported() {
    let vendor = [0x4cu16, 0x69, 0];
    let system = System {
        image_handle: 0x1f,
        revision: 0x0002_0046,
        header_size: 120,
        crc32: 0xbeef,
        vendor: Some(&vendor),
        firmware_revision: 65_537,
        table_count: 1,
        tables: Some(vec![ConfigurationTable { guid: [0; 16], table: 0x4000 }]),
        services: true,
    };
    let (lines, ask) = begin(Some(&system));
    assert_eq!(ask, Ask::GetMemoryMap);
    assert_eq!(
        said(&lines),
        vec![
            "tinted-testapp: entry",
            "image handle: 000000000000001f",
            "UEFI revision: 2.70, HeaderSize: 120, Crc32: 0000beef",
            "firmware vendor: Li, revision: 65537",
            "configuration tables: 1",
            "  [0] 00000000-0000-0000-0000-000000000000 -> 0000000000004000",
        ]
    );
    let bare = System { tables: None, services: false, revision: 0x0002_0005, ..system };
    let (lines, ask) = begin(Some(&bare));
    assert_eq!(ask, Ask::Return(Status::Unsupported));
    assert_eq!(said(&lines)[2], "UEFI revision: 2.05, HeaderSize: 120, Crc32: 0000beef");
    assert_eq!(said(&lines)[5], "boot/runtime services missing; stopping probes");
    let (lines, ask) = begin(None);
    assert!(lines.is_empty());
    assert_eq!(ask, Ask::Return(Status::InvalidParameter));
}

#[test]
fn the_memory_map_is_reported() {
    let mut map = vec![0u8; 48 * 8];
    let mut at = 0;
    while at < 8 {
        map[at * 48] = 7;
        map[at * 48 + 8] = at as u8;
        map[at * 48 + 24] = 2;
        map[at * 48 + 32] = 8;
        at += 1;
    }
    let (lines, ask) =
        step(&Reply::MemoryMap { status: 0, map: &map, map_size: map.len(), map_key: 5, descriptor_size: 48 });
    assert_eq!(ask, Ask::AllocatePool);
    let lines = said(&lines);
    assert_eq!(lines.len(), 8);
    assert_eq!(lines[0], "GetMemoryMap: 0000000000000000 (Success)");
    assert_eq!(lines[1], "  descriptors: 8, descriptor size: 48, map key: 0000000000000005");
    assert_eq!(
        lines[3],
        "  desc[1] type=7 start=0000000000000001 pages=2 attr=0000000000000008"
    );
    let (lines, _) = step(&Reply::MemoryMap {
        status: 0x8000_0000_0000_0005,
        map: &map,
        map_size: map.len(),
        map_key: 5,
        descriptor_size: 48,
    });
    assert_eq!(said(&lines), vec!["GetMemoryMap: 8000000000000005 (Buffer Too Small)"]);
    // Descriptors closer together than they are long are read where they are.
    let (lines, _) = step(&Reply::MemoryMap {
        status: 0,
        map: &map,
        map_size: 48,
        map_key: 5,
        descriptor_size: 24,
    });
    let lines = said(&lines);
    assert_eq!(lines.len(), 4);
    assert_eq!(lines[1], "  descriptors: 2, descriptor size: 24, map key: 0000000000000005");
}

#[test]
fn every_reply_leads_on() {
    let failed = 0x8000_0000_0000_0009;
    assert_eq!(step(&Reply::PoolAllocated(0)).1, Ask::FreePool);
    let (lines, ask) = step(&Reply::PoolAllocated(failed));
    assert_eq!(ask, Ask::AllocatePages);
    assert_eq!(said(&lines)[1], "FreePool: skipped (allocate failed)");
    assert_eq!(step(&Reply::PoolFreed(0)).1, Ask::AllocatePages);
    let (lines, ask) = step(&Reply::PagesAllocated { status: 0, address: 0x4000 });
    assert_eq!(ask, Ask::FreePages(0x4000));
    assert_eq!(said(&lines)[1], "  page address: 0000000000004000");
    assert_eq!(step(&Reply::PagesAllocated { status: failed, address: 0 }).1, Ask::LocateVolumes);
    assert_eq!(step(&Reply::PagesFreed(0)).1, Ask::LocateVolumes);
    assert_eq!(step(&Reply::Volumes { status: 0, count: 2 }).1, Ask::FreeVolumes);
    let (lines, ask) = step(&Reply::Volumes { status: 0x8000_0000_0000_000e, count: 0 });
    assert_eq!(ask, Ask::LoadedImage);
    assert_eq!(said(&lines)[1], "  volumes: 0");
    assert_eq!(step(&Reply::Volumes { status: failed, count: 0 }).0.len(), 1);
    assert_eq!(step(&Reply::VolumesFreed(0)).1, Ask::LoadedImage);
    assert_eq!(step(&Reply::LoadedImage(0)).1, Ask::DeviceFileSystem);
    assert_eq!(step(&Reply::LoadedImage(failed)).1, Ask::GetVariable);
    assert_eq!(step(&Reply::DeviceFileSystem(0)).1, Ask::OpenVolume);
    assert_eq!(step(&Reply::DeviceFileSystem(failed)).1, Ask::GetVariable);
    assert_eq!(step(&Reply::VolumeOpened(0)).1, Ask::ReadRoot);
    assert_eq!(step(&Reply::VolumeOpened(failed)).1, Ask::GetVariable);
    assert_eq!(step(&Reply::RootClosed).1, Ask::GetVariable);
    assert_eq!(step(&Reply::KernelInfo(9)).1, Ask::AllocateKernel(9));
    assert_eq!(step(&Reply::KernelAllocated { status: 0, length: 9 }).1, Ask::ReadKernel(9));
    assert_eq!(step(&Reply::KernelAllocated { status: failed, length: 9 }).1, Ask::GetVariable);
    assert_eq!(step(&Reply::Released).1, Ask::GetVariable);
    assert_eq!(step(&Reply::TimerSet(0)).1, Ask::WaitForEvent);
    assert_eq!(step(&Reply::EventSignaled(0)).1, Ask::CloseEvent);
    assert_eq!(step(&Reply::EventClosed).1, Ask::Return(Status::Success));
    assert_eq!(step(&Reply::EventCreated(0)).1, Ask::SetTimer(1_000_000));
    let (lines, ask) = step(&Reply::EventCreated(failed));
    assert_eq!(ask, Ask::Return(Status::Success));
    assert_eq!(said(&lines)[2], "tinted-testapp: returning EFI_SUCCESS");
}

#[test]
fn the_own_volume_is_reported() {
    let name = [0x45u16, 0x46, 0x49, 0];
    let (lines, ask) = step(&Reply::RootRead {
        status: 0,
        size: 90,
        name: &name,
        attribute: 0x11,
        file_size: 0,
    });
    assert_eq!(ask, Ask::ReadRoot);
    assert_eq!(said(&lines), vec!["  \\EFI\\  0"]);
    let (lines, ask) =
        step(&Reply::RootRead { status: 0, size: 0, name: &name, attribute: 0, file_size: 0 });
    assert!(lines.is_empty());
    assert_eq!(ask, Ask::OpenKernel);
    let (lines, ask) = step(&Reply::KernelOpened(0x8000_0000_0000_000e));
    assert_eq!(said(&lines), vec!["\\KERNEL: 800000000000000e (Not Found)"]);
    assert_eq!(ask, Ask::CloseRoot);
    assert_eq!(step(&Reply::KernelOpened(0)).1, Ask::KernelInfo);
    let (lines, ask) = step(&Reply::KernelRead {
        status: 0,
        read: 4096,
        length: 4096,
        first: &[0xcf, 0xfa, 0xed, 0xfe],
        start: 1000,
        end: 126_000,
        frequency: 62_500_000,
    });
    assert_eq!(ask, Ask::Release);
    assert_eq!(
        said(&lines),
        vec!["\\KERNEL: 0000000000000000 (Success), 4096 of 4096 bytes in 2 ms, magic feedfacf"]
    );
}

#[test]
fn the_variable_and_the_time_are_reported() {
    let (lines, ask) = step(&Reply::Variable { status: 0x8000_0000_0000_0005, size: 6 });
    assert_eq!(ask, Ask::GetTime);
    assert_eq!(
        said(&lines),
        vec!["GetVariable(BootOrder): size=6 bytes, status=8000000000000005 (Buffer Too Small)"]
    );
    let (lines, _) = step(&Reply::Variable { status: 0x8000_0000_0000_000e, size: 0 });
    assert_eq!(said(&lines), vec!["GetVariable(BootOrder): 800000000000000e (Not Found)"]);
    let time = Time {
        year: 2026,
        month: 12,
        day: 9,
        hour: 23,
        minute: 5,
        second: 59,
        nanosecond: 0,
        timezone: 0,
        daylight: 0,
    };
    let (lines, ask) = step(&Reply::Time { status: 0, time });
    assert_eq!(ask, Ask::CreateEvent);
    assert_eq!(
        said(&lines),
        vec!["GetTime: 0000000000000000 (Success) 2026-0c-09 17:05:3b"]
    );
    let (lines, _) = step(&Reply::Time { status: 0x8000_0000_0000_0003, time });
    assert_eq!(said(&lines), vec!["GetTime: 8000000000000003 (Unsupported)"]);
}
