use tinted_boot::firmware::uefi::device_path::{
    end_node, file_path_name, length, match_prefix, match_prefix_bytes, write_file_path,
};
use tinted_boot::firmware::uefi::events::{
    Events, Notification, Wait, EVENT_GROUP_EXIT_BOOT_SERVICES, EVT_NOTIFY_SIGNAL,
    EVT_NOTIFY_WAIT, EVT_TIMER, TIMER_CANCEL, TIMER_PERIODIC, TIMER_RELATIVE, TPL_APPLICATION,
    TPL_NOTIFY,
};
use tinted_boot::firmware::uefi::handles::{Database, ALL_HANDLES, BY_PROTOCOL, MAX_HANDLES};
use tinted_boot::firmware::uefi::mem::{Layout, Memory};
use tinted_boot::firmware::uefi::services::{Exit, DEVICE_PATH_PROTOCOL_GUID};
use tinted_boot::status::Status;

const A: [u8; 16] = [1; 16];
const B: [u8; 16] = [2; 16];

#[test]
fn an_installed_interface_is_found() {
    let mut database = Database::init();
    let (status, first) = database.install_protocol_interface(Some(0), Some(A), 0, 0x1000);
    assert_eq!((status, first), (Status::Success, 1));
    assert_eq!(
        database.install_protocol_interface(Some(first), Some(B), 0, 0x2000).0,
        Status::Success
    );
    assert_eq!(
        database.install_protocol_interface(Some(first), Some(A), 0, 0x3000).0,
        Status::InvalidParameter
    );
    assert_eq!(
        database.install_protocol_interface(Some(9), Some(A), 0, 0x3000).0,
        Status::InvalidParameter
    );
    assert_eq!(
        database.install_protocol_interface(Some(0), Some(A), 1, 0x3000).0,
        Status::InvalidParameter
    );
    assert_eq!(database.handle_protocol(first, Some(B), true), Ok(0x2000));
    assert_eq!(database.handle_protocol(first, Some([3; 16]), true), Err(Status::Unsupported));
    assert_eq!(database.handle_protocol(first, None, true), Err(Status::InvalidParameter));
    assert_eq!(database.locate_protocol(Some(A), true), Ok(0x1000));
    assert_eq!(database.locate_protocol(Some([3; 16]), true), Err(Status::NotFound));
}

#[test]
fn installing_ends_where_there_is_no_room() {
    let mut database = Database::init();
    let handle = database.install_new(&A, 0x1000);
    let mut kind = 2u8;
    while kind < 9 {
        let (status, on) = database.install_protocol_interface(Some(handle), Some([kind; 16]), 0, 1);
        assert_eq!((status, on, database.count), (Status::Success, handle, 1));
        kind += 1;
    }
    assert_eq!(
        database.install_protocol_interface(Some(handle), Some([9; 16]), 0, 1),
        (Status::OutOfResources, handle)
    );
    while database.count < MAX_HANDLES {
        let next = database.count + 1;
        assert_eq!(
            database.install_protocol_interface(Some(0), Some(A), 0, 1),
            (Status::Success, next)
        );
        assert_eq!(database.count, next);
    }
    let held = database.protocols.len();
    assert_eq!(
        database.install_protocol_interface(Some(0), Some(A), 0, 1),
        (Status::OutOfResources, 0)
    );
    assert_eq!((database.count, database.protocols.len()), (MAX_HANDLES, held));
}

#[test]
fn an_uninstalled_interface_is_gone() {
    let mut database = Database::init();
    let handle = database.install_new(&A, 0x1000);
    assert_eq!(
        database.uninstall_protocol_interface(handle, Some(A), 0x9999),
        Status::InvalidParameter
    );
    assert_eq!(database.uninstall_protocol_interface(handle, Some(B), 0x1000), Status::NotFound);
    assert_eq!(database.uninstall_protocol_interface(handle, Some(A), 0x1000), Status::Success);
    assert_eq!(database.interface_on(handle, &A), None);
    assert_eq!(database.count_with(&A), 0);
}

#[test]
fn an_interface_is_replaced() {
    let mut database = Database::init();
    let handle = database.install_new(&A, 0x1000);
    assert_eq!(
        database.reinstall_protocol_interface(handle, Some(A), 0x5, 0x6),
        Status::InvalidParameter
    );
    assert_eq!(
        database.reinstall_protocol_interface(handle, Some(B), 0x5, 0x6),
        Status::NotFound
    );
    assert_eq!(
        database.reinstall_protocol_interface(handle, Some(A), 0x1000, 0x6),
        Status::Success
    );
    assert_eq!(database.interface_on(handle, &A), Some(6));
}

#[test]
fn a_handle_carries_eight_protocols() {
    let mut database = Database::init();
    let handle = database.create_handle().unwrap();
    let mut at = 0u8;
    while at < 8 {
        assert_eq!(database.install_on(handle, &[at; 16], 1).0, Status::Success);
        at += 1;
    }
    assert_eq!(database.install_on(handle, &[9; 16], 1).0, Status::OutOfResources);
    assert_eq!(database.protocols_per_handle(handle, true).unwrap().len(), 8);
    assert!(matches!(
        database.protocols_per_handle(77, true),
        Err(Status::InvalidParameter)
    ));
}

#[test]
fn there_are_sixty_four_handles() {
    let mut database = Database::init();
    let mut at = 0;
    while at < 64 {
        assert!(database.create_handle().is_some());
        at += 1;
    }
    assert_eq!(database.create_handle(), None);
    assert_eq!(database.install_on(0, &A, 1), (Status::OutOfResources, 0));
}

#[test]
fn handles_are_located_by_protocol() {
    let mut database = Database::init();
    let first = database.install_new(&A, 1);
    let second = database.install_new(&B, 2);
    let third = database.install_new(&A, 3);
    let mut size = 8;
    assert_eq!(
        database.locate_handle(BY_PROTOCOL, Some(A), &mut size, true, true),
        Err(Status::BufferTooSmall)
    );
    assert_eq!(size, 16);
    assert_eq!(
        database.locate_handle(BY_PROTOCOL, Some(A), &mut size, true, true),
        Ok(vec![first, third])
    );
    assert_eq!(
        database.locate_handle(BY_PROTOCOL, None, &mut size, true, true),
        Err(Status::InvalidParameter)
    );
    assert_eq!(
        database.locate_handle_buffer(ALL_HANDLES, None, true),
        Ok(vec![first, second, third])
    );
    assert_eq!(
        database.locate_handle_buffer(BY_PROTOCOL, Some([3; 16]), true),
        Err(Status::NotFound)
    );
    assert_eq!(database.handle_with(&B), Some(second));
    assert_eq!(database.register_protocol_notify(), Status::Unsupported);
}

#[test]
fn openings_are_recorded_per_protocol() {
    let mut database = Database::init();
    let handle = database.install_new(&A, 0x1000);
    database.install_on(handle, &B, 0x2000);
    assert_eq!(database.open_protocol(handle, Some(A), 5, 6, 1), Ok(0x1000));
    assert_eq!(database.open_protocol(handle, Some(A), 7, 8, 2), Ok(0x1000));
    assert_eq!(database.open_protocol(handle, Some([3; 16]), 5, 6, 1), Err(Status::Unsupported));
    assert_eq!(database.open_protocol(99, Some(A), 5, 6, 1), Err(Status::InvalidParameter));
    let (status, count, list) = database.open_protocol_information(handle, Some(A), true, Some(4));
    assert_eq!((status, count), (Status::Success, Some(1)));
    assert_eq!((list[0].agent, list[0].controller, list[0].attributes), (5, 6, 1));
    let (status, count, _) = database.open_protocol_information(handle, Some(A), true, Some(0));
    assert_eq!((status, count), (Status::BufferTooSmall, Some(1)));
    let (status, count, _) = database.open_protocol_information(handle, Some(B), true, Some(4));
    assert_eq!((status, count), (Status::Success, Some(0)));
    assert_eq!(database.close_protocol(handle, Some(A), 7), Status::NotFound);
    assert_eq!(database.close_protocol(handle, Some(A), 5), Status::Success);
    assert_eq!(database.open_protocol_information(handle, Some(A), true, Some(4)).1, Some(0));
}

fn node(kind: u8, data: &[u8]) -> Vec<u8> {
    let mut bytes = vec![kind, 1, (4 + data.len()) as u8, 0];
    bytes.extend_from_slice(data);
    bytes
}

fn path(nodes: &[Vec<u8>]) -> Vec<u8> {
    let mut bytes = Vec::new();
    for one in nodes {
        bytes.extend_from_slice(one);
    }
    bytes.extend_from_slice(&end_node());
    bytes
}

#[test]
fn the_longest_device_path_wins() {
    let mut database = Database::init();
    let disk = database.install_new(&A, 1);
    let volume = database.install_new(&A, 2);
    let elsewhere = database.install_new(&A, 3);
    let disk_path = path(&[node(1, &[1, 2])]);
    let volume_path = path(&[node(1, &[1, 2]), node(4, &[9])]);
    let file = path(&[node(1, &[1, 2]), node(4, &[9]), node(4, &[7, 7])]);
    let paths = vec![
        Some(disk_path.clone()),
        Some(volume_path.clone()),
        Some(path(&[node(2, &[5])])),
    ];
    assert_eq!(database.locate_device_path(Some(A), Some(&file), true, &paths), Ok(volume));
    assert_eq!(
        database.locate_device_path(Some(A), Some(&disk_path), true, &paths),
        Ok(disk)
    );
    assert_eq!(
        database.locate_device_path(Some(A), Some(&path(&[node(9, &[])])), true, &paths),
        Err(Status::NotFound)
    );
    assert_eq!(
        database.locate_device_path(Some(B), Some(&file), true, &paths),
        Err(Status::NotFound)
    );
    assert_eq!(
        database.locate_device_path(None, Some(&file), true, &paths),
        Err(Status::InvalidParameter)
    );
    assert_eq!(elsewhere, 3);
    assert_eq!(match_prefix(Some(&volume_path), &file), Some(11));
    assert_eq!(match_prefix(None, &file), None);
    assert_eq!(match_prefix_bytes(&disk_path, &volume_path), None);
    assert_eq!(length(&volume_path), 15);
}

#[test]
fn a_handle_knows_its_device_path() {
    let mut database = Database::init();
    let handle = database.install_new(&DEVICE_PATH_PROTOCOL_GUID, 0x77);
    assert_eq!(database.path_of(handle), Some(0x77));
    assert_eq!(database.path_of(handle + 1), None);
}

#[test]
fn a_file_path_is_read_back() {
    let name = [0x5cu16, 0x41, 0x42];
    let path = write_file_path(&name, 64).unwrap();
    assert_eq!(path, vec![4, 4, 10, 0, 0x5c, 0, 0x41, 0, 0x42, 0, 0x7f, 0xff, 4, 0]);
    assert_eq!(file_path_name(&path), Some(name.to_vec()));
    assert_eq!(write_file_path(&name, 13), Err(Status::BufferTooSmall));
    assert_eq!(file_path_name(&end_node()), None);
}

#[test]
fn events_are_created_within_limits() {
    let mut events = Events::init();
    assert_eq!(events.create_event(EVT_NOTIFY_SIGNAL, None, 0, true), Err(Status::InvalidParameter));
    assert_eq!(events.create_event(EVT_TIMER, None, 0, false), Err(Status::InvalidParameter));
    assert_eq!(events.create_event(EVT_NOTIFY_WAIT, None, 0, true), Ok(1));
    let mut at = 1;
    while at < 32 {
        assert!(events.create_event(EVT_TIMER, None, 0, true).is_ok());
        at += 1;
    }
    assert_eq!(events.create_event(EVT_TIMER, None, 0, true), Err(Status::OutOfResources));
    assert_eq!(events.create_polled(), None);
    assert_eq!(events.live_events(), 32);
}

#[test]
fn a_relative_timer_fires_once() {
    let mut events = Events::init();
    let event = events.create_event(EVT_TIMER, None, 0, true).unwrap();
    assert_eq!(events.set_timer(event, TIMER_RELATIVE, 1_000_000, 500), Status::Success);
    assert_eq!(events.check_event(event, 1_000_499, false), Status::NotReady);
    assert_eq!(events.check_event(event, 1_000_500, false), Status::Success);
    assert_eq!(events.check_event(event, 9_000_000, false), Status::NotReady);
    assert_eq!(events.set_timer(event, 3, 1, 1), Status::InvalidParameter);
    assert_eq!(events.set_timer(77, TIMER_CANCEL, 1, 1), Status::InvalidParameter);
}

#[test]
fn a_periodic_timer_fires_again() {
    let mut events = Events::init();
    let event = events.create_event(EVT_TIMER, None, 0, true).unwrap();
    assert_eq!(events.set_timer(event, TIMER_PERIODIC, 10, 0), Status::Success);
    // The first deadline is never nearer than a hundred units.
    assert_eq!(events.check_event(event, 99, false), Status::NotReady);
    assert_eq!(events.check_event(event, 100, false), Status::Success);
    assert_eq!(events.check_event(event, 109, false), Status::NotReady);
    assert_eq!(events.check_event(event, 110, false), Status::Success);
    assert_eq!(events.set_timer(event, TIMER_CANCEL, 0, 0), Status::Success);
    assert_eq!(events.check_event(event, 1000, false), Status::NotReady);
}

#[test]
fn a_signal_is_consumed() {
    let mut events = Events::init();
    let event = events.create_event(EVT_NOTIFY_SIGNAL, Some(0x40), 0x50, true).unwrap();
    let run = Notification { event, function: 0x40, context: 0x50 };
    assert_eq!(events.signal_event(event), (Status::Success, Some(run)));
    assert_eq!(events.check_event(event, 0, false), Status::Success);
    assert_eq!(events.check_event(event, 0, false), Status::NotReady);
    assert_eq!(events.close_event(event), Status::Success);
    assert_eq!(events.signal_event(event), (Status::InvalidParameter, None));
    assert_eq!(events.close_event(event), Status::InvalidParameter);
}

#[test]
fn waiting_stops_at_the_first_event() {
    let mut events = Events::init();
    let first = events.create_event(EVT_NOTIFY_WAIT, Some(1), 2, true).unwrap();
    let polled = events.create_polled().unwrap();
    let both = [first, polled];
    assert_eq!(events.wait_for_event(Some(&both), true, 0, &[false, false]), Wait::Spin);
    assert_eq!(
        events.wait_for_event(Some(&both), true, 0, &[true, true]),
        Wait::Ready(1, None)
    );
    events.signal_event(first);
    assert_eq!(
        events.wait_for_event(Some(&both), true, 0, &[false, true]),
        Wait::Ready(0, Some(Notification { event: first, function: 1, context: 2 }))
    );
    assert_eq!(
        events.wait_for_event(Some(&[first, 0]), true, 0, &[false, false]),
        Wait::Unknown(1)
    );
    assert_eq!(
        events.wait_for_event(Some(&[first, 99]), true, 0, &[false, false]),
        Wait::Unknown(1)
    );
    assert_eq!(events.wait_for_event(None, true, 0, &[]), Wait::Refused);
}

#[test]
fn priority_levels_are_remembered() {
    let mut events = Events::init();
    assert_eq!(events.raise_tpl(TPL_NOTIFY), TPL_APPLICATION);
    events.restore_tpl(TPL_APPLICATION);
    assert_eq!(events.raise_tpl(TPL_NOTIFY), TPL_APPLICATION);
}

#[test]
fn the_end_of_boot_services_signals_its_group() {
    let layout = Layout {
        ram_base: 0x4000_0000,
        stack_top: 0x4010_0000,
        heap_base: 0x4020_0000,
        heap_size: 0x10_0000,
    };
    let mut memory = Memory::new(layout, 0x4080_0000);
    let mut events = Events::init();
    let group = EVENT_GROUP_EXIT_BOOT_SERVICES;
    events.create_event_ex(EVT_NOTIFY_SIGNAL, Some(1), 0, None, true).unwrap();
    let second = events.create_event_ex(EVT_NOTIFY_SIGNAL, Some(2), 0, Some(group), true).unwrap();
    let third = events.create_event_ex(EVT_NOTIFY_SIGNAL, None, 0, Some(group), true).unwrap();
    let key = memory.get_memory_map(None).map_key;
    assert!(matches!(
        Exit::exit_boot_services(&memory, &events, key + 1),
        Err(Status::InvalidParameter)
    ));
    let mut exit = match Exit::exit_boot_services(&memory, &events, key) {
        Ok(exit) => exit,
        Err(_) => panic!("the key is fresh"),
    };
    assert_eq!(
        exit.step(&mut memory, &mut events),
        Some(Some(Notification { event: second, function: 2, context: 0 }))
    );
    assert!(!memory.boot_services_ended());
    assert_eq!(exit.step(&mut memory, &mut events), Some(None));
    assert_eq!(exit.step(&mut memory, &mut events), None);
    assert!(memory.boot_services_ended());
    assert_eq!(events.check_event(third, 0, false), Status::Success);
}
