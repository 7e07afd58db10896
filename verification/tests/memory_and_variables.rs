use tinted_boot::firmware::uefi::mem::{
    Layout, Memory, ALLOCATE_ADDRESS, ALLOCATE_ANY_PAGES, ALLOCATE_MAX_ADDRESS,
    BOOT_SERVICES_DATA, CONVENTIONAL_MEMORY, RUNTIME_SERVICES_CODE,
};
use tinted_boot::firmware::uefi::runtime::{
    get_next_variable_name, get_variable, query_variable_info, set_variable,
};
use tinted_boot::firmware::uefi::vars::{attributes_are_valid, NextName, Store};
use tinted_boot::status::Status;
use tinted_boot::utf16::encode;

const LOADER_DATA: u32 = 2;

fn memory() -> Memory {
    let layout = Layout {
        ram_base: 0x4000_0000,
        stack_top: 0x4010_0000,
        heap_base: 0x4020_0000,
        heap_size: 0x10_0000,
    };
    Memory::new(layout, 0x4080_0000)
}

#[test]
fn pages_come_from_the_lowest_run() {
    let mut memory = memory();
    assert_eq!(memory.allocate_pages(ALLOCATE_ANY_PAGES, LOADER_DATA, 1, 0), Ok(0x4010_0000));
    assert_eq!(memory.allocate_pages(ALLOCATE_ANY_PAGES, LOADER_DATA, 2, 0), Ok(0x4010_1000));
    // More than what lies below the heap goes above it.
    assert_eq!(
        memory.allocate_pages(ALLOCATE_ANY_PAGES, LOADER_DATA, 0x100, 0),
        Ok(0x4030_0000)
    );
    assert_eq!(memory.free_pages(0x4010_0000), Status::Success);
    assert_eq!(memory.allocate_pages(ALLOCATE_ANY_PAGES, LOADER_DATA, 1, 0), Ok(0x4010_0000));
    assert_eq!(memory.free_pages(0x4010_3000), Status::InvalidParameter);
}

#[test]
fn an_address_or_a_ceiling_is_honoured() {
    let mut memory = memory();
    assert_eq!(
        memory.allocate_pages(ALLOCATE_ADDRESS, LOADER_DATA, 1, 0x4040_0000),
        Ok(0x4040_0000)
    );
    assert_eq!(
        memory.allocate_pages(ALLOCATE_ADDRESS, LOADER_DATA, 1, 0x4040_0000),
        Err(Status::OutOfResources)
    );
    assert_eq!(
        memory.allocate_pages(ALLOCATE_ADDRESS, LOADER_DATA, 1, 0x4020_0000),
        Err(Status::OutOfResources)
    );
    assert_eq!(
        memory.allocate_pages(ALLOCATE_ADDRESS, LOADER_DATA, 1, 0x4040_0008),
        Err(Status::InvalidParameter)
    );
    assert_eq!(
        memory.allocate_pages(ALLOCATE_ADDRESS, LOADER_DATA, 1, 0x9000_0000),
        Err(Status::InvalidParameter)
    );
    assert_eq!(
        memory.allocate_pages(ALLOCATE_MAX_ADDRESS, LOADER_DATA, 1, 0x4010_0000),
        Err(Status::OutOfResources)
    );
    assert_eq!(
        memory.allocate_pages(ALLOCATE_ANY_PAGES, LOADER_DATA, 0, 0),
        Err(Status::InvalidParameter)
    );
}

#[test]
fn the_map_tells_what_every_byte_is() {
    let mut memory = memory();
    memory.allocate_pages(ALLOCATE_ADDRESS, LOADER_DATA, 1, 0x4040_0000).unwrap();
    let short = memory.get_memory_map(Some(40));
    assert_eq!(short.status, Status::BufferTooSmall);
    let answer = memory.get_memory_map(Some(short.map_size));
    assert_eq!(answer.status, Status::Success);
    assert_eq!(answer.descriptor_size, 40);
    let kinds: Vec<(u32, u64, u64)> = answer
        .descriptors
        .iter()
        .map(|d| (d.memory_type, d.physical_start, d.number_of_pages))
        .collect();
    assert_eq!(
        kinds,
        vec![
            (RUNTIME_SERVICES_CODE, 0x4000_0000, 0x100),
            (CONVENTIONAL_MEMORY, 0x4010_0000, 0x100),
            (BOOT_SERVICES_DATA, 0x4020_0000, 0x100),
            (CONVENTIONAL_MEMORY, 0x4030_0000, 0x100),
            (LOADER_DATA, 0x4040_0000, 1),
            (CONVENTIONAL_MEMORY, 0x4040_1000, 0x3ff),
        ]
    );
}

#[test]
fn a_changed_map_has_another_key() {
    let mut memory = memory();
    let key = memory.get_memory_map(None).map_key;
    assert!(memory.check_map_key(key));
    memory.pages_for(LOADER_DATA, 5000).unwrap();
    assert!(!memory.check_map_key(key));
    assert_eq!(memory.allocations[0].pages, 2);
}

#[test]
fn a_stale_key_stays_stale() {
    let mut memory = memory();
    let key = memory.get_memory_map(None).map_key;
    // A call that fails keeps the key good, and looking at the map does too.
    assert!(memory.free_pages(0x1234).ne(&Status::Success));
    assert!(memory.allocate_pool(u64::MAX - 8, None).is_err());
    assert!(memory.check_map_key(key));
    let mut rounds = 0;
    while rounds < 10 {
        let at = memory.allocate_pages(0, 2, 1, 0).unwrap();
        assert!(!memory.check_map_key(key));
        assert_eq!(memory.free_pages(at), Status::Success);
        assert!(!memory.check_map_key(key));
        assert!(memory.allocate_pool(16, Some(0x1000)).is_ok());
        assert!(memory.free_pool(0x1008, 16).is_ok());
        assert!(!memory.check_map_key(key));
        rounds += 1;
    }
    assert!(memory.check_map_key(memory.get_memory_map(None).map_key));
}

#[test]
fn the_windows_have_to_lie_apart() {
    let mut layout = memory().layout;
    assert!(layout.is_sound());
    layout.heap_base = layout.ram_base;
    assert!(!layout.is_sound());
}

#[test]
fn nothing_is_handed_out_after_boot_services() {
    let mut memory = memory();
    memory.set_boot_services_ended();
    assert!(memory.boot_services_ended());
    assert_eq!(memory.pages_for(LOADER_DATA, 1), None);
    assert_eq!(memory.pool_request(16), Err(Status::Unsupported));
}

#[test]
fn pool_blocks_have_a_header() {
    let mut memory = memory();
    assert_eq!(memory.pool_request(16), Ok(24));
    assert_eq!(memory.allocate_pool(16, Some(0x4020_0000)), Ok(0x4020_0008));
    assert_eq!(memory.allocate_pool(16, None), Err(Status::OutOfResources));
    assert_eq!(memory.free_pool(0x4020_0008, 16), Ok((0x4020_0000, 24)));
    assert_eq!(memory.pool_request(1 << 63), Err(Status::InvalidParameter));
}

fn name(text: &str) -> Vec<u16> {
    let mut units = encode(text);
    units.push(0);
    units
}

const GUID: [u8; 16] = [7; 16];
const OTHER: [u8; 16] = [8; 16];

#[test]
fn a_variable_that_was_set_is_read_back() {
    let mut store = Store::init();
    let key = name("Boot0001");
    assert_eq!(set_variable(&mut store, Some(&key), Some(GUID), 7, b"first"), Status::Success);
    assert_eq!(set_variable(&mut store, Some(&key), Some(OTHER), 3, b"other"), Status::Success);
    assert_eq!(set_variable(&mut store, Some(&key), Some(GUID), 7, b"second value"), Status::Success);
    let answer = get_variable(&store, Some(&key), Some(GUID), Some(100), true);
    assert_eq!(answer.status, Status::Success);
    assert_eq!(answer.attributes, Some(7));
    assert_eq!(answer.data, Some(b"second value".to_vec()));
    let answer = get_variable(&store, Some(&key), Some(OTHER), Some(4), true);
    assert_eq!(answer.status, Status::BufferTooSmall);
    assert_eq!(answer.size, Some(5));
    assert_eq!(store.count(), 2);
}

#[test]
fn an_empty_value_deletes() {
    let mut store = Store::init();
    let key = name("Lang");
    assert_eq!(set_variable(&mut store, Some(&key), Some(GUID), 7, b"en"), Status::Success);
    assert_eq!(set_variable(&mut store, Some(&key), Some(GUID), 0, b""), Status::Success);
    assert_eq!(
        get_variable(&store, Some(&key), Some(GUID), Some(9), true).status,
        Status::NotFound
    );
    assert_eq!(set_variable(&mut store, Some(&key), Some(GUID), 0, b""), Status::NotFound);
}

#[test]
fn variables_that_do_not_fit_are_refused() {
    let mut store = Store::init();
    let key = name("X");
    assert_eq!(set_variable(&mut store, Some(&key), Some(GUID), 8, b"a"), Status::InvalidParameter);
    assert_eq!(set_variable(&mut store, Some(&key), Some(GUID), 0, b"a"), Status::InvalidParameter);
    assert_eq!(set_variable(&mut store, None, Some(GUID), 7, b"a"), Status::InvalidParameter);
    assert_eq!(set_variable(&mut store, Some(&[0x58]), Some(GUID), 7, b"a"), Status::InvalidParameter);
    assert_eq!(set_variable(&mut store, Some(&[0]), Some(GUID), 7, b"a"), Status::InvalidParameter);
    let large = vec![1u8; 1023];
    assert_eq!(set_variable(&mut store, Some(&key), Some(GUID), 7, &large), Status::OutOfResources);
    let fits = vec![1u8; 1022];
    assert_eq!(set_variable(&mut store, Some(&key), Some(GUID), 7, &fits), Status::Success);
    assert!(attributes_are_valid(7));
    assert!(!attributes_are_valid(0));
}

#[test]
fn the_store_fills_up() {
    let mut store = Store::init();
    let value = vec![1u8; 1000];
    let mut held = 0;
    let mut at = 0u32;
    while at < 200 {
        let key = name(&format!("V{at:04}"));
        match set_variable(&mut store, Some(&key), Some(GUID), 7, &value) {
            Status::Success => held += 1,
            status => assert_eq!(status, Status::OutOfResources),
        }
        at += 1;
    }
    assert_eq!(store.count(), held);
    let (all, left, largest) = query_variable_info(&store, true).unwrap();
    assert_eq!(all, 0x1_0000);
    assert_eq!(largest, 1024);
    assert!(left < 1044);
    assert_eq!(query_variable_info(&store, false), Err(Status::InvalidParameter));
}

#[test]
fn names_are_walked_in_order() {
    let mut store = Store::init();
    for text in ["Zeta", "Alpha", "Mid"] {
        set_variable(&mut store, Some(&name(text)), Some(GUID), 7, b"v");
    }
    let mut at = vec![0u16];
    let mut guid = [0u8; 16];
    let mut seen = Vec::new();
    loop {
        match get_next_variable_name(&store, Some(64), Some(&at), Some(guid)) {
            NextName::Found(found, found_guid, bytes) => {
                assert_eq!(bytes, 2 * (found.len() + 1));
                seen.push(found.clone());
                at = found;
                at.push(0);
                guid = found_guid;
            }
            NextName::NotFound => break,
            _ => panic!("the walk goes on"),
        }
    }
    assert_eq!(seen, vec![encode("Alpha"), encode("Mid"), encode("Zeta")]);
    assert!(matches!(
        get_next_variable_name(&store, Some(4), Some(&[0]), Some(GUID)),
        NextName::BufferTooSmall(12)
    ));
    assert!(matches!(
        get_next_variable_name(&store, None, Some(&[0]), Some(GUID)),
        NextName::InvalidParameter
    ));
}
