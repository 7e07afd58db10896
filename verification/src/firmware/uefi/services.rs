//! The UEFI environment: system table, boot services, runtime services, and the
//! configuration tables the operating system reads.
use crate::bytes::{
    get_u32, le_at, le_bytes, lemma_le_bytes_len, lemma_le_value_of_bytes, push_le, put, put_le,
    put_slice, same_bytes,
};
use crate::crc::{crc, crc32};
use crate::firmware::uefi::events::{
    next_in, notification, EventEntry, Events, Notification, EVENT_GROUP_EXIT_BOOT_SERVICES,
};
use crate::firmware::uefi::handles::Database;
use crate::firmware::uefi::mem::Memory;
use crate::seqs::{first, lemma_first, lemma_first_is};
use crate::status::{Guid, Status};
use vstd::prelude::*;

verus! {

/// The revision the tables claim: UEFI 2.70.
pub const REVISION: u32 = 0x0002_0046;

/// The revision of the firmware itself.
pub const FIRMWARE_REVISION: u64 = 0x0001_0001;

pub const SYSTEM_TABLE_SIGNATURE: u64 = 0x5453_5953_2049_4249;

pub const BOOT_SERVICES_SIGNATURE: u64 = 0x5652_4553_544f_4f42;

pub const RUNTIME_SERVICES_SIGNATURE: u64 = 0x5652_4553_544e_5552;

/// How many configuration tables there may be.
pub const MAX_CONFIG_TABLES: usize = 16;

/// The size of a table's header.
pub const HEADER_SIZE: usize = 24;

/// Where the checksum is in a table's header.
pub const CRC_AT: usize = 16;

/// The size of the system table.
pub const SYSTEM_TABLE_SIZE: usize = 120;

/// The firmware vendor, as UEFI wants it: UTF-16, NUL-terminated.
pub const VENDOR: [u16; 17] = [
    0x4c,
    0x69,
    0x6c,
    0x69,
    0x74,
    0x68,
    0x20,
    0x53,
    0x65,
    0x6d,
    0x69,
    0x20,
    0x57,
    0x65,
    0x69,
    0x72,
    0,
];

pub const LOADED_IMAGE_PROTOCOL_GUID: [u8; 16] = [
    0xa1,
    0x31,
    0x1b,
    0x5b,
    0x62,
    0x95,
    0xd2,
    0x11,
    0x8e,
    0x3f,
    0x00,
    0xa0,
    0xc9,
    0x69,
    0x72,
    0x3b,
];

pub const DEVICE_PATH_PROTOCOL_GUID: [u8; 16] = [
    0x91,
    0x6e,
    0x57,
    0x09,
    0x3f,
    0x6d,
    0xd2,
    0x11,
    0x8e,
    0x39,
    0x00,
    0xa0,
    0xc9,
    0x69,
    0x72,
    0x3b,
];

pub const SIMPLE_FILE_SYSTEM_PROTOCOL_GUID: [u8; 16] = [
    0x22,
    0x5b,
    0x4e,
    0x96,
    0x59,
    0x64,
    0xd2,
    0x11,
    0x8e,
    0x39,
    0x00,
    0xa0,
    0xc9,
    0x69,
    0x72,
    0x3b,
];

pub const BLOCK_IO_PROTOCOL_GUID: [u8; 16] = [
    0x21,
    0x5b,
    0x4e,
    0x96,
    0x59,
    0x64,
    0xd2,
    0x11,
    0x8e,
    0x39,
    0x00,
    0xa0,
    0xc9,
    0x69,
    0x72,
    0x3b,
];

pub const GRAPHICS_OUTPUT_PROTOCOL_GUID: [u8; 16] = [
    0xde,
    0xa9,
    0x42,
    0x90,
    0xdc,
    0x23,
    0x38,
    0x4a,
    0x96,
    0xfb,
    0x7a,
    0xde,
    0xd0,
    0x80,
    0x51,
    0x6a,
];

pub const LOAD_FILE2_PROTOCOL_GUID: [u8; 16] = [
    0xc1,
    0xc0,
    0x06,
    0x40,
    0xb3,
    0xfc,
    0x3e,
    0x40,
    0x99,
    0x6d,
    0x4a,
    0x6c,
    0x87,
    0x24,
    0xe0,
    0x6d,
];

/// The configuration-table GUID for the device tree.
pub const DEVICE_TREE_GUID: [u8; 16] = [
    0xd5,
    0x21,
    0xb6,
    0xb1,
    0x9c,
    0xf1,
    0xa5,
    0x41,
    0x83,
    0x0b,
    0xd9,
    0x15,
    0x2c,
    0x69,
    0xaa,
    0xe0,
];

/// The ACPI 2.0+ RSDP configuration-table GUID.
pub const ACPI_20_TABLE_GUID: [u8; 16] = [
    0x71,
    0xe8,
    0x68,
    0x88,
    0xf1,
    0xe4,
    0xd3,
    0x11,
    0xbc,
    0x22,
    0x00,
    0x80,
    0xc7,
    0x3c,
    0x88,
    0x81,
];

/// The SMBIOS entry-point configuration-table GUID (3.x).
pub const SMBIOS_TABLE_GUID: [u8; 16] = [
    0x44,
    0x15,
    0xfd,
    0xf2,
    0x94,
    0x97,
    0x2c,
    0x4a,
    0x99,
    0x2e,
    0xe5,
    0xbb,
    0xcf,
    0x20,
    0xe3,
    0x94,
];

/// The EFI runtime-properties table: which runtime services survive
/// `ExitBootServices`.
pub const RT_PROPERTIES_TABLE_GUID: [u8; 16] = [
    0x8a,
    0x91,
    0x66,
    0xeb,
    0xef,
    0x7e,
    0x2a,
    0x40,
    0x84,
    0x2e,
    0x93,
    0x1d,
    0x21,
    0xc3,
    0x8a,
    0xe9,
];

/// The addresses of the boot services.
pub struct BootServices {
    pub raise_tpl: u64,
    pub restore_tpl: u64,
    pub allocate_pages: u64,
    pub free_pages: u64,
    pub get_memory_map: u64,
    pub allocate_pool: u64,
    pub free_pool: u64,
    pub create_event: u64,
    pub set_timer: u64,
    pub wait_for_event: u64,
    pub signal_event: u64,
    pub close_event: u64,
    pub check_event: u64,
    pub install_protocol_interface: u64,
    pub reinstall_protocol_interface: u64,
    pub uninstall_protocol_interface: u64,
    pub handle_protocol: u64,
    pub reserved: u64,
    pub register_protocol_notify: u64,
    pub locate_handle: u64,
    pub locate_device_path: u64,
    pub install_configuration_table: u64,
    pub load_image: u64,
    pub start_image: u64,
    pub exit: u64,
    pub unload_image: u64,
    pub exit_boot_services: u64,
    pub get_next_monotonic_count: u64,
    pub stall: u64,
    pub set_watchdog_timer: u64,
    pub connect_controller: u64,
    pub disconnect_controller: u64,
    pub open_protocol: u64,
    pub close_protocol: u64,
    pub open_protocol_information: u64,
    pub protocols_per_handle: u64,
    pub locate_handle_buffer: u64,
    pub locate_protocol: u64,
    pub install_multiple_protocol_interfaces: u64,
    pub uninstall_multiple_protocol_interfaces: u64,
    pub calculate_crc32: u64,
    pub copy_mem: u64,
    pub set_mem: u64,
    pub create_event_ex: u64,
}

impl BootServices {
    /// The entries, in the order they have in the table.
    pub open spec fn words(&self) -> Seq<u64> {
        seq![
            self.raise_tpl,
            self.restore_tpl,
            self.allocate_pages,
            self.free_pages,
            self.get_memory_map,
            self.allocate_pool,
            self.free_pool,
            self.create_event,
            self.set_timer,
            self.wait_for_event,
            self.signal_event,
            self.close_event,
            self.check_event,
            self.install_protocol_interface,
            self.reinstall_protocol_interface,
            self.uninstall_protocol_interface,
            self.handle_protocol,
            self.reserved,
            self.register_protocol_notify,
            self.locate_handle,
            self.locate_device_path,
            self.install_configuration_table,
            self.load_image,
            self.start_image,
            self.exit,
            self.unload_image,
            self.exit_boot_services,
            self.get_next_monotonic_count,
            self.stall,
            self.set_watchdog_timer,
            self.connect_controller,
            self.disconnect_controller,
            self.open_protocol,
            self.close_protocol,
            self.open_protocol_information,
            self.protocols_per_handle,
            self.locate_handle_buffer,
            self.locate_protocol,
            self.install_multiple_protocol_interfaces,
            self.uninstall_multiple_protocol_interfaces,
            self.calculate_crc32,
            self.copy_mem,
            self.set_mem,
            self.create_event_ex,
        ]
    }

    /// The entries, in the order they have in the table.
    pub fn entries(&self) -> (words: Vec<u64>)
        ensures
            words@ == self.words(),
    {
        let mut words: Vec<u64> = Vec::new();
        words.push(self.raise_tpl);
        words.push(self.restore_tpl);
        words.push(self.allocate_pages);
        words.push(self.free_pages);
        words.push(self.get_memory_map);
        words.push(self.allocate_pool);
        words.push(self.free_pool);
        words.push(self.create_event);
        words.push(self.set_timer);
        words.push(self.wait_for_event);
        words.push(self.signal_event);
        words.push(self.close_event);
        words.push(self.check_event);
        words.push(self.install_protocol_interface);
        words.push(self.reinstall_protocol_interface);
        words.push(self.uninstall_protocol_interface);
        words.push(self.handle_protocol);
        words.push(self.reserved);
        words.push(self.register_protocol_notify);
        words.push(self.locate_handle);
        words.push(self.locate_device_path);
        words.push(self.install_configuration_table);
        words.push(self.load_image);
        words.push(self.start_image);
        words.push(self.exit);
        words.push(self.unload_image);
        words.push(self.exit_boot_services);
        words.push(self.get_next_monotonic_count);
        words.push(self.stall);
        words.push(self.set_watchdog_timer);
        words.push(self.connect_controller);
        words.push(self.disconnect_controller);
        words.push(self.open_protocol);
        words.push(self.close_protocol);
        words.push(self.open_protocol_information);
        words.push(self.protocols_per_handle);
        words.push(self.locate_handle_buffer);
        words.push(self.locate_protocol);
        words.push(self.install_multiple_protocol_interfaces);
        words.push(self.uninstall_multiple_protocol_interfaces);
        words.push(self.calculate_crc32);
        words.push(self.copy_mem);
        words.push(self.set_mem);
        words.push(self.create_event_ex);
        assert(words@ =~= self.words());
        words
    }
}

/// The addresses of the runtime services.
pub struct RuntimeServices {
    pub get_time: u64,
    pub set_time: u64,
    pub get_wakeup_time: u64,
    pub set_wakeup_time: u64,
    pub set_virtual_address_map: u64,
    pub convert_pointer: u64,
    pub get_variable: u64,
    pub get_next_variable_name: u64,
    pub set_variable: u64,
    pub get_next_high_mono_count: u64,
    pub reset_system: u64,
    pub update_capsule: u64,
    pub query_capsule_capabilities: u64,
    pub query_variable_info: u64,
}

impl RuntimeServices {
    /// The entries, in the order they have in the table.
    pub open spec fn words(&self) -> Seq<u64> {
        seq![
            self.get_time,
            self.set_time,
            self.get_wakeup_time,
            self.set_wakeup_time,
            self.set_virtual_address_map,
            self.convert_pointer,
            self.get_variable,
            self.get_next_variable_name,
            self.set_variable,
            self.get_next_high_mono_count,
            self.reset_system,
            self.update_capsule,
            self.query_capsule_capabilities,
            self.query_variable_info,
        ]
    }

    /// The entries, in the order they have in the table.
    pub fn entries(&self) -> (words: Vec<u64>)
        ensures
            words@ == self.words(),
    {
        let mut words: Vec<u64> = Vec::new();
        words.push(self.get_time);
        words.push(self.set_time);
        words.push(self.get_wakeup_time);
        words.push(self.set_wakeup_time);
        words.push(self.set_virtual_address_map);
        words.push(self.convert_pointer);
        words.push(self.get_variable);
        words.push(self.get_next_variable_name);
        words.push(self.set_variable);
        words.push(self.get_next_high_mono_count);
        words.push(self.reset_system);
        words.push(self.update_capsule);
        words.push(self.query_capsule_capabilities);
        words.push(self.query_variable_info);
        assert(words@ =~= self.words());
        words
    }
}

/// The header of a table, with the checksum not computed yet.
pub open spec fn header_bytes(signature: u64, size: nat) -> Seq<u8> {
    le_bytes(signature as nat, 8) + le_bytes(REVISION as nat, 4) + le_bytes(size, 4) + le_bytes(
        0,
        4,
    ) + le_bytes(0, 4)
}

/// 64-bit words, low byte first.
pub open spec fn word_bytes(words: Seq<u64>) -> Seq<u8>
    decreases words.len(),
{
    if words.len() == 0 {
        Seq::empty()
    } else {
        word_bytes(words.drop_last()) + le_bytes(words.last() as nat, 8)
    }
}

/// A table: the header, then the words.
pub open spec fn table_bytes(signature: u64, words: Seq<u64>) -> Seq<u8> {
    header_bytes(signature, 24 + 8 * words.len()) + word_bytes(words)
}

proof fn lemma_word_bytes_len(words: Seq<u64>)
    ensures
        word_bytes(words).len() == 8 * words.len(),
    decreases words.len(),
{
    if words.len() > 0 {
        lemma_word_bytes_len(words.drop_last());
        lemma_le_bytes_len(words.last() as nat, 8);
    }
}

/// How a table is laid out: the size in its header is its own, and the word at an
/// index is eight bytes after the one before it.
pub proof fn law_table_layout(signature: u64, words: Seq<u64>, k: int)
    requires
        0 <= k < words.len(),
        words.len() <= 0x1000,
    ensures
        table_bytes(signature, words).len() == 24 + 8 * words.len(),
        le_at(table_bytes(signature, words), 12, 4) == table_bytes(signature, words).len(),
        le_at(table_bytes(signature, words), 24 + 8 * k, 8) == words[k],
    decreases words.len(),
{
    lemma_header(signature, 24 + 8 * words.len());
    lemma_word_bytes_len(words);
    lemma_word_at(words, k);
    let h = header_bytes(signature, 24 + 8 * words.len());
    let t = table_bytes(signature, words);
    assert(t.subrange(12, 16) =~= h.subrange(12, 16));
    assert(t.subrange(24 + 8 * k, 24 + 8 * k + 8) =~= word_bytes(words).subrange(
        8 * k,
        8 * k + 8,
    ));
}

proof fn lemma_header(signature: u64, size: nat)
    requires
        size <= 0xffff_ffff,
    ensures
        header_bytes(signature, size).len() == 24,
        le_at(header_bytes(signature, size), 12, 4) == size,
{
    lemma_le_bytes_len(signature as nat, 8);
    lemma_le_bytes_len(REVISION as nat, 4);
    lemma_le_bytes_len(size, 4);
    lemma_le_bytes_len(0, 4);
    assert(header_bytes(signature, size).subrange(12, 16) =~= le_bytes(size, 4));
    crate::bytes::lemma_widths();
    lemma_le_value_of_bytes(size, 4);
}

proof fn lemma_word_at(words: Seq<u64>, k: int)
    requires
        0 <= k < words.len(),
    ensures
        le_at(word_bytes(words), 8 * k, 8) == words[k],
    decreases words.len(),
{
    let before = word_bytes(words.drop_last());
    lemma_word_bytes_len(words);
    lemma_word_bytes_len(words.drop_last());
    lemma_le_bytes_len(words.last() as nat, 8);
    if k == words.len() - 1 {
        assert(word_bytes(words).subrange(8 * k, 8 * k + 8) =~= le_bytes(words.last() as nat, 8));
        crate::bytes::lemma_widths();
        lemma_le_value_of_bytes(words.last() as nat, 8);
    } else {
        lemma_word_at(words.drop_last(), k);
        assert(word_bytes(words).subrange(8 * k, 8 * k + 8) =~= before.subrange(8 * k, 8 * k + 8));
    }
}

/// Builds a table from its words.
pub fn table(signature: u64, words: &Vec<u64>) -> (bytes: Vec<u8>)
    requires
        words@.len() <= 0x1000,
    ensures
        bytes@ == table_bytes(signature, words@),
        bytes@.len() == 24 + 8 * words@.len(),
{
    let mut bytes: Vec<u8> = Vec::new();
    push_le(&mut bytes, signature, 8);
    push_le(&mut bytes, REVISION as u64, 4);
    push_le(&mut bytes, 24 + 8 * words.len() as u64, 4);
    push_le(&mut bytes, 0, 4);
    push_le(&mut bytes, 0, 4);
    assert(bytes@ =~= header_bytes(signature, 24 + 8 * words@.len()));
    let mut next: usize = 0;
    assert(words@.subrange(0, 0) =~= Seq::<u64>::empty());
    assert(bytes@ =~= header_bytes(signature, 24 + 8 * words@.len()) + word_bytes(
        words@.subrange(0, 0),
    ));
    while next < words.len()
        invariant
            next <= words@.len(),
            bytes@ == header_bytes(signature, 24 + 8 * words@.len()) + word_bytes(
                words@.subrange(0, next as int),
            ),
        decreases words@.len() - next,
    {
        proof {
            let more = words@.subrange(0, next + 1);
            assert(more.drop_last() =~= words@.subrange(0, next as int));
            assert(more.last() == words@[next as int]);
        }
        let ghost before = bytes@;
        push_le(&mut bytes, words[next], 8);
        next = next + 1;
        assert(bytes@ =~= header_bytes(signature, 24 + 8 * words@.len()) + word_bytes(
            words@.subrange(0, next as int),
        ));
    }
    assert(words@.subrange(0, next as int) =~= words@);
    proof {
        lemma_header(signature, 24 + 8 * words@.len());
        lemma_word_bytes_len(words@);
    }
    bytes
}

/// A table with its checksum field zeroed.
pub open spec fn unsealed(t: Seq<u8>) -> Seq<u8> {
    put(t, CRC_AT as int, le_bytes(0, 4))
}

/// The checksum of a table: over its whole extent, header included, with the field
/// zeroed.
pub open spec fn table_crc(t: Seq<u8>) -> u32 {
    crc(unsealed(t).subrange(0, le_at(unsealed(t), 12, 4) as int))
}

/// A table with its checksum.
pub open spec fn sealed(t: Seq<u8>) -> Seq<u8> {
    put(unsealed(t), CRC_AT as int, le_bytes(table_crc(t) as nat, 4))
}

/// Whether the size in a table's header lies inside the table.
pub open spec fn is_table(t: Seq<u8>) -> bool {
    t.len() >= HEADER_SIZE && le_at(t, 12, 4) <= t.len()
}

/// Recomputes a table's CRC-32 over its whole extent, header included, with the
/// field zeroed first as the specification requires.
pub fn recompute_crc(table: &mut Vec<u8>)
    requires
        is_table(old(table)@),
    ensures
        final(table)@ == sealed(old(table)@),
        final(table)@.len() == old(table)@.len(),
        is_table(final(table)@),
{
    proof {
        lemma_le_bytes_len(0, 4);
        assert(unsealed(table@).subrange(12, 16) =~= table@.subrange(12, 16));
    }
    put_le(table, CRC_AT, 0, 4);
    let size: usize = get_u32(table.as_slice(), 12) as usize;
    let sum: u32 = crc32(crate::bytes::copy_range(table.as_slice(), 0, size).as_slice());
    proof {
        lemma_le_bytes_len(sum as nat, 4);
    }
    put_le(table, CRC_AT, sum as u64, 4);
    assert(table@.subrange(12, 16) =~= old(table)@.subrange(12, 16));
}

/// A table that was sealed checks: the checksum in it is that of the table with the
/// field zeroed.
pub proof fn law_sealed_table_checks(t: Seq<u8>)
    requires
        is_table(t),
    ensures
        le_at(sealed(t), CRC_AT as int, 4) == table_crc(sealed(t)),
        table_crc(sealed(t)) == table_crc(t),
        sealed(sealed(t)) == sealed(t),
{
    let sum = table_crc(t);
    lemma_le_bytes_len(0, 4);
    lemma_le_bytes_len(sum as nat, 4);
    assert(unsealed(sealed(t)) =~= unsealed(t));
    assert(sealed(t).subrange(16, 20) =~= le_bytes(sum as nat, 4));
    crate::bytes::lemma_widths();
    lemma_le_value_of_bytes(sum as nat, 4);
}

/// Fills in the boot services table. Every entry is assigned.
pub fn build_boot_services(services: &BootServices) -> (bytes: Vec<u8>)
    ensures
        bytes@ == sealed(table_bytes(BOOT_SERVICES_SIGNATURE, services.words())),
{
    let words: Vec<u64> = services.entries();
    let mut bytes: Vec<u8> = table(BOOT_SERVICES_SIGNATURE, &words);
    proof {
        law_table_layout(BOOT_SERVICES_SIGNATURE, words@, 0);
    }
    recompute_crc(&mut bytes);
    bytes
}

/// Fills in the runtime services table.
pub fn build_runtime_services(services: &RuntimeServices) -> (bytes: Vec<u8>)
    ensures
        bytes@ == sealed(table_bytes(RUNTIME_SERVICES_SIGNATURE, services.words())),
{
    let words: Vec<u64> = services.entries();
    let mut bytes: Vec<u8> = table(RUNTIME_SERVICES_SIGNATURE, &words);
    proof {
        law_table_layout(RUNTIME_SERVICES_SIGNATURE, words@, 0);
    }
    recompute_crc(&mut bytes);
    bytes
}

/// What the system table points at.
pub struct Addresses {
    pub vendor: u64,
    pub con_in: u64,
    pub con_out: u64,
    pub runtime_services: u64,
    pub boot_services: u64,
    pub configuration_table: u64,
}

impl Addresses {
    /// The words of the system table, with a number of configuration tables.
    pub open spec fn words(&self, image_handle: u64, count: u64) -> Seq<u64> {
        seq![
            self.vendor,
            FIRMWARE_REVISION,
            image_handle,
            self.con_in,
            image_handle,
            self.con_out,
            image_handle,
            self.con_out,
            self.runtime_services,
            self.boot_services,
            count,
            self.configuration_table,
        ]
    }
}

/// A configuration table: its GUID, and where it is.
#[derive(Clone, Copy)]
pub struct ConfigTable {
    pub guid: Guid,
    pub table: u64,
}

/// The entry of the configuration list with a GUID, or how long the list is.
pub open spec fn config_at(s: Seq<ConfigTable>, guid: Guid) -> int {
    first(s, |c: ConfigTable| c.guid@ == guid@)
}

/// The system table, and the configuration list.
pub struct SystemTable {
    pub addresses: Addresses,
    pub image_handle: u64,
    pub tables: Vec<ConfigTable>,
    pub bytes: Vec<u8>,
}

impl SystemTable {
    /// The bytes of the table, as the list stands.
    pub open spec fn contents(&self) -> Seq<u8> {
        sealed(
            table_bytes(
                SYSTEM_TABLE_SIGNATURE,
                self.addresses.words(self.image_handle, self.tables@.len() as u64),
            ),
        )
    }

    /// What the table keeps to: its bytes are those of the list as it stands, and no
    /// GUID is there twice.
    pub open spec fn wf(&self) -> bool {
        &&& self.tables@.len() <= MAX_CONFIG_TABLES
        &&& self.bytes@ == self.contents()
        &&& forall|i: int, j: int|
            0 <= i < j < self.tables@.len() ==> (#[trigger] self.tables@[i]).guid@ != (
            #[trigger] self.tables@[j]).guid@
    }

    /// Builds the `EFI_SYSTEM_TABLE` with an empty configuration list.
    pub fn new(addresses: Addresses, image_handle: u64) -> (system: SystemTable)
        ensures
            system.wf(),
            system.addresses == addresses,
            system.image_handle == image_handle,
            system.tables@ == Seq::<ConfigTable>::empty(),
    {
        let mut system: SystemTable = SystemTable {
            addresses,
            image_handle,
            tables: Vec::new(),
            bytes: Vec::new(),
        };
        system.rebuild();
        system
    }

    fn rebuild(&mut self)
        requires
            old(self).tables@.len() <= MAX_CONFIG_TABLES,
        ensures
            final(self).addresses == old(self).addresses,
            final(self).image_handle == old(self).image_handle,
            final(self).tables@ == old(self).tables@,
            final(self).bytes@ == final(self).contents(),
    {
        let mut words: Vec<u64> = Vec::new();
        words.push(self.addresses.vendor);
        words.push(FIRMWARE_REVISION);
        words.push(self.image_handle);
        words.push(self.addresses.con_in);
        words.push(self.image_handle);
        words.push(self.addresses.con_out);
        words.push(self.image_handle);
        words.push(self.addresses.con_out);
        words.push(self.addresses.runtime_services);
        words.push(self.addresses.boot_services);
        words.push(self.tables.len() as u64);
        words.push(self.addresses.configuration_table);
        assert(words@ =~= self.addresses.words(self.image_handle, self.tables@.len() as u64));
        let mut bytes: Vec<u8> = table(SYSTEM_TABLE_SIGNATURE, &words);
        proof {
            law_table_layout(SYSTEM_TABLE_SIGNATURE, words@, 0);
        }
        recompute_crc(&mut bytes);
        self.bytes = bytes;
    }

    /// Publishes a table in the system table's configuration list. Replaces an entry
    /// with the same GUID; `OutOfResources` when the list is full.
    pub fn install_config_table(&mut self, guid: &Guid, table: u64) -> (status: Status)
        requires
            old(self).wf(),
        ensures
            final(self).wf(),
            final(self).addresses == old(self).addresses,
            final(self).image_handle == old(self).image_handle,
            ({
                let s = old(self).tables@;
                let k = config_at(s, *guid);
                if k < s.len() {
                    status == Status::Success && final(self).tables@ == s.update(
                        k,
                        ConfigTable { guid: s[k].guid, table },
                    )
                } else if s.len() >= MAX_CONFIG_TABLES {
                    status == Status::OutOfResources && final(self).tables@ == s
                } else {
                    status == Status::Success && final(self).tables@ == s.push(
                        ConfigTable { guid: *guid, table },
                    )
                }
            }),
    {
        let ghost s = self.tables@;
        let ghost hit = |c: ConfigTable| c.guid@ == guid@;
        let count: usize = self.tables.len();
        let mut k: usize = 0;
        while k < count && !same_bytes(&self.tables[k].guid, guid)
            invariant
                k <= count,
                count == self.tables@.len(),
                hit == (|c: ConfigTable| c.guid@ == guid@),
                forall|i: int| 0 <= i < k ==> !hit(#[trigger] self.tables@[i]),
            decreases count - k,
        {
            k = k + 1;
        }
        proof {
            lemma_first(s, hit, k as int);
        }
        if k < count {
            let entry: ConfigTable = ConfigTable { guid: self.tables[k].guid, table };
            self.tables.set(k, entry);
            self.rebuild();
            assert forall|i: int, j: int| 0 <= i < j < self.tables@.len() implies (
            #[trigger] self.tables@[i]).guid@ != (#[trigger] self.tables@[j]).guid@ by {
                assert(s[i].guid@ != s[j].guid@);
            }
            return Status::Success;
        }
        if count >= MAX_CONFIG_TABLES {
            return Status::OutOfResources;
        }
        self.tables.push(ConfigTable { guid: *guid, table });
        self.rebuild();
        assert forall|i: int, j: int| 0 <= i < j < self.tables@.len() implies (
        #[trigger] self.tables@[i]).guid@ != (#[trigger] self.tables@[j]).guid@ by {
            if j < s.len() {
                assert(s[i].guid@ != s[j].guid@);
            } else {
                assert(!hit(s[i]));
            }
        }
        Status::Success
    }

    /// `InstallConfigurationTable`, the service half of `install_config_table`.
    pub fn install_configuration_table(&mut self, guid: Option<Guid>, table: u64) -> (status: Status)
        requires
            old(self).wf(),
        ensures
            final(self).wf(),
            final(self).addresses == old(self).addresses,
            final(self).image_handle == old(self).image_handle,
            ({
                let s = old(self).tables@;
                let k = config_at(s, guid->0);
                if guid is None {
                    status == Status::InvalidParameter && final(self).tables@ == s
                } else if k < s.len() {
                    status == Status::Success && final(self).tables@ == s.update(
                        k,
                        ConfigTable { guid: s[k].guid, table },
                    )
                } else if s.len() >= MAX_CONFIG_TABLES {
                    status == Status::OutOfResources && final(self).tables@ == s
                } else {
                    status == Status::Success && final(self).tables@ == s.push(
                        ConfigTable { guid: guid->0, table },
                    )
                }
            }),
    {
        match guid {
            Some(guid) => self.install_config_table(&guid, table),
            None => Status::InvalidParameter,
        }
    }
}

/// A table that was published is the one an application finds, and the tables with
/// other GUIDs stay where they are.
pub proof fn law_published_table_is_found(s: Seq<ConfigTable>, guid: Guid, table: u64, other: Guid)
    ensures
        ({
            let k = config_at(s, guid);
            let after = if k < s.len() {
                s.update(k, ConfigTable { guid: s[k].guid, table })
            } else {
                s.push(ConfigTable { guid, table })
            };
            &&& config_at(after, guid) < after.len()
            &&& after[config_at(after, guid)].table == table
            &&& other@ != guid@ && config_at(s, other) < s.len() ==> {
                &&& config_at(after, other) == config_at(s, other)
                &&& after[config_at(s, other)].table == s[config_at(s, other)].table
            }
        }),
{
    let hit = |c: ConfigTable| c.guid@ == guid@;
    let miss = |c: ConfigTable| c.guid@ == other@;
    let k = config_at(s, guid);
    lemma_first_is(s, hit);
    lemma_first_is(s, miss);
    let after = if k < s.len() {
        s.update(k, ConfigTable { guid: s[k].guid, table })
    } else {
        s.push(ConfigTable { guid, table })
    };
    if k < s.len() {
        assert(hit(s[k]));
    }
    assert forall|i: int| 0 <= i < k implies !hit(#[trigger] after[i]) by {
        assert(!hit(s[i]));
    }
    assert(hit(after[k]));
    lemma_first(after, hit, k);
    let m = config_at(s, other);
    if other@ != guid@ && m < s.len() {
        assert(miss(s[m]));
        assert forall|i: int| 0 <= i < m implies !miss(#[trigger] after[i]) by {
            assert(!miss(s[i]));
        }
        assert(miss(after[m]));
        lemma_first(after, miss, m);
    }
}

/// The EFI runtime-properties table, describing what an operating system may still
/// call once boot services have ended: a version, a length, and the services. No
/// runtime service survives `ExitBootServices`.
pub fn rt_properties() -> (bytes: Vec<u8>)
    ensures
        bytes@ == le_bytes(1, 2) + le_bytes(8, 2) + le_bytes(0, 4),
{
    let mut bytes: Vec<u8> = Vec::new();
    push_le(&mut bytes, 1, 2);
    push_le(&mut bytes, 8, 2);
    push_le(&mut bytes, 0, 4);
    assert(bytes@ =~= le_bytes(1, 2) + le_bytes(8, 2) + le_bytes(0, 4));
    bytes
}

/// Builds the environment: the firmware's own image handle is the first of the
/// database, the runtime-properties table is published, and the device tree too
/// where the boot stage passed one.
pub fn init(
    database: &mut Database,
    addresses: Addresses,
    rt_properties: u64,
    boot_args: u64,
) -> (system: SystemTable)
    requires
        old(database).wf(),
        old(database).count == 0,
    ensures
        final(database).wf(),
        final(database).count == 1,
        final(database).protocols@ == old(database).protocols@,
        final(database).opens@ == old(database).opens@,
        system.wf(),
        system.image_handle == 1,
        system.addresses == addresses,
        system.tables@.len() == (if boot_args == 0 {
            1int
        } else {
            2
        }),
        system.tables@[0] == (ConfigTable { guid: RT_PROPERTIES_TABLE_GUID, table: rt_properties }),
        boot_args != 0 ==> system.tables@[1] == (ConfigTable {
            guid: DEVICE_TREE_GUID,
            table: boot_args,
        }),
{
    let image_handle: u64 = match database.create_handle() {
        Some(handle) => handle,
        None => 0,
    };
    let mut system: SystemTable = SystemTable::new(addresses, image_handle);
    system.install_config_table(&RT_PROPERTIES_TABLE_GUID, rt_properties);
    if boot_args != 0 {
        proof {
            let hit = |c: ConfigTable| c.guid@ == DEVICE_TREE_GUID@;
            assert(RT_PROPERTIES_TABLE_GUID@[0] != DEVICE_TREE_GUID@[0]);
            assert(!hit(system.tables@[0]));
            lemma_first(system.tables@, hit, 1);
        }
        system.install_config_table(&DEVICE_TREE_GUID, boot_args);
    }
    system
}

/// The end of boot services: the events of the group are signaled one by one, while
/// boot services still work.
pub struct Exit {
    /// The event to look at next.
    pub next: usize,
    /// How many events there were when the end was asked for.
    pub until: usize,
}

impl Exit {
    /// `ExitBootServices`: validates the map key - an application that hands a stale
    /// key has an inconsistent view of the map, and the specification says to fail
    /// rather than guess.
    pub fn exit_boot_services(memory: &Memory, events: &Events, map_key: u64) -> (exit: Result<
        Exit,
        Status,
    >)
        ensures
            match exit {
                Ok(exit) => memory.map_key == map_key && exit.next == 0 && exit.until
                    == events.entries@.len(),
                Err(status) => memory.map_key != map_key && status == Status::InvalidParameter,
            },
    {
        if !memory.check_map_key(map_key) {
            return Err(Status::InvalidParameter);
        }
        Ok(Exit { next: 0, until: events.live_events() })
    }

    /// Signals the next event of the group and hands back its notification, which is
    /// to run before the next step. When there is none left, boot services end.
    pub fn step(&mut self, memory: &mut Memory, events: &mut Events) -> (more: Option<
        Option<Notification>,
    >)
        requires
            old(events).wf(),
            old(self).until <= old(events).entries@.len(),
        ensures
            final(events).wf(),
            final(events).tpl == old(events).tpl,
            final(self).until == old(self).until,
            ({
                let s = old(events).entries@;
                let k = next_in(
                    s,
                    EVENT_GROUP_EXIT_BOOT_SERVICES,
                    old(self).next as int,
                    old(self).until as int,
                );
                if k == old(self).until {
                    &&& more is None
                    &&& final(memory).ended
                    &&& *final(memory) == (Memory { ended: true, ..*old(memory) })
                    &&& final(self).next == old(self).next
                    &&& final(events).entries@ == s
                } else {
                    &&& more == Some(notification(s[k], (k + 1) as u64))
                    &&& *final(memory) == *old(memory)
                    &&& final(self).next == k + 1
                    &&& final(events).entries@ == s.update(k, EventEntry { signaled: true, ..s[k] })
                }
            }),
    {
        match events.signal_group(&EVENT_GROUP_EXIT_BOOT_SERVICES, self.next, self.until) {
            Some((index, to_run)) => {
                self.next = index + 1;
                Some(to_run)
            },
            None => {
                memory.set_boot_services_ended();
                None
            },
        }
    }
}

/// `CalculateCrc32`: the CRC-32 the specification uses, the same one table headers
/// carry.
pub fn calculate_crc32(data: Option<&[u8]>, size: usize, out: bool) -> (sum: Result<u32, Status>)
    requires
        data is Some ==> data->0@.len() == size,
    ensures
        sum == (if !out || (size > 0 && data is None) {
            Err::<u32, Status>(Status::InvalidParameter)
        } else if data is None {
            Ok::<u32, Status>(crc(Seq::<u8>::empty()))
        } else {
            Ok::<u32, Status>(crc(data->0@))
        }),
{
    if !out {
        return Err(Status::InvalidParameter);
    }
    match data {
        Some(data) => Ok(crc32(data)),
        None => {
            if size > 0 {
                return Err(Status::InvalidParameter);
            }
            let nothing: Vec<u8> = Vec::new();
            Ok(crc32(nothing.as_slice()))
        },
    }
}

/// `CopyMem`: overlapping-safe byte copy, as the specification requires.
pub fn copy_mem(memory: &mut Vec<u8>, destination: usize, source: usize, size: usize)
    requires
        destination + size <= old(memory)@.len(),
        source + size <= old(memory)@.len(),
    ensures
        final(memory)@ == put(
            old(memory)@,
            destination as int,
            old(memory)@.subrange(source as int, source + size),
        ),
{
    let _size: usize = memory.len();
    let bytes: Vec<u8> = crate::bytes::copy_range(memory.as_slice(), source, source + size);
    put_slice(memory, destination, bytes.as_slice());
}

/// `SetMem`.
pub fn set_mem(memory: &mut Vec<u8>, buffer: usize, size: usize, value: u8)
    requires
        buffer + size <= old(memory)@.len(),
    ensures
        final(memory)@ == put(
            old(memory)@,
            buffer as int,
            crate::bytes::fill(size as nat, value),
        ),
{
    let mut bytes: Vec<u8> = Vec::new();
    crate::bytes::push_fill(&mut bytes, size, value);
    assert(bytes@ =~= crate::bytes::fill(size as nat, value));
    put_slice(memory, buffer, bytes.as_slice());
}

/// `SetWatchdogTimer`: this firmware has no watchdog. Accept the request so an
/// application that arms one does not treat it as an error.
pub fn set_watchdog_timer() -> (status: Status)
    ensures
        status == Status::Success,
{
    Status::Success
}

/// The monotonic counters.
pub struct Counters {
    pub next: u64,
    pub high: u32,
}

impl Counters {
    pub fn new() -> (counters: Counters)
        ensures
            counters.next == 1,
            counters.high == 1,
    {
        Counters { next: 1, high: 1 }
    }

    /// `GetNextMonotonicCount`: a counter that only ever goes up, which an increment
    /// satisfies.
    pub fn get_next_monotonic_count(&mut self, out: bool) -> (count: Result<u64, Status>)
        ensures
            final(self).high == old(self).high,
            if out {
                &&& count == Ok::<u64, Status>(old(self).next)
                &&& final(self).next == (if old(self).next == u64::MAX {
                    u64::MAX
                } else {
                    (old(self).next + 1) as u64
                })
            } else {
                &&& count == Err::<u64, Status>(Status::InvalidParameter)
                &&& final(self).next == old(self).next
            },
    {
        if !out {
            return Err(Status::InvalidParameter);
        }
        let value: u64 = self.next;
        self.next = value.saturating_add(1);
        Ok(value)
    }

    /// `GetNextHighMonotonicCount`: the high half of a 64-bit monotonic counter,
    /// which only has to never go backwards.
    pub fn get_next_high_monotonic_count(&mut self, out: bool) -> (count: Result<u32, Status>)
        ensures
            final(self).next == old(self).next,
            if out {
                &&& count == Ok::<u32, Status>(old(self).high)
                &&& final(self).high == (if old(self).high == u32::MAX {
                    u32::MAX
                } else {
                    (old(self).high + 1) as u32
                })
            } else {
                &&& count == Err::<u32, Status>(Status::InvalidParameter)
                &&& final(self).high == old(self).high
            },
    {
        if !out {
            return Err(Status::InvalidParameter);
        }
        let value: u32 = self.high;
        self.high = value.saturating_add(1);
        Ok(value)
    }
}

/// What a service this firmware does not implement answers: `ConnectController`,
/// `DisconnectController`, and installing or uninstalling several protocols at once.
/// The alternative, leaving the entry unset, would send an application into invalid
/// memory.
pub fn unsupported() -> (status: Status)
    ensures
        status == Status::Unsupported,
{
    Status::Unsupported
}

} // verus!
