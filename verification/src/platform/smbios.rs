//! The SMBIOS records this platform publishes.
//!
//! What is here is the content, for this machine; the field offsets, the string pool,
//! the two entry points, and the checksums are the table's business.
//!
//! Two things the DXE phase cannot see are left as "unknown" rather than guessed: the
//! number of application processors, and the installed memory. The fields that
//! describe either carry zero, which the specification defines as unknown.
use crate::bytes::le_bytes;
use crate::text::{hex_text, push_hex, texts};
use vstd::prelude::*;

verus! {

/// The SMBIOS revision the table claims. 3.7 is what the records below need.
pub const VERSION_MAJOR: u8 = 3;

pub const VERSION_MINOR: u8 = 7;

/// Recognisable, fixed system UUID. A machine with no serial number of its own still
/// has to report something the OS can key on.
pub const SYSTEM_UUID: [u8; 16] = [
    0x57, 0x65, 0x69, 0x72, 0x00, 0x01, 0x40, 0x00, 0x80, 0x00, 0x51, 0x45, 0x4d, 0x55, 0x00, 0x02,
];

/// The handle of a chassis that could not be recorded: the specification's answer for
/// a board that has no enclosure to name.
pub const NO_CHASSIS: u16 = 0xffff;

pub const WAKE_UP_POWER_SWITCH: u8 = 6;

pub const CHASSIS_DESKTOP: u8 = 3;

pub const STATE_SAFE: u8 = 3;

pub const SECURITY_UNKNOWN: u8 = 2;

pub const BOARD_MOTHERBOARD: u8 = 10;

pub const PROCESSOR_CENTRAL: u8 = 3;

pub const UPGRADE_NONE: u8 = 6;

pub const FAMILY_ARMV8: u16 = 257;

/// The platform's SMBIOS provider.
pub struct TintedSmbios;

/// Whether a string number of a record is one of its strings.
pub open spec fn names(number: u8, strings: nat) -> bool {
    1 <= number <= strings
}

/// Type 0: what the firmware is.
pub struct BiosInformation {
    pub vendor: u8,
    pub firmware_version: u8,
    pub bios_starting_address_segment: u16,
    pub firmware_release_date: u8,
    pub firmware_rom_size: u8,
    pub characteristics: u64,
    pub acpi_supported: bool,
    pub uefi_spec_supported: bool,
    pub system_bios_major_release: u8,
    pub system_bios_minor_release: u8,
    pub embedded_controller_major_release: u8,
    pub embedded_controller_minor_release: u8,
    pub extended_bios_rom_size: u16,
    pub strings: Vec<String>,
}

/// Type 0: what the firmware is.
pub fn bios_information() -> (record: BiosInformation)
    ensures
        record.vendor == 1,
        record.firmware_version == 2,
        record.bios_starting_address_segment == 0,
        record.firmware_release_date == 3,
        record.firmware_rom_size == 0xff,
        record.characteristics == 0,
        record.acpi_supported,
        record.uefi_spec_supported,
        record.system_bios_major_release == 0,
        record.system_bios_minor_release == 1,
        record.embedded_controller_major_release == 0xff,
        record.embedded_controller_minor_release == 0xff,
        record.extended_bios_rom_size == 0,
        texts(record.strings@) == seq![
            "Tinted Software"@,
            "Tinted Boot 0.1"@,
            "01/01/2026"@,
        ],
        names(record.vendor, record.strings@.len()),
        names(record.firmware_version, record.strings@.len()),
        names(record.firmware_release_date, record.strings@.len()),
{
    let mut strings: Vec<String> = Vec::new();
    strings.push(String::from_str("Tinted Software"));
    strings.push(String::from_str("Tinted Boot 0.1"));
    strings.push(String::from_str("01/01/2026"));
    assert(texts(strings@) =~= seq![
        "Tinted Software"@,
        "Tinted Boot 0.1"@,
        "01/01/2026"@,
    ]);
    BiosInformation {
        vendor: 1,
        firmware_version: 2,
        bios_starting_address_segment: 0,
        firmware_release_date: 3,
        firmware_rom_size: 0xff,
        characteristics: 0,
        acpi_supported: true,
        uefi_spec_supported: true,
        system_bios_major_release: 0,
        system_bios_minor_release: 1,
        embedded_controller_major_release: 0xff,
        embedded_controller_minor_release: 0xff,
        extended_bios_rom_size: 0,
        strings,
    }
}

/// Type 1: what the machine is.
pub struct SystemInformation {
    pub manufacturer: u8,
    pub product_name: u8,
    pub version: u8,
    pub serial_number: u8,
    pub uuid: [u8; 16],
    pub wake_up_type: u8,
    pub sku_number: u8,
    pub family: u8,
    pub strings: Vec<String>,
}

/// Type 1: what the machine is.
pub fn system_information() -> (record: SystemInformation)
    ensures
        record.manufacturer == 1,
        record.product_name == 2,
        record.version == 3,
        record.serial_number == 4,
        record.uuid@ == SYSTEM_UUID@,
        record.wake_up_type == WAKE_UP_POWER_SWITCH,
        record.sku_number == 5,
        record.family == 6,
        texts(record.strings@) == seq![
            "QEMU"@,
            "QEMU AArch64 Virtual Machine"@,
            "1.0"@,
            "0"@,
            "0"@,
            "QEMU"@,
        ],
        names(record.manufacturer, record.strings@.len()),
        names(record.product_name, record.strings@.len()),
        names(record.version, record.strings@.len()),
        names(record.serial_number, record.strings@.len()),
        names(record.sku_number, record.strings@.len()),
        names(record.family, record.strings@.len()),
{
    let mut strings: Vec<String> = Vec::new();
    strings.push(String::from_str("QEMU"));
    strings.push(String::from_str("QEMU AArch64 Virtual Machine"));
    strings.push(String::from_str("1.0"));
    strings.push(String::from_str("0"));
    strings.push(String::from_str("0"));
    strings.push(String::from_str("QEMU"));
    assert(texts(strings@) =~= seq![
        "QEMU"@,
        "QEMU AArch64 Virtual Machine"@,
        "1.0"@,
        "0"@,
        "0"@,
        "QEMU"@,
    ]);
    SystemInformation {
        manufacturer: 1,
        product_name: 2,
        version: 3,
        serial_number: 4,
        uuid: SYSTEM_UUID,
        wake_up_type: WAKE_UP_POWER_SWITCH,
        sku_number: 5,
        family: 6,
        strings,
    }
}

/// Type 3: the enclosure the board sits in. An emulated machine has none, so this
/// describes the machine's own case in the terms an operating system expects to find
/// something in.
pub struct Enclosure {
    pub manufacturer: u8,
    pub enclosure_type: u8,
    pub version: u8,
    pub serial_number: u8,
    pub asset_tag_number: u8,
    pub bootup_state: u8,
    pub power_supply_state: u8,
    pub thermal_state: u8,
    pub security_status: u8,
    pub oem_defined: u32,
    pub height: u8,
    pub number_of_power_cords: u8,
    pub contained_element_count: u8,
    pub contained_element_record_length: u8,
    pub strings: Vec<String>,
}

/// Type 3: the enclosure the board sits in. An emulated machine has none, so this
/// describes the machine's own case in the terms an operating system expects to find
/// something in.
pub fn enclosure_information() -> (record: Enclosure)
    ensures
        record.manufacturer == 1,
        record.enclosure_type == CHASSIS_DESKTOP,
        record.version == 2,
        record.serial_number == 3,
        record.asset_tag_number == 4,
        record.bootup_state == STATE_SAFE,
        record.power_supply_state == STATE_SAFE,
        record.thermal_state == STATE_SAFE,
        record.security_status == SECURITY_UNKNOWN,
        record.oem_defined == 0,
        record.height == 0,
        record.number_of_power_cords == 0,
        record.contained_element_count == 0,
        record.contained_element_record_length == 0,
        texts(record.strings@) == seq![
            "QEMU"@,
            "QEMU virt"@,
            "0"@,
            "0"@,
        ],
        names(record.manufacturer, record.strings@.len()),
        names(record.version, record.strings@.len()),
        names(record.serial_number, record.strings@.len()),
        names(record.asset_tag_number, record.strings@.len()),
{
    let mut strings: Vec<String> = Vec::new();
    strings.push(String::from_str("QEMU"));
    strings.push(String::from_str("QEMU virt"));
    strings.push(String::from_str("0"));
    strings.push(String::from_str("0"));
    assert(texts(strings@) =~= seq![
        "QEMU"@,
        "QEMU virt"@,
        "0"@,
        "0"@,
    ]);
    Enclosure {
        manufacturer: 1,
        enclosure_type: CHASSIS_DESKTOP,
        version: 2,
        serial_number: 3,
        asset_tag_number: 4,
        bootup_state: STATE_SAFE,
        power_supply_state: STATE_SAFE,
        thermal_state: STATE_SAFE,
        security_status: SECURITY_UNKNOWN,
        oem_defined: 0,
        height: 0,
        number_of_power_cords: 0,
        contained_element_count: 0,
        contained_element_record_length: 0,
        strings,
    }
}

/// Type 2: the board inside it.
pub struct Baseboard {
    pub manufacturer: u8,
    pub product: u8,
    pub version: u8,
    pub serial_number: u8,
    pub asset_tag: u8,
    pub hosting_board: bool,
    pub replaceable_board: bool,
    pub location_in_chassis: u8,
    pub chassis_handle: u16,
    pub board_type: u8,
    pub contained_object_handles: u8,
    pub strings: Vec<String>,
}

/// Type 2: the board inside it.
pub fn baseboard_information(chassis_handle: u16) -> (record: Baseboard)
    ensures
        record.manufacturer == 1,
        record.product == 2,
        record.version == 3,
        record.serial_number == 4,
        record.asset_tag == 5,
        record.hosting_board,
        record.replaceable_board,
        record.location_in_chassis == 6,
        record.chassis_handle == chassis_handle,
        record.board_type == BOARD_MOTHERBOARD,
        record.contained_object_handles == 0,
        texts(record.strings@) == seq![
            "QEMU"@,
            "QEMU virt"@,
            "1.0"@,
            "0"@,
            "0"@,
            "Onboard"@,
        ],
        names(record.manufacturer, record.strings@.len()),
        names(record.product, record.strings@.len()),
        names(record.version, record.strings@.len()),
        names(record.serial_number, record.strings@.len()),
        names(record.asset_tag, record.strings@.len()),
        names(record.location_in_chassis, record.strings@.len()),
{
    let mut strings: Vec<String> = Vec::new();
    strings.push(String::from_str("QEMU"));
    strings.push(String::from_str("QEMU virt"));
    strings.push(String::from_str("1.0"));
    strings.push(String::from_str("0"));
    strings.push(String::from_str("0"));
    strings.push(String::from_str("Onboard"));
    assert(texts(strings@) =~= seq![
        "QEMU"@,
        "QEMU virt"@,
        "1.0"@,
        "0"@,
        "0"@,
        "Onboard"@,
    ]);
    Baseboard {
        manufacturer: 1,
        product: 2,
        version: 3,
        serial_number: 4,
        asset_tag: 5,
        hosting_board: true,
        replaceable_board: true,
        location_in_chassis: 6,
        chassis_handle,
        board_type: BOARD_MOTHERBOARD,
        contained_object_handles: 0,
        strings,
    }
}

/// Type 4: the processor the firmware runs on.
///
/// The identification is the architecture's: the processor ID field carries the MIDR,
/// and the version string repeats it because naming the part would mean carrying a
/// table of implementer and part numbers. The counts are zero, which the specification
/// reads as unknown.
pub struct Processor {
    pub socket_designation: u8,
    pub processor_type: u8,
    pub processor_family: u8,
    pub processor_manufacturer: u8,
    pub processor_id: [u8; 8],
    pub processor_version: u8,
    pub voltage_legacy: bool,
    pub external_clock: u16,
    pub max_speed: u16,
    pub current_speed: u16,
    pub cpu_status: u8,
    pub cpu_socket_populated: bool,
    pub processor_upgrade: u8,
    pub l1_cache_handle: u16,
    pub l2_cache_handle: u16,
    pub l3_cache_handle: u16,
    pub serial_number: u8,
    pub asset_tag: u8,
    pub part_number: u8,
    pub core_count: u8,
    pub core_enabled: u8,
    pub thread_count: u8,
    pub capable_64bit: bool,
    pub processor_family2: u16,
    pub core_count2: u16,
    pub core_enabled2: u16,
    pub thread_count2: u16,
    pub strings: Vec<String>,
}

/// Type 4: the processor the firmware runs on.
///
/// The identification is the architecture's: the processor ID field carries the MIDR,
/// and the version string repeats it because naming the part would mean carrying a
/// table of implementer and part numbers. The counts are zero, which the specification
/// reads as unknown.
pub fn processor_information(midr: u64) -> (record: Processor)
    ensures
        record.socket_designation == 1,
        record.processor_type == PROCESSOR_CENTRAL,
        record.processor_family == 0xfe,
        record.processor_manufacturer == 2,
        record.processor_id@ == le_bytes((midr % 0x1_0000_0000) as nat, 4) + seq![0u8, 0u8, 0u8, 0u8],
        record.processor_version == 3,
        record.voltage_legacy,
        record.external_clock == 0,
        record.max_speed == 0,
        record.current_speed == 0,
        record.cpu_status == 1,
        record.cpu_socket_populated,
        record.processor_upgrade == UPGRADE_NONE,
        record.l1_cache_handle == 0xffff,
        record.l2_cache_handle == 0xffff,
        record.l3_cache_handle == 0xffff,
        record.serial_number == 4,
        record.asset_tag == 5,
        record.part_number == 6,
        record.core_count == 0,
        record.core_enabled == 0,
        record.thread_count == 0,
        record.capable_64bit,
        record.processor_family2 == FAMILY_ARMV8,
        record.core_count2 == 0,
        record.core_enabled2 == 0,
        record.thread_count2 == 0,
        texts(record.strings@) == seq![
            "CPU0"@,
            "ARM"@,
            hex_text((midr % 0x1_0000_0000) as nat),
            "0"@,
            "0"@,
            "0"@,
            "0"@,
        ],
        names(record.socket_designation, record.strings@.len()),
        names(record.processor_manufacturer, record.strings@.len()),
        names(record.processor_version, record.strings@.len()),
        names(record.serial_number, record.strings@.len()),
        names(record.asset_tag, record.strings@.len()),
        names(record.part_number, record.strings@.len()),
{
    let mut strings: Vec<String> = Vec::new();
    let mut version: String = String::new();
    push_hex(&mut version, midr % 0x1_0000_0000);
    assert(version@ =~= hex_text((midr % 0x1_0000_0000) as nat));
    strings.push(String::from_str("CPU0"));
    strings.push(String::from_str("ARM"));
    strings.push(version);
    strings.push(String::from_str("0"));
    strings.push(String::from_str("0"));
    strings.push(String::from_str("0"));
    strings.push(String::from_str("0"));
    assert(texts(strings@) =~= seq![
        "CPU0"@,
        "ARM"@,
        hex_text((midr % 0x1_0000_0000) as nat),
        "0"@,
        "0"@,
        "0"@,
        "0"@,
    ]);
    Processor {
        socket_designation: 1,
        processor_type: PROCESSOR_CENTRAL,
        processor_family: 0xfe,
        processor_manufacturer: 2,
        processor_id: processor_identification(midr),
        processor_version: 3,
        voltage_legacy: true,
        external_clock: 0,
        max_speed: 0,
        current_speed: 0,
        cpu_status: 1,
        cpu_socket_populated: true,
        processor_upgrade: UPGRADE_NONE,
        l1_cache_handle: 0xffff,
        l2_cache_handle: 0xffff,
        l3_cache_handle: 0xffff,
        serial_number: 4,
        asset_tag: 5,
        part_number: 6,
        core_count: 0,
        core_enabled: 0,
        thread_count: 0,
        capable_64bit: true,
        processor_family2: FAMILY_ARMV8,
        core_count2: 0,
        core_enabled2: 0,
        thread_count2: 0,
        strings,
    }
}

/// The architecture defines the processor ID field as the MIDR, which is four bytes, in
/// the low half of the eight the field has.
pub fn processor_identification(midr: u64) -> (id: [u8; 8])
    ensures
        id@ == le_bytes((midr % 0x1_0000_0000) as nat, 4) + seq![0u8, 0u8, 0u8, 0u8],
{
    let low: u64 = midr % 0x1_0000_0000;
    let second: u64 = low / 256;
    let third: u64 = second / 256;
    let fourth: u64 = third / 256;
    let id: [u8; 8] = [
        (low % 256) as u8,
        (second % 256) as u8,
        (third % 256) as u8,
        (fourth % 256) as u8,
        0,
        0,
        0,
        0,
    ];
    proof {
        assert(le_bytes((fourth / 256) as nat, 0) =~= Seq::<u8>::empty());
        assert(le_bytes(fourth as nat, 1) =~= seq![(fourth % 256) as u8]);
        assert(le_bytes(third as nat, 2) =~= seq![(third % 256) as u8, (fourth % 256) as u8]);
        assert(le_bytes(second as nat, 3) =~= seq![
            (second % 256) as u8,
            (third % 256) as u8,
            (fourth % 256) as u8,
        ]);
        assert(id@ =~= le_bytes(low as nat, 4) + seq![0u8, 0u8, 0u8, 0u8]);
    }
    id
}

/// A record the platform adds, in the order of the table.
#[derive(Clone, Copy, PartialEq, Eq, Structural, Debug)]
pub enum RecordType {
    Bios,
    System,
    Enclosure,
    Baseboard,
    Processor,
}

impl RecordType {
    /// The record's type number.
    pub open spec fn number_of(self) -> u8 {
        match self {
            RecordType::Bios => 0,
            RecordType::System => 1,
            RecordType::Enclosure => 3,
            RecordType::Baseboard => 2,
            RecordType::Processor => 4,
        }
    }

    /// The record's type number.
    pub fn number(self) -> (number: u8)
        ensures
            number == self.number_of(),
    {
        match self {
            RecordType::Bios => 0,
            RecordType::System => 1,
            RecordType::Enclosure => 3,
            RecordType::Baseboard => 2,
            RecordType::Processor => 4,
        }
    }

    /// Whether the specification requires the record.
    pub open spec fn required(self) -> bool {
        self != RecordType::Enclosure
    }
}

/// What the provider does next.
#[derive(Clone, Copy, PartialEq, Eq, Structural, Debug)]
pub enum Next {
    /// Add this record.
    Add(RecordType),
    /// Publish the table.
    Publish,
    /// A record the specification requires failed.
    Failed(RecordType),
}

impl TintedSmbios {
    /// The component has no state; the records depend on nothing but the machine's
    /// identity.
    pub fn new() -> (provider: Self)
        ensures
            provider == TintedSmbios,
    {
        TintedSmbios
    }

    /// What follows a record that was added, or that failed. The chassis comes before
    /// the board: the board's record names the chassis it sits in. A chassis that
    /// fails is done without.
    pub fn entry_point(&self, done: Option<(RecordType, bool)>) -> (next: Next)
        ensures
            next == (match done {
                None => Next::Add(RecordType::Bios),
                Some((record, added)) => if !added && record.required() {
                    Next::Failed(record)
                } else {
                    match record {
                        RecordType::Bios => Next::Add(RecordType::System),
                        RecordType::System => Next::Add(RecordType::Enclosure),
                        RecordType::Enclosure => Next::Add(RecordType::Baseboard),
                        RecordType::Baseboard => Next::Add(RecordType::Processor),
                        RecordType::Processor => Next::Publish,
                    }
                },
            }),
    {
        let (record, added): (RecordType, bool) = match done {
            Some(done) => done,
            None => {
                return Next::Add(RecordType::Bios);
            },
        };
        match record {
            RecordType::Enclosure => Next::Add(RecordType::Baseboard),
            _ => {
                if !added {
                    return Next::Failed(record);
                }
                match record {
                    RecordType::Bios => Next::Add(RecordType::System),
                    RecordType::System => Next::Add(RecordType::Enclosure),
                    RecordType::Baseboard => Next::Add(RecordType::Processor),
                    _ => Next::Publish,
                }
            },
        }
    }
}

/// The chassis handle the board's record carries: the one the chassis got, if it got
/// one.
pub fn chassis_handle(added: Option<u16>) -> (handle: u16)
    ensures
        handle == (match added {
            Some(handle) => handle,
            None => NO_CHASSIS,
        }),
{
    match added {
        Some(handle) => handle,
        None => NO_CHASSIS,
    }
}

} // verus!
