//! What the application asks of the firmware, one call after another, and what it
//! reports of the answers.
//!
//! It exercises text output, system-table headers, configuration tables, memory
//! services, pool and page allocation, protocol discovery, variables, time, and timer
//! events. Every result is printed through the console so a serial log doubles as the
//! test report.
use crate::bytes::{get_u32, get_u64, le_at};
use crate::firmware::uefi::runtime::Time;
use crate::status::{Guid, Status};
use crate::testapp::console::{
    ascii, cut, lemma_cut, line, line_of, push_status, status_text, wide, Console,
};
use crate::text::{
    decimal_text, guid_text, hex_digits, push_decimal, push_guid, push_hex_digits,
};
use vstd::prelude::*;

verus! {

pub const SUCCESS: u64 = 0;

pub const BUFFER_TOO_SMALL: u64 = 0x8000_0000_0000_0005;

pub const NOT_FOUND: u64 = 0x8000_0000_0000_000e;

/// The bit of a directory in a file's attributes.
pub const DIRECTORY: u64 = 0x10;

/// How long the timer runs: 100 ms, in 100 ns ticks.
pub const TIMER_TICKS: u64 = 1_000_000;

/// How many memory descriptors are reported.
pub const REPORTED: usize = 6;

/// What the application does next.
#[derive(Clone, Copy, PartialEq, Eq, Structural, Debug)]
pub enum Ask {
    GetMemoryMap,
    AllocatePool,
    FreePool,
    AllocatePages,
    FreePages(u64),
    /// `LocateHandleBuffer`, for the volumes.
    LocateVolumes,
    FreeVolumes,
    /// `HandleProtocol`, for this image's loaded-image protocol.
    LoadedImage,
    /// `HandleProtocol`, for the file system on the image's device.
    DeviceFileSystem,
    OpenVolume,
    ReadRoot,
    OpenKernel,
    CloseRoot,
    KernelInfo,
    AllocateKernel(u64),
    ReadKernel(u64),
    /// Release the buffer, the kernel and the root.
    Release,
    GetVariable,
    GetTime,
    CreateEvent,
    SetTimer(u64),
    WaitForEvent,
    CloseEvent,
    Return(Status),
}

/// A configuration table.
#[derive(Clone, Copy)]
pub struct ConfigurationTable {
    pub guid: Guid,
    pub table: u64,
}

/// What the system table says.
pub struct System<'a> {
    pub image_handle: u64,
    pub revision: u32,
    pub header_size: u32,
    pub crc32: u32,
    pub vendor: Option<&'a [u16]>,
    pub firmware_revision: u32,
    pub table_count: u64,
    /// The configuration tables, where there is an array of them.
    pub tables: Option<Vec<ConfigurationTable>>,
    /// Whether both service tables are there.
    pub services: bool,
}

/// What became of a call.
pub enum Reply<'a> {
    /// The buffer the map went to, and how much of it the map takes.
    MemoryMap {
        status: u64,
        map: &'a [u8],
        map_size: usize,
        map_key: u64,
        descriptor_size: usize,
    },
    PoolAllocated(u64),
    PoolFreed(u64),
    PagesAllocated { status: u64, address: u64 },
    PagesFreed(u64),
    Volumes { status: u64, count: u64 },
    VolumesFreed(u64),
    LoadedImage(u64),
    DeviceFileSystem(u64),
    VolumeOpened(u64),
    /// An entry of the root: how many bytes were read, and what they say.
    RootRead { status: u64, size: u64, name: &'a [u16], attribute: u64, file_size: u64 },
    KernelOpened(u64),
    RootClosed,
    KernelInfo(u64),
    KernelAllocated { status: u64, length: u64 },
    KernelRead {
        status: u64,
        read: u64,
        length: u64,
        /// The first bytes that were read.
        first: &'a [u8],
        start: u64,
        end: u64,
        frequency: u64,
    },
    Released,
    Variable { status: u64, size: u64 },
    Time { status: u64, time: Time },
    EventCreated(u64),
    TimerSet(u64),
    EventSignaled(u64),
    EventClosed,
}

/// Whether a status is an error: of its two top bits, the upper one is set.
pub open spec fn is_error(code: u64) -> bool {
    0x8000_0000_0000_0000 <= code < 0xc000_0000_0000_0000
}

/// A revision: the major number, and the minor one with two digits at least.
pub open spec fn revision_text(revision: u32, header_size: u32, crc32: u32) -> Seq<char> {
    "UEFI revision: "@ + decimal_text((revision / 0x1_0000) as nat) + "."@ + (if revision % 0x1_0000
        < 10 {
        "0"@
    } else {
        ""@
    }) + decimal_text((revision % 0x1_0000) as nat) + ", HeaderSize: "@ + decimal_text(
        header_size as nat,
    ) + ", Crc32: "@ + hex_digits(crc32 as nat, 8)
}

fn revision_line(revision: u32, header_size: u32, crc32: u32) -> (text: String)
    ensures
        text@ == revision_text(revision, header_size, crc32),
{
    let mut text: String = String::from_str("UEFI revision: ");
    push_decimal(&mut text, (revision / 0x1_0000) as u64);
    text.append(".");
    if revision % 0x1_0000 < 10 {
        text.append("0");
    } else {
        text.append("");
    }
    push_decimal(&mut text, (revision % 0x1_0000) as u64);
    text.append(", HeaderSize: ");
    push_decimal(&mut text, header_size as u64);
    text.append(", Crc32: ");
    push_hex_digits(&mut text, crc32 as u64, 8);
    text
}

/// The line of the vendor: its name as the firmware has it, cut where the line ends.
pub open spec fn vendor_units(vendor: Option<&[u16]>, revision: u32) -> Seq<u16> {
    cut(
        ascii("firmware vendor: "@) + wide(vendor) + ascii(
            ", revision: "@ + decimal_text(revision as nat),
        ) + seq![0x0du16, 0x0au16],
    ).push(0)
}

fn vendor_line(vendor: Option<&[u16]>, revision: u32) -> (units: Vec<u16>)
    ensures
        units@ == vendor_units(vendor, revision),
{
    let mut console: Console = Console::new();
    console.str("firmware vendor: ");
    console.wstr(vendor);
    let mut text: String = String::from_str(", revision: ");
    push_decimal(&mut text, revision as u64);
    console.str(text.as_str());
    console.nl();
    proof {
        let a = ascii("firmware vendor: "@);
        let b = wide(vendor);
        let c = ascii(", revision: "@ + decimal_text(revision as nat));
        let d = seq![0x0du16, 0x0au16];
        assert(Seq::<u16>::empty() + a =~= a);
        lemma_cut(a, b);
        lemma_cut(a + b, c);
        lemma_cut(a + b + c, d);
    }
    console.flush()
}

/// The line of a configuration table.
pub open spec fn table_text(index: nat, table: ConfigurationTable) -> Seq<char> {
    "  ["@ + decimal_text(index) + "] "@ + guid_text(table.guid@) + " -> "@ + hex_digits(
        table.table as nat,
        16,
    )
}

fn table_line(index: usize, table: &ConfigurationTable) -> (text: String)
    ensures
        text@ == table_text(index as nat, *table),
{
    let mut text: String = String::from_str("  [");
    push_decimal(&mut text, index as u64);
    text.append("] ");
    push_guid(&mut text, &table.guid);
    text.append(" -> ");
    push_hex_digits(&mut text, table.table, 16);
    text
}

/// The lines of the first `count` configuration tables.
pub open spec fn table_lines(tables: Seq<ConfigurationTable>, count: nat) -> Seq<Seq<u16>>
    decreases count,
{
    if count == 0 {
        Seq::empty()
    } else {
        table_lines(tables, (count - 1) as nat).push(
            line_of(table_text((count - 1) as nat, tables[count - 1])),
        )
    }
}

/// A line that is a number behind a label.
pub open spec fn number_text(label: Seq<char>, number: nat) -> Seq<char> {
    label + decimal_text(number)
}

fn number_line(label: &str, number: u64) -> (units: Vec<u16>)
    ensures
        units@ == line_of(number_text(label@, number as nat)),
{
    let mut text: String = String::from_str(label);
    push_decimal(&mut text, number);
    line(text.as_str())
}

/// A line that is an address behind a label.
pub open spec fn address_text(label: Seq<char>, address: u64) -> Seq<char> {
    label + hex_digits(address as nat, 16)
}

fn address_line(label: &str, address: u64) -> (units: Vec<u16>)
    ensures
        units@ == line_of(address_text(label@, address)),
{
    let mut text: String = String::from_str(label);
    push_hex_digits(&mut text, address, 16);
    line(text.as_str())
}

/// A line that is a status behind a label.
pub open spec fn call_text(label: Seq<char>, status: u64) -> Seq<char> {
    label + status_text(status)
}

fn call_line(label: &str, status: u64) -> (units: Vec<u16>)
    ensures
        units@ == line_of(call_text(label@, status)),
{
    let mut text: String = String::from_str(label);
    push_status(&mut text, status);
    line(text.as_str())
}

/// The lines, in specifications.
pub open spec fn lines_of(lines: Seq<Vec<u16>>) -> Seq<Seq<u16>> {
    Seq::new(lines.len(), |i: int| lines[i]@)
}

/// What is reported of the system table.
pub open spec fn beginning(system: System) -> Seq<Seq<u16>> {
    let head = seq![
        line_of("tinted-testapp: entry"@),
        line_of(address_text("image handle: "@, system.image_handle)),
        line_of(revision_text(system.revision, system.header_size, system.crc32)),
        vendor_units(system.vendor, system.firmware_revision),
        line_of(number_text("configuration tables: "@, system.table_count as nat)),
    ];
    let tables = match system.tables {
        Some(tables) => head + table_lines(tables@, tables@.len()),
        None => head,
    };
    if system.services {
        tables
    } else {
        tables.push(line_of("boot/runtime services missing; stopping probes"@))
    }
}

/// Begins: what is reported of the system table, and the first call. Without a system
/// table there is nothing to do.
pub fn begin(system: Option<&System>) -> (answer: (Vec<Vec<u16>>, Ask))
    ensures
        match system {
            Some(system) => lines_of(answer.0@) == beginning(*system) && answer.1 == (
            if system.services {
                Ask::GetMemoryMap
            } else {
                Ask::Return(Status::Unsupported)
            }),
            None => answer.0@.len() == 0 && answer.1 == Ask::Return(Status::InvalidParameter),
        },
{
    let mut lines: Vec<Vec<u16>> = Vec::new();
    let system: &System = match system {
        Some(system) => system,
        None => {
            return (lines, Ask::Return(Status::InvalidParameter));
        },
    };
    lines.push(line("tinted-testapp: entry"));
    lines.push(address_line("image handle: ", system.image_handle));
    lines.push(
        line(revision_line(system.revision, system.header_size, system.crc32).as_str()),
    );
    lines.push(vendor_line(system.vendor, system.firmware_revision));
    lines.push(number_line("configuration tables: ", system.table_count));
    let ghost head = lines_of(lines@);
    assert(head =~= seq![
        line_of("tinted-testapp: entry"@),
        line_of(address_text("image handle: "@, system.image_handle)),
        line_of(revision_text(system.revision, system.header_size, system.crc32)),
        vendor_units(system.vendor, system.firmware_revision),
        line_of(number_text("configuration tables: "@, system.table_count as nat)),
    ]);
    match &system.tables {
        Some(tables) => {
            let mut next: usize = 0;
            assert(lines_of(lines@) =~= head + table_lines(tables@, 0));
            while next < tables.len()
                invariant
                    next <= tables@.len(),
                    lines_of(lines@) == head + table_lines(tables@, next as nat),
                decreases tables@.len() - next,
            {
                let ghost before = lines@;
                lines.push(line(table_line(next, &tables[next]).as_str()));
                next = next + 1;
                assert(lines_of(lines@) =~= head + table_lines(tables@, next as nat)) by {
                    assert(lines_of(lines@) =~= lines_of(before).push(lines@.last()@));
                }
            }
        },
        None => {},
    }
    let ghost so_far = lines_of(lines@);
    if !system.services {
        lines.push(line("boot/runtime services missing; stopping probes"));
        assert(lines_of(lines@) =~= so_far.push(
            line_of("boot/runtime services missing; stopping probes"@),
        ));
        return (lines, Ask::Return(Status::Unsupported));
    }
    (lines, Ask::GetMemoryMap)
}

/// The line of a memory descriptor.
pub open spec fn descriptor_text(map: Seq<u8>, at: int, index: nat) -> Seq<char> {
    "  desc["@ + decimal_text(index) + "] type="@ + decimal_text(le_at(map, at, 4)) + " start="@
        + hex_digits(le_at(map, at + 8, 8), 16) + " pages="@ + decimal_text(le_at(map, at + 24, 8))
        + " attr="@ + hex_digits(le_at(map, at + 32, 8), 16)
}

fn descriptor_line(map: &[u8], at: usize, index: usize) -> (text: String)
    requires
        at + 40 <= map@.len(),
    ensures
        text@ == descriptor_text(map@, at as int, index as nat),
{
    let _size: usize = map.len();
    let mut text: String = String::from_str("  desc[");
    push_decimal(&mut text, index as u64);
    text.append("] type=");
    push_decimal(&mut text, get_u32(map, at) as u64);
    text.append(" start=");
    push_hex_digits(&mut text, get_u64(map, at + 8), 16);
    text.append(" pages=");
    push_decimal(&mut text, get_u64(map, at + 24));
    text.append(" attr=");
    push_hex_digits(&mut text, get_u64(map, at + 32), 16);
    text
}

/// The lines of the first `count` descriptors of a map.
pub open spec fn descriptor_lines(map: Seq<u8>, size: int, count: nat) -> Seq<Seq<u16>>
    decreases count,
{
    if count == 0 {
        Seq::empty()
    } else {
        descriptor_lines(map, size, (count - 1) as nat).push(
            line_of(descriptor_text(map, (count - 1) * size, (count - 1) as nat)),
        )
    }
}

/// What is said of a map as a whole.
pub open spec fn map_text(count: nat, descriptor_size: nat, map_key: u64) -> Seq<char> {
    "  descriptors: "@ + decimal_text(count) + ", descriptor size: "@ + decimal_text(
        descriptor_size,
    ) + ", map key: "@ + hex_digits(map_key as nat, 16)
}

/// Whether a buffer holds a map of a size, and the descriptors that are reported even
/// where they lie closer together than they are long.
pub open spec fn holds_map(map: Seq<u8>, map_size: usize) -> bool {
    map_size <= map.len() && REPORTED * 40 <= map.len()
}

/// How many descriptors of a map are reported.
pub open spec fn reported(count: int) -> nat {
    if count < REPORTED {
        count as nat
    } else {
        REPORTED as nat
    }
}

/// What is reported of the memory map in a buffer: its descriptors are `size` bytes
/// apart, however long they are.
pub open spec fn map_lines(
    status: u64,
    map: Seq<u8>,
    map_size: usize,
    map_key: u64,
    size: usize,
) -> Seq<Seq<u16>> {
    let head = seq![line_of(call_text("GetMemoryMap: "@, status))];
    if status == SUCCESS && size > 0 {
        let count = map_size as nat / (size as nat);
        head.push(line_of(map_text(count, size as nat, map_key))) + descriptor_lines(
            map,
            size as int,
            reported(count as int),
        )
    } else {
        head
    }
}

fn report_map(status: u64, map: &[u8], map_size: usize, map_key: u64, size: usize) -> (lines: Vec<
    Vec<u16>,
>)
    requires
        status == SUCCESS ==> holds_map(map@, map_size),
    ensures
        lines_of(lines@) == map_lines(status, map@, map_size, map_key, size),
{
    let mut lines: Vec<Vec<u16>> = Vec::new();
    lines.push(call_line("GetMemoryMap: ", status));
    assert(lines_of(lines@) =~= seq![line_of(call_text("GetMemoryMap: "@, status))]);
    if status != SUCCESS || size == 0 {
        return lines;
    }
    let held: usize = map.len();
    let count: usize = map_size / size;
    let mut text: String = String::from_str("  descriptors: ");
    push_decimal(&mut text, count as u64);
    text.append(", descriptor size: ");
    push_decimal(&mut text, size as u64);
    text.append(", map key: ");
    push_hex_digits(&mut text, map_key, 16);
    lines.push(line(text.as_str()));
    let ghost head = lines_of(lines@);
    assert(head =~= seq![line_of(call_text("GetMemoryMap: "@, status))].push(
        line_of(map_text(count as nat, size as nat, map_key)),
    ));
    let shown: usize = if count < REPORTED {
        count
    } else {
        REPORTED
    };
    proof {
        assert(count * size <= map_size) by (nonlinear_arith)
            requires
                count == map_size as nat / (size as nat),
                size > 0,
        ;
    }
    let mut next: usize = 0;
    let mut at: usize = 0;
    assert(lines_of(lines@) =~= head + descriptor_lines(map@, size as int, 0));
    while next < shown
        invariant
            next <= shown <= count,
            shown <= REPORTED,
            at == next * size,
            count * size <= map_size <= map@.len(),
            REPORTED * 40 <= held,
            held == map@.len(),
            lines_of(lines@) == head + descriptor_lines(map@, size as int, next as nat),
        decreases shown - next,
    {
        proof {
            assert((next + 1) * size <= count * size) by (nonlinear_arith)
                requires
                    next + 1 <= count,
            ;
            assert((next + 1) * size == next * size + size) by (nonlinear_arith);
            if size < 40 {
                assert(next * size <= next * 40) by (nonlinear_arith)
                    requires
                        size < 40,
                        0 <= next,
                ;
            }
        }
        let _size: usize = map.len();
        let ghost before = lines@;
        lines.push(line(descriptor_line(map, at, next).as_str()));
        next = next + 1;
        at = at + size;
        assert(lines_of(lines@) =~= head + descriptor_lines(map@, size as int, next as nat)) by {
            assert(lines_of(lines@) =~= lines_of(before).push(lines@.last()@));
        }
    }
    lines
}

/// The line of an entry of the root: its name as the firmware has it, a backslash
/// behind a directory's, and its size.
pub open spec fn entry_units(name: &[u16], attribute: u64, file_size: u64) -> Seq<u16> {
    cut(
        ascii("  \\"@) + wide(Some(name)) + ascii(
            (if is_directory(attribute) {
                "\\"@
            } else {
                ""@
            }) + "  "@ + decimal_text(file_size as nat),
        ) + seq![0x0du16, 0x0au16],
    ).push(0)
}

/// Whether a file's attributes say that it is a directory.
pub open spec fn is_directory(attribute: u64) -> bool {
    (attribute / DIRECTORY) % 2 == 1
}

fn entry_line(name: &[u16], attribute: u64, file_size: u64) -> (units: Vec<u16>)
    ensures
        units@ == entry_units(name, attribute, file_size),
{
    let mut console: Console = Console::new();
    console.str("  \\");
    console.wstr(Some(name));
    let mut text: String = if (attribute / DIRECTORY) % 2 == 1 {
        String::from_str("\\")
    } else {
        String::from_str("")
    };
    text.append("  ");
    push_decimal(&mut text, file_size);
    console.str(text.as_str());
    console.nl();
    proof {
        let a = ascii("  \\"@);
        let b = wide(Some(name));
        let c = ascii(text@);
        let d = seq![0x0du16, 0x0au16];
        assert(Seq::<u16>::empty() + a =~= a);
        lemma_cut(a, b);
        lemma_cut(a + b, c);
        lemma_cut(a + b + c, d);
    }
    console.flush()
}

/// How many milliseconds a read took.
pub open spec fn elapsed(start: u64, end: u64, frequency: u64) -> nat {
    ((end - start) * 1000 / (frequency as int)) as nat
}

/// The first four bytes of a kernel, as a number, when so many were read.
pub open spec fn magic(read: u64, first: Seq<u8>) -> nat {
    if read >= 4 {
        le_at(first, 0, 4)
    } else {
        0
    }
}

/// The line of the kernel that was read.
pub open spec fn kernel_text(
    status: u64,
    read: u64,
    length: u64,
    milliseconds: nat,
    magic: nat,
) -> Seq<char> {
    "\\KERNEL: "@ + status_text(status) + ", "@ + decimal_text(read as nat) + " of "@ + decimal_text(
        length as nat,
    ) + " bytes in "@ + decimal_text(milliseconds) + " ms, magic "@ + hex_digits(magic, 8)
}

fn kernel_line(status: u64, read: u64, length: u64, milliseconds: u64, magic: u32) -> (units: Vec<
    u16,
>)
    ensures
        units@ == line_of(kernel_text(status, read, length, milliseconds as nat, magic as nat)),
{
    let mut text: String = String::from_str("\\KERNEL: ");
    push_status(&mut text, status);
    text.append(", ");
    push_decimal(&mut text, read);
    text.append(" of ");
    push_decimal(&mut text, length);
    text.append(" bytes in ");
    push_decimal(&mut text, milliseconds);
    text.append(" ms, magic ");
    push_hex_digits(&mut text, magic as u64, 8);
    line(text.as_str())
}

/// The line of the variable: its size where it is known.
pub open spec fn variable_text(status: u64, size: u64) -> Seq<char> {
    if status == BUFFER_TOO_SMALL || status == SUCCESS {
        "GetVariable(BootOrder): size="@ + decimal_text(size as nat) + " bytes, status="@
            + status_text(status)
    } else {
        "GetVariable(BootOrder): "@ + status_text(status)
    }
}

fn variable_line(status: u64, size: u64) -> (units: Vec<u16>)
    ensures
        units@ == line_of(variable_text(status, size)),
{
    if status == BUFFER_TOO_SMALL || status == SUCCESS {
        let mut text: String = String::from_str("GetVariable(BootOrder): size=");
        push_decimal(&mut text, size);
        text.append(" bytes, status=");
        push_status(&mut text, status);
        line(text.as_str())
    } else {
        call_line("GetVariable(BootOrder): ", status)
    }
}

/// The line of the time: the fields behind the year as two hex digits each.
pub open spec fn time_text(status: u64, time: Time) -> Seq<char> {
    if is_error(status) {
        "GetTime: "@ + status_text(status)
    } else {
        "GetTime: "@ + status_text(status) + " "@ + decimal_text(time.year as nat) + "-"@
            + hex_digits(time.month as nat, 2) + "-"@ + hex_digits(time.day as nat, 2) + " "@
            + hex_digits(time.hour as nat, 2) + ":"@ + hex_digits(time.minute as nat, 2) + ":"@
            + hex_digits(time.second as nat, 2)
    }
}

fn time_line(status: u64, time: &Time) -> (units: Vec<u16>)
    ensures
        units@ == line_of(time_text(status, *time)),
{
    let mut text: String = String::from_str("GetTime: ");
    push_status(&mut text, status);
    if 0x8000_0000_0000_0000 <= status && status < 0xc000_0000_0000_0000 {
        return line(text.as_str());
    }
    text.append(" ");
    push_decimal(&mut text, time.year as u64);
    text.append("-");
    push_hex_digits(&mut text, time.month as u64, 2);
    text.append("-");
    push_hex_digits(&mut text, time.day as u64, 2);
    text.append(" ");
    push_hex_digits(&mut text, time.hour as u64, 2);
    text.append(":");
    push_hex_digits(&mut text, time.minute as u64, 2);
    text.append(":");
    push_hex_digits(&mut text, time.second as u64, 2);
    line(text.as_str())
}

/// Whether a reply is one that can be made sense of: a map inside its buffer, and a
/// clock that runs and does not overflow.
pub open spec fn sensible(reply: Reply) -> bool {
    match reply {
        Reply::MemoryMap { status, map, map_size, .. } => status == SUCCESS ==> holds_map(
            map@,
            map_size,
        ),
        Reply::KernelRead { read, first, start, end, frequency, .. } => {
            &&& frequency > 0
            &&& start <= end
            &&& (end - start) * 1000 <= u64::MAX
            &&& read >= 4 ==> first@.len() >= 4
        },
        _ => true,
    }
}

/// What is reported of a reply, and what is done next.
pub open spec fn reported_of(reply: Reply) -> (Seq<Seq<u16>>, Ask) {
    match reply {
        Reply::MemoryMap { status, map, map_size, map_key, descriptor_size } => (
            map_lines(status, map@, map_size, map_key, descriptor_size),
            Ask::AllocatePool,
        ),
        Reply::PoolAllocated(status) => {
            let said = line_of(call_text("AllocatePool(4 KiB): "@, status));
            if status == SUCCESS {
                (seq![said], Ask::FreePool)
            } else {
                (seq![said, line_of("FreePool: skipped (allocate failed)"@)], Ask::AllocatePages)
            }
        },
        Reply::PoolFreed(status) => (
            seq![line_of(call_text("FreePool: "@, status))],
            Ask::AllocatePages,
        ),
        Reply::PagesAllocated { status, address } => {
            let said = line_of(call_text("AllocatePages(1 page): "@, status));
            if status == SUCCESS {
                (
                    seq![said, line_of(address_text("  page address: "@, address))],
                    Ask::FreePages(address),
                )
            } else {
                (seq![said, line_of("FreePages: skipped (allocate failed)"@)], Ask::LocateVolumes)
            }
        },
        Reply::PagesFreed(status) => (
            seq![line_of(call_text("FreePages: "@, status))],
            Ask::LocateVolumes,
        ),
        Reply::Volumes { status, count } => {
            let said = line_of(call_text("LocateHandleBuffer(SIMPLE_FILE_SYSTEM): "@, status));
            if status == SUCCESS {
                (
                    seq![said, line_of(number_text("  volumes: "@, count as nat))],
                    Ask::FreeVolumes,
                )
            } else if status == NOT_FOUND {
                (seq![said, line_of("  volumes: 0"@)], Ask::LoadedImage)
            } else {
                (seq![said], Ask::LoadedImage)
            }
        },
        Reply::VolumesFreed(status) => (
            seq![line_of(call_text("FreePool(handles): "@, status))],
            Ask::LoadedImage,
        ),
        Reply::LoadedImage(status) => (
            seq![line_of(call_text("LoadedImage: "@, status))],
            if status == SUCCESS {
                Ask::DeviceFileSystem
            } else {
                Ask::GetVariable
            },
        ),
        Reply::DeviceFileSystem(status) => (
            seq![line_of(call_text("DeviceHandle SimpleFileSystem: "@, status))],
            if status == SUCCESS {
                Ask::OpenVolume
            } else {
                Ask::GetVariable
            },
        ),
        Reply::VolumeOpened(status) => (
            Seq::empty(),
            if status == SUCCESS {
                Ask::ReadRoot
            } else {
                Ask::GetVariable
            },
        ),
        Reply::RootRead { status, size, name, attribute, file_size } => if status != SUCCESS || size
            == 0 {
            (Seq::empty(), Ask::OpenKernel)
        } else {
            (seq![entry_units(name, attribute, file_size)], Ask::ReadRoot)
        },
        Reply::KernelOpened(status) => if status == SUCCESS {
            (Seq::empty(), Ask::KernelInfo)
        } else {
            (seq![line_of(call_text("\\KERNEL: "@, status))], Ask::CloseRoot)
        },
        Reply::RootClosed => (Seq::empty(), Ask::GetVariable),
        Reply::KernelInfo(length) => (Seq::empty(), Ask::AllocateKernel(length)),
        Reply::KernelAllocated { status, length } => (
            Seq::empty(),
            if status == SUCCESS {
                Ask::ReadKernel(length)
            } else {
                Ask::GetVariable
            },
        ),
        Reply::KernelRead { status, read, length, first, start, end, frequency } => (
            seq![
                line_of(
                    kernel_text(
                        status,
                        read,
                        length,
                        elapsed(start, end, frequency),
                        magic(read, first@),
                    ),
                ),
            ],
            Ask::Release,
        ),
        Reply::Released => (Seq::empty(), Ask::GetVariable),
        Reply::Variable { status, size } => (
            seq![line_of(variable_text(status, size))],
            Ask::GetTime,
        ),
        Reply::Time { status, time } => (seq![line_of(time_text(status, time))], Ask::CreateEvent),
        Reply::EventCreated(status) => {
            let said = line_of(call_text("CreateEvent(EVT_TIMER): "@, status));
            if status == SUCCESS {
                (seq![said], Ask::SetTimer(TIMER_TICKS))
            } else {
                (
                    seq![
                        said,
                        line_of("SetTimer/WaitForEvent: skipped (create failed)"@),
                        line_of("tinted-testapp: returning EFI_SUCCESS"@),
                    ],
                    Ask::Return(Status::Success),
                )
            }
        },
        Reply::TimerSet(status) => (
            seq![line_of(call_text("SetTimer(100 ms relative): "@, status))],
            Ask::WaitForEvent,
        ),
        Reply::EventSignaled(status) => (
            seq![line_of(call_text("WaitForEvent: "@, status))],
            Ask::CloseEvent,
        ),
        Reply::EventClosed => (
            seq![line_of("tinted-testapp: returning EFI_SUCCESS"@)],
            Ask::Return(Status::Success),
        ),
    }
}

/// The lines when there is one.
fn one(units: Vec<u16>) -> (lines: Vec<Vec<u16>>)
    ensures
        lines_of(lines@) == seq![units@],
{
    let mut lines: Vec<Vec<u16>> = Vec::new();
    lines.push(units);
    assert(lines_of(lines@) =~= seq![units@]);
    lines
}

/// The lines when there are two.
fn two(first: Vec<u16>, second: Vec<u16>) -> (lines: Vec<Vec<u16>>)
    ensures
        lines_of(lines@) == seq![first@, second@],
{
    let mut lines: Vec<Vec<u16>> = Vec::new();
    lines.push(first);
    lines.push(second);
    assert(lines_of(lines@) =~= seq![first@, second@]);
    lines
}

fn none() -> (lines: Vec<Vec<u16>>)
    ensures
        lines_of(lines@) == Seq::<Seq<u16>>::empty(),
{
    let lines: Vec<Vec<u16>> = Vec::new();
    assert(lines_of(lines@) =~= Seq::<Seq<u16>>::empty());
    lines
}

/// Reports a reply, and says what is done next.
pub fn step(reply: &Reply) -> (answer: (Vec<Vec<u16>>, Ask))
    requires
        sensible(*reply),
    ensures
        (lines_of(answer.0@), answer.1) == reported_of(*reply),
{
    match reply {
        Reply::MemoryMap { status, map, map_size, map_key, descriptor_size } => {
            let lines: Vec<Vec<u16>> = report_map(
                *status,
                map,
                *map_size,
                *map_key,
                *descriptor_size,
            );
            (lines, Ask::AllocatePool)
        },
        Reply::PoolAllocated(status) => {
            let said: Vec<u16> = call_line("AllocatePool(4 KiB): ", *status);
            if *status == SUCCESS {
                (one(said), Ask::FreePool)
            } else {
                (two(said, line("FreePool: skipped (allocate failed)")), Ask::AllocatePages)
            }
        },
        Reply::PoolFreed(status) => (one(call_line("FreePool: ", *status)), Ask::AllocatePages),
        Reply::PagesAllocated { status, address } => {
            let said: Vec<u16> = call_line("AllocatePages(1 page): ", *status);
            if *status == SUCCESS {
                (
                    two(said, address_line("  page address: ", *address)),
                    Ask::FreePages(*address),
                )
            } else {
                (two(said, line("FreePages: skipped (allocate failed)")), Ask::LocateVolumes)
            }
        },
        Reply::PagesFreed(status) => (one(call_line("FreePages: ", *status)), Ask::LocateVolumes),
        Reply::Volumes { status, count } => {
            let said: Vec<u16> = call_line(
                "LocateHandleBuffer(SIMPLE_FILE_SYSTEM): ",
                *status,
            );
            if *status == SUCCESS {
                (two(said, number_line("  volumes: ", *count)), Ask::FreeVolumes)
            } else if *status == NOT_FOUND {
                (two(said, line("  volumes: 0")), Ask::LoadedImage)
            } else {
                (one(said), Ask::LoadedImage)
            }
        },
        Reply::VolumesFreed(status) => (
            one(call_line("FreePool(handles): ", *status)),
            Ask::LoadedImage,
        ),
        Reply::LoadedImage(status) => {
            let next: Ask = if *status == SUCCESS {
                Ask::DeviceFileSystem
            } else {
                Ask::GetVariable
            };
            (one(call_line("LoadedImage: ", *status)), next)
        },
        Reply::DeviceFileSystem(status) => {
            let next: Ask = if *status == SUCCESS {
                Ask::OpenVolume
            } else {
                Ask::GetVariable
            };
            (one(call_line("DeviceHandle SimpleFileSystem: ", *status)), next)
        },
        Reply::VolumeOpened(status) => {
            let next: Ask = if *status == SUCCESS {
                Ask::ReadRoot
            } else {
                Ask::GetVariable
            };
            (none(), next)
        },
        Reply::RootRead { status, size, name, attribute, file_size } => {
            if *status != SUCCESS || *size == 0 {
                (none(), Ask::OpenKernel)
            } else {
                (one(entry_line(name, *attribute, *file_size)), Ask::ReadRoot)
            }
        },
        Reply::KernelOpened(status) => {
            if *status == SUCCESS {
                (none(), Ask::KernelInfo)
            } else {
                (one(call_line("\\KERNEL: ", *status)), Ask::CloseRoot)
            }
        },
        Reply::RootClosed => (none(), Ask::GetVariable),
        Reply::KernelInfo(length) => (none(), Ask::AllocateKernel(*length)),
        Reply::KernelAllocated { status, length } => {
            let next: Ask = if *status == SUCCESS {
                Ask::ReadKernel(*length)
            } else {
                Ask::GetVariable
            };
            (none(), next)
        },
        Reply::KernelRead { status, read, length, first, start, end, frequency } => {
            let milliseconds: u64 = (*end - *start) * 1000 / *frequency;
            let number: u32 = if *read >= 4 {
                get_u32(first, 0)
            } else {
                0
            };
            (one(kernel_line(*status, *read, *length, milliseconds, number)), Ask::Release)
        },
        Reply::Released => (none(), Ask::GetVariable),
        Reply::Variable { status, size } => (one(variable_line(*status, *size)), Ask::GetTime),
        Reply::Time { status, time } => (one(time_line(*status, time)), Ask::CreateEvent),
        Reply::EventCreated(status) => {
            let said: Vec<u16> = call_line("CreateEvent(EVT_TIMER): ", *status);
            if *status == SUCCESS {
                (one(said), Ask::SetTimer(TIMER_TICKS))
            } else {
                let mut lines: Vec<Vec<u16>> = Vec::new();
                lines.push(said);
                lines.push(line("SetTimer/WaitForEvent: skipped (create failed)"));
                lines.push(line("tinted-testapp: returning EFI_SUCCESS"));
                assert(lines_of(lines@) =~= seq![
                    said@,
                    line_of("SetTimer/WaitForEvent: skipped (create failed)"@),
                    line_of("tinted-testapp: returning EFI_SUCCESS"@),
                ]);
                (lines, Ask::Return(Status::Success))
            }
        },
        Reply::TimerSet(status) => (
            one(call_line("SetTimer(100 ms relative): ", *status)),
            Ask::WaitForEvent,
        ),
        Reply::EventSignaled(status) => (
            one(call_line("WaitForEvent: ", *status)),
            Ask::CloseEvent,
        ),
        Reply::EventClosed => (
            one(line("tinted-testapp: returning EFI_SUCCESS")),
            Ask::Return(Status::Success),
        ),
    }
}

/// How far along the sequence of calls a call is. Reading the root is the one call
/// that may follow itself.
pub open spec fn rank(ask: Ask) -> nat {
    match ask {
        Ask::GetMemoryMap => 0,
        Ask::AllocatePool => 1,
        Ask::FreePool => 2,
        Ask::AllocatePages => 3,
        Ask::FreePages(_) => 4,
        Ask::LocateVolumes => 5,
        Ask::FreeVolumes => 6,
        Ask::LoadedImage => 7,
        Ask::DeviceFileSystem => 8,
        Ask::OpenVolume => 9,
        Ask::ReadRoot => 10,
        Ask::OpenKernel => 11,
        Ask::CloseRoot => 12,
        Ask::KernelInfo => 12,
        Ask::AllocateKernel(_) => 13,
        Ask::ReadKernel(_) => 14,
        Ask::Release => 15,
        Ask::GetVariable => 16,
        Ask::GetTime => 17,
        Ask::CreateEvent => 18,
        Ask::SetTimer(_) => 19,
        Ask::WaitForEvent => 20,
        Ask::CloseEvent => 21,
        Ask::Return(_) => 22,
    }
}

/// The call a reply answers.
pub open spec fn answers(reply: Reply) -> nat {
    match reply {
        Reply::MemoryMap { .. } => 0,
        Reply::PoolAllocated(_) => 1,
        Reply::PoolFreed(_) => 2,
        Reply::PagesAllocated { .. } => 3,
        Reply::PagesFreed(_) => 4,
        Reply::Volumes { .. } => 5,
        Reply::VolumesFreed(_) => 6,
        Reply::LoadedImage(_) => 7,
        Reply::DeviceFileSystem(_) => 8,
        Reply::VolumeOpened(_) => 9,
        Reply::RootRead { .. } => 10,
        Reply::KernelOpened(_) => 11,
        Reply::RootClosed => 12,
        Reply::KernelInfo(_) => 12,
        Reply::KernelAllocated { .. } => 13,
        Reply::KernelRead { .. } => 14,
        Reply::Released => 15,
        Reply::Variable { .. } => 16,
        Reply::Time { .. } => 17,
        Reply::EventCreated(_) => 18,
        Reply::TimerSet(_) => 19,
        Reply::EventSignaled(_) => 20,
        Reply::EventClosed => 21,
    }
}

/// The calls go on to the end: each reply leads to a later call, except that an entry
/// of the root leads to reading the next.
pub proof fn law_probes_go_on(reply: Reply)
    ensures
        rank(reported_of(reply).1) > answers(reply) || (reply is RootRead && reported_of(reply).1
            == Ask::ReadRoot),
{
}

/// Each descriptor of a map has its line, in order, from its own bytes.
pub proof fn law_every_descriptor_has_its_line(map: Seq<u8>, size: int, count: nat)
    ensures
        descriptor_lines(map, size, count) == Seq::new(
            count,
            |i: int| line_of(descriptor_text(map, i * size, i as nat)),
        ),
    decreases count,
{
    if count > 0 {
        law_every_descriptor_has_its_line(map, size, (count - 1) as nat);
    }
    assert(descriptor_lines(map, size, count) =~= Seq::new(
        count,
        |i: int| line_of(descriptor_text(map, i * size, i as nat)),
    ));
}

/// Each configuration table has its line, in order.
pub proof fn law_every_table_has_its_line(tables: Seq<ConfigurationTable>, count: nat)
    ensures
        table_lines(tables, count) == Seq::new(
            count,
            |i: int| line_of(table_text(i as nat, tables[i])),
        ),
    decreases count,
{
    if count > 0 {
        law_every_table_has_its_line(tables, (count - 1) as nat);
    }
    assert(table_lines(tables, count) =~= Seq::new(
        count,
        |i: int| line_of(table_text(i as nat, tables[i])),
    ));
}

} // verus!
