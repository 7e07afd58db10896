//! Identity-mapped page tables: the firmware's memory attributes.
//!
//! Until translation is on nothing is cacheable, and an unaligned access faults.
//! The firmware needs Normal memory, and boot media and the interrupt controller
//! need the peripherals as Device. One identity map gives both: virtual addresses
//! stay physical, which is what the UEFI specification wants until an operating
//! system calls `SetVirtualAddressMap`.
use crate::firmware::platform::{
    FLASH_BASE, FLASH_SIZE, PCIE_ECAM_BASE, PCIE_ECAM_SIZE, PCIE_MMIO32_BASE, PCIE_MMIO32_SIZE,
    PCIE_MMIO64_BASE, PCIE_MMIO64_SIZE, RAM_BASE,
};
use aarch64_paging::descriptor::El1Attributes;
use aarch64_paging::idmap::IdMap;
use aarch64_paging::paging::{El1And0, MemoryRegion};
use vstd::prelude::*;

verus! {

/// Root table at level 1: 4 KiB granule, 1 GiB per entry, 512 GiB of address
/// space. Everything this machine has is inside that.
pub const ROOT_LEVEL: usize = 1;

/// What the tables can map.
pub const SPACE: u64 = 0x80_0000_0000;

/// Non-zero so the firmware's mappings can be invalidated by ASID instead of a
/// full TLB flush.
pub const ASID: usize = 1;

/// MAIR: index 0 Device-nGnRnE, index 1 Normal non-cacheable, index 2 Normal
/// write-back.
pub const MAIR: u64 = 0xff_4400;

/// TCR: 4 KiB granule, 39-bit virtual addresses, inner shareable write-back walks,
/// TTBR1 disabled, 40-bit physical addresses.
pub const TCR: u64 = 0x2_0080_3519;

/// The attribute index of a device window, and of RAM.
pub const DEVICE_INDEX: u64 = 0;

pub const RAM_INDEX: u64 = 2;

/// A device register window: no speculation, no execution, never cacheable.
/// Valid, accessed, and execute-never on both levels.
pub const DEVICE_WINDOW: u64 = 0x60_0000_0000_0401;

/// RAM: Normal write-back, inner shareable, writable and executable, because the
/// firmware runs images from it.
pub const RAM_WINDOW: u64 = 0x40_0000_0000_0709;

/// Flash: as RAM, but read-only.
pub const FLASH_WINDOW: u64 = 0x40_0000_0000_0789;

/// What turns translation and both caches on, with the bits the architecture
/// wants set.
pub const SCTLR_SET: u64 = 0xf0d0_1805;

/// The bits that stay clear: alignment checks, and write-implies-no-execute.
pub const SCTLR_CLEAR: u64 = 0x8_0002;

/// The control register with translation on.
pub fn sctlr_value(sctlr: u64) -> (value: u64)
    ensures
        value == (sctlr | SCTLR_SET) & !SCTLR_CLEAR,
{
    (sctlr | SCTLR_SET) & !SCTLR_CLEAR
}

/// A level 1 block descriptor - 1 GiB - for the reset path's table: accessed,
/// inner shareable, of an attribute index, valid, and never executable below EL1.
pub open spec fn block_entry(pa: u64, attribute_index: u64, executable: bool) -> int {
    pa + 0x701 + attribute_index * 4 + 0x40_0000_0000_0000 + if executable {
        0int
    } else {
        0x20_0000_0000_0000
    }
}

/// A level 1 block descriptor. `pa` is the block's base, so it has to be 1 GiB
/// aligned.
fn boot_block(pa: u64, attribute_index: u64, executable: bool) -> (entry: u64)
    requires
        pa < 0x1_0000_0000_0000,
        pa % 0x4000_0000 == 0,
        attribute_index < 8,
    ensures
        entry == block_entry(pa, attribute_index, executable),
{
    pa + 0x701 + attribute_index * 4 + 0x40_0000_0000_0000 + if executable {
        0
    } else {
        0x20_0000_0000_0000
    }
}

/// The level 1 table the reset path installs before the first compiled instruction
/// that touches memory: two 1 GiB blocks, the low one Device (the flash is in it,
/// and so is the console an early panic writes to) and the one above it RAM.
pub struct BootTable {
    pub entries: Vec<u64>,
}

impl BootTable {
    pub fn new() -> (table: BootTable)
        ensures
            table.entries@.len() == 512,
            table.entries@[0] == block_entry(0, DEVICE_INDEX, false),
            table.entries@[1] == block_entry(RAM_BASE, RAM_INDEX, true),
            forall|i: int| 2 <= i < 512 ==> #[trigger] table.entries@[i] == 0,
    {
        let mut entries: Vec<u64> = Vec::new();
        entries.push(boot_block(0, DEVICE_INDEX, false));
        entries.push(boot_block(RAM_BASE, RAM_INDEX, true));
        while entries.len() < 512
            invariant
                2 <= entries@.len() <= 512,
                entries@[0] == block_entry(0, DEVICE_INDEX, false),
                entries@[1] == block_entry(RAM_BASE, RAM_INDEX, true),
                forall|i: int| 2 <= i < entries@.len() ==> #[trigger] entries@[i] == 0,
            decreases 512 - entries@.len(),
        {
            entries.push(0);
        }
        BootTable { entries }
    }
}

/// A page table that maps addresses to themselves, of `aarch64-paging`.
#[verifier::external_body]
pub struct PageTable {
    pub map: IdMap<El1And0>,
}

/// The attributes of the pages a table maps, by page number.
pub uninterp spec fn mapped(table: PageTable) -> Map<int, u64>;

/// No pages.
pub open spec fn nothing() -> Map<int, u64> {
    Map::empty()
}

/// Whether a table is the one the core translates by.
pub uninterp spec fn live(table: PageTable) -> bool;

/// A mapping with a window in it: whole pages, from the one the window starts in
/// to the one it ends in.
pub open spec fn with_window(m: Map<int, u64>, start: u64, end: u64, attributes: u64) -> Map<
    int,
    u64,
> {
    m.union_prefer_right(
        Map::new(
            |page: int| start as int / 4096 <= page && page * 4096 < end,
            |page: int| attributes,
        ),
    )
}

/// Whether a window can be mapped: its last page is not before its first, and it
/// lies inside the space of the tables.
pub open spec fn fits(start: u64, end: u64) -> bool {
    start / 4096 * 4096 <= (end + 4095) / 4096 * 4096 && end <= SPACE
}

/// Whether attributes are those of one of the windows.
pub open spec fn known(attributes: u64) -> bool {
    attributes == DEVICE_WINDOW || attributes == RAM_WINDOW || attributes == FLASH_WINDOW
}

impl PageTable {
    /// `aarch64_paging::idmap::IdMap::with_asid`: a table that maps nothing and
    /// that the core does not translate by.
    #[verifier::external_body]
    pub(crate) fn empty() -> (table: PageTable)
        ensures
            mapped(table) == nothing(),
            !live(table),
    {
        PageTable { map: IdMap::with_asid(ASID, ROOT_LEVEL, El1And0) }
    }

    /// `aarch64_paging::idmap::IdMap::map_range`: the whole pages of a window get
    /// the attributes and every other page keeps its own. It fails on a window
    /// that ends before it starts or lies outside the table's space, and then
    /// nothing changes; a table that is live may refuse to change what it maps.
    #[verifier::external_body]
    pub(crate) fn map_range(&mut self, start: u64, end: u64, attributes: u64) -> (mapped_it: bool)
        requires
            0 < end <= 0xffff_ffff_ffff_0000,
            known(attributes),
        ensures
            live(*final(self)) == live(*old(self)),
            mapped_it ==> fits(start, end) && mapped(*final(self)) == with_window(
                mapped(*old(self)),
                start,
                end,
                attributes,
            ),
            !mapped_it ==> mapped(*final(self)) == mapped(*old(self)),
            !live(*old(self)) && fits(start, end) ==> mapped_it,
    {
        let region = MemoryRegion::new(start as usize, end as usize);
        let flags = El1Attributes::from_bits_retain(attributes as usize);
        self.map.map_range(&region, flags).is_ok()
    }
}

/// The map the firmware runs on: flash, the peripherals below 4 GiB, the 32-bit
/// PCI window, RAM, and the PCIe windows above 4 GiB.
pub open spec fn layout(ram_end: u64) -> Map<int, u64> {
    let m = nothing();
    let m = with_window(m, FLASH_BASE, (FLASH_BASE + FLASH_SIZE) as u64, FLASH_WINDOW);
    let m = with_window(m, 0x0800_0000, 0x0c00_0000, DEVICE_WINDOW);
    let m = with_window(
        m,
        PCIE_MMIO32_BASE,
        (PCIE_MMIO32_BASE + PCIE_MMIO32_SIZE) as u64,
        DEVICE_WINDOW,
    );
    let m = with_window(m, RAM_BASE, ram_end, RAM_WINDOW);
    let m = with_window(
        m,
        PCIE_ECAM_BASE,
        (PCIE_ECAM_BASE + PCIE_ECAM_SIZE) as u64,
        DEVICE_WINDOW,
    );
    with_window(m, PCIE_MMIO64_BASE, (PCIE_MMIO64_BASE + PCIE_MMIO64_SIZE) as u64, DEVICE_WINDOW)
}

/// Builds the identity map. `ram_end` is the end of RAM: the map must cover
/// everything the firmware, its heap, and the images it loads can touch. `None`
/// when RAM does not fit the tables.
pub fn init(ram_end: u64) -> (table: Option<PageTable>)
    ensures
        match table {
            Some(table) => fits(RAM_BASE, ram_end) && mapped(table) == layout(ram_end) && !live(
                table,
            ),
            None => !fits(RAM_BASE, ram_end),
        },
{
    if ram_end > SPACE || (ram_end + 4095) / 4096 * 4096 < RAM_BASE {
        return None;
    }
    let mut table: PageTable = PageTable::empty();
    let mut done: bool = true;
    done = table.map_range(FLASH_BASE, FLASH_BASE + FLASH_SIZE, FLASH_WINDOW) && done;
    done = table.map_range(0x0800_0000, 0x0c00_0000, DEVICE_WINDOW) && done;
    done = table.map_range(PCIE_MMIO32_BASE, PCIE_MMIO32_BASE + PCIE_MMIO32_SIZE, DEVICE_WINDOW)
        && done;
    done = table.map_range(RAM_BASE, ram_end, RAM_WINDOW) && done;
    done = table.map_range(PCIE_ECAM_BASE, PCIE_ECAM_BASE + PCIE_ECAM_SIZE, DEVICE_WINDOW) && done;
    done = table.map_range(PCIE_MMIO64_BASE, PCIE_MMIO64_BASE + PCIE_MMIO64_SIZE, DEVICE_WINDOW)
        && done;
    if !done {
        return None;
    }
    Some(table)
}

/// Maps a device window into the page table, for a driver whose registers sit
/// outside the windows mapped at bring-up.
pub fn map_device_window(table: &mut PageTable, start: u64, end: u64) -> (done: bool)
    requires
        0 < end <= 0xffff_ffff_ffff_0000,
    ensures
        live(*final(table)) == live(*old(table)),
        done ==> fits(start, end) && mapped(*final(table)) == with_window(
            mapped(*old(table)),
            start,
            end,
            DEVICE_WINDOW,
        ),
        !done ==> mapped(*final(table)) == mapped(*old(table)),
        !live(*old(table)) && fits(start, end) ==> done,
{
    table.map_range(start, end, DEVICE_WINDOW)
}

/// Every address of RAM below the 64-bit PCI window is Normal memory, every
/// register the firmware programs is Device memory, and what is in none of the
/// windows is not mapped.
pub proof fn law_addresses_have_their_attributes(ram_end: u64, a: int)
    requires
        RAM_BASE <= ram_end <= PCIE_MMIO64_BASE,
        ram_end % 4096 == 0,
        0 <= a,
    ensures
        ({
            let page = a / 4096;
            let m = layout(ram_end);
            &&& RAM_BASE <= a < ram_end ==> m.contains_key(page) && m[page] == RAM_WINDOW
            &&& 0x0800_0000 <= a < 0x0c00_0000 ==> m.contains_key(page) && m[page] == DEVICE_WINDOW
            &&& PCIE_MMIO32_BASE <= a < PCIE_MMIO32_BASE + PCIE_MMIO32_SIZE ==> m.contains_key(page)
                && m[page] == DEVICE_WINDOW
            &&& PCIE_MMIO64_BASE <= a < PCIE_MMIO64_BASE + PCIE_MMIO64_SIZE ==> m.contains_key(page)
                && m[page] == DEVICE_WINDOW
            &&& FLASH_BASE <= a < FLASH_BASE + FLASH_SIZE ==> m.contains_key(page) && m[page]
                == FLASH_WINDOW
            &&& a >= PCIE_MMIO64_BASE + PCIE_MMIO64_SIZE ==> !m.contains_key(page)
            &&& ram_end <= a < PCIE_MMIO64_BASE && a >= 0x4000_0000 ==> !m.contains_key(page)
        }),
{
}

} // verus!
