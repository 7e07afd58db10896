//! PCIe: enumerating the bus, and the configuration-space access a driver needs.
use crate::pci::{
    ecam, is_64, is_io, needs_high, register, vendor, Aperture, BarPlan, Function, Scan, Windows,
    VIRTIO_VENDOR,
};
use vstd::prelude::*;

verus! {

/// The 32-bit memory window of the host bridge.
pub const PCIE_MMIO32_BASE: u64 = 0x1000_0000;

/// Where the memory windows end and the I/O windows start.
pub const IO_BASE: u64 = 0x3eff_0000;

/// Where the I/O windows end.
pub const IO_END: u64 = 0x3f00_0000;

/// The class of a display controller.
pub const DISPLAY_CONTROLLER: u8 = 0x03;

/// A base address register, as the device asked for it.
#[derive(Clone, Copy, PartialEq, Eq, Structural, Debug)]
pub enum Bar {
    /// Not implemented by the device.
    Absent,
    /// A 32-bit memory window, already assigned.
    Mem32 { address: u64, size: u64, prefetchable: bool },
    /// A 64-bit memory window, already assigned.
    Mem64 { address: u64, size: u64, prefetchable: bool },
    /// An I/O port window.
    Io { port: u64, size: u64 },
}

/// One function on the bus.
#[derive(Clone, Copy, PartialEq, Eq, Structural, Debug)]
pub struct PciDevice {
    pub bus: u8,
    pub slot: u8,
    pub func: u8,
    pub vendor_id: u16,
    pub device_id: u16,
    pub class: u8,
    pub subclass: u8,
    pub prog_if: u8,
}

/// What a window of 32 bits asks for, by the bits that stayed writable.
pub open spec fn size32(mask: int) -> int {
    if mask == 0 {
        0
    } else {
        0x1_0000_0000 - mask
    }
}

/// What a register says, from its value, its value after all ones were written,
/// and the same of the register behind it. A window of 32 bits goes anywhere below 4 GiB,
/// or below 1 MiB.
pub open spec fn bar_of(original: u32, probed: u32, original_high: u32, probed_high: u32) -> Bar {
    let kind = (original / 2) % 4;
    let prefetchable = (original / 8) % 2 == 1;
    if original == 0 {
        Bar::Absent
    } else if is_io(original) {
        let mask = probed / 4 * 4;
        if mask == 0 {
            Bar::Absent
        } else {
            Bar::Io { port: (original / 4 * 4) as u64, size: size32(mask as int) as u64 }
        }
    } else if kind <= 1 {
        Bar::Mem32 {
            address: (original / 16 * 16) as u64,
            size: size32(probed / 16 * 16) as u64,
            prefetchable,
        }
    } else if kind == 2 {
        let mask = 0x1_0000_0000 * probed_high + probed / 16 * 16;
        Bar::Mem64 {
            address: (0x1_0000_0000 * original_high + original / 16 * 16) as u64,
            size: if mask == 0 {
                0
            } else {
                (0x1_0000_0000_0000_0000 - mask) as u64
            },
            prefetchable,
        }
    } else {
        Bar::Absent
    }
}

/// How far the probe of a register is: which access comes next.
#[derive(Clone, Copy, PartialEq, Eq, Structural, Debug)]
pub enum Stage {
    Low,
    LowOnes,
    LowProbed,
    LowBack,
    High,
    HighOnes,
    HighProbed,
    HighBack,
    Done,
}

/// What is done next with a function's registers.
#[derive(Clone, Copy, PartialEq, Eq, Structural, Debug)]
pub enum Access {
    /// Read the register at this offset.
    Read(u16),
    /// Write this to the register at this offset.
    Write(u16, u32),
    /// Nothing more: this is the window.
    Found(Bar),
}

/// The probe of a base address register. The size comes from the standard one: write
/// all ones, read back the address bits the device leaves writable, and restore the
/// assigned address.
#[derive(Clone, Copy, PartialEq, Eq, Structural, Debug)]
pub struct Probe {
    pub device: PciDevice,
    pub offset: u16,
    pub stage: Stage,
    pub original: u32,
    pub probed: u32,
    pub original_high: u32,
    pub probed_high: u32,
}

impl Probe {
    /// What is done next.
    pub open spec fn next(self) -> Access {
        let high = (self.offset + 4) as u16;
        match self.stage {
            Stage::Low | Stage::LowProbed => Access::Read(self.offset),
            Stage::LowOnes => Access::Write(self.offset, 0xffff_ffff),
            Stage::LowBack => Access::Write(self.offset, self.original),
            Stage::High | Stage::HighProbed => Access::Read(high),
            Stage::HighOnes => Access::Write(high, 0xffff_ffff),
            Stage::HighBack => Access::Write(high, self.original_high),
            Stage::Done => Access::Found(
                bar_of(self.original, self.probed, self.original_high, self.probed_high),
            ),
        }
    }

    /// The probe after that was done, and read this where it was a read. A register that
    /// reads as nothing is not probed, and only a 64-bit window has a second half.
    pub open spec fn then_read(self, read: u32) -> Probe {
        match self.stage {
            Stage::Low => Probe {
                original: read,
                stage: if read == 0 {
                    Stage::Done
                } else {
                    Stage::LowOnes
                },
                ..self
            },
            Stage::LowOnes => Probe { stage: Stage::LowProbed, ..self },
            Stage::LowProbed => Probe { probed: read, stage: Stage::LowBack, ..self },
            Stage::LowBack => Probe {
                stage: if is_64(self.original) {
                    Stage::High
                } else {
                    Stage::Done
                },
                ..self
            },
            Stage::High => Probe { original_high: read, stage: Stage::HighOnes, ..self },
            Stage::HighOnes => Probe { stage: Stage::HighProbed, ..self },
            Stage::HighProbed => Probe { probed_high: read, stage: Stage::HighBack, ..self },
            Stage::HighBack | Stage::Done => Probe { stage: Stage::Done, ..self },
        }
    }

    /// What is done next.
    pub fn access(&self) -> (access: Access)
        requires
            self.offset <= 0xfff0,
        ensures
            access == self.next(),
    {
        match self.stage {
            Stage::Low | Stage::LowProbed => Access::Read(self.offset),
            Stage::LowOnes => Access::Write(self.offset, 0xffff_ffff),
            Stage::LowBack => Access::Write(self.offset, self.original),
            Stage::High | Stage::HighProbed => Access::Read(self.offset + 4),
            Stage::HighOnes => Access::Write(self.offset + 4, 0xffff_ffff),
            Stage::HighBack => Access::Write(self.offset + 4, self.original_high),
            Stage::Done => Access::Found(
                self.device.bar(
                    self.original,
                    self.probed,
                    self.original_high,
                    self.probed_high,
                ),
            ),
        }
    }

    /// Goes on once that was done, with what was read where it was a read.
    pub fn done(&mut self, read: u32)
        ensures
            *final(self) == old(self).then_read(read),
    {
        match self.stage {
            Stage::Low => {
                self.original = read;
                self.stage = if read == 0 {
                    Stage::Done
                } else {
                    Stage::LowOnes
                };
            },
            Stage::LowOnes => {
                self.stage = Stage::LowProbed;
            },
            Stage::LowProbed => {
                self.probed = read;
                self.stage = Stage::LowBack;
            },
            Stage::LowBack => {
                self.stage = if needs_high(self.original) {
                    Stage::High
                } else {
                    Stage::Done
                };
            },
            Stage::High => {
                self.original_high = read;
                self.stage = Stage::HighOnes;
            },
            Stage::HighOnes => {
                self.stage = Stage::HighProbed;
            },
            Stage::HighProbed => {
                self.probed_high = read;
                self.stage = Stage::HighBack;
            },
            Stage::HighBack | Stage::Done => {
                self.stage = Stage::Done;
            },
        }
    }
}

/// A register of a device: what it holds, and which of its bits a write changes.
pub struct Register {
    pub value: u32,
    pub writable: u32,
}

impl Register {
    /// The register after a write.
    pub open spec fn written(self, value: u32) -> Register {
        Register {
            value: (value & self.writable) | (self.value & !self.writable),
            writable: self.writable,
        }
    }
}

/// A probe carried out on the register at its offset and the one behind it, for so many
/// accesses: the probe, and the two registers.
pub open spec fn carried_out(p: Probe, low: Register, high: Register, steps: nat) -> (
    Probe,
    Register,
    Register,
)
    decreases steps,
{
    if steps == 0 {
        (p, low, high)
    } else {
        let left = (steps - 1) as nat;
        match p.next() {
            Access::Read(offset) => carried_out(
                p.then_read(
                    if offset == p.offset {
                        low.value
                    } else {
                        high.value
                    },
                ),
                low,
                high,
                left,
            ),
            Access::Write(offset, value) => if offset == p.offset {
                carried_out(p.then_read(0), low.written(value), high, left)
            } else {
                carried_out(p.then_read(0), low, high.written(value), left)
            },
            Access::Found(_) => (p, low, high),
        }
    }
}

/// A register that had all ones written to it and then what it held before holds that
/// again, and in between the bits that a write changes are ones.
proof fn lemma_put_back(register: Register)
    ensures
        register.written(0xffff_ffff).value == register.writable | (register.value
            & !register.writable),
        register.written(0xffff_ffff).written(register.value) == register,
{
    let v = register.value;
    let w = register.writable;
    assert((0xffff_ffffu32 & w) | (v & !w) == w | (v & !w)) by (bit_vector);
    assert((v & w) | (((0xffff_ffffu32 & w) | (v & !w)) & !w) == v) by (bit_vector);
}

/// A probe ends, and leaves both registers as they were: it writes to no other. What it
/// finds is what they say.
pub proof fn law_probe_restores(p: Probe, low: Register, high: Register)
    requires
        p.stage == Stage::Low,
        p.offset <= 0xfff0,
    ensures
        ({
            let (after, l, h) = carried_out(p, low, high, 8);
            &&& after.stage == Stage::Done
            &&& l == low && h == high
            &&& after.next() == Access::Found(
                if low.value == 0 {
                    Bar::Absent
                } else if is_64(low.value) {
                    bar_of(
                        low.value,
                        low.written(0xffff_ffff).value,
                        high.value,
                        high.written(0xffff_ffff).value,
                    )
                } else {
                    bar_of(
                        low.value,
                        low.written(0xffff_ffff).value,
                        p.original_high,
                        p.probed_high,
                    )
                },
            )
        }),
        forall|steps: nat|
            match (#[trigger] carried_out(p, low, high, steps)).0.next() {
                Access::Write(offset, _) => offset == p.offset || offset == p.offset + 4,
                _ => true,
            },
{
    reveal_with_fuel(carried_out, 9);
    lemma_put_back(low);
    lemma_put_back(high);
    assert forall|steps: nat|
        match (#[trigger] carried_out(p, low, high, steps)).0.next() {
            Access::Write(offset, _) => offset == p.offset || offset == p.offset + 4,
            _ => true,
        } by {
        lemma_offset_stays(p, low, high, steps);
    }
}

proof fn lemma_offset_stays(p: Probe, low: Register, high: Register, steps: nat)
    ensures
        carried_out(p, low, high, steps).0.offset == p.offset,
    decreases steps,
{
    if steps > 0 {
        let left = (steps - 1) as nat;
        match p.next() {
            Access::Read(offset) => {
                let read = if offset == p.offset {
                    low.value
                } else {
                    high.value
                };
                lemma_offset_stays(p.then_read(read), low, high, left);
            },
            Access::Write(offset, value) => {
                lemma_offset_stays(p.then_read(0), low.written(value), high, left);
                lemma_offset_stays(p.then_read(0), low, high.written(value), left);
            },
            Access::Found(_) => {},
        }
    }
}

/// A device that leaves writable the address bits of a 64-bit window of a size, a power of
/// two of at least sixteen, and reads as zero in the others, is found to have that window.
pub proof fn law_probe_finds_the_window(p: Probe, low: Register, high: Register, size: u64)
    requires
        p.stage == Stage::Low,
        p.offset <= 0xfff0,
        low.value & 7 == 4,
        size >= 16,
        size & ((size - 1) as u64) == 0,
        low.writable == (0x1_0000_0000_0000_0000 - size) % 0x1_0000_0000,
        high.writable == (0x1_0000_0000_0000_0000 - size) / 0x1_0000_0000,
        low.value & !low.writable & 0xffff_fff0 == 0,
        high.value & !high.writable == 0,
    ensures
        ({
            let (after, l, h) = carried_out(p, low, high, 8);
            &&& l == low && h == high
            &&& after.next() == Access::Found(
                Bar::Mem64 {
                    address: (0x1_0000_0000 * high.value + low.value / 16 * 16) as u64,
                    size,
                    prefetchable: low.value & 8 != 0,
                },
            )
        }),
{
    law_probe_restores(p, low, high);
    lemma_put_back(low);
    lemma_put_back(high);
    let v = low.value;
    let w = low.writable;
    let x = high.value;
    let y = high.writable;
    let probed = low.written(0xffff_ffff).value;
    let less: u64 = (size - 1) as u64;
    assert(v & 7 == 4 ==> v % 2 == 0 && (v / 2) % 4 == 2 && v != 0 && v / 16 * 16 <= v)
        by (bit_vector);
    assert((v & 8 != 0) == ((v / 8) % 2 == 1)) by (bit_vector);
    assert(size >= 16 && less == size - 1 && size & less == 0 ==> size % 16 == 0) by (bit_vector);
    assert(w % 16 == 0);
    assert(v & !w & 0xffff_fff0 == 0 && w % 16 == 0 ==> (w | (v & !w)) / 16 * 16 == w)
        by (bit_vector);
    assert(x & !y == 0 ==> y | (x & !y) == y) by (bit_vector);
    assert(0x1_0000_0000 * y + w == 0x1_0000_0000_0000_0000 - size);
}

/// The bits beside the address of a placed window: an I/O window, or the kind of
/// memory window and whether it is prefetchable.
pub open spec fn flags_of(original: u32) -> u32 {
    if is_io(original) {
        1
    } else {
        original % 16
    }
}

impl PciDevice {
    /// The address of one of the function's registers, to read it.
    pub fn read32(&self, offset: u16) -> (address: u64)
        ensures
            address == register(self.bus, self.slot, self.func, offset),
    {
        ecam(self.bus, self.slot, self.func, offset)
    }

    /// The address of one of the function's registers, and what to write to it.
    pub fn write32(&self, offset: u16, value: u32) -> (write: (u64, u32))
        ensures
            write == (register(self.bus, self.slot, self.func, offset), value),
    {
        (ecam(self.bus, self.slot, self.func, offset), value)
    }

    /// The write that enables memory decoding and bus mastering, so the device's
    /// BARs answer and it may DMA; `None` when both are on.
    pub fn enable(&self, command: u32) -> (write: Option<(u64, u32)>)
        ensures
            match write {
                Some(write) => command | 0b110 != command && write == (
                    register(self.bus, self.slot, self.func, 4),
                    command | 0b110,
                ),
                None => command | 0b110 == command,
            },
    {
        match crate::pci::enable(command) {
            Some(value) => Some(self.write32(0x04, value)),
            None => None,
        }
    }

    /// What BAR `index` says, whether it is a 32-bit or a 64-bit window, and how
    /// large the device says it is: from what the register reads as before and
    /// after all ones are written to it, and the register behind it.
    /// The probe of base address register `index`: whether it is a 32-bit or a 64-bit
    /// window, and how large the device says it is.
    pub fn probe(&self, index: usize) -> (probe: Probe)
        requires
            index < 6,
        ensures
            probe == (Probe {
                device: *self,
                offset: (0x10 + 4 * index) as u16,
                stage: Stage::Low,
                original: 0,
                probed: 0,
                original_high: 0,
                probed_high: 0,
            }),
    {
        Probe {
            device: *self,
            offset: 0x10 + 4 * index as u16,
            stage: Stage::Low,
            original: 0,
            probed: 0,
            original_high: 0,
            probed_high: 0,
        }
    }

    /// What a register says, from what probing it read.
    pub fn bar(&self, original: u32, probed: u32, original_high: u32, probed_high: u32) -> (bar: Bar)
        ensures
            bar == bar_of(original, probed, original_high, probed_high),
    {
        if original == 0 {
            return Bar::Absent;
        }
        if original % 2 == 1 {
            let mask: u32 = probed / 4 * 4;
            if mask == 0 {
                return Bar::Absent;
            }
            return Bar::Io {
                port: (original / 4 * 4) as u64,
                size: 0x1_0000_0000 - mask as u64,
            };
        }
        let kind: u32 = (original / 2) % 4;
        let prefetchable: bool = (original / 8) % 2 == 1;
        let base: u64 = (probed / 16 * 16) as u64;
        if kind <= 1 {
            Bar::Mem32 {
                address: (original / 16 * 16) as u64,
                size: if base == 0 {
                    0
                } else {
                    0x1_0000_0000 - base
                },
                prefetchable,
            }
        } else if kind == 2 {
            let mask: u64 = 0x1_0000_0000 * (probed_high as u64) + base;
            Bar::Mem64 {
                address: 0x1_0000_0000 * (original_high as u64) + (original / 16 * 16) as u64,
                size: if mask == 0 {
                    0
                } else {
                    0xffff_ffff_ffff_ffff - mask + 1
                },
                prefetchable,
            }
        } else {
            Bar::Absent
        }
    }

    /// `bus`, `slot` and `function`.
    pub fn address(&self) -> (address: (u8, u8, u8))
        ensures
            address == (self.bus, self.slot, self.func),
    {
        (self.bus, self.slot, self.func)
    }
}

/// Whether a function's class is "display controller" or its vendor the one virtio
/// devices carry: the functions that the driver probes look at.
pub fn is_virtio(device: &PciDevice) -> (virtio: bool)
    ensures
        virtio == (device.class == DISPLAY_CONTROLLER || device.vendor_id == VIRTIO_VENDOR),
{
    device.class == DISPLAY_CONTROLLER || device.vendor_id == VIRTIO_VENDOR
}

/// Where windows go before any was placed.
pub open spec fn empty_windows() -> Windows {
    Windows {
        memory: Aperture { next: PCIE_MMIO32_BASE, end: IO_BASE },
        io: Aperture { next: IO_BASE, end: IO_END },
    }
}

/// Where windows go before any was placed.
pub fn windows() -> (windows: Windows)
    ensures
        windows == empty_windows(),
{
    Windows {
        memory: Aperture { next: PCIE_MMIO32_BASE, end: IO_BASE },
        io: Aperture { next: IO_BASE, end: IO_END },
    }
}

/// Placing the registers of one function, one after another. Decoding is turned
/// off while the registers move, so a device never decodes a half-written
/// address.
pub struct Assignment {
    /// What the command register read as.
    pub command: u32,
    /// The register to place next.
    pub index: u16,
}

impl Assignment {
    /// Starts with a function whose command register reads as `command`, and
    /// what to write to that register: memory and I/O decoding off.
    pub fn begin(command: u32) -> (started: (Assignment, u32))
        ensures
            started.0.command == command,
            started.0.index == 0,
            started.1 == command & !0b11,
    {
        (Assignment { command, index: 0 }, command & !0b11)
    }

    /// The offset of the register to place next; `None` after the last.
    pub fn register(&self) -> (offset: Option<u16>)
        ensures
            offset == if self.index < 6 {
                Some((0x10 + 4 * self.index) as u16)
            } else {
                None
            },
    {
        if self.index < 6 {
            Some(0x10 + 4 * self.index)
        } else {
            None
        }
    }

    /// Places the register, from what it reads as, and what it and the register
    /// behind it read as after all ones were written.
    pub fn place(&mut self, windows: &mut Windows, original: u32, low: u32, high: u32) -> (plan:
        BarPlan)
        requires
            old(self).index < 6,
        ensures
            (*final(windows), plan) == old(windows).plan(original, low, high, flags_of(original)),
            final(self).command == old(self).command,
            final(self).index == old(self).index + plan.registers,
    {
        let flags: u32 = if original % 2 == 1 {
            1
        } else {
            original % 16
        };
        let plan: BarPlan = windows.assign(original, low, high, flags);
        self.index = self.index + plan.registers;
        plan
    }

    /// What to write to the command register at the end: decoding on.
    pub fn finish(&self) -> (command: u32)
        ensures
            command == self.command | 0b11,
    {
        self.command | 0b11
    }
}

/// The function as the drivers see it.
pub open spec fn device_of(f: Function) -> PciDevice {
    PciDevice {
        bus: f.bus,
        slot: f.slot,
        func: f.func,
        vendor_id: vendor(f.id),
        device_id: (f.id / 0x1_0000) as u16,
        class: (f.class / 0x100_0000) as u8,
        subclass: ((f.class / 0x1_0000) % 0x100) as u8,
        prog_if: ((f.class / 0x100) % 0x100) as u8,
    }
}

/// Every function the scan found.
pub fn discover(scan: &Scan) -> (found: Vec<PciDevice>)
    ensures
        found@ == Seq::new(scan.found@.len(), |i: int| device_of(scan.found@[i])),
{
    let mut found: Vec<PciDevice> = Vec::new();
    let mut next: usize = 0;
    while next < scan.found.len()
        invariant
            next <= scan.found@.len(),
            found@ == Seq::new(next as nat, |i: int| device_of(scan.found@[i])),
        decreases scan.found@.len() - next,
    {
        let f: Function = scan.found[next];
        found.push(
            PciDevice {
                bus: f.bus,
                slot: f.slot,
                func: f.func,
                vendor_id: (f.id % 0x1_0000) as u16,
                device_id: (f.id / 0x1_0000) as u16,
                class: (f.class / 0x100_0000) as u8,
                subclass: ((f.class / 0x1_0000) % 0x100) as u8,
                prog_if: ((f.class / 0x100) % 0x100) as u8,
            },
        );
        next = next + 1;
        assert(found@ =~= Seq::new(next as nat, |i: int| device_of(scan.found@[i])));
    }
    found
}

/// What a driver is told of a function is what its registers say: the device above the vendor
/// in the first, and the class, the subclass and the interface from the top of the other.
pub proof fn law_registers_name_the_device(f: Function)
    ensures
        device_of(f).bus == f.bus && device_of(f).slot == f.slot && device_of(f).func == f.func,
        f.id == 0x1_0000 * device_of(f).device_id + device_of(f).vendor_id,
        f.class / 0x100 == 0x1_0000 * device_of(f).class + 0x100 * device_of(f).subclass
            + device_of(f).prog_if,
{
}

} // verus!
