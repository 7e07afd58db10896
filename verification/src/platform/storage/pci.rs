//! PCIe: enumerating the host bridge and giving its devices addresses.
//!
//! Enumeration also assigns each memory BAR a window in the 32-bit MMIO
//! aperture, which the reset stage describes as device memory.
use crate::pci::{
    bits_beside, ecam, header_type, register, vendor, Aperture, BarPlan, Function, Scan, Windows,
    VIRTIO_VENDOR,
};
use vstd::prelude::*;

verus! {

/// The 32-bit MMIO aperture.
pub const MMIO32_BASE: u64 = 0x1000_0000;

pub const MMIO32_END: u64 = 0x3eff_0000;

/// The I/O port aperture, as offsets into the PIO window.
pub const IO_BASE: u64 = 0x1000;

pub const IO_END: u64 = 0x1_0000;

/// One function on the bus.
#[derive(Clone, Copy, PartialEq, Eq, Structural, Debug)]
pub struct PciDevice {
    pub bus: u8,
    pub slot: u8,
    pub func: u8,
    pub vendor_id: u16,
}

impl PciDevice {
    /// The address of one of the function's registers, to read it.
    pub fn read32(&self, offset: u16) -> (address: u64)
        ensures
            address == register(self.bus, self.slot, self.func, offset),
    {
        ecam(self.bus, self.slot, self.func, offset)
    }

    /// The address of one of the function's registers, and what to write to it.
    pub fn write32(&self, offset: u16, value: u32) -> (write: (u64, u32))
        ensures
            write == (register(self.bus, self.slot, self.func, offset), value),
    {
        (ecam(self.bus, self.slot, self.func, offset), value)
    }

    /// The write that enables memory decoding and bus mastering, so the BARs
    /// answer and the device may DMA; `None` when both are on.
    pub fn enable(&self, command: u32) -> (write: Option<(u64, u32)>)
        ensures
            match write {
                Some(write) => command | 0b110 != command && write == (
                    register(self.bus, self.slot, self.func, 4),
                    command | 0b110,
                ),
                None => command | 0b110 == command,
            },
    {
        match crate::pci::enable(command) {
            Some(value) => Some(self.write32(0x04, value)),
            None => None,
        }
    }

    pub fn is_virtio(&self) -> (virtio: bool)
        ensures
            virtio == (self.vendor_id == VIRTIO_VENDOR),
    {
        self.vendor_id == VIRTIO_VENDOR
    }
}

/// Where windows go before any was placed.
pub fn windows() -> (windows: Windows)
    ensures
        windows == (Windows {
            memory: Aperture { next: MMIO32_BASE, end: MMIO32_END },
            io: Aperture { next: IO_BASE, end: IO_END },
        }),
{
    Windows {
        memory: Aperture { next: MMIO32_BASE, end: MMIO32_END },
        io: Aperture { next: IO_BASE, end: IO_END },
    }
}

/// Sizing and placing every BAR a function implements.
///
/// Decoding is off while the registers move, so the device never decodes a
/// half-written address.
pub struct Assignment {
    /// What the command register read as.
    pub command: u32,
    /// The register to place next.
    pub index: u16,
}

impl Assignment {
    /// Starts with a function whose header and command registers read as
    /// `header` and `command`, and what to write to the command register. `None`
    /// for a bridge, which has two BARs and a different layout.
    pub fn begin(header: u32, command: u32) -> (started: Option<(Assignment, u32)>)
        ensures
            match started {
                Some((assignment, write)) => header_type(header) == 0 && assignment.command
                    == command && assignment.index == 0 && write == command & !0b11,
                None => header_type(header) != 0,
            },
    {
        if (header / 0x1_0000) % 0x80 != 0 {
            return None;
        }
        Some((Assignment { command, index: 0 }, command & !0b11))
    }

    /// The offset of the register to place next; `None` after the last.
    pub fn register(&self) -> (offset: Option<u16>)
        ensures
            offset == if self.index < 6 {
                Some((0x10 + 4 * self.index) as u16)
            } else {
                None
            },
    {
        if self.index < 6 {
            Some(0x10 + 4 * self.index)
        } else {
            None
        }
    }

    /// Places the register, from what it reads as, and what it and the register
    /// behind it read as after all ones were written.
    pub fn place(&mut self, windows: &mut Windows, original: u32, low: u32, high: u32) -> (plan:
        BarPlan)
        requires
            old(self).index < 6,
        ensures
            (*final(windows), plan) == old(windows).plan(original, low, high, bits_beside(original)),
            final(self).command == old(self).command,
            final(self).index == old(self).index + plan.registers,
    {
        let flags: u32 = if original % 2 == 1 {
            original % 4
        } else {
            original % 16
        };
        let plan: BarPlan = windows.assign(original, low, high, flags);
        self.index = self.index + plan.registers;
        plan
    }

    /// What to write to the command register at the end: decoding on.
    pub fn finish(&self) -> (command: u32)
        ensures
            command == self.command | 0b11,
    {
        self.command | 0b11
    }
}

/// The function as the drivers see it.
pub open spec fn device_of(f: Function) -> PciDevice {
    PciDevice { bus: f.bus, slot: f.slot, func: f.func, vendor_id: vendor(f.id) }
}

/// The functions of a scan, as the drivers see them.
pub open spec fn devices_of(scan: Scan) -> Seq<PciDevice> {
    Seq::new(scan.found@.len(), |i: int| device_of(scan.found@[i]))
}

/// Every function the scan found.
pub fn devices(scan: &Scan) -> (found: Vec<PciDevice>)
    ensures
        found@ == devices_of(*scan),
{
    let mut found: Vec<PciDevice> = Vec::new();
    let mut next: usize = 0;
    while next < scan.found.len()
        invariant
            next <= scan.found@.len(),
            found@ == Seq::new(next as nat, |i: int| device_of(scan.found@[i])),
        decreases scan.found@.len() - next,
    {
        let f: Function = scan.found[next];
        found.push(
            PciDevice {
                bus: f.bus,
                slot: f.slot,
                func: f.func,
                vendor_id: (f.id % 0x1_0000) as u16,
            },
        );
        next = next + 1;
        assert(found@ =~= Seq::new(next as nat, |i: int| device_of(scan.found@[i])));
    }
    found
}

/// The single enumeration that all of the platform's drivers share: the first one that
/// was made.
pub struct Enumeration {
    pub found: Option<Vec<PciDevice>>,
}

impl Enumeration {
    /// None was made yet.
    pub fn new() -> (enumeration: Enumeration)
        ensures
            enumeration.found is None,
    {
        Enumeration { found: None }
    }

    /// Whether the bus is still to be scanned.
    pub fn is_due(&self) -> (due: bool)
        ensures
            due == (self.found is None),
    {
        self.found.is_none()
    }

    /// Keeps what a scan found. A scan after the first changes nothing.
    pub fn keep(&mut self, scan: &Scan)
        ensures
            match old(self).found {
                Some(_) => *final(self) == *old(self),
                None => final(self).found is Some && final(self).found->0@ == devices_of(*scan),
            },
    {
        if self.found.is_none() {
            self.found = Some(devices(scan));
        }
    }

    /// The functions that were found; none before the first scan.
    pub fn list(&self) -> (found: Vec<PciDevice>)
        ensures
            found@ == (match self.found {
                Some(found) => found@,
                None => Seq::empty(),
            }),
    {
        let mut all: Vec<PciDevice> = Vec::new();
        match &self.found {
            Some(found) => {
                let mut next: usize = 0;
                while next < found.len()
                    invariant
                        next <= found@.len(),
                        all@ == found@.subrange(0, next as int),
                    decreases found@.len() - next,
                {
                    all.push(found[next]);
                    next = next + 1;
                    assert(all@ =~= found@.subrange(0, next as int));
                }
                assert(all@ =~= found@);
            },
            None => {},
        }
        all
    }
}

} // verus!
