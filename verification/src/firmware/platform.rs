//! Address map of the machine this firmware runs on: QEMU's AArch64 `virt`
//! machine. These are the addresses QEMU's own device tree gives for it; what the
//! tree says differently overrides what is here.
use vstd::prelude::*;

verus! {

/// Executed in place: QEMU maps `-bios` into pflash0 at address 0 and resets the
/// core there.
pub const FLASH_BASE: u64 = 0x0000_0000;

pub const FLASH_SIZE: u64 = 0x0400_0000;

/// The low DRAM window.
pub const RAM_BASE: u64 = 0x4000_0000;

pub const RAM_SIZE_MAX: u64 = 0x1_0000_0000;

/// ARM PrimeCell PL011 UART: the console.
pub const UART0_BASE: u64 = 0x0900_0000;

/// PL031 real-time clock.
pub const RTC_BASE: u64 = 0x0901_0000;

/// QEMU's fw_cfg.
pub const FW_CFG_BASE: u64 = 0x0902_0000;

/// The interrupt controller: a distributor, and a redistributor region with a
/// pair of frames per core.
pub const GIC_DIST_BASE: u64 = 0x0800_0000;

pub const GIC_REDIST_BASE: u64 = 0x080a_0000;

/// Four cores, two frames each.
pub const GIC_REDIST_SIZE: u64 = 0x8_0000;

pub const GIC_CPU_BASE: u64 = 0x0801_0000;

pub const GIC_V2M_BASE: u64 = 0x0802_0000;

/// 32 virtio-mmio transports at 0x200 bytes each.
pub const VIRTIO_MMIO_BASE: u64 = 0x0a00_0000;

pub const VIRTIO_MMIO_SIZE: u64 = 0x200;

pub const VIRTIO_MMIO_COUNT: u64 = 32;

/// PCIe: ECAM in high memory, a 32-bit MMIO window below 4 GiB and a 64-bit one
/// above.
pub const PCIE_ECAM_BASE: u64 = 0x40_1000_0000;

pub const PCIE_ECAM_SIZE: u64 = 0x1000_0000;

pub const PCIE_MMIO32_BASE: u64 = 0x1000_0000;

pub const PCIE_MMIO32_SIZE: u64 = 0x2f00_0000;

pub const PCIE_MMIO64_BASE: u64 = 0x40_0000_0000;

pub const PCIE_MMIO64_SIZE: u64 = 0x1_0000_0000;

/// The PSCI conduit from the device tree: `hvc` on this machine.
pub const PSCI_CONDUIT_HVC: bool = true;

/// How many CPUs the firmware keeps track of.
pub const MAX_CPUS: usize = 8;

/// What the device tree says of the machine: its CPUs, as MPIDRs in the order
/// the tree lists them, and where RAM ends.
pub struct Platform {
    mpidrs: Vec<u64>,
    count: usize,
    ram_end: u64,
}

impl Platform {
    /// The MPIDRs, one for each CPU the firmware could keep track of.
    pub closed spec fn mpidrs(&self) -> Seq<u64> {
        self.mpidrs@
    }

    pub closed spec fn cpus(&self) -> usize {
        self.count
    }

    pub closed spec fn end(&self) -> u64 {
        self.ram_end
    }

    pub open spec fn wf(&self) -> bool {
        self.mpidrs().len() == MAX_CPUS && 1 <= self.cpus() <= MAX_CPUS
    }

    /// A machine that hands over no tree: a single core, and the pessimistic end
    /// of RAM.
    pub fn new() -> (platform: Platform)
        ensures
            platform.wf(),
            platform.cpus() == 1,
            forall|i: int| 0 <= i < MAX_CPUS ==> #[trigger] platform.mpidrs()[i] == 0,
            platform.end() == RAM_BASE + RAM_SIZE_MAX,
    {
        let mut mpidrs: Vec<u64> = Vec::new();
        while mpidrs.len() < MAX_CPUS
            invariant
                mpidrs@.len() <= MAX_CPUS,
                forall|i: int| 0 <= i < mpidrs@.len() ==> #[trigger] mpidrs@[i] == 0,
            decreases MAX_CPUS - mpidrs@.len(),
        {
            mpidrs.push(0);
        }
        Platform { mpidrs, count: 1, ram_end: RAM_BASE + RAM_SIZE_MAX }
    }

    /// Records the CPUs of the machine, the first eight of them.
    pub fn set_cpus(&mut self, mpidrs: &[u64])
        requires
            old(self).wf(),
            mpidrs@.len() >= 1,
        ensures
            final(self).wf(),
            final(self).cpus() == (if mpidrs@.len() < MAX_CPUS {
                mpidrs@.len() as usize
            } else {
                MAX_CPUS
            }),
            forall|i: int|
                0 <= i < MAX_CPUS ==> #[trigger] final(self).mpidrs()[i] == (if i
                    < final(self).cpus() {
                    mpidrs@[i]
                } else {
                    old(self).mpidrs()[i]
                }),
            final(self).end() == old(self).end(),
    {
        let count: usize = if mpidrs.len() < MAX_CPUS {
            mpidrs.len()
        } else {
            MAX_CPUS
        };
        let mut index: usize = 0;
        while index < count
            invariant
                index <= count <= MAX_CPUS,
                count <= mpidrs@.len(),
                self.mpidrs@.len() == MAX_CPUS,
                self.ram_end == old(self).ram_end,
                forall|i: int|
                    0 <= i < MAX_CPUS ==> #[trigger] self.mpidrs@[i] == (if i < index {
                        mpidrs@[i]
                    } else {
                        old(self).mpidrs@[i]
                    }),
            decreases count - index,
        {
            self.mpidrs.set(index, mpidrs[index]);
            index = index + 1;
        }
        self.count = count;
    }

    /// How many CPUs the machine has.
    pub fn cpu_count(&self) -> (count: usize)
        ensures
            count == self.cpus(),
    {
        self.count
    }

    /// The MPIDR of a CPU; of the last one the firmware could keep track of, past
    /// that.
    pub fn mpidr(&self, index: usize) -> (mpidr: u64)
        requires
            self.wf(),
        ensures
            mpidr == self.mpidrs()[if index < MAX_CPUS {
                index as int
            } else {
                MAX_CPUS - 1
            }],
    {
        if index < MAX_CPUS {
            self.mpidrs[index]
        } else {
            self.mpidrs[MAX_CPUS - 1]
        }
    }

    /// Records where RAM ends.
    pub fn set_ram_end(&mut self, end: u64)
        ensures
            final(self).end() == end,
            final(self).cpus() == old(self).cpus(),
            final(self).mpidrs() == old(self).mpidrs(),
    {
        self.ram_end = end;
    }

    /// The end of RAM the firmware believes in.
    pub fn ram_end(&self) -> (end: u64)
        ensures
            end == self.end(),
    {
        self.ram_end
    }
}

} // verus!
