//! PCI configuration space: where a function's registers are, what they say, and
//! placing the windows functions ask for.
//!
//! A function's 4 KiB of configuration space is at
//! `ECAM + (bus << 20 | slot << 15 | func << 12)`. The machine leaves every BAR
//! unassigned - placing them is what PCI firmware is for.
use vstd::prelude::*;

verus! {

/// The ECAM of the machine's PCIe host bridge.
pub const ECAM_BASE: u64 = 0x40_1000_0000;

/// Vendor ID an empty slot reads as.
pub const NO_DEVICE: u16 = 0xffff;

/// Header type 1: a PCI-to-PCI bridge, whose bus registers say what to scan next.
pub const HEADER_TYPE_BRIDGE: u32 = 0x01;

/// The vendor ID virtio devices carry.
pub const VIRTIO_VENDOR: u16 = 0x1af4;

/// How deep bridges are followed.
pub const MAX_DEPTH: u8 = 4;

/// Where a function register is.
pub open spec fn register(bus: u8, slot: u8, func: u8, offset: u16) -> u64 {
    ECAM_BASE | (bus as u64) << 20 | (slot as u64) << 15 | (func as u64) << 12 | (offset as u64
        & 0xffc)
}

/// The ECAM address of a function register: for a slot and a function that
/// exist, the function's 4 KiB block and the register's place in it.
pub fn ecam(bus: u8, slot: u8, func: u8, offset: u16) -> (address: u64)
    ensures
        address == register(bus, slot, func, offset),
        slot < 32 && func < 8 ==> address == ECAM_BASE + 0x10_0000 * bus + 0x8000 * slot + 0x1000
            * func + (offset as u64 & 0xffc),
{
    assert(slot < 32 && func < 8 ==> 0x40_1000_0000u64 | (bus as u64) << 20 | (slot as u64) << 15
        | (func as u64) << 12 | (offset as u64 & 0xffc) == 0x40_1000_0000u64 + 0x10_0000 * (
    bus as u64) + 0x8000 * (slot as u64) + 0x1000 * (func as u64) + (offset as u64 & 0xffc))
        by (bit_vector);
    ECAM_BASE | (bus as u64) << 20 | (slot as u64) << 15 | (func as u64) << 12 | (offset as u64
        & 0xffc)
}

/// Every register of every function has an address of its own.
pub proof fn law_registers_are_apart(
    bus: u8,
    slot: u8,
    func: u8,
    offset: u16,
    bus2: u8,
    slot2: u8,
    func2: u8,
    offset2: u16,
)
    requires
        slot < 32,
        func < 8,
        slot2 < 32,
        func2 < 8,
        register(bus, slot, func, offset) == register(bus2, slot2, func2, offset2),
    ensures
        bus == bus2,
        slot == slot2,
        func == func2,
        offset as u64 & 0xffc == offset2 as u64 & 0xffc,
{
    assert(slot < 32 && func < 8 && slot2 < 32 && func2 < 8 && 0x40_1000_0000u64 | (bus as u64)
        << 20 | (slot as u64) << 15 | (func as u64) << 12 | (offset as u64 & 0xffc)
        == 0x40_1000_0000u64 | (bus2 as u64) << 20 | (slot2 as u64) << 15 | (func2 as u64) << 12 | (
    offset2 as u64 & 0xffc) ==> bus == bus2 && slot == slot2 && func == func2 && (offset as u64
        & 0xffc) == (offset2 as u64 & 0xffc)) by (bit_vector);
}

/// The register a 16-bit read looks at.
pub fn word_offset(offset: u16) -> (word: u16)
    ensures
        word == offset & !2,
{
    offset & !2
}

/// The half of a register a 16-bit read takes: the upper one when bit 1 of the
/// offset is set.
pub fn read16(word: u32, offset: u16) -> (half: u16)
    ensures
        half == if offset & 2 == 0 {
            word % 0x1_0000
        } else {
            word / 0x1_0000
        },
{
    if offset & 2 == 0 {
        (word % 0x1_0000) as u16
    } else {
        (word / 0x1_0000) as u16
    }
}

/// The command register with memory decoding and bus mastering on, when that
/// changes it.
pub fn enable(command: u32) -> (write: Option<u32>)
    ensures
        match write {
            Some(value) => value == command | 0b110 && value != command,
            None => command | 0b110 == command,
        },
{
    let wanted: u32 = command | 0b110;
    if wanted != command {
        Some(wanted)
    } else {
        None
    }
}

/// The registers of one function that the scan looks at: the identifiers, the
/// class, the header type and the bus numbers.
#[derive(Clone, Copy)]
pub struct FunctionWords {
    pub id: u32,
    pub class: u32,
    pub header: u32,
    pub buses: u32,
}

/// One function that was found on the bus.
#[derive(Clone, Copy, PartialEq, Eq, Structural, Debug)]
pub struct Function {
    pub bus: u8,
    pub slot: u8,
    pub func: u8,
    pub id: u32,
    pub class: u32,
}

/// The vendor ID in an identifier register.
pub open spec fn vendor(id: u32) -> u16 {
    (id % 0x1_0000) as u16
}

/// Whether a header register has the multifunction bit.
pub open spec fn multifunction(header: u32) -> bool {
    (header / 0x1_0000) % 0x100 >= 0x80
}

/// The header type in a header register.
pub open spec fn header_type(header: u32) -> u32 {
    (header / 0x1_0000) % 0x80
}

/// The bus behind a bridge.
pub open spec fn secondary(buses: u32) -> u8 {
    ((buses / 0x100) % 0x100) as u8
}

/// Whether function `k % 8` of slot `k / 8` is there: it answers, and it is
/// function 0 or its slot's function 0 is there and has the multifunction bit.
pub open spec fn present(words: Seq<FunctionWords>, k: int) -> bool {
    let zero = words[k - k % 8];
    &&& vendor(words[k].id) != NO_DEVICE
    &&& k % 8 == 0 || (vendor(zero.id) != NO_DEVICE && multifunction(zero.header))
}

/// The functions among the first `n` that are there, in order.
pub open spec fn present_below(words: Seq<FunctionWords>, n: int) -> Seq<int>
    decreases n,
{
    if n <= 0 {
        Seq::empty()
    } else if present(words, n - 1) {
        present_below(words, n - 1).push(n - 1)
    } else {
        present_below(words, n - 1)
    }
}

/// The indices of the functions that are there, in order.
pub fn find_functions(words: &Vec<FunctionWords>) -> (found: Vec<usize>)
    requires
        words@.len() == 256,
    ensures
        found@.len() == present_below(words@, 256).len(),
        forall|i: int|
            0 <= i < found@.len() ==> #[trigger] found@[i] == present_below(words@, 256)[i] && 0
                <= found@[i] < 256,
{
    let mut found: Vec<usize> = Vec::new();
    let mut next: usize = 0;
    while next < 256
        invariant
            next <= 256,
            words@.len() == 256,
            found@.len() == present_below(words@, next as int).len(),
            forall|i: int|
                0 <= i < found@.len() ==> #[trigger] found@[i] == present_below(
                    words@,
                    next as int,
                )[i] && 0 <= found@[i] < 256,
        decreases 256 - next,
    {
        let zero: FunctionWords = words[next - next % 8];
        let there: bool = words[next].id % 0x1_0000 != 0xffff && (next % 8 == 0 || (zero.id
            % 0x1_0000 != 0xffff && (zero.header / 0x1_0000) % 0x100 >= 0x80));
        assert(there == present(words@, next as int));
        if there {
            found.push(next);
        }
        next = next + 1;
    }
    found
}

/// The base address registers of a function, as they are placed.
#[derive(Clone, Copy, PartialEq, Eq, Structural, Debug)]
pub struct BarPlan {
    /// The bytes the device wants; zero when the register is not implemented.
    pub size: u64,
    /// Where the window goes; `None` when there is no window or no room.
    pub assigned: Option<u64>,
    /// What to write to the register.
    pub low: u32,
    /// What to write to the register behind it, when the window is 64-bit and
    /// has a place.
    pub high: Option<u32>,
    /// How many registers this one takes.
    pub registers: u16,
}

/// Whether a register holds an I/O window.
pub open spec fn is_io(original: u32) -> bool {
    original % 2 == 1
}

/// Whether a register is the low half of a 64-bit memory window.
pub open spec fn is_64(original: u32) -> bool {
    original % 2 == 0 && (original / 2) % 4 == 2
}

/// Whether the register behind this one belongs to it.
pub fn needs_high(original: u32) -> (high: bool)
    ensures
        high == is_64(original),
{
    original % 2 == 0 && (original / 2) % 4 == 2
}

/// The size a device wants, from what its registers read as after all ones were
/// written: an I/O window leaves the bits above its size writable in 16 bits of
/// port space, a memory window in 32 or in 64 bits. A register that keeps none of
/// them has no window.
pub open spec fn bar_size(original: u32, low: u32, high: u32) -> int {
    let port = (low % 0x1_0000) / 4 * 4;
    let base = low / 16 * 16;
    if is_io(original) {
        if port == 0 {
            0
        } else {
            0x1_0000 - port
        }
    } else if is_64(original) {
        if base == 0 && high == 0 {
            0
        } else {
            0x1_0000_0000_0000_0000 - (0x1_0000_0000 * high + base)
        }
    } else if base == 0 {
        0
    } else {
        0x1_0000_0000 - base
    }
}

/// The smallest window a register can hold, which is what the bits beside the address
/// leave: two of them in an I/O window, four in a memory window.
pub open spec fn least_window(original: u32) -> int {
    if is_io(original) {
        4
    } else {
        16
    }
}

/// The bits beside the address in a register.
pub open spec fn bits_beside(original: u32) -> u32 {
    if is_io(original) {
        original % 4
    } else {
        original % 16
    }
}

/// `value` rounded up to a multiple of `alignment`, a power of two.
pub open spec fn align(value: int, alignment: int) -> u64 {
    ((value + alignment - 1) as u64) & !((alignment - 1) as u64)
}

/// Rounding up reaches the next multiple and goes no further.
pub proof fn lemma_align(value: u64, alignment: u64)
    requires
        alignment != 0,
        alignment & ((alignment - 1) as u64) == 0,
        value + alignment - 1 <= u64::MAX,
    ensures
        value <= align(value as int, alignment as int) < value + alignment,
        align(value as int, alignment as int) & ((alignment - 1) as u64) == 0,
{
    let less: u64 = (alignment - 1) as u64;
    let sum: u64 = (value + less) as u64;
    assert(sum == value + less && alignment == less + 1);
    assert((sum & !less) & less == 0) by (bit_vector);
    assert(sum & !less <= sum) by (bit_vector);
    assert(sum >= less && alignment == less + 1 && alignment & less == 0 ==> (sum & !less) + less
        >= sum) by (bit_vector);
}

/// Space that windows are taken from, from low addresses to high ones.
#[derive(Clone, Copy, PartialEq, Eq, Structural, Debug)]
pub struct Aperture {
    pub next: u64,
    pub end: u64,
}

impl Aperture {
    /// Where a window of `size` bytes goes; `None` when there is no room.
    pub open spec fn place(self, size: int) -> Option<u64> {
        if self.next + size - 1 <= u64::MAX && align(self.next as int, size) + size <= self.end {
            Some(align(self.next as int, size))
        } else {
            None
        }
    }

    /// Takes an aligned window, or `None` when the space is exhausted.
    pub fn take(&mut self, size: u64) -> (base: Option<u64>)
        requires
            size > 0,
        ensures
            base == old(self).place(size as int),
            final(self).end == old(self).end,
            final(self).next == match base {
                Some(base) => base + size,
                None => old(self).next as int,
            },
    {
        let sum: u64 = match self.next.checked_add(size - 1) {
            Some(sum) => sum,
            None => {
                return None;
            },
        };
        let base: u64 = sum & !(size - 1);
        let next: u64 = match base.checked_add(size) {
            Some(next) => next,
            None => {
                return None;
            },
        };
        if next > self.end {
            return None;
        }
        self.next = next;
        Some(base)
    }
}

/// A window taken lies inside the space, aligned, behind everything taken before
/// it and in front of everything taken after it.
pub proof fn law_windows_are_apart(before: Aperture, size: u64)
    requires
        size != 0,
        size & ((size - 1) as u64) == 0,
        before.place(size as int) is Some,
    ensures
        ({
            let base = before.place(size as int)->Some_0;
            &&& before.next <= base
            &&& base + size <= before.end
            &&& base & ((size - 1) as u64) == 0
        }),
{
    lemma_align(before.next, size);
}

/// The two spaces windows go to. Every memory window - 64-bit ones included -
/// goes to 32-bit space, where it may live as long as its address fits.
#[derive(Clone, Copy, PartialEq, Eq, Structural, Debug)]
pub struct Windows {
    pub memory: Aperture,
    pub io: Aperture,
}

impl Windows {
    /// What becomes of a register that reads as `original`, and as `low` and
    /// `high` after all ones were written, and the spaces afterwards. `flags` are
    /// the bits beside the address.
    pub open spec fn plan(self, original: u32, low: u32, high: u32, flags: u32) -> (
        Windows,
        BarPlan,
    ) {
        let size = bar_size(original, low, high);
        let registers = if is_64(original) {
            2u16
        } else {
            1u16
        };
        let none = BarPlan { size: size as u64, assigned: None, low: 0, high: None, registers };
        let least = least_window(original);
        let wanted = if size >= least {
            size
        } else {
            least
        };
        let space = if is_io(original) {
            self.io
        } else {
            self.memory
        };
        if size == 0 {
            (self, none)
        } else {
            match space.place(wanted) {
                None => (self, none),
                Some(base) => {
                    let taken = Aperture { next: (base + wanted) as u64, end: space.end };
                    (
                        if is_io(original) {
                            Windows { io: taken, ..self }
                        } else {
                            Windows { memory: taken, ..self }
                        },
                        BarPlan {
                            size: size as u64,
                            assigned: Some(base),
                            low: ((base % 0x1_0000_0000) as int / least * least + flags) as u32,
                            high: if is_64(original) {
                                Some((base / 0x1_0000_0000) as u32)
                            } else {
                                None
                            },
                            registers,
                        },
                    )
                },
            }
        }
    }

    /// Sizes and places one register.
    pub fn assign(&mut self, original: u32, low: u32, high: u32, flags: u32) -> (plan: BarPlan)
        requires
            flags < least_window(original),
        ensures
            (*final(self), plan) == old(self).plan(original, low, high, flags),
    {
        let io: bool = original % 2 == 1;
        let wide: bool = needs_high(original);
        let port: u32 = (low % 0x1_0000) / 4 * 4;
        let base: u32 = low / 16 * 16;
        let size: u64 = if io {
            if port == 0 {
                0
            } else {
                0x1_0000 - port as u64
            }
        } else if wide {
            if base == 0 && high == 0 {
                0
            } else {
                0xffff_ffff_ffff_ffff - (0x1_0000_0000 * (high as u64) + base as u64) + 1
            }
        } else if base == 0 {
            0
        } else {
            0x1_0000_0000 - base as u64
        };
        let registers: u16 = if wide {
            2
        } else {
            1
        };
        let none = BarPlan { size, assigned: None, low: 0, high: None, registers };
        if size == 0 {
            return none;
        }
        let assigned: Option<u64> = if io {
            self.io.take(if size >= 4 { size } else { 4 })
        } else {
            self.memory.take(if size >= 16 { size } else { 16 })
        };
        match assigned {
            None => none,
            Some(at) => BarPlan {
                size,
                assigned: Some(at),
                low: if io {
                    ((at % 0x1_0000_0000) / 4 * 4) as u32 + flags
                } else {
                    ((at % 0x1_0000_0000) / 16 * 16) as u32 + flags
                },
                high: if wide {
                    Some((at / 0x1_0000_0000) as u32)
                } else {
                    None
                },
                registers,
            },
        }
    }
}

/// An aligned window of at least four bytes begins at a multiple of four, and one of at
/// least sixteen at a multiple of sixteen.
proof fn lemma_aligned(base: u64, size: u64)
    requires
        size >= 4,
        size & ((size - 1) as u64) == 0,
        base & ((size - 1) as u64) == 0,
    ensures
        base % 4 == 0,
        size >= 16 ==> base % 16 == 0,
{
    let less: u64 = (size - 1) as u64;
    assert(size >= 4 && size & less == 0 && less == size - 1 && base & less == 0 ==> base % 4 == 0)
        by (bit_vector);
    assert(size >= 16 && size & less == 0 && less == size - 1 && base & less == 0 ==> base % 16 == 0)
        by (bit_vector);
}

/// A register holds the address its window was assigned, and beside it the bits it was
/// given, whatever the size of the window.
#[verifier::spinoff_prover]
#[verifier::rlimit(40)]
pub proof fn law_register_holds_its_window(
    windows: Windows,
    original: u32,
    low: u32,
    high: u32,
    flags: u32,
)
    requires
        flags < least_window(original),
        ({
            let size = bar_size(original, low, high);
            size > 0 && (size as u64) & ((size - 1) as u64) == 0
        }),
        windows.plan(original, low, high, flags).1.assigned is Some,
    ensures
        ({
            let plan = windows.plan(original, low, high, flags).1;
            let base = plan.assigned->0;
            &&& plan.low == base % 0x1_0000_0000 + flags
            &&& is_64(original) ==> plan.high == Some((base / 0x1_0000_0000) as u32)
        }),
{
    let least = least_window(original);
    let size = bar_size(original, low, high);
    let wanted: u64 = if size >= least {
        size as u64
    } else {
        least as u64
    };
    let space = if is_io(original) {
        windows.io
    } else {
        windows.memory
    };
    assert(wanted & ((wanted - 1) as u64) == 0) by {
        assert(4u64 & 3 == 0 && 16u64 & 15 == 0) by (bit_vector);
    }
    assert(space.place(wanted as int) is Some);
    let base: u64 = space.place(wanted as int)->0;
    law_windows_are_apart(space, wanted);
    lemma_aligned(base, wanted);
    assert(base as int % least == 0);
    assert((base % 0x1_0000_0000) as int / least * least == base % 0x1_0000_0000);
}

/// The function at `k`, as the scan lists it.
pub open spec fn function_at(bus: u8, k: int, words: FunctionWords) -> Function {
    Function {
        bus,
        slot: (k / 8) as u8,
        func: (k % 8) as u8,
        id: words.id,
        class: words.class,
    }
}

/// The functions of a bus.
pub open spec fn functions(bus: u8, words: Seq<FunctionWords>) -> Seq<Function> {
    let there = present_below(words, 256);
    Seq::new(there.len(), |i: int| function_at(bus, there[i], words[there[i]]))
}

/// The bus a function leads to, when it is a bridge and the bus is a later one.
/// With `first_only`, only function 0 of a slot is followed.
pub open spec fn leads_to(bus: u8, k: int, words: FunctionWords, first_only: bool) -> Option<u8> {
    if (k % 8 == 0 || !first_only) && header_type(words.header) == HEADER_TYPE_BRIDGE && secondary(words.buses)
        > bus {
        Some(secondary(words.buses))
    } else {
        None
    }
}

/// The buses behind the first `n` functions that are there.
pub open spec fn behind(
    bus: u8,
    words: Seq<FunctionWords>,
    there: Seq<int>,
    first_only: bool,
) -> Seq<u8>
    decreases there.len(),
{
    if there.len() == 0 {
        Seq::empty()
    } else {
        let before = behind(bus, words, there.drop_last(), first_only);
        match leads_to(bus, there.last(), words[there.last()], first_only) {
            Some(next) => before.push(next),
            None => before,
        }
    }
}

/// The buses behind a bus.
pub open spec fn targets(bus: u8, words: Seq<FunctionWords>, first_only: bool) -> Seq<u8> {
    behind(bus, words, present_below(words, 256), first_only)
}

/// Every function on a bus and behind it, `c` being what the configuration space
/// of each bus reads as.
pub open spec fn scanned(
    c: spec_fn(u8) -> Seq<FunctionWords>,
    bus: u8,
    depth: int,
    first_only: bool,
) -> Seq<
    Function,
>
    decreases MAX_DEPTH + 1 - depth, 0nat,
{
    if depth > MAX_DEPTH {
        Seq::empty()
    } else {
        functions(bus, c(bus)) + scanned_all(c, targets(bus, c(bus), first_only), depth + 1, first_only)
    }
}

/// Every function on the buses `buses` and behind them, bus by bus.
pub open spec fn scanned_all(
    c: spec_fn(u8) -> Seq<FunctionWords>,
    buses: Seq<u8>,
    depth: int,
    first_only: bool,
) -> Seq<Function>
    decreases MAX_DEPTH + 1 - depth, buses.len() + 1,
{
    if buses.len() == 0 || depth > MAX_DEPTH {
        Seq::empty()
    } else {
        scanned(c, buses[0], depth, first_only) + scanned_all(
            c,
            buses.drop_first(),
            depth,
            first_only,
        )
    }
}

/// What scanning the buses still to come finds, the last first.
pub open spec fn outstanding(
    c: spec_fn(u8) -> Seq<FunctionWords>,
    pending: Seq<(u8, u8)>,
    first_only: bool,
) -> Seq<Function>
    decreases pending.len(),
{
    if pending.len() == 0 {
        Seq::empty()
    } else {
        scanned(c, pending.last().0, pending.last().1 as int, first_only) + outstanding(
            c,
            pending.drop_last(),
            first_only,
        )
    }
}

/// Buses at a depth, the first last.
pub open spec fn stacked(buses: Seq<u8>, depth: u8) -> Seq<(u8, u8)> {
    Seq::new(buses.len(), |i: int| (buses[buses.len() - 1 - i], depth))
}

/// An enumeration of the buses, in progress.
pub struct Scan {
    pub found: Vec<Function>,
    /// The buses still to be scanned and how deep they lie, the next one last.
    pub pending: Vec<(u8, u8)>,
    /// Whether only function 0 of a slot is followed.
    pub first_only: bool,
}

impl Scan {
    /// Starts at bus 0.
    pub fn start(first_only: bool) -> (scan: Scan)
        ensures
            scan.found@ == Seq::<Function>::empty(),
            scan.pending@ == seq![(0u8, 0u8)],
            scan.first_only == first_only,
    {
        let mut pending: Vec<(u8, u8)> = Vec::new();
        pending.push((0, 0));
        let scan = Scan { found: Vec::new(), pending, first_only };
        assert(scan.pending@ =~= seq![(0u8, 0u8)]);
        scan
    }

    /// The bus whose functions are wanted next.
    pub fn next_bus(&self) -> (bus: Option<u8>)
        ensures
            bus == if self.pending@.len() == 0 {
                None
            } else {
                Some(self.pending@.last().0)
            },
    {
        if self.pending.len() == 0 {
            None
        } else {
            Some(self.pending[self.pending.len() - 1].0)
        }
    }

    /// Takes the registers of the 256 functions of the bus that was wanted.
    pub fn scan_bus(&mut self, words: &Vec<FunctionWords>)
        requires
            old(self).pending@.len() > 0,
            words@.len() == 256,
        ensures
            final(self).first_only == old(self).first_only,
            ({
                let (bus, depth) = old(self).pending@.last();
                &&& final(self).found@ == old(self).found@ + functions(bus, words@)
                &&& final(self).pending@ == old(self).pending@.drop_last() + if depth < MAX_DEPTH {
                    stacked(targets(bus, words@, old(self).first_only), (depth + 1) as u8)
                } else {
                    Seq::empty()
                }
            }),
    {
        let first_only: bool = self.first_only;
        let ghost before = self.pending@.drop_last();
        let ghost found_before = self.found@;
        let last: usize = self.pending.len() - 1;
        let (bus, depth) = self.pending[last];
        let _done: Option<(u8, u8)> = self.pending.pop();
        let there: Vec<usize> = find_functions(words);
        let ghost spots = present_below(words@, 256);
        let mut further: Vec<u8> = Vec::new();
        let mut next: usize = 0;
        while next < there.len()
            invariant
                next <= there@.len(),
                there@.len() == spots.len(),
                words@.len() == 256,
                forall|i: int|
                    0 <= i < there@.len() ==> #[trigger] there@[i] == spots[i] && 0 <= there@[i]
                        < 256,
                self.pending@ == before,
                self.found@ == found_before + Seq::new(
                    next as nat,
                    |i: int| function_at(bus, spots[i], words@[spots[i]]),
                ),
                first_only == old(self).first_only,
                self.first_only == first_only,
                further@ == behind(bus, words@, spots.subrange(0, next as int), first_only),
            decreases there@.len() - next,
        {
            let k: usize = there[next];
            let word: FunctionWords = words[k];
            let ghost found_now = self.found@;
            self.push_function(bus, k, &word);
            proof {
                assert(spots.subrange(0, next + 1).drop_last() =~= spots.subrange(0, next as int));
                assert(spots.subrange(0, next + 1).last() == k as int);
                assert(self.found@ =~= found_before + Seq::new(
                    (next + 1) as nat,
                    |i: int| function_at(bus, spots[i], words@[spots[i]]),
                ));
            }
            let target: u8 = ((word.buses / 0x100) % 0x100) as u8;
            if (k % 8 == 0 || !first_only) && (word.header / 0x1_0000) % 0x80 == HEADER_TYPE_BRIDGE && target
                > bus {
                further.push(target);
            }
            next = next + 1;
        }
        proof {
            assert(spots.subrange(0, next as int) =~= spots);
            assert(self.found@ =~= found_before + functions(bus, words@));
        }
        if depth < MAX_DEPTH {
            let mut left: usize = further.len();
            assert(before + stacked(further@, (depth + 1) as u8).subrange(0, 0) =~= before);
            while left > 0
                invariant
                    left <= further@.len(),
                    depth < MAX_DEPTH,
                    self.first_only == first_only,
                    self.found@ == found_before + functions(bus, words@),
                    self.pending@ == before + stacked(further@, (depth + 1) as u8).subrange(
                        0,
                        further@.len() - left,
                    ),
                decreases left,
            {
                left = left - 1;
                self.pending.push((further[left], depth + 1));
                assert(self.pending@ =~= before + stacked(further@, (depth + 1) as u8).subrange(
                    0,
                    further@.len() - left,
                ));
            }
            assert(stacked(further@, (depth + 1) as u8).subrange(0, further@.len() as int)
                =~= stacked(further@, (depth + 1) as u8));
        } else {
            assert(before + Seq::<(u8, u8)>::empty() =~= before);
        }
    }

    /// Lists one function.
    fn push_function(&mut self, bus: u8, k: usize, words: &FunctionWords)
        requires
            k < 256,
        ensures
            final(self).found@ == old(self).found@.push(function_at(bus, k as int, *words)),
            final(self).pending@ == old(self).pending@,
            final(self).first_only == old(self).first_only,
    {
        self.found.push(
            Function {
                bus,
                slot: (k / 8) as u8,
                func: (k % 8) as u8,
                id: words.id,
                class: words.class,
            },
        );
    }
}

proof fn lemma_outstanding(
    c: spec_fn(u8) -> Seq<FunctionWords>,
    pending: Seq<(u8, u8)>,
    buses: Seq<u8>,
    depth: u8,
    first_only: bool,
)
    requires
        depth <= MAX_DEPTH,
    ensures
        outstanding(c, pending + stacked(buses, depth), first_only) == scanned_all(c, buses, depth as int, first_only)
            + outstanding(c, pending, first_only),
    decreases buses.len(),
{
    let all = pending + stacked(buses, depth);
    if buses.len() == 0 {
        assert(all =~= pending);
        assert(scanned_all(c, buses, depth as int, first_only) + outstanding(c, pending, first_only) =~= outstanding(c, pending, first_only));
    } else {
        assert(all.last() == (buses[0], depth));
        assert(all.drop_last() =~= pending + stacked(buses.drop_first(), depth));
        lemma_outstanding(c, pending, buses.drop_first(), depth, first_only);
        assert(outstanding(c, all, first_only) =~= scanned_all(c, buses, depth as int, first_only) + outstanding(c, pending, first_only));
    }
}

/// The enumeration finds what the walk over the buses describes: what was found
/// and what is outstanding stays the same from bus to bus, so it is everything
/// reachable from bus 0 when it starts and everything found when it ends.
pub proof fn law_scan_finds_everything(
    c: spec_fn(u8) -> Seq<FunctionWords>,
    found: Seq<Function>,
    pending: Seq<(u8, u8)>,
    first_only: bool,
)
    requires
        pending.len() > 0,
        pending.last().1 <= MAX_DEPTH,
    ensures
        ({
            let (bus, depth) = pending.last();
            let found_after = found + functions(bus, c(bus));
            let pending_after = pending.drop_last() + if depth < MAX_DEPTH {
                stacked(targets(bus, c(bus), first_only), (depth + 1) as u8)
            } else {
                Seq::empty()
            };
            found_after + outstanding(c, pending_after, first_only) == found + outstanding(c, pending, first_only)
        }),
        Seq::<Function>::empty() + outstanding(c, seq![(0u8, 0u8)], first_only) == scanned(
            c,
            0,
            0,
            first_only,
        ),
        found + outstanding(c, Seq::empty(), first_only) == found,
{
    let (bus, depth) = pending.last();
    let rest = pending.drop_last();
    let own = functions(bus, c(bus));
    if depth < MAX_DEPTH {
        lemma_outstanding(c, rest, targets(bus, c(bus), first_only), (depth + 1) as u8, first_only);
    } else {
        assert(rest + Seq::<(u8, u8)>::empty() =~= rest);
        assert(scanned_all(c, targets(bus, c(bus), first_only), depth + 1, first_only) =~= Seq::<Function>::empty());
    }
    assert(outstanding(c, pending, first_only) =~= scanned(c, bus, depth as int, first_only) + outstanding(c, rest, first_only));
    let start = seq![(0u8, 0u8)];
    assert(start.drop_last() =~= Seq::<(u8, u8)>::empty());
    assert(outstanding(c, start, first_only) =~= scanned(c, 0, 0, first_only) + outstanding(c, start.drop_last(), first_only));
    assert(Seq::<Function>::empty() + outstanding(c, start, first_only) =~= scanned(c, 0, 0, first_only));
    assert(found + outstanding(c, Seq::empty(), first_only) =~= found);
    let pending_after = rest + if depth < MAX_DEPTH {
        stacked(targets(bus, c(bus), first_only), (depth + 1) as u8)
    } else {
        Seq::empty()
    };
    assert(found + own + outstanding(c, pending_after, first_only) =~= found + outstanding(c, pending, first_only));
}


} // verus!
