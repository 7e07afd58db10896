//! The HOB list the DXE core is handed.
//!
//! The hand-off table describes RAM, resource descriptors describe what the
//! core may use, the DXE module HOB locates its loaded PE image, and an FV HOB
//! names the firmware volume that supplied it. Firmware-owned windows (image,
//! stack, heap, device tree and FV) are reserved.
use crate::bytes::{fill, le_bytes, lemma_le_bytes_len, push_fill, push_le, push_slice};
use crate::ranges::{covered, covers, in_order, lemma_sorted, lemma_sorted_covers, sort, sorted};
use vstd::prelude::*;

verus! {

/// `EFI_HOB_TYPE_HANDOFF`.
pub const TYPE_HANDOFF: u16 = 0x0001;

/// `EFI_HOB_TYPE_MEMORY_ALLOCATION`.
pub const TYPE_MEMORY_ALLOCATION: u16 = 0x0002;

/// `EFI_HOB_TYPE_FV`.
pub const TYPE_FV: u16 = 0x0005;

/// `EFI_HOB_TYPE_CPU`.
pub const TYPE_CPU: u16 = 0x0006;

/// `EFI_HOB_TYPE_RESOURCE_DESCRIPTOR`, second revision.
pub const TYPE_RESOURCE_DESCRIPTOR: u16 = 0x000d;

/// `EFI_HOB_TYPE_END_OF_HOB_LIST`.
pub const TYPE_END_OF_HOB_LIST: u16 = 0xffff;

/// `EFI_MEMORY_TYPE` of the DXE core's image.
pub const MEMORY_BOOT_SERVICES_CODE: u32 = 0x0000_0003;

/// `EFI_MEMORY_TYPE` of a stack.
pub const MEMORY_BOOT_SERVICES_DATA: u32 = 0x0000_0004;

/// `EFI_HOB_MEMORY_ALLOC_STACK_GUID`.
pub const MEMORY_ALLOC_STACK_GUID: [u8; 16] = [
    0x27, 0xbf, 0xd4, 0x4e, 0x92, 0x40, 0xe9, 0x42, 0x80, 0x7d, 0x52, 0x7b, 0x1d, 0x00, 0xc9, 0xbd,
];

/// The identity the DXE core is filed under.
pub const DXE_CORE_ID: [u8; 16] = [
    0x2f, 0x32, 0xc9, 0x23, 0xf2, 0x2a, 0x6a, 0x47, 0xbc, 0x4c, 0x26, 0xbc, 0x88, 0x26, 0x6c, 0x71,
];

/// `EFI_RESOURCE_SYSTEM_MEMORY`: memory the core may hand out.
pub const RESOURCE_SYSTEM_MEMORY: u32 = 0x0000_0000;

/// `EFI_RESOURCE_MEMORY_MAPPED_IO`: the machine's devices.
pub const RESOURCE_MEMORY_MAPPED_IO: u32 = 0x0000_0001;

/// `EFI_RESOURCE_MEMORY_RESERVED`: memory the core must leave alone.
pub const RESOURCE_MEMORY_RESERVED: u32 = 0x0000_0005;

/// Present, initialized, tested, and the execution permission can be changed.
pub const RESOURCE_ATTRIBUTES: u32 = 0x0040_0007;

/// Present, write-back cacheable, and the execution permission can be changed.
pub const RESOURCE_ATTRIBUTES_RESERVED: u32 = 0x0040_2001;

/// The attributes of system memory, and uncacheable.
pub const RESOURCE_ATTRIBUTES_DEVICE: u32 = 0x0040_0407;

/// `EFI_MEMORY_WB`: write-back caching, which is what RAM is.
pub const CACHE_WRITE_BACK: u64 = 0x0000_0000_0000_0008;

/// `EFI_MEMORY_UC`: uncached, which is what a device window is.
pub const CACHE_UNCACHED: u64 = 0x0000_0000_0000_0001;

/// The PI specification revision the list claims.
pub const VERSION: u32 = 0x0000_0009;

/// A boot that configured everything it found.
pub const BOOT_WITH_FULL_CONFIGURATION: u32 = 0x0000_0000;

/// The bytes set aside for the list.
pub const AREA_SIZE: usize = 4096;

/// A range of memory as the list describes it.
#[derive(Clone, Copy, PartialEq, Eq, Structural, Debug)]
pub struct Described {
    pub start: u64,
    pub end: u64,
    pub reserved: bool,
}

/// What the list describes besides memory windows and devices.
#[derive(Clone, Copy)]
pub struct Machine {
    /// The machine's memory, low and high.
    pub ram: (u64, u64),
    /// Memory the core may allocate HOBs from before its own allocator runs.
    pub hob_heap: (u64, u64),
    /// How wide physical addresses are.
    pub address_bits: u8,
    /// The core's image: where it is, how big it is, and its entry point.
    pub dxe_core: (u64, u64, u64),
    /// The firmware volume in RAM: where it is and how long it is.
    pub firmware_volume: (u64, u64),
    /// The stack: where it is and how long it is.
    pub stack: (u64, u64),
}

/// The part of `r` inside `bounds`; empty when there is none.
pub open spec fn clip(r: (u64, u64), bounds: (u64, u64)) -> (u64, u64) {
    (if r.0 >= bounds.0 { r.0 } else { bounds.0 }, if r.1 <= bounds.1 { r.1 } else { bounds.1 })
}

/// The non-empty parts of the ranges `s` inside `bounds`.
pub open spec fn clip_all(s: Seq<(u64, u64)>, bounds: (u64, u64)) -> Seq<(u64, u64)>
    decreases s.len(),
{
    if s.len() == 0 {
        Seq::empty()
    } else {
        let rest = clip_all(s.drop_last(), bounds);
        let last = clip(s.last(), bounds);
        if last.0 < last.1 {
            rest.push(last)
        } else {
            rest
        }
    }
}

/// `start..end` without the window `skip`.
pub open spec fn skipping(start: u64, end: u64, reserved: bool, skip: (u64, u64)) -> Seq<Described> {
    if skip.1 <= start || skip.0 >= end {
        seq![Described { start, end, reserved }]
    } else {
        (if skip.0 > start {
            seq![Described { start, end: skip.0, reserved }]
        } else {
            Seq::empty()
        }) + (if skip.1 < end {
            seq![Described { start: skip.1, end, reserved }]
        } else {
            Seq::empty()
        })
    }
}

/// How far the windows `w` reach from `at`.
pub open spec fn reach(w: Seq<(u64, u64)>, at: u64) -> u64
    decreases w.len(),
{
    if w.len() == 0 {
        at
    } else {
        let before = reach(w.drop_last(), at);
        if before >= w.last().1 {
            before
        } else {
            w.last().1
        }
    }
}

/// The windows `w`, each reserved, with the gaps in front of them offered.
pub open spec fn walked(w: Seq<(u64, u64)>, at: u64, skip: (u64, u64)) -> Seq<Described>
    decreases w.len(),
{
    if w.len() == 0 {
        Seq::empty()
    } else {
        let before = reach(w.drop_last(), at);
        walked(w.drop_last(), at, skip) + (if w.last().0 > before {
            skipping(before, w.last().0, false, skip)
        } else {
            Seq::empty()
        }) + skipping(w.last().0, w.last().1, true, skip)
    }
}

/// The memory descriptors: the reserved windows, clipped to RAM and in order,
/// with what lies between them offered, all without the HOB heap.
pub open spec fn memory_ranges(
    ram: (u64, u64),
    reserved: Seq<(u64, u64)>,
    hob_heap: (u64, u64),
) -> Seq<Described> {
    let w = sorted(clip_all(reserved, ram));
    let skip = clip(hob_heap, ram);
    let at = reach(w, ram.0);
    walked(w, ram.0, skip) + (if at < ram.1 {
        skipping(at, ram.1, false, skip)
    } else {
        Seq::empty()
    })
}

/// `EFI_HOB_GENERIC_HEADER`.
pub open spec fn header(hob_type: u16, length: nat) -> Seq<u8> {
    le_bytes(hob_type as nat, 2) + le_bytes(length, 2) + le_bytes(0, 4)
}

/// `EFI_HOB_HANDOFF_INFO_TABLE`.
pub open spec fn handoff(ram: (u64, u64), heap: (u64, u64), end: nat) -> Seq<u8> {
    header(TYPE_HANDOFF, 56) + le_bytes(VERSION as nat, 4) + le_bytes(
        BOOT_WITH_FULL_CONFIGURATION as nat,
        4,
    ) + le_bytes(ram.1 as nat, 8) + le_bytes(ram.0 as nat, 8) + le_bytes(heap.1 as nat, 8)
        + le_bytes(heap.0 as nat, 8) + le_bytes(end, 8)
}

/// `EFI_HOB_CPU`, with no I/O ports.
pub open spec fn cpu(address_bits: u8) -> Seq<u8> {
    header(TYPE_CPU, 16) + le_bytes(address_bits as nat, 1) + le_bytes(0, 7)
}

/// The fields that both memory allocation HOBs start with.
pub open spec fn allocation(
    size: nat,
    name: Seq<u8>,
    base: u64,
    length: u64,
    memory_type: u32,
) -> Seq<u8> {
    header(TYPE_MEMORY_ALLOCATION, size) + name + le_bytes(base as nat, 8) + le_bytes(
        length as nat,
        8,
    ) + le_bytes(memory_type as nat, 4) + le_bytes(0, 4)
}

/// `EFI_HOB_MEMORY_ALLOCATION` naming the stack.
pub open spec fn stack_allocation(stack: (u64, u64)) -> Seq<u8> {
    allocation(48, MEMORY_ALLOC_STACK_GUID@, stack.0, stack.1, MEMORY_BOOT_SERVICES_DATA)
}

/// `EFI_HOB_MEMORY_ALLOCATION_MODULE` naming the DXE core.
pub open spec fn module_allocation(core: (u64, u64, u64)) -> Seq<u8> {
    allocation(72, DXE_CORE_ID@, core.0, core.1, MEMORY_BOOT_SERVICES_CODE) + DXE_CORE_ID@
        + le_bytes(core.2 as nat, 8)
}

/// `EFI_HOB_FIRMWARE_VOLUME`.
pub open spec fn firmware_volume(volume: (u64, u64)) -> Seq<u8> {
    header(TYPE_FV, 24) + le_bytes(volume.0 as nat, 8) + le_bytes(volume.1 as nat, 8)
}

/// `EFI_HOB_RESOURCE_DESCRIPTOR`, second revision.
pub open spec fn resource(
    resource_type: u32,
    attribute: u32,
    start: u64,
    end: u64,
    cache: u64,
) -> Seq<u8> {
    header(TYPE_RESOURCE_DESCRIPTOR, 56) + fill(16, 0) + le_bytes(resource_type as nat, 4)
        + le_bytes(attribute as nat, 4) + le_bytes(start as nat, 8) + le_bytes(
        (end - start) as nat,
        8,
    ) + le_bytes(cache as nat, 8)
}

/// The descriptor of a memory range.
pub open spec fn memory_resource(d: Described) -> Seq<u8> {
    if d.reserved {
        resource(
            RESOURCE_MEMORY_RESERVED,
            RESOURCE_ATTRIBUTES_RESERVED,
            d.start,
            d.end,
            CACHE_WRITE_BACK,
        )
    } else {
        resource(
            RESOURCE_SYSTEM_MEMORY,
            RESOURCE_ATTRIBUTES,
            d.start,
            d.end,
            CACHE_WRITE_BACK,
        )
    }
}

/// The descriptor of a device window.
pub open spec fn device_resource(window: (u64, u64)) -> Seq<u8> {
    resource(
        RESOURCE_MEMORY_MAPPED_IO,
        RESOURCE_ATTRIBUTES_DEVICE,
        window.0,
        window.1,
        CACHE_UNCACHED,
    )
}

/// The descriptors of memory ranges, one after another.
pub open spec fn memory_resources(s: Seq<Described>) -> Seq<u8>
    decreases s.len(),
{
    if s.len() == 0 {
        Seq::empty()
    } else {
        memory_resources(s.drop_last()) + memory_resource(s.last())
    }
}

/// The descriptors of device windows, one after another.
pub open spec fn device_resources(s: Seq<(u64, u64)>) -> Seq<u8>
    decreases s.len(),
{
    if s.len() == 0 {
        Seq::empty()
    } else {
        device_resources(s.drop_last()) + device_resource(s.last())
    }
}

/// What follows the hand-off table.
pub open spec fn after_handoff(
    machine: Machine,
    reserved: Seq<(u64, u64)>,
    devices: Seq<(u64, u64)>,
) -> Seq<u8> {
    cpu(machine.address_bits) + stack_allocation(machine.stack) + module_allocation(
        machine.dxe_core,
    ) + firmware_volume(machine.firmware_volume) + memory_resources(
        memory_ranges(machine.ram, reserved, machine.hob_heap),
    ) + device_resources(devices) + header(TYPE_END_OF_HOB_LIST, 8)
}

/// The whole list, as it stands at `base`.
pub open spec fn list(
    base: u64,
    machine: Machine,
    reserved: Seq<(u64, u64)>,
    devices: Seq<(u64, u64)>,
) -> Seq<u8> {
    let rest = after_handoff(machine, reserved, devices);
    handoff(machine.ram, clip(machine.hob_heap, machine.ram), base as nat + 56 + rest.len()) + rest
}

/// Whether some descriptor covers an address, as reserved or as offered.
pub open spec fn describes(s: Seq<Described>, a: int, reserved: bool) -> bool {
    exists|i: int|
        0 <= i < s.len() && (#[trigger] s[i]).reserved == reserved && s[i].start <= a < s[i].end
}

proof fn lemma_describes_add(x: Seq<Described>, y: Seq<Described>, a: int, reserved: bool)
    ensures
        describes(x + y, a, reserved) == (describes(x, a, reserved) || describes(y, a, reserved)),
{
    if describes(x, a, reserved) {
        let i = choose|i: int|
            0 <= i < x.len() && (#[trigger] x[i]).reserved == reserved && x[i].start <= a
                < x[i].end;
        assert((x + y)[i] == x[i]);
    }
    if describes(y, a, reserved) {
        let i = choose|i: int|
            0 <= i < y.len() && (#[trigger] y[i]).reserved == reserved && y[i].start <= a
                < y[i].end;
        assert((x + y)[x.len() + i] == y[i]);
    }
    if describes(x + y, a, reserved) {
        let i = choose|i: int|
            0 <= i < (x + y).len() && (#[trigger] (x + y)[i]).reserved == reserved && (x
                + y)[i].start <= a < (x + y)[i].end;
        if i < x.len() {
            assert(x[i] == (x + y)[i]);
        } else {
            assert(y[i - x.len()] == (x + y)[i]);
        }
    }
}

/// Leaving a window out of a range leaves exactly that window out.
proof fn lemma_skipping(start: u64, end: u64, reserved: bool, skip: (u64, u64), a: int, r: bool)
    ensures
        describes(skipping(start, end, reserved, skip), a, r) == (r == reserved && start <= a < end
            && !covers(skip, a)),
{
    let s = skipping(start, end, reserved, skip);
    if r == reserved && start <= a < end && !covers(skip, a) {
        if skip.1 <= start || skip.0 >= end {
            assert(s[0] == (Described { start, end, reserved }));
        } else if a < skip.0 {
            assert(s[0] == (Described { start, end: skip.0, reserved }));
        } else {
            assert(s[s.len() - 1] == (Described { start: skip.1, end, reserved }));
        }
    }
}

proof fn lemma_clip_all(s: Seq<(u64, u64)>, bounds: (u64, u64), a: int)
    ensures
        covered(clip_all(s, bounds), a) == (covered(s, a) && bounds.0 <= a < bounds.1),
        forall|i: int|
            0 <= i < clip_all(s, bounds).len() ==> bounds.0 <= (
            #[trigger] clip_all(s, bounds)[i]).0 < clip_all(s, bounds)[i].1 <= bounds.1,
    decreases s.len(),
{
    if s.len() > 0 {
        let rest = clip_all(s.drop_last(), bounds);
        let last = clip(s.last(), bounds);
        let all = clip_all(s, bounds);
        lemma_clip_all(s.drop_last(), bounds, a);
        if covered(s, a) && bounds.0 <= a < bounds.1 {
            let i = choose|i: int| 0 <= i < s.len() && covers(#[trigger] s[i], a);
            if i == s.len() - 1 {
                assert(all[all.len() - 1] == last);
            } else {
                assert(s.drop_last()[i] == s[i]);
                let j = choose|j: int| 0 <= j < rest.len() && covers(#[trigger] rest[j], a);
                assert(all[j] == rest[j]);
            }
        }
        if covered(all, a) {
            let j = choose|j: int| 0 <= j < all.len() && covers(#[trigger] all[j], a);
            if j < rest.len() {
                assert(rest[j] == all[j]);
                let i = choose|i: int|
                    0 <= i < s.drop_last().len() && covers(#[trigger] s.drop_last()[i], a);
                assert(s[i] == s.drop_last()[i]);
            } else {
                assert(covers(s[s.len() - 1], a));
            }
        }
    }
}

/// Walking ordered windows that lie in memory describes every address up to
/// where they reach, and none beyond.
proof fn lemma_walked(w: Seq<(u64, u64)>, at: u64, skip: (u64, u64), a: int)
    requires
        forall|i: int| 0 <= i < w.len() ==> at <= (#[trigger] w[i]).0 < w[i].1,
        forall|i: int, j: int|
            0 <= i <= j < w.len() ==> in_order(#[trigger] w[i], #[trigger] w[j]),
    ensures
        reach(w, at) >= at,
        w.len() > 0 ==> w.last().0 < reach(w, at),
        describes(walked(w, at, skip), a, true) == (covered(w, a) && !covers(skip, a)),
        describes(walked(w, at, skip), a, false) == (at <= a < reach(w, at) && !covered(w, a)
            && !covers(skip, a)),
        covered(w, a) ==> at <= a < reach(w, at),
    decreases w.len(),
{
    if w.len() > 0 {
        let front = w.drop_last();
        let last = w.last();
        let before = reach(front, at);
        assert forall|i: int| 0 <= i < front.len() implies at <= (#[trigger] front[i]).0
            < front[i].1 by {
            assert(front[i] == w[i]);
        }
        assert forall|i: int, j: int| 0 <= i <= j < front.len() implies in_order(
            #[trigger] front[i],
            #[trigger] front[j],
        ) by {
            assert(front[i] == w[i] && front[j] == w[j]);
        }
        lemma_walked(front, at, skip, a);
        let gap = if last.0 > before {
            skipping(before, last.0, false, skip)
        } else {
            Seq::empty()
        };
        lemma_skipping(before, last.0, false, skip, a, false);
        lemma_skipping(before, last.0, false, skip, a, true);
        lemma_skipping(last.0, last.1, true, skip, a, false);
        lemma_skipping(last.0, last.1, true, skip, a, true);
        let own = skipping(last.0, last.1, true, skip);
        let first = walked(front, at, skip);
        lemma_describes_add(first, gap, a, true);
        lemma_describes_add(first, gap, a, false);
        lemma_describes_add(first + gap, own, a, true);
        lemma_describes_add(first + gap, own, a, false);
        if covered(front, a) {
            let i = choose|i: int| 0 <= i < front.len() && covers(#[trigger] front[i], a);
            assert(w[i] == front[i]);
        }
        if covers(last, a) {
            assert(covers(w[w.len() - 1], a));
        }
        if covered(w, a) && !covers(last, a) {
            let i = choose|i: int| 0 <= i < w.len() && covers(#[trigger] w[i], a);
            assert(front[i] == w[i]);
        }
        // An address in front of the last window's start stays as it was; one
        // that an earlier gap offered lies before an earlier start.
        if front.len() > 0 {
            assert(in_order(w[w.len() - 2], w[w.len() - 1]));
            lemma_offered_before_last(front, at, skip, a);
        }
    }
}

/// What the walk offers lies in front of the last window.
proof fn lemma_offered_before_last(w: Seq<(u64, u64)>, at: u64, skip: (u64, u64), a: int)
    requires
        w.len() > 0,
        forall|i: int, j: int|
            0 <= i <= j < w.len() ==> in_order(#[trigger] w[i], #[trigger] w[j]),
    ensures
        describes(walked(w, at, skip), a, false) ==> a < w.last().0,
    decreases w.len(),
{
    let front = w.drop_last();
    let last = w.last();
    let before = reach(front, at);
    let gap = if last.0 > before {
        skipping(before, last.0, false, skip)
    } else {
        Seq::empty()
    };
    lemma_skipping(before, last.0, false, skip, a, false);
    lemma_skipping(last.0, last.1, true, skip, a, false);
    lemma_describes_add(walked(front, at, skip), gap, a, false);
    lemma_describes_add(
        walked(front, at, skip) + gap,
        skipping(last.0, last.1, true, skip),
        a,
        false,
    );
    if front.len() > 0 {
        assert forall|i: int, j: int| 0 <= i <= j < front.len() implies in_order(
            #[trigger] front[i],
            #[trigger] front[j],
        ) by {
            assert(front[i] == w[i] && front[j] == w[j]);
        }
        lemma_offered_before_last(front, at, skip, a);
        assert(in_order(w[w.len() - 2], w[w.len() - 1]));
    }
}

/// Every address of RAM outside the HOB heap is described: as reserved where a
/// reserved window covers it, and as system memory everywhere else. The HOB heap
/// and what is not RAM are not described at all.
pub proof fn law_memory_is_described(
    ram: (u64, u64),
    reserved: Seq<(u64, u64)>,
    hob_heap: (u64, u64),
    a: int,
)
    ensures
        describes(memory_ranges(ram, reserved, hob_heap), a, true) == (covers(ram, a) && !covers(
            hob_heap,
            a,
        ) && covered(reserved, a)),
        describes(memory_ranges(ram, reserved, hob_heap), a, false) == (covers(ram, a) && !covers(
            hob_heap,
            a,
        ) && !covered(reserved, a)),
{
    let clipped = clip_all(reserved, ram);
    let w = sorted(clipped);
    let skip = clip(hob_heap, ram);
    lemma_clip_all(reserved, ram, a);
    lemma_sorted(clipped);
    lemma_sorted_covers(clipped, a);
    assert forall|i: int| 0 <= i < w.len() implies ram.0 <= (#[trigger] w[i]).0 < w[i].1
        <= ram.1 by {
        assert(w.contains(w[i]));
        assert(clipped.contains(w[i]));
    }
    lemma_walked(w, ram.0, skip, a);
    lemma_reach_bound(w, ram.0, ram.1);
    let at = reach(w, ram.0);
    let tail = if at < ram.1 {
        skipping(at, ram.1, false, skip)
    } else {
        Seq::empty()
    };
    lemma_skipping(at, ram.1, false, skip, a, true);
    lemma_skipping(at, ram.1, false, skip, a, false);
    lemma_describes_add(walked(w, ram.0, skip), tail, a, true);
    lemma_describes_add(walked(w, ram.0, skip), tail, a, false);
}

proof fn lemma_reach_bound(w: Seq<(u64, u64)>, at: u64, end: u64)
    requires
        forall|i: int| 0 <= i < w.len() ==> (#[trigger] w[i]).1 <= end,
    ensures
        reach(w, at) <= end || reach(w, at) == at,
    decreases w.len(),
{
    if w.len() > 0 {
        assert forall|i: int| 0 <= i < w.drop_last().len() implies (
        #[trigger] w.drop_last()[i]).1 <= end by {
            assert(w.drop_last()[i] == w[i]);
        }
        lemma_reach_bound(w.drop_last(), at, end);
    }
}

/// Writes structures one after another. Every structure's size is a multiple of
/// eight, so each stays aligned to eight bytes as the specification requires.
struct Builder {
    area: Vec<u8>,
}

impl Builder {
    fn header(&mut self, hob_type: u16, length: u16)
        ensures
            final(self).area@ == old(self).area@ + header(hob_type, length as nat),
    {
        push_le(&mut self.area, hob_type as u64, 2);
        push_le(&mut self.area, length as u64, 2);
        push_le(&mut self.area, 0, 4);
        assert(self.area@ =~= old(self).area@ + header(hob_type, length as nat));
    }

    fn allocation(&mut self, size: u16, name: &[u8], base: u64, length: u64, memory_type: u32)
        ensures
            final(self).area@ == old(self).area@ + allocation(
                size as nat,
                name@,
                base,
                length,
                memory_type,
            ),
    {
        self.header(TYPE_MEMORY_ALLOCATION, size);
        push_slice(&mut self.area, name);
        push_le(&mut self.area, base, 8);
        push_le(&mut self.area, length, 8);
        push_le(&mut self.area, memory_type as u64, 4);
        push_le(&mut self.area, 0, 4);
        assert(self.area@ =~= old(self).area@ + allocation(
            size as nat,
            name@,
            base,
            length,
            memory_type,
        ));
    }

    /// The CPU HOB: the core sizes its address spaces by it.
    fn processor(&mut self, address_bits: u8)
        ensures
            final(self).area@ == old(self).area@ + cpu(address_bits),
    {
        self.header(TYPE_CPU, 16);
        push_le(&mut self.area, address_bits as u64, 1);
        push_le(&mut self.area, 0, 7);
        assert(self.area@ =~= old(self).area@ + cpu(address_bits));
    }

    /// The stack this firmware calls the core on.
    fn stack(&mut self, stack: (u64, u64))
        ensures
            final(self).area@ == old(self).area@ + stack_allocation(stack),
    {
        self.allocation(
            48,
            &MEMORY_ALLOC_STACK_GUID,
            stack.0,
            stack.1,
            MEMORY_BOOT_SERVICES_DATA,
        );
    }

    /// The core's own image, so it can find and map itself.
    fn core_image(&mut self, core: (u64, u64, u64))
        ensures
            final(self).area@ == old(self).area@ + module_allocation(core),
    {
        self.allocation(72, &DXE_CORE_ID, core.0, core.1, MEMORY_BOOT_SERVICES_CODE);
        push_slice(&mut self.area, &DXE_CORE_ID);
        push_le(&mut self.area, core.2, 8);
        assert(self.area@ =~= old(self).area@ + module_allocation(core));
    }

    /// The volume the core came from.
    fn volume(&mut self, volume: (u64, u64))
        ensures
            final(self).area@ == old(self).area@ + firmware_volume(volume),
    {
        self.header(TYPE_FV, 24);
        push_le(&mut self.area, volume.0, 8);
        push_le(&mut self.area, volume.1, 8);
        assert(self.area@ =~= old(self).area@ + firmware_volume(volume));
    }

    /// The hand-off table.
    fn handoff(&mut self, ram: (u64, u64), heap: (u64, u64), end: u64)
        ensures
            final(self).area@ == old(self).area@ + handoff(ram, heap, end as nat),
    {
        self.header(TYPE_HANDOFF, 56);
        push_le(&mut self.area, VERSION as u64, 4);
        push_le(&mut self.area, BOOT_WITH_FULL_CONFIGURATION as u64, 4);
        push_le(&mut self.area, ram.1, 8);
        push_le(&mut self.area, ram.0, 8);
        push_le(&mut self.area, heap.1, 8);
        push_le(&mut self.area, heap.0, 8);
        push_le(&mut self.area, end, 8);
        assert(self.area@ =~= old(self).area@ + handoff(ram, heap, end as nat));
    }

    fn resource(&mut self, resource_type: u32, attribute: u32, start: u64, end: u64, cache: u64)
        requires
            start <= end,
        ensures
            final(self).area@ == old(self).area@ + resource(
                resource_type,
                attribute,
                start,
                end,
                cache,
            ),
    {
        self.header(TYPE_RESOURCE_DESCRIPTOR, 56);
        push_fill(&mut self.area, 16, 0);
        push_le(&mut self.area, resource_type as u64, 4);
        push_le(&mut self.area, attribute as u64, 4);
        push_le(&mut self.area, start, 8);
        push_le(&mut self.area, end - start, 8);
        push_le(&mut self.area, cache, 8);
        assert(self.area@ =~= old(self).area@ + resource(
            resource_type,
            attribute,
            start,
            end,
            cache,
        ));
    }

    /// A device window: memory-mapped I/O, which the core maps and does not hand
    /// out.
    fn describe_device(&mut self, start: u64, end: u64)
        requires
            start <= end,
        ensures
            final(self).area@ == old(self).area@ + device_resource((start, end)),
    {
        self.resource(
            RESOURCE_MEMORY_MAPPED_IO,
            RESOURCE_ATTRIBUTES_DEVICE,
            start,
            end,
            CACHE_UNCACHED,
        );
    }

    fn describe(&mut self, start: u64, end: u64, reserved: bool)
        requires
            start <= end,
        ensures
            final(self).area@ == old(self).area@ + memory_resource(
                (Described { start, end, reserved }),
            ),
    {
        if reserved {
            self.resource(
                RESOURCE_MEMORY_RESERVED,
                RESOURCE_ATTRIBUTES_RESERVED,
                start,
                end,
                CACHE_WRITE_BACK,
            );
        } else {
            self.resource(
                RESOURCE_SYSTEM_MEMORY,
                RESOURCE_ATTRIBUTES,
                start,
                end,
                CACHE_WRITE_BACK,
            );
        }
    }

    /// Describes a range, minus the hand-off window, which the core describes to
    /// itself and refuses to see described twice.
    fn describe_skipping(&mut self, start: u64, end: u64, reserved: bool, skip: (u64, u64))
        requires
            start <= end,
        ensures
            final(self).area@ == old(self).area@ + memory_resources(
                skipping(start, end, reserved, skip),
            ),
    {
        let ghost whole = Described { start, end, reserved };
        let ghost low = Described { start, end: skip.0, reserved };
        let ghost high = Described { start: skip.1, end, reserved };
        proof {
            lemma_one_resource(whole);
            lemma_one_resource(low);
            lemma_one_resource(high);
        }
        if skip.1 <= start || skip.0 >= end {
            self.describe(start, end, reserved);
            return ;
        }
        if skip.0 > start {
            self.describe(start, skip.0, reserved);
        }
        if skip.1 < end {
            self.describe(skip.1, end, reserved);
        }
        proof {
            let s = skipping(start, end, reserved, skip);
            if skip.0 > start && skip.1 < end {
                lemma_memory_resources_add(seq![low], seq![high]);
            } else if skip.0 > start {
                assert(s =~= seq![low]);
            } else if skip.1 < end {
                assert(s =~= seq![high]);
            } else {
                assert(s =~= Seq::<Described>::empty());
            }
            assert(self.area@ =~= old(self).area@ + memory_resources(s));
        }
    }
}

proof fn lemma_one_resource(d: Described)
    ensures
        memory_resources(seq![d]) == memory_resource(d),
{
    assert(seq![d].drop_last() =~= Seq::<Described>::empty());
    assert(memory_resources(seq![d].drop_last()) =~= Seq::<u8>::empty());
    assert(memory_resources(seq![d]) =~= memory_resource(d));
}

proof fn lemma_memory_resources_add(x: Seq<Described>, y: Seq<Described>)
    ensures
        memory_resources(x + y) == memory_resources(x) + memory_resources(y),
    decreases y.len(),
{
    if y.len() == 0 {
        assert(x + y =~= x);
        assert(memory_resources(x) + memory_resources(y) =~= memory_resources(x));
    } else {
        assert((x + y).drop_last() =~= x + y.drop_last());
        lemma_memory_resources_add(x, y.drop_last());
        assert(memory_resources(x + y) =~= memory_resources(x) + memory_resources(y));
    }
}

proof fn lemma_handoff_len(ram: (u64, u64), heap: (u64, u64), end: nat)
    ensures
        handoff(ram, heap, end).len() == 56,
{
    lemma_le_bytes_len(TYPE_HANDOFF as nat, 2);
    lemma_le_bytes_len(56, 2);
    lemma_le_bytes_len(0, 4);
    lemma_le_bytes_len(VERSION as nat, 4);
    lemma_le_bytes_len(BOOT_WITH_FULL_CONFIGURATION as nat, 4);
    lemma_le_bytes_len(ram.0 as nat, 8);
    lemma_le_bytes_len(ram.1 as nat, 8);
    lemma_le_bytes_len(heap.0 as nat, 8);
    lemma_le_bytes_len(heap.1 as nat, 8);
    lemma_le_bytes_len(end, 8);
}

/// The reserved windows clipped to RAM, in order.
fn windows(ram: (u64, u64), reserved: &[(u64, u64)]) -> (windows: Vec<(u64, u64)>)
    ensures
        windows@ == sorted(clip_all(reserved@, ram)),
{
    let mut clipped: Vec<(u64, u64)> = Vec::new();
    let mut next: usize = 0;
    while next < reserved.len()
        invariant
            next <= reserved@.len(),
            clipped@ == clip_all(reserved@.subrange(0, next as int), ram),
        decreases reserved@.len() - next,
    {
        let (from, to) = reserved[next];
        let start: u64 = if from >= ram.0 { from } else { ram.0 };
        let end: u64 = if to <= ram.1 { to } else { ram.1 };
        assert(reserved@.subrange(0, next + 1).drop_last() =~= reserved@.subrange(0, next as int));
        if end > start {
            clipped.push((start, end));
        }
        next = next + 1;
    }
    assert(reserved@.subrange(0, next as int) =~= reserved@);
    sort(&clipped)
}

/// Builds the HOB list that stands at `base`, the address to hand to the DXE
/// core, or `None` when the list outgrows the bytes set aside for it.
///
/// `reserved` are the windows the core must not use, in any order and possibly
/// overlapping; everything in RAM they do not cover is offered as system memory.
/// `devices` are the machine's memory-mapped I/O windows.
pub fn build(
    base: u64,
    machine: &Machine,
    reserved: &[(u64, u64)],
    devices: &[(u64, u64)],
) -> (area: Option<Vec<u8>>)
    requires
        base + AREA_SIZE <= u64::MAX,
        forall|i: int| 0 <= i < devices@.len() ==> (#[trigger] devices@[i]).0 <= devices@[i].1,
    ensures
        match area {
            Some(area) => area@ == list(base, *machine, reserved@, devices@) && area@.len()
                <= AREA_SIZE,
            None => list(base, *machine, reserved@, devices@).len() > AREA_SIZE,
        },
{
    let ram = machine.ram;
    let windows: Vec<(u64, u64)> = windows(ram, reserved);
    let heap = machine.hob_heap;
    let heap_start: u64 = if heap.0 >= ram.0 { heap.0 } else { ram.0 };
    let heap_end: u64 = if heap.1 <= ram.1 { heap.1 } else { ram.1 };
    let skip = (heap_start, heap_end);

    let mut builder = Builder { area: Vec::new() };

    builder.processor(machine.address_bits);
    builder.stack(machine.stack);
    builder.core_image(machine.dxe_core);
    builder.volume(machine.firmware_volume);

    let ghost fixed = cpu(machine.address_bits) + stack_allocation(machine.stack)
        + module_allocation(machine.dxe_core) + firmware_volume(machine.firmware_volume);
    assert(builder.area@ =~= fixed);

    // Then the memory: what the core may use and what it may not.
    let mut at: u64 = ram.0;
    let mut next: usize = 0;
    proof {
        lemma_clip_all(reserved@, ram, 0);
        lemma_sorted(clip_all(reserved@, ram));
        assert forall|i: int| 0 <= i < windows@.len() implies (#[trigger] windows@[i]).0
            < windows@[i].1 by {
            assert(windows@.contains(windows@[i]));
            assert(clip_all(reserved@, ram).contains(windows@[i]));
        }
        assert(fixed + memory_resources(walked(windows@.subrange(0, 0), ram.0, skip)) =~= fixed);
    }
    while next < windows.len()
        invariant
            next <= windows@.len(),
            forall|i: int|
                0 <= i < windows@.len() ==> (#[trigger] windows@[i]).0 < windows@[i].1,
            at == reach(windows@.subrange(0, next as int), ram.0),
            builder.area@ == fixed + memory_resources(
                walked(windows@.subrange(0, next as int), ram.0, skip),
            ),
        decreases windows@.len() - next,
    {
        let (start, end) = windows[next];
        let ghost front = windows@.subrange(0, next as int);
        let ghost gap = if start > at {
            skipping(at, start, false, skip)
        } else {
            Seq::empty()
        };
        if start > at {
            builder.describe_skipping(at, start, false, skip);
        }
        builder.describe_skipping(start, end, true, skip);
        proof {
            assert(windows@.subrange(0, next + 1).drop_last() =~= front);
            lemma_memory_resources_add(walked(front, ram.0, skip), gap);
            lemma_memory_resources_add(
                walked(front, ram.0, skip) + gap,
                skipping(start, end, true, skip),
            );
            assert(builder.area@ =~= fixed + memory_resources(
                walked(windows@.subrange(0, next + 1), ram.0, skip),
            ));
        }
        if end > at {
            at = end;
        }
        next = next + 1;
    }
    assert(windows@.subrange(0, next as int) =~= windows@);
    let ghost ranges = memory_ranges(ram, reserved@, heap);
    let ghost tail = if at < ram.1 {
        skipping(at, ram.1, false, skip)
    } else {
        Seq::empty()
    };
    if at < ram.1 {
        builder.describe_skipping(at, ram.1, false, skip);
    }
    proof {
        lemma_memory_resources_add(walked(windows@, ram.0, skip), tail);
        assert(builder.area@ =~= fixed + memory_resources(ranges));
        assert(fixed + memory_resources(ranges) + device_resources(devices@.subrange(0, 0))
            =~= fixed + memory_resources(ranges));
    }

    // The machine's devices, after the memory.
    let mut device: usize = 0;
    while device < devices.len()
        invariant
            device <= devices@.len(),
            forall|i: int|
                0 <= i < devices@.len() ==> (#[trigger] devices@[i]).0 <= devices@[i].1,
            builder.area@ == fixed + memory_resources(ranges) + device_resources(
                devices@.subrange(0, device as int),
            ),
        decreases devices@.len() - device,
    {
        let (start, end) = devices[device];
        builder.describe_device(start, end);
        proof {
            assert(devices@.subrange(0, device + 1).drop_last() =~= devices@.subrange(
                0,
                device as int,
            ));
            assert(builder.area@ =~= fixed + memory_resources(ranges) + device_resources(
                devices@.subrange(0, device + 1),
            ));
        }
        device = device + 1;
    }
    assert(devices@.subrange(0, device as int) =~= devices@);
    builder.header(TYPE_END_OF_HOB_LIST, 8);

    let rest: Vec<u8> = builder.area;
    assert(rest@ == after_handoff(*machine, reserved@, devices@));
    proof {
        lemma_handoff_len(ram, skip, base as nat + 56 + rest@.len());
    }
    if rest.len() > AREA_SIZE - 56 {
        return None;
    }
    // The hand-off table in front of it all. Its free-memory fields are the HOB
    // heap, which the core allocates from before its own allocator exists.
    let end: u64 = base + 56 + rest.len() as u64;
    let mut whole = Builder { area: Vec::new() };
    whole.handoff(ram, skip, end);
    assert(whole.area@ =~= handoff(ram, skip, end as nat));
    push_slice(&mut whole.area, &rest);
    Some(whole.area)
}

} // verus!
