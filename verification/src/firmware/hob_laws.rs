//! What a reader of the HOB list finds in it.
use crate::bytes::{
    fill, le_at, le_bytes, lemma_le_bytes_len, lemma_le_value_of_bytes, lemma_widths,
};
use crate::firmware::hob::{
    after_handoff, clip, cpu, device_resource, device_resources, firmware_volume, handoff, header,
    list, memory_ranges, memory_resource, memory_resources, module_allocation, resource,
    stack_allocation, Described, Machine, DXE_CORE_ID, MEMORY_ALLOC_STACK_GUID,
    TYPE_END_OF_HOB_LIST,
};
use vstd::prelude::*;

verus! {

/// Whether bytes are a HOB of a type: they start with the type, how many they are, and zeroes.
pub open spec fn is_hob(h: Seq<u8>, hob_type: nat) -> bool {
    &&& h.len() >= 8
    &&& le_at(h, 0, 2) == hob_type
    &&& le_at(h, 2, 2) == h.len()
    &&& h.subrange(4, 8) == fill(4, 0)
}

proof fn lemma_zeroes()
    ensures
        le_bytes(0, 4) == fill(4, 0),
{
    reveal_with_fuel(le_bytes, 5);
    assert(le_bytes(0, 4) =~= fill(4, 0));
}

proof fn lemma_header(hob_type: u16, length: nat, rest: Seq<u8>)
    requires
        length == 8 + rest.len(),
        length < 0x1_0000,
    ensures
        is_hob(header(hob_type, length) + rest, hob_type as nat),
        header(hob_type, length).len() == 8,
{
    let h = header(hob_type, length) + rest;
    lemma_widths();
    lemma_zeroes();
    lemma_le_value_of_bytes(hob_type as nat, 2);
    lemma_le_value_of_bytes(length, 2);
    lemma_le_bytes_len(0, 4);
    assert(h.subrange(0, 2) =~= le_bytes(hob_type as nat, 2));
    assert(h.subrange(2, 4) =~= le_bytes(length, 2));
    assert(h.subrange(4, 8) =~= fill(4, 0));
}

/// The hand-off table: memory, the heap in it and where the list ends, each where it belongs.
pub proof fn law_handoff_is_laid_out(ram: (u64, u64), heap: (u64, u64), end: nat)
    requires
        end <= u64::MAX,
    ensures
        ({
            let h = handoff(ram, heap, end);
            &&& is_hob(h, 1)
            &&& h.len() == 56
            &&& le_at(h, 8, 4) == 9
            &&& le_at(h, 12, 4) == 0
            &&& le_at(h, 16, 8) == ram.1
            &&& le_at(h, 24, 8) == ram.0
            &&& le_at(h, 32, 8) == heap.1
            &&& le_at(h, 40, 8) == heap.0
            &&& le_at(h, 48, 8) == end
        }),
{
    let h = handoff(ram, heap, end);
    lemma_widths();
    lemma_le_value_of_bytes(9, 4);
    lemma_le_value_of_bytes(0, 4);
    lemma_le_value_of_bytes(ram.1 as nat, 8);
    lemma_le_value_of_bytes(ram.0 as nat, 8);
    lemma_le_value_of_bytes(heap.1 as nat, 8);
    lemma_le_value_of_bytes(heap.0 as nat, 8);
    lemma_le_value_of_bytes(end, 8);
    lemma_le_bytes_len(1, 2);
    lemma_le_bytes_len(56, 2);
    let rest = h.subrange(8, 56);
    assert(h =~= header(1, 56) + rest);
    lemma_header(1, 56, rest);
    assert(h.subrange(8, 12) =~= le_bytes(9, 4));
    assert(h.subrange(12, 16) =~= le_bytes(0, 4));
    assert(h.subrange(16, 24) =~= le_bytes(ram.1 as nat, 8));
    assert(h.subrange(24, 32) =~= le_bytes(ram.0 as nat, 8));
    assert(h.subrange(32, 40) =~= le_bytes(heap.1 as nat, 8));
    assert(h.subrange(40, 48) =~= le_bytes(heap.0 as nat, 8));
    assert(h.subrange(48, 56) =~= le_bytes(end, 8));
}

/// A resource descriptor: what kind of resource, its attributes, where it starts, how long it
/// is, and how it is cached.
pub proof fn law_resource_is_laid_out(
    resource_type: u32,
    attribute: u32,
    start: u64,
    end: u64,
    cache: u64,
)
    requires
        start <= end,
    ensures
        ({
            let h = resource(resource_type, attribute, start, end, cache);
            &&& is_hob(h, 0x0d)
            &&& h.len() == 56
            &&& h.subrange(8, 24) == fill(16, 0)
            &&& le_at(h, 24, 4) == resource_type
            &&& le_at(h, 28, 4) == attribute
            &&& le_at(h, 32, 8) == start
            &&& le_at(h, 32, 8) + le_at(h, 40, 8) == end
            &&& le_at(h, 48, 8) == cache
        }),
{
    let h = resource(resource_type, attribute, start, end, cache);
    lemma_widths();
    lemma_le_value_of_bytes(resource_type as nat, 4);
    lemma_le_value_of_bytes(attribute as nat, 4);
    lemma_le_value_of_bytes(start as nat, 8);
    lemma_le_value_of_bytes((end - start) as nat, 8);
    lemma_le_value_of_bytes(cache as nat, 8);
    lemma_le_bytes_len(0x0d, 2);
    lemma_le_bytes_len(56, 2);
    lemma_le_bytes_len(0, 4);
    let rest = h.subrange(8, 56);
    assert(h =~= header(0x0d, 56) + rest);
    lemma_header(0x0d, 56, rest);
    assert(h.subrange(8, 24) =~= fill(16, 0));
    assert(h.subrange(24, 28) =~= le_bytes(resource_type as nat, 4));
    assert(h.subrange(28, 32) =~= le_bytes(attribute as nat, 4));
    assert(h.subrange(32, 40) =~= le_bytes(start as nat, 8));
    assert(h.subrange(40, 48) =~= le_bytes((end - start) as nat, 8));
    assert(h.subrange(48, 56) =~= le_bytes(cache as nat, 8));
}

/// The fields of the allocations: whose memory it is, where it is, how long it is, and of what
/// type. That of the core adds its name once more and its entry point.
pub proof fn law_allocations_are_laid_out(stack: (u64, u64), core: (u64, u64, u64))
    ensures
        ({
            let s = stack_allocation(stack);
            &&& is_hob(s, 2)
            &&& s.len() == 48
            &&& s.subrange(8, 24) == MEMORY_ALLOC_STACK_GUID@
            &&& le_at(s, 24, 8) == stack.0
            &&& le_at(s, 32, 8) == stack.1
            &&& le_at(s, 40, 4) == 4
        }),
        ({
            let m = module_allocation(core);
            &&& is_hob(m, 2)
            &&& m.len() == 72
            &&& m.subrange(8, 24) == DXE_CORE_ID@
            &&& le_at(m, 24, 8) == core.0
            &&& le_at(m, 32, 8) == core.1
            &&& le_at(m, 40, 4) == 3
            &&& m.subrange(48, 64) == DXE_CORE_ID@
            &&& le_at(m, 64, 8) == core.2
        }),
{
    lemma_widths();
    lemma_le_bytes_len(2, 2);
    lemma_le_bytes_len(48, 2);
    lemma_le_bytes_len(72, 2);
    lemma_le_bytes_len(0, 4);
    lemma_le_value_of_bytes(stack.0 as nat, 8);
    lemma_le_value_of_bytes(stack.1 as nat, 8);
    lemma_le_value_of_bytes(core.0 as nat, 8);
    lemma_le_value_of_bytes(core.1 as nat, 8);
    lemma_le_value_of_bytes(core.2 as nat, 8);
    lemma_le_value_of_bytes(3, 4);
    lemma_le_value_of_bytes(4, 4);
    let s = stack_allocation(stack);
    assert(s =~= header(2, 48) + s.subrange(8, 48));
    lemma_header(2, 48, s.subrange(8, 48));
    assert(s.subrange(8, 24) =~= MEMORY_ALLOC_STACK_GUID@);
    assert(s.subrange(24, 32) =~= le_bytes(stack.0 as nat, 8));
    assert(s.subrange(32, 40) =~= le_bytes(stack.1 as nat, 8));
    assert(s.subrange(40, 44) =~= le_bytes(4, 4));
    let m = module_allocation(core);
    assert(m =~= header(2, 72) + m.subrange(8, 72));
    lemma_header(2, 72, m.subrange(8, 72));
    assert(m.subrange(8, 24) =~= DXE_CORE_ID@);
    assert(m.subrange(24, 32) =~= le_bytes(core.0 as nat, 8));
    assert(m.subrange(32, 40) =~= le_bytes(core.1 as nat, 8));
    assert(m.subrange(40, 44) =~= le_bytes(3, 4));
    assert(m.subrange(48, 64) =~= DXE_CORE_ID@);
    assert(m.subrange(64, 72) =~= le_bytes(core.2 as nat, 8));
}

/// The processor's HOB says how wide its addresses are, and the volume's where the volume is
/// and how long it is.
pub proof fn law_cpu_and_volume_are_laid_out(address_bits: u8, volume: (u64, u64))
    ensures
        is_hob(cpu(address_bits), 6),
        cpu(address_bits).len() == 16,
        cpu(address_bits)[8] == address_bits,
        cpu(address_bits)[9] == 0,
        is_hob(firmware_volume(volume), 5),
        firmware_volume(volume).len() == 24,
        le_at(firmware_volume(volume), 8, 8) == volume.0,
        le_at(firmware_volume(volume), 16, 8) == volume.1,
{
    lemma_widths();
    lemma_le_bytes_len(5, 2);
    lemma_le_bytes_len(6, 2);
    lemma_le_bytes_len(16, 2);
    lemma_le_bytes_len(24, 2);
    lemma_le_bytes_len(0, 4);
    lemma_le_bytes_len(0, 7);
    lemma_le_bytes_len(address_bits as nat, 1);
    lemma_le_value_of_bytes(volume.0 as nat, 8);
    lemma_le_value_of_bytes(volume.1 as nat, 8);
    let c = cpu(address_bits);
    assert(c =~= header(6, 16) + c.subrange(8, 16));
    lemma_header(6, 16, c.subrange(8, 16));
    reveal_with_fuel(le_bytes, 2);
    assert(c[8] == le_bytes(address_bits as nat, 1)[0]);
    assert(c[9] == le_bytes(0, 7)[0]);
    let v = firmware_volume(volume);
    assert(v =~= header(5, 24) + v.subrange(8, 24));
    lemma_header(5, 24, v.subrange(8, 24));
    assert(v.subrange(8, 16) =~= le_bytes(volume.0 as nat, 8));
    assert(v.subrange(16, 24) =~= le_bytes(volume.1 as nat, 8));
}

proof fn lemma_resource_len(d: Described)
    ensures
        memory_resource(d).len() == 56,
        device_resource((d.start, d.end)).len() == 56,
{
    lemma_le_bytes_len(0x0d, 2);
    lemma_le_bytes_len(56, 2);
    lemma_le_bytes_len(0, 4);
    lemma_le_bytes_len(1, 4);
    lemma_le_bytes_len(5, 4);
    lemma_le_bytes_len(0x0040_0007, 4);
    lemma_le_bytes_len(0x0040_2001, 4);
    lemma_le_bytes_len(0x0040_0407, 4);
    lemma_le_bytes_len(d.start as nat, 8);
    lemma_le_bytes_len((d.end - d.start) as nat, 8);
    lemma_le_bytes_len(8, 8);
    lemma_le_bytes_len(1, 8);
}

proof fn lemma_memory_resources(s: Seq<Described>)
    ensures
        memory_resources(s).len() == 56 * s.len(),
        forall|i: int|
            0 <= i < s.len() ==> memory_resources(s).subrange(56 * i, 56 * i + 56)
                == memory_resource(#[trigger] s[i]),
    decreases s.len(),
{
    if s.len() > 0 {
        let front = s.drop_last();
        lemma_memory_resources(front);
        lemma_resource_len(s.last());
        assert forall|i: int| 0 <= i < s.len() implies memory_resources(s).subrange(
            56 * i,
            56 * i + 56,
        ) == memory_resource(#[trigger] s[i]) by {
            if i < front.len() {
                assert(front[i] == s[i]);
                assert(memory_resources(s).subrange(56 * i, 56 * i + 56) =~= memory_resources(
                    front,
                ).subrange(56 * i, 56 * i + 56));
            } else {
                assert(memory_resources(s).subrange(56 * i, 56 * i + 56) =~= memory_resource(s[i]));
            }
        }
    }
}

proof fn lemma_device_resources(s: Seq<(u64, u64)>)
    ensures
        device_resources(s).len() == 56 * s.len(),
        forall|i: int|
            0 <= i < s.len() ==> device_resources(s).subrange(56 * i, 56 * i + 56)
                == device_resource(#[trigger] s[i]),
    decreases s.len(),
{
    if s.len() > 0 {
        let front = s.drop_last();
        lemma_device_resources(front);
        lemma_resource_len(Described { start: s.last().0, end: s.last().1, reserved: false });
        assert forall|i: int| 0 <= i < s.len() implies device_resources(s).subrange(
            56 * i,
            56 * i + 56,
        ) == device_resource(#[trigger] s[i]) by {
            if i < front.len() {
                assert(front[i] == s[i]);
                assert(device_resources(s).subrange(56 * i, 56 * i + 56) =~= device_resources(
                    front,
                ).subrange(56 * i, 56 * i + 56));
            } else {
                assert(device_resources(s).subrange(56 * i, 56 * i + 56) =~= device_resource(s[i]));
            }
        }
    }
}

/// Where the pieces of a sequence of seven are.
proof fn lemma_seven(
    a: Seq<u8>,
    b: Seq<u8>,
    c: Seq<u8>,
    d: Seq<u8>,
    e: Seq<u8>,
    f: Seq<u8>,
    g: Seq<u8>,
)
    requires
        a.len() == 16,
        b.len() == 48,
        c.len() == 72,
        d.len() == 24,
    ensures
        ({
            let l = a + b + c + d + e + f + g;
            let first_end = 160 + e.len();
            let second_end = first_end + f.len();
            &&& l.len() == second_end + g.len()
            &&& l.subrange(0, 16) == a
            &&& l.subrange(16, 64) == b
            &&& l.subrange(64, 136) == c
            &&& l.subrange(136, 160) == d
            &&& l.subrange(160, first_end as int) == e
            &&& l.subrange(first_end as int, second_end as int) == f
            &&& l.subrange(second_end as int, l.len() as int) == g
        }),
{
    let l = a + b + c + d + e + f + g;
    let first_end = 160 + e.len();
    let second_end = first_end + f.len();
    assert(l.subrange(0, 16) =~= a);
    assert(l.subrange(16, 64) =~= b);
    assert(l.subrange(64, 136) =~= c);
    assert(l.subrange(136, 160) =~= d);
    assert(l.subrange(160, first_end as int) =~= e);
    assert(l.subrange(first_end as int, second_end as int) =~= f);
    assert(l.subrange(second_end as int, l.len() as int) =~= g);
}

proof fn lemma_after_handoff(machine: Machine, reserved: Seq<(u64, u64)>, devices: Seq<(u64, u64)>)
    ensures
        ({
            let l = after_handoff(machine, reserved, devices);
            let ranges = memory_ranges(machine.ram, reserved, machine.hob_heap);
            let memory_end = 160 + 56 * ranges.len();
            let device_end = memory_end + 56 * devices.len();
            &&& l.len() == device_end + 8
            &&& l.subrange(0, 16) == cpu(machine.address_bits)
            &&& l.subrange(16, 64) == stack_allocation(machine.stack)
            &&& l.subrange(64, 136) == module_allocation(machine.dxe_core)
            &&& l.subrange(136, 160) == firmware_volume(machine.firmware_volume)
            &&& l.subrange(160, memory_end as int) == memory_resources(ranges)
            &&& l.subrange(memory_end as int, device_end as int) == device_resources(devices)
            &&& l.subrange(device_end as int, l.len() as int) == header(TYPE_END_OF_HOB_LIST, 8)
        }),
{
    let ranges = memory_ranges(machine.ram, reserved, machine.hob_heap);
    law_cpu_and_volume_are_laid_out(machine.address_bits, machine.firmware_volume);
    law_allocations_are_laid_out(machine.stack, machine.dxe_core);
    lemma_memory_resources(ranges);
    lemma_device_resources(devices);
    lemma_header(TYPE_END_OF_HOB_LIST, 8, Seq::empty());
    lemma_seven(
        cpu(machine.address_bits),
        stack_allocation(machine.stack),
        module_allocation(machine.dxe_core),
        firmware_volume(machine.firmware_volume),
        memory_resources(ranges),
        device_resources(devices),
        header(TYPE_END_OF_HOB_LIST, 8),
    );
}

/// The resources of the list: every memory range has its descriptor, as reserved or as system
/// memory, and behind those every device window has one.
pub proof fn law_every_resource_is_in_the_list(
    base: u64,
    machine: Machine,
    reserved: Seq<(u64, u64)>,
    devices: Seq<(u64, u64)>,
    i: int,
)
    ensures
        ({
            let l = list(base, machine, reserved, devices);
            let ranges = memory_ranges(machine.ram, reserved, machine.hob_heap);
            let at = 216 + 56 * i;
            let behind = 216 + 56 * ranges.len() + 56 * i;
            &&& l.len() == 224 + 56 * (ranges.len() + devices.len())
            &&& 0 <= i < ranges.len() && ranges[i].start <= ranges[i].end ==> {
                let h = l.subrange(at, at + 56);
                &&& is_hob(h, 0x0d)
                &&& le_at(h, 24, 4) == (if ranges[i].reserved {
                    5nat
                } else {
                    0nat
                })
                &&& le_at(h, 32, 8) == ranges[i].start
                &&& le_at(h, 32, 8) + le_at(h, 40, 8) == ranges[i].end
                &&& le_at(h, 48, 8) == 8
            }
            &&& 0 <= i < devices.len() && devices[i].0 <= devices[i].1 ==> {
                let h = l.subrange(behind, behind + 56);
                &&& is_hob(h, 0x0d)
                &&& le_at(h, 24, 4) == 1
                &&& le_at(h, 32, 8) == devices[i].0
                &&& le_at(h, 32, 8) + le_at(h, 40, 8) == devices[i].1
                &&& le_at(h, 48, 8) == 1
            }
        }),
{
    let l = list(base, machine, reserved, devices);
    let rest = after_handoff(machine, reserved, devices);
    let ranges = memory_ranges(machine.ram, reserved, machine.hob_heap);
    let memory_end = 160 + 56 * ranges.len();
    let device_end = memory_end + 56 * devices.len();
    lemma_after_handoff(machine, reserved, devices);
    lemma_memory_resources(ranges);
    lemma_device_resources(devices);
    lemma_handoff_len(machine, base as nat + 56 + rest.len());
    if 0 <= i < ranges.len() && ranges[i].start <= ranges[i].end {
        let at = 216 + 56 * i;
        let d = ranges[i];
        assert(l.subrange(at, at + 56) =~= rest.subrange(160, memory_end as int).subrange(
            56 * i,
            56 * i + 56,
        ));
        law_resource_is_laid_out(5, 0x0040_2001, d.start, d.end, 8);
        law_resource_is_laid_out(0, 0x0040_0007, d.start, d.end, 8);
    }
    if 0 <= i < devices.len() && devices[i].0 <= devices[i].1 {
        let at = 216 + 56 * ranges.len() + 56 * i;
        assert(l.subrange(at, at + 56) =~= rest.subrange(
            memory_end as int,
            device_end as int,
        ).subrange(56 * i, 56 * i + 56));
        law_resource_is_laid_out(1, 0x0040_0407, devices[i].0, devices[i].1, 1);
    }
}

proof fn lemma_handoff_len(machine: Machine, end: nat)
    ensures
        handoff(machine.ram, clip(machine.hob_heap, machine.ram), end).len() == 56,
{
    let heap = clip(machine.hob_heap, machine.ram);
    lemma_le_bytes_len(1, 2);
    lemma_le_bytes_len(56, 2);
    lemma_le_bytes_len(0, 4);
    lemma_le_bytes_len(9, 4);
    lemma_le_bytes_len(machine.ram.1 as nat, 8);
    lemma_le_bytes_len(machine.ram.0 as nat, 8);
    lemma_le_bytes_len(heap.1 as nat, 8);
    lemma_le_bytes_len(heap.0 as nat, 8);
    lemma_le_bytes_len(end, 8);
}

/// Where the parts of what follows the hand-off table are in the whole.
proof fn lemma_behind(table: Seq<u8>, rest: Seq<u8>)
    requires
        table.len() == 56,
        rest.len() >= 168,
    ensures
        ({
            let l = table + rest;
            let n = l.len() as int;
            &&& l.subrange(0, 56) == table
            &&& l.subrange(48, 56) == table.subrange(48, 56)
            &&& l.subrange(56, 72) == rest.subrange(0, 16)
            &&& l[64] == rest.subrange(0, 16)[8]
            &&& l.subrange(72, 120) == rest.subrange(16, 64)
            &&& l.subrange(80, 96) == rest.subrange(16, 64).subrange(8, 24)
            &&& l.subrange(120, 192) == rest.subrange(64, 136)
            &&& l.subrange(128, 144) == rest.subrange(64, 136).subrange(8, 24)
            &&& l.subrange(192, 216) == rest.subrange(136, 160)
            &&& l.subrange(n - 8, n) == rest.subrange(rest.len() - 8, rest.len() as int)
        }),
{
    let l = table + rest;
    let n = l.len() as int;
    assert(l.subrange(0, 56) =~= table);
    assert(l.subrange(48, 56) =~= table.subrange(48, 56));
    assert(l.subrange(56, 72) =~= rest.subrange(0, 16));
    assert(l.subrange(72, 120) =~= rest.subrange(16, 64));
    assert(l.subrange(80, 96) =~= rest.subrange(16, 64).subrange(8, 24));
    assert(l.subrange(120, 192) =~= rest.subrange(64, 136));
    assert(l.subrange(128, 144) =~= rest.subrange(64, 136).subrange(8, 24));
    assert(l.subrange(192, 216) =~= rest.subrange(136, 160));
    assert(l.subrange(n - 8, n) =~= rest.subrange(rest.len() - 8, rest.len() as int));
}

proof fn lemma_list_parts(
    base: u64,
    machine: Machine,
    reserved: Seq<(u64, u64)>,
    devices: Seq<(u64, u64)>,
)
    ensures
        ({
            let l = list(base, machine, reserved, devices);
            let n = l.len() as int;
            let table = handoff(
                machine.ram,
                clip(machine.hob_heap, machine.ram),
                base as nat + l.len(),
            );
            &&& n >= 224
            &&& l.subrange(0, 56) == table
            &&& l.subrange(48, 56) == table.subrange(48, 56)
            &&& l.subrange(56, 72) == cpu(machine.address_bits)
            &&& l[64] == cpu(machine.address_bits)[8]
            &&& l.subrange(72, 120) == stack_allocation(machine.stack)
            &&& l.subrange(80, 96) == stack_allocation(machine.stack).subrange(8, 24)
            &&& l.subrange(120, 192) == module_allocation(machine.dxe_core)
            &&& l.subrange(128, 144) == module_allocation(machine.dxe_core).subrange(8, 24)
            &&& l.subrange(192, 216) == firmware_volume(machine.firmware_volume)
            &&& l.subrange(n - 8, n) == header(TYPE_END_OF_HOB_LIST, 8)
        }),
{
    let rest = after_handoff(machine, reserved, devices);
    let end = base as nat + 56 + rest.len();
    let table = handoff(machine.ram, clip(machine.hob_heap, machine.ram), end);
    lemma_after_handoff(machine, reserved, devices);
    lemma_handoff_len(machine, end);
    lemma_behind(table, rest);
}

/// The rest of the list: the hand-off table first, which says where the list ends, then the
/// processor, the stack, the core and its volume, and at the very end the HOB that ends it.
#[verifier::spinoff_prover]
pub proof fn law_list_is_laid_out(
    base: u64,
    machine: Machine,
    reserved: Seq<(u64, u64)>,
    devices: Seq<(u64, u64)>,
)
    requires
        base + list(base, machine, reserved, devices).len() <= u64::MAX,
    ensures
        ({
            let l = list(base, machine, reserved, devices);
            let n = l.len() as int;
            &&& is_hob(l.subrange(0, 56), 1)
            &&& le_at(l, 48, 8) == base + n
            &&& is_hob(l.subrange(56, 72), 6)
            &&& l[64] == machine.address_bits
            &&& is_hob(l.subrange(72, 120), 2)
            &&& l.subrange(80, 96) == MEMORY_ALLOC_STACK_GUID@
            &&& is_hob(l.subrange(120, 192), 2)
            &&& l.subrange(128, 144) == DXE_CORE_ID@
            &&& is_hob(l.subrange(192, 216), 5)
            &&& is_hob(l.subrange(n - 8, n), 0xffff)
        }),
{
    let l = list(base, machine, reserved, devices);
    let end = base as nat + l.len();
    let table = handoff(machine.ram, clip(machine.hob_heap, machine.ram), end);
    lemma_list_parts(base, machine, reserved, devices);
    law_handoff_is_laid_out(machine.ram, clip(machine.hob_heap, machine.ram), end);
    law_cpu_and_volume_are_laid_out(machine.address_bits, machine.firmware_volume);
    law_allocations_are_laid_out(machine.stack, machine.dxe_core);
    lemma_header(TYPE_END_OF_HOB_LIST, 8, Seq::empty());
    assert(header(TYPE_END_OF_HOB_LIST, 8) + Seq::<u8>::empty() =~= header(
        TYPE_END_OF_HOB_LIST,
        8,
    ));
}

} // verus!
