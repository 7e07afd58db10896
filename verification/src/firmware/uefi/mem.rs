//! The memory services: the page pool, the pool allocator, `GetMemoryMap`, and
//! `ExitBootServices`.
//!
//! The memory map is generated rather than stored: RAM is one span, the firmware
//! keeps two windows of it for itself, and every live allocation is a run with a
//! type. Building the map means walking those in address order and emitting the
//! complement as conventional memory.
use crate::ranges::{in_order, lemma_sorted, sort, sorted};
use crate::seqs::{first, lemma_first, lemma_first_is};
use crate::status::Status;
use vstd::prelude::*;

verus! {

/// `EFI_MEMORY_DESCRIPTOR` size, with the specification's padding.
pub const DESCRIPTOR_SIZE: usize = 40;

/// `EFI_MEMORY_DESCRIPTOR_VERSION`.
pub const DESCRIPTOR_VERSION: u32 = 1;

/// `EFI_MEMORY_WB`: the attribute every RAM range carries.
pub const WB: u64 = 0x8;

/// `EFI_MEMORY_WB` and `EFI_MEMORY_RUNTIME`: what the firmware's own windows
/// carry.
pub const WB_RUNTIME: u64 = 0x8000_0000_0000_0008;

/// `EfiBootServicesData`.
pub const BOOT_SERVICES_DATA: u32 = 4;

/// `EfiRuntimeServicesCode`.
pub const RUNTIME_SERVICES_CODE: u32 = 5;

/// `EfiConventionalMemory`.
pub const CONVENTIONAL_MEMORY: u32 = 7;

/// `AllocateAnyPages`.
pub const ALLOCATE_ANY_PAGES: u32 = 0;

/// `AllocateMaxAddress`.
pub const ALLOCATE_MAX_ADDRESS: u32 = 1;

/// `AllocateAddress`.
pub const ALLOCATE_ADDRESS: u32 = 2;

/// How many allocations the map may describe.
pub const MAX_ALLOCATIONS: usize = 64;

/// How many descriptors `GetMemoryMap` can produce.
pub const MAX_DESCRIPTORS: usize = 96;

/// Where the firmware's own windows lie.
#[derive(Clone, Copy)]
pub struct Layout {
    pub ram_base: u64,
    /// The end of the image and its stack, which start at `ram_base`.
    pub stack_top: u64,
    pub heap_base: u64,
    pub heap_size: u64,
}

impl Layout {
    /// The image and its stack below the heap, each of whole pages.
    pub open spec fn wf(self) -> bool {
        &&& self.ram_base < self.stack_top <= self.heap_base
        &&& self.heap_size > 0
        &&& self.heap_base + self.heap_size <= u64::MAX
        &&& self.ram_base % 4096 == 0
        &&& self.stack_top % 4096 == 0
        &&& self.heap_base % 4096 == 0
        &&& self.heap_size % 4096 == 0
    }

    /// Whether the windows lie as they have to.
    pub fn is_sound(&self) -> (sound: bool)
        ensures
            sound == self.wf(),
    {
        self.ram_base < self.stack_top && self.stack_top <= self.heap_base && self.heap_size > 0
            && self.heap_base <= u64::MAX - self.heap_size && self.ram_base % 4096 == 0
            && self.stack_top % 4096 == 0 && self.heap_base % 4096 == 0 && self.heap_size % 4096
            == 0
    }

    pub open spec fn heap_end(self) -> int {
        self.heap_base + self.heap_size
    }
}

/// A run of pages handed out by `AllocatePages`.
#[derive(Clone, Copy)]
pub struct Allocation {
    pub start: u64,
    pub pages: u64,
    pub memory_type: u32,
}

impl Allocation {
    pub open spec fn end(self) -> int {
        self.start + self.pages * 4096
    }

    /// Whether the run and `start..end` have an address in common.
    pub open spec fn overlaps(self, start: int, end: int) -> bool {
        start < self.end() && end > self.start
    }
}

/// An `EFI_MEMORY_DESCRIPTOR`.
#[derive(Clone, Copy, PartialEq, Eq, Structural, Debug)]
pub struct Descriptor {
    pub memory_type: u32,
    pub physical_start: u64,
    pub virtual_start: u64,
    pub number_of_pages: u64,
    pub attribute: u64,
}

/// What `GetMemoryMap` answers.
pub struct MapAnswer {
    pub status: Status,
    /// The bytes the whole map takes.
    pub map_size: usize,
    pub map_key: u64,
    pub descriptor_size: usize,
    pub descriptor_version: u32,
    /// The descriptors to write; none when they do not fit.
    pub descriptors: Vec<Descriptor>,
}

/// The memory services' state.
pub struct Memory {
    pub layout: Layout,
    /// Where RAM ends.
    pub ram_end: u64,
    pub allocations: Vec<Allocation>,
    /// Bumped whenever the map changes, so `ExitBootServices` can tell an
    /// application that has a stale copy to ask again.
    pub map_key: u64,
    /// Set once `ExitBootServices` succeeds.
    pub ended: bool,
}

/// The parts of the runs `s` inside `from..to`.
pub open spec fn touching(s: Seq<Allocation>, from: u64, to: u64) -> Seq<(u64, u64)>
    decreases s.len(),
{
    if s.len() == 0 {
        Seq::empty()
    } else {
        let rest = touching(s.drop_last(), from, to);
        let a = s.last();
        if a.end() > from && a.start < to {
            rest.push(
                (
                    if a.start >= from {
                        a.start
                    } else {
                        from
                    },
                    if a.end() <= to {
                        a.end() as u64
                    } else {
                        to
                    },
                ),
            )
        } else {
            rest
        }
    }
}

/// Whether one of the runs ends at `e`.
spec fn ends_at(s: Seq<Allocation>, e: int) -> bool {
    exists|j: int| 0 <= j < s.len() && (#[trigger] s[j]).end() == e
}

/// Whether one of the ranges and `b..b + n` have an address in common.
spec fn hit(r: Seq<(u64, u64)>, b: int, n: int) -> bool {
    exists|i: int| 0 <= i < r.len() && b < (#[trigger] r[i]).1 && b + n > r[i].0
}

/// Whether one of the runs and `b..b + n` have an address in common.
spec fn taken(s: Seq<Allocation>, b: int, n: int) -> bool {
    exists|i: int| 0 <= i < s.len() && (#[trigger] s[i]).overlaps(b, b + n)
}

/// Whether a run of `n` bytes at `b` lies in `from..to`, clear of the runs `s`
/// and below the ceiling.
spec fn good(
    s: Seq<Allocation>,
    from: u64,
    to: u64,
    n: u64,
    ceiling: Option<u64>,
    b: int,
) -> bool {
    &&& from <= b
    &&& b + n <= to
    &&& !taken(s, b, n as int)
    &&& ceiling matches Some(c) ==> b + n <= c
}

proof fn lemma_touching(s: Seq<Allocation>, from: u64, to: u64, b: int, n: int)
    requires
        forall|i: int| 0 <= i < s.len() ==> (#[trigger] s[i]).pages > 0 && s[i].end() <= u64::MAX,
        from <= b,
        0 < n,
        b + n <= to,
    ensures
        hit(touching(s, from, to), b, n) == taken(s, b, n),
    decreases s.len(),
{
    if s.len() > 0 {
        let front = s.drop_last();
        assert forall|i: int| 0 <= i < front.len() implies (#[trigger] front[i]).pages > 0
            && front[i].end() <= u64::MAX by {
            assert(front[i] == s[i]);
        }
        lemma_touching(front, from, to, b, n);
        let rest = touching(front, from, to);
        let all = touching(s, from, to);
        if taken(s, b, n) {
            let i = choose|i: int| 0 <= i < s.len() && (#[trigger] s[i]).overlaps(b, b + n);
            if i == s.len() - 1 {
                assert(all[all.len() - 1] == all.last());
            } else {
                assert(front[i] == s[i]);
                let j = choose|j: int|
                    0 <= j < rest.len() && b < (#[trigger] rest[j]).1 && b + n > rest[j].0;
                assert(all[j] == rest[j]);
            }
        }
        if hit(all, b, n) {
            let j = choose|j: int|
                0 <= j < all.len() && b < (#[trigger] all[j]).1 && b + n > all[j].0;
            if j < rest.len() {
                assert(rest[j] == all[j]);
                let i = choose|i: int|
                    0 <= i < front.len() && (#[trigger] front[i]).overlaps(b, b + n);
                assert(s[i] == front[i]);
            } else {
                assert(s[s.len() - 1].overlaps(b, b + n));
            }
        }
    }
}

proof fn lemma_touching_bounds(s: Seq<Allocation>, from: u64, to: u64)
    requires
        from < to,
        forall|i: int| 0 <= i < s.len() ==> (#[trigger] s[i]).pages > 0 && s[i].end() <= u64::MAX,
    ensures
        forall|i: int|
            0 <= i < touching(s, from, to).len() ==> from <= (#[trigger] touching(s, from, to)[i]).0
                <= touching(s, from, to)[i].1 <= to,
        forall|i: int|
            0 <= i < touching(s, from, to).len() ==> ends_at(
                s,
                (#[trigger] touching(s, from, to)[i]).1 as int,
            ) || touching(s, from, to)[i].1 == to,
    decreases s.len(),
{
    if s.len() > 0 {
        let front = s.drop_last();
        assert forall|i: int| 0 <= i < front.len() implies (#[trigger] front[i]).pages > 0
            && front[i].end() <= u64::MAX by {
            assert(front[i] == s[i]);
        }
        lemma_touching_bounds(front, from, to);
        let rest = touching(front, from, to);
        let all = touching(s, from, to);
        assert forall|i: int| 0 <= i < all.len() implies ends_at(s, (#[trigger] all[i]).1 as int)
            || all[i].1 == to by {
            if i < rest.len() {
                assert(rest[i] == all[i]);
                if ends_at(front, rest[i].1 as int) {
                    let j = choose|j: int|
                        0 <= j < front.len() && (#[trigger] front[j]).end() == rest[i].1;
                    assert(s[j] == front[j]);
                }
            } else {
                assert(s[s.len() - 1] == s.last());
            }
        }
    }
}

impl Memory {
    /// Whether `start..end` lies in one of the windows pages are handed out from:
    /// RAM between the image with its stack and the heap, and RAM above the heap.
    pub open spec fn in_page_window(&self, start: int, end: int) -> bool {
        ||| self.layout.stack_top <= start && end <= self.layout.heap_base
        ||| (self.layout.heap_end() <= start || self.ram_end <= start) && end <= self.ram_end
    }

    /// Whether `n` bytes from `start` are inside a page window and clear of every
    /// allocation.
    pub open spec fn free_run(&self, start: int, n: int) -> bool {
        &&& self.in_page_window(start, start + n)
        &&& forall|i: int|
            0 <= i < self.allocations@.len() ==> !(#[trigger] self.allocations@[i]).overlaps(
                start,
                start + n,
            )
    }

    /// Whether a run of `n` bytes at `start` is free and ends below the ceiling.
    pub open spec fn usable(&self, start: int, n: int, ceiling: Option<u64>) -> bool {
        self.free_run(start, n) && (ceiling matches Some(c) ==> start + n <= c)
    }

    /// What every operation keeps: no more allocations than the map may describe,
    /// each of whole pages inside a page window, no two with an address in common.
    pub open spec fn wf(&self) -> bool {
        &&& self.layout.wf()
        &&& self.allocations@.len() <= MAX_ALLOCATIONS
        &&& forall|i: int|
            0 <= i < self.allocations@.len() ==> {
                let a = #[trigger] self.allocations@[i];
                &&& a.pages > 0
                &&& a.start % 4096 == 0
                &&& a.end() <= u64::MAX
                &&& self.in_page_window(a.start as int, a.end())
            }
        &&& forall|i: int, j: int|
            0 <= i < j < self.allocations@.len() ==> !(#[trigger] self.allocations@[i]).overlaps(
                (#[trigger] self.allocations@[j]).start as int,
                self.allocations@[j].end(),
            )
    }

    /// The services with nothing allocated.
    pub fn new(layout: Layout, ram_end: u64) -> (memory: Memory)
        requires
            layout.wf(),
        ensures
            memory.wf(),
            memory.layout == layout,
            memory.ram_end == ram_end,
            memory.allocations@ == Seq::<Allocation>::empty(),
            memory.map_key == 1,
            !memory.ended,
    {
        Memory { layout, ram_end, allocations: Vec::new(), map_key: 1, ended: false }
    }

    /// Whether boot services have ended.
    pub fn boot_services_ended(&self) -> (ended: bool)
        ensures
            ended == self.ended,
    {
        self.ended
    }

    /// Marks boot services over. Called by `ExitBootServices`.
    pub fn set_boot_services_ended(&mut self)
        ensures
            *final(self) == (Memory { ended: true, ..*old(self) }),
    {
        self.ended = true;
    }

    /// Validates the key an application presents to `ExitBootServices`.
    pub fn check_map_key(&self, key: u64) -> (fresh: bool)
        ensures
            fresh == (key == self.map_key),
    {
        key == self.map_key
    }

    /// Where RAM ends.
    pub fn ram_end(&self) -> (end: u64)
        ensures
            end == self.ram_end,
    {
        self.ram_end
    }

    /// Whether an address range is in RAM.
    pub fn is_ram(&self, start: u64, size: u64) -> (ram: bool)
        requires
            start + size <= u64::MAX,
        ensures
            ram == (self.layout.ram_base <= start && start + size <= self.ram_end),
    {
        start >= self.layout.ram_base && start + size <= self.ram_end
    }

    /// Sets a fresh map key. Called whenever the map changes.
    fn touch_map(&mut self)
        ensures
            *final(self) == (Memory { map_key: fresh_key(old(self).map_key), ..*old(self) }),
    {
        self.map_key = self.map_key.wrapping_add(1);
    }

    /// The windows the page allocator may hand out, in address order.
    fn page_windows(&self) -> (windows: [(u64, u64); 2])
        requires
            self.layout.wf(),
        ensures
            windows@[0] == (self.layout.stack_top, self.layout.heap_base),
            windows@[1].1 == self.ram_end,
            windows@[1].0 == if self.layout.heap_end() <= self.ram_end {
                self.layout.heap_end()
            } else {
                self.ram_end as int
            },
    {
        let heap_end: u64 = self.layout.heap_base + self.layout.heap_size;
        let above_heap: u64 = if heap_end <= self.ram_end {
            heap_end
        } else {
            self.ram_end
        };
        [(self.layout.stack_top, self.layout.heap_base), (above_heap, self.ram_end)]
    }

    /// The allocations that touch a window, in address order.
    fn ranges_in(&self, from: u64, to: u64) -> (ranges: Vec<(u64, u64)>)
        requires
            self.wf(),
        ensures
            ranges@ == sorted(touching(self.allocations@, from, to)),
    {
        let mut ranges: Vec<(u64, u64)> = Vec::new();
        let mut next: usize = 0;
        while next < self.allocations.len()
            invariant
                self.wf(),
                next <= self.allocations@.len(),
                ranges@ == touching(self.allocations@.subrange(0, next as int), from, to),
            decreases self.allocations@.len() - next,
        {
            let allocation: Allocation = self.allocations[next];
            assert(self.allocations@[next as int].end() <= u64::MAX);
            assert(self.allocations@.subrange(0, next + 1).drop_last()
                =~= self.allocations@.subrange(0, next as int));
            let start: u64 = allocation.start;
            let end: u64 = start + allocation.pages * 4096;
            if end > from && start < to {
                ranges.push(
                    (
                        if start >= from {
                            start
                        } else {
                            from
                        },
                        if end <= to {
                            end
                        } else {
                            to
                        },
                    ),
                );
            }
            next = next + 1;
        }
        assert(self.allocations@.subrange(0, next as int) =~= self.allocations@);
        sort(&ranges)
    }

    /// The lowest run of `wanted` bytes in one window, below the ceiling when
    /// one is given.
    fn find_in_window(&self, from: u64, to: u64, wanted: u64, ceiling: Option<u64>) -> (found:
        Option<u64>)
        requires
            self.wf(),
            0 < wanted,
        ensures
            match found {
                Some(a) => {
                    &&& good(self.allocations@, from, to, wanted, ceiling, a as int)
                    &&& forall|b: int|
                        b < a ==> !#[trigger] good(
                            self.allocations@,
                            from,
                            to,
                            wanted,
                            ceiling,
                            b,
                        )
                    &&& a == from || a == to || ends_at(self.allocations@, a as int)
                },
                None => forall|b: int|
                    !#[trigger] good(self.allocations@, from, to, wanted, ceiling, b),
            },
    {
        let ghost s = self.allocations@;
        if to <= from {
            return None;
        }
        let ranges: Vec<(u64, u64)> = self.ranges_in(from, to);
        let ghost r = ranges@;
        proof {
            let t = touching(s, from, to);
            lemma_sorted(t);
            lemma_touching_bounds(s, from, to);
            assert forall|i: int| 0 <= i < r.len() implies from <= (#[trigger] r[i]).0 <= r[i].1
                <= to && (r[i].1 == to || ends_at(s, r[i].1 as int)) by {
                assert(r.contains(r[i]));
                let i2 = choose|i2: int| 0 <= i2 < t.len() && t[i2] == r[i];
                assert(t[i2] == r[i]);
            }
            assert forall|b: int| from <= b && b + wanted <= to implies #[trigger] hit(
                r,
                b,
                wanted as int,
            ) == taken(s, b, wanted as int) by {
                lemma_touching(s, from, to, b, wanted as int);
                lemma_hit_sorted(t, b, wanted as int);
            }
        }
        let mut cursor: u64 = from;
        let mut next: usize = 0;
        loop
            invariant
                ranges@ == r,
                next <= r.len(),
                from <= cursor <= to,
                from < to,
                0 < wanted,
                s == self.allocations@,
                forall|b: int|
                    from <= b && b + wanted <= to ==> #[trigger] hit(r, b, wanted as int) == taken(
                        s,
                        b,
                        wanted as int,
                    ),
                forall|i: int|
                    0 <= i < r.len() ==> from <= (#[trigger] r[i]).0 <= r[i].1 <= to && (r[i].1
                        == to || ends_at(s, r[i].1 as int)),
                forall|i: int, j: int|
                    0 <= i <= j < r.len() ==> in_order(#[trigger] r[i], #[trigger] r[j]),
                forall|i: int| 0 <= i < next ==> (#[trigger] r[i]).1 <= cursor,
                forall|b: int| b < cursor ==> !#[trigger] good(s, from, to, wanted, ceiling, b),
                cursor == from || cursor == to || ends_at(s, cursor as int),
            decreases r.len() + 1 - next,
        {
            let (start, end) = if next < ranges.len() {
                ranges[next]
            } else {
                (to, to)
            };
            if start > cursor {
                if start - cursor >= wanted {
                    let fits: bool = match ceiling {
                        Some(ceiling) => cursor + wanted <= ceiling,
                        None => true,
                    };
                    if fits {
                        proof {
                            assert(!hit(r, cursor as int, wanted as int)) by {
                                assert forall|i: int| 0 <= i < r.len() implies !(cursor < (
                                #[trigger] r[i]).1 && cursor + wanted > r[i].0) by {
                                    if i >= next {
                                        assert(in_order(r[next as int], r[i]));
                                    }
                                }
                            }
                            assert(good(s, from, to, wanted, ceiling, cursor as int));
                        }
                        return Some(cursor);
                    }
                }
            }
            proof {
                let reach = if end >= cursor {
                    end
                } else {
                    cursor
                };
                assert forall|b: int| b < reach implies !#[trigger] good(s, from, to, wanted, ceiling, b) by {
                    if b >= cursor && from <= b && b + wanted <= to {
                        if next < r.len() && b + wanted > start && b < end {
                            assert(b < r[next as int].1 && b + wanted > r[next as int].0);
                            assert(hit(r, b, wanted as int));
                        }
                    }
                }
            }
            if end > cursor {
                cursor = end;
            }
            if cursor >= to || next >= ranges.len() {
                assert(forall|b: int| !#[trigger] good(s, from, to, wanted, ceiling, b));
                return None;
            }
            next = next + 1;
        }
    }
}

/// The address a run has to end by, for the allocation types that have one.
pub open spec fn ceiling_for(allocate_type: u32, requested: u64) -> Option<u64> {
    if allocate_type == ALLOCATE_MAX_ADDRESS {
        Some(requested)
    } else {
        None
    }
}

/// The key after a change of the map.
pub open spec fn fresh_key(key: u64) -> u64 {
    if key == u64::MAX {
        0
    } else {
        (key + 1) as u64
    }
}

proof fn lemma_hit_sorted(t: Seq<(u64, u64)>, b: int, n: int)
    ensures
        hit(sorted(t), b, n) == hit(t, b, n),
{
    lemma_sorted(t);
    let r = sorted(t);
    if hit(t, b, n) {
        let i = choose|i: int| 0 <= i < t.len() && b < (#[trigger] t[i]).1 && b + n > t[i].0;
        assert(t.contains(t[i]));
        assert(r.contains(t[i]));
    }
    if hit(r, b, n) {
        let i = choose|i: int| 0 <= i < r.len() && b < (#[trigger] r[i]).1 && b + n > r[i].0;
        assert(r.contains(r[i]));
        assert(t.contains(r[i]));
    }
}

/// A stretch of memory with a type, as the map lists it.
#[derive(Clone, Copy, PartialEq, Eq, Structural, Debug)]
pub struct Window {
    pub start: u64,
    pub end: u64,
    pub memory_type: u32,
    pub attribute: u64,
}

/// The windows of the live allocations, in the order they were made.
pub open spec fn allocated(s: Seq<Allocation>) -> Seq<Window> {
    Seq::new(
        s.len(),
        |i: int|
            Window {
                start: s[i].start,
                end: s[i].end() as u64,
                memory_type: s[i].memory_type,
                attribute: WB,
            },
    )
}

/// The windows in ascending order: each in front of the first that starts after
/// it.
pub open spec fn by_address(s: Seq<Window>) -> Seq<Window>
    decreases s.len(),
{
    if s.len() == 0 {
        Seq::empty()
    } else {
        let rest = by_address(s.drop_last());
        rest.insert(first(rest, |w: Window| s.last().start < w.start), s.last())
    }
}

/// The descriptor of a stretch, unless it holds no whole page.
pub open spec fn described(start: u64, end: u64, memory_type: u32, attribute: u64) -> Seq<
    Descriptor,
> {
    if (end - start) / 4096 > 0 {
        seq![
            Descriptor {
                memory_type,
                physical_start: start,
                virtual_start: start,
                number_of_pages: ((end - start) / 4096) as u64,
                attribute,
            },
        ]
    } else {
        Seq::empty()
    }
}

/// How far the windows reach from `at`.
pub open spec fn reach(w: Seq<Window>, at: u64) -> u64
    decreases w.len(),
{
    if w.len() == 0 {
        at
    } else {
        let before = reach(w.drop_last(), at);
        if before >= w.last().end {
            before
        } else {
            w.last().end
        }
    }
}

/// The windows, with the gaps in front of them as conventional memory.
pub open spec fn walked(w: Seq<Window>, at: u64) -> Seq<Descriptor>
    decreases w.len(),
{
    if w.len() == 0 {
        Seq::empty()
    } else {
        let before = reach(w.drop_last(), at);
        let last = w.last();
        walked(w.drop_last(), at) + (if last.start > before {
            described(before, last.start, CONVENTIONAL_MEMORY, WB)
        } else {
            Seq::empty()
        }) + described(last.start, last.end, last.memory_type, last.attribute)
    }
}

/// At most `n` elements of `s`.
pub open spec fn at_most<A>(s: Seq<A>, n: int) -> Seq<A> {
    if s.len() <= n {
        s
    } else {
        s.subrange(0, n)
    }
}

impl Memory {
    /// The windows the firmware keeps for itself: the image with its stack as
    /// runtime code, so the operating system keeps it mapped, and the heap as
    /// boot-services data.
    pub open spec fn reserved(&self) -> Seq<Window> {
        seq![
            Window {
                start: self.layout.ram_base,
                end: self.layout.stack_top,
                memory_type: RUNTIME_SERVICES_CODE,
                attribute: WB_RUNTIME,
            },
            Window {
                start: self.layout.heap_base,
                end: self.layout.heap_end() as u64,
                memory_type: BOOT_SERVICES_DATA,
                attribute: WB_RUNTIME,
            },
        ]
    }

    /// Everything that is not conventional memory, by address.
    pub open spec fn windows(&self) -> Seq<Window> {
        by_address(self.reserved() + allocated(self.allocations@))
    }

    /// The whole memory map.
    pub open spec fn full_map(&self) -> Seq<Descriptor> {
        let at = reach(self.windows(), self.layout.ram_base);
        walked(self.windows(), self.layout.ram_base) + (if at < self.ram_end {
            described(at, self.ram_end, CONVENTIONAL_MEMORY, WB)
        } else {
            Seq::empty()
        })
    }

    /// The memory map as far as it can be reported.
    pub open spec fn map(&self) -> Seq<Descriptor> {
        at_most(self.full_map(), MAX_DESCRIPTORS as int)
    }

    proof fn lemma_free(&self, b: int, n: int)
        requires
            self.wf(),
            0 < n,
        ensures
            self.free_run(b, n) == (self.in_page_window(b, b + n) && !taken(
                self.allocations@,
                b,
                n,
            )),
    {
    }

    /// Finds a run of `pages` pages that is free, below `ceiling` when one is
    /// given: the one with the lowest address.
    pub fn find_run(&self, pages: u64, ceiling: Option<u64>) -> (found: Option<u64>)
        requires
            self.wf(),
            0 < pages,
            pages * 4096 <= u64::MAX,
        ensures
            match found {
                Some(a) => {
                    &&& self.usable(a as int, pages * 4096, ceiling)
                    &&& a % 4096 == 0
                    &&& forall|b: int| b < a ==> !#[trigger] self.usable(b, pages * 4096, ceiling)
                },
                None => forall|b: int| !#[trigger] self.usable(b, pages * 4096, ceiling),
            },
    {
        let wanted: u64 = pages * 4096;
        let windows = self.page_windows();
        let (from, to) = windows[0];
        let (above_from, above_to) = windows[1];
        proof {
            assert forall|b: int| #[trigger] self.usable(b, wanted as int, ceiling) == (good(
                self.allocations@,
                from,
                to,
                wanted,
                ceiling,
                b,
            ) || good(self.allocations@, above_from, above_to, wanted, ceiling, b)) by {
                self.lemma_free(b, wanted as int);
            }
        }
        match self.find_in_window(from, to, wanted, ceiling) {
            Some(found) => {
                proof {
                    self.lemma_aligned(found as int);
                    assert forall|b: int| b < found implies !#[trigger] self.usable(
                        b,
                        pages * 4096,
                        ceiling,
                    ) by {
                        assert(!good(self.allocations@, from, to, wanted, ceiling, b));
                    }
                }
                return Some(found);
            },
            None => {},
        }
        match self.find_in_window(above_from, above_to, wanted, ceiling) {
            Some(found) => {
                proof {
                    self.lemma_aligned(found as int);
                    assert forall|b: int| b < found implies !#[trigger] self.usable(
                        b,
                        pages * 4096,
                        ceiling,
                    ) by {
                        assert(!good(self.allocations@, from, to, wanted, ceiling, b));
                        assert(!good(
                            self.allocations@,
                            above_from,
                            above_to,
                            wanted,
                            ceiling,
                            b,
                        ));
                    }
                }
                Some(found)
            },
            None => {
                proof {
                    assert forall|b: int| !#[trigger] self.usable(b, pages * 4096, ceiling) by {
                        assert(!good(self.allocations@, from, to, wanted, ceiling, b));
                        assert(!good(
                            self.allocations@,
                            above_from,
                            above_to,
                            wanted,
                            ceiling,
                            b,
                        ));
                    }
                }
                None
            },
        }
    }

    proof fn lemma_aligned(&self, e: int)
        requires
            self.wf(),
        ensures
            ends_at(self.allocations@, e) ==> e % 4096 == 0,
    {
        if ends_at(self.allocations@, e) {
            let j = choose|j: int|
                0 <= j < self.allocations@.len() && (#[trigger] self.allocations@[j]).end() == e;
            assert(self.allocations@[j].start % 4096 == 0);
        }
    }

    /// Whether `start..start + size` already belongs to an allocation.
    fn overlaps_allocation(&self, start: u64, size: u64) -> (overlaps: bool)
        requires
            self.wf(),
            start + size <= u64::MAX,
        ensures
            overlaps == taken(self.allocations@, start as int, size as int),
    {
        let end: u64 = start + size;
        let mut next: usize = 0;
        while next < self.allocations.len()
            invariant
                self.wf(),
                next <= self.allocations@.len(),
                end == start + size,
                forall|i: int|
                    0 <= i < next ==> !(#[trigger] self.allocations@[i]).overlaps(
                        start as int,
                        start + size,
                    ),
            decreases self.allocations@.len() - next,
        {
            let other: Allocation = self.allocations[next];
            assert(self.allocations@[next as int].end() <= u64::MAX);
            if start < other.start + other.pages * 4096 && end > other.start {
                assert(self.allocations@[next as int].overlaps(start as int, start + size));
                return true;
            }
            next = next + 1;
        }
        false
    }

    /// Whether `start..start + size` runs into a window the firmware keeps.
    fn overlaps_reserved(&self, start: u64, size: u64) -> (overlaps: bool)
        requires
            self.layout.wf(),
            start + size <= u64::MAX,
        ensures
            overlaps == (start < self.layout.stack_top && start + size > self.layout.ram_base
                || start < self.layout.heap_end() && start + size > self.layout.heap_base),
    {
        let end: u64 = start + size;
        let heap_end: u64 = self.layout.heap_base + self.layout.heap_size;
        (start < self.layout.stack_top && end > self.layout.ram_base) || (start < heap_end && end
            > self.layout.heap_base)
    }

    /// Adds an allocation to the map's list of live runs.
    fn record_allocation(&mut self, start: u64, pages: u64, memory_type: u32) -> (recorded: bool)
        requires
            old(self).wf(),
            pages > 0,
            start % 4096 == 0,
            start + pages * 4096 <= u64::MAX,
            old(self).free_run(start as int, pages * 4096),
        ensures
            final(self).wf(),
            recorded == (old(self).allocations@.len() < MAX_ALLOCATIONS),
            !recorded ==> *final(self) == *old(self),
            recorded ==> old(self).added(final(self), Allocation { start, pages, memory_type }),
    {
        if self.allocations.len() >= MAX_ALLOCATIONS {
            return false;
        }
        self.allocations.push(Allocation { start, pages, memory_type });
        self.touch_map();
        true
    }

    /// `after` is these services with one more live run.
    pub open spec fn added(&self, after: &Memory, run: Allocation) -> bool {
        &&& after.allocations@ == self.allocations@.push(run)
        &&& after.map_key == fresh_key(self.map_key)
        &&& after.layout == self.layout
        &&& after.ram_end == self.ram_end
        &&& after.ended == self.ended
    }

    /// `AllocatePages`: a run at the requested address, the lowest run that ends
    /// by the requested address, or the lowest run there is.
    pub fn allocate_pages(
        &mut self,
        allocate_type: u32,
        memory_type: u32,
        pages: u64,
        requested: u64,
    ) -> (address: Result<u64, Status>)
        requires
            old(self).wf(),
            pages * 4096 <= u64::MAX,
            allocate_type == ALLOCATE_ADDRESS ==> requested + pages * 4096 <= u64::MAX,
        ensures
            final(self).wf(),
            ({
                let n = pages * 4096;
                let full = old(self).allocations@.len() >= MAX_ALLOCATIONS;
                let ceiling = ceiling_for(allocate_type, requested);
                match address {
                    Ok(a) => {
                        &&& pages > 0
                        &&& !old(self).ended
                        &&& !full
                        &&& old(self).added(
                            final(self),
                            Allocation { start: a, pages, memory_type },
                        )
                        &&& if allocate_type == ALLOCATE_ADDRESS {
                            &&& a == requested
                            &&& requested % 4096 == 0
                            &&& old(self).layout.ram_base <= a && a + n <= old(self).ram_end
                            &&& old(self).free_run(a as int, n)
                        } else {
                            &&& old(self).usable(a as int, n, ceiling)
                            &&& forall|b: int| b < a ==> !#[trigger] old(self).usable(b, n, ceiling)
                        }
                    },
                    Err(status) => {
                        &&& *final(self) == *old(self)
                        &&& if pages == 0 {
                            status == Status::InvalidParameter
                        } else if old(self).ended {
                            status == Status::Unsupported
                        } else if allocate_type == ALLOCATE_ADDRESS && (requested % 4096 != 0
                            || requested < old(self).layout.ram_base || requested + n
                            > old(self).ram_end) {
                            status == Status::InvalidParameter
                        } else {
                            &&& status == Status::OutOfResources
                            &&& full || if allocate_type == ALLOCATE_ADDRESS {
                                !old(self).free_run(requested as int, n)
                            } else {
                                forall|b: int| !#[trigger] old(self).usable(b, n, ceiling)
                            }
                        }
                    },
                }
            }),
    {
        if pages == 0 {
            return Err(Status::InvalidParameter);
        }
        if self.boot_services_ended() {
            return Err(Status::Unsupported);
        }
        let wanted: u64 = pages * 4096;
        let start: u64 = if allocate_type == ALLOCATE_ADDRESS {
            // A specific address: it has to be inside RAM, inside the pool, and
            // unallocated.
            if requested % 4096 != 0 || !self.is_ram(requested, wanted) {
                return Err(Status::InvalidParameter);
            }
            if self.overlaps_reserved(requested, wanted) {
                return Err(Status::OutOfResources);
            }
            let windows = self.page_windows();
            let in_window: bool = (requested >= windows[0].0 && requested + wanted <= windows[0].1)
                || (requested >= windows[1].0 && requested + wanted <= windows[1].1);
            proof {
                self.lemma_free(requested as int, wanted as int);
            }
            if !in_window || self.overlaps_allocation(requested, wanted) {
                return Err(Status::OutOfResources);
            }
            requested
        } else {
            let ceiling: Option<u64> = if allocate_type == ALLOCATE_MAX_ADDRESS {
                Some(requested)
            } else {
                None
            };
            match self.find_run(pages, ceiling) {
                Some(found) => found,
                None => {
                    return Err(Status::OutOfResources);
                },
            }
        };
        if !self.record_allocation(start, pages, memory_type) {
            return Err(Status::OutOfResources);
        }
        Ok(start)
    }

    /// Removes an allocation, so its pages read as conventional memory again.
    fn drop_allocation(&mut self, start: u64) -> (dropped: bool)
        requires
            old(self).wf(),
        ensures
            final(self).wf(),
            ({
                let k = first(old(self).allocations@, |a: Allocation| a.start == start);
                &&& dropped == (k < old(self).allocations@.len())
                &&& !dropped ==> *final(self) == *old(self)
                &&& dropped ==> old(self).removed(final(self), k)
            }),
    {
        let ghost s = self.allocations@;
        let ghost p = |a: Allocation| a.start == start;
        let mut next: usize = 0;
        while next < self.allocations.len()
            invariant
                self.allocations@ == s,
                *self == *old(self),
                self.wf(),
                next <= s.len(),
                p == (|a: Allocation| a.start == start),
                forall|i: int| 0 <= i < next ==> !p(#[trigger] s[i]),
            decreases s.len() - next,
        {
            if self.allocations[next].start == start {
                proof {
                    lemma_first(s, p, next as int);
                }
                let _gone: Allocation = self.allocations.remove(next);
                proof {
                    let t = self.allocations@;
                    assert forall|i: int, j: int| 0 <= i < j < t.len() implies !(
                    #[trigger] t[i]).overlaps((#[trigger] t[j]).start as int, t[j].end()) by {
                        let a = if i < next { i } else { i + 1 };
                        let b = if j < next { j } else { j + 1 };
                        assert(t[i] == s[a] && t[j] == s[b]);
                    }
                    assert forall|i: int| 0 <= i < t.len() implies {
                        let a = #[trigger] t[i];
                        &&& a.pages > 0
                        &&& a.start % 4096 == 0
                        &&& a.end() <= u64::MAX
                        &&& self.in_page_window(a.start as int, a.end())
                    } by {
                        let a = if i < next { i } else { i + 1 };
                        assert(t[i] == s[a]);
                    }
                }
                self.touch_map();
                return true;
            }
            next = next + 1;
        }
        proof {
            lemma_first(s, p, s.len() as int);
        }
        false
    }

    /// `after` is these services without their `k`-th live run.
    pub open spec fn removed(&self, after: &Memory, k: int) -> bool {
        &&& after.allocations@ == self.allocations@.remove(k)
        &&& after.map_key == fresh_key(self.map_key)
        &&& after.layout == self.layout
        &&& after.ram_end == self.ram_end
        &&& after.ended == self.ended
    }

    /// `FreePages`.
    pub fn free_pages(&mut self, address: u64) -> (status: Status)
        requires
            old(self).wf(),
        ensures
            final(self).wf(),
            ({
                let k = first(old(self).allocations@, |a: Allocation| a.start == address);
                if k < old(self).allocations@.len() {
                    status == Status::Success && old(self).removed(final(self), k)
                } else {
                    status == Status::InvalidParameter && *final(self) == *old(self)
                }
            }),
    {
        if self.drop_allocation(address) {
            Status::Success
        } else {
            Status::InvalidParameter
        }
    }
}

/// Windows that are not empty, no two with an address in common.
spec fn apart(s: Seq<Window>) -> bool {
    &&& forall|i: int| 0 <= i < s.len() ==> (#[trigger] s[i]).start < s[i].end
    &&& forall|i: int, j: int|
        0 <= i < s.len() && 0 <= j < s.len() && i != j ==> (#[trigger] s[i]).end <= (
        #[trigger] s[j]).start || s[j].end <= s[i].start
}

/// Windows that follow one another.
spec fn chain(s: Seq<Window>) -> bool {
    &&& forall|i: int| 0 <= i < s.len() ==> (#[trigger] s[i]).start < s[i].end
    &&& forall|i: int, j: int|
        0 <= i < j < s.len() ==> (#[trigger] s[i]).end <= (#[trigger] s[j]).start
}

/// Putting a window that is clear of a chain where it belongs keeps the chain.
proof fn lemma_insert_chain(rest: Seq<Window>, x: Window, k: int)
    requires
        chain(rest),
        x.start < x.end,
        0 <= k <= rest.len(),
        forall|i: int| 0 <= i < k ==> (#[trigger] rest[i]).end <= x.start,
        forall|i: int| k <= i < rest.len() ==> x.end <= (#[trigger] rest[i]).start,
    ensures
        chain(rest.insert(k, x)),
{
    let all = rest.insert(k, x);
    assert forall|i: int, j: int| 0 <= i < j < all.len() implies (#[trigger] all[i]).end <= (
    #[trigger] all[j]).start by {
        let a = if i < k { i } else { i - 1 };
        let b = if j < k { j } else { j - 1 };
        if i != k && j != k {
            assert(all[i] == rest[a] && all[j] == rest[b]);
        } else if j == k {
            assert(all[i] == rest[i]);
        } else {
            assert(all[j] == rest[b]);
        }
    }
    assert forall|i: int| 0 <= i < all.len() implies (#[trigger] all[i]).start < all[i].end by {
        if i != k {
            let a = if i < k { i } else { i - 1 };
            assert(all[i] == rest[a]);
        }
    }
}

/// Inserting adds one element and keeps the others.
proof fn lemma_insert_contains(front: Seq<Window>, rest: Seq<Window>, x: Window, k: int)
    requires
        0 <= k <= rest.len(),
        forall|y: Window| front.contains(y) == #[trigger] rest.contains(y),
    ensures
        forall|y: Window| front.push(x).contains(y) == #[trigger] rest.insert(k, x).contains(y),
{
    let all = rest.insert(k, x);
    let s = front.push(x);
    assert forall|y: Window| s.contains(y) == #[trigger] all.contains(y) by {
        assert(all[k] == x);
        assert(s[front.len() as int] == x);
        if s.contains(y) {
            let i = choose|i: int| 0 <= i < s.len() && s[i] == y;
            if i < front.len() {
                assert(front[i] == y);
                assert(rest.contains(y));
                let j = choose|j: int| 0 <= j < rest.len() && rest[j] == y;
                assert(all[if j < k { j } else { j + 1 }] == y);
            }
        }
        if all.contains(y) {
            let i = choose|i: int| 0 <= i < all.len() && all[i] == y;
            if i != k {
                let j = if i < k { i } else { i - 1 };
                assert(rest[j] == y);
                assert(rest.contains(y));
                let m = choose|m: int| 0 <= m < front.len() && front[m] == y;
                assert(s[m] == y);
            }
        }
    }
}

proof fn lemma_by_address(s: Seq<Window>)
    requires
        apart(s),
    ensures
        chain(by_address(s)),
        by_address(s).len() == s.len(),
        forall|x: Window| s.contains(x) == #[trigger] by_address(s).contains(x),
    decreases s.len(),
{
    if s.len() > 0 {
        let front = s.drop_last();
        let x = s.last();
        let rest = by_address(front);
        let p = |w: Window| x.start < w.start;
        let k = first(rest, p);
        assert(apart(front)) by {
            assert forall|i: int| 0 <= i < front.len() implies (#[trigger] front[i]).start
                < front[i].end by {
                assert(front[i] == s[i]);
            }
            assert forall|i: int, j: int|
                0 <= i < front.len() && 0 <= j < front.len() && i != j implies (
            #[trigger] front[i]).end <= (#[trigger] front[j]).start || front[j].end
                <= front[i].start by {
                assert(front[i] == s[i] && front[j] == s[j]);
            }
        }
        lemma_by_address(front);
        lemma_first_is(rest, p);
        assert(s[s.len() - 1] == x);
        assert forall|i: int| 0 <= i < rest.len() implies (#[trigger] rest[i]).end <= x.start
            || x.end <= rest[i].start by {
            assert(rest.contains(rest[i]));
            assert(front.contains(rest[i]));
            let j = choose|j: int| 0 <= j < front.len() && front[j] == rest[i];
            assert(s[j] == front[j]);
        }
        assert forall|i: int| 0 <= i < k implies (#[trigger] rest[i]).end <= x.start by {
            assert(!p(rest[i]));
        }
        assert forall|i: int| k <= i < rest.len() implies x.end <= (#[trigger] rest[i]).start by {
            assert(p(rest[k]));
            if i > k {
                assert(rest[k].end <= rest[i].start);
            }
        }
        lemma_insert_chain(rest, x, k);
        lemma_insert_contains(front, rest, x, k);
        assert(front.push(x) =~= s);
    }
}

impl Descriptor {
    /// Just past the last page.
    pub open spec fn end(self) -> int {
        self.physical_start + self.number_of_pages * 4096
    }

    /// Whether the descriptor covers an address.
    pub open spec fn covers(self, a: int) -> bool {
        self.physical_start <= a < self.end()
    }
}

/// Descriptors that follow one another.
pub open spec fn in_address_order(m: Seq<Descriptor>) -> bool {
    forall|i: int, j: int|
        0 <= i < j < m.len() ==> (#[trigger] m[i]).end() <= (#[trigger] m[j]).physical_start
}

/// Whether a descriptor is one of the windows, or conventional memory clear of
/// all of them.
spec fn explained(d: Descriptor, w: Seq<Window>) -> bool {
    ||| exists|j: int|
        0 <= j < w.len() && d.physical_start == (#[trigger] w[j]).start && d.end() == w[j].end
            && d.memory_type == w[j].memory_type && d.attribute == w[j].attribute
    ||| d.memory_type == CONVENTIONAL_MEMORY && d.attribute == WB && forall|j: int|
        0 <= j < w.len() ==> (#[trigger] w[j]).end <= d.physical_start || d.end() <= w[j].start
}

spec fn covers_all(m: Seq<Descriptor>, from: int, to: int) -> bool {
    forall|a: int| from <= a < to ==> #[trigger] covered_by(m, a)
}

/// Whether some descriptor covers an address.
pub open spec fn covered_by(m: Seq<Descriptor>, a: int) -> bool {
    exists|i: int| 0 <= i < m.len() && (#[trigger] m[i]).covers(a)
}

proof fn lemma_covered_add(x: Seq<Descriptor>, y: Seq<Descriptor>, a: int)
    ensures
        covered_by(x, a) || covered_by(y, a) ==> covered_by(x + y, a),
{
    if covered_by(x, a) {
        let i = choose|i: int| 0 <= i < x.len() && (#[trigger] x[i]).covers(a);
        assert((x + y)[i] == x[i]);
    }
    if covered_by(y, a) {
        let i = choose|i: int| 0 <= i < y.len() && (#[trigger] y[i]).covers(a);
        assert((x + y)[x.len() + i] == y[i]);
    }
}

/// What holds of the descriptors of everything from `at` to `to`.
spec fn charted(m: Seq<Descriptor>, w: Seq<Window>, at: int, to: int) -> bool {
    &&& in_address_order(m)
    &&& forall|i: int| 0 <= i < m.len() ==> at <= (#[trigger] m[i]).physical_start && m[i].end() <= to
    &&& forall|i: int| 0 <= i < m.len() ==> explained(#[trigger] m[i], w)
    &&& covers_all(m, at, to)
}

/// Adding the descriptor of a stretch that follows.
proof fn lemma_charted_step(
    m: Seq<Descriptor>,
    w: Seq<Window>,
    at: int,
    from: u64,
    to: u64,
    memory_type: u32,
    attribute: u64,
)
    requires
        charted(m, w, at, from as int),
        at <= from <= to,
        from % 4096 == 0,
        to % 4096 == 0,
        from < to ==> explained(
            Descriptor {
                memory_type,
                physical_start: from,
                virtual_start: from,
                number_of_pages: ((to - from) / 4096) as u64,
                attribute,
            },
            w,
        ),
    ensures
        charted(m + described(from, to, memory_type, attribute), w, at, to as int),
{
    let own = described(from, to, memory_type, attribute);
    let all = m + own;
    if from < to {
        let d = Descriptor {
            memory_type,
            physical_start: from,
            virtual_start: from,
            number_of_pages: ((to - from) / 4096) as u64,
            attribute,
        };
        assert((to - from) % 4096 == 0);
        assert(own == seq![d]);
        assert(d.end() == to);
        assert forall|a: int| at <= a < to implies #[trigger] covered_by(all, a) by {
            lemma_covered_add(m, own, a);
            if a >= from {
                assert(own[0].covers(a));
            } else {
                assert(covered_by(m, a));
            }
        }
        assert forall|i: int| 0 <= i < all.len() implies explained(#[trigger] all[i], w) && at
            <= all[i].physical_start && all[i].end() <= to by {
            if i < m.len() {
                assert(all[i] == m[i]);
            } else {
                assert(all[i] == d);
            }
        }
        assert forall|i: int, j: int| 0 <= i < j < all.len() implies (#[trigger] all[i]).end() <= (
        #[trigger] all[j]).physical_start by {
            assert(all[i] == m[i]);
            if j < m.len() {
                assert(all[j] == m[j]);
            } else {
                assert(all[j] == d);
            }
        }
    } else {
        assert(all =~= m);
    }
}

/// Widening the windows that explain a chart to ones that lie beyond it.
proof fn lemma_charted_more(m: Seq<Descriptor>, w: Seq<Window>, x: Window, at: int, to: int)
    requires
        charted(m, w, at, to),
        to <= x.start,
    ensures
        charted(m, w.push(x), at, to),
{
    let more = w.push(x);
    assert forall|i: int| 0 <= i < m.len() implies explained(#[trigger] m[i], more) by {
        let d = m[i];
        if exists|j: int|
            0 <= j < w.len() && d.physical_start == (#[trigger] w[j]).start && d.end() == w[j].end
                && d.memory_type == w[j].memory_type && d.attribute == w[j].attribute {
            let j = choose|j: int|
                0 <= j < w.len() && d.physical_start == (#[trigger] w[j]).start && d.end()
                    == w[j].end && d.memory_type == w[j].memory_type && d.attribute
                    == w[j].attribute;
            assert(more[j] == w[j]);
        } else {
            assert forall|j: int| 0 <= j < more.len() implies (#[trigger] more[j]).end
                <= d.physical_start || d.end() <= more[j].start by {
                if j < w.len() {
                    assert(more[j] == w[j]);
                }
            }
        }
    }
}

proof fn lemma_walked(w: Seq<Window>, at: u64)
    requires
        chain(w),
        at % 4096 == 0,
        forall|i: int|
            0 <= i < w.len() ==> at <= (#[trigger] w[i]).start && w[i].start % 4096 == 0 && w[i].end
                % 4096 == 0,
    ensures
        charted(walked(w, at), w, at as int, reach(w, at) as int),
        reach(w, at) >= at,
        reach(w, at) % 4096 == 0,
        w.len() > 0 ==> reach(w, at) == w.last().end,
        walked(w, at).len() <= 2 * w.len(),
    decreases w.len(),
{
    if w.len() > 0 {
        let front = w.drop_last();
        let x = w.last();
        assert(w[w.len() - 1] == x);
        assert(chain(front)) by {
            assert forall|i: int| 0 <= i < front.len() implies (#[trigger] front[i]).start
                < front[i].end by {
                assert(front[i] == w[i]);
            }
            assert forall|i: int, j: int| 0 <= i < j < front.len() implies (#[trigger] front[i]).end
                <= (#[trigger] front[j]).start by {
                assert(front[i] == w[i] && front[j] == w[j]);
            }
        }
        assert forall|i: int| 0 <= i < front.len() implies at <= (#[trigger] front[i]).start
            && front[i].start % 4096 == 0 && front[i].end % 4096 == 0 by {
            assert(front[i] == w[i]);
        }
        lemma_walked(front, at);
        let before = reach(front, at);
        if front.len() > 0 {
            assert(w[w.len() - 2].end <= w[w.len() - 1].start);
            assert(front.last() == w[w.len() - 2]);
        }
        assert(before <= x.start);
        assert(front.push(x) =~= w);
        let m = walked(front, at);
        lemma_charted_more(m, front, x, at as int, before as int);
        // The gap is clear of every window.
        let gap = if x.start > before {
            described(before, x.start, CONVENTIONAL_MEMORY, WB)
        } else {
            Seq::empty()
        };
        if x.start > before {
            let d = Descriptor {
                memory_type: CONVENTIONAL_MEMORY,
                physical_start: before,
                virtual_start: before,
                number_of_pages: ((x.start - before) / 4096) as u64,
                attribute: WB,
            };
            assert((x.start - before) % 4096 == 0);
            assert(d.end() == x.start);
            assert forall|j: int| 0 <= j < w.len() implies (#[trigger] w[j]).end
                <= d.physical_start || d.end() <= w[j].start by {
                if j < w.len() - 1 {
                    assert(front[j] == w[j]);
                    if j < front.len() - 1 {
                        assert(w[j].end <= w[w.len() - 2].start);
                        assert(front.last().start < front.last().end);
                    }
                }
            }
            lemma_charted_step(m, w, at as int, before, x.start, CONVENTIONAL_MEMORY, WB);
        } else {
            assert(m + gap =~= m);
        }
        let d = Descriptor {
            memory_type: x.memory_type,
            physical_start: x.start,
            virtual_start: x.start,
            number_of_pages: ((x.end - x.start) / 4096) as u64,
            attribute: x.attribute,
        };
        assert((x.end - x.start) % 4096 == 0);
        assert(d.end() == x.end);
        assert(explained(d, w)) by {
            assert(w[w.len() - 1] == x);
        }
        lemma_charted_step(m + gap, w, at as int, x.start, x.end, x.memory_type, x.attribute);
    }
}

impl Memory {
    proof fn lemma_windows(&self)
        requires
            self.wf(),
        ensures
            chain(self.windows()),
            forall|i: int|
                0 <= i < self.windows().len() ==> self.layout.ram_base <= (
                #[trigger] self.windows()[i]).start && self.windows()[i].start % 4096 == 0
                    && self.windows()[i].end % 4096 == 0,
            forall|x: Window|
                (self.reserved() + allocated(self.allocations@)).contains(x)
                    == #[trigger] self.windows().contains(x),
            self.windows().len() == 2 + self.allocations@.len(),
    {
        let u = self.reserved() + allocated(self.allocations@);
        let n = self.allocations@.len();
        assert forall|i: int| 0 <= i < n implies u[i + 2].start == self.allocations@[i].start
            && u[i + 2].end == self.allocations@[i].end() by {
            assert(self.allocations@[i].end() <= u64::MAX);
        }
        assert(apart(u)) by {
            assert forall|i: int| 0 <= i < u.len() implies (#[trigger] u[i]).start < u[i].end by {
                if i >= 2 {
                    assert(u[(i - 2) + 2].start == self.allocations@[i - 2].start);
                    assert(self.allocations@[i - 2].pages > 0);
                }
            }
            assert forall|i: int, j: int|
                0 <= i < u.len() && 0 <= j < u.len() && i != j implies (#[trigger] u[i]).end <= (
            #[trigger] u[j]).start || u[j].end <= u[i].start by {
                if i >= 2 {
                    assert(u[(i - 2) + 2].start == self.allocations@[i - 2].start);
                }
                if j >= 2 {
                    assert(u[(j - 2) + 2].start == self.allocations@[j - 2].start);
                }
                if i >= 2 && j >= 2 {
                    if i < j {
                        assert(!self.allocations@[i - 2].overlaps(
                            self.allocations@[j - 2].start as int,
                            self.allocations@[j - 2].end(),
                        ));
                    } else {
                        assert(!self.allocations@[j - 2].overlaps(
                            self.allocations@[i - 2].start as int,
                            self.allocations@[i - 2].end(),
                        ));
                    }
                }
            }
        }
        lemma_by_address(u);
        let w = self.windows();
        assert forall|i: int| 0 <= i < w.len() implies self.layout.ram_base <= (
        #[trigger] w[i]).start && w[i].start % 4096 == 0 && w[i].end % 4096 == 0 by {
            assert(w.contains(w[i]));
            assert(u.contains(w[i]));
            let k = choose|k: int| 0 <= k < u.len() && u[k] == w[i];
            if k >= 2 {
                assert(u[(k - 2) + 2].start == self.allocations@[k - 2].start);
            }
        }
    }

    /// What an address of RAM is used for: the type and the attribute.
    pub open spec fn kind_at(&self, a: int) -> (u32, u64) {
        if self.layout.ram_base <= a < self.layout.stack_top {
            (RUNTIME_SERVICES_CODE, WB_RUNTIME)
        } else if self.layout.heap_base <= a < self.layout.heap_end() {
            (BOOT_SERVICES_DATA, WB_RUNTIME)
        } else if exists|i: int|
            0 <= i < self.allocations@.len() && (#[trigger] self.allocations@[i]).overlaps(
                a,
                a + 1,
            ) {
            let i = choose|i: int|
                0 <= i < self.allocations@.len() && (#[trigger] self.allocations@[i]).overlaps(
                    a,
                    a + 1,
                );
            (self.allocations@[i].memory_type, WB)
        } else {
            (CONVENTIONAL_MEMORY, WB)
        }
    }

    /// The whole map never drifts from what was handed out: every address of RAM
    /// is in exactly one descriptor, which carries the type and attribute of what
    /// the address is used for.
    pub proof fn law_map_matches(&self, a: int)
        requires
            self.wf(),
            self.ram_end % 4096 == 0,
            self.layout.ram_base <= a < self.ram_end,
        ensures
            covered_by(self.full_map(), a),
            in_address_order(self.full_map()),
            forall|i: int|
                0 <= i < self.full_map().len() && (#[trigger] self.full_map()[i]).covers(a) ==> (
                    self.full_map()[i].memory_type,
                    self.full_map()[i].attribute,
                ) == self.kind_at(a),
    {
        let w = self.windows();
        let base = self.layout.ram_base;
        self.lemma_windows();
        lemma_walked(w, base);
        let e = reach(w, base);
        let m = walked(w, base);
        let all = self.full_map();
        if e < self.ram_end {
            let d = Descriptor {
                memory_type: CONVENTIONAL_MEMORY,
                physical_start: e,
                virtual_start: e,
                number_of_pages: ((self.ram_end - e) / 4096) as u64,
                attribute: WB,
            };
            assert((self.ram_end - e) % 4096 == 0);
            assert(d.end() == self.ram_end);
            assert forall|j: int| 0 <= j < w.len() implies (#[trigger] w[j]).end
                <= d.physical_start || d.end() <= w[j].start by {
                if j < w.len() - 1 {
                    assert(w[j].end <= w[w.len() - 1].start);
                    assert(w[w.len() - 1].start < w[w.len() - 1].end);
                }
            }
            lemma_charted_step(m, w, base as int, e, self.ram_end, CONVENTIONAL_MEMORY, WB);
        } else {
            assert(all =~= m);
        }
        assert forall|i: int| 0 <= i < all.len() && (#[trigger] all[i]).covers(a) implies (
            all[i].memory_type,
            all[i].attribute,
        ) == self.kind_at(a) by {
            self.lemma_kind(all[i], a);
        }
    }

    proof fn lemma_kind(&self, d: Descriptor, a: int)
        requires
            self.wf(),
            d.covers(a),
            explained(d, self.windows()),
            self.layout.ram_base <= a,
        ensures
            (d.memory_type, d.attribute) == self.kind_at(a),
    {
        let u = self.reserved() + allocated(self.allocations@);
        let w = self.windows();
        self.lemma_windows();
        assert(u.contains(u[0]) && u.contains(u[1]));
        if exists|j: int|
            0 <= j < w.len() && d.physical_start == (#[trigger] w[j]).start && d.end() == w[j].end
                && d.memory_type == w[j].memory_type && d.attribute == w[j].attribute {
            let j = choose|j: int|
                0 <= j < w.len() && d.physical_start == (#[trigger] w[j]).start && d.end()
                    == w[j].end && d.memory_type == w[j].memory_type && d.attribute
                    == w[j].attribute;
            assert(w.contains(w[j]));
            let k = choose|k: int| 0 <= k < u.len() && u[k] == w[j];
            if k >= 2 {
                let run = self.allocations@[k - 2];
                assert(run.end() <= u64::MAX);
                assert(u[k] == allocated(self.allocations@)[k - 2]);
                assert(run.overlaps(a, a + 1));
                let i = choose|i: int|
                    0 <= i < self.allocations@.len() && (#[trigger] self.allocations@[i]).overlaps(
                        a,
                        a + 1,
                    );
                assert(self.in_page_window(run.start as int, run.end()));
                if i < k - 2 {
                    assert(!self.allocations@[i].overlaps(run.start as int, run.end()));
                } else if i > k - 2 {
                    assert(!run.overlaps(
                        self.allocations@[i].start as int,
                        self.allocations@[i].end(),
                    ));
                }
            }
        } else {
            assert(w.contains(u[0]) && w.contains(u[1]));
            let j0 = choose|j: int| 0 <= j < w.len() && w[j] == u[0];
            let j1 = choose|j: int| 0 <= j < w.len() && w[j] == u[1];
            assert(w[j0].end <= d.physical_start || d.end() <= w[j0].start);
            assert(w[j1].end <= d.physical_start || d.end() <= w[j1].start);
            assert forall|i: int| 0 <= i < self.allocations@.len() implies !(
            #[trigger] self.allocations@[i]).overlaps(a, a + 1) by {
                assert(self.allocations@[i].end() <= u64::MAX);
                assert(u[i + 2] == allocated(self.allocations@)[i]);
                assert(u.contains(u[i + 2]));
                assert(w.contains(u[i + 2]));
                let j = choose|j: int| 0 <= j < w.len() && w[j] == u[i + 2];
                assert(w[j].end <= d.physical_start || d.end() <= w[j].start);
            }
        }
    }

    /// A map of no more descriptors than can be reported is reported whole.
    pub proof fn law_map_is_whole(&self)
        requires
            self.full_map().len() <= MAX_DESCRIPTORS,
        ensures
            self.map() == self.full_map(),
    {
        assert(at_most(self.full_map(), MAX_DESCRIPTORS as int) =~= self.full_map());
    }

    /// Every live run adds at most two descriptors, so few runs leave the map whole.
    pub proof fn law_map_of_few_runs_is_whole(&self)
        requires
            self.wf(),
            2 * self.allocations@.len() + 5 <= MAX_DESCRIPTORS,
        ensures
            self.full_map().len() <= 2 * self.allocations@.len() + 5,
            self.map() == self.full_map(),
    {
        self.lemma_windows();
        lemma_walked(self.windows(), self.layout.ram_base);
        self.law_map_is_whole();
    }

    /// Whether `after` is what a call that changed the map left: a run was handed out
    /// or taken back, or a block of the pool was.
    pub open spec fn changed(&self, after: &Memory) -> bool {
        ||| exists|run: Allocation| #[trigger] self.added(after, run)
        ||| exists|k: int| #[trigger] self.removed(after, k)
        ||| *after == (Memory { map_key: fresh_key(self.map_key), ..*self })
    }

    /// Freeing a run that was just allocated leaves the live runs as they were,
    /// and every change of them makes the key an application holds stale.
    pub proof fn law_free_undoes_allocate(&self, after: &Memory, freed: &Memory, run: Allocation)
        requires
            self.wf(),
            run.pages > 0,
            self.free_run(run.start as int, run.pages * 4096),
            self.added(after, run),
            after.removed(freed, first(after.allocations@, |a: Allocation| a.start == run.start)),
        ensures
            freed.allocations@ == self.allocations@,
            after.map_key != self.map_key,
            freed.map_key != after.map_key,
    {
        let p = |a: Allocation| a.start == run.start;
        let n = self.allocations@.len() as int;
        assert forall|i: int| 0 <= i < n implies !p(#[trigger] after.allocations@[i]) by {
            assert(after.allocations@[i] == self.allocations@[i]);
            assert(self.allocations@[i].pages > 0);
            assert(!self.allocations@[i].overlaps(
                run.start as int,
                run.start + run.pages * 4096,
            ));
        }
        assert(after.allocations@[n] == run);
        lemma_first(after.allocations@, p, n);
        assert(freed.allocations@ =~= self.allocations@);
    }
}

/// How many of the first `k` calls changed the map.
pub open spec fn changes(changed: Seq<bool>, k: int) -> nat
    decreases k,
{
    if k <= 0 {
        0
    } else if changed[k - 1] {
        changes(changed, k - 1) + 1
    } else {
        changes(changed, k - 1)
    }
}

/// The key that was handed out is good as long as no call changed the map, and stale
/// from the first that did on: `states` are the services before, between and after a
/// run of calls, and `changed` says which of the calls changed the map. Keys come
/// round after as many changes as there are keys.
pub proof fn law_stale_key_stays_stale(states: Seq<Memory>, changed: Seq<bool>)
    requires
        states.len() == changed.len() + 1,
        forall|i: int|
            0 <= i < changed.len() ==> if #[trigger] changed[i] {
                states[i].changed(&states[i + 1])
            } else {
                states[i + 1].map_key == states[i].map_key
            },
        changes(changed, changed.len() as int) <= u64::MAX,
    ensures
        states.last().map_key == states[0].map_key <==> changes(changed, changed.len() as int) == 0,
{
    lemma_key_after(states, changed, changed.len() as int);
}

/// The key after the first `k` calls.
proof fn lemma_key_after(states: Seq<Memory>, changed: Seq<bool>, k: int)
    requires
        states.len() == changed.len() + 1,
        0 <= k <= changed.len(),
        forall|i: int|
            0 <= i < changed.len() ==> if #[trigger] changed[i] {
                states[i].changed(&states[i + 1])
            } else {
                states[i + 1].map_key == states[i].map_key
            },
    ensures
        states[k].map_key == (states[0].map_key + changes(changed, k)) % 0x1_0000_0000_0000_0000,
    decreases k,
{
    if k > 0 {
        lemma_key_after(states, changed, k - 1);
        assert(changed[k - 1] || !changed[k - 1]);
    }
}

/// Puts a window where it belongs by address.
fn place(windows: &mut Vec<Window>, window: Window)
    ensures
        final(windows)@ == old(windows)@.insert(
            first(old(windows)@, |w: Window| window.start < w.start),
            window,
        ),
{
    let ghost s = windows@;
    let ghost p = |w: Window| window.start < w.start;
    let mut at: usize = 0;
    while at < windows.len() && windows[at].start <= window.start
        invariant
            windows@ == s,
            at <= s.len(),
            p == (|w: Window| window.start < w.start),
            forall|i: int| 0 <= i < at ==> !p(#[trigger] s[i]),
        decreases s.len() - at,
    {
        at = at + 1;
    }
    proof {
        lemma_first(s, p, at as int);
    }
    windows.insert(at, window);
}

/// Adds the descriptor of a stretch, while there is room for descriptors.
fn describe(out: &mut Vec<Descriptor>, start: u64, end: u64, memory_type: u32, attribute: u64, Ghost(
    all,
): Ghost<Seq<Descriptor>>)
    requires
        start <= end,
        old(out)@ == at_most(all, MAX_DESCRIPTORS as int),
    ensures
        final(out)@ == at_most(
            all + described(start, end, memory_type, attribute),
            MAX_DESCRIPTORS as int,
        ),
{
    let pages: u64 = (end - start) / 4096;
    let ghost own = described(start, end, memory_type, attribute);
    if out.len() < MAX_DESCRIPTORS && pages > 0 {
        out.push(
            Descriptor {
                memory_type,
                physical_start: start,
                virtual_start: start,
                number_of_pages: pages,
                attribute,
            },
        );
        assert(out@ =~= all + own);
    } else if pages > 0 {
        assert(out@ =~= (all + own).subrange(0, MAX_DESCRIPTORS as int));
    } else {
        assert(all + own =~= all);
    }
}

impl Memory {
    /// Everything that is not conventional memory, by address.
    fn windows_by_address(&self) -> (windows: Vec<Window>)
        requires
            self.wf(),
        ensures
            windows@ == self.windows(),
    {
        let ghost u = self.reserved() + allocated(self.allocations@);
        let mut windows: Vec<Window> = Vec::new();
        let image = Window {
            start: self.layout.ram_base,
            end: self.layout.stack_top,
            memory_type: RUNTIME_SERVICES_CODE,
            attribute: WB_RUNTIME,
        };
        let heap = Window {
            start: self.layout.heap_base,
            end: self.layout.heap_base + self.layout.heap_size,
            memory_type: BOOT_SERVICES_DATA,
            attribute: WB_RUNTIME,
        };
        proof {
            assert(u.subrange(0, 1).drop_last() =~= Seq::<Window>::empty());
            assert(u.subrange(0, 1).last() == image);
            assert(u.subrange(0, 2).drop_last() =~= u.subrange(0, 1));
            assert(u.subrange(0, 2).last() == heap);
            assert(windows@ =~= by_address(u.subrange(0, 1).drop_last()));
        }
        place(&mut windows, image);
        assert(windows@ == by_address(u.subrange(0, 1)));
        place(&mut windows, heap);
        assert(windows@ == by_address(u.subrange(0, 2)));
        let mut next: usize = 0;
        while next < self.allocations.len()
            invariant
                self.wf(),
                next <= self.allocations@.len(),
                u == self.reserved() + allocated(self.allocations@),
                windows@ == by_address(u.subrange(0, next + 2)),
            decreases self.allocations@.len() - next,
        {
            let allocation: Allocation = self.allocations[next];
            assert(self.allocations@[next as int].end() <= u64::MAX);
            let window = Window {
                start: allocation.start,
                end: allocation.start + allocation.pages * 4096,
                memory_type: allocation.memory_type,
                attribute: WB,
            };
            proof {
                assert(u[next + 2] == allocated(self.allocations@)[next as int]);
                assert(u.subrange(0, next + 3).last() == window);
                assert(u.subrange(0, next + 3).drop_last() =~= u.subrange(0, next + 2));
            }
            place(&mut windows, window);
            next = next + 1;
        }
        assert(u.subrange(0, next + 2) =~= u);
        windows
    }

    /// The memory map as far as it can be reported.
    fn build_memory_map(&self) -> (out: Vec<Descriptor>)
        requires
            self.wf(),
        ensures
            out@ == self.map(),
    {
        let windows: Vec<Window> = self.windows_by_address();
        proof {
            self.lemma_windows();
            assert(windows@.subrange(0, 0) =~= Seq::<Window>::empty());
        }
        let mut out: Vec<Descriptor> = Vec::new();
        let base: u64 = self.layout.ram_base;
        let mut cursor: u64 = base;
        let mut next: usize = 0;
        assert(out@ =~= at_most(walked(windows@.subrange(0, 0), base), MAX_DESCRIPTORS as int));
        while next < windows.len()
            invariant
                next <= windows@.len(),
                chain(windows@),
                cursor == reach(windows@.subrange(0, next as int), base),
                out@ == at_most(
                    walked(windows@.subrange(0, next as int), base),
                    MAX_DESCRIPTORS as int,
                ),
            decreases windows@.len() - next,
        {
            let window: Window = windows[next];
            let ghost front = walked(windows@.subrange(0, next as int), base);
            let ghost gap = if window.start > cursor {
                described(cursor, window.start, CONVENTIONAL_MEMORY, WB)
            } else {
                Seq::empty()
            };
            proof {
                assert(windows@.subrange(0, next + 1).drop_last() =~= windows@.subrange(
                    0,
                    next as int,
                ));
                assert(windows@[next as int].start < windows@[next as int].end);
                assert(front + Seq::<Descriptor>::empty() =~= front);
            }
            if window.start > cursor {
                describe(&mut out, cursor, window.start, CONVENTIONAL_MEMORY, WB, Ghost(front));
            }
            describe(
                &mut out,
                window.start,
                window.end,
                window.memory_type,
                window.attribute,
                Ghost(front + gap),
            );
            if window.end > cursor {
                cursor = window.end;
            }
            next = next + 1;
        }
        proof {
            assert(windows@.subrange(0, next as int) =~= windows@);
            assert(walked(windows@, base) + Seq::<Descriptor>::empty() =~= walked(windows@, base));
        }
        if cursor < self.ram_end {
            describe(
                &mut out,
                cursor,
                self.ram_end,
                CONVENTIONAL_MEMORY,
                WB,
                Ghost(walked(windows@, base)),
            );
        }
        out
    }

    /// `GetMemoryMap`.
    ///
    /// Hands back the descriptors when the caller's buffer of `capacity` bytes
    /// fits them, and in any case the sizes and the key to hand
    /// `ExitBootServices`. `capacity` is `None` when the caller has no buffer.
    pub fn get_memory_map(&self, capacity: Option<usize>) -> (answer: MapAnswer)
        requires
            self.wf(),
        ensures
            answer.map_size == self.map().len() * 40,
            answer.map_key == self.map_key,
            answer.descriptor_size == DESCRIPTOR_SIZE,
            answer.descriptor_version == DESCRIPTOR_VERSION,
            match capacity {
                Some(capacity) if capacity >= self.map().len() * 40 => answer.status
                    == Status::Success && answer.descriptors@ == self.map(),
                _ => answer.status == Status::BufferTooSmall && answer.descriptors@.len() == 0,
            },
    {
        let descriptors: Vec<Descriptor> = self.build_memory_map();
        let needed: usize = descriptors.len() * DESCRIPTOR_SIZE;
        let fits: bool = match capacity {
            Some(capacity) => capacity >= needed,
            None => false,
        };
        if fits {
            MapAnswer {
                status: Status::Success,
                map_size: needed,
                map_key: self.map_key,
                descriptor_size: DESCRIPTOR_SIZE,
                descriptor_version: DESCRIPTOR_VERSION,
                descriptors,
            }
        } else {
            MapAnswer {
                status: Status::BufferTooSmall,
                map_size: needed,
                map_key: self.map_key,
                descriptor_size: DESCRIPTOR_SIZE,
                descriptor_version: DESCRIPTOR_VERSION,
                descriptors: Vec::new(),
            }
        }
    }

    /// The bytes `AllocatePool` takes from the heap for a block of `size` bytes:
    /// an 8-byte header, so `FreePool` can hand the same layout back, and the
    /// block. A layout cannot be larger than half the address space.
    pub fn pool_request(&self, size: u64) -> (bytes: Result<u64, Status>)
        requires
            size + 8 <= u64::MAX,
        ensures
            match bytes {
                Ok(bytes) => !self.ended && size <= 0x7fff_ffff_ffff_fff0 && bytes == size + 8,
                Err(status) => if self.ended {
                    status == Status::Unsupported
                } else {
                    status == Status::InvalidParameter && size > 0x7fff_ffff_ffff_fff0
                },
            },
    {
        if self.boot_services_ended() {
            return Err(Status::Unsupported);
        }
        if size + 8 > 0x7fff_ffff_ffff_fff8 {
            return Err(Status::InvalidParameter);
        }
        Ok(size + 8)
    }

    /// `AllocatePool`, with what the heap handed out for the request: the block
    /// the caller gets, past its header.
    pub fn allocate_pool(&mut self, size: u64, block: Option<u64>) -> (buffer: Result<u64, Status>)
        requires
            size + 8 <= u64::MAX,
            block matches Some(at) ==> at + 8 <= u64::MAX,
        ensures
            match buffer {
                Ok(buffer) => {
                    &&& !old(self).ended
                    &&& size <= 0x7fff_ffff_ffff_fff0
                    &&& block matches Some(at) && buffer == at + 8
                    &&& *final(self) == (Memory {
                        map_key: fresh_key(old(self).map_key),
                        ..*old(self)
                    })
                },
                Err(status) => {
                    &&& *final(self) == *old(self)
                    &&& if old(self).ended {
                        status == Status::Unsupported
                    } else if size > 0x7fff_ffff_ffff_fff0 {
                        status == Status::InvalidParameter
                    } else {
                        status == Status::OutOfResources && block is None
                    }
                },
            },
    {
        match self.pool_request(size) {
            Ok(_) => {},
            Err(status) => {
                return Err(status);
            },
        }
        match block {
            Some(at) => {
                self.touch_map();
                Ok(at + 8)
            },
            None => Err(Status::OutOfResources),
        }
    }

    /// `FreePool`: the heap block behind a buffer, and the bytes its header says
    /// were taken for it.
    pub fn free_pool(&mut self, buffer: u64, size: u64) -> (block: Result<(u64, u64), Status>)
        requires
            buffer >= 8,
            size + 8 <= u64::MAX,
        ensures
            match block {
                Ok((at, bytes)) => {
                    &&& size <= 0x7fff_ffff_ffff_fff0
                    &&& at == buffer - 8
                    &&& bytes == size + 8
                    &&& *final(self) == (Memory {
                        map_key: fresh_key(old(self).map_key),
                        ..*old(self)
                    })
                },
                Err(status) => size > 0x7fff_ffff_ffff_fff0 && status == Status::InvalidParameter
                    && *final(self) == *old(self),
            },
    {
        if size + 8 > 0x7fff_ffff_ffff_fff8 {
            return Err(Status::InvalidParameter);
        }
        self.touch_map();
        Ok((buffer - 8, size + 8))
    }

    /// Whether there is no run of `n` bytes to hand out.
    pub open spec fn lacks(&self, n: int) -> bool {
        self.ended || self.allocations@.len() >= MAX_ALLOCATIONS || forall|b: int|
            !#[trigger] self.usable(b, n, None)
    }

    /// Whether `after` is the state once a run was handed out: the lowest there is.
    pub open spec fn granted(&self, after: &Memory, run: Allocation) -> bool {
        &&& !self.ended
        &&& self.added(after, run)
        &&& self.usable(run.start as int, run.pages * 4096, None)
        &&& forall|b: int| b < run.start ==> !#[trigger] self.usable(b, run.pages * 4096, None)
    }

    /// `AllocatePages` for callers inside the firmware: where pages of the given
    /// type for `bytes` bytes are, or `None` when the pool is exhausted.
    pub fn pages_for(&mut self, memory_type: u32, bytes: u64) -> (address: Option<u64>)
        requires
            old(self).wf(),
            bytes <= u64::MAX - 4095,
        ensures
            final(self).wf(),
            ({
                let pages = ((bytes + 4095) / 4096) as u64;
                match address {
                    Some(a) => pages > 0 && old(self).granted(
                        final(self),
                        Allocation { start: a, pages, memory_type },
                    ),
                    None => *final(self) == *old(self) && (pages == 0 || old(self).lacks(
                        pages * 4096,
                    )),
                }
            }),
    {
        let pages: u64 = (bytes + 4095) / 4096;
        assert(ceiling_for(ALLOCATE_ANY_PAGES, 0) == None::<u64>);
        match self.allocate_pages(ALLOCATE_ANY_PAGES, memory_type, pages, 0) {
            Ok(address) => Some(address),
            Err(_) => None,
        }
    }
}

impl Memory {
    /// What may be handed out: `n` bytes are usable when none of them is the image's, the
    /// stack's, the heap's or an allocation's, all are in memory, and all are below the
    /// ceiling.
    pub proof fn law_usable_memory_is_nobodys(&self, start: int, n: int, ceiling: Option<u64>)
        requires
            self.wf(),
            n > 0,
        ensures
            self.usable(start, n, ceiling) <==> forall|a: int|
                start <= a < start + n ==> #[trigger] self.is_nobodys(a) && (ceiling matches Some(
                    c,
                ) ==> a < c),
    {
        let end = start + n;
        if self.usable(start, n, ceiling) {
            assert forall|a: int| start <= a < end implies #[trigger] self.is_nobodys(a) && (
            ceiling matches Some(c) ==> a < c) by {
                assert forall|i: int| 0 <= i < self.allocations@.len() implies !(
                (#[trigger] self.allocations@[i]).start <= a < self.allocations@[i].end()) by {
                    assert(!self.allocations@[i].overlaps(start, end));
                }
            }
        }
        if forall|a: int|
            start <= a < end ==> #[trigger] self.is_nobodys(a) && (ceiling matches Some(c) ==> a
                < c) {
            assert(self.is_nobodys(start));
            assert(self.is_nobodys(end - 1));
            if start < self.layout.heap_base < end {
                assert(self.is_nobodys(self.layout.heap_base as int));
            }
            assert forall|i: int| 0 <= i < self.allocations@.len() implies !(
            #[trigger] self.allocations@[i]).overlaps(start, end) by {
                let taken = self.allocations@[i];
                assert(taken.pages > 0);
                let a = if taken.start >= start {
                    taken.start as int
                } else {
                    start
                };
                if taken.overlaps(start, end) {
                    assert(self.is_nobodys(a));
                    assert(taken.start <= a < taken.end());
                }
            }
        }
    }

    /// Whether an address is memory that nobody has.
    pub open spec fn is_nobodys(&self, a: int) -> bool {
        &&& self.layout.stack_top <= a
        &&& a < self.layout.heap_base || self.layout.heap_base + self.layout.heap_size <= a
            < self.ram_end
        &&& forall|i: int|
            0 <= i < self.allocations@.len() ==> !((#[trigger] self.allocations@[i]).start <= a
                < self.allocations@[i].start + self.allocations@[i].pages * 4096)
    }
}

} // verus!
