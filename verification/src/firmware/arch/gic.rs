//! GICv2: the distributor, the CPU interface, and interrupt dispatch.
//!
//! One distributor for shared interrupts, one CPU interface per core for the
//! private ones, and single-register acknowledge and end-of-interrupt at the CPU
//! interface.
use crate::firmware::arch::timer::TIMER_IRQ;
use crate::firmware::platform::{GIC_CPU_BASE, GIC_DIST_BASE};
use vstd::prelude::*;

verus! {

pub const GICD_CTLR: u64 = 0x000;

pub const GICD_IGROUPR: u64 = 0x080;

pub const GICD_ISENABLER: u64 = 0x100;

pub const GICD_ISPENDR: u64 = 0x200;

pub const GICD_ICPENDR: u64 = 0x280;

pub const GICD_IPRIORITYR: u64 = 0x400;

pub const GICD_ITARGETSR: u64 = 0x800;

pub const GICC_CTLR: u64 = 0x0000;

pub const GICC_PMR: u64 = 0x0004;

pub const GICC_IAR: u64 = 0x000c;

pub const GICC_EOIR: u64 = 0x0010;

/// Interrupt IDs at or above this are not real interrupts: 1020 is "spurious",
/// 1022 and 1023 are the group signals.
pub const INTERRUPT_ID_LIMIT: u32 = 1020;

/// A register write.
#[derive(Clone, Copy, PartialEq, Eq, Structural, Debug)]
pub struct Write {
    pub address: u64,
    pub value: u32,
}

/// A write to the distributor.
pub open spec fn to_distributor(offset: int, value: u32) -> Write {
    Write { address: (GIC_DIST_BASE + offset) as u64, value }
}

/// A write to the CPU interface.
pub open spec fn to_cpu(offset: int, value: u32) -> Write {
    Write { address: (GIC_CPU_BASE + offset) as u64, value }
}

/// The offset of the register that has an interrupt's bit, thirty-two to a
/// register.
pub open spec fn word_of(id: u32) -> int {
    id / 32 * 4
}

/// The offset of the register that has an interrupt's byte, four to a register.
pub open spec fn byte_word_of(id: u32) -> int {
    id / 4 * 4
}

/// An interrupt's bit in its register.
pub open spec fn bit_of(id: u32) -> u32 {
    1u32 << (id % 32)
}

/// An interrupt's byte in its register, set for every core.
pub open spec fn target_of(id: u32) -> u32 {
    0xffu32 << (id % 4 * 8) as u32
}

/// The bits of those of a list of interrupts that share an interrupt's register.
pub open spec fn bits_beside(ids: Seq<u32>, id: u32) -> u32
    decreases ids.len(),
{
    if ids.len() == 0 {
        0
    } else if ids.last() / 32 == id / 32 {
        bits_beside(ids.drop_last(), id) | bit_of(ids.last())
    } else {
        bits_beside(ids.drop_last(), id)
    }
}

/// The target bytes of those of a list of interrupts that share an interrupt's
/// register.
pub open spec fn targets_beside(ids: Seq<u32>, id: u32) -> u32
    decreases ids.len(),
{
    if ids.len() == 0 {
        0
    } else if ids.last() / 4 == id / 4 {
        targets_beside(ids.drop_last(), id) | target_of(ids.last())
    } else {
        targets_beside(ids.drop_last(), id)
    }
}

/// The writes that enable the last of a list of interrupts, the others enabled.
/// Interrupts below 32 are private to the core: the target register does not
/// cover them, and a write there would hit the next interrupt's bits. A target
/// or a group is written together with those of the interrupts before it that
/// share the register. A stale pending state is cleared, so that enabling does
/// not deliver an interrupt the firmware never asked for.
pub open spec fn enabling(ids: Seq<u32>) -> Seq<Write> {
    let id = ids.last();
    (if id >= 32 {
        seq![
            to_distributor(GICD_ITARGETSR + byte_word_of(id), targets_beside(ids, id)),
            to_distributor(GICD_IGROUPR + word_of(id), bits_beside(ids, id)),
            to_distributor(GICD_IPRIORITYR + byte_word_of(id), 0),
        ]
    } else {
        Seq::empty()
    }) + seq![
        to_distributor(GICD_ISENABLER + word_of(id), bit_of(id)),
        to_distributor(GICD_ICPENDR + word_of(id), bit_of(id)),
    ]
}

/// The writes that enable each of a list of interrupts.
pub open spec fn enabling_all(ids: Seq<u32>) -> Seq<Write>
    decreases ids.len(),
{
    if ids.len() == 0 {
        Seq::empty()
    } else {
        enabling_all(ids.drop_last()) + enabling(ids)
    }
}

/// The writes that bring the controller up with some interrupts enabled: both
/// sides off, the interrupts, a priority mask that lets everything but the lowest
/// priorities through, and both sides on.
pub open spec fn bring_up(ids: Seq<u32>) -> Seq<Write> {
    seq![to_distributor(GICD_CTLR as int, 0), to_cpu(GICC_CTLR as int, 0)] + enabling_all(ids)
        + seq![
        to_cpu(GICC_PMR as int, 0xf0),
        to_cpu(GICC_CTLR as int, 1),
        to_distributor(GICD_CTLR as int, 1),
    ]
}

proof fn lemma_bits_stay(held: u32, more: u32, bit: u32)
    by (bit_vector)
    requires
        held & bit == bit,
    ensures
        (held | more) & bit == bit,
        (more | bit) & bit == bit,
{
}

/// Every interrupt of the list is in group 1 and has its target: enabling another
/// one that shares a register takes neither away.
pub proof fn law_every_interrupt_is_kept(ids: Seq<u32>, at: int, beside: u32)
    requires
        0 <= at < ids.len(),
    ensures
        ids[at] / 32 == beside / 32 ==> bits_beside(ids, beside) & bit_of(ids[at]) == bit_of(ids[at]),
        ids[at] / 4 == beside / 4 ==> targets_beside(ids, beside) & target_of(ids[at]) == target_of(
            ids[at],
        ),
    decreases ids.len(),
{
    let rest = ids.drop_last();
    if at < rest.len() {
        law_every_interrupt_is_kept(rest, at, beside);
        if ids[at] / 32 == beside / 32 {
            lemma_bits_stay(bits_beside(rest, beside), bit_of(ids.last()), bit_of(ids[at]));
        }
        if ids[at] / 4 == beside / 4 {
            lemma_bits_stay(targets_beside(rest, beside), target_of(ids.last()), target_of(ids[at]));
        }
    } else {
        let bit = bit_of(ids[at]);
        let target = target_of(ids[at]);
        assert(bit & bit == bit) by (bit_vector);
        assert(target & target == target) by (bit_vector);
        lemma_bits_stay(bit, bits_beside(rest, beside), bit);
        lemma_bits_stay(target, targets_beside(rest, beside), target);
    }
}

fn dist_write(out: &mut Vec<Write>, offset: u64, value: u32)
    requires
        offset <= 0x2_0000_0000,
    ensures
        final(out)@ == old(out)@.push(to_distributor(offset as int, value)),
{
    out.push(Write { address: GIC_DIST_BASE + offset, value });
}

fn cpu_write(out: &mut Vec<Write>, offset: u64, value: u32)
    requires
        offset <= 0x1000,
    ensures
        final(out)@ == old(out)@.push(to_cpu(offset as int, value)),
{
    out.push(Write { address: GIC_CPU_BASE + offset, value });
}

/// The bits and the target bytes of those of the first interrupts of a list that
/// share an interrupt's registers.
fn beside(interrupts: &[u32], count: usize, id: u32) -> (shared: (u32, u32))
    requires
        count <= interrupts@.len(),
    ensures
        shared.0 == bits_beside(interrupts@.subrange(0, count as int), id),
        shared.1 == targets_beside(interrupts@.subrange(0, count as int), id),
{
    let mut bits: u32 = 0;
    let mut targets: u32 = 0;
    let mut next: usize = 0;
    while next < count
        invariant
            next <= count <= interrupts@.len(),
            bits == bits_beside(interrupts@.subrange(0, next as int), id),
            targets == targets_beside(interrupts@.subrange(0, next as int), id),
        decreases count - next,
    {
        let other: u32 = interrupts[next];
        proof {
            let more = interrupts@.subrange(0, next + 1);
            assert(more.drop_last() =~= interrupts@.subrange(0, next as int));
            assert(more.last() == other);
        }
        if other / 32 == id / 32 {
            bits = bits | (1u32 << (other % 32));
        }
        if other / 4 == id / 4 {
            targets = targets | (0xffu32 << (other % 4 * 8));
        }
        next = next + 1;
    }
    (bits, targets)
}

fn enable(out: &mut Vec<Write>, interrupts: &[u32], at: usize)
    requires
        at < interrupts@.len(),
    ensures
        final(out)@ == old(out)@ + enabling(interrupts@.subrange(0, at + 1)),
{
    let id: u32 = interrupts[at];
    let (bits, targets): (u32, u32) = beside(interrupts, at + 1, id);
    let word: u64 = id as u64 / 32 * 4;
    let byte_word: u64 = id as u64 / 4 * 4;
    assert(interrupts@.subrange(0, at + 1).last() == id);
    if id >= 32 {
        dist_write(out, GICD_ITARGETSR + byte_word, targets);
        dist_write(out, GICD_IGROUPR + word, bits);
        dist_write(out, GICD_IPRIORITYR + byte_word, 0);
    }
    dist_write(out, GICD_ISENABLER + word, 1u32 << (id % 32));
    dist_write(out, GICD_ICPENDR + word, 1u32 << (id % 32));
    assert(out@ =~= old(out)@ + enabling(interrupts@.subrange(0, at + 1)));
}

/// Brings the distributor and this core's CPU interface up and enables the given
/// interrupt IDs: the register writes that do, in order.
pub fn init(interrupts: &[u32]) -> (writes: Vec<Write>)
    ensures
        writes@ == bring_up(interrupts@),
{
    let mut writes: Vec<Write> = Vec::new();
    dist_write(&mut writes, GICD_CTLR, 0);
    cpu_write(&mut writes, GICC_CTLR, 0);
    let ghost start = writes@;
    assert(start =~= seq![to_distributor(GICD_CTLR as int, 0), to_cpu(GICC_CTLR as int, 0)]);
    let mut next: usize = 0;
    assert(interrupts@.subrange(0, 0) =~= Seq::<u32>::empty());
    while next < interrupts.len()
        invariant
            next <= interrupts@.len(),
            writes@ == start + enabling_all(interrupts@.subrange(0, next as int)),
        decreases interrupts@.len() - next,
    {
        proof {
            let more = interrupts@.subrange(0, next + 1);
            assert(more.drop_last() =~= interrupts@.subrange(0, next as int));
        }
        enable(&mut writes, interrupts, next);
        assert(writes@ =~= start + enabling_all(interrupts@.subrange(0, next + 1)));
        next = next + 1;
    }
    assert(interrupts@.subrange(0, next as int) =~= interrupts@);
    cpu_write(&mut writes, GICC_PMR, 0xf0);
    cpu_write(&mut writes, GICC_CTLR, 1);
    dist_write(&mut writes, GICD_CTLR, 1);
    assert(writes@ =~= bring_up(interrupts@));
    writes
}

/// What an interrupt asks for: whether it is the timer's, and the write that
/// signals its end.
#[derive(Clone, Copy, PartialEq, Eq, Structural, Debug)]
pub struct Dispatch {
    pub timer: bool,
    pub end: Write,
}

/// Dispatches an interrupt that was acknowledged; nothing is done for one that is
/// not real.
pub fn handle_irq(acknowledge: u32) -> (dispatch: Option<Dispatch>)
    ensures
        match dispatch {
            None => acknowledge % 1024 >= INTERRUPT_ID_LIMIT,
            Some(dispatch) => acknowledge % 1024 < INTERRUPT_ID_LIMIT && dispatch == (Dispatch {
                timer: acknowledge % 1024 == TIMER_IRQ,
                end: to_cpu(GICC_EOIR as int, acknowledge),
            }),
        },
{
    let id: u32 = acknowledge % 1024;
    if id >= INTERRUPT_ID_LIMIT {
        return None;
    }
    Some(
        Dispatch {
            timer: id == TIMER_IRQ,
            end: Write { address: GIC_CPU_BASE + GICC_EOIR, value: acknowledge },
        },
    )
}

/// Where the pending bit of an interrupt is.
pub fn pending_register(id: u32) -> (address: u64)
    ensures
        address == GIC_DIST_BASE + GICD_ISPENDR + word_of(id),
{
    GIC_DIST_BASE + GICD_ISPENDR + id as u64 / 32 * 4
}

/// Whether the interrupt is pending, by the register that has its bit. Used by
/// drivers that prefer to poll.
pub fn is_pending(id: u32, register: u32) -> (pending: bool)
    ensures
        pending == (register & (1u32 << (id % 32)) != 0),
{
    register & (1u32 << (id % 32)) != 0
}

proof fn lemma_one_bit(n: u32, k: u32)
    requires
        n < 32,
        k < 32,
    ensures
        ((1u32 << n) >> k) & 1 == (if n == k {
            1u32
        } else {
            0u32
        }),
{
    assert(((1u32 << n) >> k) & 1 == (if n == k {
        1u32
    } else {
        0u32
    })) by (bit_vector)
        requires
            n < 32,
            k < 32,
    ;
}

/// The bits of a register are those of the interrupts in the list that share it, and no other.
pub proof fn law_no_other_interrupt_is_touched(ids: Seq<u32>, beside: u32, k: u32)
    requires
        k < 32,
    ensures
        (bits_beside(ids, beside) >> k) & 1 == 1 <==> exists|i: int|
            0 <= i < ids.len() && (#[trigger] ids[i]) / 32 == beside / 32 && ids[i] % 32 == k,
    decreases ids.len(),
{
    let bits = bits_beside(ids, beside);
    if ids.len() == 0 {
        assert((0u32 >> k) & 1 == 0) by (bit_vector);
    } else {
        let front = ids.drop_last();
        let last = ids.last();
        let held = bits_beside(front, beside);
        let bit = bit_of(last);
        law_no_other_interrupt_is_touched(front, beside, k);
        lemma_one_bit(last % 32, k);
        assert(((held | bit) >> k) & 1 == 1 <==> (held >> k) & 1 == 1 || (bit >> k) & 1 == 1)
            by (bit_vector);
        if exists|i: int|
            0 <= i < front.len() && (#[trigger] front[i]) / 32 == beside / 32 && front[i] % 32 == k {
            let i = choose|i: int|
                0 <= i < front.len() && (#[trigger] front[i]) / 32 == beside / 32 && front[i] % 32
                    == k;
            assert(ids[i] == front[i]);
        }
        if exists|i: int|
            0 <= i < ids.len() && (#[trigger] ids[i]) / 32 == beside / 32 && ids[i] % 32 == k {
            let i = choose|i: int|
                0 <= i < ids.len() && (#[trigger] ids[i]) / 32 == beside / 32 && ids[i] % 32 == k;
            if i < front.len() {
                assert(front[i] == ids[i]);
            }
        }
        assert(ids[ids.len() - 1] == last);
    }
}

/// Bringing the controller up turns both sides off before and on after everything else, and
/// enables every interrupt of the list: its bit is written to its enable register, and then to
/// the register that clears what is pending.
pub proof fn law_every_interrupt_is_enabled(ids: Seq<u32>, at: int)
    requires
        0 <= at < ids.len(),
        ids.len() < 0x1000_0000,
    ensures
        ({
            let w = bring_up(ids);
            let n = w.len() as int;
            let id = ids[at];
            &&& n >= 5
            &&& w[0] == (Write { address: GIC_DIST_BASE, value: 0 })
            &&& w[1] == (Write { address: GIC_CPU_BASE, value: 0 })
            &&& w[n - 3] == (Write { address: (GIC_CPU_BASE + 4) as u64, value: 0xf0 })
            &&& w[n - 2] == (Write { address: GIC_CPU_BASE, value: 1 })
            &&& w[n - 1] == (Write { address: GIC_DIST_BASE, value: 1 })
            &&& exists|j: int|
                2 <= j < n - 4 && #[trigger] w[j] == (Write {
                    address: (GIC_DIST_BASE + 0x100 + id / 32 * 4) as u64,
                    value: 1u32 << (id % 32),
                }) && w[j + 1] == (Write {
                    address: (GIC_DIST_BASE + 0x280 + id / 32 * 4) as u64,
                    value: 1u32 << (id % 32),
                })
        }),
{
    let w = bring_up(ids);
    let all = enabling_all(ids);
    lemma_enabled(ids, at);
    let id = ids[at];
    let j = choose|j: int|
        0 <= j < all.len() - 1 && #[trigger] all[j] == to_distributor(
            GICD_ISENABLER + word_of(id),
            bit_of(id),
        ) && all[j + 1] == to_distributor(GICD_ICPENDR + word_of(id), bit_of(id));
    assert(w[j + 2] == all[j] && w[j + 3] == all[j + 1]);
}

proof fn lemma_enabled(ids: Seq<u32>, at: int)
    requires
        0 <= at < ids.len(),
    ensures
        exists|j: int|
            0 <= j < enabling_all(ids).len() - 1 && #[trigger] enabling_all(ids)[j]
                == to_distributor(GICD_ISENABLER + word_of(ids[at]), bit_of(ids[at]))
                && enabling_all(ids)[j + 1] == to_distributor(
                GICD_ICPENDR + word_of(ids[at]),
                bit_of(ids[at]),
            ),
    decreases ids.len(),
{
    let front = ids.drop_last();
    let all = enabling_all(ids);
    let before = enabling_all(front);
    let id = ids[at];
    let enabled = to_distributor(GICD_ISENABLER + word_of(id), bit_of(id));
    let cleared = to_distributor(GICD_ICPENDR + word_of(id), bit_of(id));
    if at < front.len() {
        lemma_enabled(front, at);
        assert(front[at] == id);
        let j = choose|j: int|
            0 <= j < before.len() - 1 && #[trigger] before[j] == enabled && before[j + 1] == cleared;
        assert(all[j] == before[j] && all[j + 1] == before[j + 1]);
    } else {
        let j = all.len() - 2;
        assert(all[j] == enabled && all[j + 1] == cleared);
    }
}

proof fn lemma_one_byte(n: u32, k: u32)
    requires
        n < 4,
        k < 4,
    ensures
        ((0xffu32 << (n * 8) as u32) >> (k * 8) as u32) & 0xff == (if n == k {
            0xffu32
        } else {
            0u32
        }),
{
    let x: u32 = (n * 8) as u32;
    let y: u32 = (k * 8) as u32;
    assert(((0xffu32 << x) >> y) & 0xff == (if x == y {
        0xffu32
    } else {
        0u32
    })) by (bit_vector)
        requires
            x == 0 || x == 8 || x == 16 || x == 24,
            y == 0 || y == 8 || y == 16 || y == 24,
    ;
}

/// The bytes of a target register are those of the interrupts in the list that share it, set
/// for every core, and no other.
pub proof fn law_no_other_target_is_set(ids: Seq<u32>, beside: u32, k: u32)
    requires
        k < 4,
    ensures
        ({
            let byte = (targets_beside(ids, beside) >> (k * 8) as u32) & 0xff;
            let shared = exists|i: int|
                0 <= i < ids.len() && (#[trigger] ids[i]) / 4 == beside / 4 && ids[i] % 4 == k;
            byte == (if shared {
                0xffu32
            } else {
                0u32
            })
        }),
    decreases ids.len(),
{
    let y: u32 = (k * 8) as u32;
    if ids.len() == 0 {
        assert((0u32 >> y) & 0xff == 0) by (bit_vector);
    } else {
        let front = ids.drop_last();
        let last = ids.last();
        let held = targets_beside(front, beside);
        let target = target_of(last);
        law_no_other_target_is_set(front, beside, k);
        lemma_one_byte(last % 4, k);
        assert(((held | target) >> y) & 0xff == ((held >> y) & 0xff) | ((target >> y) & 0xff))
            by (bit_vector);
        let (a, b) = ((held >> y) & 0xff, (target >> y) & 0xff);
        assert(a | 0xff == 0xff && a | 0 == a) by (bit_vector)
            requires
                a <= 0xff,
        ;
        assert((held >> y) & 0xff <= 0xff) by (bit_vector);
        if exists|i: int|
            0 <= i < front.len() && (#[trigger] front[i]) / 4 == beside / 4 && front[i] % 4 == k {
            let i = choose|i: int|
                0 <= i < front.len() && (#[trigger] front[i]) / 4 == beside / 4 && front[i] % 4
                    == k;
            assert(ids[i] == front[i]);
        }
        if exists|i: int|
            0 <= i < ids.len() && (#[trigger] ids[i]) / 4 == beside / 4 && ids[i] % 4 == k {
            let i = choose|i: int|
                0 <= i < ids.len() && (#[trigger] ids[i]) / 4 == beside / 4 && ids[i] % 4 == k;
            if i < front.len() {
                assert(front[i] == ids[i]);
            }
        }
        assert(ids[ids.len() - 1] == last);
    }
}

proof fn lemma_routed(ids: Seq<u32>, at: int)
    requires
        0 <= at < ids.len(),
        ids[at] >= 32,
    ensures
        ({
            let w = enabling_all(ids);
            let upto = ids.take(at + 1);
            let id = ids[at];
            exists|j: int|
                0 <= j < w.len() - 2 && #[trigger] w[j] == to_distributor(
                    GICD_ITARGETSR + byte_word_of(id),
                    targets_beside(upto, id),
                ) && w[j + 1] == to_distributor(
                    GICD_IGROUPR + word_of(id),
                    bits_beside(upto, id),
                ) && w[j + 2] == to_distributor(GICD_IPRIORITYR + byte_word_of(id), 0)
        }),
    decreases ids.len(),
{
    let front = ids.drop_last();
    let w = enabling_all(ids);
    let before = enabling_all(front);
    let id = ids[at];
    let upto = ids.take(at + 1);
    let first = to_distributor(GICD_ITARGETSR + byte_word_of(id), targets_beside(upto, id));
    let second = to_distributor(GICD_IGROUPR + word_of(id), bits_beside(upto, id));
    let third = to_distributor(GICD_IPRIORITYR + byte_word_of(id), 0);
    if at < front.len() {
        lemma_routed(front, at);
        assert(front[at] == id);
        assert(front.take(at + 1) =~= upto);
        let j = choose|j: int|
            0 <= j < before.len() - 2 && #[trigger] before[j] == first && before[j + 1] == second
                && before[j + 2] == third;
        assert(w[j] == before[j] && w[j + 1] == before[j + 1] && w[j + 2] == before[j + 2]);
    } else {
        assert(upto =~= ids);
        let j = before.len() as int;
        assert(w[j] == first && w[j + 1] == second && w[j + 2] == third);
    }
}

/// Every shared interrupt of the list is routed to the cores, put into group 1 and given the
/// highest priority, and the others before it that share its registers with it.
pub proof fn law_shared_interrupts_are_routed(ids: Seq<u32>, at: int)
    requires
        0 <= at < ids.len(),
        ids[at] >= 32,
    ensures
        ({
            let w = bring_up(ids);
            let upto = ids.take(at + 1);
            let id = ids[at];
            exists|j: int|
                2 <= j < w.len() - 5 && #[trigger] w[j] == (Write {
                    address: (GIC_DIST_BASE + 0x800 + id / 4 * 4) as u64,
                    value: targets_beside(upto, id),
                }) && w[j + 1] == (Write {
                    address: (GIC_DIST_BASE + 0x80 + id / 32 * 4) as u64,
                    value: bits_beside(upto, id),
                }) && w[j + 2] == (Write {
                    address: (GIC_DIST_BASE + 0x400 + id / 4 * 4) as u64,
                    value: 0,
                })
        }),
{
    let w = bring_up(ids);
    let all = enabling_all(ids);
    let upto = ids.take(at + 1);
    let id = ids[at];
    lemma_routed(ids, at);
    let j = choose|j: int|
        0 <= j < all.len() - 2 && #[trigger] all[j] == to_distributor(
            GICD_ITARGETSR + byte_word_of(id),
            targets_beside(upto, id),
        ) && all[j + 1] == to_distributor(GICD_IGROUPR + word_of(id), bits_beside(upto, id)) && all[j
            + 2] == to_distributor(GICD_IPRIORITYR + byte_word_of(id), 0);
    assert(w[j + 2] == all[j] && w[j + 3] == all[j + 1] && w[j + 4] == all[j + 2]);
}

} // verus!
