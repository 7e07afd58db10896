//! The GICv3 state a firmware has to leave behind for the DXE core.
//!
//! The core brings the interrupt controller up itself, but it expects to be handed
//! a machine whose timer ticks. So this does the minimum to make the timer's
//! interrupt reachable, and no more: the redistributor's frame for *this* core,
//! found by matching its affinity, with the timer's private interrupt given a
//! priority and enabled; the CPU interface; and group 1 interrupts enabled.
use crate::firmware::platform::GIC_REDIST_BASE;
use vstd::prelude::*;

verus! {

/// The EL1 physical timer's interrupt, as a private interrupt on this core.
pub const TIMER_PPI: u32 = 30;

/// A priority that is not the lowest and not the highest.
pub const TIMER_PRIORITY: u8 = 0xa0;

/// Accept every priority below this.
pub const PRIORITY_MASK: u64 = 0xf0;

/// How many redistributors are looked at.
pub const MAX_FRAMES: u32 = 64;

/// The affinity fields of an identity.
pub const AFFINITY: u64 = 0xff_00ff_ffff;

/// Whether a redistributor's type register is that of a core.
pub open spec fn is_mine(typer: u64, mpidr: u64) -> bool {
    (typer >> 32) & AFFINITY == mpidr & AFFINITY
}

/// Whether a redistributor is the last one.
pub open spec fn is_last(typer: u64) -> bool {
    typer / 16 % 2 == 1
}

/// How far the next redistributor is: two frames per core, or four where the core
/// supports virtual interrupts.
pub open spec fn stride(typer: u64) -> int {
    if typer / 2 % 2 == 1 {
        0x4_0000
    } else {
        0x2_0000
    }
}

/// The redistributor of a core among those from a frame on, by their type
/// registers; the first one when none matches.
pub open spec fn found_from(typers: Map<int, u64>, mpidr: u64, frame: int, left: nat) -> int
    decreases left,
{
    if left == 0 {
        GIC_REDIST_BASE as int
    } else if is_mine(typers[frame], mpidr) {
        frame
    } else if is_last(typers[frame]) {
        GIC_REDIST_BASE as int
    } else {
        found_from(typers, mpidr, frame + stride(typers[frame]), (left - 1) as nat)
    }
}

/// A search for a core's redistributor: the frame whose type register is read
/// next, and how many more are looked at.
pub struct Search {
    pub frame: u64,
    pub left: u32,
    pub mpidr: u64,
}

/// What a search comes to next.
#[derive(Clone, Copy, PartialEq, Eq, Structural, Debug)]
pub enum Step {
    /// The frame was found.
    Found(u64),
    /// Another type register has to be read.
    Again,
}

impl Search {
    /// What a search keeps to: it stays below the frames it could reach.
    pub open spec fn wf(&self) -> bool {
        &&& 1 <= self.left <= MAX_FRAMES
        &&& self.frame <= GIC_REDIST_BASE + (MAX_FRAMES - self.left) * 0x4_0000
    }

    /// What the search finds, when the type registers are these.
    pub open spec fn finds(&self, typers: Map<int, u64>) -> int {
        found_from(typers, self.mpidr, self.frame as int, self.left as nat)
    }

    pub fn start(mpidr: u64) -> (search: Search)
        ensures
            search.wf(),
            search.frame == GIC_REDIST_BASE,
            search.left == MAX_FRAMES,
            search.mpidr == mpidr,
    {
        Search { frame: GIC_REDIST_BASE, left: MAX_FRAMES, mpidr }
    }

    /// Where the type register that is read next is.
    pub fn typer_address(&self) -> (address: u64)
        requires
            self.wf(),
        ensures
            address == self.frame + 8,
    {
        self.frame + 8
    }

    /// Takes the type register that was read.
    pub fn step(&mut self, typer: u64) -> (step: Step)
        requires
            old(self).wf(),
        ensures
            match step {
                Step::Found(_) => *final(self) == *old(self),
                Step::Again => {
                    &&& final(self).wf()
                    &&& final(self).mpidr == old(self).mpidr
                    &&& final(self).left == old(self).left - 1
                    &&& final(self).frame == old(self).frame + (if typer / 2 % 2 == 1 {
                        0x4_0000int
                    } else {
                        0x2_0000
                    })
                },
            },
            forall|typers: Map<int, u64>|
                typers[old(self).frame as int] == typer ==> #[trigger] old(self).finds(typers)
                    == match step {
                    Step::Found(frame) => frame as int,
                    Step::Again => final(self).finds(typers),
                },
    {
        if (typer >> 32) & AFFINITY == self.mpidr & AFFINITY {
            return Step::Found(self.frame);
        }
        if typer / 16 % 2 == 1 || self.left == 1 {
            proof {
                reveal_with_fuel(found_from, 2);
            }
            return Step::Found(GIC_REDIST_BASE);
        }
        self.frame = self.frame + if typer / 2 % 2 == 1 {
            0x4_0000
        } else {
            0x2_0000
        };
        self.left = self.left - 1;
        Step::Again
    }
}

/// What brings the timer's interrupt up, once the frame is known: the timer's
/// priority byte and its enable bit in the second frame of the pair, and the CPU
/// interface's three registers.
#[derive(Clone, Copy, PartialEq, Eq, Structural, Debug)]
pub struct BringUp {
    pub priority_address: u64,
    pub priority: u8,
    pub enable_address: u64,
    pub enable: u32,
    pub icc_sre: u64,
    pub icc_pmr: u64,
    pub icc_igrpen1: u64,
}

/// Brings up as much of the interrupt controller as the firmware's handover needs.
pub fn init(redistributor: u64) -> (plan: BringUp)
    requires
        redistributor <= u64::MAX - 0x2_0000,
    ensures
        plan == (BringUp {
            priority_address: (redistributor + 0x1_0000 + 0x400 + TIMER_PPI) as u64,
            priority: TIMER_PRIORITY,
            enable_address: (redistributor + 0x1_0000 + 0x100) as u64,
            enable: 0x4000_0000,
            icc_sre: 7,
            icc_pmr: PRIORITY_MASK,
            icc_igrpen1: 1,
        }),
{
    let sgi: u64 = redistributor + 0x1_0000;
    BringUp {
        priority_address: sgi + 0x400 + TIMER_PPI as u64,
        priority: TIMER_PRIORITY,
        enable_address: sgi + 0x100,
        enable: 0x4000_0000,
        icc_sre: 7,
        icc_pmr: PRIORITY_MASK,
        icc_igrpen1: 1,
    }
}

/// The frame `k` steps behind another, by what the type registers say.
pub open spec fn frame_behind(typers: Map<int, u64>, frame: int, k: nat) -> int
    decreases k,
{
    if k == 0 {
        frame
    } else {
        frame_behind(typers, frame + stride(typers[frame]), (k - 1) as nat)
    }
}

/// The search finds the first frame of the core: the one `k` steps on, when none before it is
/// the core's or the last. Where there is no such frame it is the first of all.
pub proof fn law_first_frame_of_the_core_is_found(
    typers: Map<int, u64>,
    mpidr: u64,
    frame: int,
    left: nat,
    k: nat,
)
    requires
        k <= left,
        forall|j: nat|
            j < k ==> !is_mine(typers[#[trigger] frame_behind(typers, frame, j)], mpidr)
                && !is_last(typers[frame_behind(typers, frame, j)]),
        k < left ==> is_mine(typers[frame_behind(typers, frame, k)], mpidr) || is_last(
            typers[frame_behind(typers, frame, k)],
        ),
    ensures
        found_from(typers, mpidr, frame, left) == (if k < left && is_mine(
            typers[frame_behind(typers, frame, k)],
            mpidr,
        ) {
            frame_behind(typers, frame, k)
        } else {
            GIC_REDIST_BASE as int
        }),
    decreases left,
{
    if left > 0 && k > 0 {
        assert(frame_behind(typers, frame, 0) == frame);
        let next = frame + stride(typers[frame]);
        assert forall|j: nat| j < k - 1 implies !is_mine(
            typers[#[trigger] frame_behind(typers, next, j)],
            mpidr,
        ) && !is_last(typers[frame_behind(typers, next, j)]) by {
            assert(frame_behind(typers, frame, j + 1) == frame_behind(typers, next, j));
        }
        assert(frame_behind(typers, frame, k) == frame_behind(typers, next, (k - 1) as nat));
        law_first_frame_of_the_core_is_found(typers, mpidr, next, (left - 1) as nat, (k - 1) as nat);
    }
}

} // verus!
