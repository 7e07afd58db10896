//! The architectured timer: the counter and its frequency, and the EL1 physical
//! timer.
//!
//! The counter is what the firmware measures time with (`Stall`, event deadlines),
//! and the EL1 physical timer's interrupt is what drives periodic work.
use vstd::prelude::*;

verus! {

/// The EL1 physical timer's interrupt: PPI 14.
pub const TIMER_IRQ: u32 = 30;

/// The timer: the counter's frequency in Hz, and the interrupts taken since reset.
pub struct Timer {
    pub frequency: u64,
    pub taken: u64,
}

/// A wait that has begun: the counter when it did, and how many ticks it takes.
#[derive(Clone, Copy, PartialEq, Eq, Structural, Debug)]
pub struct Stall {
    pub start: u64,
    pub ticks: u64,
}

/// How far a counter that wraps has come since it read `start`.
pub open spec fn elapsed(start: u64, now: u64) -> int {
    if now >= start {
        now - start
    } else {
        now - start + 0x1_0000_0000_0000_0000
    }
}

impl Timer {
    pub fn new(frequency: u64) -> (timer: Timer)
        ensures
            timer.frequency == frequency,
            timer.taken == 0,
    {
        Timer { frequency, taken: 0 }
    }

    /// The timer's period: ten milliseconds, the tick event timers are checked
    /// against.
    pub fn period_ticks(&self) -> (ticks: u64)
        ensures
            ticks == self.frequency / 100,
    {
        self.frequency / 100
    }

    /// The number of timer interrupts taken so far.
    pub fn ticks(&self) -> (ticks: u64)
        ensures
            ticks == self.taken,
    {
        self.taken
    }

    /// Converts a duration in nanoseconds to counter ticks.
    pub fn ticks_from_ns(&self, ns: u64) -> (ticks: u64)
        requires
            ns * self.frequency <= u64::MAX,
        ensures
            ticks == ns * self.frequency / 1_000_000_000,
    {
        (ns * self.frequency) / 1_000_000_000
    }

    /// Counts the tick, and gives the period the timer is armed for again.
    /// Re-arming from a fixed period, rather than from the moment the handler
    /// runs, keeps the period independent of how late the handler was.
    pub fn on_irq(&mut self, period_ticks: u64) -> (armed: u64)
        ensures
            final(self).frequency == old(self).frequency,
            final(self).taken == (old(self).taken + 1) % 0x1_0000_0000_0000_0000,
            armed == period_ticks,
    {
        self.taken = if self.taken == u64::MAX {
            0
        } else {
            self.taken + 1
        };
        period_ticks
    }

    /// The system counter expressed in the specification's 100 ns units: the unit
    /// every EFI timer deadline is in.
    pub fn now_100ns(&self, counter: u64) -> (now: u64)
        requires
            self.frequency > 0,
        ensures
            now == counter * 10_000_000 % 0x1_0000_0000_0000_0000 / self.frequency as int,
    {
        let product: u128 = counter as u128 * 10_000_000;
        (product % 0x1_0000_0000_0000_0000) as u64 / self.frequency
    }

    /// Begins a busy-wait of a number of microseconds, for `Stall`; nothing is
    /// waited for zero.
    pub fn stall_microseconds(&self, microseconds: u64, counter: u64) -> (stall: Option<Stall>)
        requires
            microseconds * self.frequency <= u64::MAX,
        ensures
            match stall {
                None => microseconds == 0,
                Some(stall) => microseconds > 0 && stall.start == counter && stall.ticks
                    == microseconds * self.frequency / 1_000_000,
            },
    {
        if microseconds == 0 {
            return None;
        }
        Some(Stall { start: counter, ticks: microseconds * self.frequency / 1_000_000 })
    }
}

impl Stall {
    /// Whether the wait is over.
    pub fn is_over(&self, counter: u64) -> (over: bool)
        ensures
            over == (elapsed(self.start, counter) >= self.ticks),
    {
        counter.wrapping_sub(self.start) >= self.ticks
    }
}

} // verus!
