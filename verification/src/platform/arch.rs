//! The architectural protocols a platform is expected to produce: timer, metronome
//! and watchdog.
//!
//! Without these, timer events never fire (so `WaitForEvent` on a timer blocks
//! forever), `Stall` is not ready, and `SetWatchdogTimer` fails.
//!
//! * Timer: the EL1 physical timer, PPI 14 (interrupt ID 30) on QEMU `virt`.
//! * Metronome: a busy-wait on the system counter, in 100 ns ticks.
//! * Watchdog: accepted and remembered, never fired.
use crate::status::Status;
use crate::text::{decimal_text, push_decimal};
use vstd::prelude::*;

verus! {

/// The EL1 physical timer's interrupt ID on QEMU `virt`: PPI 14.
pub const TIMER_INTERRUPT: u64 = 30;

/// The period the timer starts with: 10 ms, in 100 ns units.
pub const DEFAULT_PERIOD: u64 = 100_000;

/// The metronome's tick, in 100 ns units.
pub const TICK_PERIOD: u32 = 1;

/// Counter ticks in `units` of 100 ns, at a frequency in Hz.
pub open spec fn ticks_in(units: u64, frequency: u64) -> u64 {
    ((units * frequency / 10_000_000) % 0x1_0000_0000_0000_0000) as u64
}

/// Counter ticks in `units` of 100 ns.
pub fn counter_ticks(units: u64, frequency: u64) -> (ticks: u64)
    ensures
        ticks == ticks_in(units, frequency),
{
    proof {
        assert(units * frequency <= 0xffff_ffff_ffff_ffff * 0xffff_ffff_ffff_ffff)
            by (nonlinear_arith)
            requires
                units <= 0xffff_ffff_ffff_ffff,
                frequency <= 0xffff_ffff_ffff_ffff,
        ;
    }
    let product: u128 = units as u128 * frequency as u128;
    ((product / 10_000_000) % 0x1_0000_0000_0000_0000) as u64
}

/// What is done to the EL1 physical timer.
#[derive(Clone, Copy, PartialEq, Eq, Structural, Debug)]
pub enum Timer {
    /// It fires after so many counter ticks.
    Arm(u64),
    /// It is off.
    Disarm,
}

/// What a period does to the timer: zero turns it off, and any other has it fire
/// after as many ticks as its register holds, at least one.
pub open spec fn timer_for(period: u64, frequency: u64) -> Timer {
    let ticks = ticks_in(period, frequency);
    if period == 0 {
        Timer::Disarm
    } else if ticks < 1 {
        Timer::Arm(1)
    } else if ticks > u32::MAX {
        Timer::Arm(u32::MAX as u64)
    } else {
        Timer::Arm(ticks)
    }
}

/// Arms the timer to fire `units` of 100 ns from now, or turns it off.
fn arm(period: u64, frequency: u64) -> (timer: Timer)
    ensures
        timer == timer_for(period, frequency),
{
    if period == 0 {
        return Timer::Disarm;
    }
    let ticks: u64 = counter_ticks(period, frequency);
    if ticks < 1 {
        Timer::Arm(1)
    } else if ticks > u32::MAX as u64 {
        Timer::Arm(u32::MAX as u64)
    } else {
        Timer::Arm(ticks)
    }
}

/// A tick handler that is to be called, and with what period.
#[derive(Clone, Copy, PartialEq, Eq, Structural, Debug)]
pub struct Tick {
    pub handler: u64,
    pub period: u64,
}

/// What a timer interrupt does, in this order: the timer is set for the next period,
/// the interrupt is ended where there is a controller, and the core's handler runs.
///
/// The handler restores the TPL, which re-enables interrupts, and a level interrupt
/// still asserted then would re-enter.
#[derive(Clone, Copy, PartialEq, Eq, Structural, Debug)]
pub struct Interrupt {
    pub timer: Timer,
    pub end_of: Option<u64>,
    pub tick: Option<Tick>,
}

/// The state behind the three protocols.
#[derive(Clone, Copy, PartialEq, Eq, Structural, Debug)]
pub struct Arch {
    /// The interrupt controller, where it was located.
    pub interrupts: Option<u64>,
    /// The core's tick handler, as a function address; zero when none is set.
    pub notify: u64,
    /// The current period in 100 ns units; zero means the timer is off.
    pub period: u64,
    pub watchdog_period: u64,
}

impl Arch {
    pub fn new() -> (arch: Arch)
        ensures
            arch == (Arch { interrupts: None, notify: 0, period: 0, watchdog_period: 0 }),
    {
        Arch { interrupts: None, notify: 0, period: 0, watchdog_period: 0 }
    }

    /// The call of the tick handler, if one is set.
    pub open spec fn tick(self, period: u64) -> Option<Tick> {
        if self.notify == 0 {
            None
        } else {
            Some(Tick { handler: self.notify, period })
        }
    }

    fn notify(&self, period: u64) -> (tick: Option<Tick>)
        ensures
            tick == self.tick(period),
    {
        if self.notify == 0 {
            None
        } else {
            Some(Tick { handler: self.notify, period })
        }
    }

    /// The timer interrupt.
    pub fn timer_interrupt(&self, source: u64, frequency: u64) -> (interrupt: Interrupt)
        ensures
            interrupt == (Interrupt {
                timer: timer_for(self.period, frequency),
                end_of: if self.interrupts is Some {
                    Some(source)
                } else {
                    None
                },
                tick: self.tick(self.period),
            }),
    {
        let end_of: Option<u64> = match self.interrupts {
            Some(_) => Some(source),
            None => None,
        };
        Interrupt {
            timer: arm(self.period, frequency),
            end_of,
            tick: self.notify(self.period),
        }
    }

    /// Registers the tick handler; a null handler unregisters.
    pub fn register_handler(&mut self, address: u64) -> (status: Status)
        ensures
            status == (if address == 0 && old(self).notify == 0 {
                Status::InvalidParameter
            } else if address != 0 && old(self).notify != 0 {
                Status::AlreadyStarted
            } else {
                Status::Success
            }),
            *final(self) == (if status == Status::Success {
                Arch { notify: address, ..*old(self) }
            } else {
                *old(self)
            }),
    {
        if address == 0 {
            if self.notify == 0 {
                return Status::InvalidParameter;
            }
            self.notify = 0;
            return Status::Success;
        }
        if self.notify != 0 {
            return Status::AlreadyStarted;
        }
        self.notify = address;
        Status::Success
    }

    /// Sets the period: what that does to the timer.
    pub fn set_timer_period(&mut self, period: u64, frequency: u64) -> (timer: Timer)
        ensures
            timer == timer_for(period, frequency),
            *final(self) == (Arch { period, ..*old(self) }),
    {
        self.period = period;
        arm(period, frequency)
    }

    pub fn get_timer_period(&self, out: bool) -> (period: Result<u64, Status>)
        ensures
            period == (if out {
                Ok::<u64, Status>(self.period)
            } else {
                Err::<u64, Status>(Status::InvalidParameter)
            }),
    {
        if out {
            Ok(self.period)
        } else {
            Err(Status::InvalidParameter)
        }
    }

    /// The core's handler raises the TPL itself, so calling it is what a
    /// software-generated tick is.
    pub fn generate_soft_interrupt(&self) -> (tick: Option<Tick>)
        ensures
            tick == self.tick(0),
    {
        self.notify(0)
    }

    /// The watchdog's period is remembered.
    pub fn watchdog_set(&mut self, period: u64) -> (status: Status)
        ensures
            status == Status::Success,
            *final(self) == (Arch { watchdog_period: period, ..*old(self) }),
    {
        self.watchdog_period = period;
        Status::Success
    }

    pub fn watchdog_get(&self, out: bool) -> (period: Result<u64, Status>)
        ensures
            period == (if out {
                Ok::<u64, Status>(self.watchdog_period)
            } else {
                Err::<u64, Status>(Status::InvalidParameter)
            }),
    {
        if out {
            Ok(self.watchdog_period)
        } else {
            Err(Status::InvalidParameter)
        }
    }
}

/// A wait on the system counter.
#[derive(Clone, Copy, PartialEq, Eq, Structural, Debug)]
pub struct Wait {
    pub start: u64,
    pub ticks: u64,
}

/// `WaitForTick`: how long to wait from `start` on. A call without the protocol waits
/// by the metronome's own tick.
pub fn wait_for_tick(ticks: u32, tick_period: Option<u32>, frequency: u64, start: u64) -> (wait: Wait)
    ensures
        wait.start == start,
        wait.ticks == ticks_in(
            (ticks * (match tick_period {
                Some(period) => period as int,
                None => 1,
            })) as u64,
            frequency,
        ),
{
    let period: u32 = match tick_period {
        Some(period) => period,
        None => 1,
    };
    proof {
        assert(ticks * period <= 0xffff_ffff * 0xffff_ffff) by (nonlinear_arith)
            requires
                ticks <= 0xffff_ffff,
                period <= 0xffff_ffff,
        ;
    }
    Wait { start, ticks: counter_ticks(ticks as u64 * period as u64, frequency) }
}

impl Wait {
    /// How many ticks of the counter went by since the start; the counter wraps.
    pub open spec fn gone(self, now: u64) -> int {
        if now >= self.start {
            now - self.start
        } else {
            0x1_0000_0000_0000_0000 + now - self.start
        }
    }

    /// Whether the wait is over.
    pub fn is_over(&self, now: u64) -> (over: bool)
        ensures
            over == (self.gone(now) >= self.ticks),
    {
        now.wrapping_sub(self.start) >= self.ticks
    }
}

/// Installs the timer, metronome and watchdog architectural protocols.
pub struct ArchProtocols;

/// A protocol that is to be installed.
#[derive(Clone, Copy, PartialEq, Eq, Structural, Debug)]
pub enum Protocol {
    Metronome,
    Watchdog,
    Timer,
}

impl ArchProtocols {
    /// The first half: with the interrupt controller located, the timer is armed
    /// before its source is enabled, so that the first interrupt finds a period to
    /// re-arm with.
    pub fn entry_point(&self, arch: &mut Arch, interrupts: Option<u64>, frequency: u64) -> (timer:
        Result<Timer, Status>)
        ensures
            match interrupts {
                Some(interrupts) => timer == Ok::<Timer, Status>(
                    timer_for(DEFAULT_PERIOD, frequency),
                ) && *final(arch) == (Arch {
                    interrupts: Some(interrupts),
                    period: DEFAULT_PERIOD,
                    ..*old(arch)
                }),
                None => timer == Err::<Timer, Status>(Status::NotReady) && *final(arch) == *old(
                    arch,
                ),
            },
    {
        let located: u64 = match interrupts {
            Some(located) => located,
            None => {
                return Err(Status::NotReady);
            },
        };
        arch.interrupts = Some(located);
        arch.period = DEFAULT_PERIOD;
        Ok(arm(DEFAULT_PERIOD, frequency))
    }

    /// The second half: what is installed once the source is registered, the timer
    /// last, because installing it is what makes the core register its tick handler.
    pub fn registered(&self, status: Status) -> (protocols: Result<
        (Protocol, Protocol, Protocol),
        Status,
    >)
        ensures
            protocols == (if status == Status::Success {
                Ok::<(Protocol, Protocol, Protocol), Status>(
                    (Protocol::Metronome, Protocol::Watchdog, Protocol::Timer),
                )
            } else {
                Err::<(Protocol, Protocol, Protocol), Status>(Status::DeviceError)
            }),
    {
        match status {
            Status::Success => Ok((Protocol::Metronome, Protocol::Watchdog, Protocol::Timer)),
            _ => Err(Status::DeviceError),
        }
    }

    /// What is said of the timer.
    pub fn timer_line(&self, frequency: u64) -> (line: String)
        ensures
            line@ == "timer: EL1 physical timer on interrupt "@ + decimal_text(
                TIMER_INTERRUPT as nat,
            ) + ", "@ + decimal_text(frequency as nat) + " Hz counter"@,
    {
        let mut line: String = String::from_str("timer: EL1 physical timer on interrupt ");
        push_decimal(&mut line, TIMER_INTERRUPT);
        line.append(", ");
        push_decimal(&mut line, frequency);
        line.append(" Hz counter");
        line
    }
}

/// A handler that was registered is the one the next interrupt calls, until it is
/// unregistered, and no second one takes its place.
pub proof fn law_registered_handler_is_called(arch: Arch, handler: u64, period: u64)
    requires
        handler != 0,
    ensures
        (Arch { notify: handler, ..arch }).tick(period) == Some(Tick { handler, period }),
        (Arch { notify: 0, ..arch }).tick(period) is None,
{
}

/// A timer that is on fires: the register it is set with is never zero.
pub proof fn law_timer_fires(period: u64, frequency: u64)
    requires
        period != 0,
    ensures
        timer_for(period, frequency) matches Timer::Arm(ticks) && 1 <= ticks <= u32::MAX,
{
}

} // verus!
