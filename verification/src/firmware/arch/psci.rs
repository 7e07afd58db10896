//! PSCI: the power-control calls this machine exposes.
//!
//! Every call goes out as an HVC with the function identifier in `x0` and its
//! arguments in `x1`-`x3`.
use vstd::prelude::*;

verus! {

/// `PSCI_CPU_OFF`.
pub const CPU_OFF: u64 = 0x8400_0002;

/// `PSCI_SYSTEM_OFF`: power the machine down.
pub const SYSTEM_OFF: u64 = 0x8400_0008;

/// `PSCI_SYSTEM_RESET`: reset the machine.
pub const SYSTEM_RESET: u64 = 0x8400_0009;

/// `PSCI_CPU_ON`: start a secondary core at an entry address.
pub const CPU_ON: u64 = 0xc400_0003;

/// The calling convention's status codes, for callers that want to report them.
pub const SUCCESS: i64 = 0;

pub const ALREADY_ON: i64 = -5;

/// A call: what goes into `x0`, and into `x1` to `x3`.
#[derive(Clone, Copy, PartialEq, Eq, Structural, Debug)]
pub struct Call {
    pub function: u64,
    pub first: u64,
    pub second: u64,
    pub third: u64,
}

/// Powers the machine off.
pub fn system_off() -> (call: Call)
    ensures
        call == (Call { function: SYSTEM_OFF, first: 0, second: 0, third: 0 }),
{
    Call { function: SYSTEM_OFF, first: 0, second: 0, third: 0 }
}

/// Resets the machine.
pub fn system_reset() -> (call: Call)
    ensures
        call == (Call { function: SYSTEM_RESET, first: 0, second: 0, third: 0 }),
{
    Call { function: SYSTEM_RESET, first: 0, second: 0, third: 0 }
}

/// Starts a secondary core. The call returns 0 on success and a negative error
/// otherwise.
pub fn cpu_on(mpidr: u64, entry: u64, context: u64) -> (call: Call)
    ensures
        call == (Call { function: CPU_ON, first: mpidr, second: entry, third: context }),
{
    Call { function: CPU_ON, first: mpidr, second: entry, third: context }
}

} // verus!
