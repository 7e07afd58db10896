//! The virtio PCI transport's view of the configuration space.
use crate::pci::{ecam, register};
use vstd::prelude::*;

verus! {

/// The machine's PCI configuration space.
pub struct EcamAccess {}

impl EcamAccess {
    /// Where a word of a function's configuration space is.
    pub fn word_address(&self, bus: u8, device: u8, function: u8, offset: u8) -> (address: u64)
        requires
            device < 32,
            function < 8,
        ensures
            address == register(bus, device, function, offset as u16),
    {
        ecam(bus, device, function, offset as u16)
    }
}

} // verus!
