//! The virtio devices, as the firmware sees them.
pub mod blk;
pub mod hal;
pub mod pci;
