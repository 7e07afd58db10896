//! The processor and its interrupt controllers.
pub mod gic;
pub mod gicv3;
pub mod mmu;
pub mod psci;
pub mod timer;
pub mod vectors;
