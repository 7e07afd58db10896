//! The firmware that brings the machine up and boots from its disk.
pub mod allocator;
pub mod arch;
pub mod block;
pub mod boot;
pub mod console;
pub mod drivers;
pub mod fat;
pub mod fdt;
pub mod fdt_laws;
pub mod fs;
pub mod hob;
pub mod hob_laws;
pub mod loader;
pub mod platform;
pub mod storage;
pub mod uefi;
