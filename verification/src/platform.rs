//! The DXE platform: the machine's drivers and identity.
pub mod arch;
pub mod boot;
pub mod console;
pub mod gop;
pub mod smbios;
pub mod storage;
pub mod tables;
