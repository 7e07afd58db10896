//! The storage stack: PCI enumeration, block devices, GPT and files.
pub mod block;
pub mod blockio;
pub mod component;
pub mod device_path;
pub mod fs;
pub mod gpt;
pub mod pci;
pub mod simplefs;
pub mod simplefs_laws;
pub mod virtio;
