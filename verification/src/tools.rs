//! The host tools that package the firmware and its disk.
pub mod elf;
pub mod fat32;
pub mod fat32_laws;
pub mod fat32_shape_laws;
pub mod ffs;
pub mod ffs_laws;
pub mod mkesp;
pub mod mkimage;
pub mod mkimage_laws;
pub mod readback;
pub mod rompatch;
pub mod rompatch_laws;
pub mod rompatch_text_laws;
