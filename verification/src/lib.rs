//! Firmware logic for QEMU's AArch64 `virt` machine, and the host tools that
//! package it.
pub mod block;
pub mod block_io;
pub mod bytes;
pub mod crc;
pub mod file_info;
pub mod firmware;
pub mod gpt;
pub mod graphics_output;
pub mod pci;
pub mod platform;
pub mod ranges;
pub mod seqs;
pub mod status;
pub mod terminal;
pub mod testapp;
pub mod text;
pub mod text_laws;
pub mod tools;
pub mod utf16;
