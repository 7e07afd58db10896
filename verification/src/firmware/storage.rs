//! Storage: the disks the firmware can boot from, and the partitions on them.
pub mod gpt;
pub mod discover;
