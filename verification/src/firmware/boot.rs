//! Finding, loading, and running the boot image.
pub mod images;
pub mod load_option;
pub mod manager;
