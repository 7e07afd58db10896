//! The boot and runtime services.
pub mod blockio;
pub mod calendar;
pub mod device_path;
pub mod events;
pub mod gop;
pub mod handles;
pub mod mem;
pub mod runtime;
pub mod services;
pub mod simplefs;
pub mod text;
pub mod vars;
