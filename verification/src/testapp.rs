//! The EFI application that exercises the services: its console, and its report.
pub mod console;
pub mod report;
