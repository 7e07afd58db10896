//! Loading images.
pub mod pe;
pub mod pe_laws;
