//! The status codes the services answer with.
use vstd::prelude::*;

verus! {

/// A 128-bit identifier, in the byte order it has in memory and on disk.
pub type Guid = [u8; 16];

/// An `EFI_STATUS`.
#[derive(Clone, Copy, PartialEq, Eq, Structural, Debug)]
pub enum Status {
    Success,
    LoadError,
    InvalidParameter,
    Unsupported,
    BadBufferSize,
    BufferTooSmall,
    NotReady,
    DeviceError,
    WriteProtected,
    OutOfResources,
    MediaChanged,
    NotFound,
    AccessDenied,
    AlreadyStarted,
    Aborted,
    SecurityViolation,
    /// A warning: the file could not be deleted.
    WarnDeleteFailure,
}

impl Status {
    /// The number the specification gives the code, without the error bit.
    pub open spec fn number(self) -> u64 {
        match self {
            Status::Success => 0,
            Status::LoadError => 1,
            Status::InvalidParameter => 2,
            Status::Unsupported => 3,
            Status::BadBufferSize => 4,
            Status::BufferTooSmall => 5,
            Status::NotReady => 6,
            Status::DeviceError => 7,
            Status::WriteProtected => 8,
            Status::OutOfResources => 9,
            Status::MediaChanged => 13,
            Status::NotFound => 14,
            Status::AccessDenied => 15,
            Status::AlreadyStarted => 20,
            Status::Aborted => 21,
            Status::SecurityViolation => 26,
            Status::WarnDeleteFailure => 2,
        }
    }

    /// Whether the code is an error: its top bit is set.
    pub open spec fn error(self) -> bool {
        !(self is Success) && !(self is WarnDeleteFailure)
    }

    /// The code as a 64-bit machine carries it.
    pub fn code(self) -> (code: u64)
        ensures
            code == self.number() + if self.error() { 0x8000_0000_0000_0000int } else { 0 },
    {
        let error: u64 = 0x8000_0000_0000_0000;
        match self {
            Status::Success => 0,
            Status::LoadError => error + 1,
            Status::InvalidParameter => error + 2,
            Status::Unsupported => error + 3,
            Status::BadBufferSize => error + 4,
            Status::BufferTooSmall => error + 5,
            Status::NotReady => error + 6,
            Status::DeviceError => error + 7,
            Status::WriteProtected => error + 8,
            Status::OutOfResources => error + 9,
            Status::MediaChanged => error + 13,
            Status::NotFound => error + 14,
            Status::AccessDenied => error + 15,
            Status::AlreadyStarted => error + 20,
            Status::Aborted => error + 21,
            Status::SecurityViolation => error + 26,
            Status::WarnDeleteFailure => 2,
        }
    }
}

} // verus!
