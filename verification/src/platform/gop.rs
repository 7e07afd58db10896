//! Virtio-gpu scanout and EFI Graphics Output Protocol.
use crate::graphics_output::{
    registry, registry_of, Display, ModeInformation, Registry, SIZE_OF_INFO,
};
use crate::status::Status;
use crate::text::{decimal_text, hex_text, push_decimal, push_hex};
use vstd::prelude::*;

verus! {

/// The display component.
pub struct Gop;

/// The line about a display.
pub open spec fn display_text(display: Display) -> Seq<char> {
    "gop: virtio GPU "@ + decimal_text(display.width as nat) + "x"@ + decimal_text(
        display.height as nat,
    ) + ", framebuffer "@ + hex_text(display.frame_buffer_base as nat) + " ("@ + decimal_text(
        display.frame_buffer_size as nat,
    ) + " bytes)"@
}

impl Gop {
    /// What there is to publish for the display that was found, if one was, and the
    /// line for the log.
    pub fn entry_point(self, display: Option<Display>) -> (answer: (Option<Registry>, String))
        ensures
            match display {
                Some(display) => answer.0 == Some(registry_of(display)) && answer.1@
                    == display_text(display),
                None => answer.0 is None && answer.1@ == "gop: no virtio GPU found"@,
            },
    {
        let display: Display = match display {
            Some(display) => display,
            None => {
                return (None, String::from_str("gop: no virtio GPU found"));
            },
        };
        let mut line: String = String::from_str("gop: virtio GPU ");
        push_decimal(&mut line, display.width as u64);
        line.append("x");
        push_decimal(&mut line, display.height as u64);
        line.append(", framebuffer ");
        push_hex(&mut line, display.frame_buffer_base);
        line.append(" (");
        push_decimal(&mut line, display.frame_buffer_size);
        line.append(" bytes)");
        (Some(registry(display)), line)
    }
}

/// `QueryMode`: a mode that does not exist is reported before a pointer that is
/// missing.
pub fn query_mode(registry: &Registry, mode: u32, size: bool, info: bool) -> (answer: Result<
    (usize, ModeInformation),
    Status,
>)
    ensures
        answer == (if mode != 0 {
            Err::<(usize, ModeInformation), Status>(Status::Unsupported)
        } else if !size || !info {
            Err::<(usize, ModeInformation), Status>(Status::InvalidParameter)
        } else {
            Ok::<(usize, ModeInformation), Status>((SIZE_OF_INFO, registry.info))
        }),
{
    if mode != 0 {
        return Err(Status::Unsupported);
    }
    if !size || !info {
        return Err(Status::InvalidParameter);
    }
    Ok((SIZE_OF_INFO, registry.info))
}

} // verus!
