//! `EFI_GRAPHICS_OUTPUT_PROTOCOL`, over the machine's display.
//!
//! A machine with no display gets no protocol: an application that locates a GOP
//! stops looking for a framebuffer, so publishing one that scans out nothing would be
//! worse than publishing none, and the boot continues either way.
use crate::firmware::uefi::handles::{Database, Installed, MAX_HANDLES};
use crate::firmware::uefi::services::GRAPHICS_OUTPUT_PROTOCOL_GUID;
use crate::graphics_output::{
    registry, registry_of, Display, ModeInformation, Registry, SIZE_OF_INFO,
};
use crate::status::Status;
use crate::text::{decimal_text, hex_text, push_decimal, push_hex};
use vstd::prelude::*;

verus! {

/// The line about a display.
pub open spec fn display_text(display: Display) -> Seq<char> {
    "[gop] virtio-gpu "@ + decimal_text(display.width as nat) + "x"@ + decimal_text(
        display.height as nat,
    ) + " XRGB8888, framebuffer @ "@ + hex_text(display.frame_buffer_base as nat) + " ("@
        + decimal_text((display.frame_buffer_size / 1024) as nat) + " KiB)"@
}

/// Installs the protocol on a fresh handle over the machine's display: the status,
/// the line for the console, and the structures. `NotFound` when the machine has no
/// display - a valid outcome: the boot continues without a framebuffer to find.
/// `interface` is where the protocol is.
pub fn install(database: &mut Database, display: Option<Display>, interface: u64) -> (answer: (
    Status,
    String,
    Option<Registry>,
))
    requires
        old(database).wf(),
        old(database).count < MAX_HANDLES,
    ensures
        final(database).wf(),
        final(database).opens@ == old(database).opens@,
        match display {
            Some(display) => {
                &&& answer.0 == Status::Success
                &&& answer.1@ == display_text(display)
                &&& answer.2 == Some(registry_of(display))
                &&& final(database).count == old(database).count + 1
                &&& final(database).protocols@ == old(database).protocols@.push(
                    Installed {
                        handle: final(database).count,
                        guid: GRAPHICS_OUTPUT_PROTOCOL_GUID,
                        interface,
                    },
                )
            },
            None => {
                &&& answer.0 == Status::NotFound
                &&& answer.1@ == "[gop] no display"@
                &&& answer.2 is None
                &&& final(database).count == old(database).count
                &&& final(database).protocols@ == old(database).protocols@
            },
        },
{
    let display: Display = match display {
        Some(display) => display,
        None => {
            return (Status::NotFound, String::from_str("[gop] no display"), None);
        },
    };
    let registry: Registry = registry(display);
    database.install_new(&GRAPHICS_OUTPUT_PROTOCOL_GUID, interface);
    let mut line: String = String::from_str("[gop] virtio-gpu ");
    push_decimal(&mut line, display.width as u64);
    line.append("x");
    push_decimal(&mut line, display.height as u64);
    line.append(" XRGB8888, framebuffer @ ");
    push_hex(&mut line, display.frame_buffer_base);
    line.append(" (");
    push_decimal(&mut line, display.frame_buffer_size / 1024);
    line.append(" KiB)");
    (Status::Success, line, Some(registry))
}

/// `QueryMode`: mode 0 is the one mode, and its information lives in the registry.
pub fn query_mode(registry: &Registry, mode_number: u32, size_of_info: bool, info: bool) -> (answer:
    Result<(usize, ModeInformation), Status>)
    ensures
        answer == (if !size_of_info || !info {
            Err::<(usize, ModeInformation), Status>(Status::InvalidParameter)
        } else if mode_number != 0 {
            Err::<(usize, ModeInformation), Status>(Status::Unsupported)
        } else {
            Ok::<(usize, ModeInformation), Status>((SIZE_OF_INFO, registry.info))
        }),
{
    if !size_of_info || !info {
        return Err(Status::InvalidParameter);
    }
    if mode_number != 0 {
        return Err(Status::Unsupported);
    }
    Ok((SIZE_OF_INFO, registry.info))
}

} // verus!
