//! The structures of `EFI_GRAPHICS_OUTPUT_PROTOCOL` over a display with one mode.
//!
//! Applications draw straight into the framebuffer and the pixels reach the screen
//! through the device; `Blt` answers unsupported.
use crate::status::Status;
use vstd::prelude::*;

verus! {

/// Blue at the lowest address, then green, red, and a byte that is not used.
pub const PIXEL_BLUE_GREEN_RED_RESERVED_8_BIT_PER_COLOR: u32 = 1;

/// The size of the mode information.
pub const SIZE_OF_INFO: usize = 36;

/// A display that opened: its resolution, and where the framebuffer is.
#[derive(Clone, Copy, PartialEq, Eq, Structural, Debug)]
pub struct Display {
    pub width: u32,
    pub height: u32,
    pub frame_buffer_base: u64,
    pub frame_buffer_size: u64,
}

impl Display {
    /// The resolution the device reports for its scanout.
    pub fn resolution(&self) -> (resolution: (u32, u32))
        ensures
            resolution == (self.width, self.height),
    {
        (self.width, self.height)
    }
}

/// What a mode looks like.
#[derive(Clone, Copy, PartialEq, Eq, Structural, Debug)]
pub struct ModeInformation {
    pub version: u32,
    pub horizontal_resolution: u32,
    pub vertical_resolution: u32,
    pub pixel_format: u32,
    pub red_mask: u32,
    pub green_mask: u32,
    pub blue_mask: u32,
    pub reserved_mask: u32,
    pub pixels_per_scan_line: u32,
}

/// The current mode.
#[derive(Clone, Copy, PartialEq, Eq, Structural, Debug)]
pub struct Mode {
    pub max_mode: u32,
    pub mode: u32,
    pub size_of_info: usize,
    pub frame_buffer_base: u64,
    pub frame_buffer_size: u64,
}

/// The mode, its information, and the display that owns the framebuffer.
#[derive(Clone, Copy, PartialEq, Eq, Structural, Debug)]
pub struct Registry {
    pub mode: Mode,
    pub info: ModeInformation,
    pub display: Display,
}

/// The registry of a display: one mode, with no padding at the end of a line.
pub open spec fn registry_of(display: Display) -> Registry {
    Registry {
        mode: Mode {
            max_mode: 1,
            mode: 0,
            size_of_info: SIZE_OF_INFO,
            frame_buffer_base: display.frame_buffer_base,
            frame_buffer_size: display.frame_buffer_size,
        },
        info: ModeInformation {
            version: 0,
            horizontal_resolution: display.width,
            vertical_resolution: display.height,
            pixel_format: PIXEL_BLUE_GREEN_RED_RESERVED_8_BIT_PER_COLOR,
            red_mask: 0,
            green_mask: 0,
            blue_mask: 0,
            reserved_mask: 0,
            pixels_per_scan_line: display.width,
        },
        display,
    }
}

/// Fills in the structures for a display.
pub fn registry(display: Display) -> (registry: Registry)
    ensures
        registry == registry_of(display),
{
    Registry {
        mode: Mode {
            max_mode: 1,
            mode: 0,
            size_of_info: SIZE_OF_INFO,
            frame_buffer_base: display.frame_buffer_base,
            frame_buffer_size: display.frame_buffer_size,
        },
        info: ModeInformation {
            version: 0,
            horizontal_resolution: display.width,
            vertical_resolution: display.height,
            pixel_format: PIXEL_BLUE_GREEN_RED_RESERVED_8_BIT_PER_COLOR,
            red_mask: 0,
            green_mask: 0,
            blue_mask: 0,
            reserved_mask: 0,
            pixels_per_scan_line: display.width,
        },
        display,
    }
}

/// `SetMode`: mode 0 is the mode the display was opened in and is already the
/// scanout, so accepting it is the whole change. Any other mode does not exist.
pub fn set_mode(mode_number: u32) -> (status: Status)
    ensures
        status == (if mode_number == 0 {
            Status::Success
        } else {
            Status::Unsupported
        }),
{
    if mode_number != 0 {
        return Status::Unsupported;
    }
    Status::Success
}

/// `Blt`: unsupported. Applications draw into the framebuffer themselves.
pub fn blt() -> (status: Status)
    ensures
        status == Status::Unsupported,
{
    Status::Unsupported
}

} // verus!
