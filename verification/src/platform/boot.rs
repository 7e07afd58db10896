//! The boot-device selection for the QEMU virt platform.
//!
//! BDS takes the removable-media fallback path, `\EFI\BOOT\BOOTAA64.EFI`, on each
//! volume the storage component published, in the order the handle database lists
//! them, and starts the first that loads. The image is loaded by device path rather
//! than from a buffer, which is how a boot loader finds the disk it came from. There
//! are no variable services yet, so there is no `BootOrder` to honour.
use crate::platform::storage::device_path::{append_file, file_bytes};
use crate::text::{hex_text, push_hex};
use vstd::prelude::*;

verus! {

/// Arguments for q1n1's XNU handoff: `--xnu`, and a terminator. Other EFI applications
/// ignore them.
pub const Q1N1_OPTIONS: [u16; 6] = [0x2d, 0x2d, 0x78, 0x6e, 0x75, 0];

/// How many bytes the arguments take.
pub const Q1N1_OPTIONS_SIZE: u32 = 12;

/// The boot component.
pub struct Boot;

/// What BDS does next.
#[derive(Clone, Copy, PartialEq, Eq, Structural, Debug)]
pub enum Action {
    /// Load the boot image from the volume at this index, by the volume's device path.
    Load(usize),
    /// Give the loaded image its options, and start it.
    Start(usize),
    /// Stop here, with the log intact.
    Park(Reason),
}

/// Why BDS stops.
#[derive(Clone, Copy, PartialEq, Eq, Structural, Debug)]
pub enum Reason {
    NotCaptured,
    NoParent,
    NoFileSystem,
    NoLoadedImage,
    /// The image returned: a boot that did not happen.
    Returned,
    /// No volume carries the boot image.
    NoImage,
}

/// What came of the last action.
#[derive(Clone, Copy, PartialEq, Eq, Structural, Debug)]
pub enum Event {
    /// The volume has no device path, or nothing loaded from it.
    NotLoaded,
    /// An image loaded.
    Loaded,
    /// An image loaded, and its loaded-image protocol is not to be had.
    LoadedWithoutProtocol,
    /// The image returned.
    Returned,
}

/// The volumes BDS goes through.
#[derive(Clone, Copy, PartialEq, Eq, Structural, Debug)]
pub struct Selection {
    pub volumes: usize,
    pub at: usize,
}

/// Whether there is a volume left at an index.
pub open spec fn from_volume(volumes: usize, at: int) -> Action {
    if at < volumes {
        Action::Load(at as usize)
    } else {
        Action::Park(Reason::NoImage)
    }
}

impl Boot {
    /// Begins the selection: `ready` is whether boot services were captured, `parent`
    /// whether there is an image to be the parent of what is loaded, and `volumes` how
    /// many volumes there are, if they could be listed.
    pub fn begin(&self, ready: bool, parent: bool, volumes: Option<usize>) -> (answer: (
        Selection,
        Action,
    ))
        ensures
            answer.0.at == 0,
            answer.0.volumes == (match volumes {
                Some(count) => count,
                None => 0,
            }),
            answer.1 == (if !ready {
                Action::Park(Reason::NotCaptured)
            } else if !parent {
                Action::Park(Reason::NoParent)
            } else {
                match volumes {
                    Some(count) => from_volume(count, 0),
                    None => Action::Park(Reason::NoFileSystem),
                }
            }),
    {
        let count: usize = match volumes {
            Some(count) => count,
            None => 0,
        };
        let selection: Selection = Selection { volumes: count, at: 0 };
        if !ready {
            return (selection, Action::Park(Reason::NotCaptured));
        }
        if !parent {
            return (selection, Action::Park(Reason::NoParent));
        }
        if volumes.is_none() {
            return (selection, Action::Park(Reason::NoFileSystem));
        }
        if count == 0 {
            return (selection, Action::Park(Reason::NoImage));
        }
        (selection, Action::Load(0))
    }

    /// Goes on from what came of the last action: the first image that loads is
    /// started, and whatever it does the selection ends there.
    pub fn boot(&self, selection: &mut Selection, event: Event) -> (action: Action)
        requires
            old(selection).at < old(selection).volumes,
        ensures
            final(selection).volumes == old(selection).volumes,
            final(selection).at == (if event == Event::NotLoaded {
                (old(selection).at + 1) as usize
            } else {
                old(selection).at
            }),
            action == (match event {
                Event::NotLoaded => from_volume(old(selection).volumes, old(selection).at + 1),
                Event::Loaded => Action::Start(old(selection).at),
                Event::LoadedWithoutProtocol => Action::Park(Reason::NoLoadedImage),
                Event::Returned => Action::Park(Reason::Returned),
            }),
    {
        match event {
            Event::NotLoaded => {
                selection.at = selection.at + 1;
                if selection.at < selection.volumes {
                    Action::Load(selection.at)
                } else {
                    Action::Park(Reason::NoImage)
                }
            },
            Event::Loaded => Action::Start(selection.at),
            Event::LoadedWithoutProtocol => Action::Park(Reason::NoLoadedImage),
            Event::Returned => Action::Park(Reason::Returned),
        }
    }
}

/// The device path of the boot image on a volume: the removable-media fallback every
/// bootable ESP carries.
pub fn boot_path(volume: &[u8]) -> (path: Vec<u8>)
    ensures
        path@ == file_bytes(volume@, "\\EFI\\BOOT\\BOOTAA64.EFI"@),
{
    append_file(volume, "\\EFI\\BOOT\\BOOTAA64.EFI")
}

/// What is said when BDS stops.
pub open spec fn reason_text(reason: Reason) -> Seq<char> {
    match reason {
        Reason::NotCaptured => "BDS: Boot Services were not captured during dispatch"@,
        Reason::NoParent => "BDS: no loaded-image parent handle"@,
        Reason::NoFileSystem => "BDS: no file system to boot from; halting"@,
        Reason::NoLoadedImage => "BDS: loaded-image protocol unavailable for the boot image"@,
        Reason::Returned => "BDS: the boot image returned"@,
        Reason::NoImage => "BDS: no volume carries \\EFI\\BOOT\\BOOTAA64.EFI; halting"@,
    }
}

/// What is said when BDS stops.
pub fn reason_line(reason: Reason) -> (line: &'static str)
    ensures
        line@ == reason_text(reason),
{
    match reason {
        Reason::NotCaptured => "BDS: Boot Services were not captured during dispatch",
        Reason::NoParent => "BDS: no loaded-image parent handle",
        Reason::NoFileSystem => "BDS: no file system to boot from; halting",
        Reason::NoLoadedImage => "BDS: loaded-image protocol unavailable for the boot image",
        Reason::Returned => "BDS: the boot image returned",
        Reason::NoImage => "BDS: no volume carries \\EFI\\BOOT\\BOOTAA64.EFI; halting",
    }
}

/// What is said when an image starts.
pub fn starting_line(volume: u64) -> (line: String)
    ensures
        line@ == "BDS: starting \\EFI\\BOOT\\BOOTAA64.EFI from volume "@ + hex_text(volume as nat),
{
    let mut line: String = String::from_str(
        "BDS: starting \\EFI\\BOOT\\BOOTAA64.EFI from volume ",
    );
    push_hex(&mut line, volume);
    line
}

/// Which volume BDS starts an image from, by which of them load: the first that does.
pub open spec fn started(loads: Seq<bool>, from: int) -> Option<int>
    decreases loads.len() - from,
{
    if from >= loads.len() {
        None
    } else if loads[from] {
        Some(from)
    } else {
        started(loads, from + 1)
    }
}

/// Going on over the volumes that do not load ends at the first that does: the
/// volumes before it were all tried, and none after it.
pub proof fn law_first_volume_that_loads_starts(loads: Seq<bool>, from: int)
    requires
        0 <= from <= loads.len() <= usize::MAX,
    ensures
        match started(loads, from) {
            Some(k) => from <= k < loads.len() && loads[k] && (forall|i: int|
                from <= i < k ==> !#[trigger] loads[i]) && from_volume(loads.len() as usize, k)
                == Action::Load(k as usize),
            None => (forall|i: int| from <= i < loads.len() ==> !#[trigger] loads[i])
                && from_volume(loads.len() as usize, loads.len() as int) == Action::Park(
                Reason::NoImage,
            ),
        },
    decreases loads.len() - from,
{
    if from < loads.len() && !loads[from] {
        law_first_volume_that_loads_starts(loads, from + 1);
    }
}

} // verus!
