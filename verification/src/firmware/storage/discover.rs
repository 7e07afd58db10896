//! Every disk the firmware can see, in bus order.
//!
//! Discovery is a bus walk: each virtio function is offered to the block driver,
//! and the ones that answer become disks. A device that is not a block device, or
//! that fails to start, is skipped: a machine with no disk at all is a machine
//! that boots nothing, which is a normal outcome.
use crate::firmware::drivers::virtio::blk::{disk_name, VirtioBlk, SECTOR};
use crate::text::{decimal_text, hex_digits, push_decimal, push_hex_digits};
use vstd::prelude::*;
use vstd::string::*;

verus! {

/// Where a device is on the bus.
#[derive(Clone, Copy, PartialEq, Eq, Structural, Debug)]
pub struct Place {
    pub bus: u8,
    pub slot: u8,
    pub func: u8,
}

/// A disk that was found.
#[derive(Clone, Copy, PartialEq, Eq, Structural, Debug)]
pub struct FoundDisk {
    pub place: Place,
    pub disk: VirtioBlk,
}

/// What a virtio function came to: a disk of a number of sectors, or not one.
#[derive(Clone, Copy, PartialEq, Eq, Structural, Debug)]
pub struct Opened {
    pub block_count: u64,
    pub readonly: bool,
}

/// The disks found so far.
pub struct Discovery {
    pub disks: Vec<FoundDisk>,
}

/// What is said of a disk.
pub open spec fn disk_text(found: FoundDisk) -> Seq<char> {
    "[storage] "@ + hex_digits(found.place.bus as nat, 2) + ":"@ + hex_digits(
        found.place.slot as nat,
        2,
    ) + "."@ + decimal_text(found.place.func as nat) + " "@ + disk_name(found.disk.index as int)
        + ": "@ + decimal_text(found.disk.block_count as nat) + " sectors of "@ + decimal_text(
        SECTOR as nat,
    ) + " bytes"@ + (if found.disk.readonly {
        " (read-only)"@
    } else {
        Seq::<char>::empty()
    })
}

/// What is said of a disk.
pub fn disk_line(found: &FoundDisk) -> (line: String)
    ensures
        line@ == disk_text(*found),
{
    let mut line: String = String::from_str("[storage] ");
    push_hex_digits(&mut line, found.place.bus as u64, 2);
    line.append(":");
    push_hex_digits(&mut line, found.place.slot as u64, 2);
    line.append(".");
    push_decimal(&mut line, found.place.func as u64);
    line.append(" ");
    line.append(found.disk.name());
    line.append(": ");
    push_decimal(&mut line, found.disk.block_count);
    line.append(" sectors of ");
    push_decimal(&mut line, SECTOR as u64);
    line.append(" bytes");
    if found.disk.readonly {
        line.append(" (read-only)");
    }
    assert(line@ =~= disk_text(*found));
    line
}

impl Discovery {
    pub fn new() -> (discovery: Discovery)
        ensures
            discovery.disks@ == Seq::<FoundDisk>::empty(),
    {
        Discovery { disks: Vec::new() }
    }

    /// Takes what a function on the bus came to. A function that is not virtio is
    /// not offered to the driver at all; one that is no disk is skipped.
    pub fn offer(&mut self, place: Place, virtio: bool, opened: Option<Opened>) -> (line: Option<
        String,
    >)
        ensures
            match opened {
                Some(opened) if virtio => {
                    let found = FoundDisk {
                        place,
                        disk: VirtioBlk {
                            block_count: opened.block_count,
                            readonly: opened.readonly,
                            index: old(self).disks@.len() as usize,
                        },
                    };
                    &&& final(self).disks@ == old(self).disks@.push(found)
                    &&& line is Some && line->0@ == disk_text(found)
                },
                _ => line is None && final(self).disks@ == old(self).disks@,
            },
    {
        if !virtio {
            return None;
        }
        match opened {
            None => None,
            Some(opened) => {
                let found = FoundDisk {
                    place,
                    disk: VirtioBlk {
                        block_count: opened.block_count,
                        readonly: opened.readonly,
                        index: self.disks.len(),
                    },
                };
                self.disks.push(found);
                Some(disk_line(&found))
            },
        }
    }
}

} // verus!
