//! Access to the tables the DXE core publishes.
//!
//! The DXE core's own `EFI_LOADED_IMAGE_PROTOCOL` carries the system table, so that is
//! where the platform finds it.
use crate::firmware::uefi::services::{recompute_crc, is_table, sealed, SYSTEM_TABLE_SIGNATURE};
use crate::text::{hex_text, push_hex};
use vstd::prelude::*;

verus! {

/// The system table, once it was found.
#[derive(Clone, Copy, PartialEq, Eq, Structural, Debug)]
pub struct Tables {
    pub system_table: Option<u64>,
}

/// A table that an image names: where it is, and the signature found there.
#[derive(Clone, Copy, PartialEq, Eq, Structural, Debug)]
pub struct Named {
    pub table: u64,
    pub signature: u64,
}

impl Tables {
    /// Finds the system table through the DXE core image's loaded-image protocol, and
    /// remembers it for the callbacks that have no component parameters. `named` is
    /// the table that protocol names, if there is one; its header is read to check it
    /// really is the system table.
    pub fn init(&mut self, named: Option<Named>) -> (table: Option<u64>)
        ensures
            table == (if old(self).system_table is Some {
                old(self).system_table
            } else if named is Some && named->0.table != 0 && named->0.signature
                == SYSTEM_TABLE_SIGNATURE {
                Some(named->0.table)
            } else {
                None
            }),
            final(self).system_table == table,
    {
        if self.system_table.is_some() {
            return self.system_table;
        }
        let found: Named = match named {
            Some(found) => found,
            None => {
                return None;
            },
        };
        if found.table == 0 {
            return None;
        }
        if found.signature != SYSTEM_TABLE_SIGNATURE {
            return None;
        }
        self.system_table = Some(found.table);
        self.system_table
    }
}

/// What is said of a table that is not the system table.
pub fn bad_signature_line(named: &Named) -> (line: String)
    ensures
        line@ == "the DXE core's loaded image names "@ + hex_text(named.table as nat)
            + " as the system table, but its signature is "@ + hex_text(named.signature as nat),
{
    let mut line: String = String::from_str("the DXE core's loaded image names ");
    push_hex(&mut line, named.table);
    line.append(" as the system table, but its signature is ");
    push_hex(&mut line, named.signature);
    line
}

/// Recomputes the system table's header CRC after a field was changed, while there are
/// boot services to do it with.
pub fn rechecksum(table: &mut Vec<u8>, boot_services: bool)
    requires
        is_table(old(table)@),
    ensures
        final(table)@ == (if boot_services {
            sealed(old(table)@)
        } else {
            old(table)@
        }),
{
    if !boot_services {
        return;
    }
    recompute_crc(table);
}

} // verus!
