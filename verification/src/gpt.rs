//! GPT: the header at LBA 1 and what it says of the entry array.
//!
//! The header carries a CRC32 of itself and one of the array, and both are
//! checked: a disk whose header does not match its own checksum is one to leave
//! alone rather than to read files from.
use crate::bytes::{
    copy_range, fill, get_u32, get_u64, le_at, lemma_le_value_4, lemma_le_value_8, matches_at,
    push_fill, put, put_slice,
};
use crate::crc::{crc, crc32};
use vstd::prelude::*;

verus! {

/// `EFI PART`.
pub const SIGNATURE: [u8; 8] = [0x45, 0x46, 0x49, 0x20, 0x50, 0x41, 0x52, 0x54];

/// The type GUID of an EFI System Partition, in on-disk byte order.
pub const ESP_TYPE: [u8; 16] = [
    0x28, 0x73, 0x2a, 0xc1, 0x1f, 0xf8, 0xd2, 0x11, 0xba, 0x4b, 0x00, 0xa0, 0xc9, 0x3e, 0xc9, 0x3b,
];

/// Where the entry array is, how many entries it has, how large they are, and
/// the array's CRC32.
#[derive(Clone, Copy, PartialEq, Eq, Structural, Debug)]
pub struct Table {
    pub lba: u64,
    pub count: u32,
    pub entry_size: u32,
    pub crc: u32,
}

/// The table a header block describes; `None` when it is not a header or does
/// not match its own checksum. A table has at most 256 entries, of at least 128
/// bytes.
pub open spec fn table(h: Seq<u8>) -> Option<Table> {
    let size = le_at(h, 12, 4) as int;
    let t = Table {
        lba: le_at(h, 72, 8) as u64,
        count: le_at(h, 80, 4) as u32,
        entry_size: le_at(h, 84, 4) as u32,
        crc: le_at(h, 88, 4) as u32,
    };
    if h.len() >= 512 && h.subrange(0, 8) == SIGNATURE@ && 92 <= size <= h.len() && crc(
        put(h.subrange(0, size), 16, fill(4, 0)),
    ) == le_at(h, 16, 4) && t.entry_size >= 128 && 1 <= t.count <= 256 {
        Some(t)
    } else {
        None
    }
}

/// Reads a header block.
pub fn parse_header(header: &Vec<u8>) -> (found: Option<Table>)
    ensures
        found == table(header@),
{
    let block: usize = header.len();
    if block < 512 {
        return None;
    }
    if !matches_at(header, 0, &SIGNATURE) {
        return None;
    }
    let header_size: u32 = get_u32(header, 12);
    if header_size < 92 || header_size as usize > block {
        return None;
    }
    let stored: u32 = get_u32(header, 16);
    let mut without: Vec<u8> = copy_range(header, 0, header_size as usize);
    let mut zeroes: Vec<u8> = Vec::new();
    push_fill(&mut zeroes, 4, 0);
    assert(zeroes@ =~= fill(4, 0));
    put_slice(&mut without, 16, &zeroes);
    if crc32(&without) != stored {
        return None;
    }
    let found = Table {
        lba: get_u64(header, 72),
        count: get_u32(header, 80),
        entry_size: get_u32(header, 84),
        crc: get_u32(header, 88),
    };
    if found.entry_size < 128 || found.count == 0 || found.count > 256 {
        return None;
    }
    Some(found)
}

/// The entries of an array.
pub open spec fn entries_of(bytes: Seq<u8>, t: Table) -> Seq<Seq<u8>> {
    Seq::new(
        t.count as nat,
        |i: int| bytes.subrange(i * t.entry_size, i * t.entry_size + t.entry_size),
    )
}

/// The GUID of an entry's type.
pub open spec fn type_of(entry: Seq<u8>) -> Seq<u8> {
    entry.subrange(0, 16)
}

/// Whether an entry defines a partition.
pub open spec fn defined(entry: Seq<u8>) -> bool {
    type_of(entry) != fill(16, 0)
}

/// An entry of the array, as bytes of its own.
pub fn entry_at(bytes: &Vec<u8>, t: &Table, index: u32) -> (entry: Vec<u8>)
    requires
        index < t.count,
        bytes@.len() == t.count * t.entry_size,
    ensures
        entry@ == entries_of(bytes@, *t)[index as int],
        entry@.len() == t.entry_size,
{
    let total: usize = bytes.len();
    proof {
        lemma_entry_inside(index as int, t.count as int, t.entry_size as int);
    }
    let start: usize = (index as u64 * t.entry_size as u64) as usize;
    copy_range(bytes, start, start + t.entry_size as usize)
}

pub proof fn lemma_entry_inside(index: int, count: int, size: int)
    requires
        0 <= index < count <= 0xffff_ffff,
        0 <= size <= 0xffff_ffff,
    ensures
        0 <= index * size,
        index * size + size <= count * size,
        count * size <= 0xffff_ffff * 0xffff_ffff,
{
    assert(0 <= index * size && index * size + size <= count * size && count * size <= 0xffff_ffff
        * 0xffff_ffff) by (nonlinear_arith)
        requires
            0 <= index < count <= 0xffff_ffff,
            0 <= size <= 0xffff_ffff,
    ;
}

/// Which blocks are headers: those with the signature, a size that is neither too small nor past
/// the block, the checksum of themselves, and a table of 1 to 256 entries of at least 128
/// bytes. What a header says of the table is what stands in its fields.
pub proof fn law_which_blocks_are_headers(h: Seq<u8>)
    ensures
        table(h) is Some <==> {
            let size = le_at(h, 12, 4) as int;
            &&& h.len() >= 512
            &&& h.subrange(0, 8) == SIGNATURE@
            &&& 92 <= size <= h.len()
            &&& crc(put(h.subrange(0, size), 16, fill(4, 0))) == le_at(h, 16, 4)
            &&& le_at(h, 84, 4) >= 128
            &&& 1 <= le_at(h, 80, 4) <= 256
        },
        table(h) matches Some(t) ==> {
            &&& t.lba == le_at(h, 72, 8)
            &&& t.count == le_at(h, 80, 4)
            &&& t.entry_size == le_at(h, 84, 4)
            &&& t.crc == le_at(h, 88, 4)
        },
{
    if h.len() >= 512 {
        lemma_le_value_8(h.subrange(72, 80));
        lemma_le_value_4(h.subrange(72, 80).subrange(0, 4));
        lemma_le_value_4(h.subrange(72, 80).subrange(4, 8));
        lemma_le_value_4(h.subrange(80, 84));
        lemma_le_value_4(h.subrange(84, 88));
        lemma_le_value_4(h.subrange(88, 92));
    }
}

/// Entry `i` of an array is the bytes at `i` times the size of an entry, and it defines a
/// partition when one of the bytes of its type is not zero.
pub proof fn law_entries_are_where_they_belong(bytes: Seq<u8>, t: Table, i: int, k: int)
    requires
        0 <= i < t.count,
        0 <= k < t.entry_size,
        t.entry_size >= 16,
        (i + 1) * t.entry_size <= bytes.len(),
    ensures
        entries_of(bytes, t).len() == t.count,
        entries_of(bytes, t)[i].len() == t.entry_size,
        entries_of(bytes, t)[i][k] == bytes[i * t.entry_size + k],
        defined(entries_of(bytes, t)[i]) <==> exists|j: int|
            0 <= j < 16 && #[trigger] entries_of(bytes, t)[i][j] != 0,
{
    let e = entries_of(bytes, t)[i];
    assert(0 <= i * t.entry_size && i * t.entry_size + t.entry_size <= bytes.len())
        by (nonlinear_arith)
        requires
            0 <= i,
            (i + 1) * t.entry_size <= bytes.len(),
    ;
    if !defined(e) {
        assert forall|j: int| 0 <= j < 16 implies #[trigger] e[j] == 0 by {
            assert(type_of(e)[j] == e[j]);
        }
    }
    if forall|j: int| 0 <= j < 16 ==> #[trigger] e[j] == 0 {
        assert forall|j: int| 0 <= j < 16 implies #[trigger] type_of(e)[j] == 0 by {
            assert(e[j] == 0);
        }
        assert(type_of(e) =~= fill(16, 0));
    }
}

} // verus!
