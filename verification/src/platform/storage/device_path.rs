//! Device paths for the storage stack.
//!
//! `LoadImage` resolves a file path by finding the handle whose device path is
//! the longest prefix of it, and an application finds its own volume from the
//! device handle it was loaded from. Both need real paths:
//!
//! ```text
//! disk       PciRoot(0x0)/Pci(slot,func)
//! partition  PciRoot(0x0)/Pci(slot,func)/HD(n,GPT,<guid>,start,size)
//! file       ...partition.../\EFI\BOOT\BOOTAA64.EFI
//! ```
use crate::bytes::{
    copy_range, fill, get_u16, le_bytes, lemma_le_bytes_len, lemma_le_value_of_bytes, lemma_widths,
    push_fill, push_le, push_slice, push_units, unit_bytes,
};
use crate::firmware::uefi::device_path::{is_node, matched_from, node_length};
use crate::platform::storage::gpt::Partition;
use crate::utf16::{encode, units_of};
use vstd::prelude::*;
use vstd::string::*;

verus! {

pub const TYPE_HARDWARE: u8 = 0x01;

pub const SUBTYPE_PCI: u8 = 0x01;

pub const TYPE_ACPI: u8 = 0x02;

pub const SUBTYPE_ACPI: u8 = 0x01;

pub const TYPE_MEDIA: u8 = 0x04;

pub const SUBTYPE_HARD_DRIVE: u8 = 0x01;

pub const SUBTYPE_FILE_PATH: u8 = 0x04;

pub const TYPE_END: u8 = 0x7f;

pub const SUBTYPE_END_ENTIRE: u8 = 0xff;

/// `EISA_PNP_ID(0x0A08)`: a PCI Express root bridge.
pub const PNP_PCIE_ROOT: u32 = 0x0a08_41d0;

/// A node: its type, its subtype, its length, and its data.
pub open spec fn node_bytes(kind: u8, sub_type: u8, data: Seq<u8>) -> Seq<u8> {
    seq![kind, sub_type] + le_bytes(4 + data.len(), 2) + data
}

/// The end node.
pub open spec fn end_bytes() -> Seq<u8> {
    node_bytes(TYPE_END, SUBTYPE_END_ENTIRE, Seq::empty())
}

/// The nodes of a disk's path, without the end node.
pub open spec fn disk_bytes(slot: u8, func: u8) -> Seq<u8> {
    node_bytes(TYPE_ACPI, SUBTYPE_ACPI, le_bytes(PNP_PCIE_ROOT as nat, 4) + fill(4, 0))
        + node_bytes(TYPE_HARDWARE, SUBTYPE_PCI, seq![func, slot])
}

/// The nodes of a partition's path, without the end node.
pub open spec fn partition_bytes(slot: u8, func: u8, partition: Partition) -> Seq<u8> {
    disk_bytes(slot, func) + node_bytes(
        TYPE_MEDIA,
        SUBTYPE_HARD_DRIVE,
        le_bytes(partition.number as nat, 4) + le_bytes(partition.first_lba as nat, 8) + le_bytes(
            (partition.last_lba - partition.first_lba + 1) as nat,
            8,
        ) + partition.unique_guid@ + seq![2u8, 2u8],
    )
}

/// Appends a node.
fn node(path: &mut Vec<u8>, kind: u8, sub_type: u8, data: &[u8])
    ensures
        final(path)@ == old(path)@ + node_bytes(kind, sub_type, data@),
{
    path.push(kind);
    path.push(sub_type);
    assert(path@ =~= old(path)@ + seq![kind, sub_type]);
    let size: u128 = 4 + data.len() as u128;
    let low: u64 = (size % 65536) as u64;
    push_le(path, low, 2);
    proof {
        lemma_low_bytes(size as nat);
    }
    push_slice(path, data);
    assert(path@ =~= old(path)@ + node_bytes(kind, sub_type, data@));
}

/// Two bytes of a number are those of its low 16 bits.
proof fn lemma_low_bytes(n: nat)
    ensures
        le_bytes(n % 65536, 2) == le_bytes(n, 2),
{
    reveal_with_fuel(le_bytes, 3);
    assert(n % 65536 % 256 == n % 256);
    assert(n % 65536 / 256 % 256 == n / 256 % 256);
}

/// Appends the end node.
fn end(path: &mut Vec<u8>)
    ensures
        final(path)@ == old(path)@ + end_bytes(),
{
    let empty: Vec<u8> = Vec::new();
    node(path, TYPE_END, SUBTYPE_END_ENTIRE, &empty);
    assert(empty@ =~= Seq::<u8>::empty());
}

fn disk_nodes(slot: u8, func: u8) -> (path: Vec<u8>)
    ensures
        path@ == disk_bytes(slot, func),
{
    let mut path: Vec<u8> = Vec::new();
    let mut acpi: Vec<u8> = Vec::new();
    push_le(&mut acpi, PNP_PCIE_ROOT as u64, 4);
    assert(acpi@ =~= le_bytes(PNP_PCIE_ROOT as nat, 4));
    push_fill(&mut acpi, 4, 0);
    node(&mut path, TYPE_ACPI, SUBTYPE_ACPI, &acpi);
    let mut pci: Vec<u8> = Vec::new();
    pci.push(func);
    pci.push(slot);
    assert(pci@ =~= seq![func, slot]);
    node(&mut path, TYPE_HARDWARE, SUBTYPE_PCI, &pci);
    assert(path@ =~= disk_bytes(slot, func));
    path
}

fn partition_nodes(slot: u8, func: u8, partition: &Partition) -> (path: Vec<u8>)
    requires
        partition.first_lba <= partition.last_lba,
        partition.last_lba - partition.first_lba < u64::MAX,
    ensures
        path@ == partition_bytes(slot, func, *partition),
{
    let mut path: Vec<u8> = disk_nodes(slot, func);
    let mut data: Vec<u8> = Vec::new();
    push_le(&mut data, partition.number as u64, 4);
    assert(data@ =~= le_bytes(partition.number as nat, 4));
    push_le(&mut data, partition.first_lba, 8);
    push_le(&mut data, partition.blocks(), 8);
    push_slice(&mut data, &partition.unique_guid);
    let ghost before = data@;
    data.push(2);
    data.push(2);
    assert(data@ =~= before + seq![2u8, 2u8]);
    node(&mut path, TYPE_MEDIA, SUBTYPE_HARD_DRIVE, &data);
    path
}

/// A disk's path.
pub fn disk(slot: u8, func: u8) -> (path: Vec<u8>)
    ensures
        path@ == disk_bytes(slot, func) + end_bytes(),
{
    let mut path: Vec<u8> = disk_nodes(slot, func);
    end(&mut path);
    path
}

/// A partition's path.
pub fn partition(slot: u8, func: u8, part: &Partition) -> (path: Vec<u8>)
    requires
        part.first_lba <= part.last_lba,
        part.last_lba - part.first_lba < u64::MAX,
    ensures
        path@ == partition_bytes(slot, func, *part) + end_bytes(),
{
    let mut path: Vec<u8> = partition_nodes(slot, func, part);
    end(&mut path);
    path
}

/// Where a path ends from a node on: at a node of the end type, or where there is
/// no whole node.
pub open spec fn end_from(path: Seq<u8>, at: int) -> int
    decreases path.len() - at,
{
    if at < 0 || !is_node(path, at) || path[at] == TYPE_END {
        at
    } else {
        end_from(path, at + node_length(path, at))
    }
}

/// The byte length of a device path up to, not including, its end node.
pub fn length_without_end(path: &[u8]) -> (length: usize)
    ensures
        length == end_from(path@, 0),
        length <= path@.len(),
{
    let size: usize = path.len();
    let mut offset: usize = 0;
    loop
        invariant
            offset <= size,
            size == path@.len(),
            end_from(path@, 0) == end_from(path@, offset as int),
        decreases size - offset,
    {
        if size - offset < 4 {
            return offset;
        }
        let length: usize = get_u16(path, offset + 2) as usize;
        if path[offset] == TYPE_END || length < 4 || size - offset < length {
            return offset;
        }
        offset = offset + length;
    }
}

/// A path with a file-path node naming a file in place of its end, and an end.
pub open spec fn file_bytes(prefix: Seq<u8>, file: Seq<char>) -> Seq<u8> {
    prefix.subrange(0, end_from(prefix, 0)) + node_bytes(
        TYPE_MEDIA,
        SUBTYPE_FILE_PATH,
        unit_bytes(units_of(file)) + fill(2, 0),
    ) + end_bytes()
}

/// `prefix` followed by a file-path node naming `file`.
pub fn append_file(prefix: &[u8], file: &str) -> (path: Vec<u8>)
    ensures
        path@ == file_bytes(prefix@, file@),
{
    let length: usize = length_without_end(prefix);
    let mut path: Vec<u8> = copy_range(prefix, 0, length);
    let mut name: Vec<u8> = Vec::new();
    let units: Vec<u16> = encode(file);
    push_units(&mut name, &units);
    assert(name@ =~= unit_bytes(units_of(file@)));
    push_fill(&mut name, 2, 0);
    node(&mut path, TYPE_MEDIA, SUBTYPE_FILE_PATH, &name);
    end(&mut path);
    path
}

/// A node, as a path holds it.
pub struct Piece {
    pub kind: u8,
    pub sub_type: u8,
    pub data: Seq<u8>,
}

/// The bytes of nodes, one behind the other.
pub open spec fn pieces_bytes(s: Seq<Piece>) -> Seq<u8>
    decreases s.len(),
{
    if s.len() == 0 {
        Seq::empty()
    } else {
        node_bytes(s[0].kind, s[0].sub_type, s[0].data) + pieces_bytes(s.drop_first())
    }
}

/// Whether nodes can stand before the end of a path.
pub open spec fn proper(s: Seq<Piece>) -> bool {
    forall|i: int|
        0 <= i < s.len() ==> (#[trigger] s[i]).kind != TYPE_END && s[i].data.len() + 4 <= 0xffff
}

/// A node that stands in a path is read as it was written.
proof fn lemma_node_in(before: Seq<u8>, kind: u8, sub_type: u8, data: Seq<u8>, after: Seq<u8>)
    requires
        data.len() + 4 <= 0xffff,
    ensures
        ({
            let path = before + node_bytes(kind, sub_type, data) + after;
            let at = before.len() as int;
            &&& node_length(path, at) == 4 + data.len()
            &&& is_node(path, at)
            &&& path[at] == kind
            &&& path[at + 1] == sub_type
            &&& path.subrange(at, at + 4 + data.len()) == node_bytes(kind, sub_type, data)
        }),
{
    let path = before + node_bytes(kind, sub_type, data) + after;
    let at = before.len() as int;
    let n = 4 + data.len();
    lemma_widths();
    lemma_le_bytes_len(n, 2);
    lemma_le_value_of_bytes(n, 2);
    assert(path.subrange(at + 2, at + 4) =~= le_bytes(n, 2));
    assert(path.subrange(at, at + 4 + data.len()) =~= node_bytes(kind, sub_type, data));
}

/// A path of nodes and an end is a prefix of every path that starts with the same
/// nodes and goes on with another whole node: all of its nodes match. This is how
/// a file's path leads to the partition that holds it.
pub proof fn law_nodes_are_a_prefix(
    before: Seq<u8>,
    nodes: Seq<Piece>,
    next: Piece,
    after: Seq<u8>,
    left: nat,
)
    requires
        proper(nodes),
        next.data.len() + 4 <= 0xffff,
        nodes.len() < left,
    ensures
        ({
            let path = before + pieces_bytes(nodes) + node_bytes(
                next.kind,
                next.sub_type,
                next.data,
            ) + after;
            let prefix = before + pieces_bytes(nodes) + end_bytes();
            matched_from(path, prefix, before.len() as int, left) == Some(
                (before.len() + pieces_bytes(nodes).len()) as int,
            )
        }),
    decreases nodes.len(),
{
    let tail = node_bytes(next.kind, next.sub_type, next.data);
    let path = before + pieces_bytes(nodes) + tail + after;
    let prefix = before + pieces_bytes(nodes) + end_bytes();
    let at = before.len() as int;
    if nodes.len() == 0 {
        assert(path =~= before + tail + after);
        assert(prefix =~= before + end_bytes() + Seq::empty());
        lemma_node_in(before, next.kind, next.sub_type, next.data, after);
        lemma_node_in(before, TYPE_END, SUBTYPE_END_ENTIRE, Seq::empty(), Seq::empty());
    } else {
        let first = nodes[0];
        let piece = node_bytes(first.kind, first.sub_type, first.data);
        let rest = nodes.drop_first();
        let sofar = before + piece;
        assert(first.kind != TYPE_END);
        lemma_le_bytes_len(4 + first.data.len(), 2);
        assert(path =~= before + piece + (pieces_bytes(rest) + tail + after));
        assert(prefix =~= before + piece + (pieces_bytes(rest) + end_bytes()));
        lemma_node_in(
            before,
            first.kind,
            first.sub_type,
            first.data,
            pieces_bytes(rest) + tail + after,
        );
        lemma_node_in(
            before,
            first.kind,
            first.sub_type,
            first.data,
            pieces_bytes(rest) + end_bytes(),
        );
        assert forall|i: int| 0 <= i < rest.len() implies (#[trigger] rest[i]).kind != TYPE_END
            && rest[i].data.len() + 4 <= 0xffff by {
            assert(rest[i] == nodes[i + 1]);
        }
        law_nodes_are_a_prefix(sofar, rest, next, after, (left - 1) as nat);
        assert(path =~= sofar + pieces_bytes(rest) + tail + after);
        assert(prefix =~= sofar + pieces_bytes(rest) + end_bytes());
    }
}

/// A path of nodes and an end ends behind its nodes, whatever follows; and a file's path is the
/// nodes of the path it is below, a node with the file's name, and an end.
pub proof fn law_file_goes_behind_the_nodes(nodes: Seq<Piece>, after: Seq<u8>, file: Seq<char>)
    requires
        proper(nodes),
    ensures
        ({
            let path = pieces_bytes(nodes) + end_bytes() + after;
            &&& end_from(path, 0) == pieces_bytes(nodes).len()
            &&& file_bytes(path, file) == pieces_bytes(nodes) + node_bytes(
                TYPE_MEDIA,
                SUBTYPE_FILE_PATH,
                unit_bytes(units_of(file)) + fill(2, 0),
            ) + end_bytes()
        }),
{
    let path = pieces_bytes(nodes) + end_bytes() + after;
    lemma_end_behind(Seq::empty(), nodes, after);
    assert(Seq::<u8>::empty() + pieces_bytes(nodes) + end_bytes() + after =~= path);
    assert(path.subrange(0, pieces_bytes(nodes).len() as int) =~= pieces_bytes(nodes));
}

proof fn lemma_end_behind(before: Seq<u8>, nodes: Seq<Piece>, after: Seq<u8>)
    requires
        proper(nodes),
    ensures
        end_from(before + pieces_bytes(nodes) + end_bytes() + after, before.len() as int)
            == before.len() + pieces_bytes(nodes).len(),
    decreases nodes.len(),
{
    let path = before + pieces_bytes(nodes) + end_bytes() + after;
    let at = before.len() as int;
    if nodes.len() == 0 {
        assert(path =~= before + end_bytes() + after);
        lemma_node_in(before, TYPE_END, SUBTYPE_END_ENTIRE, Seq::empty(), after);
    } else {
        let one = nodes[0];
        let head = node_bytes(one.kind, one.sub_type, one.data);
        let rest = nodes.drop_first();
        let tail = pieces_bytes(rest) + end_bytes() + after;
        assert(path =~= before + head + tail);
        lemma_node_in(before, one.kind, one.sub_type, one.data, tail);
        assert forall|i: int| 0 <= i < rest.len() implies (#[trigger] rest[i]).kind != TYPE_END
            && rest[i].data.len() + 4 <= 0xffff by {
            assert(nodes[i + 1].kind != TYPE_END);
        }
        lemma_end_behind(before + head, rest, after);
        assert(before + head + pieces_bytes(rest) + end_bytes() + after =~= path);
    }
}

} // verus!
