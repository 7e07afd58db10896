//! GPT: the partitions on a disk.
use crate::block::{BlockDevice, BlockError};
use crate::bytes::{copy_range, fill, get_16, get_u64, le_at, matches_at, push_fill, same_bytes};
use crate::crc::{crc, crc32};
use crate::gpt::{
    defined, entries_of, entry_at, lemma_entry_inside, parse_header, table, type_of, Table,
    ESP_TYPE,
};
use vstd::prelude::*;

verus! {

/// One defined partition.
#[derive(Clone, Copy, Debug)]
pub struct Partition {
    /// One-based index in the entry array: the number a device path carries.
    pub number: u32,
    pub first_lba: u64,
    pub last_lba: u64,
    pub type_guid: [u8; 16],
    pub unique_guid: [u8; 16],
}

impl Partition {
    /// Whether this is what the entry at `index` says.
    pub open spec fn from_entry(self, entry: Seq<u8>, index: int) -> bool {
        &&& self.number == index + 1
        &&& self.first_lba == le_at(entry, 32, 8)
        &&& self.last_lba == le_at(entry, 40, 8)
        &&& self.type_guid@ == type_of(entry)
        &&& self.unique_guid@ == entry.subrange(16, 32)
    }

    /// How many blocks the partition has.
    pub fn blocks(&self) -> (blocks: u64)
        requires
            self.first_lba <= self.last_lba,
            self.last_lba - self.first_lba < u64::MAX,
        ensures
            blocks == self.last_lba - self.first_lba + 1,
    {
        self.last_lba - self.first_lba + 1
    }

    /// Whether the partition is an EFI System Partition.
    pub fn is_esp(&self) -> (esp: bool)
        ensures
            esp == (self.type_guid@ == ESP_TYPE@),
    {
        same_bytes(&self.type_guid, &ESP_TYPE)
    }
}

/// Whether an entry is a partition of a device with `blocks` blocks.
pub open spec fn usable(entry: Seq<u8>, blocks: u64) -> bool {
    defined(entry) && le_at(entry, 32, 8) <= le_at(entry, 40, 8) < blocks
}

/// The indices below `n` of the entries that are partitions, in order.
pub open spec fn usable_below(entries: Seq<Seq<u8>>, n: int, blocks: u64) -> Seq<int>
    decreases n,
{
    if n <= 0 {
        Seq::empty()
    } else if usable(entries[n - 1], blocks) {
        usable_below(entries, n - 1, blocks).push(n - 1)
    } else {
        usable_below(entries, n - 1, blocks)
    }
}

/// The entries that are listed are exactly those that define a partition inside the device,
/// each once and in the order of the array.
pub proof fn law_every_partition_is_listed(entries: Seq<Seq<u8>>, n: int, blocks: u64)
    requires
        0 <= n,
    ensures
        forall|i: int|
            #[trigger] usable_below(entries, n, blocks).contains(i) <==> 0 <= i < n && type_of(
                entries[i],
            ) != fill(16, 0) && le_at(entries[i], 32, 8) <= le_at(entries[i], 40, 8) && le_at(
                entries[i],
                40,
                8,
            ) < blocks,
        forall|x: int, y: int|
            0 <= x < y < usable_below(entries, n, blocks).len() ==> #[trigger] usable_below(
                entries,
                n,
                blocks,
            )[x] < #[trigger] usable_below(entries, n, blocks)[y],
    decreases n,
{
    let all = usable_below(entries, n, blocks);
    if n > 0 {
        law_every_partition_is_listed(entries, n - 1, blocks);
        let before = usable_below(entries, n - 1, blocks);
        assert forall|i: int| #[trigger] all.contains(i) <==> 0 <= i < n && usable(
            entries[i],
            blocks,
        ) by {
            if all.contains(i) {
                let x = choose|x: int| 0 <= x < all.len() && all[x] == i;
                if x < before.len() {
                    assert(before[x] == i);
                    assert(before.contains(i));
                }
            }
            if 0 <= i < n && usable(entries[i], blocks) {
                if i < n - 1 {
                    assert(before.contains(i));
                    let x = choose|x: int| 0 <= x < before.len() && before[x] == i;
                    assert(all[x] == i);
                } else {
                    assert(all[all.len() - 1] == i);
                }
            }
        }
        assert forall|x: int, y: int| 0 <= x < y < all.len() implies #[trigger] all[x]
            < #[trigger] all[y] by {
            assert(all[x] == before[x]);
            if y < before.len() {
                assert(all[y] == before[y]);
            } else {
                assert(before.contains(before[x]));
            }
        }
    }
}

/// Whether `found` are the partitions an entry array defines, in its order.
pub open spec fn lists(found: Seq<Partition>, bytes: Seq<u8>, t: Table, blocks: u64) -> bool {
    let entries = entries_of(bytes, t);
    let spots = usable_below(entries, t.count as int, blocks);
    &&& found.len() == spots.len()
    &&& forall|i: int|
        0 <= i < found.len() ==> (#[trigger] found[i]).from_entry(entries[spots[i]], spots[i])
}

/// The partitions an entry array defines on a device with `blocks` blocks;
/// `None` when the array does not match its checksum.
pub fn list_partitions(bytes: &Vec<u8>, t: &Table, blocks: u64) -> (found: Option<Vec<Partition>>)
    requires
        bytes@.len() == t.count * t.entry_size,
        128 <= t.entry_size,
        1 <= t.count <= 256,
    ensures
        match found {
            Some(found) => crc(bytes@) == t.crc && lists(found@, bytes@, *t, blocks),
            None => crc(bytes@) != t.crc,
        },
        found is Some ==> sensible(found->0@, blocks),
{
    if crc32(bytes) != t.crc {
        return None;
    }
    let ghost entries = entries_of(bytes@, *t);
    let mut zeroes: Vec<u8> = Vec::new();
    push_fill(&mut zeroes, 16, 0);
    assert(zeroes@ =~= fill(16, 0));
    let mut found: Vec<Partition> = Vec::new();
    let mut index: u32 = 0;
    while index < t.count
        invariant
            index <= t.count <= 256,
            bytes@.len() == t.count * t.entry_size,
            128 <= t.entry_size,
            zeroes@ == fill(16, 0),
            entries == entries_of(bytes@, *t),
            found@.len() == usable_below(entries, index as int, blocks).len(),
            found@.len() <= index,
            forall|i: int|
                0 <= i < found@.len() ==> (#[trigger] found@[i]).first_lba <= found@[i].last_lba
                    < blocks,
            forall|i: int|
                0 <= i < found@.len() ==> (#[trigger] found@[i]).from_entry(
                    entries[usable_below(entries, index as int, blocks)[i]],
                    usable_below(entries, index as int, blocks)[i],
                ),
        decreases t.count - index,
    {
        let entry: Vec<u8> = entry_at(bytes, t, index);
        assert(entries[index as int] == entry@);
        let first_lba: u64 = get_u64(&entry, 32);
        let last_lba: u64 = get_u64(&entry, 40);
        if !matches_at(&entry, 0, &zeroes) && first_lba <= last_lba && last_lba < blocks {
            assert(usable(entries[index as int], blocks));
            found.push(
                Partition {
                    number: index + 1,
                    first_lba,
                    last_lba,
                    type_guid: get_16(&entry, 0),
                    unique_guid: get_16(&entry, 16),
                },
            );
        }
        index = index + 1;
    }
    Some(found)
}

/// Whether `h` and `e` may be what reading the header block and the entry array
/// it describes gives: the array is read in whole blocks.
pub open spec fn read_from<D: BlockDevice>(device: &D, h: Seq<u8>, e: Seq<u8>) -> bool {
    let block = device.size_of_block();
    &&& device.reads(1, fill(block as nat, 0), h, None)
    &&& h.len() == block
    &&& table(h) matches Some(t) && e.len() == padded(t, block) && device.reads(
        t.lba,
        fill(padded(t, block), 0),
        e,
        None,
    )
}

/// The bytes of the whole blocks an entry array takes.
pub open spec fn padded(t: Table, block: u32) -> nat {
    ((t.count * t.entry_size + block - 1) / (block as int) * block) as nat
}

/// Whether reading the entry array of a table may fail.
pub open spec fn array_fails<D: BlockDevice>(device: &D, t: Table) -> bool {
    exists|after: Seq<u8>, error: BlockError| #[trigger]
        device.reads(t.lba, fill(padded(t, device.size_of_block()), 0), after, Some(error))
}

/// Whether there may be no header or no array to look at: the device answers the
/// read of either with an error, what it answers to the first is no header, or the
/// array is too large to hold.
pub open spec fn unreadable<D: BlockDevice>(device: &D) -> bool {
    let blank = fill(device.size_of_block() as nat, 0);
    ||| exists|after: Seq<u8>, error: BlockError| #[trigger]
        device.reads(1, blank, after, Some(error))
    ||| exists|h: Seq<u8>| #[trigger]
        device.reads(1, blank, h, None) && match table(h) {
            None => true,
            Some(t) => padded(t, device.size_of_block()) > usize::MAX || array_fails(device, t),
        }
}

/// Whether partitions are no more than an entry array has room for, each with blocks,
/// and inside a device.
pub open spec fn sensible(found: Seq<Partition>, blocks: u64) -> bool {
    &&& found.len() <= 256
    &&& forall|i: int|
        0 <= i < found.len() ==> (#[trigger] found[i]).first_lba <= found[i].last_lba < blocks
}

/// Whether the partitions on a device may be `found`, by what the device may answer.
pub open spec fn finds<D: BlockDevice>(device: &D, found: Option<Seq<Partition>>) -> bool {
    &&& device.size_of_block() < 512 ==> found is None
    &&& match found {
        Some(found) => exists|h: Seq<u8>, e: Seq<u8>| #[trigger]
            read_from(device, h, e) && ({
                let t = table(h)->Some_0;
                let array = e.subrange(0, t.count * t.entry_size);
                crc(array) == t.crc && lists(found, array, t, device.blocks())
            }),
        None => device.size_of_block() < 512 || unreadable(device) || exists|h: Seq<u8>, e: Seq<
            u8,
        >| #[trigger]
            read_from(device, h, e) && ({
                let t = table(h)->Some_0;
                crc(e.subrange(0, t.count * t.entry_size)) != t.crc
            }),
    }
}

/// A disk that always reads as one valid table has the partitions of that table: a
/// failure anywhere else on it does not matter.
pub proof fn law_valid_table_is_listed<D: BlockDevice>(
    device: &D,
    found: Option<Seq<Partition>>,
    header: Seq<u8>,
    array: Seq<u8>,
)
    requires
        finds(device, found),
        device.size_of_block() >= 512,
        ({
            let block = device.size_of_block();
            let t = table(header)->0;
            &&& table(header) is Some && padded(t, block) <= usize::MAX
            &&& crc(array.subrange(0, t.count * t.entry_size)) == t.crc
            &&& forall|h: Seq<u8>, error: Option<BlockError>| #[trigger]
                device.reads(1, fill(block as nat, 0), h, error) ==> h == header && error is None
            &&& forall|e: Seq<u8>, error: Option<BlockError>| #[trigger]
                device.reads(t.lba, fill(padded(t, block), 0), e, error) ==> e == array && error
                    is None
        }),
    ensures
        found is Some,
        lists(
            found->0,
            array.subrange(0, table(header)->0.count * table(header)->0.entry_size),
            table(header)->0,
            device.blocks(),
        ),
{
}

/// The partitions on `device`, or `None` when it has no valid GPT.
pub fn partitions<D: BlockDevice>(device: &D) -> (found: Option<Vec<Partition>>)
    ensures
        match found {
            Some(found) => finds(device, Some(found@)) && sensible(found@, device.blocks()),
            None => finds(device, None),
        },
{
    let block: u32 = device.block_size();
    if block < 512 {
        return None;
    }
    let mut header: Vec<u8> = Vec::new();
    push_fill(&mut header, block as usize, 0);
    assert(header@ =~= fill(block as nat, 0));
    let ghost blank = header@;
    match device.read(1, &mut header) {
        Ok(()) => {},
        Err(error) => {
            assert(device.reads(1, blank, header@, Some(error)));
            return None;
        },
    }
    assert(device.reads(1, fill(device.size_of_block() as nat, 0), header@, None));
    let t: Table = match parse_header(&header) {
        Some(t) => t,
        None => {
            return None;
        },
    };
    proof {
        lemma_entry_inside(t.count - 1, t.count as int, t.entry_size as int);
        assert(t.count * t.entry_size <= 256 * 0xffff_ffff) by (nonlinear_arith)
            requires
                0 <= t.count <= 256,
                0 <= t.entry_size <= 0xffff_ffff,
        ;
        lemma_padded(t, block);
    }
    let size: u64 = t.count as u64 * t.entry_size as u64;
    let whole: u64 = (size + block as u64 - 1) / block as u64 * block as u64;
    if whole > usize::MAX as u64 {
        return None;
    }
    let mut entries: Vec<u8> = Vec::new();
    push_fill(&mut entries, whole as usize, 0);
    assert(entries@ =~= fill(padded(t, block), 0));
    let ghost empty = entries@;
    match device.read(t.lba, &mut entries) {
        Ok(()) => {},
        Err(error) => {
            assert(device.reads(t.lba, empty, entries@, Some(error)));
            assert(array_fails(device, t));
            return None;
        },
    }
    assert(read_from(device, header@, entries@));
    let array: Vec<u8> = copy_range(&entries, 0, size as usize);
    list_partitions(&array, &t, device.block_count())
}

proof fn lemma_padded(t: Table, block: u32)
    requires
        512 <= block,
        0 <= t.count * t.entry_size <= 256 * 0xffff_ffff,
    ensures
        t.count * t.entry_size <= (t.count * t.entry_size + block - 1) / (block as int) * block
            <= t.count * t.entry_size + block,
{
    let n = t.count * t.entry_size;
    let b = block as int;
    vstd::arithmetic::div_mod::lemma_fundamental_div_mod(n + b - 1, b);
    assert(b * ((n + b - 1) / b) == (n + b - 1) / b * b) by (nonlinear_arith);
}

} // verus!
