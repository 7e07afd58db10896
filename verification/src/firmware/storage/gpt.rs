//! GPT: finding the EFI System Partition on a disk.
use crate::block::{BlockDevice, BlockError};
use crate::bytes::{
    copy_range, fill, get_u64, get_units, le_at, lemma_unit_bytes_injective, matches_at, push_fill,
    push_slice, unit_bytes,
};
use crate::crc::{crc, crc32};
use crate::gpt::{
    defined, entries_of, entry_at, lemma_entry_inside, parse_header, table, type_of, Table,
    ESP_TYPE,
};
use crate::seqs::{first, lemma_first};
use vstd::prelude::*;

verus! {

/// Windows' basic-data GUID, which some tools put on an ESP; recognised only
/// when the partition is also named `EFI`.
pub const BASIC_DATA_TYPE: [u8; 16] = [
    0xa2, 0xa0, 0xd0, 0xeb, 0xe5, 0xb9, 0x33, 0x44, 0x87, 0xc0, 0x68, 0xb6, 0xb7, 0x26, 0x99, 0xc7,
];

/// Where the ESP is, in logical blocks of its device.
#[derive(Clone, Copy, PartialEq, Eq, Structural, Debug)]
pub struct EspInfo {
    pub first_lba: u64,
    pub last_lba: u64,
    /// The partition's one-based number in the entry array.
    pub number: u32,
}

/// Whether an entry's partition name is `EFI`: three units and a terminator.
pub open spec fn named_efi(entry: Seq<u8>) -> bool {
    entry.subrange(56, 64) == unit_bytes(seq![0x45u16, 0x46u16, 0x49u16, 0u16])
}

/// Whether an entry claims to be an ESP.
pub open spec fn claims_esp(entry: Seq<u8>) -> bool {
    type_of(entry) == ESP_TYPE@ || (type_of(entry) == BASIC_DATA_TYPE@ && named_efi(entry))
}

/// What an entry says of its partition.
pub open spec fn info(entry: Seq<u8>, index: int) -> EspInfo {
    EspInfo {
        first_lba: le_at(entry, 32, 8) as u64,
        last_lba: le_at(entry, 40, 8) as u64,
        number: (index + 1) as u32,
    }
}

/// The ESP among the entries of an array: the first that claims to be one, else
/// the first that is defined, because a disk with one partition and no type GUID
/// is far more likely to be a hand-made boot disk than a mistake. `None` when the
/// array does not match its checksum or defines nothing.
pub open spec fn esp_among(bytes: Seq<u8>, t: Table) -> Option<EspInfo> {
    let entries = entries_of(bytes, t);
    let claims = first(entries, |e: Seq<u8>| defined(e) && claims_esp(e));
    let any = first(entries, |e: Seq<u8>| defined(e));
    if crc(bytes) != t.crc {
        None
    } else if claims < entries.len() {
        Some(info(entries[claims], claims))
    } else if any < entries.len() {
        Some(info(entries[any], any))
    } else {
        None
    }
}

/// The ESP of an array: an entry of the ESP's type, or of the basic-data type and named
/// `EFI`, comes before any other; where there is one the first is taken, and otherwise the
/// first entry that is defined at all.
pub proof fn law_esp_is_the_first_that_claims_to_be(bytes: Seq<u8>, t: Table, k: int)
    requires
        crc(bytes) == t.crc,
        0 <= k < t.count,
        type_of(entries_of(bytes, t)[k]) != fill(16, 0),
        ({
            let entries = entries_of(bytes, t);
            let claims = |e: Seq<u8>| type_of(e) != fill(16, 0) && claims_esp(e);
            if claims(entries[k]) {
                forall|j: int| 0 <= j < k ==> !claims(#[trigger] entries[j])
            } else {
                &&& forall|j: int| 0 <= j < t.count ==> !claims(#[trigger] entries[j])
                &&& forall|j: int| 0 <= j < k ==> type_of(#[trigger] entries[j]) == fill(16, 0)
            }
        }),
    ensures
        esp_among(bytes, t) == Some(
            EspInfo {
                first_lba: le_at(entries_of(bytes, t)[k], 32, 8) as u64,
                last_lba: le_at(entries_of(bytes, t)[k], 40, 8) as u64,
                number: (k + 1) as u32,
            },
        ),
{
    let entries = entries_of(bytes, t);
    let claims = |e: Seq<u8>| type_of(e) != fill(16, 0) && claims_esp(e);
    let claim = |e: Seq<u8>| defined(e) && claims_esp(e);
    let any = |e: Seq<u8>| defined(e);
    if claims(entries[k]) {
        assert forall|j: int| 0 <= j < k implies !claim(#[trigger] entries[j]) by {
            assert(!claims(entries[j]));
        }
        lemma_first(entries, claim, k);
    } else {
        assert forall|j: int| 0 <= j < entries.len() implies !claim(#[trigger] entries[j]) by {
            assert(!claims(entries[j]));
        }
        lemma_first(entries, claim, entries.len() as int);
        lemma_first(entries, any, k);
    }
}

/// Whether an entry's partition name is `EFI`.
fn name_is_efi(entry: &Vec<u8>) -> (is: bool)
    requires
        entry@.len() >= 128,
    ensures
        is == named_efi(entry@),
{
    let units: Vec<u16> = get_units(entry, 56, 4);
    proof {
        if named_efi(entry@) {
            lemma_unit_bytes_injective(units@, seq![0x45u16, 0x46u16, 0x49u16, 0u16]);
        }
    }
    let is: bool = units[0] == 0x45 && units[1] == 0x46 && units[2] == 0x49 && units[3] == 0;
    if is {
        assert(units@ =~= seq![0x45u16, 0x46u16, 0x49u16, 0u16]);
    }
    is
}

/// The ESP among the entries of an array.
pub fn choose_esp(bytes: &Vec<u8>, t: &Table) -> (found: Option<EspInfo>)
    requires
        bytes@.len() == t.count * t.entry_size,
        128 <= t.entry_size,
        1 <= t.count <= 256,
    ensures
        found == esp_among(bytes@, *t),
{
    if crc32(bytes) != t.crc {
        return None;
    }
    let ghost entries = entries_of(bytes@, *t);
    let ghost claim = |e: Seq<u8>| defined(e) && claims_esp(e);
    let ghost any = |e: Seq<u8>| defined(e);
    let mut zeroes: Vec<u8> = Vec::new();
    push_fill(&mut zeroes, 16, 0);
    assert(zeroes@ =~= fill(16, 0));
    let mut fallback: Option<EspInfo> = None;
    let ghost mut at: int = -1;
    let mut index: u32 = 0;
    while index < t.count
        invariant
            index <= t.count <= 256,
            bytes@.len() == t.count * t.entry_size,
            128 <= t.entry_size,
            zeroes@ == fill(16, 0),
            crc(bytes@) == t.crc,
            entries == entries_of(bytes@, *t),
            claim == (|e: Seq<u8>| defined(e) && claims_esp(e)),
            any == (|e: Seq<u8>| defined(e)),
            forall|i: int| 0 <= i < index ==> !claim(#[trigger] entries[i]),
            match fallback {
                Some(found) => {
                    &&& 0 <= at < index
                    &&& any(entries[at])
                    &&& forall|i: int| 0 <= i < at ==> !any(#[trigger] entries[i])
                    &&& found == info(entries[at], at)
                },
                None => forall|i: int| 0 <= i < index ==> !any(#[trigger] entries[i]),
            },
        decreases t.count - index,
    {
        let entry: Vec<u8> = entry_at(bytes, t, index);
        assert(entries[index as int] == entry@);
        if !matches_at(&entry, 0, &zeroes) {
            let found = EspInfo {
                first_lba: get_u64(&entry, 32),
                last_lba: get_u64(&entry, 40),
                number: index + 1,
            };
            assert(any(entries[index as int]));
            if matches_at(&entry, 0, &ESP_TYPE) || (matches_at(&entry, 0, &BASIC_DATA_TYPE)
                && name_is_efi(&entry)) {
                proof {
                    assert(claim(entries[index as int]));
                    lemma_first(entries, claim, index as int);
                }
                return Some(found);
            }
            if fallback.is_none() {
                fallback = Some(found);
                proof {
                    at = index as int;
                }
            }
        }
        index = index + 1;
    }
    proof {
        lemma_first(entries, claim, entries.len() as int);
        if fallback is Some {
            lemma_first(entries, any, at);
        } else {
            lemma_first(entries, any, entries.len() as int);
        }
    }
    fallback
}

/// Whether reading the byte at `position` of a device may give `byte`.
pub open spec fn byte_reads<D: BlockDevice>(device: &D, position: int, byte: u8) -> bool {
    let block = device.size_of_block() as int;
    exists|before: Seq<u8>, after: Seq<u8>|
        #[trigger] device.reads((position / block) as u64, before, after, None) && before.len()
            == block && after.len() == block && after[position % block] == byte
}

/// Whether reading the block with the byte at `position` may fail with `error`.
pub open spec fn byte_fails<D: BlockDevice>(device: &D, position: int, error: BlockError) -> bool {
    let block = device.size_of_block() as int;
    exists|before: Seq<u8>, after: Seq<u8>|
        #[trigger] device.reads((position / block) as u64, before, after, Some(error))
            && before.len() == block
}

/// Whether reading a range of bytes may fail with `error`: one of the blocks they lie
/// in fails.
pub open spec fn range_fails<D: BlockDevice>(
    device: &D,
    offset: int,
    count: int,
    error: BlockError,
) -> bool {
    exists|position: int|
        offset <= position < offset + count && #[trigger] byte_fails(device, position, error)
}

/// Reads an arbitrary byte range through whole-block reads: the GPT's entry
/// array is at a block boundary in every disk this firmware meets, but the
/// helper does not assume it.
pub fn read_range<D: BlockDevice>(device: &D, offset: u64, count: usize) -> (read: Result<
    Vec<u8>,
    BlockError,
>)
    requires
        offset + count <= u64::MAX,
    ensures
        match read {
            Ok(data) => data@.len() == count && forall|i: int|
                0 <= i < count ==> #[trigger] byte_reads(device, offset + i, data@[i]),
            Err(error) => range_fails(device, offset as int, count as int, error),
        },
{
    let block: u32 = device.block_size();
    let mut data: Vec<u8> = Vec::new();
    let mut sector: Vec<u8> = Vec::new();
    push_fill(&mut sector, block as usize, 0);
    while data.len() < count
        invariant
            data@.len() <= count,
            block == device.size_of_block(),
            block > 0,
            sector@.len() == block,
            offset + count <= u64::MAX,
            forall|i: int|
                0 <= i < data@.len() ==> #[trigger] byte_reads(device, offset + i, data@[i]),
        decreases count - data@.len(),
    {
        let position: u64 = offset + data.len() as u64;
        let lba: u64 = position / block as u64;
        let within: usize = (position % block as u64) as usize;
        let ghost before = sector@;
        let outcome: Result<(), BlockError> = device.read(lba, &mut sector);
        match outcome {
            Ok(()) => {},
            Err(error) => {
                assert(device.reads(lba, before, sector@, Some(error)));
                assert(byte_fails(device, position as int, error));
                return Err(error);
            },
        }
        let left: usize = count - data.len();
        let room: usize = block as usize - within;
        let take: usize = if left <= room {
            left
        } else {
            room
        };
        let ghost so_far = data@;
        let chunk: Vec<u8> = copy_range(&sector, within, within + take);
        push_slice(&mut data, &chunk);
        proof {
            let b = block as int;
            assert forall|i: int| 0 <= i < data@.len() implies #[trigger] byte_reads(
                device,
                offset + i,
                data@[i],
            ) by {
                if i < so_far.len() {
                    assert(data@[i] == so_far[i]);
                } else {
                    let j = i - so_far.len();
                    let p = offset + i;
                    assert(p == position + j);
                    lemma_same_block(position as int, j, b);
                    assert(data@[i] == sector@[within + j]);
                    assert(device.reads((p / b) as u64, before, sector@, None));
                }
            }
        }
    }
    Ok(data)
}

proof fn lemma_same_block(position: int, j: int, b: int)
    requires
        b > 0,
        0 <= j,
        0 <= position,
        position % b + j < b,
    ensures
        (position + j) / b == position / b,
        (position + j) % b == position % b + j,
{
    vstd::arithmetic::div_mod::lemma_fundamental_div_mod(position, b);
    assert(b * (position / b) == (position / b) * b) by (nonlinear_arith);
    vstd::arithmetic::div_mod::lemma_fundamental_div_mod_converse(
        position + j,
        b,
        position / b,
        position % b + j,
    );
}

/// Whether the ESP on a device may be `found`, by what the device may answer.
pub open spec fn finds<D: BlockDevice>(device: &D, found: Option<EspInfo>) -> bool {
    &&& device.size_of_block() < 512 ==> found is None
    &&& match found {
        Some(esp) => exists|h: Seq<u8>, e: Seq<u8>| #[trigger]
            read_from(device, h, e) && esp_among(e, table(h)->Some_0) == Some(esp),
        None => device.size_of_block() < 512 || unreadable(device) || exists|h: Seq<u8>, e: Seq<
            u8,
        >| #[trigger]
            read_from(device, h, e) && esp_among(e, table(h)->Some_0) is None,
    }
}

/// A disk that always reads as one valid table has the ESP of that table: a failure
/// anywhere else on it does not matter.
pub proof fn law_valid_table_has_its_esp<D: BlockDevice>(
    device: &D,
    found: Option<EspInfo>,
    header: Seq<u8>,
    array: Seq<u8>,
)
    requires
        finds(device, found),
        device.size_of_block() >= 512,
        ({
            let block = device.size_of_block();
            let t = table(header)->0;
            &&& table(header) is Some && array.len() == t.count * t.entry_size
            &&& array.len() <= usize::MAX && t.lba * block + array.len() <= u64::MAX
            &&& forall|h: Seq<u8>, error: Option<BlockError>| #[trigger]
                device.reads(1, fill(block as nat, 0), h, error) ==> h == header && error is None
            &&& !array_fails(device, t)
            &&& forall|i: int, byte: u8|
                0 <= i < array.len() && #[trigger] byte_reads(device, t.lba * block + i, byte)
                    ==> byte == array[i]
        }),
    ensures
        found == esp_among(array, table(header)->0),
{
    let block = device.size_of_block();
    let t = table(header)->0;
    assert forall|h: Seq<u8>, e: Seq<u8>| #[trigger] read_from(device, h, e) implies h == header && e
        == array by {
        assert forall|i: int| 0 <= i < e.len() implies e[i] == array[i] by {
            assert(byte_reads(device, t.lba * block + i, e[i]));
        }
        assert(e =~= array);
    }
}

/// Finds the ESP on `device`, or `None` when there is no readable GPT.
pub fn find_esp<D: BlockDevice>(device: &D) -> (found: Option<EspInfo>)
    ensures
        finds(device, found),
{
    let block: u32 = device.block_size();
    if block < 512 {
        return None;
    }
    let mut header: Vec<u8> = Vec::new();
    push_fill(&mut header, block as usize, 0);
    assert(header@ =~= fill(block as nat, 0));
    let ghost blank = header@;
    let outcome: Result<(), BlockError> = device.read(1, &mut header);
    match outcome {
        Ok(()) => {},
        Err(error) => {
            assert(device.reads(1, blank, header@, Some(error)));
            return None;
        },
    }
    assert(device.reads(1, fill(device.size_of_block() as nat, 0), header@, None));
    let t: Table = match parse_header(&header) {
        Some(t) => t,
        None => {
            return None;
        },
    };
    proof {
        lemma_entry_inside(t.count - 1, t.count as int, t.entry_size as int);
    }
    let size: u64 = t.count as u64 * t.entry_size as u64;
    if size > usize::MAX as u64 || t.lba > (u64::MAX - size) / block as u64 {
        proof {
            if size <= usize::MAX {
                lemma_too_far(t.lba as int, size as int, block as int);
            }
        }
        return None;
    }
    proof {
        lemma_not_too_far(t.lba as int, size as int, block as int);
    }
    match read_range(device, t.lba * block as u64, size as usize) {
        Ok(entries) => {
            assert(read_from(device, header@, entries@));
            choose_esp(&entries, &t)
        },
        Err(error) => {
            assert(range_fails(
                device,
                t.lba * device.size_of_block(),
                t.count * t.entry_size,
                error,
            ));
            assert(array_fails(device, t));
            None
        },
    }
}

proof fn lemma_too_far(lba: int, size: int, block: int)
    requires
        0 < block,
        0 <= size <= u64::MAX,
        lba > (u64::MAX - size) / block,
    ensures
        lba * block + size > u64::MAX,
{
    vstd::arithmetic::div_mod::lemma_fundamental_div_mod(u64::MAX - size, block);
    let q = (u64::MAX - size) / block;
    assert(lba * block >= (q + 1) * block) by (nonlinear_arith)
        requires
            lba >= q + 1,
            block > 0,
    ;
    assert((q + 1) * block == q * block + block) by (nonlinear_arith);
    assert(block * q == q * block) by (nonlinear_arith);
}

proof fn lemma_not_too_far(lba: int, size: int, block: int)
    requires
        0 < block,
        0 <= lba,
        0 <= size <= u64::MAX,
        lba <= (u64::MAX - size) / block,
    ensures
        0 <= lba * block,
        lba * block + size <= u64::MAX,
{
    vstd::arithmetic::div_mod::lemma_fundamental_div_mod(u64::MAX - size, block);
    let q = (u64::MAX - size) / block;
    assert(0 <= lba * block <= q * block) by (nonlinear_arith)
        requires
            0 <= lba <= q,
            block > 0,
    ;
    assert(block * q == q * block) by (nonlinear_arith);
}

/// Whether `h` and `e` may be what reading the header block and the entry array
/// it describes gives.
pub open spec fn read_from<D: BlockDevice>(device: &D, h: Seq<u8>, e: Seq<u8>) -> bool {
    let block = device.size_of_block();
    &&& device.reads(1, fill(block as nat, 0), h, None)
    &&& h.len() == block
    &&& table(h) matches Some(t) && e.len() == t.count * t.entry_size && forall|i: int|
        0 <= i < e.len() ==> #[trigger] byte_reads(device, t.lba * block + i, e[i])
}

/// Whether reading the entry array of a table may fail.
pub open spec fn array_fails<D: BlockDevice>(device: &D, t: Table) -> bool {
    exists|error: BlockError| #[trigger]
        range_fails(device, t.lba * device.size_of_block(), t.count * t.entry_size, error)
}

/// Whether there may be no header or no array to look at: the device answers the
/// read of either with an error, what it answers to the first is no header, or the
/// array lies beyond what can be addressed.
pub open spec fn unreadable<D: BlockDevice>(device: &D) -> bool {
    let block = device.size_of_block();
    ||| exists|after: Seq<u8>, error: BlockError| #[trigger]
        device.reads(1, fill(block as nat, 0), after, Some(error))
    ||| exists|h: Seq<u8>| #[trigger]
        device.reads(1, fill(block as nat, 0), h, None) && match table(h) {
            None => true,
            Some(t) => t.count * t.entry_size > usize::MAX || t.lba * block + t.count * t.entry_size
                > u64::MAX || array_fails(device, t),
        }
}

} // verus!
