//! Publishes the machine's disks, their partitions, and their FAT volumes.
//!
//! For each virtio disk there is, on its own handle, a device path and
//! `EFI_BLOCK_IO_PROTOCOL`; for each GPT partition on it, another handle with the
//! partition's device path and Block I/O; and on every partition that holds a FAT
//! volume, `EFI_SIMPLE_FILE_SYSTEM_PROTOCOL`. Discovery is done once: QEMU's `virt`
//! machine has no hot-plug to wait for.
use crate::block::{steady, BlockDevice, BlockError};
use crate::block_io::{media, media_of, Media};
use crate::firmware::fat::{fat_opens, mount, mounts, Volume};
use crate::platform::storage::block::SubDevice;
use crate::platform::storage::device_path::{
    disk, disk_bytes, end_bytes, partition, partition_bytes,
};
use crate::gpt::ESP_TYPE;
use crate::platform::storage::gpt::{finds, partitions, sensible, Partition};
use crate::text::{decimal_text, hex_digits, push_decimal, push_hex_digits, texts};
use vstd::prelude::*;

verus! {

/// The storage component.
pub struct Storage;

/// A disk that opened, and where it is on the bus.
pub struct Found<D> {
    pub bus: u8,
    pub slot: u8,
    pub func: u8,
    pub device: D,
}

/// A FAT volume on a partition.
pub struct Mounted<'d> {
    pub volume: Volume<'d>,
    /// The volume's size in bytes.
    pub size: u64,
    pub block_size: u32,
}

/// What goes onto a handle: its device path, its Block I/O media and the blocks of the
/// disk they are, the volume where there is one, and what is said of it.
pub struct Publication<'d> {
    pub path: Vec<u8>,
    pub media: Media,
    pub first_lba: u64,
    pub block_count: u64,
    pub volume: Option<Mounted<'d>>,
    pub lines: Vec<String>,
}

/// A partition of a disk, as a device of its own.
pub open spec fn view_of<'a, D: BlockDevice>(device: &'a D, part: Partition) -> SubDevice<&'a D> {
    SubDevice {
        device,
        first_lba: part.first_lba,
        block_count: (part.last_lba - part.first_lba + 1) as u64,
    }
}

/// What is said of a disk.
pub open spec fn disk_text<D: BlockDevice>(found: Found<D>) -> Seq<char> {
    "storage: virtio-blk at "@ + hex_digits(found.bus as nat, 2) + ":"@ + hex_digits(
        found.slot as nat,
        2,
    ) + "."@ + decimal_text(found.func as nat) + ": "@ + decimal_text(found.device.blocks() as nat)
        + " sectors"@ + (if found.device.writable() {
        ""@
    } else {
        " (read-only)"@
    })
}

/// What is said of a partition with a volume of a size.
pub open spec fn volume_text(part: Partition, size: u64) -> Seq<char> {
    "storage: partition "@ + decimal_text(part.number as nat) + (if part.type_guid@ == ESP_TYPE@ {
        " (ESP)"@
    } else {
        ""@
    }) + " ("@ + decimal_text((size / 1_048_576) as nat) + " MiB) published as a FAT volume"@
}

/// Whether a publication is that of a partition.
pub open spec fn publishes<D: BlockDevice>(
    published: Publication<'_>,
    found: Found<D>,
    part: Partition,
    media_id: u32,
) -> bool {
    let view = view_of(&found.device, part);
    let size = view.block_count * found.device.size_of_block();
    &&& published.path@ == partition_bytes(found.slot, found.func, part) + end_bytes()
    &&& published.media == media_of(view, media_id, false, true, false)
    &&& published.first_lba == part.first_lba
    &&& published.block_count == part.last_lba - part.first_lba + 1
    &&& match published.volume {
        Some(mounted) => {
            &&& mounts(&view, Some(mounted.volume))
            &&& mounted.size == size
            &&& mounted.block_size == found.device.size_of_block()
            &&& texts(published.lines@) == seq![volume_text(part, mounted.size)]
        },
        None => {
            &&& mounts(&view, None)
            &&& texts(published.lines@) == Seq::<Seq<char>>::empty()
        },
    }
}

/// Whether publications are those of a disk, whose partitions may be `parts`: the disk
/// itself, then its partitions in order, numbered from `media_id` on.
pub open spec fn covers<D: BlockDevice>(
    published: Seq<Publication<'_>>,
    found: Found<D>,
    media_id: u32,
    parts: Option<Seq<Partition>>,
) -> bool {
    &&& finds(&found.device, parts)
    &&& published.len() == 1 + (match parts {
        Some(parts) => parts.len(),
        None => 0,
    })
    &&& published[0].path@ == disk_bytes(found.slot, found.func) + end_bytes()
    &&& published[0].media == media_of(found.device, media_id, false, false, false)
    &&& published[0].first_lba == 0
    &&& published[0].block_count == found.device.blocks()
    &&& published[0].volume is None
    &&& texts(published[0].lines@) == (match parts {
        Some(_) => seq![disk_text(found)],
        None => seq![disk_text(found), "storage: no valid GPT on the disk"@],
    })
    &&& parts is Some ==> forall|i: int|
        0 <= i < parts->0.len() ==> #[trigger] publishes(
            published[1 + i],
            found,
            parts->0[i],
            (media_id + 1 + i) as u32,
        )
}

/// Whether publications are those of a disk, by what the disk may answer.
pub open spec fn covered<D: BlockDevice>(
    published: Seq<Publication<'_>>,
    found: Found<D>,
    media_id: u32,
) -> bool {
    exists|parts: Option<Seq<Partition>>| #[trigger] covers(published, found, media_id, parts)
}

/// A partition that always answers the same has a volume published exactly when what it
/// answers mounts as FAT, and a block elsewhere that fails does not matter.
pub proof fn law_volume_where_it_mounts<D: BlockDevice>(
    published: Publication<'_>,
    found: Found<D>,
    part: Partition,
    media_id: u32,
    data: Seq<Option<Seq<u8>>>,
)
    requires
        publishes(published, found, part, media_id),
        steady(&view_of(&found.device, part), data),
    ensures
        published.volume is Some == fat_opens(data),
        published.volume is Some ==> published.volume->0.volume@ == Some(data),
{
}

/// A partition of a disk that always answers the same always answers with its part of
/// that.
pub proof fn law_part_is_steady<D: BlockDevice>(
    device: &D,
    part: Partition,
    data: Seq<Option<Seq<u8>>>,
)
    requires
        steady(device, data),
        part.first_lba <= part.last_lba < device.blocks(),
    ensures
        steady(&view_of(device, part), data.subrange(part.first_lba as int, part.last_lba + 1)),
{
    let block = device.size_of_block();
    let view = view_of(device, part);
    let mine = data.subrange(part.first_lba as int, part.last_lba + 1);
    assert(mine.len() * block <= data.len() * block) by (nonlinear_arith)
        requires
            mine.len() <= data.len(),
    ;
    assert(block as nat / (block as nat) == 1) by (nonlinear_arith)
        requires
            block > 0,
    ;
    assert forall|lba: u64, before: Seq<u8>, after: Seq<u8>, error: Option<BlockError>|
        lba < mine.len() && before.len() == block implies match mine[lba as int] {
        Some(bytes) => (#[trigger] view.reads(lba, before, after, error)) == (error is None && after
            == bytes),
        None => view.reads(lba, before, after, error) ==> error is Some,
    } by {
        let at = (part.first_lba + lba) as u64;
        assert(mine[lba as int] == data[at as int]);
        assert(view.reads(lba, before, after, error) == device.reads(at, before, after, error));
    }
}

fn disk_line<D: BlockDevice>(found: &Found<D>) -> (line: String)
    ensures
        line@ == disk_text(*found),
{
    let mut line: String = String::from_str("storage: virtio-blk at ");
    push_hex_digits(&mut line, found.bus as u64, 2);
    line.append(":");
    push_hex_digits(&mut line, found.slot as u64, 2);
    line.append(".");
    push_decimal(&mut line, found.func as u64);
    line.append(": ");
    push_decimal(&mut line, found.device.block_count());
    line.append(" sectors");
    if found.device.is_writable() {
        line.append("");
    } else {
        line.append(" (read-only)");
    }
    line
}

fn volume_line(part: &Partition, size: u64) -> (line: String)
    ensures
        line@ == volume_text(*part, size),
{
    let mut line: String = String::from_str("storage: partition ");
    push_decimal(&mut line, part.number as u64);
    if part.is_esp() {
        line.append(" (ESP)");
    } else {
        line.append("");
    }
    line.append(" (");
    push_decimal(&mut line, size / 1_048_576);
    line.append(" MiB) published as a FAT volume");
    line
}

/// What goes onto the handle of a partition.
fn publish_partition<'d, D: BlockDevice>(found: &'d Found<D>, part: &Partition, media_id: u32) -> (
published: Publication<'d>)
    requires
        part.first_lba <= part.last_lba < found.device.blocks(),
        found.device.blocks() * found.device.size_of_block() <= u64::MAX,
    ensures
        publishes(published, *found, *part, media_id),
{
    let blocks: u64 = part.blocks();
    let path: Vec<u8> = partition(found.slot, found.func, part);
    let view: SubDevice<&'d D> = SubDevice::new(&found.device, part.first_lba, blocks);
    let media: Media = media(&view, media_id, false, true, false);
    let block_size: u32 = view.block_size();
    proof {
        assert(blocks * block_size <= found.device.blocks() * found.device.size_of_block())
            by (nonlinear_arith)
            requires
                blocks <= found.device.blocks(),
                block_size == found.device.size_of_block(),
        ;
    }
    let size: u64 = blocks * block_size as u64;
    let mut lines: Vec<String> = Vec::new();
    assert(texts(lines@) =~= Seq::<Seq<char>>::empty());
    let mut mounted: Option<Mounted<'d>> = None;
    match mount(view) {
        Some(volume) => {
            lines.push(volume_line(part, size));
            assert(texts(lines@) =~= seq![volume_text(*part, size)]);
            mounted = Some(Mounted { volume, size, block_size });
        },
        None => {},
    }
    Publication {
        path,
        media,
        first_lba: part.first_lba,
        block_count: blocks,
        volume: mounted,
        lines,
    }
}

/// What goes onto the handle of a disk: all its blocks, and no volume.
fn whole_disk<'d, D: BlockDevice>(
    found: &'d Found<D>,
    path: Vec<u8>,
    media: Media,
    lines: Vec<String>,
) -> (published: Publication<'d>)
    ensures
        published.path == path,
        published.media == media,
        published.first_lba == 0,
        published.block_count == found.device.blocks(),
        published.volume is None,
        published.lines == lines,
{
    let block_count: u64 = found.device.block_count();
    Publication { path, media, first_lba: 0, block_count, volume: None, lines }
}

/// What goes onto the handles of a disk and its partitions, numbered from `media_id`
/// on.
pub fn publish_disk<'d, D: BlockDevice>(found: &'d Found<D>, media_id: u32) -> (published: Vec<
    Publication<'d>,
>)
    requires
        found.device.blocks() * found.device.size_of_block() <= u64::MAX,
        media_id + 257 <= u32::MAX,
    ensures
        covered(published@, *found, media_id),
        1 <= published@.len() <= 257,
{
    let mut lines: Vec<String> = Vec::new();
    lines.push(disk_line(found));
    assert(texts(lines@) =~= seq![disk_text(*found)]);
    let path: Vec<u8> = disk(found.slot, found.func);
    let media: Media = media(&found.device, media_id, false, false, false);
    let parts: Vec<Partition> = match partitions(&found.device) {
        Some(parts) => parts,
        None => {
            lines.push(String::from_str("storage: no valid GPT on the disk"));
            assert(texts(lines@) =~= seq![
                disk_text(*found),
                "storage: no valid GPT on the disk"@,
            ]);
            let mut published: Vec<Publication<'d>> = Vec::new();
            published.push(whole_disk(found, path, media, lines));
            assert(covers(published@, *found, media_id, None));
            return published;
        },
    };
    let mut published: Vec<Publication<'d>> = Vec::new();
    published.push(whole_disk(found, path, media, lines));
    let ghost whole = published@[0];
    let mut next: usize = 0;
    while next < parts.len()
        invariant
            next <= parts@.len(),
            sensible(parts@, found.device.blocks()),
            found.device.blocks() * found.device.size_of_block() <= u64::MAX,
            media_id + 257 <= u32::MAX,
            published@.len() == 1 + next,
            published@[0] == whole,
            forall|i: int|
                0 <= i < next ==> #[trigger] publishes(
                    published@[1 + i],
                    *found,
                    parts@[i],
                    (media_id + 1 + i) as u32,
                ),
        decreases parts@.len() - next,
    {
        let ghost before = published@;
        let one: Publication<'d> = publish_partition(found, &parts[next], media_id + 1 + next as u32);
        published.push(one);
        assert forall|i: int| 0 <= i < next + 1 implies #[trigger] publishes(
            published@[1 + i],
            *found,
            parts@[i],
            (media_id + 1 + i) as u32,
        ) by {
            if i < next {
                assert(published@[1 + i] == before[1 + i]);
                assert(publishes(before[1 + i], *found, parts@[i], (media_id + 1 + i) as u32));
            }
        }
        next = next + 1;
    }
    assert(covers(published@, *found, media_id, Some(parts@)));
    published
}

/// How many handles the first `k` disks take.
pub open spec fn handles_before(published: Seq<Vec<Publication<'_>>>, k: int) -> int
    decreases k,
{
    if k <= 0 {
        0
    } else {
        handles_before(published, k - 1) + published[k - 1]@.len()
    }
}

proof fn lemma_handles_before<'d>(
    a: Seq<Vec<Publication<'d>>>,
    b: Seq<Vec<Publication<'d>>>,
    k: int,
)
    requires
        0 <= k <= a.len(),
        k <= b.len(),
        forall|i: int| 0 <= i < k ==> a[i] == b[i],
    ensures
        handles_before(a, k) == handles_before(b, k),
    decreases k,
{
    if k > 0 {
        lemma_handles_before(a, b, k - 1);
    }
}

impl Storage {
    /// What goes onto handles for the disks that were found, disk by disk, with the
    /// media numbered from one up; and what is said when there is no disk. A bus has
    /// room for no more functions than `found` may hold.
    pub fn entry_point<'d, D: BlockDevice>(self, found: &'d Vec<Found<D>>) -> (answer: (
        Vec<Vec<Publication<'d>>>,
        Option<String>,
    ))
        requires
            found@.len() <= 65_536,
            forall|i: int|
                0 <= i < found@.len() ==> (#[trigger] found@[i]).device.blocks()
                    * found@[i].device.size_of_block() <= u64::MAX,
        ensures
            answer.0@.len() == found@.len(),
            forall|i: int|
                0 <= i < found@.len() ==> covered(
                        (#[trigger] answer.0@[i])@,
                        found@[i],
                        (1 + handles_before(answer.0@, i)) as u32,
                    ),
            match answer.1 {
                Some(line) => found@.len() == 0 && line@ == "storage: no virtio block devices"@,
                None => found@.len() > 0,
            },
    {
        let mut published: Vec<Vec<Publication<'d>>> = Vec::new();
        let mut media_id: u32 = 1;
        let mut next: usize = 0;
        while next < found.len()
            invariant
                next <= found@.len(),
                found@.len() <= 65_536,
                forall|i: int|
                    0 <= i < found@.len() ==> (#[trigger] found@[i]).device.blocks()
                        * found@[i].device.size_of_block() <= u64::MAX,
                published@.len() == next,
                media_id == 1 + handles_before(published@, next as int),
                media_id <= 1 + 257 * next,
                forall|i: int|
                    0 <= i < next ==> covered(
                        (#[trigger] published@[i])@,
                        found@[i],
                        (1 + handles_before(published@, i)) as u32,
                    ),
            decreases found@.len() - next,
        {
            let ghost before = published@;
            let one: Vec<Publication<'d>> = publish_disk(&found[next], media_id);
            let count: usize = one.len();
            published.push(one);
            proof {
                lemma_handles_before(before, published@, next as int);
                assert forall|i: int| 0 <= i < next + 1 implies covered(
                        (#[trigger] published@[i])@,
                        found@[i],
                        (1 + handles_before(published@, i)) as u32,
                    ) by {
                    lemma_handles_before(before, published@, i);
                    if i < next {
                        assert(published@[i] == before[i]);
                        assert(covered(
                            before[i]@,
                            found@[i],
                            (1 + handles_before(before, i)) as u32,
                        ));
                    }
                }
            }
            media_id = media_id + count as u32;
            next = next + 1;
        }
        if found.len() == 0 {
            return (published, Some(String::from_str("storage: no virtio block devices")));
        }
        (published, None)
    }
}

} // verus!
