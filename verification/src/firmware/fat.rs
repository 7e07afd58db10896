//! FAT, over the `hadris-fat` implementation.
//!
//! The filesystem itself is hadris-fat's; what this module adds is the two things
//! it needs from a firmware: an adapter that turns a block device into the byte
//! stream its reader wants, and the filesystem interface on top, so the boot
//! manager and the EFI file protocol above it never see FAT at all.
//!
//! Nodes re-walk the volume from the root on every operation rather than holding
//! a directory cursor. Directory walks on a boot volume are a handful of sectors,
//! and a boot loader opens two or three files.
use crate::block::{steady, BlockDevice, BlockError};
use crate::bytes::{copy_range, push_fill, push_slice, put, put_slice};
use crate::firmware::fs::{FileNode, FileSystem};
use crate::firmware::storage::gpt::{byte_fails, byte_reads};
use crate::seqs::{first, lemma_first, lemma_first_is};
use crate::text::{filled, join, joined, parts, path_names, texts};
use hadris_fat::sync::dir::FatDirIter;
use hadris_fat::sync::read::FileReader;
use hadris_fat::sync::{
    DirectoryEntry, FatDir, FatType, FatVolume, FatVolumeBuilder, FatVolumeReadExt, FileEntry,
    SeekFrom as FileSeek,
};
use vstd::prelude::*;
use vstd::string::*;

verus! {

/// A block device presenting a byte stream, which is why it has to serve
/// unaligned reads itself.
pub struct Adapter<D: BlockDevice> {
    pub device: D,
    pub position: u64,
}

/// Where a stream is asked to go.
#[derive(Clone, Copy, PartialEq, Eq, Structural, Debug)]
pub enum SeekFrom {
    Start(u64),
    Current(i64),
    End(i64),
}

impl<D: BlockDevice> Adapter<D> {
    /// The device's length in bytes.
    pub open spec fn end(&self) -> int {
        self.device.blocks() * self.device.size_of_block()
    }

    /// The place a request names.
    pub open spec fn target(&self, position: SeekFrom) -> int {
        match position {
            SeekFrom::Start(offset) => offset as int,
            SeekFrom::Current(delta) => self.position + delta,
            SeekFrom::End(delta) => self.end() + delta,
        }
    }

    pub fn new(device: D) -> (adapter: Adapter<D>)
        ensures
            adapter.device == device,
            adapter.position == 0,
    {
        Adapter { device, position: 0 }
    }

    /// Reads from where the stream is: as much as the buffer holds, up to the end
    /// of the device.
    pub fn read_bytes(&mut self, buffer: &mut Vec<u8>) -> (outcome: Result<usize, BlockError>)
        ensures
            final(self).device == old(self).device,
            match outcome {
                Ok(read) => read == final(self).position - old(self).position && streamed(
                    *old(self),
                    final(self).position,
                    old(buffer)@,
                    final(buffer)@,
                    None,
                ),
                Err(error) => streamed(
                    *old(self),
                    final(self).position,
                    old(buffer)@,
                    final(buffer)@,
                    Some(error),
                ),
            },
    {
        let block: u64 = self.device.block_size() as u64;
        let count: u64 = self.device.block_count();
        let size: usize = buffer.len();
        let ghost device = self.device;
        let ghost start = self.position;
        let ghost end = self.end();
        let ghost original = buffer@;
        let mut sector: Vec<u8> = Vec::new();
        push_fill(&mut sector, block as usize, 0);
        let mut done: usize = 0;
        while done < size
            invariant
                done <= size,
                size == buffer@.len(),
                size == original.len(),
                block == self.device.size_of_block(),
                0 < block <= u32::MAX,
                count == self.device.blocks(),
                sector@.len() == block,
                self.device == device,
                device == old(self).device,
                start == old(self).position,
                original == old(buffer)@,
                end == count * block,
                end == old(self).end(),
                self.position == start + done,
                forall|i: int|
                    0 <= i < done ==> #[trigger] byte_reads(&device, start + i, buffer@[i]),
                forall|i: int| done <= i < size ==> #[trigger] buffer@[i] == original[i],
            decreases size - done,
        {
            let lba: u64 = self.position / block;
            if lba >= count {
                proof {
                    let p = self.position as int;
                    let b = block as int;
                    assert(p >= (p / b) * b) by (nonlinear_arith)
                        requires
                            p >= 0,
                            b > 0,
                    ;
                    assert((p / b) * b >= count * b) by (nonlinear_arith)
                        requires
                            p / b >= count,
                            b > 0,
                    ;
                }
                return Ok(done);
            }
            let within: usize = (self.position % block) as usize;
            let left: usize = size - done;
            let room: usize = block as usize - within;
            let take: usize = if left <= room {
                left
            } else {
                room
            };
            if take as u64 > u64::MAX - self.position {
                return Ok(done);
            }
            let ghost before = sector@;
            let outcome: Result<(), BlockError> = self.device.read(lba, &mut sector);
            match outcome {
                Ok(()) => {},
                Err(error) => {
                    proof {
                        assert(device.reads(lba, before, sector@, Some(error)));
                        lemma_block_step(self.position as int, block as int, 1, count as int);
                    }
                    return Err(error);
                },
            }
            let chunk: Vec<u8> = copy_range(&sector, within, within + take);
            let ghost so_far = buffer@;
            put_slice(buffer, done, &chunk);
            proof {
                let p = self.position as int;
                let b = block as int;
                lemma_block_step(p, b, take as int, count as int);
                assert forall|i: int| 0 <= i < done + take implies #[trigger] byte_reads(
                    &device,
                    start + i,
                    buffer@[i],
                ) by {
                    if i < done {
                        assert(buffer@[i] == so_far[i]);
                    } else {
                        let j = i - done;
                        lemma_within(p, b, j);
                        assert(buffer@[i] == sector@[within + j]);
                        assert(device.reads(lba, before, sector@, None));
                    }
                }
            }
            done = done + take;
            self.position = self.position + take as u64;
        }
        Ok(done)
    }

    /// Moves the stream; `None`, and nothing moves, when that is before its start.
    pub fn seek_to(&mut self, position: SeekFrom) -> (moved: Option<u64>)
        ensures
            final(self).device == old(self).device,
            ({
                let target = old(self).target(position);
                if target < 0 {
                    moved is None && final(self).position == old(self).position
                } else {
                    moved == Some(final(self).position) && final(self).position == target
                        % 0x1_0000_0000_0000_0000
                }
            }),
    {
        let target: i128 = match position {
            SeekFrom::Start(offset) => offset as i128,
            SeekFrom::Current(delta) => self.position as i128 + delta as i128,
            SeekFrom::End(delta) => {
                let count: u64 = self.device.block_count();
                let block: u32 = self.device.block_size();
                proof {
                    assert(0 <= count * block <= 0xffff_ffff_ffff_ffff * 0xffff_ffff)
                        by (nonlinear_arith)
                        requires
                            0 <= count <= 0xffff_ffff_ffff_ffff,
                            0 <= block <= 0xffff_ffff,
                    ;
                }
                (count as u128 * block as u128) as i128 + delta as i128
            },
        };
        if target < 0 {
            return None;
        }
        self.position = (target as u128 % 0x1_0000_0000_0000_0000) as u64;
        Some(self.position)
    }
}

/// What a read from where a stream is may do: the bytes up to where it is afterwards
/// are those of the device, the rest of the buffer stays, and it stops short only at the
/// end of the device, where positions end, or at a block that fails.
pub open spec fn streamed<D: BlockDevice>(
    from: Adapter<D>,
    to: u64,
    before: Seq<u8>,
    after: Seq<u8>,
    error: Option<BlockError>,
) -> bool {
    let done = to - from.position;
    &&& 0 <= done <= before.len()
    &&& after.len() == before.len()
    &&& forall|i: int|
        0 <= i < done ==> #[trigger] byte_reads(&from.device, from.position + i, after[i])
    &&& forall|i: int| done <= i < before.len() ==> #[trigger] after[i] == before[i]
    &&& match error {
        None => done == before.len() || to >= from.end() || to + from.device.size_of_block()
            > u64::MAX,
        Some(error) => done < before.len() && to < from.end() && byte_fails(
            &from.device,
            to as int,
            error,
        ),
    }
}

#[verifier::external_type_specification]
#[verifier::external_body]
pub struct ExternalIoError(std::io::Error);

#[verifier::external_type_specification]
#[verifier::external_body]
pub struct ExternalSeekFrom(std::io::SeekFrom);

/// Where a `std::io::SeekFrom` asks a stream to go.
pub uninterp spec fn seek_asked(position: std::io::SeekFrom) -> SeekFrom;

/// Takes a `std::io::SeekFrom` apart: the same kind of place, and the same number.
#[verifier::external_body]
fn asked_of(position: std::io::SeekFrom) -> (asked: SeekFrom)
    ensures
        asked == seek_asked(position),
{
    match position {
        std::io::SeekFrom::Start(offset) => SeekFrom::Start(offset),
        std::io::SeekFrom::Current(delta) => SeekFrom::Current(delta),
        std::io::SeekFrom::End(delta) => SeekFrom::End(delta),
    }
}

/// `std::io::Error::from` on `std::io::ErrorKind::Other`: what the reader above a stream
/// is told of a block that failed. Nothing is claimed of the error.
#[verifier::external_body]
fn other_error() -> std::io::Error {
    std::io::Error::from(std::io::ErrorKind::Other)
}

/// `std::io::Error::from` on `std::io::ErrorKind::InvalidInput`: what the reader above
/// a stream is told of a place before its start. Nothing is claimed of the error.
#[verifier::external_body]
fn invalid_input() -> std::io::Error {
    std::io::Error::from(std::io::ErrorKind::InvalidInput)
}

/// The byte stream that hadris-fat reads.
impl<D: BlockDevice> std::io::Read for Adapter<D> {
    fn read(&mut self, buffer: &mut [u8]) -> (outcome: std::io::Result<usize>)
        ensures
            final(self).device == old(self).device,
            match outcome {
                Ok(read) => read == final(self).position - old(self).position && streamed(
                    *old(self),
                    final(self).position,
                    old(buffer)@,
                    final(buffer)@,
                    None,
                ),
                Err(_) => exists|error: BlockError| #[trigger]
                    streamed(
                        *old(self),
                        final(self).position,
                        old(buffer)@,
                        final(buffer)@,
                        Some(error),
                    ),
            },
    {
        let size: usize = buffer.len();
        let ghost original = buffer@;
        let mut held: Vec<u8> = copy_range(buffer, 0, size);
        assert(held@ =~= original);
        let outcome: Result<usize, BlockError> = self.read_bytes(&mut held);
        let mut next: usize = 0;
        while next < size
            invariant
                next <= size,
                size == buffer@.len(),
                size == held@.len(),
                forall|i: int| 0 <= i < next ==> #[trigger] buffer@[i] == held@[i],
            decreases size - next,
        {
            buffer[next] = held[next];
            next = next + 1;
        }
        assert(buffer@ =~= held@);
        match outcome {
            Ok(read) => Ok(read),
            Err(error) => {
                assert(streamed(*old(self), self.position, original, buffer@, Some(error)));
                Err(other_error())
            },
        }
    }
}

impl<D: BlockDevice> std::io::Seek for Adapter<D> {
    fn seek(&mut self, position: std::io::SeekFrom) -> (moved: std::io::Result<u64>)
        ensures
            final(self).device == old(self).device,
            ({
                let target = old(self).target(seek_asked(position));
                match moved {
                    Ok(at) => target >= 0 && at == final(self).position && at == target
                        % 0x1_0000_0000_0000_0000,
                    Err(_) => target < 0 && final(self).position == old(self).position,
                }
            }),
    {
        match self.seek_to(asked_of(position)) {
            Some(at) => Ok(at),
            None => Err(invalid_input()),
        }
    }
}

proof fn lemma_block_step(p: int, b: int, take: int, count: int)
    requires
        0 <= p,
        0 < b,
        0 <= take <= b - p % b,
        p / b < count,
    ensures
        p + take <= count * b,
{
    assert(p == (p / b) * b + p % b) by (nonlinear_arith)
        requires
            b > 0,
    ;
    assert((p / b + 1) * b <= count * b) by (nonlinear_arith)
        requires
            p / b + 1 <= count,
            b > 0,
    ;
    assert((p / b + 1) * b == (p / b) * b + b) by (nonlinear_arith);
}

proof fn lemma_within(p: int, b: int, j: int)
    requires
        0 <= p,
        0 < b,
        0 <= j < b - p % b,
    ensures
        (p + j) / b == p / b,
        (p + j) % b == p % b + j,
{
    assert((p + j) / b == p / b && (p + j) % b == p % b + j) by (nonlinear_arith)
        requires
            0 <= p,
            0 < b,
            0 <= j < b - p % b,
    ;
}

/// An entry of a directory: its name as stored, whether it is a directory, and
/// its size.
pub struct Entry {
    pub name: String,
    pub is_dir: bool,
    pub size: u64,
}

/// What an entry says.
pub open spec fn said(entry: Entry) -> (Seq<char>, bool, u64) {
    (entry.name@, entry.is_dir, entry.size)
}

/// What the entries of a list say.
pub open spec fn listing(s: Seq<Entry>) -> Seq<(Seq<char>, bool, u64)> {
    Seq::new(s.len(), |i: int| said(s[i]))
}

/// How wide the entries of a volume's allocation table are.
#[derive(Clone, Copy, PartialEq, Eq, Structural, Debug)]
pub enum FatKind {
    Fat12,
    Fat16,
    Fat32,
}

/// A volume that hadris-fat has mounted: a `hadris_fat::sync::FatVolume` over a stream,
/// to which nothing is written.
#[verifier::external_body]
pub struct Mounted<'d> {
    inner: FatVolume<Adapter<Box<dyn BlockDevice + 'd>>>,
}

/// A directory of a mounted volume: a `hadris_fat::sync::FatDir`.
#[verifier::external_body]
pub struct Folder<'v, 'd> {
    inner: FatDir<'v, Adapter<Box<dyn BlockDevice + 'd>>>,
}

/// A listing of a directory under way: a `hadris_fat::sync::dir::FatDirIter`.
#[verifier::external_body]
pub struct Listing<'v, 'd> {
    inner: FatDirIter<'v, Adapter<Box<dyn BlockDevice + 'd>>>,
}

/// A file that is being read: a `hadris_fat::sync::read::FileReader`.
#[verifier::external_body]
pub struct Reader<'v, 'd> {
    inner: FileReader<'v, Adapter<Box<dyn BlockDevice + 'd>>>,
}

#[verifier::external_type_specification]
#[verifier::external_body]
pub struct ExternalFileEntry(hadris_fat::sync::FileEntry);

/// What the device under a mounted volume always answers, block by block: the bytes of
/// a block, or `None` for one that always fails. Nothing when its answers may differ.
pub uninterp spec fn mounted_at(volume: Mounted<'_>) -> Option<Seq<Option<Seq<u8>>>>;

/// Where a directory is: on which blocks, and the numbers of the slots that lead to it
/// from the root.
pub uninterp spec fn folder_at(folder: Folder<'_, '_>) -> (Option<Seq<Option<Seq<u8>>>>, Seq<usize>);

/// Where a listing is: in which directory, and how many slots it has handed out.
pub uninterp spec fn listing_at(listing: Listing<'_, '_>) -> (
    Option<Seq<Option<Seq<u8>>>>,
    Seq<usize>,
    usize,
);

/// Where an entry is from, which directory and which slot of it, and whether it is a
/// directory.
pub uninterp spec fn file_at(file: FileEntry) -> (
    Option<Seq<Option<Seq<u8>>>>,
    Seq<usize>,
    usize,
    bool,
);

/// What has been done with a reader: of which entry it reads, where it was made to
/// start, and how many bytes each read since then asked for.
pub uninterp spec fn reader_at(reader: Reader<'_, '_>) -> (
    Option<Seq<Option<Seq<u8>>>>,
    Seq<usize>,
    usize,
    u64,
    Seq<usize>,
);

/// Whether hadris-fat mounts a volume with these blocks.
pub uninterp spec fn fat_opens(volume: Seq<Option<Seq<u8>>>) -> bool;

/// What kind of volume hadris-fat takes these blocks for.
pub uninterp spec fn fat_kind(volume: Seq<Option<Seq<u8>>>) -> FatKind;

/// What hadris-fat finds in a slot of a directory: nothing behind the last one, `None`
/// in one that cannot be read, and in any other the name, whether it is a directory,
/// and the size.
pub uninterp spec fn fat_slot(volume: Seq<Option<Seq<u8>>>, trail: Seq<usize>, index: usize) -> Option<
    Option<(Seq<char>, bool, u64)>,
>;

/// Whether hadris-fat finds its way to an offset of the file in a slot.
pub uninterp spec fn fat_seeks(
    volume: Seq<Option<Seq<u8>>>,
    trail: Seq<usize>,
    index: usize,
    offset: u64,
) -> bool;

/// What the last of several reads of the file in a slot gives, where the first starts
/// at an offset and each asks for so many bytes; nothing when it fails.
pub uninterp spec fn fat_read(
    volume: Seq<Option<Seq<u8>>>,
    trail: Seq<usize>,
    index: usize,
    offset: u64,
    asked: Seq<usize>,
) -> Option<Seq<u8>>;

/// Whether a slot holds a directory.
pub open spec fn is_folder(volume: Seq<Option<Seq<u8>>>, trail: Seq<usize>, index: usize) -> bool {
    match fat_slot(volume, trail, index) {
        Some(Some(entry)) => entry.1,
        _ => false,
    }
}

/// `hadris_fat::sync::FatVolumeBuilder::open` over a stream at its start, which it reads
/// as it needs to. Where the device always answers the same, whether that mounts goes by
/// name; where its answers may differ, nothing is claimed.
#[verifier::external_body]
fn open_volume<'d, D: BlockDevice + 'd>(stream: Adapter<D>) -> (opened: Option<Mounted<'d>>)
    requires
        stream.position == 0,
    ensures
        forall|data: Seq<Option<Seq<u8>>>| #[trigger]
            steady(&stream.device, data) ==> match opened {
                Some(volume) => fat_opens(data) && mounted_at(volume) == Some(data),
                None => !fat_opens(data),
            },
{
    let device: Box<dyn BlockDevice + 'd> = Box::new(stream.device);
    let inner = FatVolumeBuilder::new(Adapter { device, position: stream.position }).open().ok()?;
    Some(Mounted { inner })
}

/// `hadris_fat::sync::FatVolume::fat_type`, by name.
#[verifier::external_body]
fn kind_of(volume: &Mounted<'_>) -> (kind: FatKind)
    ensures
        mounted_at(*volume) matches Some(data) ==> kind == fat_kind(data),
{
    match volume.inner.fat_type() {
        FatType::Fat12 => FatKind::Fat12,
        FatType::Fat16 => FatKind::Fat16,
        FatType::Fat32 => FatKind::Fat32,
    }
}

/// `hadris_fat::sync::FatVolume::root_dir`: the directory that no slot leads to.
#[verifier::external_body]
fn root_dir<'v, 'd>(volume: &'v Mounted<'d>) -> (folder: Folder<'v, 'd>)
    ensures
        folder_at(folder) == (mounted_at(*volume), Seq::<usize>::empty()),
{
    Folder { inner: volume.inner.root_dir() }
}

/// `hadris_fat::sync::FatDir::entries`: a listing that starts at the first slot.
#[verifier::external_body]
fn entries<'v, 'd>(folder: &Folder<'v, 'd>) -> (listing: Listing<'v, 'd>)
    ensures
        listing_at(listing) == (folder_at(*folder).0, folder_at(*folder).1, 0usize),
{
    Listing { inner: folder.inner.entries() }
}

/// `hadris_fat::sync::dir::FatDirIter::next`: the entry in the next slot, as it says it.
/// What the slot holds goes by name where the device always answers the same.
#[verifier::external_body]
fn next_slot(listing: &mut Listing<'_, '_>) -> (slot: Option<Option<(Entry, FileEntry)>>)
    requires
        listing_at(*old(listing)).2 < usize::MAX,
    ensures
        ({
            let (volume, trail, index) = listing_at(*old(listing));
            &&& listing_at(*final(listing)) == (volume, trail, (index + 1) as usize)
            &&& slot matches Some(Some((entry, file))) ==> file_at(file) == (
                volume,
                trail,
                index,
                entry.is_dir,
            )
            &&& volume matches Some(data) ==> fat_slot(data, trail, index) == (match slot {
                None => None::<Option<(Seq<char>, bool, u64)>>,
                Some(None) => Some(None::<(Seq<char>, bool, u64)>),
                Some(Some((entry, _))) => Some(Some(said(entry))),
            })
        }),
{
    let slot = listing.inner.next()?;
    Some(slot.ok().map(|DirectoryEntry::Entry(file)| {
        let name = file.name().to_string();
        (Entry { name, is_dir: file.is_directory(), size: file.len() }, file)
    }))
}

/// `hadris_fat::sync::FatDir::open_entry` on an entry of the same volume: the directory
/// in that slot, and an error exactly when the entry is none.
#[verifier::external_body]
fn open_entry<'v, 'd>(folder: &Folder<'v, 'd>, file: &FileEntry) -> (opened: Option<
    Folder<'v, 'd>,
>)
    requires
        file_at(*file).0 == folder_at(*folder).0,
    ensures
        ({
            let (volume, trail, index, is_dir) = file_at(*file);
            match opened {
                Some(inner) => is_dir && folder_at(inner) == (volume, trail.push(index)),
                None => !is_dir,
            }
        }),
{
    let inner = folder.inner.open_entry(file).ok()?;
    Some(Folder { inner })
}

/// `hadris_fat::sync::FatVolumeReadExt::read_file` on an entry of the volume: a reader
/// at the start of the file, and an error exactly when the entry is a directory.
#[verifier::external_body]
fn read_file<'v, 'd>(volume: &'v Mounted<'d>, file: &FileEntry) -> (reader: Option<
    Reader<'v, 'd>,
>)
    requires
        file_at(*file).0 == mounted_at(*volume),
    ensures
        ({
            let (volume, trail, index, is_dir) = file_at(*file);
            match reader {
                Some(reader) => !is_dir && reader_at(reader) == (
                    volume,
                    trail,
                    index,
                    0u64,
                    Seq::<usize>::empty(),
                ),
                None => is_dir,
            }
        }),
{
    let inner = volume.inner.read_file(file).ok()?;
    Some(Reader { inner })
}

/// `hadris_fat::sync::read::FileReader::seek` to an offset from the start, of a reader
/// that has not moved yet. Whether it gets there goes by name where the device always
/// answers the same.
#[verifier::external_body]
fn seek_start(reader: &mut Reader<'_, '_>, offset: u64) -> (moved: bool)
    requires
        reader_at(*old(reader)).3 == 0,
        reader_at(*old(reader)).4.len() == 0,
    ensures
        ({
            let (volume, trail, index, _, asked) = reader_at(*old(reader));
            &&& volume matches Some(data) ==> moved == fat_seeks(data, trail, index, offset)
            &&& moved ==> reader_at(*final(reader)) == (volume, trail, index, offset, asked)
        }),
{
    reader.inner.seek(FileSeek::Start(offset)).is_ok()
}

/// `hadris_fat::sync::read::FileReader::read`: fills the start of a buffer, and says how
/// much of it, which is never more than it holds. What it reads goes by name where the
/// device always answers the same.
#[verifier::external_body]
fn read_some(reader: &mut Reader<'_, '_>, buffer: &mut Vec<u8>) -> (read: Option<usize>)
    ensures
        final(buffer)@.len() == old(buffer)@.len(),
        read matches Some(read) ==> read <= old(buffer)@.len(),
        ({
            let (volume, trail, index, offset, asked) = reader_at(*old(reader));
            let now = asked.push(old(buffer)@.len() as usize);
            &&& reader_at(*final(reader)) == (volume, trail, index, offset, now)
            &&& volume matches Some(data) ==> fat_read(data, trail, index, offset, now) == (
            match read {
                Some(read) => Some(final(buffer)@.subrange(0, read as int)),
                None => None::<Seq<u8>>,
            })
        }),
{
    reader.inner.read(buffer).ok()
}

/// The slots of the directory that a trail leads to: the first so many, or all where
/// there are fewer.
pub open spec fn slots_below(volume: Seq<Option<Seq<u8>>>, trail: Seq<usize>, count: nat) -> Seq<
    Option<(Seq<char>, bool, u64)>,
>
    decreases count,
{
    if count == 0 {
        Seq::empty()
    } else {
        let before = slots_below(volume, trail, (count - 1) as nat);
        match fat_slot(volume, trail, (count - 1) as usize) {
            Some(slot) if before.len() == count - 1 => before.push(slot),
            _ => before,
        }
    }
}

/// The slots of the directory that a trail leads to: all that can be counted.
pub open spec fn fat_entries(volume: Seq<Option<Seq<u8>>>, trail: Seq<usize>) -> Seq<
    Option<(Seq<char>, bool, u64)>,
> {
    slots_below(volume, trail, usize::MAX as nat)
}

/// Behind the last slot there are no more.
proof fn lemma_slots_end(volume: Seq<Option<Seq<u8>>>, trail: Seq<usize>, count: nat, more: nat)
    requires
        slots_below(volume, trail, count).len() == count,
        fat_slot(volume, trail, count as usize) is None,
        count <= usize::MAX,
        count <= more,
    ensures
        slots_below(volume, trail, more) == slots_below(volume, trail, count),
    decreases more,
{
    if count < more {
        lemma_slots_end(volume, trail, count, (more - 1) as nat);
    }
}

/// More slots begin with the same ones.
proof fn lemma_slots_grow(volume: Seq<Option<Seq<u8>>>, trail: Seq<usize>, count: nat, more: nat)
    requires
        count <= more,
    ensures
        slots_below(volume, trail, count).len() <= slots_below(volume, trail, more).len() <= more,
        forall|i: int|
            0 <= i < slots_below(volume, trail, count).len() ==> #[trigger] slots_below(
                volume,
                trail,
                more,
            )[i] == slots_below(volume, trail, count)[i],
    decreases more,
{
    if count < more {
        lemma_slots_grow(volume, trail, count, (more - 1) as nat);
    } else if count > 0 {
        lemma_slots_grow(volume, trail, (count - 1) as nat, (count - 1) as nat);
    }
}

/// A letter in lower case, if it is an ASCII one.
pub open spec fn lower(c: char) -> char {
    if 'A' <= c && c <= 'Z' {
        (c as u32 + 32) as char
    } else {
        c
    }
}

/// Whether two names are the same but for the case of ASCII letters.
pub open spec fn same_name(a: Seq<char>, b: Seq<char>) -> bool {
    a.len() == b.len() && forall|i: int|
        0 <= i < a.len() ==> lower(#[trigger] a[i]) == lower(b[i])
}

/// The names a path is made of.
pub open spec fn names_of(path: Seq<char>) -> Seq<Seq<char>> {
    filled(parts(path, true))
}

/// Whether a slot has an entry that a name matches.
pub open spec fn names(slot: Option<(Seq<char>, bool, u64)>, name: Seq<char>) -> bool {
    match slot {
        Some(entry) => same_name(entry.0, name),
        None => false,
    }
}

/// The number of the slot a name matches, or how many slots there are.
pub open spec fn matching(slots: Seq<Option<(Seq<char>, bool, u64)>>, name: Seq<char>) -> int {
    first(slots, |slot: Option<(Seq<char>, bool, u64)>| names(slot, name))
}

/// The trail and the number of the entry that names lead to, from the directory at
/// the end of a trail. Every name but the last has to name a directory.
pub open spec fn found_from(volume: Seq<Option<Seq<u8>>>, trail: Seq<usize>, names: Seq<Seq<char>>) -> Option<
    (Seq<usize>, int),
>
    decreases names.len(),
{
    if names.len() == 0 {
        None
    } else {
        let entries = fat_entries(volume, trail);
        let index = matching(entries, names[0]);
        if index >= entries.len() {
            None
        } else if names.len() == 1 {
            Some((trail, index))
        } else if !is_folder(volume, trail, index as usize) {
            None
        } else {
            found_from(volume, trail.push(index as usize), names.drop_first())
        }
    }
}

/// A file or directory of a mounted volume.
#[verifier::ext_equal]
pub struct NodeView {
    /// Path from the volume root, backslash-separated.
    pub path: Seq<char>,
    pub name: Seq<char>,
    pub is_dir: bool,
    pub size: u64,
}

/// The root of a volume.
pub open spec fn root_view() -> NodeView {
    NodeView { path: Seq::empty(), name: Seq::empty(), is_dir: true, size: 0 }
}

/// The node a path names.
pub open spec fn looked_up(volume: Seq<Option<Seq<u8>>>, path: Seq<char>) -> Option<NodeView> {
    if names_of(path).len() == 0 {
        Some(root_view())
    } else {
        match found_from(volume, Seq::empty(), names_of(path)) {
            None => None,
            Some((trail, index)) => {
                let (name, is_dir, size) = fat_entries(volume, trail)[index]->0;
                Some(NodeView { path: joined(names_of(path)), name, is_dir, size })
            },
        }
    }
}

/// The path of a child.
pub open spec fn child_path(path: Seq<char>, name: Seq<char>) -> Seq<char> {
    if path.len() == 0 {
        name
    } else {
        path + seq!['\\'] + name
    }
}

/// The slots of the directory that names lead to.
pub open spec fn entries_in(volume: Seq<Option<Seq<u8>>>, names: Seq<Seq<char>>) -> Option<
    Seq<Option<(Seq<char>, bool, u64)>>,
> {
    if names.len() == 0 {
        Some(fat_entries(volume, Seq::empty()))
    } else {
        match found_from(volume, Seq::empty(), names) {
            Some((trail, index)) if is_folder(volume, trail, index as usize) => Some(
                fat_entries(volume, trail.push(index as usize)),
            ),
            _ => None,
        }
    }
}

/// The entries of slots, without those that could not be read.
pub open spec fn readable(slots: Seq<Option<(Seq<char>, bool, u64)>>) -> Seq<(Seq<char>, bool, u64)>
    decreases slots.len(),
{
    if slots.len() == 0 {
        Seq::empty()
    } else {
        match slots.last() {
            Some(entry) => readable(slots.drop_last()).push(entry),
            None => readable(slots.drop_last()),
        }
    }
}

/// The child that an entry of the directory at a path is.
pub open spec fn child_of(path: Seq<char>, entry: (Seq<char>, bool, u64)) -> NodeView {
    NodeView {
        path: child_path(path, entry.0),
        name: entry.0,
        is_dir: entry.1,
        size: entry.2,
    }
}

/// The children of a node.
pub open spec fn children_of(volume: Seq<Option<Seq<u8>>>, node: NodeView) -> Seq<NodeView> {
    match entries_in(volume, names_of(node.path)) {
        Some(slots) if node.is_dir => Seq::new(
            readable(slots).len(),
            |i: int| child_of(node.path, readable(slots)[i]),
        ),
        _ => Seq::empty(),
    }
}

/// What reads one after the other give of a file, until enough is read, nothing
/// more comes, or a read fails. Each asks for what is still missing.
pub open spec fn gathered(
    volume: Seq<Option<Seq<u8>>>,
    trail: Seq<usize>,
    index: usize,
    offset: u64,
    asked: Seq<usize>,
    count: usize,
) -> Seq<u8>
    decreases count,
{
    let now = asked.push(count);
    if count == 0 {
        Seq::empty()
    } else {
        match fat_read(volume, trail, index, offset, now) {
            None => Seq::empty(),
            Some(data) => if data.len() == 0 || data.len() > count {
                Seq::empty()
            } else {
                data + gathered(volume, trail, index, offset, now, (count - data.len()) as usize)
            },
        }
    }
}

/// What a node gives of its contents.
pub open spec fn node_data(volume: Seq<Option<Seq<u8>>>, node: NodeView, offset: u64, count: usize) -> Seq<u8> {
    if node.is_dir {
        Seq::empty()
    } else {
        match found_from(volume, Seq::empty(), names_of(node.path)) {
            None => Seq::empty(),
            Some((trail, index)) => if is_folder(volume, trail, index as usize) || !fat_seeks(
                volume,
                trail,
                index as usize,
                offset,
            ) {
                Seq::empty()
            } else {
                gathered(volume, trail, index as usize, offset, Seq::empty(), count)
            },
        }
    }
}

/// The case of the letters in a path does not matter: names that are the same but for
/// case lead to the same entry.
pub proof fn law_case_does_not_matter(
    volume: Seq<Option<Seq<u8>>>,
    trail: Seq<usize>,
    a: Seq<Seq<char>>,
    b: Seq<Seq<char>>,
)
    requires
        a.len() == b.len(),
        forall|i: int| 0 <= i < a.len() ==> same_name(#[trigger] a[i], b[i]),
    ensures
        found_from(volume, trail, a) == found_from(volume, trail, b),
    decreases a.len(),
{
    if a.len() > 0 {
        let entries = fat_entries(volume, trail);
        assert(same_name(a[0], b[0]));
        lemma_same_match(entries, a[0], b[0]);
        let index = matching(entries, a[0]);
        let (x, y) = (a.drop_first(), b.drop_first());
        assert forall|i: int| 0 <= i < x.len() implies same_name(#[trigger] x[i], y[i]) by {
            assert(same_name(a[i + 1], b[i + 1]));
        }
        law_case_does_not_matter(volume, trail.push(index as usize), x, y);
    }
}

proof fn lemma_same_match(
    slots: Seq<Option<(Seq<char>, bool, u64)>>,
    a: Seq<char>,
    b: Seq<char>,
)
    requires
        same_name(a, b),
    ensures
        matching(slots, a) == matching(slots, b),
{
    let p = |slot: Option<(Seq<char>, bool, u64)>| names(slot, a);
    let q = |slot: Option<(Seq<char>, bool, u64)>| names(slot, b);
    assert forall|name: Seq<char>| same_name(name, a) == #[trigger] same_name(name, b) by {
        if same_name(name, a) {
            assert forall|i: int| 0 <= i < name.len() implies lower(#[trigger] name[i]) == lower(
                b[i],
            ) by {
                assert(lower(a[i]) == lower(b[i]));
            }
        }
        if same_name(name, b) {
            assert forall|i: int| 0 <= i < name.len() implies lower(#[trigger] name[i]) == lower(
                a[i],
            ) by {
                assert(lower(a[i]) == lower(b[i]));
            }
        }
    }
    lemma_first_is(slots, p);
    let k = first(slots, p);
    assert forall|i: int| 0 <= i < k implies !q(#[trigger] slots[i]) by {
        assert(!p(slots[i]));
    }
    lemma_first(slots, q, k);
}

/// Whether two characters are the same but for the case of an ASCII letter.
fn same_letter(a: char, b: char) -> (same: bool)
    ensures
        same == (lower(a) == lower(b)),
{
    let x: u32 = if a >= 'A' && a <= 'Z' {
        a as u32 + 32
    } else {
        a as u32
    };
    let y: u32 = if b >= 'A' && b <= 'Z' {
        b as u32 + 32
    } else {
        b as u32
    };
    x == y
}

/// Whether two names are the same but for the case of ASCII letters.
pub fn names_match(a: &str, b: &str) -> (same: bool)
    ensures
        same == same_name(a@, b@),
{
    let size: usize = a.unicode_len();
    if size != b.unicode_len() {
        return false;
    }
    let mut at: usize = 0;
    while at < size
        invariant
            at <= size,
            size == a@.len(),
            size == b@.len(),
            forall|i: int| 0 <= i < at ==> lower(#[trigger] a@[i]) == lower(b@[i]),
        decreases size - at,
    {
        if !same_letter(a.get_char(at), b.get_char(at)) {
            assert(lower(a@[at as int]) != lower(b@[at as int]));
            return false;
        }
        at = at + 1;
    }
    true
}

/// A path with its names joined by backslashes.
pub fn normalise(path: &str) -> (normal: String)
    ensures
        normal@ == joined(names_of(path@)),
{
    let names: Vec<String> = path_names(path, true);
    join(&names)
}

/// What is known of the entry that a name matches in a directory: it has that name but
/// for case, and where the device always answers the same it is the first that does.
spec fn is_match(folder: Folder<'_, '_>, name: Seq<char>, found: Option<(Entry, FileEntry)>) -> bool {
    let (volume, trail) = folder_at(folder);
    &&& found matches Some((entry, file)) ==> {
        &&& same_name(entry.name@, name)
        &&& file_at(file).0 == volume && file_at(file).1 == trail
        &&& file_at(file).3 == entry.is_dir
    }
    &&& volume matches Some(data) ==> {
        let slots = fat_entries(data, trail);
        match found {
            Some((entry, file)) => {
                let index = file_at(file).2 as int;
                &&& index == matching(slots, name)
                &&& index < slots.len() && slots[index] == Some(said(entry))
                &&& fat_slot(data, trail, index as usize) == Some(Some(said(entry)))
            },
            None => matching(slots, name) == slots.len(),
        }
    }
}

/// The entry that a name matches in a directory.
fn find_in<'v, 'd>(folder: &Folder<'v, 'd>, name: &str) -> (found: Option<(Entry, FileEntry)>)
    ensures
        is_match(*folder, name@, found),
{
    let ghost volume = folder_at(*folder).0;
    let ghost trail = folder_at(*folder).1;
    let ghost hit = |slot: Option<(Seq<char>, bool, u64)>| names(slot, name@);
    let mut walk: Listing<'v, 'd> = entries(folder);
    let mut index: usize = 0;
    while index < usize::MAX
        invariant
            volume == folder_at(*folder).0,
            trail == folder_at(*folder).1,
            hit == (|slot: Option<(Seq<char>, bool, u64)>| names(slot, name@)),
            listing_at(walk) == (volume, trail, index),
            volume matches Some(data) ==> {
                let slots = slots_below(data, trail, index as nat);
                slots.len() == index && forall|i: int|
                    0 <= i < index ==> !hit(#[trigger] slots[i])
            },
        decreases usize::MAX - index,
    {
        let slot: Option<Option<(Entry, FileEntry)>> = next_slot(&mut walk);
        match slot {
            None => {
                proof {
                    if let Some(data) = volume {
                        lemma_slots_end(data, trail, index as nat, usize::MAX as nat);
                        lemma_first(fat_entries(data, trail), hit, index as int);
                    }
                }
                return None;
            },
            Some(Some((entry, file))) => {
                if names_match(entry.name.as_str(), name) {
                    proof {
                        if let Some(data) = volume {
                            let slots = slots_below(data, trail, (index + 1) as nat);
                            assert(slots[index as int] == Some(said(entry)));
                            lemma_slots_grow(
                                data,
                                trail,
                                (index + 1) as nat,
                                usize::MAX as nat,
                            );
                            let all = fat_entries(data, trail);
                            assert forall|i: int| 0 <= i < index implies !hit(
                                #[trigger] all[i],
                            ) by {
                                assert(all[i] == slots[i]);
                                assert(slots[i] == slots_below(data, trail, index as nat)[i]);
                            }
                            assert(all[index as int] == slots[index as int]);
                            lemma_first(all, hit, index as int);
                        }
                    }
                    return Some((entry, file));
                }
            },
            Some(None) => {},
        }
        proof {
            if let Some(data) = volume {
                let before = slots_below(data, trail, index as nat);
                let slots = slots_below(data, trail, (index + 1) as nat);
                assert forall|i: int| 0 <= i < index + 1 implies !hit(#[trigger] slots[i]) by {
                    if i < index {
                        assert(slots[i] == before[i]);
                    }
                }
            }
        }
        index = index + 1;
    }
    proof {
        if let Some(data) = volume {
            lemma_first(fat_entries(data, trail), hit, index as int);
        }
    }
    None
}

/// The entries of a directory, without the slots that cannot be read.
fn list_entries<'v, 'd>(folder: &Folder<'v, 'd>) -> (found: Vec<Entry>)
    ensures
        folder_at(*folder).0 matches Some(data) ==> listing(found@) == readable(
            fat_entries(data, folder_at(*folder).1),
        ),
{
    let ghost volume = folder_at(*folder).0;
    let ghost trail = folder_at(*folder).1;
    let mut found: Vec<Entry> = Vec::new();
    let mut walk: Listing<'v, 'd> = entries(folder);
    let mut index: usize = 0;
    assert(listing(found@) =~= Seq::<(Seq<char>, bool, u64)>::empty());
    while index < usize::MAX
        invariant
            volume == folder_at(*folder).0,
            trail == folder_at(*folder).1,
            listing_at(walk) == (volume, trail, index),
            volume matches Some(data) ==> {
                let slots = slots_below(data, trail, index as nat);
                slots.len() == index && listing(found@) == readable(slots)
            },
        decreases usize::MAX - index,
    {
        let ghost before = found@;
        let slot: Option<Option<(Entry, FileEntry)>> = next_slot(&mut walk);
        match slot {
            None => {
                proof {
                    if let Some(data) = volume {
                        lemma_slots_end(data, trail, index as nat, usize::MAX as nat);
                    }
                }
                return found;
            },
            Some(Some((entry, _))) => {
                found.push(entry);
                assert(listing(found@) =~= listing(before).push(said(entry)));
            },
            Some(None) => {},
        }
        proof {
            if let Some(data) = volume {
                let slots = slots_below(data, trail, (index + 1) as nat);
                assert(slots.drop_last() =~= slots_below(data, trail, index as nat));
            }
        }
        index = index + 1;
    }
    found
}

/// What was found: the directory it is in, what its slot says, and the entry.
struct Found<'v, 'd> {
    folder: Folder<'v, 'd>,
    entry: Entry,
    file: FileEntry,
}

impl<'v, 'd> Found<'v, 'd> {
    /// Whether this is what names lead to on a volume: it has the last of the names but
    /// for case, and where the device always answers the same it is the entry they lead to.
    spec fn is(self, volume: Option<Seq<Option<Seq<u8>>>>, names: Seq<Seq<char>>) -> bool {
        let (bytes, trail, index, is_dir) = file_at(self.file);
        &&& bytes == volume
        &&& folder_at(self.folder).0 == volume
        &&& is_dir == self.entry.is_dir
        &&& names.len() > 0 && same_name(self.entry.name@, names.last())
        &&& volume matches Some(data) ==> {
            &&& found_from(data, Seq::empty(), names) == Some((trail, index as int))
            &&& index < fat_entries(data, trail).len()
            &&& fat_entries(data, trail)[index as int] == Some(said(self.entry))
            &&& is_folder(data, trail, index) == is_dir
        }
    }
}

/// Finds the entry that names lead to, walking one component at a time.
fn find<'v, 'd>(volume: &'v Mounted<'d>, names: &Vec<String>) -> (found: Option<Found<'v, 'd>>)
    ensures
        match found {
            Some(found) => found.is(mounted_at(*volume), texts(names@)),
            None => mounted_at(*volume) matches Some(data) ==> found_from(
                data,
                Seq::empty(),
                texts(names@),
            ) is None,
        },
{
    let ghost all = texts(names@);
    let ghost bytes = mounted_at(*volume);
    let mut folder: Folder<'v, 'd> = root_dir(volume);
    let mut next: usize = 0;
    assert(all.subrange(0, all.len() as int) =~= all);
    while next < names.len()
        invariant
            next <= names@.len(),
            all == texts(names@),
            bytes == mounted_at(*volume),
            next > 0 ==> next < names@.len(),
            folder_at(folder).0 == bytes,
            bytes matches Some(data) ==> found_from(data, Seq::empty(), all) == found_from(
                data,
                folder_at(folder).1,
                all.subrange(next as int, all.len() as int),
            ),
        decreases names@.len() - next,
    {
        let ghost rest = all.subrange(next as int, all.len() as int);
        let ghost trail = folder_at(folder).1;
        assert(rest[0] == names@[next as int]@);
        let (entry, file): (Entry, FileEntry) = match find_in(&folder, names[next].as_str()) {
            Some(found) => found,
            None => {
                return None;
            },
        };
        if next + 1 == names.len() {
            assert(all.last() == names@[next as int]@);
            return Some(Found { folder, entry, file });
        }
        assert(rest.drop_first() =~= all.subrange(next + 1, all.len() as int));
        folder = match open_entry(&folder, &file) {
            Some(inner) => inner,
            None => {
                return None;
            },
        };
        next = next + 1;
    }
    None
}

/// The entries of the directory that names lead to.
fn list_directory(volume: &Mounted<'_>, names: &Vec<String>) -> (found: Option<Vec<Entry>>)
    ensures
        mounted_at(*volume) matches Some(data) ==> match found {
            Some(found) => entries_in(data, texts(names@)) is Some && listing(found@) == readable(
                entries_in(data, texts(names@))->0,
            ),
            None => entries_in(data, texts(names@)) is None,
        },
{
    if names.len() == 0 {
        return Some(list_entries(&root_dir(volume)));
    }
    let found: Found = match find(volume, names) {
        None => {
            return None;
        },
        Some(found) => found,
    };
    match open_entry(&found.folder, &found.file) {
        None => None,
        Some(folder) => Some(list_entries(&folder)),
    }
}

/// The path of a child.
fn path_of_child(path: &str, name: &str) -> (whole: String)
    ensures
        whole@ == child_path(path@, name@),
{
    let mut whole: String = String::new();
    if path.unicode_len() > 0 {
        proof {
            reveal_strlit("\\");
            assert("\\"@ =~= seq!['\\']);
        }
        whole.append(path);
        whole.append("\\");
    }
    whole.append(name);
    assert(whole@ =~= child_path(path@, name@));
    whole
}

/// A mounted volume.
pub struct Volume<'d> {
    pub inner: Mounted<'d>,
}

impl<'d> Volume<'d> {
    /// What the volume's device always answers, block by block; nothing when its answers
    /// may differ.
    pub open spec fn view(&self) -> Option<Seq<Option<Seq<u8>>>> {
        mounted_at(self.inner)
    }
}

/// Whether mounting a device may give `volume`. Where the device always answers the same,
/// that decides.
pub open spec fn mounts<D: BlockDevice>(device: &D, volume: Option<Volume<'_>>) -> bool {
    forall|data: Seq<Option<Seq<u8>>>| #[trigger]
        steady(device, data) ==> match volume {
            Some(volume) => fat_opens(data) && volume@ == Some(data),
            None => !fat_opens(data),
        }
}

/// Mounts the FAT volume on `device`, if there is one. The device is read as the volume
/// is used, and only where it is.
pub fn mount<'d, D: BlockDevice + 'd>(device: D) -> (volume: Option<Volume<'d>>)
    ensures
        mounts(&device, volume),
{
    match open_volume(Adapter::new(device)) {
        Some(inner) => Some(Volume { inner }),
        None => None,
    }
}

/// A file or directory on a mounted volume.
pub struct Node<'v, 'd> {
    pub volume: &'v Volume<'d>,
    /// Path from the volume root, backslash-separated.
    pub path: String,
    pub name: String,
    pub is_dir: bool,
    pub size: u64,
}

impl<'v, 'd> Node<'v, 'd> {
    pub open spec fn view(&self) -> NodeView {
        NodeView { path: self.path@, name: self.name@, is_dir: self.is_dir, size: self.size }
    }
}

/// What is said of a volume of a kind that was mounted.
pub fn mounted_line(kind: FatKind) -> (line: String)
    ensures
        line@ == "[fat] mounted a "@ + kind_text(kind) + " volume"@,
{
    let mut line: String = String::from_str("[fat] mounted a ");
    match kind {
        FatKind::Fat12 => line.append("FAT12"),
        FatKind::Fat16 => line.append("FAT16"),
        FatKind::Fat32 => line.append("FAT32"),
    }
    line.append(" volume");
    line
}

/// The name of a kind of volume.
pub open spec fn kind_text(kind: FatKind) -> Seq<char> {
    match kind {
        FatKind::Fat12 => "FAT12"@,
        FatKind::Fat16 => "FAT16"@,
        FatKind::Fat32 => "FAT32"@,
    }
}

/// What may be `Some` node of a volume.
pub open spec fn node_view(node: Option<Node<'_, '_>>) -> Option<NodeView> {
    match node {
        Some(node) => Some(node@),
        None => None,
    }
}

/// Whether a node may be what a path names: the root where it names nothing, and
/// otherwise one at that path, with the last of its names but for case.
pub open spec fn at_path(node: NodeView, path: Seq<char>) -> bool {
    let names = names_of(path);
    if names.len() == 0 {
        node == root_view()
    } else {
        node.path == joined(names) && same_name(node.name, names.last())
    }
}

/// Whether looking up a path on a volume may give a node. Where the device always
/// answers the same, that decides.
pub open spec fn may_look_up(
    volume: &Volume<'_>,
    path: Seq<char>,
    node: Option<Node<'_, '_>>,
) -> bool {
    &&& names_of(path).len() == 0 ==> node is Some
    &&& node matches Some(node) ==> node.volume == volume && at_path(node@, path)
    &&& volume@ matches Some(data) ==> node_view(node) == looked_up(data, path)
}

/// The children that the entries of the directory at a path are.
pub fn children_in<'v, 'd>(volume: &'v Volume<'d>, path: &str, found: &Vec<Entry>) -> (children: Vec<
    Node<'v, 'd>,
>)
    ensures
        children@.len() == found@.len(),
        forall|i: int|
            0 <= i < children@.len() ==> (#[trigger] children@[i])@ == child_of(
                path@,
                said(found@[i]),
            ) && children@[i].volume == volume,
{
    let mut children: Vec<Node<'v, 'd>> = Vec::new();
    let mut next: usize = 0;
    while next < found.len()
        invariant
            next <= found@.len(),
            children@.len() == next,
            forall|i: int|
                0 <= i < children@.len() ==> (#[trigger] children@[i])@ == child_of(
                    path@,
                    said(found@[i]),
                ) && children@[i].volume == volume,
        decreases found@.len() - next,
    {
        let entry: &Entry = &found[next];
        let node = Node {
            volume,
            path: path_of_child(path, entry.name.as_str()),
            name: entry.name.clone(),
            is_dir: entry.is_dir,
            size: entry.size,
        };
        assert(node@ =~= child_of(path@, said(found@[next as int])));
        children.push(node);
        next = next + 1;
    }
    children
}

/// Walks `path` from the root, returning the node it names.
fn lookup<'v, 'd>(volume: &'v Volume<'d>, path: &str) -> (node: Option<Node<'v, 'd>>)
    ensures
        may_look_up(volume, path@, node),
{
    let names: Vec<String> = path_names(path, true);
    if names.len() == 0 {
        let node = Node {
            volume,
            path: String::new(),
            name: String::new(),
            is_dir: true,
            size: 0,
        };
        assert(node@ =~= root_view());
        return Some(node);
    }
    match find(&volume.inner, &names) {
        None => None,
        Some(found) => {
            let Entry { name, is_dir, size } = found.entry;
            let node = Node { volume, path: join(&names), name, is_dir, size };
            proof {
                if let Some(data) = volume@ {
                    assert(node@ =~= looked_up(data, path@)->0);
                }
            }
            Some(node)
        },
    }
}

impl<'d> Volume<'d> {
    /// Looks up a path relative to the root.
    pub fn open(&self, path: &str) -> (node: Option<Node<'_, 'd>>)
        ensures
            may_look_up(self, path@, node),
    {
        lookup(self, path)
    }

    /// What kind of volume it is.
    pub fn fat_type(&self) -> (kind: FatKind)
        ensures
            self@ matches Some(data) ==> kind == fat_kind(data),
    {
        kind_of(&self.inner)
    }
}

impl<'v, 'd> FileSystem for &'v Volume<'d> {
    type Node = Node<'v, 'd>;

    open spec fn rooted(&self, node: Node<'v, 'd>) -> bool {
        node.volume == *self && node@ == root_view()
    }

    fn root(&self) -> (node: Node<'v, 'd>) {
        let node = Node {
            volume: *self,
            path: String::new(),
            name: String::new(),
            is_dir: true,
            size: 0,
        };
        assert(node@ =~= root_view());
        node
    }
}

impl<'v, 'd> FileNode for Node<'v, 'd> {
    open spec fn label(&self) -> Seq<char> {
        self.name@
    }

    open spec fn directory(&self) -> bool {
        self.is_dir
    }

    open spec fn size(&self) -> u64 {
        self.size
    }

    open spec fn opens(&self, name: Seq<char>, child: Option<Node<'v, 'd>>) -> bool {
        may_look_up(self.volume, child_path(self.path@, name), child)
    }

    open spec fn lists(&self, children: Seq<Node<'v, 'd>>) -> bool {
        &&& !self.is_dir ==> children.len() == 0
        &&& forall|i: int|
            0 <= i < children.len() ==> (#[trigger] children[i]).volume == self.volume
                && children[i].path@ == child_path(self.path@, children[i].name@)
        &&& self.volume@ matches Some(data) ==> children.len() == children_of(data, self@).len()
            && forall|i: int|
            0 <= i < children.len() ==> (#[trigger] children[i])@ == children_of(data, self@)[i]
    }

    open spec fn holds(&self, offset: u64, count: nat, data: Seq<u8>) -> bool {
        &&& self.is_dir ==> data.len() == 0
        &&& self.volume@ matches Some(bytes) ==> count <= usize::MAX ==> data == node_data(
            bytes,
            self@,
            offset,
            count as usize,
        )
    }

    fn name(&self) -> (name: String) {
        self.name.clone()
    }

    fn is_dir(&self) -> (is: bool) {
        self.is_dir
    }

    fn len(&self) -> (size: u64) {
        self.size
    }

    fn child(&self, name: &str) -> (child: Option<Node<'v, 'd>>) {
        let path: String = path_of_child(self.path.as_str(), name);
        lookup(self.volume, path.as_str())
    }

    fn children(&self) -> (children: Vec<Node<'v, 'd>>) {
        if !self.is_dir {
            return Vec::new();
        }
        let names: Vec<String> = path_names(self.path.as_str(), true);
        match list_directory(&self.volume.inner, &names) {
            Some(found) => {
                let children: Vec<Node<'v, 'd>> = children_in(
                    self.volume,
                    self.path.as_str(),
                    &found,
                );
                proof {
                    if let Some(data) = self.volume@ {
                        let all = listing(found@);
                        assert forall|i: int| 0 <= i < children@.len() implies (
                        #[trigger] children@[i])@ == children_of(data, self@)[i] by {
                            assert(all[i] == said(found@[i]));
                        }
                    }
                }
                children
            },
            None => Vec::new(),
        }
    }

    fn read_at(&self, offset: u64, buf: &mut Vec<u8>) -> (read: usize) {
        let size: usize = buf.len();
        let ghost original = buf@;
        assert(put(buf@, 0, Seq::<u8>::empty()) =~= buf@);
        assert(buf@.subrange(0, 0) =~= Seq::<u8>::empty());
        if self.is_dir {
            return 0;
        }
        let names: Vec<String> = path_names(self.path.as_str(), true);
        let found: Found = match find(&self.volume.inner, &names) {
            Some(found) => found,
            None => {
                return 0;
            },
        };
        let mut reader: Reader = match read_file(&self.volume.inner, &found.file) {
            Some(reader) => reader,
            None => {
                return 0;
            },
        };
        if !seek_start(&mut reader, offset) {
            return 0;
        }
        let data: Vec<u8> = gather(reader, size);
        put_slice(buf, 0, &data);
        assert(buf@.subrange(0, data@.len() as int) =~= data@);
        data.len()
    }

    fn dyn_clone(&self) -> (node: Node<'v, 'd>) {
        Node {
            volume: self.volume,
            path: self.path.clone(),
            name: self.name.clone(),
            is_dir: self.is_dir,
            size: self.size,
        }
    }
}

/// What reads one after the other give of the file of a reader on these blocks.
spec fn reads_on(data: Seq<Option<Seq<u8>>>, reader: Reader<'_, '_>, count: usize) -> Seq<u8> {
    let (_, trail, index, offset, asked) = reader_at(reader);
    gathered(data, trail, index, offset, asked, count)
}

/// Reads of a file, one after the other.
fn gather(reader: Reader<'_, '_>, count: usize) -> (read: Vec<u8>)
    ensures
        reader_at(reader).0 matches Some(data) ==> read@ == reads_on(data, reader, count),
        read@.len() <= count,
{
    let ghost volume = reader_at(reader).0;
    let mut at: Reader<'_, '_> = reader;
    let mut data: Vec<u8> = Vec::new();
    proof {
        if let Some(bytes) = volume {
            assert(data@ + reads_on(bytes, at, count) =~= reads_on(bytes, reader, count));
        }
    }
    while data.len() < count
        invariant
            data@.len() <= count,
            volume == reader_at(reader).0,
            reader_at(at).0 == volume,
            volume matches Some(bytes) ==> data@ + reads_on(
                bytes,
                at,
                (count - data@.len()) as usize,
            ) == reads_on(bytes, reader, count),
        decreases count - data@.len(),
    {
        let left: usize = count - data.len();
        let mut chunk: Vec<u8> = Vec::new();
        push_fill(&mut chunk, left, 0);
        let read: usize = match read_some(&mut at, &mut chunk) {
            Some(read) => read,
            None => {
                assert(volume matches Some(bytes) ==> data@ =~= reads_on(bytes, reader, count));
                return data;
            },
        };
        if read == 0 {
            assert(volume matches Some(bytes) ==> data@ =~= reads_on(bytes, reader, count));
            return data;
        }
        let ghost before = data@;
        let more: Vec<u8> = copy_range(&chunk, 0, read);
        push_slice(&mut data, &more);
        proof {
            if let Some(bytes) = volume {
                let rest = reads_on(bytes, at, (count - data@.len()) as usize);
                assert(before + (more@ + rest) =~= data@ + rest);
            }
        }
    }
    assert(volume matches Some(bytes) ==> data@ =~= reads_on(bytes, reader, count));
    data
}

/// The slots of a directory are those that are found in it one after the other, up to the
/// first that is not there.
pub proof fn law_slots_are_those_found(volume: Seq<Option<Seq<u8>>>, trail: Seq<usize>, count: nat)
    requires
        count <= usize::MAX,
    ensures
        ({
            let slots = slots_below(volume, trail, count);
            &&& slots.len() <= count
            &&& forall|i: int|
                0 <= i < slots.len() ==> fat_slot(volume, trail, i as usize) == Some(
                    #[trigger] slots[i],
                )
            &&& slots.len() < count ==> fat_slot(volume, trail, slots.len() as usize) is None
        }),
    decreases count,
{
    if count > 0 {
        law_slots_are_those_found(volume, trail, (count - 1) as nat);
    }
}

/// The children of a directory are the entries of the slots that can be read, in order.
pub proof fn law_readable_slots_are_listed(slots: Seq<Option<(Seq<char>, bool, u64)>>)
    ensures
        readable(slots) == slots.filter_map(|slot: Option<(Seq<char>, bool, u64)>| slot),
    decreases slots.len(),
{
    let f = |slot: Option<(Seq<char>, bool, u64)>| slot;
    if slots.len() > 0 {
        law_readable_slots_are_listed(slots.drop_last());
        match slots.last() {
            Some(entry) => {
                assert(readable(slots) =~= slots.drop_last().filter_map(f) + seq![entry]);
            },
            None => {},
        }
    } else {
        assert(slots.filter_map(f) =~= Seq::<(Seq<char>, bool, u64)>::empty());
    }
}

/// Whether a slot has an entry of a name, but for case.
pub open spec fn has_name(slot: Option<(Seq<char>, bool, u64)>, name: Seq<char>) -> bool {
    slot matches Some((own, _, _)) && same_name(own, name)
}

/// The slot that a lookup takes for name `j`, when it ended at a slot of a directory.
pub open spec fn taken(trail: Seq<usize>, index: int, from: int, count: int, j: int) -> int {
    if j == count - 1 {
        index
    } else {
        trail[from + j] as int
    }
}

/// A lookup takes, for each name in turn, the first slot with that name but for case, in the
/// directory it has come to; every one but the last is a directory.
pub proof fn law_lookup_takes_each_name(
    volume: Seq<Option<Seq<u8>>>,
    from: Seq<usize>,
    names: Seq<Seq<char>>,
    j: int,
)
    requires
        found_from(volume, from, names) is Some,
        0 <= j < names.len(),
    ensures
        ({
            let (trail, index) = found_from(volume, from, names)->0;
            let n = from.len() as int;
            let folder = trail.subrange(0, n + j);
            let slots = fat_entries(volume, folder);
            let k = taken(trail, index, n, names.len() as int, j);
            &&& trail.len() == n + names.len() - 1
            &&& trail.subrange(0, n) == from
            &&& 0 <= k < slots.len()
            &&& has_name(slots[k], names[j])
            &&& forall|i: int| 0 <= i < k ==> !has_name(#[trigger] slots[i], names[j])
            &&& j < names.len() - 1 ==> is_folder(volume, folder, k as usize)
        }),
    decreases names.len(),
{
    let entries = fat_entries(volume, from);
    let hit = |slot: Option<(Seq<char>, bool, u64)>| crate::firmware::fat::names(slot, names[0]);
    lemma_first_is(entries, hit);
    let at = matching(entries, names[0]);
    let (trail, index) = found_from(volume, from, names)->0;
    let n = from.len() as int;
    lemma_slots_grow(volume, from, usize::MAX as nat, usize::MAX as nat);
    assert(hit(entries[at]));
    if names.len() > 1 {
        let next = from.push(at as usize);
        let rest = names.drop_first();
        let later = if j > 0 {
            j - 1
        } else {
            0
        };
        law_lookup_takes_each_name(volume, next, rest, later);
        assert(trail.subrange(0, n + 1) == next);
        assert(trail.subrange(0, n) =~= next.subrange(0, n)) by {
            assert(trail.subrange(0, n) =~= trail.subrange(0, n + 1).subrange(0, n));
        }
        assert(next.subrange(0, n) =~= from);
        if j == 0 {
            assert(trail[n] == trail.subrange(0, n + 1)[n]);
            assert(trail.subrange(0, n + 0) =~= from);
            assert forall|i: int| 0 <= i < at implies !has_name(#[trigger] entries[i], names[0]) by {
                assert(!hit(entries[i]));
            }
        } else {
            assert(rest[j - 1] == names[j]);
            assert(trail.subrange(0, n + 1 + (j - 1)) =~= trail.subrange(0, n + j));
        }
    } else {
        assert(trail.subrange(0, n) =~= from);
        assert(trail.subrange(0, n + j) =~= from);
        assert forall|i: int| 0 <= i < at implies !has_name(#[trigger] entries[i], names[0]) by {
            assert(!hit(entries[i]));
        }
    }
}

/// How many bytes a run of reads has given.
pub open spec fn given(
    volume: Seq<Option<Seq<u8>>>,
    trail: Seq<usize>,
    index: usize,
    offset: u64,
    asked: Seq<usize>,
) -> int
    decreases asked.len(),
{
    if asked.len() == 0 {
        0
    } else {
        given(volume, trail, index, offset, asked.drop_last()) + (match fat_read(
            volume,
            trail,
            index,
            offset,
            asked,
        ) {
            Some(data) => data.len() as int,
            None => 0,
        })
    }
}

/// Whether reads from an offset on give a file's contents from there on, one after the
/// other, at least a byte each until there are no more.
pub open spec fn reads_give(
    volume: Seq<Option<Seq<u8>>>,
    trail: Seq<usize>,
    index: usize,
    offset: u64,
    contents: Seq<u8>,
) -> bool {
    forall|asked: Seq<usize>, count: usize|
        count > 0 ==> {
            let at = given(volume, trail, index, offset, asked);
            fat_read(volume, trail, index, offset, #[trigger] asked.push(count)) matches Some(data)
                && at + data.len() <= contents.len() && data.len() <= count && data
                == contents.subrange(at, at + data.len()) && (data.len() == 0 ==> at
                == contents.len())
        }
}

/// Reading a file gives its contents, as much as was asked for or as there is, however the
/// reads are cut up.
pub proof fn law_reading_gives_the_contents(
    volume: Seq<Option<Seq<u8>>>,
    trail: Seq<usize>,
    index: usize,
    offset: u64,
    contents: Seq<u8>,
    count: usize,
)
    requires
        reads_give(volume, trail, index, offset, contents),
    ensures
        gathered(volume, trail, index, offset, Seq::empty(), count) == contents.subrange(
            0,
            if count <= contents.len() {
                count as int
            } else {
                contents.len() as int
            },
        ),
{
    lemma_gathered(volume, trail, index, offset, contents, Seq::empty(), count);
}

proof fn lemma_gathered(
    volume: Seq<Option<Seq<u8>>>,
    trail: Seq<usize>,
    index: usize,
    offset: u64,
    contents: Seq<u8>,
    asked: Seq<usize>,
    count: usize,
)
    requires
        reads_give(volume, trail, index, offset, contents),
        0 <= given(volume, trail, index, offset, asked) <= contents.len(),
    ensures
        ({
            let at = given(volume, trail, index, offset, asked);
            gathered(volume, trail, index, offset, asked, count) == contents.subrange(
                at,
                if at + count <= contents.len() {
                    at + count
                } else {
                    contents.len() as int
                },
            )
        }),
    decreases count,
{
    let at = given(volume, trail, index, offset, asked);
    let end = if at + count <= contents.len() {
        at + count
    } else {
        contents.len() as int
    };
    let whole = gathered(volume, trail, index, offset, asked, count);
    if count == 0 {
        assert(whole =~= contents.subrange(at, end));
    } else {
        let now = asked.push(count);
        let data = fat_read(volume, trail, index, offset, now)->0;
        assert(now.drop_last() =~= asked);
        if data.len() == 0 {
            assert(whole =~= contents.subrange(at, end));
        } else {
            let left = (count - data.len()) as usize;
            lemma_gathered(volume, trail, index, offset, contents, now, left);
            assert(contents.subrange(at, at + data.len()) + contents.subrange(
                at + data.len(),
                end,
            ) =~= contents.subrange(at, end));
        }
    }
}

/// Whether a character is an ASCII letter, small or capital.
pub open spec fn is_letter(c: char) -> bool {
    ('A' <= c && c <= 'Z') || ('a' <= c && c <= 'z')
}

/// Names that are taken for the same have the same characters, but for ASCII letters, which
/// may be the small one here and the capital one there.
pub proof fn law_only_case_is_ignored(a: Seq<char>, b: Seq<char>)
    ensures
        same_name(a, b) <==> a.len() == b.len() && forall|i: int|
            0 <= i < a.len() ==> (#[trigger] a[i]) == b[i] || (is_letter(a[i]) && is_letter(b[i])
                && (a[i] as int - b[i] as int == 32 || b[i] as int - a[i] as int == 32)),
{
    if same_name(a, b) {
        assert forall|i: int| 0 <= i < a.len() implies (#[trigger] a[i]) == b[i] || (is_letter(a[i])
            && is_letter(b[i]) && (a[i] as int - b[i] as int == 32 || b[i] as int - a[i] as int
            == 32)) by {
            assert(lower(a[i]) == lower(b[i]));
        }
    }
    if a.len() == b.len() && forall|i: int|
        0 <= i < a.len() ==> (#[trigger] a[i]) == b[i] || (is_letter(a[i]) && is_letter(b[i]) && (
        a[i] as int - b[i] as int == 32 || b[i] as int - a[i] as int == 32)) {
        assert forall|i: int| 0 <= i < a.len() implies lower(#[trigger] a[i]) == lower(b[i]) by {
            assert(a[i] == b[i] || is_letter(a[i]));
        }
    }
}

} // verus!
