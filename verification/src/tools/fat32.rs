//! A FAT32 volume, built in memory.
//!
//! Directly, rather than through a library: the layout is fixed, and the other
//! end of it is the firmware's own reader. Every name must fit 8.3: the image
//! carries `\EFI\BOOT\BOOTAA64.EFI`, and nothing here needs long names.
use crate::bytes::{
    copy_range, fill, get_u16, le_at, le_bytes, lemma_le_bytes_len, push_fill, push_le, push_slice,
    put, put_slice, same_bytes,
};
use crate::tools::mkesp::EspError;
use std::collections::HashMap;
use vstd::prelude::*;

verus! {

/// How many sectors a cluster has: 4 KiB clusters.
pub const SECTORS_PER_CLUSTER: u64 = 8;

pub const CLUSTER_SIZE: usize = 4096;

pub const RESERVED_SECTORS: u64 = 32;

/// The end of a chain.
pub const END_OF_CHAIN: u32 = 0x0fff_ffff;

/// The first value that is not a cluster's number.
pub const CLUSTER_LIMIT: u64 = 0x0fff_fff8;

/// How many entries a directory's cluster holds.
pub const DIRECTORY_SLOTS: usize = 128;

/// `WEIRESP `.
pub const OEM_NAME: [u8; 8] = [0x57, 0x45, 0x49, 0x52, 0x45, 0x53, 0x50, 0x20];

/// `WEIR ESP   `.
pub const LABEL: [u8; 11] = [0x57, 0x45, 0x49, 0x52, 0x20, 0x45, 0x53, 0x50, 0x20, 0x20, 0x20];

/// `FAT32   `.
pub const TYPE_NAME: [u8; 8] = [0x46, 0x41, 0x54, 0x33, 0x32, 0x20, 0x20, 0x20];

/// `.`, padded.
pub const DOT: [u8; 11] = [0x2e, 0x20, 0x20, 0x20, 0x20, 0x20, 0x20, 0x20, 0x20, 0x20, 0x20];

/// `..`, padded.
pub const DOT_DOT: [u8; 11] = [0x2e, 0x2e, 0x20, 0x20, 0x20, 0x20, 0x20, 0x20, 0x20, 0x20, 0x20];

/// What makes an entry a directory's.
pub const DIRECTORY: u8 = 0x10;

/// What an entry of a file carries.
pub const ARCHIVE: u8 = 0x20;

/// A file to put into the volume.
pub struct Source {
    pub path: Vec<u8>,
    pub contents: Vec<u8>,
}

/// A path and its contents.
pub open spec fn source(s: Source) -> (Seq<u8>, Seq<u8>) {
    (s.path@, s.contents@)
}

/// Paths and their contents.
pub open spec fn sources(s: Seq<Source>) -> Seq<(Seq<u8>, Seq<u8>)> {
    Seq::new(s.len(), |i: int| source(s[i]))
}

/// A letter in upper case.
pub open spec fn upper(b: u8) -> u8 {
    if 0x61 <= b <= 0x7a {
        (b - 0x20) as u8
    } else {
        b
    }
}

/// A name in upper case.
pub open spec fn uppers(s: Seq<u8>) -> Seq<u8> {
    Seq::new(s.len(), |i: int| upper(s[i]))
}

/// Where the last dot of a name is, or -1.
pub open spec fn last_dot(s: Seq<u8>) -> int
    decreases s.len(),
{
    if s.len() == 0 {
        -1
    } else if s.last() == 0x2e {
        s.len() - 1
    } else {
        last_dot(s.drop_last())
    }
}

/// What stands before a name's last dot.
pub open spec fn stem(s: Seq<u8>) -> Seq<u8> {
    if last_dot(s) < 0 {
        s
    } else {
        s.subrange(0, last_dot(s))
    }
}

/// What stands behind a name's last dot.
pub open spec fn extension(s: Seq<u8>) -> Seq<u8> {
    if last_dot(s) < 0 {
        Seq::empty()
    } else {
        s.subrange(last_dot(s) + 1, s.len() as int)
    }
}

/// Whether a name fits 8.3.
pub open spec fn fits_83(s: Seq<u8>) -> bool {
    0 < stem(s).len() <= 8 && extension(s).len() <= 3
}

/// An 8.3 name, space-padded and upper case, as FAT stores it.
pub open spec fn name_83(s: Seq<u8>) -> Seq<u8> {
    uppers(stem(s)) + fill((8 - stem(s).len()) as nat, 0x20) + uppers(extension(s)) + fill(
        (3 - extension(s).len()) as nat,
        0x20,
    )
}

/// A path's components so far and the one that is being read.
pub open spec fn split(path: Seq<u8>) -> (Seq<Seq<u8>>, Seq<u8>)
    decreases path.len(),
{
    if path.len() == 0 {
        (Seq::empty(), Seq::empty())
    } else {
        let (done, current) = split(path.drop_last());
        if path.last() != 0x5c && path.last() != 0x2f {
            (done, current.push(path.last()))
        } else if current.len() > 0 {
            (done.push(current), Seq::empty())
        } else {
            (done, Seq::empty())
        }
    }
}

/// A path's components, between backslashes or slashes.
pub open spec fn components(path: Seq<u8>) -> Seq<Seq<u8>> {
    let (done, current) = split(path);
    if current.len() > 0 {
        done.push(current)
    } else {
        done
    }
}

/// A directory entry.
pub open spec fn entry_bytes(name: Seq<u8>, attributes: u8, cluster: nat, size: nat) -> Seq<u8> {
    name + seq![attributes] + fill(8, 0) + le_bytes(cluster / 65536, 2) + fill(4, 0) + le_bytes(
        cluster % 65536,
        2,
    ) + le_bytes(size, 4)
}

/// An entry's first cluster.
pub open spec fn cluster_of(entry: Seq<u8>) -> nat {
    le_at(entry, 20, 2) * 65536 + le_at(entry, 26, 2)
}

/// Slot `i` of a directory's cluster.
pub open spec fn slot_at(directory: Seq<u8>, i: int) -> Seq<u8> {
    directory.subrange(i * 32, i * 32 + 32)
}

/// The entry of a name among the slots from `i` on. An unused slot ends the
/// directory, and so does a deleted one where `deleted_ends`; slots of long names
/// are skipped.
pub open spec fn find_from(
    directory: Seq<u8>,
    name: Seq<u8>,
    deleted_ends: bool,
    i: int,
) -> Option<Seq<u8>>
    decreases directory.len() / 32 - i,
{
    let slot = slot_at(directory, i);
    if i < 0 || i >= directory.len() / 32 {
        None
    } else if slot[0] == 0 || (deleted_ends && slot[0] == 0xe5) {
        None
    } else if slot[11] & 0x0f != 0x0f && slot.subrange(0, 11) == name {
        Some(slot)
    } else {
        find_from(directory, name, deleted_ends, i + 1)
    }
}

/// A volume under construction.
#[verifier::ext_equal]
pub struct Volume {
    pub bytes: Seq<u8>,
    pub fat_sectors: nat,
    /// The file allocation table.
    pub fat: Seq<u32>,
    /// The next free cluster.
    pub next: nat,
    /// How many slots of each directory are in use.
    pub slots: Map<u32, usize>,
}

/// Where a cluster's bytes start in a volume with a table of a size.
pub open spec fn cluster_at(fat_sectors: nat, cluster: int) -> int {
    (RESERVED_SECTORS + 2 * fat_sectors + (cluster - 2) * 8) * 512
}

impl Volume {
    /// The bytes of a cluster.
    pub open spec fn cluster(self, cluster: int) -> Seq<u8> {
        let at = cluster_at(self.fat_sectors, cluster);
        self.bytes.subrange(at, at + CLUSTER_SIZE)
    }

    /// What a volume under construction keeps to: the table covers its clusters,
    /// and the clusters lie inside the volume.
    pub open spec fn wf(self) -> bool {
        &&& 3 <= self.fat.len() <= CLUSTER_LIMIT
        &&& self.fat.len() * 4 <= self.fat_sectors * 512
        &&& cluster_at(self.fat_sectors, self.fat.len() as int) <= self.bytes.len() <= usize::MAX
        &&& 3 <= self.next <= self.fat.len()
        &&& forall|c: u32| #[trigger]
            self.slots.contains_key(c) ==> self.slots[c] <= DIRECTORY_SLOTS
    }

    /// With a run of clusters allocated and chained.
    pub open spec fn allocated(self, clusters: nat) -> Result<Volume, EspError> {
        if self.next + clusters >= self.fat.len() {
            Err(EspError::Full)
        } else {
            let end = self.next + clusters;
            Ok(
                Volume {
                    fat: Seq::new(
                        self.fat.len(),
                        |i: int|
                            if self.next <= i < end - 1 {
                                (i + 1) as u32
                            } else if i == end - 1 {
                                END_OF_CHAIN
                            } else {
                                self.fat[i]
                            },
                    ),
                    next: end,
                    ..self
                },
            )
        }
    }

    /// How many slots of a directory are in use.
    pub open spec fn used(self, directory: u32) -> usize {
        if self.slots.contains_key(directory) {
            self.slots[directory]
        } else {
            0
        }
    }

    /// With an entry appended to a directory.
    pub open spec fn entered(self, directory: u32, entry: Seq<u8>) -> Result<Volume, EspError> {
        let slot = self.used(directory);
        if slot >= DIRECTORY_SLOTS {
            Err(EspError::DirectoryFull)
        } else {
            Ok(
                Volume {
                    bytes: put(
                        self.bytes,
                        cluster_at(self.fat_sectors, directory as int) + slot * 32,
                        entry,
                    ),
                    slots: self.slots.insert(directory, (slot + 1) as usize),
                    ..self
                },
            )
        }
    }

    /// The first cluster of a child, if the name is already there.
    pub open spec fn child(self, parent: u32, name: Seq<u8>) -> Option<nat> {
        match find_from(self.cluster(parent as int), name_83(name), true, 0) {
            Some(entry) => Some(cluster_of(entry)),
            None => None,
        }
    }

    /// With a directory of its own two entries, entered in its parent.
    pub open spec fn with_directory(self, parent: u32, name: Seq<u8>) -> Result<Volume, EspError> {
        let cluster = self.next as u32;
        match self.allocated(1) {
            Err(error) => Err(error),
            Ok(v) => match v.entered(cluster, entry_bytes(DOT@, DIRECTORY, cluster as nat, 0)) {
                Err(error) => Err(error),
                Ok(v) => match v.entered(
                    cluster,
                    entry_bytes(DOT_DOT@, DIRECTORY, parent as nat, 0),
                ) {
                    Err(error) => Err(error),
                    Ok(v) => v.entered(
                        parent,
                        entry_bytes(name_83(name), DIRECTORY, cluster as nat, 0),
                    ),
                },
            },
        }
    }

    /// With a directory found or created, and its first cluster.
    pub open spec fn ensured(self, parent: u32, name: Seq<u8>) -> Result<(Volume, u32), EspError> {
        if !fits_83(name) {
            Err(EspError::BadName)
        } else {
            match self.child(parent, name) {
                Some(found) => if 2 <= found < self.fat.len() {
                    Ok((self, found as u32))
                } else {
                    Err(EspError::OutsideVolume)
                },
                None => match self.with_directory(parent, name) {
                    Ok(v) => Ok((v, self.next as u32)),
                    Err(error) => Err(error),
                },
            }
        }
    }

    /// With the directories of a path found or created, and the last one's first
    /// cluster.
    pub open spec fn walked(self, names: Seq<Seq<u8>>) -> Result<(Volume, u32), EspError>
        decreases names.len(),
    {
        if names.len() == 0 {
            Ok((self, 2))
        } else {
            match self.walked(names.drop_last()) {
                Err(error) => Err(error),
                Ok((v, parent)) => v.ensured(parent, names.last()),
            }
        }
    }

    /// How many clusters some contents take.
    pub open spec fn clusters_for(contents: Seq<u8>) -> nat {
        if contents.len() == 0 {
            1
        } else {
            ((contents.len() + 4095) / 4096) as nat
        }
    }

    /// With a file in a directory.
    pub open spec fn with_file(self, parent: u32, name: Seq<u8>, contents: Seq<u8>) -> Result<
        Volume,
        EspError,
    > {
        match self.allocated(Self::clusters_for(contents)) {
            Err(error) => Err(error),
            Ok(v) => if !fits_83(name) {
                Err(EspError::BadName)
            } else {
                Volume {
                    bytes: put(v.bytes, cluster_at(v.fat_sectors, self.next as int), contents),
                    ..v
                }.entered(
                    parent,
                    entry_bytes(name_83(name), ARCHIVE, self.next, contents.len()),
                )
            },
        }
    }

    /// With contents at a path.
    pub open spec fn added(self, path: Seq<u8>, contents: Seq<u8>) -> Result<Volume, EspError> {
        let names = components(path);
        if names.len() == 0 {
            Err(EspError::NoName)
        } else {
            match self.walked(names.drop_last()) {
                Err(error) => Err(error),
                Ok((v, parent)) => v.with_file(parent, names.last(), contents),
            }
        }
    }

    /// With a list of files.
    pub open spec fn with_all(self, files: Seq<(Seq<u8>, Seq<u8>)>) -> Result<Volume, EspError>
        decreases files.len(),
    {
        if files.len() == 0 {
            Ok(self)
        } else {
            match self.with_all(files.drop_last()) {
                Err(error) => Err(error),
                Ok(v) => v.added(files.last().0, files.last().1),
            }
        }
    }
}

/// The directory entry named `name` in a directory's cluster.
pub fn find_slot(directory: &[u8], name: &[u8], deleted_ends: bool) -> (found: Option<Vec<u8>>)
    ensures
        match found {
            Some(entry) => find_from(directory@, name@, deleted_ends, 0) == Some(entry@)
                && entry@.len() == 32,
            None => find_from(directory@, name@, deleted_ends, 0) is None,
        },
{
    let count: usize = directory.len() / 32;
    let mut next: usize = 0;
    while next < count
        invariant
            next <= count,
            count == directory@.len() / 32,
            directory@.len() <= usize::MAX,
            find_from(directory@, name@, deleted_ends, 0) == find_from(
                directory@,
                name@,
                deleted_ends,
                next as int,
            ),
        decreases count - next,
    {
        let slot: Vec<u8> = copy_range(directory, next * 32, next * 32 + 32);
        if slot[0] == 0 || (deleted_ends && slot[0] == 0xe5) {
            return None;
        }
        let start: Vec<u8> = copy_range(&slot, 0, 11);
        if slot[11] & 0x0f != 0x0f && same_bytes(&start, name) {
            return Some(slot);
        }
        next = next + 1;
    }
    None
}

/// An entry's first cluster.
pub fn entry_cluster(entry: &[u8]) -> (cluster: u32)
    requires
        entry@.len() >= 28,
    ensures
        cluster == cluster_of(entry@),
{
    let high: u32 = get_u16(entry, 20) as u32;
    let low: u32 = get_u16(entry, 26) as u32;
    high * 65536 + low
}

/// Appends a name in upper case.
fn push_upper(out: &mut Vec<u8>, name: &[u8])
    ensures
        final(out)@ == old(out)@ + uppers(name@),
{
    let mut next: usize = 0;
    while next < name.len()
        invariant
            next <= name@.len(),
            out@ == old(out)@ + uppers(name@.subrange(0, next as int)),
        decreases name@.len() - next,
    {
        let b: u8 = name[next];
        out.push(
            if b >= 0x61 && b <= 0x7a {
                b - 0x20
            } else {
                b
            },
        );
        assert(uppers(name@.subrange(0, next + 1)) =~= uppers(name@.subrange(0, next as int)).push(
            upper(b),
        ));
        next = next + 1;
    }
    assert(name@.subrange(0, next as int) =~= name@);
}

/// Where the last dot of a name is.
fn dot_in(name: &[u8]) -> (at: Option<usize>)
    ensures
        match at {
            Some(at) => last_dot(name@) == at && at < name@.len(),
            None => last_dot(name@) < 0,
        },
{
    let mut end: usize = name.len();
    assert(name@.subrange(0, end as int) =~= name@);
    while end > 0
        invariant
            end <= name@.len(),
            last_dot(name@) == last_dot(name@.subrange(0, end as int)),
        decreases end,
    {
        proof {
            let s = name@.subrange(0, end as int);
            assert(s.drop_last() =~= name@.subrange(0, end - 1));
            assert(s.last() == name@[end - 1]);
        }
        if name[end - 1] == 0x2e {
            return Some(end - 1);
        }
        end = end - 1;
    }
    None
}

/// An 8.3 name, space-padded and upper case, as FAT stores it; `None` when it
/// does not fit.
pub fn to_83(name: &[u8]) -> (stored: Option<Vec<u8>>)
    ensures
        match stored {
            Some(stored) => fits_83(name@) && stored@ == name_83(name@) && stored@.len() == 11,
            None => !fits_83(name@),
        },
{
    let size: usize = name.len();
    let (first, rest): (Vec<u8>, Vec<u8>) = match dot_in(name) {
        Some(at) => (copy_range(name, 0, at), copy_range(name, at + 1, size)),
        None => (copy_range(name, 0, size), Vec::new()),
    };
    assert(first@ =~= stem(name@));
    assert(rest@ =~= extension(name@));
    if first.len() == 0 || first.len() > 8 || rest.len() > 3 {
        return None;
    }
    let mut stored: Vec<u8> = Vec::new();
    push_upper(&mut stored, &first);
    push_fill(&mut stored, 8 - first.len(), 0x20);
    push_upper(&mut stored, &rest);
    push_fill(&mut stored, 3 - rest.len(), 0x20);
    assert(stored@ =~= name_83(name@));
    Some(stored)
}

/// A directory entry.
fn write_entry(name: &[u8], attributes: u8, cluster: u32, size: u64) -> (entry: Vec<u8>)
    requires
        name@.len() == 11,
    ensures
        entry@ == entry_bytes(name@, attributes, cluster as nat, size as nat),
        entry@.len() == 32,
{
    let mut entry: Vec<u8> = Vec::new();
    push_slice(&mut entry, name);
    entry.push(attributes);
    assert(entry@ =~= name@ + seq![attributes]);
    push_fill(&mut entry, 8, 0);
    push_le(&mut entry, (cluster / 65536) as u64, 2);
    push_fill(&mut entry, 4, 0);
    push_le(&mut entry, (cluster % 65536) as u64, 2);
    push_le(&mut entry, size, 4);
    proof {
        lemma_le_bytes_len((cluster / 65536) as nat, 2);
        lemma_le_bytes_len((cluster % 65536) as nat, 2);
        lemma_le_bytes_len(size as nat, 4);
    }
    entry
}

/// A directory entry for an 8.3 name; `None` when it does not fit. Only the low
/// 32 bits of the size are kept.
pub fn short_entry(name: &[u8], first_cluster: u32, size: u64, attributes: u8) -> (entry: Option<
    Vec<u8>,
>)
    ensures
        match entry {
            Some(entry) => fits_83(name@) && entry@ == entry_bytes(
                name_83(name@),
                attributes,
                first_cluster as nat,
                size as nat,
            ) && entry@.len() == 32,
            None => !fits_83(name@),
        },
{
    match to_83(name) {
        Some(stored) => Some(write_entry(&stored, attributes, first_cluster, size)),
        None => None,
    }
}

/// The names of a list.
pub open spec fn names_of(s: Seq<Vec<u8>>) -> Seq<Seq<u8>> {
    Seq::new(s.len(), |i: int| s[i]@)
}

/// A path's components.
pub fn path_components(path: &[u8]) -> (names: Vec<Vec<u8>>)
    ensures
        names_of(names@) == components(path@),
{
    let mut names: Vec<Vec<u8>> = Vec::new();
    let mut current: Vec<u8> = Vec::new();
    let mut next: usize = 0;
    assert(path@.subrange(0, 0) =~= Seq::<u8>::empty());
    assert(names_of(names@) =~= Seq::<Seq<u8>>::empty());
    assert(current@ =~= Seq::<u8>::empty());
    while next < path.len()
        invariant
            next <= path@.len(),
            split(path@.subrange(0, next as int)) == (names_of(names@), current@),
        decreases path@.len() - next,
    {
        let b: u8 = path[next];
        proof {
            let more = path@.subrange(0, next + 1);
            assert(more.drop_last() =~= path@.subrange(0, next as int));
            assert(more.last() == b);
        }
        if b != 0x5c && b != 0x2f {
            current.push(b);
        } else {
            if current.len() > 0 {
                let ghost before = names@;
                names.push(current);
                assert(names_of(names@) =~= names_of(before).push(names@.last()@));
            }
            current = Vec::new();
            assert(current@ =~= Seq::<u8>::empty());
        }
        next = next + 1;
    }
    assert(path@.subrange(0, next as int) =~= path@);
    if current.len() > 0 {
        let ghost before = names@;
        names.push(current);
        assert(names_of(names@) =~= names_of(before).push(names@.last()@));
    }
    names
}

/// How many clusters a partition has room for, and how many sectors its table
/// takes. The cluster count depends on the table's size and that on the cluster
/// count; two passes settle both.
pub open spec fn geometry(partition_sectors: int) -> Result<(nat, nat), EspError> {
    let p = partition_sectors;
    let c1 = (p - RESERVED_SECTORS) / 8;
    let f1 = ((c1 + 2) * 4 + 511) / 512;
    let c2 = (p - RESERVED_SECTORS - 2 * f1) / 8;
    let f2 = ((c2 + 2) * 4 + 511) / 512;
    if p < RESERVED_SECTORS || p - RESERVED_SECTORS - 2 * f1 < 8 {
        Err(EspError::TooSmall)
    } else if c2 + 2 > CLUSTER_LIMIT || p * 512 > usize::MAX {
        Err(EspError::TooLarge)
    } else {
        Ok((c2 as nat, f2 as nat))
    }
}

/// An empty volume: the root directory is cluster 2, and it has no dot entries.
pub open spec fn empty_volume(partition_sectors: int, clusters: nat, fat_sectors: nat) -> Volume {
    Volume {
        bytes: fill((partition_sectors * 512) as nat, 0),
        fat_sectors,
        fat: Seq::new(
            clusters + 2,
            |i: int|
                if i == 0 {
                    0x0fff_fff8u32
                } else if i <= 2 {
                    0x0fff_ffffu32
                } else {
                    0u32
                },
        ),
        next: 3,
        slots: Map::<u32, usize>::empty().insert(2, 0),
    }
}

/// The boot sector of a volume of `total` sectors.
pub open spec fn boot_sector(total: nat, fat_sectors: nat) -> Seq<u8> {
    seq![0xebu8, 0x58u8, 0x90u8] + OEM_NAME@ + le_bytes(512, 2) + seq![8u8] + le_bytes(32, 2)
        + seq![2u8, 0u8, 0u8, 0u8, 0u8, 0xf8u8, 0u8, 0u8] + le_bytes(32, 2) + le_bytes(64, 2)
        + le_bytes(34, 4) + le_bytes(total, 4) + le_bytes(fat_sectors, 4) + fill(4, 0) + le_bytes(
        2,
        4,
    ) + le_bytes(1, 2) + le_bytes(6, 2) + fill(12, 0) + seq![0x80u8, 0u8, 0x29u8] + le_bytes(
        0x5745_4952,
        4,
    ) + LABEL@ + TYPE_NAME@ + fill(420, 0) + seq![0x55u8, 0xaau8]
}

/// The FSInfo sector: nothing is known of the free clusters.
pub open spec fn info_sector() -> Seq<u8> {
    le_bytes(0x4161_5252, 4) + fill(480, 0) + le_bytes(0x6141_7272, 4) + le_bytes(0xffff_ffff, 4)
        + le_bytes(0xffff_ffff, 4) + fill(14, 0) + seq![0x55u8, 0xaau8]
}

/// Words as they lie on disk, each low byte first.
pub open spec fn words(s: Seq<u32>) -> Seq<u8>
    decreases s.len(),
{
    if s.len() == 0 {
        Seq::empty()
    } else {
        words(s.drop_last()) + le_bytes(s.last() as nat, 4)
    }
}

impl Volume {
    /// One copy of the file allocation table.
    pub open spec fn table(self) -> Seq<u8> {
        words(self.fat) + fill((self.fat_sectors * 512 - self.fat.len() * 4) as nat, 0)
    }

    /// The bytes with the boot sector, the FSInfo sector, their backups, and both
    /// copies of the table.
    pub open spec fn finished(self) -> Seq<u8> {
        let boot = boot_sector(self.bytes.len() / 512, self.fat_sectors);
        let b = put(self.bytes, 0, boot);
        let b = put(b, 3072, boot);
        let b = put(b, 512, info_sector());
        let b = put(b, 3584, info_sector());
        let b = put(b, RESERVED_SECTORS * 512, self.table());
        put(b, (RESERVED_SECTORS + self.fat_sectors) * 512, self.table())
    }
}

/// The volume of a partition with the files in it.
pub open spec fn built(partition_sectors: int, files: Seq<(Seq<u8>, Seq<u8>)>) -> Result<
    Volume,
    EspError,
> {
    match geometry(partition_sectors) {
        Err(error) => Err(error),
        Ok((clusters, fat_sectors)) => empty_volume(
            partition_sectors,
            clusters,
            fat_sectors,
        ).with_all(files),
    }
}

/// A FAT32 volume, built in memory.
pub struct Fat32 {
    volume: Vec<u8>,
    fat_sectors: u64,
    /// One entry per cluster.
    fat: Vec<u32>,
    next_cluster: u32,
    /// How many 32-byte slots of each directory cluster are in use.
    slots: HashMap<u32, usize>,
}

impl Fat32 {
    pub closed spec fn view(&self) -> Volume {
        Volume {
            bytes: self.volume@,
            fat_sectors: self.fat_sectors as nat,
            fat: self.fat@,
            next: self.next_cluster as nat,
            slots: self.slots@,
        }
    }

    /// Where a cluster's bytes start in the volume.
    fn cluster_offset(&self, cluster: u32) -> (offset: usize)
        requires
            self@.wf(),
            2 <= cluster < self@.fat.len(),
        ensures
            offset == cluster_at(self@.fat_sectors, cluster as int),
            offset + CLUSTER_SIZE <= self@.bytes.len(),
            offset + CLUSTER_SIZE <= usize::MAX,
    {
        let _size: usize = self.volume.len();
        let data_start: u64 = RESERVED_SECTORS + 2 * self.fat_sectors;
        ((data_start + (cluster as u64 - 2) * SECTORS_PER_CLUSTER) * 512) as usize
    }

    /// Allocates a run of clusters and chains them.
    fn allocate(&mut self, clusters: u64) -> (first: Result<u32, EspError>)
        requires
            old(self)@.wf(),
            clusters >= 1,
        ensures
            match first {
                Ok(first) => first == old(self)@.next && old(self)@.allocated(clusters as nat)
                    == Ok::<Volume, EspError>(final(self)@) && final(self)@.wf(),
                Err(error) => old(self)@.allocated(clusters as nat) == Err::<Volume, EspError>(
                    error,
                ),
            },
    {
        let first: u32 = self.next_cluster;
        let _size: usize = self.fat.len();
        if clusters >= self.fat.len() as u64 || first as u64 + clusters >= self.fat.len() as u64 {
            return Err(EspError::Full);
        }
        let end: u32 = first + clusters as u32;
        let ghost before = self@;
        let ghost want = self@.allocated(clusters as nat)->Ok_0;
        let mut cluster: u32 = first;
        while cluster < end
            invariant
                first <= cluster <= end,
                first == before.next,
                end == want.next,
                end < self.fat@.len(),
                end < CLUSTER_LIMIT,
                first < end,
                self@ == (Volume { fat: self.fat@, ..before }),
                self.fat@.len() == want.fat.len(),
                before.allocated(clusters as nat) == Ok::<Volume, EspError>(want),
                end == first + clusters,
                forall|i: int|
                    0 <= i < self.fat@.len() ==> #[trigger] self.fat@[i] == (if i < cluster {
                        want.fat[i]
                    } else {
                        before.fat[i]
                    }),
            decreases end - cluster,
        {
            let next: u32 = if cluster + 1 == end {
                END_OF_CHAIN
            } else {
                cluster + 1
            };
            self.fat.set(cluster as usize, next);
            cluster = cluster + 1;
        }
        self.next_cluster = end;
        assert(self.fat@ =~= want.fat);
        Ok(first)
    }

    /// Appends a 32-byte entry to a directory cluster.
    fn add_entry(&mut self, directory: u32, entry: &[u8]) -> (error: Option<EspError>)
        requires
            old(self)@.wf(),
            2 <= directory < old(self)@.fat.len(),
            entry@.len() == 32,
        ensures
            match error {
                None => old(self)@.entered(directory, entry@) == Ok::<Volume, EspError>(final(self)@)
                    && final(self)@.wf() && final(self)@.fat == old(self)@.fat,
                Some(error) => old(self)@.entered(directory, entry@) == Err::<Volume, EspError>(
                    error,
                ),
            },
    {
        broadcast use vstd::std_specs::hash::group_hash_axioms;

        let slot: usize = match self.slots.get(&directory) {
            Some(used) => *used,
            None => 0,
        };
        if slot >= DIRECTORY_SLOTS {
            return Some(EspError::DirectoryFull);
        }
        let ghost before = self@;
        let offset: usize = self.cluster_offset(directory) + slot * 32;
        self.slots.insert(directory, slot + 1);
        put_slice(&mut self.volume, offset, entry);
        assert(self@ == before.entered(directory, entry@)->Ok_0);
        None
    }

    /// The first cluster of a child of `parent`, if the name is already there.
    fn find_child(&self, parent: u32, stored: &[u8], Ghost(name): Ghost<Seq<u8>>) -> (found: Option<
        u32,
    >)
        requires
            self@.wf(),
            2 <= parent < self@.fat.len(),
            stored@ == name_83(name),
        ensures
            match found {
                Some(found) => self@.child(parent, name) == Some(found as nat),
                None => self@.child(parent, name) is None,
            },
    {
        let offset: usize = self.cluster_offset(parent);
        let directory: Vec<u8> = copy_range(&self.volume, offset, offset + CLUSTER_SIZE);
        match find_slot(&directory, stored, true) {
            Some(entry) => Some(entry_cluster(&entry)),
            None => None,
        }
    }

    /// Creates a directory. A subdirectory starts with itself and its parent,
    /// which is what makes `..` work for any reader.
    fn create_directory(
        &mut self,
        parent: u32,
        stored: &[u8],
        Ghost(name): Ghost<Seq<u8>>,
    ) -> (cluster: Result<u32, EspError>)
        requires
            old(self)@.wf(),
            2 <= parent < old(self)@.fat.len(),
            stored@ == name_83(name),
            stored@.len() == 11,
        ensures
            match cluster {
                Ok(cluster) => cluster == old(self)@.next && old(self)@.with_directory(parent, name)
                    == Ok::<Volume, EspError>(final(self)@) && final(self)@.wf()
                    && 2 <= cluster < final(self)@.fat.len(),
                Err(error) => old(self)@.with_directory(parent, name) == Err::<Volume, EspError>(
                    error,
                ),
            },
    {
        let cluster: u32 = match self.allocate(1) {
            Ok(cluster) => cluster,
            Err(error) => {
                return Err(error);
            },
        };
        let dot: Vec<u8> = write_entry(&DOT, DIRECTORY, cluster, 0);
        let dot_dot: Vec<u8> = write_entry(&DOT_DOT, DIRECTORY, parent, 0);
        let entry: Vec<u8> = write_entry(stored, DIRECTORY, cluster, 0);
        match self.add_entry(cluster, &dot) {
            Some(error) => {
                return Err(error);
            },
            None => {},
        }
        match self.add_entry(cluster, &dot_dot) {
            Some(error) => {
                return Err(error);
            },
            None => {},
        }
        match self.add_entry(parent, &entry) {
            Some(error) => {
                return Err(error);
            },
            None => {},
        }
        Ok(cluster)
    }

    /// Finds or creates `name` inside `parent`, returning its first cluster.
    fn ensure_directory(&mut self, parent: u32, name: &[u8]) -> (cluster: Result<u32, EspError>)
        requires
            old(self)@.wf(),
            2 <= parent < old(self)@.fat.len(),
        ensures
            match cluster {
                Ok(cluster) => old(self)@.ensured(parent, name@) == Ok::<(Volume, u32), EspError>(
                    (final(self)@, cluster),
                ) && final(self)@.wf() && 2 <= cluster < final(self)@.fat.len(),
                Err(error) => old(self)@.ensured(parent, name@) == Err::<(Volume, u32), EspError>(
                    error,
                ),
            },
    {
        let stored: Vec<u8> = match to_83(name) {
            Some(stored) => stored,
            None => {
                return Err(EspError::BadName);
            },
        };
        match self.find_child(parent, &stored, Ghost(name@)) {
            Some(found) => {
                if found < 2 || found as u64 >= self.fat.len() as u64 {
                    return Err(EspError::OutsideVolume);
                }
                Ok(found)
            },
            None => self.create_directory(parent, &stored, Ghost(name@)),
        }
    }

    /// Puts a file into a directory.
    fn create_file(&mut self, parent: u32, name: &[u8], contents: &[u8]) -> (error: Option<EspError>)
        requires
            old(self)@.wf(),
            2 <= parent < old(self)@.fat.len(),
        ensures
            match error {
                None => old(self)@.with_file(parent, name@, contents@) == Ok::<Volume, EspError>(
                    final(self)@,
                ) && final(self)@.wf(),
                Some(error) => old(self)@.with_file(parent, name@, contents@) == Err::<
                    Volume,
                    EspError,
                >(error),
            },
    {
        let size: u64 = contents.len() as u64;
        let clusters: u64 = if size == 0 {
            1
        } else {
            (size - 1) / CLUSTER_SIZE as u64 + 1
        };
        assert(clusters == Volume::clusters_for(contents@));
        let first: u32 = match self.allocate(clusters) {
            Ok(first) => first,
            Err(error) => {
                return Some(error);
            },
        };
        let entry: Vec<u8> = match short_entry(name, first, size, ARCHIVE) {
            Some(entry) => entry,
            None => {
                return Some(EspError::BadName);
            },
        };
        let ghost v = self@;
        let offset: usize = self.cluster_offset(first);
        assert(offset + contents@.len() <= self@.bytes.len()) by {
            assert(cluster_at(v.fat_sectors, v.fat.len() as int) == offset + (v.fat.len() - first)
                * 4096);
            assert(first + clusters < v.fat.len());
            assert(contents@.len() <= clusters * 4096);
        }
        put_slice(&mut self.volume, offset, contents);
        self.add_entry(parent, &entry)
    }

    /// Adds `contents` at `path`, creating the directories on the way.
    pub fn add_file(&mut self, path: &[u8], contents: &[u8]) -> (error: Option<EspError>)
        requires
            old(self)@.wf(),
        ensures
            match error {
                None => old(self)@.added(path@, contents@) == Ok::<Volume, EspError>(final(self)@)
                    && final(self)@.wf(),
                Some(error) => old(self)@.added(path@, contents@) == Err::<Volume, EspError>(error),
            },
    {
        let names: Vec<Vec<u8>> = path_components(path);
        let ghost all = names_of(names@);
        if names.len() == 0 {
            return Some(EspError::NoName);
        }
        let last: usize = names.len() - 1;
        let ghost before = self@;
        let mut parent: u32 = 2;
        let mut next: usize = 0;
        assert(all.drop_last().subrange(0, 0) =~= Seq::<Seq<u8>>::empty());
        while next < last
            invariant
                next <= last,
                last == names@.len() - 1,
                all == names_of(names@),
                self@.wf(),
                2 <= parent < self@.fat.len(),
                before.walked(all.drop_last().subrange(0, next as int)) == Ok::<
                    (Volume, u32),
                    EspError,
                >((self@, parent)),
                before == old(self)@,
                all == components(path@),
            decreases last - next,
        {
            proof {
                let more = all.drop_last().subrange(0, next + 1);
                assert(more.drop_last() =~= all.drop_last().subrange(0, next as int));
                assert(more.last() == names@[next as int]@);
            }
            parent = match self.ensure_directory(parent, &names[next]) {
                Ok(found) => found,
                Err(error) => {
                    proof {
                        lemma_walk_stops(before, all.drop_last(), next + 1, error);
                    }
                    return Some(error);
                },
            };
            next = next + 1;
        }
        assert(all.drop_last().subrange(0, last as int) =~= all.drop_last());
        assert(all.last() == names@[last as int]@);
        self.create_file(parent, &names[last], contents)
    }
}

proof fn lemma_walk_stops(v: Volume, names: Seq<Seq<u8>>, k: int, error: EspError)
    requires
        0 <= k <= names.len(),
        v.walked(names.subrange(0, k)) == Err::<(Volume, u32), EspError>(error),
    ensures
        v.walked(names) == Err::<(Volume, u32), EspError>(error),
    decreases names.len() - k,
{
    if k < names.len() {
        assert(names.subrange(0, k + 1).drop_last() =~= names.subrange(0, k));
        lemma_walk_stops(v, names, k + 1, error);
    } else {
        assert(names.subrange(0, k) =~= names);
    }
}

proof fn lemma_files_stop(v: Volume, files: Seq<(Seq<u8>, Seq<u8>)>, k: int, error: EspError)
    requires
        0 <= k <= files.len(),
        v.with_all(files.subrange(0, k)) == Err::<Volume, EspError>(error),
    ensures
        v.with_all(files) == Err::<Volume, EspError>(error),
    decreases files.len() - k,
{
    if k < files.len() {
        assert(files.subrange(0, k + 1).drop_last() =~= files.subrange(0, k));
        lemma_files_stop(v, files, k + 1, error);
    } else {
        assert(files.subrange(0, k) =~= files);
    }
}

pub proof fn lemma_words_len(s: Seq<u32>)
    ensures
        words(s).len() == 4 * s.len(),
    decreases s.len(),
{
    if s.len() > 0 {
        lemma_words_len(s.drop_last());
        lemma_le_bytes_len(s.last() as nat, 4);
    }
}

pub proof fn lemma_sector_lens(total: nat, fat_sectors: nat)
    ensures
        boot_sector(total, fat_sectors).len() == 512,
        info_sector().len() == 512,
{
    lemma_le_bytes_len(512, 2);
    lemma_le_bytes_len(32, 2);
    lemma_le_bytes_len(64, 2);
    lemma_le_bytes_len(34, 4);
    lemma_le_bytes_len(total, 4);
    lemma_le_bytes_len(fat_sectors, 4);
    lemma_le_bytes_len(2, 4);
    lemma_le_bytes_len(1, 2);
    lemma_le_bytes_len(6, 2);
    lemma_le_bytes_len(0x5745_4952, 4);
    lemma_le_bytes_len(0x4161_5252, 4);
    lemma_le_bytes_len(0x6141_7272, 4);
    lemma_le_bytes_len(0xffff_ffff, 4);
}

fn write_boot(total: u64, fat_sectors: u64) -> (boot: Vec<u8>)
    ensures
        boot@ == boot_sector(total as nat, fat_sectors as nat),
{
    let mut boot: Vec<u8> = Vec::new();
    boot.push(0xeb);
    boot.push(0x58);
    boot.push(0x90);
    assert(boot@ =~= seq![0xebu8, 0x58u8, 0x90u8]);
    push_slice(&mut boot, &OEM_NAME);
    push_le(&mut boot, 512, 2);
    let ghost before = boot@;
    boot.push(8);
    assert(boot@ =~= before + seq![8u8]);
    push_le(&mut boot, RESERVED_SECTORS, 2);
    let ghost before = boot@;
    boot.push(2);
    boot.push(0);
    boot.push(0);
    boot.push(0);
    boot.push(0);
    boot.push(0xf8);
    boot.push(0);
    boot.push(0);
    assert(boot@ =~= before + seq![2u8, 0u8, 0u8, 0u8, 0u8, 0xf8u8, 0u8, 0u8]);
    push_le(&mut boot, 32, 2);
    push_le(&mut boot, 64, 2);
    push_le(&mut boot, 34, 4);
    push_le(&mut boot, total, 4);
    push_le(&mut boot, fat_sectors, 4);
    push_fill(&mut boot, 4, 0);
    push_le(&mut boot, 2, 4);
    push_le(&mut boot, 1, 2);
    push_le(&mut boot, 6, 2);
    push_fill(&mut boot, 12, 0);
    let ghost before = boot@;
    boot.push(0x80);
    boot.push(0);
    boot.push(0x29);
    assert(boot@ =~= before + seq![0x80u8, 0u8, 0x29u8]);
    push_le(&mut boot, 0x5745_4952, 4);
    push_slice(&mut boot, &LABEL);
    push_slice(&mut boot, &TYPE_NAME);
    push_fill(&mut boot, 420, 0);
    let ghost before = boot@;
    boot.push(0x55);
    boot.push(0xaa);
    assert(boot@ =~= before + seq![0x55u8, 0xaau8]);
    boot
}

fn write_info() -> (info: Vec<u8>)
    ensures
        info@ == info_sector(),
{
    let mut info: Vec<u8> = Vec::new();
    push_le(&mut info, 0x4161_5252, 4);
    assert(info@ =~= le_bytes(0x4161_5252, 4));
    push_fill(&mut info, 480, 0);
    push_le(&mut info, 0x6141_7272, 4);
    push_le(&mut info, 0xffff_ffff, 4);
    push_le(&mut info, 0xffff_ffff, 4);
    push_fill(&mut info, 14, 0);
    let ghost before = info@;
    info.push(0x55);
    info.push(0xaa);
    assert(info@ =~= before + seq![0x55u8, 0xaau8]);
    info
}

impl Fat32 {
    /// An empty volume for a partition.
    pub fn new(partition_sectors: u64) -> (volume: Result<Fat32, EspError>)
        ensures
            match volume {
                Ok(volume) => built(partition_sectors as int, Seq::empty()) == Ok::<
                    Volume,
                    EspError,
                >(volume@) && volume@.wf(),
                Err(error) => geometry(partition_sectors as int) == Err::<(nat, nat), EspError>(
                    error,
                ),
            },
    {
        broadcast use vstd::std_specs::hash::group_hash_axioms;

        if partition_sectors < RESERVED_SECTORS {
            return Err(EspError::TooSmall);
        }
        let data: u64 = partition_sectors - RESERVED_SECTORS;
        let passed: u64 = ((data / 8 + 2) * 4 + 511) / 512;
        if data < 2 * passed + 8 {
            return Err(EspError::TooSmall);
        }
        let clusters: u64 = (data - 2 * passed) / 8;
        let fat_sectors: u64 = ((clusters + 2) * 4 + 511) / 512;
        if clusters + 2 > CLUSTER_LIMIT || partition_sectors > usize::MAX as u64 / 512 {
            return Err(EspError::TooLarge);
        }
        let mut volume: Vec<u8> = Vec::new();
        push_fill(&mut volume, partition_sectors as usize * 512, 0);
        let mut fat: Vec<u32> = Vec::new();
        fat.push(0x0fff_fff8);
        fat.push(0x0fff_ffff);
        fat.push(0x0fff_ffff);
        while (fat.len() as u64) < clusters + 2
            invariant
                3 <= fat@.len() <= clusters + 2,
                clusters + 2 <= CLUSTER_LIMIT,
                fat@[0] == 0x0fff_fff8,
                fat@[1] == 0x0fff_ffff,
                fat@[2] == 0x0fff_ffff,
                forall|i: int| 3 <= i < fat@.len() ==> #[trigger] fat@[i] == 0,
            decreases clusters + 2 - fat@.len(),
        {
            fat.push(0);
        }
        let mut slots: HashMap<u32, usize> = HashMap::new();
        slots.insert(2, 0);
        let built = Fat32 { volume, fat_sectors, fat, next_cluster: 3, slots };
        assert(built@ =~= empty_volume(
            partition_sectors as int,
            clusters as nat,
            fat_sectors as nat,
        ));
        Ok(built)
    }

    /// Writes the boot sector, the FSInfo sectors, and both copies of the table.
    pub fn finish(self) -> (bytes: Vec<u8>)
        requires
            self@.wf(),
        ensures
            bytes@ == self@.finished(),
            bytes@.len() == self@.bytes.len(),
    {
        let ghost v = self@;
        let size: usize = self.volume.len();
        let boot: Vec<u8> = write_boot(size as u64 / 512, self.fat_sectors);
        let info: Vec<u8> = write_info();
        proof {
            lemma_sector_lens(v.bytes.len() / 512, v.fat_sectors);
            lemma_words_len(v.fat);
        }
        let mut table: Vec<u8> = Vec::new();
        let count: usize = self.fat.len();
        let mut next: usize = 0;
        assert(self.fat@.subrange(0, 0) =~= Seq::<u32>::empty());
        while next < count
            invariant
                next <= count,
                count == self.fat@.len(),
                table@ == words(self.fat@.subrange(0, next as int)),
            decreases count - next,
        {
            proof {
                let more = self.fat@.subrange(0, next + 1);
                assert(more.drop_last() =~= self.fat@.subrange(0, next as int));
                assert(more.last() == self.fat@[next as int]);
            }
            push_le(&mut table, self.fat[next] as u64, 4);
            next = next + 1;
        }
        assert(self.fat@.subrange(0, next as int) =~= self.fat@);
        let padding: usize = (self.fat_sectors * 512) as usize - count * 4;
        push_fill(&mut table, padding, 0);
        assert(table@ =~= v.table());
        let second: usize = ((RESERVED_SECTORS + self.fat_sectors) * 512) as usize;
        let mut bytes: Vec<u8> = self.volume;
        put_slice(&mut bytes, 0, &boot);
        put_slice(&mut bytes, 3072, &boot);
        put_slice(&mut bytes, 512, &info);
        put_slice(&mut bytes, 3584, &info);
        put_slice(&mut bytes, RESERVED_SECTORS as usize * 512, &table);
        put_slice(&mut bytes, second, &table);
        bytes
    }

    /// Builds the volume of a partition with the files in it.
    pub fn build(partition_sectors: u64, files: &Vec<Source>) -> (volume: Result<Vec<u8>, EspError>)
        ensures
            match volume {
                Ok(bytes) => built(partition_sectors as int, sources(files@)) is Ok && bytes@ == (
                built(partition_sectors as int, sources(files@))->Ok_0).finished() && bytes@.len()
                    == partition_sectors * 512,
                Err(error) => built(partition_sectors as int, sources(files@)) == Err::<
                    Volume,
                    EspError,
                >(error),
            },
    {
        let mut volume: Fat32 = match Fat32::new(partition_sectors) {
            Ok(volume) => volume,
            Err(error) => {
                return Err(error);
            },
        };
        let ghost start = volume@;
        let ghost all = sources(files@);
        let mut next: usize = 0;
        assert(all.subrange(0, 0) =~= Seq::<(Seq<u8>, Seq<u8>)>::empty());
        while next < files.len()
            invariant
                next <= files@.len(),
                all == sources(files@),
                volume@.wf(),
                volume@.bytes.len() == partition_sectors * 512,
                built(partition_sectors as int, all) == start.with_all(all),
                start.with_all(all.subrange(0, next as int)) == Ok::<Volume, EspError>(volume@),
            decreases files@.len() - next,
        {
            proof {
                let more = all.subrange(0, next + 1);
                assert(more.drop_last() =~= all.subrange(0, next as int));
                assert(more.last() == source(files@[next as int]));
                lemma_added_len(
                    volume@,
                    files@[next as int].path@,
                    files@[next as int].contents@,
                );
            }
            match volume.add_file(&files[next].path, &files[next].contents) {
                Some(error) => {
                    proof {
                        lemma_files_stop(start, all, next + 1, error);
                    }
                    return Err(error);
                },
                None => {},
            }
            next = next + 1;
        }
        assert(all.subrange(0, next as int) =~= all);
        Ok(volume.finish())
    }
}

/// Adding a file keeps the volume's size.
proof fn lemma_added_len(v: Volume, path: Seq<u8>, contents: Seq<u8>)
    requires
        v.wf(),
    ensures
        match v.added(path, contents) {
            Ok(w) => w.bytes.len() == v.bytes.len(),
            Err(_) => true,
        },
{
    let names = components(path);
    if names.len() > 0 {
        lemma_walked_wf(v, names.drop_last());
        match v.walked(names.drop_last()) {
            Ok((w, parent)) => {
                lemma_with_file_wf(w, parent, names.last(), contents);
            },
            Err(_) => {},
        }
    }
}

proof fn lemma_entry_len(name: Seq<u8>, attributes: u8, cluster: nat, size: nat)
    requires
        name.len() == 11,
    ensures
        entry_bytes(name, attributes, cluster, size).len() == 32,
{
    lemma_le_bytes_len(cluster / 65536, 2);
    lemma_le_bytes_len(cluster % 65536, 2);
    lemma_le_bytes_len(size, 4);
}

/// An entry in a directory keeps everything else.
proof fn lemma_entered_wf(v: Volume, directory: u32, entry: Seq<u8>)
    requires
        v.wf(),
        2 <= directory < v.fat.len(),
        entry.len() == 32,
    ensures
        match v.entered(directory, entry) {
            Ok(w) => w.wf() && w.bytes.len() == v.bytes.len() && w.fat == v.fat && w.fat_sectors
                == v.fat_sectors && w.next == v.next,
            Err(_) => true,
        },
{
}

proof fn lemma_with_directory_wf(v: Volume, parent: u32, name: Seq<u8>)
    requires
        v.wf(),
        2 <= parent < v.fat.len(),
        fits_83(name),
    ensures
        match v.with_directory(parent, name) {
            Ok(w) => w.wf() && w.bytes.len() == v.bytes.len() && w.fat.len() == v.fat.len()
                && w.fat_sectors == v.fat_sectors && w.next == v.next + 1 && w.next < w.fat.len(),
            Err(_) => true,
        },
{
    let cluster = v.next as u32;
    lemma_entry_len(DOT@, DIRECTORY, cluster as nat, 0);
    lemma_entry_len(DOT_DOT@, DIRECTORY, parent as nat, 0);
    lemma_entry_len(name_83(name), DIRECTORY, cluster as nat, 0);
    if v.with_directory(parent, name) is Ok {
        let a = v.allocated(1)->Ok_0;
        assert(a.wf());
        lemma_entered_wf(a, cluster, entry_bytes(DOT@, DIRECTORY, cluster as nat, 0));
        let b = a.entered(cluster, entry_bytes(DOT@, DIRECTORY, cluster as nat, 0))->Ok_0;
        lemma_entered_wf(b, cluster, entry_bytes(DOT_DOT@, DIRECTORY, parent as nat, 0));
        let c = b.entered(cluster, entry_bytes(DOT_DOT@, DIRECTORY, parent as nat, 0))->Ok_0;
        lemma_entered_wf(c, parent, entry_bytes(name_83(name), DIRECTORY, cluster as nat, 0));
    }
}

proof fn lemma_ensured_wf(v: Volume, parent: u32, name: Seq<u8>)
    requires
        v.wf(),
        2 <= parent < v.fat.len(),
    ensures
        match v.ensured(parent, name) {
            Ok((w, found)) => w.wf() && w.bytes.len() == v.bytes.len() && w.fat.len() == v.fat.len()
                && w.fat_sectors == v.fat_sectors && 2 <= found < w.fat.len() && v.next <= w.next,
            Err(_) => true,
        },
{
    if fits_83(name) && v.child(parent, name) is None {
        lemma_with_directory_wf(v, parent, name);
    }
}

proof fn lemma_walked_wf(v: Volume, names: Seq<Seq<u8>>)
    requires
        v.wf(),
    ensures
        match v.walked(names) {
            Ok((w, found)) => w.wf() && w.bytes.len() == v.bytes.len() && w.fat.len() == v.fat.len()
                && w.fat_sectors == v.fat_sectors && 2 <= found < w.fat.len() && v.next <= w.next,
            Err(_) => true,
        },
    decreases names.len(),
{
    if names.len() > 0 {
        lemma_walked_wf(v, names.drop_last());
        match v.walked(names.drop_last()) {
            Ok((w, parent)) => {
                lemma_ensured_wf(w, parent, names.last());
            },
            Err(_) => {},
        }
    }
}

proof fn lemma_with_file_wf(v: Volume, parent: u32, name: Seq<u8>, contents: Seq<u8>)
    requires
        v.wf(),
        2 <= parent < v.fat.len(),
    ensures
        match v.with_file(parent, name, contents) {
            Ok(w) => w.wf() && w.bytes.len() == v.bytes.len() && w.fat.len() == v.fat.len()
                && w.fat_sectors == v.fat_sectors && v.next < w.next,
            Err(_) => true,
        },
{
    if v.with_file(parent, name, contents) is Ok {
        let clusters = Volume::clusters_for(contents);
        let a = v.allocated(clusters)->Ok_0;
        lemma_entry_len(name_83(name), ARCHIVE, v.next, contents.len());
        lemma_run_inside(v, contents);
        let b = Volume {
            bytes: put(a.bytes, cluster_at(a.fat_sectors, v.next as int), contents),
            ..a
        };
        assert(b.wf());
        lemma_entered_wf(
            b,
            parent,
            entry_bytes(name_83(name), ARCHIVE, v.next, contents.len()),
        );
    }
}

/// What is allocated for some contents has room for them.
proof fn lemma_run_inside(v: Volume, contents: Seq<u8>)
    requires
        v.wf(),
        v.allocated(Volume::clusters_for(contents)) is Ok,
    ensures
        cluster_at(v.fat_sectors, v.next as int) >= 0,
        cluster_at(v.fat_sectors, v.next as int) + contents.len() <= cluster_at(
            v.fat_sectors,
            (v.next + Volume::clusters_for(contents)) as int,
        ) <= v.bytes.len(),
{
    let clusters = Volume::clusters_for(contents);
    assert(contents.len() <= clusters * 4096);
}

} // verus!
