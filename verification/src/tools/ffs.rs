//! PI firmware volumes: the files in a volume and the sections in a file.
//!
//! Every structure is the PI specification's, little-endian.
use crate::bytes::{
    copy_range, fill, get_u16, get_u24, get_u64, le_at, le_bytes, matches_at, push_fill, put,
    put_le,
};
use vstd::prelude::*;

verus! {

/// `EFI_FFS_FILE_HEADER`.
pub const FFS_HEADER_SIZE: usize = 24;

/// `EFI_COMMON_SECTION_HEADER`.
pub const SECTION_HEADER_SIZE: usize = 4;

/// `_FVH`.
pub const FV_SIGNATURE: [u8; 4] = [0x5f, 0x46, 0x56, 0x48];

/// `EFI_FV_FILETYPE_DXE_CORE`.
pub const TYPE_DXE_CORE: u8 = 0x05;

/// `EFI_SECTION_PE32`, which EDK2 uses for PE32 and PE32+ images alike.
pub const TYPE_PE32: u8 = 0x10;

/// The largest size a 24-bit size field holds.
pub const MAX_SIZE: usize = 0x00ff_ffff;

/// A firmware volume: where it starts, how long it is, and how much of that is
/// its header.
#[derive(Clone, Copy, PartialEq, Eq, Structural, Debug)]
pub struct Volume {
    pub base: usize,
    pub length: usize,
    pub header_length: usize,
}

/// An FFS file: its offset, its size including the header, and its type. The name
/// it is filed under is its first sixteen bytes.
#[derive(Clone, Copy, PartialEq, Eq, Structural, Debug)]
pub struct FfsFile {
    pub offset: usize,
    pub size: usize,
    pub file_type: u8,
}

/// A section inside an FFS file.
#[derive(Clone, Copy, PartialEq, Eq, Structural, Debug)]
pub struct Section {
    pub offset: usize,
    pub size: usize,
    pub section_type: u8,
}

/// What is wrong with an image.
#[derive(Clone, Copy, PartialEq, Eq, Structural, Debug)]
pub enum FfsError {
    /// A file at an offset claims more bytes than the volume has.
    FilePastEnd(usize, usize),
    /// A section at an offset claims more bytes than the file has.
    SectionPastEnd(usize, usize),
}

/// The sum of bytes, in eight bits.
pub open spec fn byte_sum(s: Seq<u8>) -> int
    decreases s.len(),
{
    if s.len() == 0 {
        0
    } else {
        (byte_sum(s.drop_last()) + s.last()) % 256
    }
}

/// The sum of the first `n` 16-bit words, in sixteen bits.
pub open spec fn word_sum(s: Seq<u8>, n: nat) -> int
    decreases n,
{
    if n == 0 {
        0
    } else {
        (word_sum(s, (n - 1) as nat) + le_at(s, 2 * (n - 1), 2)) % 0x1_0000
    }
}

/// The byte that brings a byte sum to zero.
pub open spec fn check8(s: Seq<u8>) -> int {
    (256 - byte_sum(s)) % 256
}

/// The word that brings the sum of a volume header to zero, its own field being
/// zero.
pub open spec fn check16(header: Seq<u8>) -> int {
    (0x1_0000 - word_sum(put(header, 50, fill(2, 0)), header.len() / 2)) % 0x1_0000
}

/// A file header with both checksum fields and the state byte zero.
pub open spec fn without_checks(header: Seq<u8>) -> Seq<u8> {
    header.update(16, 0).update(17, 0).update(23, 0)
}

/// EDK2's `CalculateCheckSum8`: the value that brings a byte sum to zero.
pub fn checksum8(bytes: &[u8]) -> (sum: u8)
    ensures
        sum == check8(bytes@),
{
    let mut sum: u8 = 0;
    let mut next: usize = 0;
    assert(bytes@.subrange(0, 0) =~= Seq::<u8>::empty());
    while next < bytes.len()
        invariant
            next <= bytes@.len(),
            sum == byte_sum(bytes@.subrange(0, next as int)),
        decreases bytes@.len() - next,
    {
        sum = sum.wrapping_add(bytes[next]);
        proof {
            let whole = bytes@.subrange(0, next + 1);
            assert(whole.drop_last() =~= bytes@.subrange(0, next as int));
            assert(whole.last() == bytes@[next as int]);
        }
        next = next + 1;
    }
    assert(bytes@.subrange(0, next as int) =~= bytes@);
    0u8.wrapping_sub(sum)
}

/// The FFS header checksum, over the header with the two checksum fields and
/// the state byte treated as zero. `GenFfs` computes it the same way.
pub fn ffs_header_checksum(header: &Vec<u8>) -> (sum: u8)
    requires
        header@.len() >= 24,
    ensures
        sum == check8(without_checks(header@)),
{
    let mut copy: Vec<u8> = copy_range(header, 0, header.len());
    assert(copy@ =~= header@);
    copy.set(16, 0);
    copy.set(17, 0);
    copy.set(23, 0);
    checksum8(&copy)
}

/// The firmware volume header checksum: 16-bit words summing to zero, over the
/// header with the checksum field itself zero. `None` for a header of an odd
/// length.
pub fn fv_header_checksum(header: &Vec<u8>) -> (sum: Option<u16>)
    requires
        header@.len() >= 52,
    ensures
        match sum {
            Some(sum) => header@.len() % 2 == 0 && sum == check16(header@),
            None => header@.len() % 2 != 0,
        },
{
    let size: usize = header.len();
    if size % 2 != 0 {
        return None;
    }
    let mut copy: Vec<u8> = copy_range(header, 0, size);
    assert(copy@ =~= header@);
    put_le(&mut copy, 50, 0, 2);
    proof {
        reveal_with_fuel(le_bytes, 3);
        assert(le_bytes(0, 2) =~= fill(2, 0));
    }
    let ghost zeroed = copy@;
    let mut sum: u16 = 0;
    let mut word: usize = 0;
    while word < size / 2
        invariant
            word <= size / 2,
            copy@ == zeroed,
            copy@.len() == size,
            sum == word_sum(zeroed, word as nat),
        decreases size / 2 - word,
    {
        sum = sum.wrapping_add(get_u16(&copy, 2 * word));
        word = word + 1;
    }
    Some(0u16.wrapping_sub(sum))
}

/// The volume whose header starts at `start`, if there is one: the signature sits
/// forty bytes in, the lengths are plausible and inside the data, and the
/// checksum matches, which rules out the signature appearing inside data.
pub open spec fn volume_at(d: Seq<u8>, start: int) -> Option<Volume> {
    let length = le_at(d, start + 32, 8);
    let header = le_at(d, start + 48, 2);
    if d.subrange(start + 40, start + 44) == FV_SIGNATURE@ && 52 <= header <= 0x1000 && length
        >= header + FFS_HEADER_SIZE && start + length <= d.len() && header % 2 == 0 && check16(
        d.subrange(start, start + header),
    ) == le_at(d, start + 50, 2) {
        Some(
            Volume {
                base: start as usize,
                length: length as usize,
                header_length: header as usize,
            },
        )
    } else {
        None
    }
}

/// The volumes that start below `n`, in order.
pub open spec fn volumes_below(d: Seq<u8>, n: int) -> Seq<Volume>
    decreases n,
{
    if n <= 0 {
        Seq::empty()
    } else {
        match volume_at(d, n - 1) {
            Some(volume) => volumes_below(d, n - 1).push(volume),
            None => volumes_below(d, n - 1),
        }
    }
}

/// The volumes in an image, in order.
pub open spec fn volumes_of(d: Seq<u8>) -> Seq<Volume> {
    volumes_below(d, d.len() - 44)
}

/// Whether a volume lies inside the data, its header inside it.
pub open spec fn volume_inside(d: Seq<u8>, v: Volume) -> bool {
    52 <= v.header_length <= 0x1000 && v.header_length + FFS_HEADER_SIZE <= v.length && v.base
        + v.length <= d.len()
}

pub proof fn lemma_volumes_inside(d: Seq<u8>, n: int)
    requires
        d.len() <= usize::MAX,
        n <= d.len() - 44,
    ensures
        forall|i: int|
            0 <= i < volumes_below(d, n).len() ==> volume_inside(d, #[trigger] volumes_below(d, n)[i]),
    decreases n,
{
    if n > 0 {
        lemma_volumes_inside(d, n - 1);
        match volume_at(d, n - 1) {
            Some(volume) => {
                assert(volume_inside(d, volume));
                assert forall|i: int| 0 <= i < volumes_below(d, n).len() implies volume_inside(
                    d,
                    #[trigger] volumes_below(d, n)[i],
                ) by {
                    if i < volumes_below(d, n - 1).len() {
                        assert(volumes_below(d, n)[i] == volumes_below(d, n - 1)[i]);
                    }
                }
            },
            None => {},
        }
    }
}

/// The volume whose header starts at `start`, if there is one.
fn read_volume(data: &[u8], start: usize) -> (found: Option<Volume>)
    requires
        start + 44 < data@.len(),
    ensures
        found == volume_at(data@, start as int),
{
    let size: usize = data.len();
    if !matches_at(data, start + 40, &FV_SIGNATURE) {
        return None;
    }
    let length: u64 = get_u64(data, start + 32);
    if size - start < 52 {
        return None;
    }
    let header_length: u16 = get_u16(data, start + 48);
    if header_length < 52 || header_length > 0x1000 || length < header_length as u64
        + FFS_HEADER_SIZE as u64 || length > (size - start) as u64 {
        return None;
    }
    let header: Vec<u8> = copy_range(data, start, start + header_length as usize);
    let checksum: u16 = match fv_header_checksum(&header) {
        Some(checksum) => checksum,
        None => {
            return None;
        },
    };
    if checksum != get_u16(data, start + 50) {
        return None;
    }
    Some(Volume { base: start, length: length as usize, header_length: header_length as usize })
}

/// Every firmware volume in the image, found by its signature.
pub fn volumes(data: &[u8]) -> (found: Vec<Volume>)
    ensures
        found@ == volumes_of(data@),
        forall|i: int| 0 <= i < found@.len() ==> volume_inside(data@, #[trigger] found@[i]),
{
    let size: usize = data.len();
    let mut found: Vec<Volume> = Vec::new();
    let count: usize = if size >= 44 {
        size - 44
    } else {
        0
    };
    let mut start: usize = 0;
    while start < count
        invariant
            start <= count,
            size == data@.len(),
            count == if size >= 44 {
                size - 44
            } else {
                0
            },
            found@ == volumes_below(data@, start as int),
        decreases count - start,
    {
        match read_volume(data, start) {
            Some(volume) => {
                found.push(volume);
            },
            None => {},
        }
        start = start + 1;
    }
    proof {
        if size >= 44 {
            lemma_volumes_inside(data@, size - 44);
        }
    }
    found
}

/// Whether a file header marks free space: an erased or a blank name.
pub open spec fn is_free(name: Seq<u8>) -> bool {
    name == fill(16, 0xff) || name == fill(16, 0)
}

/// A size rounded up to a multiple of eight.
pub open spec fn round8(n: int) -> int {
    (n + 7) / 8 * 8
}

/// The files between `offset` and `end`, in order. The walk stops at the first
/// erased entry, which is how a volume marks its free space.
pub open spec fn files_from(d: Seq<u8>, offset: int, end: int) -> Result<Seq<FfsFile>, FfsError>
    decreases end + 8 - offset,
{
    let size = le_at(d, offset + 20, 3) as int;
    if offset + FFS_HEADER_SIZE > end || is_free(d.subrange(offset, offset + 16)) {
        Ok(Seq::empty())
    } else if size < FFS_HEADER_SIZE || offset + size > end {
        Err(FfsError::FilePastEnd(offset as usize, size as usize))
    } else {
        let file = FfsFile {
            offset: offset as usize,
            size: size as usize,
            file_type: d[offset + 18],
        };
        match files_from(d, offset + round8(size), end) {
            Ok(rest) => Ok(seq![file] + rest),
            Err(error) => Err(error),
        }
    }
}

/// The files of a volume.
pub open spec fn files_of(d: Seq<u8>, v: Volume) -> Result<Seq<FfsFile>, FfsError> {
    files_from(d, v.base + v.header_length, v.base + v.length)
}

/// Whether a file lies inside the data.
pub open spec fn file_inside(d: Seq<u8>, f: FfsFile) -> bool {
    FFS_HEADER_SIZE <= f.size <= MAX_SIZE && f.offset + f.size <= d.len()
}

/// `front` and then what was found, unless that is an error.
pub open spec fn after<A>(front: Seq<A>, rest: Result<Seq<A>, FfsError>) -> Result<
    Seq<A>,
    FfsError,
> {
    match rest {
        Ok(rest) => Ok(front + rest),
        Err(error) => Err(error),
    }
}

/// The FFS files of a volume, in the order the volume lists them.
pub fn files_in(data: &[u8], volume: &Volume) -> (files: Result<Vec<FfsFile>, FfsError>)
    requires
        volume_inside(data@, *volume),
    ensures
        match files {
            Ok(files) => files_of(data@, *volume) == Ok::<Seq<FfsFile>, FfsError>(files@)
                && forall|i: int|
                0 <= i < files@.len() ==> file_inside(data@, #[trigger] files@[i]) && files@[i].offset
                    >= volume.base + volume.header_length && files@[i].offset + files@[i].size
                    <= volume.base + volume.length,
            Err(error) => files_of(data@, *volume) == Err::<Seq<FfsFile>, FfsError>(error),
        },
{
    let total: usize = data.len();
    let mut erased: Vec<u8> = Vec::new();
    push_fill(&mut erased, 16, 0xff);
    let mut blank: Vec<u8> = Vec::new();
    push_fill(&mut blank, 16, 0);
    assert(erased@ =~= fill(16, 0xff));
    assert(blank@ =~= fill(16, 0));
    let mut files: Vec<FfsFile> = Vec::new();
    let end: usize = volume.base + volume.length;
    let mut offset: usize = volume.base + volume.header_length;
    proof {
        let rest = files_of(data@, *volume);
        match rest {
            Ok(found) => {
                assert(files@ + found =~= found);
            },
            Err(_) => {},
        }
    }
    while offset < end && end - offset >= FFS_HEADER_SIZE
        invariant
            total == data@.len(),
            end <= total,
            end == volume.base + volume.length,
            volume.base + volume.header_length <= offset,
            erased@ == fill(16, 0xff),
            blank@ == fill(16, 0),
            files_of(data@, *volume) == after(files@, files_from(data@, offset as int, end as int)),
            forall|i: int|
                0 <= i < files@.len() ==> file_inside(data@, #[trigger] files@[i]) && files@[i].offset
                    >= volume.base + volume.header_length && files@[i].offset + files@[i].size
                    <= volume.base + volume.length,
        decreases end + 8 - offset,
    {
        if matches_at(data, offset, &erased) || matches_at(data, offset, &blank) {
            assert(files@ + Seq::<FfsFile>::empty() =~= files@);
            return Ok(files);
        }
        let size: usize = get_u24(data, offset + 20) as usize;
        proof {
            lemma_u24(data@, offset + 20);
        }
        if size < FFS_HEADER_SIZE || size > end - offset {
            return Err(FfsError::FilePastEnd(offset, size));
        }
        let ghost before = files@;
        let file = FfsFile { offset, size, file_type: data[offset + 18] };
        files.push(file);
        let step: usize = (size + 7) / 8 * 8;
        proof {
            let rest = files_from(data@, offset + step, end as int);
            match rest {
                Ok(found) => {
                    assert(before + (seq![file] + found) =~= files@ + found);
                },
                Err(_) => {},
            }
        }
        if step > end - offset {
            assert(files@ + Seq::<FfsFile>::empty() =~= files@);
            return Ok(files);
        }
        offset = offset + step;
    }
    assert(files@ + Seq::<FfsFile>::empty() =~= files@);
    Ok(files)
}

pub proof fn lemma_u24(d: Seq<u8>, at: int)
    requires
        0 <= at,
        at + 3 <= d.len(),
    ensures
        le_at(d, at, 3) <= MAX_SIZE,
{
    crate::bytes::lemma_le_value_3(d.subrange(at, at + 3));
}

/// The sections between `offset` and `end`, in order.
pub open spec fn sections_from(d: Seq<u8>, offset: int, end: int) -> Result<Seq<Section>, FfsError>
    decreases end - offset,
{
    let size = le_at(d, offset, 3) as int;
    if offset + SECTION_HEADER_SIZE > end {
        Ok(Seq::empty())
    } else if size < SECTION_HEADER_SIZE || offset + size > end {
        Err(FfsError::SectionPastEnd(offset as usize, size as usize))
    } else {
        let section = Section {
            offset: offset as usize,
            size: size as usize,
            section_type: d[offset + 3],
        };
        match sections_from(d, offset + size, end) {
            Ok(rest) => Ok(seq![section] + rest),
            Err(error) => Err(error),
        }
    }
}

/// The sections of a file.
pub open spec fn sections_of(d: Seq<u8>, f: FfsFile) -> Result<Seq<Section>, FfsError> {
    sections_from(d, f.offset + FFS_HEADER_SIZE, f.offset + f.size)
}

/// Whether a section lies inside the data.
pub open spec fn section_inside(d: Seq<u8>, s: Section) -> bool {
    SECTION_HEADER_SIZE <= s.size <= MAX_SIZE && s.offset + s.size <= d.len()
}

/// The sections of an FFS file, in file order.
pub fn sections_in(data: &[u8], file: &FfsFile) -> (sections: Result<Vec<Section>, FfsError>)
    requires
        file_inside(data@, *file),
    ensures
        match sections {
            Ok(sections) => sections_of(data@, *file) == Ok::<Seq<Section>, FfsError>(sections@)
                && forall|i: int|
                0 <= i < sections@.len() ==> section_inside(data@, #[trigger] sections@[i]),
            Err(error) => sections_of(data@, *file) == Err::<Seq<Section>, FfsError>(error),
        },
{
    let total: usize = data.len();
    let mut sections: Vec<Section> = Vec::new();
    let end: usize = file.offset + file.size;
    let mut offset: usize = file.offset + FFS_HEADER_SIZE;
    proof {
        match sections_of(data@, *file) {
            Ok(found) => {
                assert(sections@ + found =~= found);
            },
            Err(_) => {},
        }
    }
    while end - offset >= SECTION_HEADER_SIZE
        invariant
            total == data@.len(),
            offset <= end <= total,
            sections_of(data@, *file) == after(
                sections@,
                sections_from(data@, offset as int, end as int),
            ),
            forall|i: int|
                0 <= i < sections@.len() ==> section_inside(data@, #[trigger] sections@[i]),
        decreases end - offset,
    {
        let size: usize = get_u24(data, offset) as usize;
        proof {
            lemma_u24(data@, offset as int);
        }
        if size < SECTION_HEADER_SIZE || size > end - offset {
            return Err(FfsError::SectionPastEnd(offset, size));
        }
        let ghost before = sections@;
        let section = Section { offset, size, section_type: data[offset + 3] };
        sections.push(section);
        proof {
            match sections_from(data@, offset + size, end as int) {
                Ok(found) => {
                    assert(before + (seq![section] + found) =~= sections@ + found);
                },
                Err(_) => {},
            }
        }
        offset = offset + size;
    }
    assert(sections@ + Seq::<Section>::empty() =~= sections@);
    Ok(sections)
}

} // verus!
