//! The ELF files the packager reads: the firmware's load segments, and one
//! section of the linked stub.
//!
//! The image is built from the program headers rather than from a flat
//! conversion, because the two disagree: the linker aligns its segments, and the
//! flat conversion compacts the gaps out. A loader uses the program headers, so
//! this does too.
use crate::bytes::{
    copy_range, fill, get_u16, get_u32, get_u64, le_at, lemma_le_value_4, lemma_le_value_8,
    push_fill, put, put_slice, same_bytes,
};
use crate::ranges::{covered, covers, in_order, lemma_sorted, lemma_sorted_covers, sort, sorted};
use vstd::prelude::*;

verus! {

/// Why an ELF file cannot be used.
#[derive(Clone, Copy, PartialEq, Eq, Structural, Debug)]
pub enum ElfError {
    /// Not an ELF file.
    NotElf,
    /// Not a 64-bit ELF.
    Not64Bit,
    /// Not little-endian.
    NotLittleEndian,
    /// Not AArch64.
    NotAarch64,
    /// A header or the data it names lies outside the file, or an address
    /// outside what can be addressed.
    Truncated,
    /// The firmware has no loadable segments.
    NoSegments,
    /// The entry point is not inside the loaded image.
    EntryOutside,
    /// There is no section of the name.
    NoSection,
}

/// A loadable segment.
#[derive(Clone, Copy, PartialEq, Eq, Structural, Debug)]
pub struct Segment {
    pub offset: u64,
    pub vaddr: u64,
    pub filesz: u64,
    pub memsz: u64,
}

/// The firmware as the stub will copy it: its loadable segments, laid out at
/// `segment address - load address`.
pub struct FirmwareImage {
    pub load_addr: u64,
    pub entry: u64,
    /// Ranges the image does not carry and the stub must zero, as (start, end)
    /// pairs.
    pub zero_ranges: Vec<(u64, u64)>,
    pub image: Vec<u8>,
}

/// What is wrong with a file's identification, if anything.
pub open spec fn identity_fault(b: Seq<u8>) -> Option<ElfError> {
    if b.len() < 58 {
        Some(ElfError::Truncated)
    } else if le_at(b, 0, 4) != 0x464c_457f {
        Some(ElfError::NotElf)
    } else if b[4] != 2 {
        Some(ElfError::Not64Bit)
    } else if b[5] != 1 {
        Some(ElfError::NotLittleEndian)
    } else if le_at(b, 18, 2) != 183 {
        Some(ElfError::NotAarch64)
    } else {
        None
    }
}

/// Where program header `i` is.
pub open spec fn header_at(b: Seq<u8>, i: int) -> int {
    le_at(b, 32, 8) + i * le_at(b, 54, 2)
}

/// The segment of program header `i`.
pub open spec fn segment_at(b: Seq<u8>, i: int) -> Segment {
    let h = header_at(b, i);
    Segment {
        offset: le_at(b, h + 8, 8) as u64,
        vaddr: le_at(b, h + 16, 8) as u64,
        filesz: le_at(b, h + 32, 8) as u64,
        memsz: le_at(b, h + 40, 8) as u64,
    }
}

/// The loadable segments among the first `n` program headers; `None` when a
/// header runs past the file.
pub open spec fn segments_below(b: Seq<u8>, n: int) -> Option<Seq<Segment>>
    decreases n,
{
    if n <= 0 {
        Some(Seq::empty())
    } else {
        match segments_below(b, n - 1) {
            None => None,
            Some(before) => if header_at(b, n - 1) + 4 > b.len() {
                None
            } else if le_at(b, header_at(b, n - 1), 4) != 1 {
                Some(before)
            } else if header_at(b, n - 1) + 48 > b.len() {
                None
            } else {
                Some(before.push(segment_at(b, n - 1)))
            },
        }
    }
}

/// The loadable segments of a file.
pub open spec fn segments_of(b: Seq<u8>) -> Option<Seq<Segment>> {
    segments_below(b, le_at(b, 56, 2) as int)
}

/// The lowest address any segment asks for, from `least` down.
pub open spec fn lowest(s: Seq<Segment>, least: u64) -> u64
    decreases s.len(),
{
    if s.len() == 0 {
        least
    } else {
        let before = lowest(s.drop_last(), least);
        if s.last().vaddr <= before {
            s.last().vaddr
        } else {
            before
        }
    }
}

/// `s` made at least `n` bytes long with zeroes.
pub open spec fn extended(s: Seq<u8>, n: int) -> Seq<u8> {
    if s.len() < n {
        s + fill((n - s.len()) as nat, 0)
    } else {
        s
    }
}

/// The segments' bytes at their addresses from `load` on, over zeroes; `None`
/// when a segment's bytes lie outside the file.
pub open spec fn laid_out(b: Seq<u8>, s: Seq<Segment>, load: u64) -> Option<Seq<u8>>
    decreases s.len(),
{
    if s.len() == 0 {
        Some(Seq::empty())
    } else {
        match laid_out(b, s.drop_last(), load) {
            None => None,
            Some(before) => {
                let g = s.last();
                let start = g.vaddr - load;
                if g.filesz == 0 {
                    Some(before)
                } else if g.offset + g.filesz > b.len() || start + g.filesz > usize::MAX {
                    None
                } else {
                    Some(
                        put(
                            extended(before, start + g.filesz),
                            start,
                            b.subrange(g.offset as int, g.offset + g.filesz),
                        ),
                    )
                }
            },
        }
    }
}

/// What an ELF loader has to clear: for every segment, the tail between its size
/// on disk and its size in memory. `None` when a tail runs past what can be
/// addressed.
pub open spec fn tails(s: Seq<Segment>) -> Option<Seq<(u64, u64)>>
    decreases s.len(),
{
    if s.len() == 0 {
        Some(Seq::empty())
    } else {
        let g = s.last();
        match tails(s.drop_last()) {
            None => None,
            Some(before) => if g.memsz <= g.filesz {
                Some(before)
            } else if g.vaddr + g.memsz > u64::MAX {
                None
            } else {
                Some(before.push(((g.vaddr + g.filesz) as u64, (g.vaddr + g.memsz) as u64)))
            },
        }
    }
}

/// Ordered ranges with those that touch or overlap made one.
pub open spec fn merged(s: Seq<(u64, u64)>) -> Seq<(u64, u64)>
    decreases s.len(),
{
    if s.len() == 0 {
        Seq::empty()
    } else {
        let m = merged(s.drop_last());
        let (start, end) = s.last();
        if m.len() > 0 && start <= m.last().1 {
            m.update(
                m.len() - 1,
                (
                    m.last().0,
                    if end >= m.last().1 {
                        end
                    } else {
                        m.last().1
                    },
                ),
            )
        } else {
            m.push((start, end))
        }
    }
}

/// The firmware as the stub will copy it.
#[verifier::ext_equal]
pub struct FirmwareView {
    pub load_addr: u64,
    pub entry: u64,
    pub zero_ranges: Seq<(u64, u64)>,
    pub image: Seq<u8>,
}

impl FirmwareImage {
    pub open spec fn view(&self) -> FirmwareView {
        FirmwareView {
            load_addr: self.load_addr,
            entry: self.entry,
            zero_ranges: self.zero_ranges@,
            image: self.image@,
        }
    }
}

/// What a firmware ELF holds: the load address is the lowest virtual address any
/// loadable segment asks for.
pub open spec fn firmware_of(b: Seq<u8>) -> Result<FirmwareView, ElfError> {
    let entry = le_at(b, 24, 8) as u64;
    match identity_fault(b) {
        Some(error) => Err(error),
        None => match segments_of(b) {
            None => Err(ElfError::Truncated),
            Some(s) => {
                let load = lowest(s, u64::MAX);
                if load == u64::MAX {
                    Err(ElfError::NoSegments)
                } else {
                    match laid_out(b, s, load) {
                        None => Err(ElfError::Truncated),
                        Some(image) => if entry < load || entry - load >= image.len() {
                            Err(ElfError::EntryOutside)
                        } else {
                            match tails(s) {
                                None => Err(ElfError::Truncated),
                                Some(t) => Ok(
                                    FirmwareView {
                                        load_addr: load,
                                        entry,
                                        zero_ranges: merged(sorted(t)),
                                        image,
                                    },
                                ),
                            }
                        },
                    }
                }
            },
        },
    }
}

/// Checks a file's identification.
fn check_identity(bytes: &[u8]) -> (fault: Option<ElfError>)
    ensures
        fault == identity_fault(bytes@),
{
    if bytes.len() < 58 {
        return Some(ElfError::Truncated);
    }
    if get_u32(bytes, 0) != 0x464c_457f {
        return Some(ElfError::NotElf);
    }
    if bytes[4] != 2 {
        return Some(ElfError::Not64Bit);
    }
    if bytes[5] != 1 {
        return Some(ElfError::NotLittleEndian);
    }
    if get_u16(bytes, 18) != 183 {
        return Some(ElfError::NotAarch64);
    }
    None
}

/// The loadable segments of a file.
fn segments(bytes: &[u8]) -> (found: Option<Vec<Segment>>)
    requires
        bytes@.len() >= 58,
    ensures
        match found {
            Some(found) => segments_of(bytes@) == Some(found@),
            None => segments_of(bytes@) is None,
        },
{
    let size: usize = bytes.len();
    let table: u64 = get_u64(bytes, 32);
    let entry_size: u16 = get_u16(bytes, 54);
    let count: u16 = get_u16(bytes, 56);
    let mut found: Vec<Segment> = Vec::new();
    let mut header: u128 = table as u128;
    let mut next: u16 = 0;
    assert(header == header_at(bytes@, 0));
    while next < count
        invariant
            next <= count,
            size == bytes@.len(),
            count == le_at(bytes@, 56, 2),
            entry_size == le_at(bytes@, 54, 2),
            header == header_at(bytes@, next as int),
            header <= u64::MAX + next * 0x1_0000,
            segments_below(bytes@, next as int) == Some(found@),
        decreases count - next,
    {
        proof {
            assert((next + 1) * entry_size == next * entry_size + entry_size) by (nonlinear_arith);
        }
        if header + 4 > size as u128 {
            proof {
                lemma_segments_stop(bytes@, next + 1, count as int);
            }
            return None;
        }
        let at: usize = header as usize;
        if get_u32(bytes, at) == 1 {
            if header + 48 > size as u128 {
                proof {
                    lemma_segments_stop(bytes@, next + 1, count as int);
                }
                return None;
            }
            found.push(
                Segment {
                    offset: get_u64(bytes, at + 8),
                    vaddr: get_u64(bytes, at + 16),
                    filesz: get_u64(bytes, at + 32),
                    memsz: get_u64(bytes, at + 40),
                },
            );
        }
        header = header + entry_size as u128;
        next = next + 1;
    }
    Some(found)
}

proof fn lemma_segments_stop(b: Seq<u8>, k: int, n: int)
    requires
        0 <= k <= n,
        segments_below(b, k) is None,
    ensures
        segments_below(b, n) is None,
    decreases n - k,
{
    if k < n {
        lemma_segments_stop(b, k + 1, n);
    }
}

/// The lowest address any segment asks for.
fn lowest_address(found: &Vec<Segment>) -> (least: u64)
    ensures
        least == lowest(found@, u64::MAX),
{
    let mut least: u64 = u64::MAX;
    let mut next: usize = 0;
    assert(found@.subrange(0, 0) =~= Seq::<Segment>::empty());
    while next < found.len()
        invariant
            next <= found@.len(),
            least == lowest(found@.subrange(0, next as int), u64::MAX),
        decreases found@.len() - next,
    {
        let vaddr: u64 = found[next].vaddr;
        proof {
            let more = found@.subrange(0, next + 1);
            assert(more.drop_last() =~= found@.subrange(0, next as int));
            assert(more.last() == found@[next as int]);
        }
        if vaddr <= least {
            least = vaddr;
        }
        next = next + 1;
    }
    assert(found@.subrange(0, next as int) =~= found@);
    least
}

proof fn lemma_lowest(s: Seq<Segment>, least: u64)
    ensures
        forall|i: int| 0 <= i < s.len() ==> lowest(s, least) <= (#[trigger] s[i]).vaddr,
        lowest(s, least) <= least,
    decreases s.len(),
{
    if s.len() > 0 {
        lemma_lowest(s.drop_last(), least);
        assert forall|i: int| 0 <= i < s.len() implies lowest(s, least) <= (
        #[trigger] s[i]).vaddr by {
            if i < s.len() - 1 {
                assert(s.drop_last()[i] == s[i]);
            }
        }
    }
}

/// The segments' bytes at their addresses.
fn lay_out(bytes: &[u8], found: &Vec<Segment>, load: u64) -> (image: Option<Vec<u8>>)
    requires
        load == lowest(found@, u64::MAX),
    ensures
        match image {
            Some(image) => laid_out(bytes@, found@, load) == Some(image@),
            None => laid_out(bytes@, found@, load) is None,
        },
{
    let size: usize = bytes.len();
    let mut image: Vec<u8> = Vec::new();
    let mut next: usize = 0;
    proof {
        lemma_lowest(found@, u64::MAX);
        assert(found@.subrange(0, 0) =~= Seq::<Segment>::empty());
        assert(image@ =~= Seq::<u8>::empty());
    }
    while next < found.len()
        invariant
            next <= found@.len(),
            size == bytes@.len(),
            forall|i: int| 0 <= i < found@.len() ==> load <= (#[trigger] found@[i]).vaddr,
            laid_out(bytes@, found@.subrange(0, next as int), load) == Some(image@),
        decreases found@.len() - next,
    {
        let g: Segment = found[next];
        proof {
            let more = found@.subrange(0, next + 1);
            assert(more.drop_last() =~= found@.subrange(0, next as int));
            assert(more.last() == g);
            assert(load <= found@[next as int].vaddr);
        }
        if g.filesz != 0 {
            let start: u64 = g.vaddr - load;
            if g.offset as u128 + g.filesz as u128 > size as u128 || start as u128
                + g.filesz as u128 > usize::MAX as u128 {
                proof {
                    lemma_layout_stop(bytes@, found@, load, next + 1);
                }
                return None;
            }
            let end: usize = start as usize + g.filesz as usize;
            let ghost before = image@;
            if image.len() < end {
                let missing: usize = end - image.len();
                push_fill(&mut image, missing, 0);
            }
            assert(image@ =~= extended(before, end as int));
            let data: Vec<u8> = copy_range(
                bytes,
                g.offset as usize,
                g.offset as usize + g.filesz as usize,
            );
            put_slice(&mut image, start as usize, &data);
        }
        next = next + 1;
    }
    assert(found@.subrange(0, next as int) =~= found@);
    Some(image)
}

proof fn lemma_layout_stop(b: Seq<u8>, s: Seq<Segment>, load: u64, k: int)
    requires
        0 <= k <= s.len(),
        laid_out(b, s.subrange(0, k), load) is None,
    ensures
        laid_out(b, s, load) is None,
    decreases s.len() - k,
{
    if k < s.len() {
        assert(s.subrange(0, k + 1).drop_last() =~= s.subrange(0, k));
        lemma_layout_stop(b, s, load, k + 1);
    } else {
        assert(s.subrange(0, k) =~= s);
    }
}

/// What an ELF loader has to clear.
fn zero_tails(found: &Vec<Segment>) -> (ranges: Option<Vec<(u64, u64)>>)
    ensures
        match ranges {
            Some(ranges) => tails(found@) == Some(ranges@),
            None => tails(found@) is None,
        },
{
    let mut ranges: Vec<(u64, u64)> = Vec::new();
    let mut next: usize = 0;
    assert(found@.subrange(0, 0) =~= Seq::<Segment>::empty());
    assert(ranges@ =~= Seq::<(u64, u64)>::empty());
    while next < found.len()
        invariant
            next <= found@.len(),
            tails(found@.subrange(0, next as int)) == Some(ranges@),
        decreases found@.len() - next,
    {
        let g: Segment = found[next];
        proof {
            let more = found@.subrange(0, next + 1);
            assert(more.drop_last() =~= found@.subrange(0, next as int));
            assert(more.last() == g);
        }
        if g.memsz > g.filesz {
            match g.vaddr.checked_add(g.memsz) {
                Some(end) => {
                    ranges.push((g.vaddr + g.filesz, end));
                },
                None => {
                    proof {
                        lemma_tails_stop(found@, next + 1);
                    }
                    return None;
                },
            }
        }
        next = next + 1;
    }
    assert(found@.subrange(0, next as int) =~= found@);
    Some(ranges)
}

proof fn lemma_tails_stop(s: Seq<Segment>, k: int)
    requires
        0 <= k <= s.len(),
        tails(s.subrange(0, k)) is None,
    ensures
        tails(s) is None,
    decreases s.len() - k,
{
    if k < s.len() {
        assert(s.subrange(0, k + 1).drop_last() =~= s.subrange(0, k));
        lemma_tails_stop(s, k + 1);
    } else {
        assert(s.subrange(0, k) =~= s);
    }
}

/// Merges ordered ranges that touch or overlap, so each byte is cleared once.
fn merge(list: &Vec<(u64, u64)>) -> (joined: Vec<(u64, u64)>)
    ensures
        joined@ == merged(list@),
{
    let mut joined: Vec<(u64, u64)> = Vec::new();
    let mut next: usize = 0;
    assert(list@.subrange(0, 0) =~= Seq::<(u64, u64)>::empty());
    while next < list.len()
        invariant
            next <= list@.len(),
            joined@ == merged(list@.subrange(0, next as int)),
        decreases list@.len() - next,
    {
        let (start, end) = list[next];
        proof {
            let more = list@.subrange(0, next + 1);
            assert(more.drop_last() =~= list@.subrange(0, next as int));
            assert(more.last() == (start, end));
        }
        if joined.len() > 0 && start <= joined[joined.len() - 1].1 {
            let last: usize = joined.len() - 1;
            let (from, to) = joined[last];
            joined.set(
                last,
                (
                    from,
                    if end >= to {
                        end
                    } else {
                        to
                    },
                ),
            );
        } else {
            joined.push((start, end));
        }
        next = next + 1;
    }
    assert(list@.subrange(0, next as int) =~= list@);
    joined
}

/// Reads the firmware ELF.
pub fn elf_image(bytes: &[u8]) -> (firmware: Result<FirmwareImage, ElfError>)
    ensures
        match firmware {
            Ok(firmware) => firmware_of(bytes@) == Ok::<FirmwareView, ElfError>(firmware@),
            Err(error) => firmware_of(bytes@) == Err::<FirmwareView, ElfError>(error),
        },
{
    match check_identity(bytes) {
        Some(error) => {
            return Err(error);
        },
        None => {},
    }
    let entry: u64 = get_u64(bytes, 24);
    let found: Vec<Segment> = match segments(bytes) {
        Some(found) => found,
        None => {
            return Err(ElfError::Truncated);
        },
    };
    let load_addr: u64 = lowest_address(&found);
    if load_addr == u64::MAX {
        return Err(ElfError::NoSegments);
    }
    let image: Vec<u8> = match lay_out(bytes, &found, load_addr) {
        Some(image) => image,
        None => {
            return Err(ElfError::Truncated);
        },
    };
    if entry < load_addr || entry - load_addr >= image.len() as u64 {
        return Err(ElfError::EntryOutside);
    }
    let ranges: Vec<(u64, u64)> = match zero_tails(&found) {
        Some(ranges) => ranges,
        None => {
            return Err(ElfError::Truncated);
        },
    };
    let ordered: Vec<(u64, u64)> = sort(&ranges);
    Ok(FirmwareImage { load_addr, entry, zero_ranges: merge(&ordered), image })
}

/// Whether program header `i` is that of a loadable segment.
pub open spec fn loadable(b: Seq<u8>, i: int) -> bool {
    0 <= i < le_at(b, 56, 2) && le_at(b, header_at(b, i), 4) == 1
}

/// Whether the file has the byte of a segment that belongs at an address.
pub open spec fn carries(g: Segment, a: int) -> bool {
    g.vaddr <= a < g.vaddr + g.filesz
}

/// Whether a segment is that of a loadable header below `n`.
spec fn is_loadable(b: Seq<u8>, n: int, g: Segment) -> bool {
    exists|i: int| i < n && loadable(b, i) && #[trigger] segment_at(b, i) == g
}

/// A loadable header among the first ones is listed, and nothing else is.
proof fn lemma_listed(b: Seq<u8>, n: int)
    requires
        0 <= n <= le_at(b, 56, 2),
        segments_below(b, n) is Some,
    ensures
        forall|i: int|
            0 <= i < n && loadable(b, i) ==> segments_below(b, n)->0.contains(
                #[trigger] segment_at(b, i),
            ),
        forall|m: int|
            0 <= m < segments_below(b, n)->0.len() ==> is_loadable(
                b,
                n,
                #[trigger] segments_below(b, n)->0[m],
            ),
    decreases n,
{
    if n > 0 {
        lemma_listed(b, n - 1);
        let before = segments_below(b, n - 1)->0;
        let s = segments_below(b, n)->0;
        assert forall|i: int| 0 <= i < n && loadable(b, i) implies s.contains(
            #[trigger] segment_at(b, i),
        ) by {
            if i < n - 1 {
                let m = choose|m: int| 0 <= m < before.len() && before[m] == segment_at(b, i);
                assert(s[m] == before[m]);
            } else {
                assert(s[s.len() - 1] == segment_at(b, i));
            }
        }
        assert forall|m: int| 0 <= m < s.len() implies is_loadable(b, n, #[trigger] s[m]) by {
            if m < before.len() {
                assert(s[m] == before[m]);
                assert(is_loadable(b, n - 1, before[m]));
                let i = choose|i: int|
                    i < n - 1 && loadable(b, i) && #[trigger] segment_at(b, i) == before[m];
                assert(segment_at(b, i) == s[m]);
            } else {
                assert(segment_at(b, n - 1) == s[m]);
            }
        }
    }
}

/// The lowest address is one that is asked for.
proof fn lemma_lowest_is_asked(s: Seq<Segment>, least: u64)
    ensures
        lowest(s, least) == least || exists|m: int|
            0 <= m < s.len() && (#[trigger] s[m]).vaddr == lowest(s, least),
    decreases s.len(),
{
    if s.len() > 0 {
        let front = s.drop_last();
        lemma_lowest_is_asked(front, least);
        if s.last().vaddr <= lowest(front, least) {
            assert(s[s.len() - 1].vaddr == lowest(s, least));
        } else if lowest(front, least) != least {
            let m = choose|m: int|
                0 <= m < front.len() && (#[trigger] front[m]).vaddr == lowest(front, least);
            assert(s[m].vaddr == lowest(s, least));
        }
    }
}

/// The firmware loads at the lowest address any loadable segment asks for.
pub proof fn law_loads_at_the_lowest_address(b: Seq<u8>, f: FirmwareView)
    requires
        firmware_of(b) == Ok::<FirmwareView, ElfError>(f),
    ensures
        forall|i: int| loadable(b, i) ==> f.load_addr <= (#[trigger] segment_at(b, i)).vaddr,
        exists|i: int| loadable(b, i) && (#[trigger] segment_at(b, i)).vaddr == f.load_addr,
        f.entry == le_at(b, 24, 8) as u64,
        f.load_addr <= f.entry < f.load_addr + f.image.len(),
{
    let n = le_at(b, 56, 2) as int;
    let s = segments_of(b)->0;
    lemma_listed(b, n);
    lemma_lowest(s, u64::MAX);
    lemma_lowest_is_asked(s, u64::MAX);
    assert forall|i: int| loadable(b, i) implies f.load_addr <= (#[trigger] segment_at(b, i)).vaddr by {
        let m = choose|m: int| 0 <= m < s.len() && s[m] == segment_at(b, i);
        assert(f.load_addr <= s[m].vaddr);
    }
    let m = choose|m: int| 0 <= m < s.len() && (#[trigger] s[m]).vaddr == f.load_addr;
    assert(is_loadable(b, n, s[m]));
    let i = choose|i: int| i < n && loadable(b, i) && #[trigger] segment_at(b, i) == s[m];
    assert(segment_at(b, i).vaddr == f.load_addr);
}

/// A byte that the file has of segment `i`, and of no later one, is where it belongs.
proof fn lemma_carried(b: Seq<u8>, n: int, load: u64, i: int, k: int)
    requires
        0 <= i < n <= le_at(b, 56, 2),
        loadable(b, i),
        0 <= k < segment_at(b, i).filesz,
        segments_below(b, n) is Some,
        laid_out(b, segments_below(b, n)->0, load) is Some,
        forall|j: int| 0 <= j < n && loadable(b, j) ==> load <= (#[trigger] segment_at(b, j)).vaddr,
        forall|j: int|
            i < j < n && loadable(b, j) ==> !carries(
                #[trigger] segment_at(b, j),
                segment_at(b, i).vaddr + k,
            ),
    ensures
        ({
            let image = laid_out(b, segments_below(b, n)->0, load)->0;
            let g = segment_at(b, i);
            &&& g.offset + g.filesz <= b.len()
            &&& g.vaddr - load + g.filesz <= image.len()
            &&& image[g.vaddr - load + k] == b[g.offset + k]
        }),
    decreases n,
{
    let g = segment_at(b, i);
    let s = segments_below(b, n)->0;
    let before = segments_below(b, n - 1)->0;
    if loadable(b, n - 1) {
        assert(s.drop_last() =~= before);
        assert(s.last() == segment_at(b, n - 1));
    }
    if i < n - 1 {
        lemma_carried(b, n - 1, load, i, k);
        if loadable(b, n - 1) {
            assert(!carries(segment_at(b, n - 1), g.vaddr + k));
            assert(load <= segment_at(b, n - 1).vaddr);
        }
    } else {
        assert(load <= segment_at(b, n - 1).vaddr);
    }
}

/// A byte that the file has of no segment is zero.
proof fn lemma_uncarried(b: Seq<u8>, n: int, load: u64, p: int)
    requires
        0 <= n <= le_at(b, 56, 2),
        segments_below(b, n) is Some,
        laid_out(b, segments_below(b, n)->0, load) is Some,
        0 <= p < laid_out(b, segments_below(b, n)->0, load)->0.len(),
        forall|j: int| 0 <= j < n && loadable(b, j) ==> load <= (#[trigger] segment_at(b, j)).vaddr,
        forall|j: int|
            0 <= j < n && loadable(b, j) ==> !carries(#[trigger] segment_at(b, j), load + p),
    ensures
        laid_out(b, segments_below(b, n)->0, load)->0[p] == 0,
    decreases n,
{
    if n > 0 {
        let s = segments_below(b, n)->0;
        let before = segments_below(b, n - 1)->0;
        if loadable(b, n - 1) {
            assert(s.drop_last() =~= before);
            assert(s.last() == segment_at(b, n - 1));
            assert(!carries(segment_at(b, n - 1), load + p));
            assert(load <= segment_at(b, n - 1).vaddr);
        }
        if p < laid_out(b, before, load)->0.len() {
            lemma_uncarried(b, n - 1, load, p);
        }
    }
}

/// The image ends where the last segment that the file carries does.
proof fn lemma_image_end(b: Seq<u8>, n: int, load: u64)
    requires
        0 <= n <= le_at(b, 56, 2),
        segments_below(b, n) is Some,
        laid_out(b, segments_below(b, n)->0, load) is Some,
        forall|j: int| 0 <= j < n && loadable(b, j) ==> load <= (#[trigger] segment_at(b, j)).vaddr,
    ensures
        ({
            let image = laid_out(b, segments_below(b, n)->0, load)->0;
            image.len() > 0 ==> exists|i: int|
                i < n && loadable(b, i) && (#[trigger] segment_at(b, i)).filesz > 0
                    && segment_at(b, i).vaddr + segment_at(b, i).filesz == load + image.len()
        }),
    decreases n,
{
    if n > 0 {
        let s = segments_below(b, n)->0;
        let before = segments_below(b, n - 1)->0;
        let image = laid_out(b, s, load)->0;
        if loadable(b, n - 1) {
            assert(s.drop_last() =~= before);
            assert(s.last() == segment_at(b, n - 1));
            assert(load <= segment_at(b, n - 1).vaddr);
        }
        lemma_image_end(b, n - 1, load);
        if image.len() > 0 {
            if image.len() == laid_out(b, before, load)->0.len() {
                let i = choose|i: int|
                    i < n - 1 && loadable(b, i) && (#[trigger] segment_at(b, i)).filesz > 0
                        && segment_at(b, i).vaddr + segment_at(b, i).filesz == load + image.len();
                assert(segment_at(b, i).filesz > 0);
            } else {
                assert(segment_at(b, n - 1).filesz > 0);
            }
        }
    }
}

/// Every byte that the file has of a loadable segment is in the image, at the segment's
/// address: byte `k` of segment `i`, where no later segment has its own byte there.
pub proof fn law_segment_is_in_the_image(b: Seq<u8>, f: FirmwareView, i: int, k: int)
    requires
        firmware_of(b) == Ok::<FirmwareView, ElfError>(f),
        loadable(b, i),
        0 <= k < segment_at(b, i).filesz,
        forall|j: int|
            i < j && loadable(b, j) ==> !carries(
                #[trigger] segment_at(b, j),
                segment_at(b, i).vaddr + k,
            ),
    ensures
        ({
            let g = segment_at(b, i);
            let at = g.vaddr - f.load_addr + k;
            0 <= at < f.image.len() && g.offset + k < b.len() && f.image[at] == b[g.offset + k]
        }),
{
    law_loads_at_the_lowest_address(b, f);
    lemma_carried(b, le_at(b, 56, 2) as int, f.load_addr, i, k);
    assert(f.load_addr <= segment_at(b, i).vaddr);
}

/// Every byte of the image that the file has of no loadable segment is zero, and the
/// image ends where one of them does.
pub proof fn law_the_rest_of_the_image_is_zero(b: Seq<u8>, f: FirmwareView, p: int)
    requires
        firmware_of(b) == Ok::<FirmwareView, ElfError>(f),
        0 <= p < f.image.len(),
        forall|j: int|
            loadable(b, j) ==> !carries(#[trigger] segment_at(b, j), f.load_addr + p),
    ensures
        f.image[p] == 0,
        exists|i: int|
            loadable(b, i) && (#[trigger] segment_at(b, i)).vaddr + segment_at(b, i).filesz
                == f.load_addr + f.image.len(),
{
    let n = le_at(b, 56, 2) as int;
    law_loads_at_the_lowest_address(b, f);
    lemma_uncarried(b, n, f.load_addr, p);
    lemma_image_end(b, n, f.load_addr);
    let i = choose|i: int|
        i < n && loadable(b, i) && (#[trigger] segment_at(b, i)).filesz > 0 && segment_at(
            b,
            i,
        ).vaddr + segment_at(b, i).filesz == f.load_addr + f.image.len();
    assert(segment_at(b, i).vaddr + segment_at(b, i).filesz == f.load_addr + f.image.len());
}

/// The stub clears exactly the bytes of memory that a loadable segment asks for and the
/// file does not carry, in ranges that neither touch nor overlap.
pub proof fn law_the_tails_are_cleared(b: Seq<u8>, f: FirmwareView, a: int)
    requires
        firmware_of(b) == Ok::<FirmwareView, ElfError>(f),
    ensures
        covered(f.zero_ranges, a) == (exists|i: int|
            loadable(b, i) && in_tail(#[trigger] segment_at(b, i), a)),
        forall|x: int, y: int|
            0 <= x < y < f.zero_ranges.len() ==> (#[trigger] f.zero_ranges[x]).1 < (
            #[trigger] f.zero_ranges[y]).0,
{
    let n = le_at(b, 56, 2) as int;
    let s = segments_of(b)->0;
    lemma_listed(b, n);
    law_cleared_once(s, a);
    if exists|m: int| 0 <= m < s.len() && in_tail(#[trigger] s[m], a) {
        let m = choose|m: int| 0 <= m < s.len() && in_tail(#[trigger] s[m], a);
        assert(is_loadable(b, n, s[m]));
        let i = choose|i: int| i < n && loadable(b, i) && #[trigger] segment_at(b, i) == s[m];
        assert(in_tail(segment_at(b, i), a));
    }
    if exists|i: int| loadable(b, i) && in_tail(#[trigger] segment_at(b, i), a) {
        let i = choose|i: int| loadable(b, i) && in_tail(#[trigger] segment_at(b, i), a);
        let m = choose|m: int| 0 <= m < s.len() && s[m] == segment_at(b, i);
        assert(in_tail(s[m], a));
    }
}

/// Merging ordered ranges keeps what they cover, and leaves ranges that neither
/// touch nor overlap: each byte is cleared once.
pub proof fn law_merged_once(s: Seq<(u64, u64)>, a: int)
    requires
        forall|i: int, j: int|
            0 <= i <= j < s.len() ==> in_order(#[trigger] s[i], #[trigger] s[j]),
        forall|i: int| 0 <= i < s.len() ==> (#[trigger] s[i]).0 < s[i].1,
    ensures
        covered(merged(s), a) == covered(s, a),
        forall|i: int, j: int|
            0 <= i < j < merged(s).len() ==> (#[trigger] merged(s)[i]).1 < (
            #[trigger] merged(s)[j]).0,
        forall|i: int| 0 <= i < merged(s).len() ==> (#[trigger] merged(s)[i]).0 < merged(s)[i].1,
        s.len() > 0 ==> merged(s).len() > 0 && merged(s).last().0 <= s.last().0,
    decreases s.len(),
{
    if s.len() > 0 {
        let front = s.drop_last();
        let x = s.last();
        let m = merged(front);
        let all = merged(s);
        assert forall|i: int, j: int| 0 <= i <= j < front.len() implies in_order(
            #[trigger] front[i],
            #[trigger] front[j],
        ) by {
            assert(front[i] == s[i] && front[j] == s[j]);
        }
        assert forall|i: int| 0 <= i < front.len() implies (#[trigger] front[i]).0 < front[i].1 by {
            assert(front[i] == s[i]);
        }
        law_merged_once(front, a);
        assert(s[s.len() - 1] == x);
        if front.len() > 0 {
            assert(in_order(s[s.len() - 2], s[s.len() - 1]));
            assert(front.last() == s[s.len() - 2]);
        }
        let joins = m.len() > 0 && x.0 <= m.last().1;
        // What is covered.
        if covered(s, a) {
            let i = choose|i: int| 0 <= i < s.len() && covers(#[trigger] s[i], a);
            if i < front.len() {
                assert(front[i] == s[i]);
                let j = choose|j: int| 0 <= j < m.len() && covers(#[trigger] m[j], a);
                if joins && j == m.len() - 1 {
                    assert(covers(all[all.len() - 1], a));
                } else {
                    assert(all[j] == m[j]);
                }
            } else {
                assert(covers(all[all.len() - 1], a));
            }
        }
        if covered(all, a) {
            let j = choose|j: int| 0 <= j < all.len() && covers(#[trigger] all[j], a);
            if j < all.len() - 1 {
                assert(all[j] == m[j]);
                let i = choose|i: int| 0 <= i < front.len() && covers(#[trigger] front[i], a);
                assert(s[i] == front[i]);
            } else if covers(x, a) {
                assert(covers(s[s.len() - 1], a));
            } else {
                assert(joins);
                assert(covers(m[m.len() - 1], a));
                let i = choose|i: int| 0 <= i < front.len() && covers(#[trigger] front[i], a);
                assert(s[i] == front[i]);
            }
        }
        assert forall|i: int, j: int| 0 <= i < j < all.len() implies (#[trigger] all[i]).1 < (
        #[trigger] all[j]).0 by {
            assert(all[i] == m[i]);
            if joins {
                assert(all[j].0 == m[j].0);
                assert(m[i].1 < m[j].0);
            } else if j < m.len() {
                assert(all[j] == m[j]);
            } else {
                assert(all[j] == x);
                if i < m.len() - 1 {
                    assert(m[i].1 < m[m.len() - 1].0);
                    assert(m[m.len() - 1].0 < m[m.len() - 1].1);
                }
            }
        }
        assert forall|i: int| 0 <= i < all.len() implies (#[trigger] all[i]).0 < all[i].1 by {
            if i < m.len() {
                assert(m[i].0 < m[i].1);
            }
        }
    }
}

/// Whether an address is in the part of a segment that its file bytes do not reach.
pub open spec fn in_tail(g: Segment, a: int) -> bool {
    g.vaddr + g.filesz <= a < g.vaddr + g.memsz
}

/// The stub clears exactly the bytes of memory that a segment asks for and the
/// file does not carry, each of them once.
pub proof fn law_cleared_once(s: Seq<Segment>, a: int)
    requires
        tails(s) is Some,
    ensures
        covered(merged(sorted(tails(s)->0)), a) == (exists|i: int|
            0 <= i < s.len() && in_tail(#[trigger] s[i], a)),
        forall|i: int, j: int|
            0 <= i < j < merged(sorted(tails(s)->0)).len() ==> (#[trigger] merged(
                sorted(tails(s)->0),
            )[i]).1 < (#[trigger] merged(sorted(tails(s)->0))[j]).0,
{
    let t = tails(s)->0;
    lemma_tails(s, a);
    lemma_sorted(t);
    lemma_sorted_covers(t, a);
    assert forall|i: int| 0 <= i < sorted(t).len() implies (#[trigger] sorted(t)[i]).0 < sorted(
        t,
    )[i].1 by {
        assert(sorted(t).contains(sorted(t)[i]));
        assert(t.contains(sorted(t)[i]));
    }
    law_merged_once(sorted(t), a);
}

proof fn lemma_tails(s: Seq<Segment>, a: int)
    requires
        tails(s) is Some,
    ensures
        covered(tails(s)->0, a) == (exists|i: int| 0 <= i < s.len() && in_tail(#[trigger] s[i], a)),
        forall|i: int| 0 <= i < (tails(s)->0).len() ==> (#[trigger] (tails(s)->0)[i]).0 < (
        tails(s)->0)[i].1,
    decreases s.len(),
{
    if s.len() > 0 {
        let front = s.drop_last();
        let g = s.last();
        let before = tails(front)->0;
        let t = tails(s)->0;
        lemma_tails(front, a);
        if covered(t, a) {
            let i = choose|i: int| 0 <= i < t.len() && covers(#[trigger] t[i], a);
            if i < before.len() {
                assert(covers(before[i], a));
                let j = choose|j: int| 0 <= j < front.len() && in_tail(#[trigger] front[j], a);
                assert(s[j] == front[j]);
            } else {
                assert(in_tail(s[s.len() - 1], a));
            }
        }
        if exists|i: int| 0 <= i < s.len() && in_tail(#[trigger] s[i], a) {
            let i = choose|i: int| 0 <= i < s.len() && in_tail(#[trigger] s[i], a);
            if i < front.len() {
                assert(in_tail(front[i], a));
                let j = choose|j: int| 0 <= j < before.len() && covers(#[trigger] before[j], a);
                assert(t[j] == before[j]);
            } else {
                assert(covers(t[t.len() - 1], a));
            }
        }
    }
}

/// Whether the name at `at` in a string table is `want`: its bytes and a
/// terminator.
pub open spec fn named(b: Seq<u8>, at: int, want: Seq<u8>) -> bool {
    &&& at + want.len() < b.len()
    &&& b.subrange(at, at + want.len()) == want
    &&& b[at + want.len()] == 0
}

/// Whether a name that starts at `at` ends inside the file.
pub open spec fn terminated(b: Seq<u8>, at: int) -> bool {
    exists|i: int| at <= i < b.len() && #[trigger] b[i] == 0
}

/// Section header `i`.
pub open spec fn section_header(b: Seq<u8>, i: int) -> int {
    le_at(b, 40, 8) + i * le_at(b, 58, 2)
}

/// The contents of the first section of a name among those from `i` on.
pub open spec fn section_from(b: Seq<u8>, names: int, want: Seq<u8>, i: int) -> Result<
    Seq<u8>,
    ElfError,
>
    decreases le_at(b, 60, 2) - i,
{
    if i >= le_at(b, 60, 2) {
        Err(ElfError::NoSection)
    } else {
        let h = section_header(b, i);
        if h + 4 > b.len() || !terminated(b, names + le_at(b, h, 4)) {
            Err(ElfError::Truncated)
        } else if named(b, names + le_at(b, h, 4), want) {
            let offset = le_at(b, h + 24, 8);
            let size = le_at(b, h + 32, 8);
            if h + 40 > b.len() || offset + size > b.len() {
                Err(ElfError::Truncated)
            } else {
                Ok(b.subrange(offset as int, (offset + size) as int))
            }
        } else {
            section_from(b, names, want, i + 1)
        }
    }
}

/// The contents of one section of an ELF file, by name.
pub open spec fn section_of(b: Seq<u8>, want: Seq<u8>) -> Result<Seq<u8>, ElfError> {
    let names = section_header(b, le_at(b, 62, 2) as int);
    if b.len() < 64 || names + 32 > b.len() {
        Err(ElfError::Truncated)
    } else {
        section_from(b, le_at(b, names + 24, 8) as int, want, 0)
    }
}

/// Whether a name that starts at `at` ends inside the file.
fn name_ends(bytes: &[u8], at: u128) -> (ends: bool)
    ensures
        ends == terminated(bytes@, at as int),
{
    if at >= bytes.len() as u128 {
        return false;
    }
    let mut next: usize = at as usize;
    while next < bytes.len()
        invariant
            at <= next <= bytes@.len(),
            forall|i: int| at <= i < next ==> #[trigger] bytes@[i] != 0,
        decreases bytes@.len() - next,
    {
        if bytes[next] == 0 {
            return true;
        }
        next = next + 1;
    }
    false
}

/// Whether the name at `at` is `want`.
fn name_is(bytes: &[u8], at: u128, want: &[u8]) -> (is: bool)
    requires
        at < 0x2_0000_0000_0000_0000,
    ensures
        is == named(bytes@, at as int, want@),
{
    let size: usize = bytes.len();
    if at + want.len() as u128 >= size as u128 {
        return false;
    }
    let from: usize = at as usize;
    let name: Vec<u8> = copy_range(bytes, from, from + want.len());
    same_bytes(&name, want) && bytes[from + want.len()] == 0
}

/// The contents of one section of an ELF file, by name.
pub fn elf_section(bytes: &[u8], name: &[u8]) -> (contents: Result<Vec<u8>, ElfError>)
    ensures
        match contents {
            Ok(contents) => section_of(bytes@, name@) == Ok::<Seq<u8>, ElfError>(contents@),
            Err(error) => section_of(bytes@, name@) == Err::<Seq<u8>, ElfError>(error),
        },
{
    let size: usize = bytes.len();
    if size < 64 {
        return Err(ElfError::Truncated);
    }
    let table: u64 = get_u64(bytes, 40);
    let entry_size: u16 = get_u16(bytes, 58);
    let count: u16 = get_u16(bytes, 60);
    let names_index: u16 = get_u16(bytes, 62);
    proof {
        assert(0 <= names_index * entry_size <= 0xffff * 0xffff) by (nonlinear_arith)
            requires
                0 <= names_index <= 0xffff,
                0 <= entry_size <= 0xffff,
        ;
    }
    let names_header: u128 = table as u128 + names_index as u128 * entry_size as u128;
    if names_header + 32 > size as u128 {
        return Err(ElfError::Truncated);
    }
    let names: u64 = get_u64(bytes, names_header as usize + 24);
    let mut header: u128 = table as u128;
    let mut next: u16 = 0;
    while next < count
        invariant
            next <= count,
            size == bytes@.len(),
            count == le_at(bytes@, 60, 2),
            entry_size == le_at(bytes@, 58, 2),
            header == section_header(bytes@, next as int),
            header <= u64::MAX + next * 0x1_0000,
            section_of(bytes@, name@) == section_from(
                bytes@,
                names as int,
                name@,
                next as int,
            ),
        decreases count - next,
    {
        proof {
            assert((next + 1) * entry_size == next * entry_size + entry_size) by (nonlinear_arith);
        }
        if header + 4 > size as u128 {
            return Err(ElfError::Truncated);
        }
        let at: usize = header as usize;
        let name_offset: u32 = get_u32(bytes, at);
        if !name_ends(bytes, names as u128 + name_offset as u128) {
            return Err(ElfError::Truncated);
        }
        if name_is(bytes, names as u128 + name_offset as u128, name) {
            if header + 40 > size as u128 {
                return Err(ElfError::Truncated);
            }
            let offset: u64 = get_u64(bytes, at + 24);
            let length: u64 = get_u64(bytes, at + 32);
            if offset as u128 + length as u128 > size as u128 {
                return Err(ElfError::Truncated);
            }
            return Ok(copy_range(bytes, offset as usize, offset as usize + length as usize));
        }
        header = header + entry_size as u128;
        next = next + 1;
    }
    Err(ElfError::NoSection)
}

/// The contents of a section are those of the first section of that name: section `k`, when
/// the names of the sections before it are others.
pub proof fn law_named_section_is_found(b: Seq<u8>, want: Seq<u8>, k: int)
    requires
        b.len() >= 64,
        section_header(b, le_at(b, 62, 2) as int) + 32 <= b.len(),
        0 <= k < le_at(b, 60, 2),
        ({
            let names = le_at(b, section_header(b, le_at(b, 62, 2) as int) + 24, 8) as int;
            &&& forall|i: int|
                0 <= i <= k ==> section_header(b, i) + 40 <= b.len() && terminated(
                    b,
                    names + le_at(b, #[trigger] section_header(b, i), 4),
                ) && (named(b, names + le_at(b, section_header(b, i), 4), want) <==> i == k)
        }),
        le_at(b, section_header(b, k) + 24, 8) + le_at(b, section_header(b, k) + 32, 8) <= b.len(),
    ensures
        ({
            let at = le_at(b, section_header(b, k) + 24, 8) as int;
            let size = le_at(b, section_header(b, k) + 32, 8) as int;
            section_of(b, want) == Ok::<Seq<u8>, ElfError>(b.subrange(at, at + size))
        }),
{
    let names = le_at(b, section_header(b, le_at(b, 62, 2) as int) + 24, 8) as int;
    lemma_section_from(b, names, want, 0, k);
}

proof fn lemma_section_from(b: Seq<u8>, names: int, want: Seq<u8>, from: int, k: int)
    requires
        0 <= from <= k < le_at(b, 60, 2),
        forall|i: int|
            0 <= i <= k ==> section_header(b, i) + 40 <= b.len() && terminated(
                b,
                names + le_at(b, #[trigger] section_header(b, i), 4),
            ) && (named(b, names + le_at(b, section_header(b, i), 4), want) <==> i == k),
    ensures
        section_from(b, names, want, from) == section_from(b, names, want, k),
    decreases k - from,
{
    if from < k {
        assert(section_header(b, from) + 40 <= b.len());
        lemma_section_from(b, names, want, from + 1, k);
    }
}

/// Whether a segment can be laid out: its bytes are in the file, and its addresses can be had.
pub open spec fn can_be_laid_out(b: Seq<u8>, g: Segment) -> bool {
    &&& g.filesz > 0 ==> g.offset + g.filesz <= b.len() && g.vaddr + g.filesz <= usize::MAX
    &&& g.memsz > g.filesz ==> g.vaddr + g.memsz <= u64::MAX
}

proof fn lemma_all_listed(b: Seq<u8>, n: int)
    requires
        forall|i: int| 0 <= i < n ==> #[trigger] header_at(b, i) + 48 <= b.len(),
    ensures
        segments_below(b, n) is Some,
    decreases n,
{
    if n > 0 {
        lemma_all_listed(b, n - 1);
        assert(header_at(b, n - 1) + 48 <= b.len());
    }
}

proof fn lemma_all_laid_out(b: Seq<u8>, s: Seq<Segment>, load: u64)
    requires
        forall|m: int|
            0 <= m < s.len() ==> can_be_laid_out(b, #[trigger] s[m]) && load <= s[m].vaddr,
    ensures
        laid_out(b, s, load) is Some,
        tails(s) is Some,
        forall|m: int|
            0 <= m < s.len() && (#[trigger] s[m]).filesz > 0 ==> s[m].vaddr + s[m].filesz - load
                <= laid_out(b, s, load)->0.len(),
    decreases s.len(),
{
    if s.len() > 0 {
        let front = s.drop_last();
        assert forall|m: int| 0 <= m < front.len() implies can_be_laid_out(b, #[trigger] front[m])
            && load <= front[m].vaddr by {
            assert(front[m] == s[m]);
        }
        lemma_all_laid_out(b, front, load);
        assert(s[s.len() - 1] == s.last());
        assert(can_be_laid_out(b, s[s.len() - 1]));
        assert forall|m: int| 0 <= m < s.len() && (#[trigger] s[m]).filesz > 0 implies s[m].vaddr
            + s[m].filesz - load <= laid_out(b, s, load)->0.len() by {
            if m < front.len() {
                assert(front[m] == s[m]);
            }
        }
    }
}

/// Every 64-bit little-endian ELF file for AArch64 is a firmware whose program headers are in
/// the file, whose loadable segments can be laid out, and whose entry is in one of them.
pub proof fn law_sound_files_are_firmware(b: Seq<u8>, e: int)
    requires
        b.len() >= 58,
        b[0] == 0x7f && b[1] == 0x45 && b[2] == 0x4c && b[3] == 0x46,
        b[4] == 2,
        b[5] == 1,
        le_at(b, 18, 2) == 183,
        forall|i: int| 0 <= i < le_at(b, 56, 2) ==> #[trigger] header_at(b, i) + 48 <= b.len(),
        forall|i: int| loadable(b, i) ==> can_be_laid_out(b, #[trigger] segment_at(b, i)),
        loadable(b, e),
        carries(segment_at(b, e), le_at(b, 24, 8) as int),
    ensures
        firmware_of(b) is Ok,
{
    let n = le_at(b, 56, 2) as int;
    lemma_all_listed(b, n);
    let s = segments_of(b)->0;
    lemma_listed(b, n);
    lemma_lowest(s, u64::MAX);
    let load = lowest(s, u64::MAX);
    assert forall|m: int| 0 <= m < s.len() implies can_be_laid_out(b, #[trigger] s[m]) && load
        <= s[m].vaddr by {
        assert(is_loadable(b, n, s[m]));
        let i = choose|i: int| i < n && loadable(b, i) && #[trigger] segment_at(b, i) == s[m];
        assert(can_be_laid_out(b, segment_at(b, i)));
    }
    lemma_all_laid_out(b, s, load);
    let m = choose|m: int| 0 <= m < s.len() && s[m] == segment_at(b, e);
    assert(s[m].filesz > 0);
    lemma_le_value_4(b.subrange(0, 4));
    lemma_word_fits(b, 24);
}

/// What the program headers of a file say, each field where ELF has it.
pub proof fn law_program_headers_are_read(b: Seq<u8>, i: int)
    requires
        b.len() >= 58,
        0 <= i,
        le_at(b, 32, 8) + i * le_at(b, 54, 2) + 48 <= b.len(),
    ensures
        ({
            let at = le_at(b, 32, 8) + i * le_at(b, 54, 2);
            let g = segment_at(b, i);
            &&& loadable(b, i) <==> i < le_at(b, 56, 2) && le_at(b, at, 4) == 1
            &&& g.offset == le_at(b, at + 8, 8)
            &&& g.vaddr == le_at(b, at + 16, 8)
            &&& g.filesz == le_at(b, at + 32, 8)
            &&& g.memsz == le_at(b, at + 40, 8)
        }),
{
    let at = le_at(b, 32, 8) + i * le_at(b, 54, 2);
    assert(at >= 0) by (nonlinear_arith)
        requires
            at == le_at(b, 32, 8) + i * le_at(b, 54, 2),
            0 <= i,
    ;
    lemma_word_fits(b, at + 8);
    lemma_word_fits(b, at + 16);
    lemma_word_fits(b, at + 32);
    lemma_word_fits(b, at + 40);
}

proof fn lemma_word_fits(b: Seq<u8>, at: int)
    requires
        0 <= at,
        at + 8 <= b.len(),
    ensures
        le_at(b, at, 8) <= u64::MAX,
{
    let s = b.subrange(at, at + 8);
    lemma_le_value_8(s);
    lemma_le_value_4(s.subrange(0, 4));
    lemma_le_value_4(s.subrange(4, 8));
}

} // verus!
