//! PE32+ loading: the image format an EFI application is in.
//!
//! Check the image is for this machine, lay its sections out at the addresses
//! they were linked for, and fix up the absolute addresses inside it for wherever
//! it actually lands. Only then can its entry point be called.
//!
//! The headers are read with the `object` crate, which knows PE's shape; the
//! layout and the relocations are applied here.
use crate::bytes::{
    copy_range, fill, get_u16, get_u32, get_u64, le_at, le_bytes, push_fill, put, put_le,
    put_slice,
};
use crate::firmware::uefi::mem::{Allocation, Memory};
use object::LittleEndian;
use object::read::pe::PeFile64;
use vstd::prelude::*;

verus! {

/// `IMAGE_FILE_MACHINE_ARM64`.
pub const MACHINE_ARM64: u16 = 0xaa64;

/// The subsystems an EFI image may declare: application, boot service driver,
/// runtime driver. Anything else is a Windows image.
pub const SUBSYSTEM_EFI_APPLICATION: u16 = 10;

pub const SUBSYSTEM_EFI_BOOT_SERVICE_DRIVER: u16 = 11;

pub const SUBSYSTEM_EFI_RUNTIME_DRIVER: u16 = 12;

/// `PE\0\0`, the signature at the start of the NT headers.
pub const NT_SIGNATURE: u16 = 0x4550;

/// `PE32+`, the optional-header magic of a 64-bit image.
pub const OPTIONAL_MAGIC_PE32_PLUS: u16 = 0x20b;

/// `IMAGE_REL_BASED_ABSOLUTE`: padding.
pub const RELOCATION_ABSOLUTE: u16 = 0;

/// `IMAGE_REL_BASED_DIR64`: a 64-bit absolute address.
pub const RELOCATION_DIR64: u16 = 10;

/// `EfiLoaderCode`.
pub const LOADER_CODE: u32 = 1;

/// An image, resident in memory and ready to run.
#[derive(Clone, Copy, PartialEq, Eq, Structural, Debug)]
pub struct Loaded {
    /// Where the image was placed.
    pub base: u64,
    /// `SizeOfImage`: the whole span the image reserves.
    pub size: u64,
    /// The address of the entry point: `base + AddressOfEntryPoint`.
    pub entry: u64,
}

#[derive(Clone, Copy, PartialEq, Eq, Structural, Debug)]
pub enum PeError {
    /// Not a PE image at all.
    NotPe,
    /// Not AArch64.
    WrongMachine,
    /// Not an EFI application, boot driver, or runtime driver.
    WrongSubsystem,
    /// A relocation this loader does not implement.
    UnsupportedRelocation,
    /// The image asks for more memory than the firmware has.
    OutOfMemory,
}

/// Where a section lies in the file and in memory.
#[derive(Clone, Copy, PartialEq, Eq, Structural, Debug)]
pub struct SectionHeader {
    pub virtual_size: u32,
    pub virtual_address: u32,
    pub size_of_raw_data: u32,
    pub pointer_to_raw_data: u32,
}

/// What the loader reads from the headers besides scalar fields.
pub struct Headers {
    pub sections: Vec<SectionHeader>,
    /// The base relocation directory's address and size.
    pub base_relocations: Option<(u32, u32)>,
}

/// `e_lfanew`: where the NT headers start.
pub open spec fn nt_offset(b: Seq<u8>) -> int {
    le_at(b, 0x3c, 4) as int
}

/// Whether the headers of a PE32+ file lie inside the bytes: the DOS header, the
/// NT headers, as many data directories as they announce inside the optional
/// header, and as many section headers as they announce behind it.
pub open spec fn has_headers(b: Seq<u8>) -> bool {
    let nt = nt_offset(b);
    let optional = le_at(b, nt + 20, 2);
    &&& b.len() >= 64
    &&& le_at(b, 0, 2) == 0x5a4d
    &&& nt + 136 <= b.len()
    &&& le_at(b, nt, 4) == 0x4550
    &&& le_at(b, nt + 24, 2) == 0x20b
    &&& 112 <= optional
    &&& nt + 24 + optional <= b.len()
    &&& 8 * le_at(b, nt + 132, 4) <= optional - 112
    &&& nt + 24 + optional + 40 * le_at(b, nt + 6, 2) <= b.len()
}

/// The section headers.
pub open spec fn section_headers(b: Seq<u8>) -> Seq<SectionHeader> {
    let nt = nt_offset(b);
    let table = nt + 24 + le_at(b, nt + 20, 2);
    Seq::new(
        le_at(b, nt + 6, 2),
        |i: int|
            SectionHeader {
                virtual_size: le_at(b, table + 40 * i + 8, 4) as u32,
                virtual_address: le_at(b, table + 40 * i + 12, 4) as u32,
                size_of_raw_data: le_at(b, table + 40 * i + 16, 4) as u32,
                pointer_to_raw_data: le_at(b, table + 40 * i + 20, 4) as u32,
            },
    )
}

/// The sixth data directory, when there are that many and it has an address.
pub open spec fn relocation_directory(b: Seq<u8>) -> Option<(u32, u32)> {
    let nt = nt_offset(b);
    if le_at(b, nt + 132, 4) > 5 && le_at(b, nt + 176, 4) != 0 {
        Some((le_at(b, nt + 176, 4) as u32, le_at(b, nt + 180, 4) as u32))
    } else {
        None
    }
}

/// `object::read::pe::PeFile64::parse` and its section table: it succeeds exactly on
/// bytes that hold the headers of a PE32+ file whole, and its sections are the section
/// headers there, in order. The crate is built to read its structures at any alignment.
#[verifier::external_body]
fn parse_sections(bytes: &[u8]) -> (sections: Option<Vec<SectionHeader>>)
    ensures
        match sections {
            Some(sections) => has_headers(bytes@) && sections@ == section_headers(bytes@),
            None => !has_headers(bytes@),
        },
{
    let file = PeFile64::parse(bytes).ok()?;
    let sections = file.section_table().iter().map(|header| SectionHeader {
        virtual_size: header.virtual_size.get(LittleEndian),
        virtual_address: header.virtual_address.get(LittleEndian),
        size_of_raw_data: header.size_of_raw_data.get(LittleEndian),
        pointer_to_raw_data: header.pointer_to_raw_data.get(LittleEndian),
    }).collect();
    Some(sections)
}

/// `object::read::pe::PeFile64::data_directory`, for the base relocations: the address
/// and the size the optional header gives for them, where it has that entry.
#[verifier::external_body]
fn parse_relocations(bytes: &[u8]) -> (directory: Option<(u32, u32)>)
    requires
        has_headers(bytes@),
    ensures
        directory == relocation_directory(bytes@),
{
    let file = PeFile64::parse(bytes).ok()?;
    let directory = file.data_directory(object::pe::IMAGE_DIRECTORY_ENTRY_BASERELOC)?;
    Some((directory.virtual_address.get(LittleEndian), directory.size.get(LittleEndian)))
}

/// What the loader reads from the headers, when they are there.
fn parse(bytes: &[u8]) -> (headers: Option<Headers>)
    ensures
        match headers {
            Some(headers) => has_headers(bytes@) && headers.sections@ == section_headers(bytes@)
                && headers.base_relocations == relocation_directory(bytes@),
            None => !has_headers(bytes@),
        },
{
    match parse_sections(bytes) {
        Some(sections) => Some(Headers { sections, base_relocations: parse_relocations(bytes) }),
        None => None,
    }
}

/// The little-endian 16-bit field at `offset`, or `NotPe` past the end.
fn read_u16(bytes: &[u8], offset: u64) -> (value: Result<u16, PeError>)
    requires
        offset < 0x1_0000_0000_0000,
    ensures
        match value {
            Ok(value) => offset + 2 <= bytes@.len() && value == le_at(bytes@, offset as int, 2),
            Err(error) => offset + 2 > bytes@.len() && error == PeError::NotPe,
        },
{
    if offset + 2 > bytes.len() as u64 {
        return Err(PeError::NotPe);
    }
    Ok(get_u16(bytes, offset as usize))
}

/// The little-endian 32-bit field at `offset`, or `NotPe` past the end.
fn read_u32(bytes: &[u8], offset: u64) -> (value: Result<u32, PeError>)
    requires
        offset < 0x1_0000_0000_0000,
    ensures
        match value {
            Ok(value) => offset + 4 <= bytes@.len() && value == le_at(bytes@, offset as int, 4),
            Err(error) => offset + 4 > bytes@.len() && error == PeError::NotPe,
        },
{
    if offset + 4 > bytes.len() as u64 {
        return Err(PeError::NotPe);
    }
    Ok(get_u32(bytes, offset as usize))
}

/// The little-endian 64-bit field at `offset`, or `NotPe` past the end.
fn read_u64(bytes: &[u8], offset: u64) -> (value: Result<u64, PeError>)
    requires
        offset < 0x1_0000_0000_0000,
    ensures
        match value {
            Ok(value) => offset + 8 <= bytes@.len() && value == le_at(bytes@, offset as int, 8),
            Err(error) => offset + 8 > bytes@.len() && error == PeError::NotPe,
        },
{
    if offset + 8 > bytes.len() as u64 {
        return Err(PeError::NotPe);
    }
    Ok(get_u64(bytes, offset as usize))
}

/// `SizeOfImage`, where the headers have room for it and it is not zero.
pub open spec fn declared_size(b: Seq<u8>) -> Option<int> {
    if 0x40 <= b.len() && nt_offset(b) + 84 <= b.len() && le_at(b, nt_offset(b) + 80, 4) != 0 {
        Some(le_at(b, nt_offset(b) + 80, 4) as int)
    } else {
        None
    }
}

/// The size of the image the optional header declares: what a caller has to have
/// room for before it can load anything.
pub fn size_of_image(bytes: &[u8]) -> (size: Result<u64, PeError>)
    ensures
        match size {
            Ok(size) => declared_size(bytes@) == Some(size as int) && 0 < size <= u32::MAX,
            Err(error) => declared_size(bytes@) is None && error == PeError::NotPe,
        },
{
    let nt: u32 = match read_u32(bytes, 0x3c) {
        Ok(nt) => nt,
        Err(error) => {
            return Err(error);
        },
    };
    let size: u32 = match read_u32(bytes, nt as u64 + 24 + 56) {
        Ok(size) => size,
        Err(error) => {
            return Err(error);
        },
    };
    if size == 0 {
        return Err(PeError::NotPe);
    }
    Ok(size as u64)
}

/// Whether a section has something to copy.
pub open spec fn has_data(h: SectionHeader) -> bool {
    h.size_of_raw_data != 0 && h.virtual_size != 0
}

/// The bytes of a section the image wants: no more than it has in memory.
pub open spec fn copied_length(h: SectionHeader) -> int {
    if h.size_of_raw_data <= h.virtual_size {
        h.size_of_raw_data as int
    } else {
        h.virtual_size as int
    }
}

/// Whether a section's data is inside the file and its place inside the image.
pub open spec fn section_fits(b: Seq<u8>, h: SectionHeader, size: int) -> bool {
    h.pointer_to_raw_data + h.size_of_raw_data <= b.len() && h.virtual_address + copied_length(h)
        <= size
}

/// The image with the sections copied in, one after another; `None` when one of
/// them does not fit.
pub open spec fn with_sections(
    image: Seq<u8>,
    b: Seq<u8>,
    sections: Seq<SectionHeader>,
) -> Option<Seq<u8>>
    decreases sections.len(),
{
    if sections.len() == 0 {
        Some(image)
    } else {
        match with_sections(image, b, sections.drop_last()) {
            None => None,
            Some(before) => {
                let h = sections.last();
                if !has_data(h) {
                    Some(before)
                } else if section_fits(b, h, image.len() as int) {
                    Some(
                        put(
                            before,
                            h.virtual_address as int,
                            b.subrange(
                                h.pointer_to_raw_data as int,
                                h.pointer_to_raw_data + copied_length(h),
                            ),
                        ),
                    )
                } else {
                    None
                }
            },
        }
    }
}

/// Where the directory at `rva` lies in the file: inside the first section whose
/// span holds the address, cut off at the section's data.
pub open spec fn directory_range(sections: Seq<SectionHeader>, rva: u32, size: u32) -> Option<
    (int, int),
>
    decreases sections.len(),
{
    if sections.len() == 0 {
        None
    } else {
        let h = sections[0];
        let span = if h.virtual_size >= h.size_of_raw_data {
            h.virtual_size
        } else {
            h.size_of_raw_data
        };
        if h.virtual_address <= rva < h.virtual_address + span {
            let within = rva - h.virtual_address;
            let left = if h.size_of_raw_data >= within {
                h.size_of_raw_data - within
            } else {
                0
            };
            let from = h.pointer_to_raw_data + within;
            Some((from, from + if left <= size { left } else { size as int }))
        } else {
            directory_range(sections.drop_first(), rva, size)
        }
    }
}

/// `a + delta`, as 64-bit machine words add.
pub open spec fn shifted(a: nat, delta: u64) -> nat {
    ((a + delta) % 0x1_0000_0000_0000_0000) as nat
}

/// The image with one relocation entry applied: nothing for padding, the load
/// offset added to a 64-bit address inside the image.
pub open spec fn relocated(image: Seq<u8>, page: int, entry: int, delta: u64) -> Result<
    Seq<u8>,
    PeError,
> {
    let kind = entry / 4096;
    let at = page + entry % 4096;
    if kind == RELOCATION_ABSOLUTE {
        Ok(image)
    } else if kind != RELOCATION_DIR64 {
        Err(PeError::UnsupportedRelocation)
    } else if at + 8 > image.len() {
        Err(PeError::NotPe)
    } else {
        Ok(put(image, at, le_bytes(shifted(le_at(image, at, 8), delta), 8)))
    }
}

/// The image with the first `n` entries at `at` applied in order.
pub open spec fn with_entries(
    image: Seq<u8>,
    blocks: Seq<u8>,
    at: int,
    n: nat,
    page: int,
    delta: u64,
) -> Result<Seq<u8>, PeError>
    decreases n,
{
    if n == 0 {
        Ok(image)
    } else {
        match with_entries(image, blocks, at, (n - 1) as nat, page, delta) {
            Err(error) => Err(error),
            Ok(before) => relocated(
                before,
                page,
                le_at(blocks, at + 2 * (n - 1), 2) as int,
                delta,
            ),
        }
    }
}

/// The image with the relocation blocks from `cursor` on applied in order. A
/// block is a page address, its own size, and 16-bit entries.
pub open spec fn with_blocks(image: Seq<u8>, blocks: Seq<u8>, cursor: int, delta: u64) -> Result<
    Seq<u8>,
    PeError,
>
    decreases blocks.len() - cursor,
{
    if cursor + 8 > blocks.len() {
        Ok(image)
    } else {
        let size = le_at(blocks, cursor + 4, 4) as int;
        if size < 8 || cursor + size > blocks.len() {
            Err(PeError::NotPe)
        } else {
            match with_entries(
                image,
                blocks,
                cursor + 8,
                ((size - 8) / 2) as nat,
                le_at(blocks, cursor, 4) as int,
                delta,
            ) {
                Err(error) => Err(error),
                Ok(after) => with_blocks(after, blocks, cursor + size, delta),
            }
        }
    }
}

/// The image with its base relocations applied.
pub open spec fn with_relocations(image: Seq<u8>, b: Seq<u8>, delta: u64) -> Result<
    Seq<u8>,
    PeError,
> {
    match relocation_directory(b) {
        None => Err(PeError::UnsupportedRelocation),
        Some((rva, size)) => if size == 0 {
            Err(PeError::UnsupportedRelocation)
        } else {
            match directory_range(section_headers(b), rva, size) {
                Some((from, to)) if to <= b.len() => with_blocks(
                    image,
                    b.subrange(from, to),
                    0,
                    delta,
                ),
                _ => Err(PeError::NotPe),
            }
        },
    }
}

/// `to - from`, as 64-bit machine words subtract.
pub open spec fn load_offset(to: u64, from: u64) -> u64 {
    if to >= from {
        (to - from) as u64
    } else {
        (to - from + 0x1_0000_0000_0000_0000) as u64
    }
}

/// What loading makes of a file: the bytes of the image at `base`.
///
/// The headers go in first, because they are part of the image; then the
/// sections, over zeroes; then the absolute addresses are fixed up, unless the
/// image landed exactly where it asked to be.
pub open spec fn image_of(b: Seq<u8>, base: u64) -> Result<Seq<u8>, PeError> {
    let nt = nt_offset(b);
    let subsystem = le_at(b, nt + 92, 2);
    if !has_headers(b) {
        Err(PeError::NotPe)
    } else if le_at(b, nt + 4, 2) != MACHINE_ARM64 {
        Err(PeError::WrongMachine)
    } else if !(SUBSYSTEM_EFI_APPLICATION <= subsystem <= SUBSYSTEM_EFI_RUNTIME_DRIVER) {
        Err(PeError::WrongSubsystem)
    } else {
        let size = le_at(b, nt + 80, 4);
        let headers = le_at(b, nt + 84, 4);
        if size == 0 || headers > b.len() || headers > size {
            Err(PeError::NotPe)
        } else {
            match with_sections(
                put(fill(size, 0), 0, b.subrange(0, headers as int)),
                b,
                section_headers(b),
            ) {
                None => Err(PeError::NotPe),
                Some(image) => {
                    let delta = load_offset(base, le_at(b, nt + 48, 8) as u64);
                    if delta == 0 {
                        Ok(image)
                    } else {
                        with_relocations(image, b, delta)
                    }
                },
            }
        }
    }
}

/// Loads `bytes` for `base`, which the caller has to have reserved and which must
/// be large enough for the image's size of image: what is loaded, and the bytes
/// to place there.
pub fn load_at(bytes: &[u8], base: u64) -> (loaded: Result<(Loaded, Vec<u8>), PeError>)
    requires
        base + u32::MAX <= u64::MAX,
    ensures
        match loaded {
            Ok((loaded, image)) => {
                &&& image_of(bytes@, base) == Ok::<Seq<u8>, PeError>(image@)
                &&& loaded.base == base
                &&& loaded.size == image@.len()
                &&& loaded.size == le_at(bytes@, nt_offset(bytes@) + 80, 4)
                &&& loaded.entry == base + le_at(bytes@, nt_offset(bytes@) + 40, 4)
            },
            Err(error) => image_of(bytes@, base) == Err::<Seq<u8>, PeError>(error),
        },
{
    let headers: Headers = match parse(bytes) {
        Some(headers) => headers,
        None => {
            return Err(PeError::NotPe);
        },
    };
    let nt: u64 = get_u32(bytes, 0x3c) as u64;
    proof {
        lemma_signature(bytes@, nt as int);
    }
    let signature: u16 = match read_u16(bytes, nt) {
        Ok(value) => value,
        Err(error) => {
            return Err(error);
        },
    };
    let magic: u16 = match read_u16(bytes, nt + 24) {
        Ok(value) => value,
        Err(error) => {
            return Err(error);
        },
    };
    if signature != NT_SIGNATURE || magic != OPTIONAL_MAGIC_PE32_PLUS {
        return Err(PeError::NotPe);
    }
    let machine: u16 = match read_u16(bytes, nt + 4) {
        Ok(value) => value,
        Err(error) => {
            return Err(error);
        },
    };
    if machine != MACHINE_ARM64 {
        return Err(PeError::WrongMachine);
    }
    let subsystem: u16 = match read_u16(bytes, nt + 24 + 68) {
        Ok(value) => value,
        Err(error) => {
            return Err(error);
        },
    };
    if subsystem != SUBSYSTEM_EFI_APPLICATION && subsystem != SUBSYSTEM_EFI_BOOT_SERVICE_DRIVER
        && subsystem != SUBSYSTEM_EFI_RUNTIME_DRIVER {
        return Err(PeError::WrongSubsystem);
    }
    let entry_rva: u32 = match read_u32(bytes, nt + 24 + 16) {
        Ok(value) => value,
        Err(error) => {
            return Err(error);
        },
    };
    let image_base: u64 = match read_u64(bytes, nt + 24 + 24) {
        Ok(value) => value,
        Err(error) => {
            return Err(error);
        },
    };
    let size: u64 = match size_of_image(bytes) {
        Ok(value) => value,
        Err(error) => {
            return Err(error);
        },
    };
    let size_of_headers: u32 = match read_u32(bytes, nt + 24 + 60) {
        Ok(value) => value,
        Err(error) => {
            return Err(error);
        },
    };
    // The headers go in first, over zeroes: the parts of a section beyond its raw
    // data read as zero.
    if size_of_headers as usize > bytes.len() || size_of_headers as u64 > size {
        return Err(PeError::NotPe);
    }
    let mut image: Vec<u8> = Vec::new();
    push_fill(&mut image, size as usize, 0);
    assert(image@ =~= fill(size as nat, 0));
    let head: Vec<u8> = copy_range(bytes, 0, size_of_headers as usize);
    put_slice(&mut image, 0, &head);

    if !copy_sections(&mut image, bytes, &headers.sections) {
        return Err(PeError::NotPe);
    }
    // Fix up the absolute addresses, unless the image landed exactly where it
    // asked to be.
    let delta: u64 = base.wrapping_sub(image_base);
    if delta != 0 {
        match apply_relocations(&headers, bytes, &mut image, delta) {
            Ok(()) => {},
            Err(error) => {
                return Err(error);
            },
        }
    }
    Ok((Loaded { base, size, entry: base + entry_rva as u64 }, image))
}

/// The low half of the four signature bytes.
proof fn lemma_signature(b: Seq<u8>, nt: int)
    requires
        has_headers(b),
        nt == nt_offset(b),
    ensures
        le_at(b, nt, 2) == 0x4550,
{
    crate::bytes::lemma_le_value_4(b.subrange(nt, nt + 4));
    crate::bytes::lemma_le_value_2(b.subrange(nt, nt + 2));
}

/// Copies the sections into the image; `false` when one of them does not fit.
fn copy_sections(image: &mut Vec<u8>, bytes: &[u8], sections: &Vec<SectionHeader>) -> (fit: bool)
    ensures
        match with_sections(old(image)@, bytes@, sections@) {
            Some(after) => fit && final(image)@ == after && after.len() == old(image)@.len(),
            None => !fit,
        },
{
    let size: usize = image.len();
    let file_size: usize = bytes.len();
    let ghost before = image@;
    let mut next: usize = 0;
    assert(sections@.subrange(0, 0) =~= Seq::<SectionHeader>::empty());
    while next < sections.len()
        invariant
            next <= sections@.len(),
            image@.len() == size,
            before.len() == size,
            before == old(image)@,
            file_size == bytes@.len(),
            with_sections(before, bytes@, sections@.subrange(0, next as int)) == Some(image@),
        decreases sections@.len() - next,
    {
        let header: SectionHeader = sections[next];
        proof {
            assert(sections@.subrange(0, next + 1).drop_last() =~= sections@.subrange(
                0,
                next as int,
            ));
            assert(sections@.subrange(0, next + 1).last() == header);
        }
        if header.size_of_raw_data != 0 && header.virtual_size != 0 {
            let length: u32 = if header.size_of_raw_data <= header.virtual_size {
                header.size_of_raw_data
            } else {
                header.virtual_size
            };
            if header.pointer_to_raw_data as u64 + header.size_of_raw_data as u64
                > file_size as u64 || header.virtual_address as u64 + length as u64
                > size as u64 {
                proof {
                    lemma_no_sections(before, bytes@, sections@, next + 1);
                }
                return false;
            }
            let from: usize = header.pointer_to_raw_data as usize;
            let data: Vec<u8> = copy_range(bytes, from, from + length as usize);
            put_slice(image, header.virtual_address as usize, &data);
        }
        next = next + 1;
    }
    assert(sections@.subrange(0, next as int) =~= sections@);
    true
}

/// A section that does not fit spoils the rest.
proof fn lemma_no_sections(image: Seq<u8>, b: Seq<u8>, sections: Seq<SectionHeader>, k: int)
    requires
        0 <= k <= sections.len(),
        with_sections(image, b, sections.subrange(0, k)) is None,
    ensures
        with_sections(image, b, sections) is None,
    decreases sections.len() - k,
{
    if k < sections.len() {
        assert(sections.subrange(0, k + 1).drop_last() =~= sections.subrange(0, k));
        lemma_no_sections(image, b, sections, k + 1);
    } else {
        assert(sections.subrange(0, k) =~= sections);
    }
}

/// The bytes of a directory identified by an RVA, translated to a file offset
/// through the section table.
fn section_bytes(sections: &Vec<SectionHeader>, bytes: &[u8], rva: u32, size: u32) -> (found:
    Option<Vec<u8>>)
    ensures
        match directory_range(sections@, rva, size) {
            Some((from, to)) => if to <= bytes@.len() {
                found matches Some(data) && data@ == bytes@.subrange(from, to)
            } else {
                found is None
            },
            None => found is None,
        },
{
    let mut next: usize = 0;
    assert(sections@.subrange(0, sections@.len() as int) =~= sections@);
    while next < sections.len()
        invariant
            next <= sections@.len(),
            directory_range(sections@, rva, size) == directory_range(
                sections@.subrange(next as int, sections@.len() as int),
                rva,
                size,
            ),
        decreases sections@.len() - next,
    {
        let header: SectionHeader = sections[next];
        let ghost rest = sections@.subrange(next as int, sections@.len() as int);
        assert(rest[0] == header);
        assert(rest.drop_first() =~= sections@.subrange(next + 1, sections@.len() as int));
        let start: u64 = header.virtual_address as u64;
        let span: u32 = if header.virtual_size >= header.size_of_raw_data {
            header.virtual_size
        } else {
            header.size_of_raw_data
        };
        if rva as u64 >= start && (rva as u64) < start + span as u64 {
            let within: u32 = rva - header.virtual_address;
            let from: u64 = header.pointer_to_raw_data as u64 + within as u64;
            let left: u32 = header.size_of_raw_data.saturating_sub(within);
            let length: u32 = if left <= size {
                left
            } else {
                size
            };
            let end: u64 = from + length as u64;
            if end <= bytes.len() as u64 {
                return Some(copy_range(bytes, from as usize, end as usize));
            }
            return None;
        }
        next = next + 1;
    }
    None
}

/// Applies the base relocations for a load address that is not the preferred one.
fn apply_relocations(headers: &Headers, bytes: &[u8], image: &mut Vec<u8>, delta: u64) -> (applied:
    Result<(), PeError>)
    requires
        headers.sections@ == section_headers(bytes@),
        headers.base_relocations == relocation_directory(bytes@),
    ensures
        match applied {
            Ok(()) => with_relocations(old(image)@, bytes@, delta) == Ok::<Seq<u8>, PeError>(
                final(image)@,
            ) && final(image)@.len() == old(image)@.len(),
            Err(error) => with_relocations(old(image)@, bytes@, delta) == Err::<Seq<u8>, PeError>(
                error,
            ),
        },
{
    let (rva, size) = match headers.base_relocations {
        Some(directory) => directory,
        // No relocations and not at the preferred base: the image cannot run
        // where it landed.
        None => {
            return Err(PeError::UnsupportedRelocation);
        },
    };
    if size == 0 {
        return Err(PeError::UnsupportedRelocation);
    }
    let blocks: Vec<u8> = match section_bytes(&headers.sections, bytes, rva, size) {
        Some(blocks) => blocks,
        None => {
            return Err(PeError::NotPe);
        },
    };
    apply_blocks(&blocks, image, delta)
}

fn apply_blocks(blocks: &Vec<u8>, image: &mut Vec<u8>, delta: u64) -> (applied: Result<
    (),
    PeError,
>)
    ensures
        match applied {
            Ok(()) => with_blocks(old(image)@, blocks@, 0, delta) == Ok::<Seq<u8>, PeError>(
                final(image)@,
            ) && final(image)@.len() == old(image)@.len(),
            Err(error) => with_blocks(old(image)@, blocks@, 0, delta) == Err::<Seq<u8>, PeError>(
                error,
            ),
        },
{
    let total: usize = blocks.len();
    let ghost before = image@;
    let mut cursor: usize = 0;
    while total >= 8 && cursor <= total - 8
        invariant
            total == blocks@.len(),
            cursor <= total,
            before == old(image)@,
            image@.len() == before.len(),
            with_blocks(before, blocks@, 0, delta) == with_blocks(
                image@,
                blocks@,
                cursor as int,
                delta,
            ),
        decreases total - cursor,
    {
        let page: u32 = get_u32(blocks, cursor);
        let size: u32 = get_u32(blocks, cursor + 4);
        if size < 8 || size as usize > total - cursor {
            return Err(PeError::NotPe);
        }
        match apply_entries(
            blocks,
            cursor + 8,
            (size as usize - 8) / 2,
            page,
            image,
            delta,
        ) {
            Ok(()) => {},
            Err(error) => {
                return Err(error);
            },
        }
        cursor = cursor + size as usize;
    }
    Ok(())
}

fn apply_entries(
    blocks: &Vec<u8>,
    at: usize,
    count: usize,
    page: u32,
    image: &mut Vec<u8>,
    delta: u64,
) -> (applied: Result<(), PeError>)
    requires
        at + 2 * count <= blocks@.len(),
    ensures
        match applied {
            Ok(()) => with_entries(
                old(image)@,
                blocks@,
                at as int,
                count as nat,
                page as int,
                delta,
            ) == Ok::<Seq<u8>, PeError>(final(image)@) && final(image)@.len() == old(image)@.len(),
            Err(error) => with_entries(
                old(image)@,
                blocks@,
                at as int,
                count as nat,
                page as int,
                delta,
            ) == Err::<Seq<u8>, PeError>(error),
        },
{
    let total: usize = blocks.len();
    let size: usize = image.len();
    let ghost before = image@;
    let mut next: usize = 0;
    while next < count
        invariant
            next <= count,
            total == blocks@.len(),
            at + 2 * count <= total,
            image@.len() == size,
            before.len() == size,
            before == old(image)@,
            with_entries(before, blocks@, at as int, next as nat, page as int, delta) == Ok::<
                Seq<u8>,
                PeError,
            >(image@),
        decreases count - next,
    {
        let value: u16 = get_u16(blocks, at + 2 * next);
        let kind: u16 = value / 4096;
        let offset: u16 = value % 4096;
        if kind == RELOCATION_DIR64 {
            let address: u64 = page as u64 + offset as u64;
            if address + 8 > size as u64 {
                proof {
                    lemma_bad_entry(
                        before,
                        blocks@,
                        at as int,
                        (next + 1) as nat,
                        count as nat,
                        page as int,
                        delta,
                    );
                }
                return Err(PeError::NotPe);
            }
            let slot: u64 = get_u64(image, address as usize);
            put_le(image, address as usize, slot.wrapping_add(delta), 8);
        } else if kind != RELOCATION_ABSOLUTE {
            proof {
                lemma_bad_entry(
                    before,
                    blocks@,
                    at as int,
                    (next + 1) as nat,
                    count as nat,
                    page as int,
                    delta,
                );
            }
            return Err(PeError::UnsupportedRelocation);
        }
        next = next + 1;
    }
    Ok(())
}

/// An entry that cannot be applied decides the outcome.
proof fn lemma_bad_entry(
    image: Seq<u8>,
    blocks: Seq<u8>,
    at: int,
    k: nat,
    n: nat,
    page: int,
    delta: u64,
)
    requires
        k <= n,
        with_entries(image, blocks, at, k, page, delta) is Err,
    ensures
        with_entries(image, blocks, at, n, page, delta) == with_entries(
            image,
            blocks,
            at,
            k,
            page,
            delta,
        ),
    decreases n - k,
{
    if k < n {
        lemma_bad_entry(image, blocks, at, k, (n - 1) as nat, page, delta);
    }
}

/// Loads `bytes` into pages of its own: one allocation for the whole image.
pub fn load(memory: &mut Memory, bytes: &[u8]) -> (loaded: Result<(Loaded, Vec<u8>), PeError>)
    requires
        old(memory).wf(),
        old(memory).ram_end <= 0x7fff_ffff_ffff_ffff,
        old(memory).layout.heap_base <= 0x7fff_ffff_ffff_ffff,
    ensures
        final(memory).wf(),
        match declared_size(bytes@) {
            None => loaded == Err::<(Loaded, Vec<u8>), PeError>(PeError::NotPe) && *final(memory)
                == *old(memory),
            Some(size) => {
                let pages = ((size + 4095) / 4096) as u64;
                if old(memory).lacks(pages * 4096) {
                    loaded == Err::<(Loaded, Vec<u8>), PeError>(PeError::OutOfMemory)
                        && *final(memory) == *old(memory)
                } else {
                    &&& final(memory).allocations@.len() == old(memory).allocations@.len() + 1
                    &&& ({
                        let run = final(memory).allocations@.last();
                        &&& old(memory).granted(final(memory), run)
                        &&& run.pages == pages
                        &&& run.memory_type == LOADER_CODE
                        &&& match loaded {
                            Ok((loaded, image)) => image_of(bytes@, run.start) == Ok::<
                                Seq<u8>,
                                PeError,
                            >(image@) && loaded.base == run.start && loaded.size == size
                                && loaded.entry == run.start + le_at(
                                bytes@,
                                nt_offset(bytes@) + 40,
                                4,
                            ),
                            Err(error) => image_of(bytes@, run.start) == Err::<Seq<u8>, PeError>(
                                error,
                            ),
                        }
                    })
                }
            },
        },
{
    let size: u64 = match size_of_image(bytes) {
        Ok(size) => size,
        Err(error) => {
            return Err(error);
        },
    };
    let ghost before = *memory;
    let ghost pages = ((size + 4095) / 4096) as u64;
    assert(pages > 0);
    match memory.pages_for(LOADER_CODE, size) {
        Some(base) => {
            assert(before.usable(base as int, pages * 4096, None));
            assert(memory.allocations@.last() == (Allocation {
                start: base,
                pages,
                memory_type: LOADER_CODE,
            }));
            load_at(bytes, base)
        },
        None => Err(PeError::OutOfMemory),
    }
}

} // verus!
