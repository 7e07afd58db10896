//! Packages a RAM-linked firmware and a PI firmware volume for QEMU.
//!
//! QEMU's `-bios` starts execution at flash offset zero. The first 4 KiB hold a
//! position-independent reset trampoline: it copies the firmware's ELF load
//! segments to their RAM link addresses, clears their zero-init ranges, and jumps
//! to the entry point. The PI firmware volume follows the firmware at a flash
//! block boundary, with a DXE-core FFS file containing the input PE32+ image.
use crate::bytes::{
    fill, get_u32, le_at, le_bytes, lemma_le_bytes_len, lemma_le_value_2, lemma_le_value_of_bytes,
    lemma_widths, matches_at, push_fill, push_le, push_slice, put,
};
use crate::text::{decimal_text, hex_text, push_decimal, push_hex, replace, replaced};
use crate::tools::elf::{FirmwareImage, FirmwareView};
use crate::tools::ffs::{
    check16, check8, ffs_header_checksum, files_from, files_of, fv_header_checksum, is_free, round8,
    sections_from, sections_of, volume_at, without_checks, FfsError, FfsFile, Section, Volume,
    FFS_HEADER_SIZE, FV_SIGNATURE, MAX_SIZE, SECTION_HEADER_SIZE, TYPE_DXE_CORE, TYPE_PE32,
};
use vstd::prelude::*;
use vstd::string::*;

verus! {

/// The stub occupies the first 4 KiB of the image, so the firmware it copies
/// starts at this offset in flash.
pub const STUB_RESERVE: usize = 0x1000;

/// The firmware volume is copied to this scratch RAM address.
pub const FV_ADDR: usize = 0x4500_0000;

/// The scratch RAM window the volume must not run out of.
pub const FV_MAX_SIZE: usize = 0x0100_0000;

pub const FV_BLOCK_SIZE: usize = 0x1000;

/// The fixed FV header (56 bytes), one block-map entry and its terminator.
pub const FV_HEADER_SIZE: usize = 72;

/// EFI_FIRMWARE_FILE_SYSTEM2_GUID, in the mixed-endian on-disk representation.
pub const FFS2_GUID: [u8; 16] = [
    0x78, 0xe5, 0x8c, 0x8c, 0x3d, 0x8a, 0x1c, 0x4f, 0x99, 0x35, 0x89, 0x61, 0x85, 0xc3, 0x2d, 0xd3,
];

/// The DXE core's identity, also in mixed-endian on-disk representation.
pub const DXE_CORE_GUID: [u8; 16] = [
    0x2f, 0x32, 0xc9, 0x23, 0xf2, 0x2a, 0x6a, 0x47, 0xbc, 0x4c, 0x26, 0xbc, 0x88, 0x26, 0x6c, 0x71,
];

/// `msr daifset, #0xf`: the stub's first instruction, and the check that the
/// reset vector really is at offset 0 of the image.
pub const STUB_FIRST_INSTRUCTION: [u8; 4] = [0xdf, 0x4f, 0x03, 0xd5];

/// Why an image cannot be packaged.
#[derive(Clone, Copy, PartialEq, Eq, Structural, Debug)]
pub enum ImageError {
    /// Not a PE image.
    NotPe,
    /// The image has no PE signature.
    NoSignature,
    /// Not an AArch64 image.
    NotAarch64,
    /// Not a PE32+ image.
    NotPe32Plus,
    /// Not an EFI boot-service driver.
    NotDriver,
    /// The DXE core exceeds the FFS 24-bit file size.
    FileTooLarge,
    /// The DXE volume exceeds the scratch RAM window.
    VolumeTooLarge,
    /// The linked stub does not start with its entry instruction.
    StubEntry,
    /// The reset trampoline exceeds its flash reservation.
    StubTooLarge,
    /// The image is larger than memory.
    TooLarge,
}

/// Whether the bytes at `at` are inside the data and are `want`.
pub open spec fn stands_at(d: Seq<u8>, at: int, want: Seq<u8>) -> bool {
    at + want.len() <= d.len() && d.subrange(at, at + want.len()) == want
}

/// What keeps an image from being the DXE core: it has to be a PE32+ image for
/// AArch64 that is an EFI boot-service driver.
pub open spec fn core_fault(d: Seq<u8>) -> Option<ImageError> {
    let nt = le_at(d, 0x3c, 4) as int;
    if d.len() < 0x40 || d[0] != 0x4d || d[1] != 0x5a {
        Some(ImageError::NotPe)
    } else if !stands_at(d, nt, seq![0x50u8, 0x45u8, 0u8, 0u8]) {
        Some(ImageError::NoSignature)
    } else if !stands_at(d, nt + 4, le_bytes(0xaa64, 2)) {
        Some(ImageError::NotAarch64)
    } else if !stands_at(d, nt + 24, le_bytes(0x20b, 2)) {
        Some(ImageError::NotPe32Plus)
    } else if !stands_at(d, nt + 92, le_bytes(11, 2)) {
        Some(ImageError::NotDriver)
    } else {
        None
    }
}

/// Whether the bytes at `at` are inside the data and are `want`.
fn stands(data: &[u8], at: u64, want: &[u8]) -> (there: bool)
    requires
        at < 0x2_0000_0000,
        want@.len() <= 16,
    ensures
        there == stands_at(data@, at as int, want@),
{
    if at + want.len() as u64 > data.len() as u64 {
        return false;
    }
    matches_at(data, at as usize, want)
}

/// Whether the 16-bit number at `at` is inside the data and is `want`.
fn stands16(data: &[u8], at: u64, want: u16) -> (there: bool)
    requires
        at < 0x2_0000_0000,
    ensures
        there == stands_at(data@, at as int, le_bytes(want as nat, 2)),
{
    let mut bytes: Vec<u8> = Vec::new();
    push_le(&mut bytes, want as u64, 2);
    proof {
        lemma_le_bytes_len(want as nat, 2);
        assert(bytes@ =~= le_bytes(want as nat, 2));
    }
    stands(data, at, &bytes)
}

/// Checks that an image can be the DXE core.
pub fn check_core(core: &[u8]) -> (fault: Option<ImageError>)
    ensures
        fault == core_fault(core@),
{
    if core.len() < 0x40 || core[0] != 0x4d || core[1] != 0x5a {
        return Some(ImageError::NotPe);
    }
    let nt: u64 = get_u32(core, 0x3c) as u64;
    let mut signature: Vec<u8> = Vec::new();
    signature.push(0x50);
    signature.push(0x45);
    signature.push(0);
    signature.push(0);
    assert(signature@ =~= seq![0x50u8, 0x45u8, 0u8, 0u8]);
    if !stands(core, nt, &signature) {
        return Some(ImageError::NoSignature);
    }
    if !stands16(core, nt + 4, 0xaa64) {
        return Some(ImageError::NotAarch64);
    }
    if !stands16(core, nt + 24, 0x20b) {
        return Some(ImageError::NotPe32Plus);
    }
    if !stands16(core, nt + 92, 11) {
        return Some(ImageError::NotDriver);
    }
    None
}

/// The header of the volume with a checksum: readable, memory mapped and erased
/// to ones, with one run of blocks.
pub open spec fn volume_header(size: nat, checksum: nat) -> Seq<u8> {
    fill(16, 0) + FFS2_GUID@ + le_bytes(size, 8) + FV_SIGNATURE@ + le_bytes(0x0c06, 4) + le_bytes(
        FV_HEADER_SIZE as nat,
        2,
    ) + le_bytes(checksum, 2) + fill(3, 0) + seq![2u8] + le_bytes(size / 0x1000, 4) + le_bytes(
        FV_BLOCK_SIZE as nat,
        4,
    ) + fill(8, 0)
}

/// The header of the DXE core file with a checksum.
pub open spec fn core_header(size: nat, checksum: u8) -> Seq<u8> {
    DXE_CORE_GUID@ + seq![checksum, 0xaau8, TYPE_DXE_CORE, 0u8] + le_bytes(size, 3) + seq![0xf8u8]
}

/// The size of the file around an image.
pub open spec fn core_size(image: Seq<u8>) -> int {
    FFS_HEADER_SIZE + SECTION_HEADER_SIZE + image.len()
}

/// The size of the volume around an image: whole blocks.
pub open spec fn volume_size(image: Seq<u8>) -> int {
    (FV_HEADER_SIZE + core_size(image) + 0xfff) / 0x1000 * 0x1000
}

/// The volume around an image: one DXE core file with one PE32 section, and
/// erased bytes behind it.
pub open spec fn volume_bytes(image: Seq<u8>) -> Seq<u8> {
    let size = volume_size(image) as nat;
    let file = core_size(image) as nat;
    volume_header(size, check16(volume_header(size, 0)) as nat) + core_header(
        file,
        check8(without_checks(core_header(file, 0))) as u8,
    ) + le_bytes((file - FFS_HEADER_SIZE) as nat, 3) + seq![TYPE_PE32] + image + fill(
        (size - FV_HEADER_SIZE - file) as nat,
        0xff,
    )
}

fn write_volume_header(size: u64, checksum: u16) -> (header: Vec<u8>)
    ensures
        header@ == volume_header(size as nat, checksum as nat),
{
    let mut header: Vec<u8> = Vec::new();
    push_fill(&mut header, 16, 0);
    assert(header@ =~= fill(16, 0));
    push_slice(&mut header, &FFS2_GUID);
    push_le(&mut header, size, 8);
    push_slice(&mut header, &FV_SIGNATURE);
    push_le(&mut header, 0x0c06, 4);
    push_le(&mut header, FV_HEADER_SIZE as u64, 2);
    push_le(&mut header, checksum as u64, 2);
    push_fill(&mut header, 3, 0);
    let ghost before = header@;
    header.push(2);
    assert(header@ =~= before + seq![2u8]);
    push_le(&mut header, size / 0x1000, 4);
    push_le(&mut header, FV_BLOCK_SIZE as u64, 4);
    push_fill(&mut header, 8, 0);
    header
}

fn write_core_header(size: u64, checksum: u8) -> (header: Vec<u8>)
    ensures
        header@ == core_header(size as nat, checksum),
{
    let mut header: Vec<u8> = Vec::new();
    push_slice(&mut header, &DXE_CORE_GUID);
    header.push(checksum);
    header.push(0xaa);
    header.push(TYPE_DXE_CORE);
    header.push(0);
    assert(header@ =~= DXE_CORE_GUID@ + seq![checksum, 0xaau8, TYPE_DXE_CORE, 0u8]);
    push_le(&mut header, size, 3);
    let ghost before = header@;
    header.push(0xf8);
    assert(header@ =~= before + seq![0xf8u8]);
    header
}

pub proof fn lemma_header_lens(size: nat, checksum: nat, file: nat, check: u8)
    ensures
        volume_header(size, checksum).len() == FV_HEADER_SIZE,
        core_header(file, check).len() == FFS_HEADER_SIZE,
{
    lemma_le_bytes_len(size, 8);
    lemma_le_bytes_len(0x0c06, 4);
    lemma_le_bytes_len(FV_HEADER_SIZE as nat, 2);
    lemma_le_bytes_len(checksum, 2);
    lemma_le_bytes_len(size / 0x1000, 4);
    lemma_le_bytes_len(FV_BLOCK_SIZE as nat, 4);
    lemma_le_bytes_len(file, 3);
}

/// PI firmware volume with one aligned DXE_CORE FFS file and PE32 section.
/// Unused bytes are erased (0xff), matching the FV erase-polarity attribute.
pub fn dxe_volume(image: &[u8]) -> (volume: Result<Vec<u8>, ImageError>)
    ensures
        match volume {
            Ok(volume) => core_size(image@) <= MAX_SIZE && volume_size(image@) <= FV_MAX_SIZE
                && volume@ == volume_bytes(image@) && volume@.len() == volume_size(image@),
            Err(error) => if core_size(image@) > MAX_SIZE {
                error == ImageError::FileTooLarge
            } else {
                volume_size(image@) > FV_MAX_SIZE && error == ImageError::VolumeTooLarge
            },
        },
{
    if image.len() > MAX_SIZE - FFS_HEADER_SIZE - SECTION_HEADER_SIZE {
        return Err(ImageError::FileTooLarge);
    }
    let section_size: u64 = SECTION_HEADER_SIZE as u64 + image.len() as u64;
    let file_size: u64 = FFS_HEADER_SIZE as u64 + section_size;
    let size: u64 = (FV_HEADER_SIZE as u64 + file_size + 0xfff) / 0x1000 * 0x1000;
    if size > FV_MAX_SIZE as u64 {
        return Err(ImageError::VolumeTooLarge);
    }
    proof {
        lemma_header_lens(size as nat, 0, file_size as nat, 0);
        lemma_le_bytes_len(section_size as nat, 3);
    }
    let blank: Vec<u8> = write_volume_header(size, 0);
    let checksum: u16 = match fv_header_checksum(&blank) {
        Some(checksum) => checksum,
        None => 0,
    };
    let mut volume: Vec<u8> = write_volume_header(size, checksum);
    let blank_file: Vec<u8> = write_core_header(file_size, 0);
    let file_checksum: u8 = ffs_header_checksum(&blank_file);
    proof {
        lemma_header_lens(size as nat, checksum as nat, file_size as nat, file_checksum);
    }
    let file: Vec<u8> = write_core_header(file_size, file_checksum);
    push_slice(&mut volume, &file);
    push_le(&mut volume, section_size, 3);
    let ghost before = volume@;
    volume.push(TYPE_PE32);
    assert(volume@ =~= before + seq![TYPE_PE32]);
    push_slice(&mut volume, image);
    push_fill(&mut volume, (size - FV_HEADER_SIZE as u64 - file_size) as usize, 0xff);
    Ok(volume)
}

/// A volume driver reads back what was packaged: the volume is recognised at its
/// start, it lists one file, a DXE core whose header sums to zero, and the file
/// holds one section, a PE image that is the one given.
pub proof fn law_volume_reads_back(image: Seq<u8>)
    requires
        core_size(image) <= MAX_SIZE,
        volume_size(image) <= FV_MAX_SIZE,
    ensures
        ({
            let v = volume_bytes(image);
            let volume = Volume {
                base: 0,
                length: volume_size(image) as usize,
                header_length: FV_HEADER_SIZE,
            };
            let file = FfsFile {
                offset: FV_HEADER_SIZE,
                size: core_size(image) as usize,
                file_type: TYPE_DXE_CORE,
            };
            let section = Section {
                offset: 96,
                size: (core_size(image) - FFS_HEADER_SIZE) as usize,
                section_type: TYPE_PE32,
            };
            &&& volume_at(v, 0) == Some(volume)
            &&& files_of(v, volume) == Ok::<Seq<FfsFile>, FfsError>(seq![file])
            &&& v[88] == check8(without_checks(v.subrange(72, 96)))
            &&& sections_of(v, file) == Ok::<Seq<Section>, FfsError>(seq![section])
            &&& v.subrange(100, 100int + image.len()) == image
        }),
{
    let v = volume_bytes(image);
    let size = volume_size(image) as nat;
    let file_size = core_size(image) as nat;
    let section_size = (file_size - FFS_HEADER_SIZE) as nat;
    let blank = volume_header(size, 0);
    let sum = check16(blank) as nat;
    let head = volume_header(size, sum);
    let file_sum = check8(without_checks(core_header(file_size, 0))) as u8;
    let file = core_header(file_size, file_sum);
    lemma_header_lens(size, 0, file_size, 0);
    lemma_header_lens(size, sum, file_size, file_sum);
    lemma_widths();
    lemma_le_bytes_len(size, 8);
    lemma_le_bytes_len(0x0c06, 4);
    lemma_le_bytes_len(FV_HEADER_SIZE as nat, 2);
    lemma_le_bytes_len(sum, 2);
    lemma_le_bytes_len(0, 2);
    lemma_le_bytes_len(size / 0x1000, 4);
    lemma_le_bytes_len(FV_BLOCK_SIZE as nat, 4);
    lemma_le_bytes_len(file_size, 3);
    lemma_le_bytes_len(section_size, 3);
    lemma_le_value_of_bytes(size, 8);
    lemma_le_value_of_bytes(FV_HEADER_SIZE as nat, 2);
    lemma_le_value_of_bytes(sum, 2);
    lemma_le_value_of_bytes(file_size, 3);
    lemma_le_value_of_bytes(section_size, 3);
    // The volume header.
    assert(v.subrange(0, 72) =~= head);
    assert(head.subrange(32, 40) =~= le_bytes(size, 8));
    assert(head.subrange(40, 44) =~= FV_SIGNATURE@);
    assert(head.subrange(48, 50) =~= le_bytes(FV_HEADER_SIZE as nat, 2));
    assert(head.subrange(50, 52) =~= le_bytes(sum, 2));
    assert(v.subrange(32, 40) =~= head.subrange(32, 40));
    assert(v.subrange(40, 44) =~= head.subrange(40, 44));
    assert(v.subrange(48, 50) =~= head.subrange(48, 50));
    assert(v.subrange(50, 52) =~= head.subrange(50, 52));
    assert(put(head, 50, fill(2, 0)) =~= put(blank, 50, fill(2, 0)));
    // The file header.
    assert(v.subrange(72, 96) =~= file);
    assert(v.subrange(72, 88) =~= DXE_CORE_GUID@);
    assert(file.subrange(20, 23) =~= le_bytes(file_size, 3));
    assert(v.subrange(92, 95) =~= file.subrange(20, 23));
    assert(v[90] == file[18]);
    assert(v[88] == file[16]);
    assert(without_checks(file) =~= without_checks(core_header(file_size, 0)));
    assert(DXE_CORE_GUID@[0] == 0x2f);
    assert(!is_free(v.subrange(72, 88))) by {
        assert(v.subrange(72, 88)[0] == 0x2f);
        assert(fill(16, 0xff)[0] == 0xff);
        assert(fill(16, 0)[0] == 0);
    }
    // Nothing behind it.
    let next = 72 + round8(file_size as int);
    assert(files_from(v, next, size as int) == Ok::<Seq<FfsFile>, FfsError>(Seq::empty())) by {
        if next + 24 <= size {
            assert(v.subrange(next, next + 16) =~= fill(16, 0xff));
        }
    }
    let listed = FfsFile {
        offset: FV_HEADER_SIZE,
        size: file_size as usize,
        file_type: TYPE_DXE_CORE,
    };
    assert(seq![listed] + Seq::<FfsFile>::empty() =~= seq![listed]);
    // The section.
    assert(v.subrange(96, 99) =~= le_bytes(section_size, 3));
    assert(v[99] == TYPE_PE32);
    assert(sections_from(v, 72int + file_size, 72int + file_size) == Ok::<Seq<Section>, FfsError>(
        Seq::empty(),
    ));
    let section = Section {
        offset: 96,
        size: section_size as usize,
        section_type: TYPE_PE32,
    };
    assert(seq![section] + Seq::<Section>::empty() =~= seq![section]);
    assert(v.subrange(100, 100int + image.len()) =~= image);
}

/// Where the volume is in the image: behind the firmware, at a block boundary.
pub open spec fn volume_offset(firmware_size: nat) -> int {
    (STUB_RESERVE + firmware_size + 0xfff) / 0x1000 * 0x1000
}

/// Where the volume is in the image; `None` when that is past what can be
/// addressed.
pub fn fv_offset(firmware_size: usize) -> (offset: Option<usize>)
    ensures
        match offset {
            Some(offset) => offset == volume_offset(firmware_size as nat),
            None => STUB_RESERVE + firmware_size + 0xfff > usize::MAX,
        },
{
    match firmware_size.checked_add(STUB_RESERVE + 0xfff) {
        Some(sum) => Some(sum / 0x1000 * 0x1000),
        None => None,
    }
}

/// The zero-init table of the stub: one line per range.
pub open spec fn range_lines(ranges: Seq<(u64, u64)>) -> Seq<char>
    decreases ranges.len(),
{
    if ranges.len() == 0 {
        Seq::empty()
    } else {
        range_lines(ranges.drop_last()) + "    .quad "@ + hex_text(ranges.last().0 as nat) + ", "@
            + hex_text(ranges.last().1 as nat) + "\n"@
    }
}

fn push_range_lines(out: &mut String, ranges: &Vec<(u64, u64)>)
    requires
        old(out)@ == Seq::<char>::empty(),
    ensures
        final(out)@ == range_lines(ranges@),
{
    let mut next: usize = 0;
    assert(ranges@.subrange(0, 0) =~= Seq::<(u64, u64)>::empty());
    while next < ranges.len()
        invariant
            next <= ranges@.len(),
            out@ == range_lines(ranges@.subrange(0, next as int)),
        decreases ranges@.len() - next,
    {
        let (start, end) = ranges[next];
        proof {
            let more = ranges@.subrange(0, next + 1);
            assert(more.drop_last() =~= ranges@.subrange(0, next as int));
            assert(more.last() == (start, end));
        }
        out.append("    .quad ");
        push_hex(out, start);
        out.append(", ");
        push_hex(out, end);
        out.append("\n");
        next = next + 1;
    }
    assert(ranges@.subrange(0, next as int) =~= ranges@);
}

/// The stub's source: the template with the firmware's numbers substituted in.
pub open spec fn stub_text(
    template: Seq<char>,
    firmware: FirmwareView,
    offset: nat,
    volume_size: nat,
) -> Seq<char> {
    let t = replaced(template, "@FLASH_OFFSET@"@, hex_text(STUB_RESERVE as nat));
    let t = replaced(t, "@LOAD_ADDR@"@, hex_text(firmware.load_addr as nat));
    let t = replaced(t, "@FIRMWARE_SIZE@"@, hex_text(firmware.image.len()));
    let t = replaced(t, "@ENTRY_ADDR@"@, hex_text(firmware.entry as nat));
    let t = replaced(t, "@ZERO_RANGE_COUNT@"@, decimal_text(firmware.zero_ranges.len()));
    let t = replaced(t, "@ZERO_RANGES@"@, range_lines(firmware.zero_ranges));
    let t = replaced(t, "@FV_OFFSET@"@, hex_text(offset));
    let t = replaced(t, "@FV_SIZE@"@, hex_text(volume_size));
    replaced(t, "@FV_ADDR@"@, hex_text(FV_ADDR as nat))
}

fn replace_hex(text: &str, pattern: &str, value: u64) -> (out: String)
    ensures
        out@ == replaced(text@, pattern@, hex_text(value as nat)),
{
    let mut number: String = String::new();
    push_hex(&mut number, value);
    assert(number@ =~= hex_text(value as nat));
    replace(text, pattern, number.as_str())
}

/// The stub's source, with the firmware's numbers substituted in.
pub fn stub_source(
    template: &str,
    firmware: &FirmwareImage,
    fv_offset: usize,
    volume_size: usize,
) -> (source: String)
    ensures
        source@ == stub_text(template@, firmware@, fv_offset as nat, volume_size as nat),
{
    let source: String = replace_hex(template, "@FLASH_OFFSET@", STUB_RESERVE as u64);
    let source: String = replace_hex(source.as_str(), "@LOAD_ADDR@", firmware.load_addr);
    let source: String = replace_hex(
        source.as_str(),
        "@FIRMWARE_SIZE@",
        firmware.image.len() as u64,
    );
    let source: String = replace_hex(source.as_str(), "@ENTRY_ADDR@", firmware.entry);
    let mut count: String = String::new();
    push_decimal(&mut count, firmware.zero_ranges.len() as u64);
    assert(count@ =~= decimal_text(firmware.zero_ranges@.len()));
    let source: String = replace(source.as_str(), "@ZERO_RANGE_COUNT@", count.as_str());
    let mut ranges: String = String::new();
    push_range_lines(&mut ranges, &firmware.zero_ranges);
    let source: String = replace(source.as_str(), "@ZERO_RANGES@", ranges.as_str());
    let source: String = replace_hex(source.as_str(), "@FV_OFFSET@", fv_offset as u64);
    let source: String = replace_hex(source.as_str(), "@FV_SIZE@", volume_size as u64);
    replace_hex(source.as_str(), "@FV_ADDR@", FV_ADDR as u64)
}

/// What keeps a linked stub out of an image.
pub open spec fn stub_fault(stub: Seq<u8>) -> Option<ImageError> {
    if !stands_at(stub, 0, STUB_FIRST_INSTRUCTION@) {
        Some(ImageError::StubEntry)
    } else if stub.len() > STUB_RESERVE {
        Some(ImageError::StubTooLarge)
    } else {
        None
    }
}

/// The flash image: the stub, padded with zeroes, the firmware, erased bytes up
/// to the next block, and the volume.
pub open spec fn flash_image(stub: Seq<u8>, firmware: Seq<u8>, volume: Seq<u8>) -> Seq<u8> {
    stub + fill((STUB_RESERVE - stub.len()) as nat, 0) + firmware + fill(
        (volume_offset(firmware.len()) - STUB_RESERVE - firmware.len()) as nat,
        0xff,
    ) + volume
}

/// Puts the flash image together.
pub fn assemble(stub: &[u8], firmware: &[u8], volume: &[u8]) -> (image: Result<Vec<u8>, ImageError>)
    ensures
        match image {
            Ok(image) => stub_fault(stub@) is None && STUB_RESERVE + firmware@.len() + 0xfff
                <= usize::MAX && image@ == flash_image(stub@, firmware@, volume@),
            Err(error) => match stub_fault(stub@) {
                Some(fault) => error == fault,
                None => error == ImageError::TooLarge && STUB_RESERVE + firmware@.len() + 0xfff
                    > usize::MAX,
            },
        },
{
    if !stands(stub, 0, &STUB_FIRST_INSTRUCTION) {
        return Err(ImageError::StubEntry);
    }
    if stub.len() > STUB_RESERVE {
        return Err(ImageError::StubTooLarge);
    }
    let offset: usize = match fv_offset(firmware.len()) {
        Some(offset) => offset,
        None => {
            return Err(ImageError::TooLarge);
        },
    };
    let mut image: Vec<u8> = Vec::new();
    push_slice(&mut image, stub);
    assert(image@ =~= stub@);
    push_fill(&mut image, STUB_RESERVE - stub.len(), 0);
    push_slice(&mut image, firmware);
    push_fill(&mut image, offset - STUB_RESERVE - firmware.len(), 0xff);
    push_slice(&mut image, volume);
    Ok(image)
}

/// Execution starts at the stub, the firmware is where the stub was told to copy
/// it from, and the volume is at a block boundary, where the stub was told to
/// copy that from.
pub proof fn law_image_parts(stub: Seq<u8>, firmware: Seq<u8>, volume: Seq<u8>)
    requires
        stub_fault(stub) is None,
    ensures
        ({
            let image = flash_image(stub, firmware, volume);
            let offset = volume_offset(firmware.len());
            &&& image.subrange(0, stub.len() as int) == stub
            &&& image.subrange(
                STUB_RESERVE as int,
                (STUB_RESERVE + firmware.len()) as int,
            ) == firmware
            &&& offset % 0x1000 == 0
            &&& STUB_RESERVE + firmware.len() <= offset < STUB_RESERVE + firmware.len() + 0x1000
            &&& image.len() == offset + volume.len()
            &&& image.subrange(offset, image.len() as int) == volume
        }),
{
    let image = flash_image(stub, firmware, volume);
    let offset = volume_offset(firmware.len());
    assert(image.subrange(0, stub.len() as int) =~= stub);
    assert(image.subrange(STUB_RESERVE as int, (STUB_RESERVE + firmware.len()) as int)
        =~= firmware);
    assert(image.subrange(offset, image.len() as int) =~= volume);
}

/// What is said of the firmware that was read.
pub open spec fn firmware_text(path: Seq<char>, firmware: FirmwareView) -> Seq<char> {
    "mkimage: "@ + path + " -> load "@ + hex_text(firmware.load_addr as nat) + ", entry "@
        + hex_text(firmware.entry as nat) + ", "@ + decimal_text(firmware.image.len()) + " bytes, "@
        + decimal_text(firmware.zero_ranges.len()) + " zero-init range(s)"@
}

/// What is said of the firmware that was read.
pub fn firmware_line(path: &str, firmware: &FirmwareImage) -> (line: String)
    ensures
        line@ == firmware_text(path@, firmware@),
{
    let mut line: String = String::from_str("mkimage: ");
    line.append(path);
    line.append(" -> load ");
    push_hex(&mut line, firmware.load_addr);
    line.append(", entry ");
    push_hex(&mut line, firmware.entry);
    line.append(", ");
    push_decimal(&mut line, firmware.image.len() as u64);
    line.append(" bytes, ");
    push_decimal(&mut line, firmware.zero_ranges.len() as u64);
    line.append(" zero-init range(s)");
    line
}

/// What is said of the image that was written.
pub open spec fn written_text(path: Seq<char>, firmware_size: nat, volume_size: nat) -> Seq<char> {
    let offset = volume_offset(firmware_size) as nat;
    "mkimage: wrote "@ + path + " ("@ + decimal_text(offset + volume_size) + " bytes: "@
        + decimal_text(STUB_RESERVE as nat) + " stub + "@ + decimal_text(firmware_size)
        + " firmware + "@ + decimal_text((offset - STUB_RESERVE - firmware_size) as nat)
        + " padding + "@ + decimal_text(volume_size) + " DXE firmware volume)"@
}

/// What is said of the image that was written.
#[verifier::spinoff_prover]
#[verifier::rlimit(40)]
pub fn written_line(path: &str, firmware_size: usize, volume_size: usize) -> (line: String)
    requires
        volume_offset(firmware_size as nat) + volume_size <= usize::MAX,
    ensures
        line@ == written_text(path@, firmware_size as nat, volume_size as nat),
{
    let padding: u64 = (0x1000 - firmware_size as u64 % 0x1000) % 0x1000;
    let offset: u64 = STUB_RESERVE as u64 + firmware_size as u64 + padding;
    assert(offset == volume_offset(firmware_size as nat));
    let mut line: String = String::from_str("mkimage: wrote ");
    line.append(path);
    line.append(" (");
    push_decimal(&mut line, offset + volume_size as u64);
    line.append(" bytes: ");
    push_decimal(&mut line, STUB_RESERVE as u64);
    line.append(" stub + ");
    push_decimal(&mut line, firmware_size as u64);
    line.append(" firmware + ");
    push_decimal(&mut line, padding);
    line.append(" padding + ");
    push_decimal(&mut line, volume_size as u64);
    line.append(" DXE firmware volume)");
    line
}

/// The line of one range of the zero-init table.
pub open spec fn range_line(range: (u64, u64)) -> Seq<char> {
    "    .quad "@ + hex_text(range.0 as nat) + ", "@ + hex_text(range.1 as nat) + "\n"@
}

/// The zero-init table has a line for every range, in order: the lines of two runs of ranges
/// are the lines of the first and then those of the second.
pub proof fn law_every_range_has_its_line(a: Seq<(u64, u64)>, range: (u64, u64), b: Seq<(u64, u64)>)
    ensures
        range_lines(a + b) == range_lines(a) + range_lines(b),
        range_lines(seq![range]) == range_line(range),
        range_lines(Seq::empty()) == Seq::<char>::empty(),
    decreases b.len(),
{
    reveal_with_fuel(range_lines, 2);
    let one = seq![range];
    assert(one.drop_last() =~= Seq::<(u64, u64)>::empty());
    assert(range_lines(one) =~= range_line(range));
    if b.len() == 0 {
        assert(a + b =~= a);
        assert(range_lines(a) + range_lines(b) =~= range_lines(a));
    } else {
        law_every_range_has_its_line(a, range, b.drop_last());
        assert((a + b).drop_last() =~= a + b.drop_last());
        assert(range_lines(a + b) =~= range_lines(a) + range_lines(b));
    }
}

/// Which images can be the DXE core: PE32+ images for AArch64 that are EFI boot-service drivers,
/// with their headers inside the data. No other can.
pub proof fn law_which_images_are_cores(d: Seq<u8>)
    ensures
        core_fault(d) is None <==> {
            let nt = le_at(d, 0x3c, 4) as int;
            &&& d.len() >= 0x40
            &&& d[0] == 0x4d && d[1] == 0x5a
            &&& nt + 94 <= d.len()
            &&& d[nt] == 0x50 && d[nt + 1] == 0x45 && d[nt + 2] == 0 && d[nt + 3] == 0
            &&& le_at(d, nt + 4, 2) == 0xaa64
            &&& le_at(d, nt + 24, 2) == 0x20b
            &&& le_at(d, nt + 92, 2) == 11
        },
{
    let nt = le_at(d, 0x3c, 4) as int;
    let mark = seq![0x50u8, 0x45u8, 0u8, 0u8];
    lemma_stands(d, nt + 4, 0xaa64);
    lemma_stands(d, nt + 24, 0x20b);
    lemma_stands(d, nt + 92, 11);
    if nt + 4 <= d.len() {
        let here = d.subrange(nt, nt + 4);
        assert(here[0] == d[nt] && here[1] == d[nt + 1] && here[2] == d[nt + 2] && here[3] == d[nt
            + 3]);
        if d[nt] == 0x50 && d[nt + 1] == 0x45 && d[nt + 2] == 0 && d[nt + 3] == 0 {
            assert(here =~= mark);
        }
        if here == mark {
            assert(mark[0] == 0x50 && mark[1] == 0x45 && mark[2] == 0 && mark[3] == 0);
        }
    }
}

proof fn lemma_stands(d: Seq<u8>, at: int, n: nat)
    requires
        0 <= at,
        n < 0x1_0000,
    ensures
        stands_at(d, at, le_bytes(n, 2)) <==> at + 2 <= d.len() && le_at(d, at, 2) == n,
{
    lemma_widths();
    lemma_le_value_of_bytes(n, 2);
    let want = le_bytes(n, 2);
    if at + 2 <= d.len() && le_at(d, at, 2) == n {
        let here = d.subrange(at, at + 2);
        lemma_le_value_2(here);
        lemma_le_value_2(want);
        assert(here[0] == want[0] && here[1] == want[1]);
        assert(here =~= want);
    }
}

} // verus!
