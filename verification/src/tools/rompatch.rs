//! Rewrites the DXE core inside a QEMU firmware ROM.
//!
//! The ROM carries a firmware volume holding the DXE core, and this replaces the
//! image with a platform's own:
//!
//! ```text
//! code flash
//! └── firmware volume
//!     └── FFS file, type FV image
//!         └── section, GUID-defined, compressed with LZMA
//!             └── firmware volume
//!                 └── FFS file, type DXE core
//!                     └── section, PE32+   <- the platform's DXE core goes here
//! ```
//!
//! The replacement keeps every size field, checksum, and section header of the
//! layers it rebuilds consistent with what a firmware volume driver reads.
use crate::bytes::{
    copy_range, fill, get_u16, get_u32, le_at, le_bytes, lemma_le_bytes_len,
    lemma_le_value_of_bytes, lemma_widths, matches_at, push_fill,
    push_le, push_slice, put, put_le, put_slice, same_bytes,
};
use crate::text::{
    decimal_text, guid_text, hex_digits, hex_text, push_decimal, push_guid, push_hex,
    push_hex_digits, same_text, text_of, texts,
};
use crate::seqs::{first, lemma_first};
use crate::tools::ffs::{
    check16, check8, checksum8, ffs_header_checksum, file_inside, files_in, files_of,
    fv_header_checksum, section_inside, sections_in, sections_of, volume_inside, volumes,
    volumes_of, without_checks, FfsError, FfsFile, Section, Volume, FFS_HEADER_SIZE, MAX_SIZE,
    SECTION_HEADER_SIZE, TYPE_DXE_CORE, TYPE_PE32,
};
use vstd::prelude::*;
use vstd::string::*;

verus! {

/// `EFI_GUID_DEFINED_SECTION`: the common header, the GUID, a data offset, and
/// the attributes.
pub const GUIDED_HEADER_SIZE: usize = 24;

/// `EFI_FV_FILETYPE_FIRMWARE_VOLUME_IMAGE`.
pub const TYPE_FV_IMAGE: u8 = 0x0b;

/// `EFI_SECTION_GUID_DEFINED`.
pub const TYPE_GUID_DEFINED: u8 = 0x02;

/// `EFI_SECTION_PE32_PLUS`, which some builders write.
pub const TYPE_PE32_PLUS: u8 = 0x1b;

/// `EFI_SECTION_FIRMWARE_VOLUME_IMAGE`.
pub const TYPE_FV_IMAGE_SECTION: u8 = 0x17;

/// The FFS file name of the firmware volume image that carries the DXE core.
pub const DXE_CORE_FV_GUID: [u8; 16] = [
    0xa8, 0xc4, 0xb6, 0x7b, 0xcd, 0xfe, 0x0d, 0x4f, 0x9f, 0x5a, 0x2e, 0x03, 0xad, 0xd3, 0x5b, 0x96,
];

/// The LZMA custom-decompression GUID.
pub const LZMA_GUID: [u8; 16] = [
    0x98, 0x58, 0x4e, 0xee, 0x14, 0x39, 0x59, 0x42, 0x9d, 0x6e, 0xdc, 0x7b, 0xd7, 0x94, 0x03, 0xcf,
];

/// The header is constructed and valid, and so is the data.
pub const FFS_STATE_VALID: u8 = 0xf8;

/// `FFS_FIXED_CHECKSUM`, written when the file carries no checksum.
pub const FFS_FIXED_CHECKSUM: u8 = 0xaa;

/// Why a ROM cannot be read or patched.
#[derive(Clone, Copy, PartialEq, Eq, Structural, Debug)]
pub enum RomError {
    /// A volume or a file is damaged.
    Ffs(FfsError),
    /// The image ends before the field at this offset does.
    Truncated(usize),
    /// The DXE core file has no sections.
    NoSections,
    /// The DXE core file's first section has this type, and is not guided.
    NotGuided(u8),
    /// The DXE core file is not LZMA compressed.
    NotLzma,
    /// The guided section's data offset is out of range.
    DataOffset(u16),
    /// No firmware volume in the image holds a DXE core image.
    NoCore,
    /// The decompressed DXE core image holds no volume.
    NoVolume,
    /// The DXE core volume holds no DXE core file.
    NoCoreFile,
    /// The DXE core file holds no PE image.
    NoPe,
    /// A file of this size does not fit a header's size field.
    FileTooLarge(usize),
    /// A section of this size does not fit a size field.
    SectionTooLarge(usize),
    /// A guided section of this size does not fit a size field.
    GuidedTooLarge(usize),
    /// The inner volume's block map has a block of no bytes.
    NoBlockSize,
    /// The inner volume's header checksum does not follow the specification.
    InnerChecksum,
    /// The inner volume is not wrapped in an FV-image section.
    NotWrapped,
    /// The DXE core volume no longer fits a section size field.
    VolumeTooLarge,
    /// The LZMA encoder failed.
    Encoder,
    /// The rebuilt DXE core has this many bytes and would run past the volume.
    PastVolume(usize),
    /// What is to become the DXE core is not a PE image.
    NotAnImage,
    /// The patched ROM does not read back as the requested image.
    ReadBack,
}

/// What the LZMA decoder makes of a stream: five bytes of properties, the
/// eight-byte uncompressed size, then the data. `None` when it refuses it.
pub uninterp spec fn lzma_decoded(payload: Seq<u8>) -> Option<Seq<u8>>;

/// What the LZMA encoder makes of bytes at a preset. `None` when it fails.
pub uninterp spec fn lzma_encoded(blob: Seq<u8>, preset: u32) -> Option<Seq<u8>>;

/// The preset that images are compressed with.
pub const PRESET: u32 = 6;

/// `lzma_rust2::LzmaReader`, opened with `new_mem_limit` without a preset
/// dictionary and without a limit below the format's own, and read to its end.
#[verifier::external_body]
fn decompress(payload: &[u8]) -> (blob: Option<Vec<u8>>)
    ensures
        match blob {
            Some(blob) => lzma_decoded(payload@) == Some(blob@),
            None => lzma_decoded(payload@) is None,
        },
{
    let mut reader = lzma_rust2::LzmaReader::new_mem_limit(payload, u32::MAX, None).ok()?;
    let mut out = Vec::new();
    std::io::Read::read_to_end(&mut reader, &mut out).ok()?;
    Some(out)
}

/// `lzma_rust2::LzmaWriter`, opened with `new_use_header` at a preset and with the
/// input's size, written to once and finished. The stream starts with a
/// properties byte, a four-byte dictionary size and the eight-byte uncompressed
/// size: EDK2's decompressor sizes its output from that field.
#[verifier::external_body]
fn compress(blob: &[u8], preset: u32) -> (stream: Option<Vec<u8>>)
    ensures
        match stream {
            Some(stream) => lzma_encoded(blob@, preset) == Some(stream@) && stream@.len() >= 13 && le_at(
                stream@,
                5,
                8,
            ) == blob@.len(),
            None => lzma_encoded(blob@, preset) is None,
        },
{
    let options = lzma_rust2::LzmaOptions::with_preset(preset);
    let size = Some(blob.len() as u64);
    let mut writer = lzma_rust2::LzmaWriter::new_use_header(Vec::new(), &options, size).ok()?;
    std::io::Write::write_all(&mut writer, blob).ok()?;
    writer.finish().ok()
}

/// The LZMA-guided section of a file: its first section, if that is guided and
/// names the compression this tool writes.
pub open spec fn lzma_section_of(d: Seq<u8>, f: FfsFile) -> Result<Section, RomError> {
    match sections_of(d, f) {
        Err(error) => Err(RomError::Ffs(error)),
        Ok(sections) => {
            let s = sections[0];
            if sections.len() == 0 {
                Err(RomError::NoSections)
            } else if s.section_type != TYPE_GUID_DEFINED {
                Err(RomError::NotGuided(s.section_type))
            } else if s.offset + 20 > d.len() {
                Err(RomError::Truncated((s.offset + 4) as usize))
            } else if d.subrange(s.offset + 4, s.offset + 20) != LZMA_GUID@ {
                Err(RomError::NotLzma)
            } else if s.offset + 22 > d.len() {
                Err(RomError::Truncated((s.offset + 20) as usize))
            } else {
                let data = le_at(d, s.offset + 20, 2);
                if data < GUIDED_HEADER_SIZE || data > s.size {
                    Err(RomError::DataOffset(data as u16))
                } else {
                    Ok(s)
                }
            }
        },
    }
}

/// The extent of the LZMA-guided section inside `file`, checking that the
/// compression is the one this tool writes.
pub fn lzma_section(data: &[u8], file: &FfsFile) -> (section: Result<Section, RomError>)
    requires
        file_inside(data@, *file),
    ensures
        section == lzma_section_of(data@, *file),
        section matches Ok(s) ==> section_inside(data@, s) && s.size >= GUIDED_HEADER_SIZE,
{
    let total: usize = data.len();
    let sections: Vec<Section> = match sections_in(data, file) {
        Ok(sections) => sections,
        Err(error) => {
            return Err(RomError::Ffs(error));
        },
    };
    if sections.len() == 0 {
        return Err(RomError::NoSections);
    }
    let section: Section = sections[0];
    if section.section_type != TYPE_GUID_DEFINED {
        return Err(RomError::NotGuided(section.section_type));
    }
    assert(section_inside(data@, sections@[0]));
    if total - section.offset < 20 {
        return Err(RomError::Truncated(section.offset + 4));
    }
    if !matches_at(data, section.offset + 4, &LZMA_GUID) {
        return Err(RomError::NotLzma);
    }
    if total - section.offset < 22 {
        return Err(RomError::Truncated(section.offset + 20));
    }
    let data_offset: u16 = get_u16(data, section.offset + 20);
    if (data_offset as usize) < GUIDED_HEADER_SIZE || data_offset as usize > section.size {
        return Err(RomError::DataOffset(data_offset));
    }
    Ok(section)
}

/// Whether a volume of the image holds a file of the DXE core type.
pub open spec fn holds_core(d: Seq<u8>) -> bool {
    exists|i: int|
        0 <= i < volumes_of(d).len() && has_core_file(d, #[trigger] volumes_of(d)[i])
}

/// Whether a volume holds a file of the DXE core type.
pub open spec fn has_core_file(d: Seq<u8>, v: Volume) -> bool {
    files_of(d, v) matches Ok(files) && first(files, |f: FfsFile| f.file_type == TYPE_DXE_CORE)
        < files.len()
}

/// The first file of a type; as many as there are when there is none.
fn find_type(files: &Vec<FfsFile>, file_type: u8) -> (at: usize)
    ensures
        at == first(files@, |f: FfsFile| f.file_type == file_type),
        at <= files@.len(),
{
    let ghost p = |f: FfsFile| f.file_type == file_type;
    let mut at: usize = 0;
    while at < files.len() && files[at].file_type != file_type
        invariant
            at <= files@.len(),
            p == (|f: FfsFile| f.file_type == file_type),
            forall|i: int| 0 <= i < at ==> !p(#[trigger] files@[i]),
        decreases files@.len() - at,
    {
        at = at + 1;
    }
    proof {
        lemma_first(files@, p, at as int);
    }
    at
}

/// Whether a volume of the image holds a file of the DXE core type.
pub fn search_core(data: &[u8]) -> (holds: bool)
    ensures
        holds == holds_core(data@),
{
    let found: Vec<Volume> = volumes(data);
    let mut next: usize = 0;
    while next < found.len()
        invariant
            next <= found@.len(),
            found@ == volumes_of(data@),
            forall|i: int| 0 <= i < found@.len() ==> volume_inside(data@, #[trigger] found@[i]),
            forall|i: int| 0 <= i < next ==> !has_core_file(data@, #[trigger] found@[i]),
        decreases found@.len() - next,
    {
        match files_in(data, &found[next]) {
            Ok(files) => {
                if find_type(&files, TYPE_DXE_CORE) < files.len() {
                    assert(has_core_file(data@, found@[next as int]));
                    return true;
                }
            },
            Err(_) => {},
        }
        assert(!has_core_file(data@, found@[next as int]));
        next = next + 1;
    }
    false
}

/// A volume, a file in it, and what the file's LZMA section decompresses to.
#[verifier::ext_equal]
pub struct FoundView {
    pub volume: Volume,
    pub file: FfsFile,
    pub blob: Seq<u8>,
}

/// What the LZMA section of a volume image file decompresses to; `None` for a
/// file of another type or without one.
pub open spec fn unpacked(d: Seq<u8>, f: FfsFile) -> Option<Seq<u8>> {
    if f.file_type != TYPE_FV_IMAGE {
        None
    } else {
        match lzma_section_of(d, f) {
            Err(_) => None,
            Ok(s) => lzma_decoded(d.subrange(s.offset + GUIDED_HEADER_SIZE, s.offset + s.size)),
        }
    }
}

/// Looks through files for the one filed under the DXE core's name, which ends
/// the search, and for the first whose content holds a DXE core.
pub open spec fn search_files(
    d: Seq<u8>,
    v: Volume,
    files: Seq<FfsFile>,
    candidate: Option<FoundView>,
) -> (bool, Option<FoundView>)
    decreases files.len(),
{
    if files.len() == 0 {
        (false, candidate)
    } else {
        let f = files[0];
        let rest = files.drop_first();
        match unpacked(d, f) {
            None => search_files(d, v, rest, candidate),
            Some(blob) => {
                let found = FoundView { volume: v, file: f, blob };
                if d.subrange(f.offset as int, f.offset + 16) == DXE_CORE_FV_GUID@ {
                    (true, Some(found))
                } else if candidate is None && holds_core(blob) {
                    search_files(d, v, rest, Some(found))
                } else {
                    search_files(d, v, rest, candidate)
                }
            },
        }
    }
}

/// Looks through volumes; a damaged volume ends the search.
pub open spec fn search_volumes(
    d: Seq<u8>,
    found: Seq<Volume>,
    candidate: Option<FoundView>,
) -> Result<Option<FoundView>, RomError>
    decreases found.len(),
{
    if found.len() == 0 {
        Ok(candidate)
    } else {
        match files_of(d, found[0]) {
            Err(error) => Err(RomError::Ffs(error)),
            Ok(files) => {
                let (done, best) = search_files(d, found[0], files, candidate);
                if done {
                    Ok(best)
                } else {
                    search_volumes(d, found.drop_first(), best)
                }
            },
        }
    }
}

/// The DXE core image in an image. Two arrangements exist: the image may be filed
/// under a name of its own, and it may sit inside the compressed main volume,
/// where the type is what identifies it. The name is the more specific.
pub open spec fn found_core(d: Seq<u8>) -> Result<FoundView, RomError> {
    match search_volumes(d, volumes_of(d), None) {
        Err(error) => Err(error),
        Ok(None) => Err(RomError::NoCore),
        Ok(Some(found)) => Ok(found),
    }
}

/// A volume, a file in it, and what the file's LZMA section decompresses to.
pub struct Found {
    pub volume: Volume,
    pub file: FfsFile,
    pub blob: Vec<u8>,
}

impl Found {
    pub open spec fn view(&self) -> FoundView {
        FoundView { volume: self.volume, file: self.file, blob: self.blob@ }
    }
}

/// The view of what may have been found.
pub open spec fn found_view(found: Option<Found>) -> Option<FoundView> {
    match found {
        Some(found) => Some(found@),
        None => None,
    }
}

/// Whether what was found lies inside the image, the file inside the volume.
pub open spec fn found_inside(d: Seq<u8>, found: FoundView) -> bool {
    volume_inside(d, found.volume) && file_inside(d, found.file) && found.volume.base
        <= found.file.offset && found.file.offset + found.file.size <= found.volume.base
        + found.volume.length
}

/// What the LZMA section of a volume image file decompresses to.
fn unpack(data: &[u8], file: &FfsFile) -> (blob: Option<Vec<u8>>)
    requires
        file_inside(data@, *file),
    ensures
        match blob {
            Some(blob) => unpacked(data@, *file) == Some(blob@),
            None => unpacked(data@, *file) is None,
        },
{
    if file.file_type != TYPE_FV_IMAGE {
        return None;
    }
    let _total: usize = data.len();
    let section: Section = match lzma_section(data, file) {
        Ok(section) => section,
        Err(_) => {
            return None;
        },
    };
    let payload: Vec<u8> = copy_range(
        data,
        section.offset + GUIDED_HEADER_SIZE,
        section.offset + section.size,
    );
    decompress(&payload)
}

/// Looks through the files of one volume.
fn look_through(
    data: &[u8],
    volume: &Volume,
    files: &Vec<FfsFile>,
    candidate: Option<Found>,
) -> (found: (bool, Option<Found>))
    requires
        volume_inside(data@, *volume),
        forall|i: int|
            0 <= i < files@.len() ==> file_inside(data@, #[trigger] files@[i]) && files@[i].offset
                >= volume.base + volume.header_length && files@[i].offset + files@[i].size
                <= volume.base + volume.length,
        candidate matches Some(c) ==> found_inside(data@, c@),
    ensures
        (found.0, found_view(found.1)) == search_files(
            data@,
            *volume,
            files@,
            found_view(candidate),
        ),
        found.1 matches Some(c) ==> found_inside(data@, c@),
{
    let mut best: Option<Found> = candidate;
    let mut next: usize = 0;
    assert(files@.subrange(0, files@.len() as int) =~= files@);
    while next < files.len()
        invariant
            next <= files@.len(),
            volume_inside(data@, *volume),
            forall|i: int|
                0 <= i < files@.len() ==> file_inside(data@, #[trigger] files@[i])
                    && files@[i].offset >= volume.base + volume.header_length && files@[i].offset
                    + files@[i].size <= volume.base + volume.length,
            best matches Some(c) ==> found_inside(data@, c@),
            search_files(data@, *volume, files@, found_view(candidate)) == search_files(
                data@,
                *volume,
                files@.subrange(next as int, files@.len() as int),
                found_view(best),
            ),
        decreases files@.len() - next,
    {
        let file: FfsFile = files[next];
        let ghost rest = files@.subrange(next as int, files@.len() as int);
        assert(rest[0] == file);
        assert(rest.drop_first() =~= files@.subrange(next + 1, files@.len() as int));
        assert(file_inside(data@, files@[next as int]));
        match unpack(data, &file) {
            None => {},
            Some(blob) => {
                if matches_at(data, file.offset, &DXE_CORE_FV_GUID) {
                    return (true, Some(Found { volume: *volume, file, blob }));
                }
                if best.is_none() && search_core(&blob) {
                    best = Some(Found { volume: *volume, file, blob });
                }
            },
        }
        next = next + 1;
    }
    (false, best)
}

/// The DXE core image in an image: the FFS file that carries it, and the volume
/// that file sits in.
fn find_dxe_core_fv(data: &[u8]) -> (found: Result<Found, RomError>)
    ensures
        match found {
            Ok(found) => found_core(data@) == Ok::<FoundView, RomError>(found@) && found_inside(
                data@,
                found@,
            ),
            Err(error) => found_core(data@) == Err::<FoundView, RomError>(error),
        },
{
    let all: Vec<Volume> = volumes(data);
    let mut best: Option<Found> = None;
    let mut next: usize = 0;
    assert(all@.subrange(0, all@.len() as int) =~= all@);
    while next < all.len()
        invariant
            next <= all@.len(),
            all@ == volumes_of(data@),
            forall|i: int| 0 <= i < all@.len() ==> volume_inside(data@, #[trigger] all@[i]),
            best matches Some(c) ==> found_inside(data@, c@),
            search_volumes(data@, all@, None) == search_volumes(
                data@,
                all@.subrange(next as int, all@.len() as int),
                found_view(best),
            ),
        decreases all@.len() - next,
    {
        let volume: Volume = all[next];
        let ghost rest = all@.subrange(next as int, all@.len() as int);
        assert(rest[0] == volume);
        assert(rest.drop_first() =~= all@.subrange(next + 1, all@.len() as int));
        assert(volume_inside(data@, all@[next as int]));
        let files: Vec<FfsFile> = match files_in(data, &volume) {
            Ok(files) => files,
            Err(error) => {
                return Err(RomError::Ffs(error));
            },
        };
        let (done, found) = look_through(data, &volume, &files, best);
        if done {
            return match found {
                Some(found) => Ok(found),
                None => Err(RomError::NoCore),
            };
        }
        best = found;
        next = next + 1;
    }
    match best {
        Some(found) => Ok(found),
        None => Err(RomError::NoCore),
    }
}

/// The DXE core image in a ROM, as the layers that carry it.
pub struct DxeCore {
    /// The volume holding the FFS file.
    pub volume: Volume,
    /// The FV-image FFS file that carries the compressed volume.
    pub file: FfsFile,
    /// The guided section inside it.
    pub section: Section,
    /// The decompressed content: wrapper sections and the inner volume.
    pub blob: Vec<u8>,
    /// The inner volume.
    pub inner: Volume,
    /// The FFS files of the inner volume.
    pub inner_files: Vec<FfsFile>,
    /// The DXE core file, and the PE section inside it.
    pub core: FfsFile,
    pub pe: Section,
}

/// The DXE core image in a ROM, as the layers that carry it.
#[verifier::ext_equal]
pub struct DxeCoreView {
    pub volume: Volume,
    pub file: FfsFile,
    pub section: Section,
    pub blob: Seq<u8>,
    pub inner: Volume,
    pub inner_files: Seq<FfsFile>,
    pub core: FfsFile,
    pub pe: Section,
}

impl DxeCore {
    pub open spec fn view(&self) -> DxeCoreView {
        DxeCoreView {
            volume: self.volume,
            file: self.file,
            section: self.section,
            blob: self.blob@,
            inner: self.inner,
            inner_files: self.inner_files@,
            core: self.core,
            pe: self.pe,
        }
    }
}

impl DxeCoreView {
    /// Whether every layer lies inside the one that carries it.
    pub open spec fn inside(self, rom: Seq<u8>) -> bool {
        &&& volume_inside(rom, self.volume)
        &&& file_inside(rom, self.file)
        &&& self.volume.base <= self.file.offset
        &&& self.file.offset + self.file.size <= self.volume.base + self.volume.length
        &&& section_inside(rom, self.section)
        &&& self.section.size >= GUIDED_HEADER_SIZE
        &&& self.unpacked_inside()
    }

    /// Whether the layers of the decompressed content lie inside it.
    pub open spec fn unpacked_inside(self) -> bool {
        &&& volume_inside(self.blob, self.inner)
        &&& forall|i: int|
            0 <= i < self.inner_files.len() ==> file_inside(self.blob, #[trigger] self.inner_files[i])
        &&& file_inside(self.blob, self.core)
        &&& section_inside(self.blob, self.pe)
    }

    /// The PE image the DXE core file carries.
    pub open spec fn image(self) -> Seq<u8> {
        self.blob.subrange(self.pe.offset + SECTION_HEADER_SIZE, self.pe.offset + self.pe.size)
    }
}

/// Whether a section holds a PE image.
pub open spec fn is_pe(s: Section) -> bool {
    s.section_type == TYPE_PE32 || s.section_type == TYPE_PE32_PLUS
}

/// The DXE core in what the carrying file decompresses to: the first DXE core file in
/// the first volume there, and the first PE section in it.
pub open spec fn located_in(found: FoundView, section: Section) -> Result<DxeCoreView, RomError> {
    let blob = found.blob;
    let inner = volumes_of(blob)[0];
    if volumes_of(blob).len() == 0 {
        Err(RomError::NoVolume)
    } else {
        match files_of(blob, inner) {
            Err(error) => Err(RomError::Ffs(error)),
            Ok(files) => {
                let k = first(files, |f: FfsFile| f.file_type == TYPE_DXE_CORE);
                if k >= files.len() {
                    Err(RomError::NoCoreFile)
                } else {
                    match sections_of(blob, files[k]) {
                        Err(error) => Err(RomError::Ffs(error)),
                        Ok(sections) => {
                            let m = first(sections, |s: Section| is_pe(s));
                            if m >= sections.len() {
                                Err(RomError::NoPe)
                            } else {
                                Ok(
                                    DxeCoreView {
                                        volume: found.volume,
                                        file: found.file,
                                        section,
                                        blob,
                                        inner,
                                        inner_files: files,
                                        core: files[k],
                                        pe: sections[m],
                                    },
                                )
                            }
                        },
                    }
                }
            },
        }
    }
}

/// The DXE core in a ROM: the file that carries it, its compressed section, and what
/// is inside that.
pub open spec fn located(rom: Seq<u8>) -> Result<DxeCoreView, RomError> {
    match found_core(rom) {
        Err(error) => Err(error),
        Ok(found) => match lzma_section_of(rom, found.file) {
            Err(error) => Err(error),
            Ok(section) => located_in(found, section),
        },
    }
}

/// The first section that holds a PE image; as many as there are when there is
/// none.
fn find_pe(sections: &Vec<Section>) -> (at: usize)
    ensures
        at == first(sections@, |s: Section| is_pe(s)),
        at <= sections@.len(),
{
    let ghost p = |s: Section| is_pe(s);
    let mut at: usize = 0;
    while at < sections.len() && sections[at].section_type != TYPE_PE32
        && sections[at].section_type != TYPE_PE32_PLUS
        invariant
            at <= sections@.len(),
            p == (|s: Section| is_pe(s)),
            forall|i: int| 0 <= i < at ==> !p(#[trigger] sections@[i]),
        decreases sections@.len() - at,
    {
        at = at + 1;
    }
    proof {
        lemma_first(sections@, p, at as int);
    }
    at
}

/// Finds the DXE core in what the carrying file decompressed to.
pub fn locate_in(found: Found, section: Section) -> (core: Result<DxeCore, RomError>)
    ensures
        match core {
            Ok(core) => located_in(found@, section) == Ok::<DxeCoreView, RomError>(core@)
                && core@.unpacked_inside(),
            Err(error) => located_in(found@, section) == Err::<DxeCoreView, RomError>(error),
        },
{
    let blob: Vec<u8> = found.blob;
    let inner_volumes: Vec<Volume> = volumes(&blob);
    if inner_volumes.len() == 0 {
        return Err(RomError::NoVolume);
    }
    let inner: Volume = inner_volumes[0];
    assert(volume_inside(blob@, inner_volumes@[0]));
    let inner_files: Vec<FfsFile> = match files_in(&blob, &inner) {
        Ok(files) => files,
        Err(error) => {
            return Err(RomError::Ffs(error));
        },
    };
    let at: usize = find_type(&inner_files, TYPE_DXE_CORE);
    if at >= inner_files.len() {
        return Err(RomError::NoCoreFile);
    }
    let core: FfsFile = inner_files[at];
    assert(file_inside(blob@, inner_files@[at as int]));
    let sections: Vec<Section> = match sections_in(&blob, &core) {
        Ok(sections) => sections,
        Err(error) => {
            return Err(RomError::Ffs(error));
        },
    };
    let pe_at: usize = find_pe(&sections);
    if pe_at >= sections.len() {
        return Err(RomError::NoPe);
    }
    let pe: Section = sections[pe_at];
    assert(section_inside(blob@, sections@[pe_at as int]));
    Ok(
        DxeCore {
            volume: found.volume,
            file: found.file,
            section,
            blob,
            inner,
            inner_files,
            core,
            pe,
        },
    )
}

/// Finds the DXE core in a ROM.
pub fn locate(rom: &[u8]) -> (core: Result<DxeCore, RomError>)
    ensures
        match core {
            Ok(core) => located(rom@) == Ok::<DxeCoreView, RomError>(core@) && core@.inside(rom@),
            Err(error) => located(rom@) == Err::<DxeCoreView, RomError>(error),
        },
{
    let found: Found = match find_dxe_core_fv(rom) {
        Ok(found) => found,
        Err(error) => {
            return Err(error);
        },
    };
    let section: Section = match lzma_section(rom, &found.file) {
        Ok(section) => section,
        Err(error) => {
            return Err(error);
        },
    };
    locate_in(found, section)
}

/// The PE image the DXE core file of a ROM carries.
#[verifier::spinoff_prover]
pub fn extract(rom: &[u8]) -> (image: Result<Vec<u8>, RomError>)
    ensures
        match image {
            Ok(image) => located(rom@) matches Ok(core) && image@ == core.image(),
            Err(error) => located(rom@) == Err::<DxeCoreView, RomError>(error),
        },
{
    let core: DxeCore = match locate(rom) {
        Ok(core) => core,
        Err(error) => {
            return Err(error);
        },
    };
    let held: usize = core.blob.len();
    assert(core@.unpacked_inside());
    assert(core.pe.offset + core.pe.size <= held);
    Ok(
        copy_range(
            &core.blob,
            core.pe.offset + SECTION_HEADER_SIZE,
            core.pe.offset + core.pe.size,
        ),
    )
}

/// A size as an error carries it.
pub open spec fn reported(size: int) -> usize {
    if size <= usize::MAX {
        size as usize
    } else {
        usize::MAX
    }
}

/// A section header and its payload.
pub open spec fn section_bytes(section_type: u8, payload: Seq<u8>) -> Result<Seq<u8>, RomError> {
    let size = SECTION_HEADER_SIZE + payload.len();
    if size > MAX_SIZE {
        Err(RomError::SectionTooLarge(reported(size)))
    } else {
        Ok(le_bytes(size as nat, 3) + seq![section_type] + payload)
    }
}

/// A guided section carrying an LZMA stream.
pub open spec fn lzma_section_bytes(payload: Seq<u8>) -> Result<Seq<u8>, RomError> {
    let size = GUIDED_HEADER_SIZE + payload.len();
    if size > MAX_SIZE {
        Err(RomError::GuidedTooLarge(reported(size)))
    } else {
        Ok(
            le_bytes(size as nat, 3) + seq![TYPE_GUID_DEFINED] + LZMA_GUID@ + le_bytes(
                GUIDED_HEADER_SIZE as nat,
                2,
            ) + le_bytes(1, 2) + payload,
        )
    }
}

/// The header of a file with the size, the state and the checksums brought up to
/// date for `body`: the second checksum covers the body when the header's
/// attributes say so, and the first makes the header sum to zero.
pub open spec fn ffs_header(header: Seq<u8>, body: Seq<u8>) -> Seq<u8> {
    let sized = put(header, 20, le_bytes(FFS_HEADER_SIZE as nat + body.len(), 3));
    let checked = sized.update(
        17,
        if (sized[19] / 0x40) % 2 == 1 {
            check8(body) as u8
        } else {
            FFS_FIXED_CHECKSUM
        },
    ).update(23, FFS_STATE_VALID);
    checked.update(16, check8(without_checks(checked)) as u8)
}

/// An FFS file: the header of `original` brought up to date for `body`, then
/// `body`.
pub open spec fn ffs_bytes(original: Seq<u8>, body: Seq<u8>) -> Result<Seq<u8>, RomError> {
    let size = FFS_HEADER_SIZE + body.len();
    if size > MAX_SIZE {
        Err(RomError::FileTooLarge(reported(size)))
    } else {
        Ok(ffs_header(original.subrange(0, FFS_HEADER_SIZE as int), body) + body)
    }
}

/// Builds an FFS file: the header of `original` with the size and checksums
/// brought up to date for `body`, then `body`.
pub fn build_ffs(original: &Vec<u8>, body: &Vec<u8>) -> (file: Result<Vec<u8>, RomError>)
    requires
        original@.len() >= FFS_HEADER_SIZE,
    ensures
        match file {
            Ok(file) => ffs_bytes(original@, body@) == Ok::<Seq<u8>, RomError>(file@) && file@.len()
                == FFS_HEADER_SIZE + body@.len() <= MAX_SIZE,
            Err(error) => ffs_bytes(original@, body@) == Err::<Seq<u8>, RomError>(error),
        },
{
    let size: usize = body.len().saturating_add(FFS_HEADER_SIZE);
    if size > MAX_SIZE {
        return Err(RomError::FileTooLarge(size));
    }
    let mut header: Vec<u8> = copy_range(original, 0, FFS_HEADER_SIZE);
    put_le(&mut header, 20, size as u64, 3);
    let second: u8 = if (header[19] / 0x40) % 2 == 1 {
        checksum8(body)
    } else {
        FFS_FIXED_CHECKSUM
    };
    header.set(17, second);
    header.set(23, FFS_STATE_VALID);
    let first_sum: u8 = ffs_header_checksum(&header);
    header.set(16, first_sum);
    push_slice(&mut header, body);
    Ok(header)
}

/// A section header and its payload.
pub fn build_section(section_type: u8, payload: &[u8]) -> (section: Result<Vec<u8>, RomError>)
    ensures
        match section {
            Ok(section) => section_bytes(section_type, payload@) == Ok::<Seq<u8>, RomError>(
                section@,
            ) && section@.len() == SECTION_HEADER_SIZE + payload@.len() <= MAX_SIZE,
            Err(error) => section_bytes(section_type, payload@) == Err::<Seq<u8>, RomError>(error),
        },
{
    let size: usize = payload.len().saturating_add(SECTION_HEADER_SIZE);
    if size > MAX_SIZE {
        return Err(RomError::SectionTooLarge(size));
    }
    let mut section: Vec<u8> = Vec::new();
    push_le(&mut section, size as u64, 3);
    section.push(section_type);
    proof {
        lemma_le_bytes_len(size as nat, 3);
        assert(section@ =~= le_bytes(size as nat, 3) + seq![section_type]);
    }
    push_slice(&mut section, payload);
    Ok(section)
}

/// A guided section carrying an LZMA stream.
pub fn build_lzma_section(payload: &Vec<u8>) -> (section: Result<Vec<u8>, RomError>)
    ensures
        match section {
            Ok(section) => lzma_section_bytes(payload@) == Ok::<Seq<u8>, RomError>(section@)
                && section@.len() == GUIDED_HEADER_SIZE + payload@.len() <= MAX_SIZE,
            Err(error) => lzma_section_bytes(payload@) == Err::<Seq<u8>, RomError>(error),
        },
{
    let size: usize = payload.len().saturating_add(GUIDED_HEADER_SIZE);
    if size > MAX_SIZE {
        return Err(RomError::GuidedTooLarge(size));
    }
    let mut section: Vec<u8> = Vec::new();
    push_le(&mut section, size as u64, 3);
    section.push(TYPE_GUID_DEFINED);
    proof {
        lemma_le_bytes_len(size as nat, 3);
        lemma_le_bytes_len(GUIDED_HEADER_SIZE as nat, 2);
        lemma_le_bytes_len(1, 2);
        assert(section@ =~= le_bytes(size as nat, 3) + seq![TYPE_GUID_DEFINED]);
    }
    push_slice(&mut section, &LZMA_GUID);
    push_le(&mut section, GUIDED_HEADER_SIZE as u64, 2);
    push_le(&mut section, 1, 2);
    push_slice(&mut section, payload);
    Ok(section)
}

/// The block size of a volume, from the first block map entry that has blocks.
/// A map without one means 4 KiB blocks.
pub open spec fn block_size_from(v: Seq<u8>, offset: int) -> Result<int, RomError>
    decreases v.len() - offset,
{
    if offset + 4 > v.len() {
        Err(RomError::Truncated(offset as usize))
    } else if offset + 8 > v.len() {
        Err(RomError::Truncated((offset + 4) as usize))
    } else {
        let blocks = le_at(v, offset, 4);
        let length = le_at(v, offset + 4, 4);
        if blocks == 0 && length == 0 {
            Ok(0x1000)
        } else if blocks != 0 {
            Ok(length as int)
        } else {
            block_size_from(v, offset + 8)
        }
    }
}

/// The block size of a volume, from its block map. EDK2 rounds a volume's length
/// up to a whole number of blocks, and a firmware volume driver is entitled to
/// walk it in those blocks.
pub fn block_size(volume: &[u8]) -> (block: Result<u32, RomError>)
    requires
        volume@.len() >= 56,
    ensures
        match block {
            Ok(block) => block_size_from(volume@, 56) == Ok::<int, RomError>(block as int),
            Err(error) => block_size_from(volume@, 56) == Err::<int, RomError>(error),
        },
{
    let size: usize = volume.len();
    let mut offset: usize = 56;
    loop
        invariant
            size == volume@.len(),
            offset <= size,
            block_size_from(volume@, 56) == block_size_from(volume@, offset as int),
        decreases size - offset,
    {
        if size - offset < 4 {
            return Err(RomError::Truncated(offset));
        }
        if size - offset < 8 {
            return Err(RomError::Truncated(offset + 4));
        }
        let blocks: u32 = get_u32(volume, offset);
        let length: u32 = get_u32(volume, offset + 4);
        if blocks == 0 && length == 0 {
            return Ok(0x1000);
        }
        if blocks != 0 {
            return Ok(length);
        }
        offset = offset + 8;
    }
}

/// Bytes filled up to a multiple of eight with erased ones.
pub open spec fn filled8(s: Seq<u8>) -> Seq<u8> {
    s + fill(((8 - s.len() % 8) % 8) as nat, 0xff)
}

/// The files of a volume one after another, each filled up to eight bytes, with
/// the one at `core` replaced.
pub open spec fn rebuilt_files(
    blob: Seq<u8>,
    files: Seq<FfsFile>,
    core: usize,
    rebuilt: Seq<u8>,
) -> Seq<u8>
    decreases files.len(),
{
    if files.len() == 0 {
        Seq::empty()
    } else {
        let f = files.last();
        filled8(
            rebuilt_files(blob, files.drop_last(), core, rebuilt) + if f.offset == core {
                rebuilt
            } else {
                blob.subrange(f.offset as int, f.offset + f.size)
            },
        )
    }
}

/// The header of a volume with another length.
pub open spec fn relength(header: Seq<u8>, length: nat) -> Seq<u8> {
    let sized = put(header, 32, le_bytes(length, 8));
    put(sized, 50, le_bytes(check16(sized) as nat, 2))
}

/// A length rounded up to whole blocks.
pub open spec fn whole_blocks(n: int, block: int) -> int {
    (n + block - 1) / block * block
}

/// The decompressed content with the DXE core file rebuilt around `image`: the
/// inner volume has the same files in the same order, its header is reused apart
/// from the length, and it is rounded up to whole blocks of erased bytes.
pub open spec fn rebuilt_blob(core: DxeCoreView, image: Seq<u8>) -> Result<Seq<u8>, RomError> {
    let base = core.inner.base as int;
    let head = core.inner.header_length as int;
    match section_bytes(core.pe.section_type, image) {
        Err(error) => Err(error),
        Ok(body) => match ffs_bytes(
            core.blob.subrange(core.core.offset as int, core.core.offset + FFS_HEADER_SIZE),
            body,
        ) {
            Err(error) => Err(error),
            Ok(file) => {
                let files = rebuilt_files(core.blob, core.inner_files, core.core.offset, file);
                match block_size_from(core.blob.subrange(base, core.blob.len() as int), 56) {
                    Err(error) => Err(error),
                    Ok(block) => {
                        let length = whole_blocks(head + files.len(), block);
                        let header = core.blob.subrange(base, base + head);
                        if block == 0 {
                            Err(RomError::NoBlockSize)
                        } else if length > usize::MAX {
                            Err(RomError::VolumeTooLarge)
                        } else if head % 2 != 0 || check16(header) != le_at(header, 50, 2) {
                            Err(RomError::InnerChecksum)
                        } else if base < SECTION_HEADER_SIZE || core.blob[base - 1]
                            != TYPE_FV_IMAGE_SECTION {
                            Err(RomError::NotWrapped)
                        } else if length != core.inner.length && SECTION_HEADER_SIZE + length
                            > MAX_SIZE {
                            Err(RomError::VolumeTooLarge)
                        } else {
                            let front = core.blob.subrange(0, base);
                            let wrapped = if length != core.inner.length {
                                put(
                                    front,
                                    base - SECTION_HEADER_SIZE,
                                    le_bytes((SECTION_HEADER_SIZE + length) as nat, 3),
                                )
                            } else {
                                front
                            };
                            Ok(
                                wrapped + relength(header, length as nat) + files + fill(
                                    (length - head - files.len()) as nat,
                                    0xff,
                                ),
                            )
                        }
                    },
                }
            },
        },
    }
}

/// The ROM with a compressed stream in the place of the one the core came from: the
/// stream goes out through the two outer layers, over erased bytes.
pub open spec fn with_stream(rom: Seq<u8>, core: DxeCoreView, stream: Seq<u8>) -> Result<
    Seq<u8>,
    RomError,
> {
    match lzma_section_bytes(stream) {
        Err(error) => Err(error),
        Ok(section) => match ffs_bytes(
            rom.subrange(core.file.offset as int, core.file.offset + FFS_HEADER_SIZE),
            section,
        ) {
            Err(error) => Err(error),
            Ok(file) => if core.file.offset + file.len() > core.volume.base + core.volume.length {
                Err(RomError::PastVolume(file.len() as usize))
            } else {
                Ok(
                    put(
                        put(rom, core.file.offset as int, fill(core.file.size as nat, 0xff)),
                        core.file.offset as int,
                        file,
                    ),
                )
            },
        },
    }
}

/// The whole ROM with the DXE core swapped for `image`: the content is rebuilt,
/// compressed, and put back.
pub open spec fn replaced(rom: Seq<u8>, image: Seq<u8>) -> Result<Seq<u8>, RomError> {
    match located(rom) {
        Err(error) => Err(error),
        Ok(core) => match rebuilt_blob(core, image) {
            Err(error) => Err(error),
            Ok(blob) => match lzma_encoded(blob, PRESET) {
                None => Err(RomError::Encoder),
                Some(stream) => with_stream(rom, core, stream),
            },
        },
    }
}

/// Fills bytes up to a multiple of eight with erased ones.
fn fill8(bytes: &mut Vec<u8>)
    ensures
        final(bytes)@ == filled8(old(bytes)@),
{
    let pad: usize = (8 - bytes.len() % 8) % 8;
    push_fill(bytes, pad, 0xff);
}

/// The files of the inner volume with the DXE core file replaced.
fn rebuild_files(core: &DxeCore, rebuilt: &Vec<u8>) -> (files: Vec<u8>)
    requires
        forall|i: int|
            0 <= i < core.inner_files@.len() ==> file_inside(
                core.blob@,
                #[trigger] core.inner_files@[i],
            ),
    ensures
        files@ == rebuilt_files(core.blob@, core.inner_files@, core.core.offset, rebuilt@),
{
    let total: usize = core.blob.len();
    let mut files: Vec<u8> = Vec::new();
    let mut next: usize = 0;
    assert(core.inner_files@.subrange(0, 0) =~= Seq::<FfsFile>::empty());
    while next < core.inner_files.len()
        invariant
            next <= core.inner_files@.len(),
            total == core.blob@.len(),
            forall|i: int|
                0 <= i < core.inner_files@.len() ==> file_inside(
                    core.blob@,
                    #[trigger] core.inner_files@[i],
                ),
            files@ == rebuilt_files(
                core.blob@,
                core.inner_files@.subrange(0, next as int),
                core.core.offset,
                rebuilt@,
            ),
        decreases core.inner_files@.len() - next,
    {
        let file: FfsFile = core.inner_files[next];
        proof {
            let now = core.inner_files@.subrange(0, next + 1);
            assert(now.drop_last() =~= core.inner_files@.subrange(0, next as int));
            assert(now.last() == file);
            assert(file_inside(core.blob@, core.inner_files@[next as int]));
        }
        if file.offset == core.core.offset {
            push_slice(&mut files, rebuilt);
        } else {
            let own: Vec<u8> = copy_range(&core.blob, file.offset, file.offset + file.size);
            push_slice(&mut files, &own);
        }
        fill8(&mut files);
        next = next + 1;
    }
    assert(core.inner_files@.subrange(0, next as int) =~= core.inner_files@);
    files
}

proof fn lemma_whole_blocks(n: int, block: int)
    requires
        0 <= n,
        0 < block,
    ensures
        n <= whole_blocks(n, block) < n + block,
{
    vstd::arithmetic::div_mod::lemma_fundamental_div_mod(n + block - 1, block);
    assert(block * ((n + block - 1) / block) == (n + block - 1) / block * block)
        by (nonlinear_arith);
}

/// The decompressed content with the DXE core file rebuilt around `image`.
pub fn rebuild_blob(core: &DxeCore, image: &[u8]) -> (blob: Result<Vec<u8>, RomError>)
    requires
        core@.unpacked_inside(),
    ensures
        match blob {
            Ok(blob) => rebuilt_blob(core@, image@) == Ok::<Seq<u8>, RomError>(blob@),
            Err(error) => rebuilt_blob(core@, image@) == Err::<Seq<u8>, RomError>(error),
        },
{
    let total: usize = core.blob.len();
    let base: usize = core.inner.base;
    let head: usize = core.inner.header_length;
    let body: Vec<u8> = match build_section(core.pe.section_type, image) {
        Ok(body) => body,
        Err(error) => {
            return Err(error);
        },
    };
    let core_header: Vec<u8> = copy_range(
        &core.blob,
        core.core.offset,
        core.core.offset + FFS_HEADER_SIZE,
    );
    let file: Vec<u8> = match build_ffs(&core_header, &body) {
        Ok(file) => file,
        Err(error) => {
            return Err(error);
        },
    };
    let files: Vec<u8> = rebuild_files(core, &file);
    // A volume is rounded up to whole blocks and the rest filled with erased
    // bytes, which is also how the free space past the last file is marked.
    let volume: Vec<u8> = copy_range(&core.blob, base, total);
    let block: u32 = match block_size(&volume) {
        Ok(block) => block,
        Err(error) => {
            return Err(error);
        },
    };
    if block == 0 {
        return Err(RomError::NoBlockSize);
    }
    let used: u128 = head as u128 + files.len() as u128;
    proof {
        lemma_whole_blocks(used as int, block as int);
    }
    let length: u128 = (used + block as u128 - 1) / block as u128 * block as u128;
    if length > usize::MAX as u128 {
        return Err(RomError::VolumeTooLarge);
    }
    let length: usize = length as usize;
    let mut header: Vec<u8> = copy_range(&core.blob, base, base + head);
    match fv_header_checksum(&header) {
        None => {
            return Err(RomError::InnerChecksum);
        },
        Some(checksum) => {
            if checksum != get_u16(&header, 50) {
                return Err(RomError::InnerChecksum);
            }
        },
    }
    if base < SECTION_HEADER_SIZE || core.blob[base - 1] != TYPE_FV_IMAGE_SECTION {
        return Err(RomError::NotWrapped);
    }
    // The wrapper sections before the volume, with the FV-image section's size
    // brought up to date.
    let mut blob: Vec<u8> = copy_range(&core.blob, 0, base);
    if length != core.inner.length {
        if length > MAX_SIZE - SECTION_HEADER_SIZE {
            return Err(RomError::VolumeTooLarge);
        }
        put_le(
            &mut blob,
            base - SECTION_HEADER_SIZE,
            (SECTION_HEADER_SIZE + length) as u64,
            3,
        );
    }
    put_le(&mut header, 32, length as u64, 8);
    let checksum: u16 = match fv_header_checksum(&header) {
        Some(checksum) => checksum,
        None => {
            return Err(RomError::InnerChecksum);
        },
    };
    put_le(&mut header, 50, checksum as u64, 2);
    push_slice(&mut blob, &header);
    push_slice(&mut blob, &files);
    push_fill(&mut blob, length - head - files.len(), 0xff);
    Ok(blob)
}

/// Puts a compressed stream into a ROM, in the place of the one the core came from.
pub fn place_stream(rom: &[u8], core: &DxeCore, stream: &Vec<u8>) -> (patched: Result<
    Vec<u8>,
    RomError,
>)
    requires
        core@.inside(rom@),
    ensures
        match patched {
            Ok(patched) => with_stream(rom@, core@, stream@) == Ok::<Seq<u8>, RomError>(patched@)
                && patched@.len() == rom@.len(),
            Err(error) => with_stream(rom@, core@, stream@) == Err::<Seq<u8>, RomError>(error),
        },
{
    let total: usize = rom.len();
    let section: Vec<u8> = match build_lzma_section(stream) {
        Ok(section) => section,
        Err(error) => {
            return Err(error);
        },
    };
    let file_header: Vec<u8> = copy_range(
        rom,
        core.file.offset,
        core.file.offset + FFS_HEADER_SIZE,
    );
    let file: Vec<u8> = match build_ffs(&file_header, &section) {
        Ok(file) => file,
        Err(error) => {
            return Err(error);
        },
    };
    if file.len() > core.volume.base + core.volume.length - core.file.offset {
        return Err(RomError::PastVolume(file.len()));
    }
    let mut patched: Vec<u8> = copy_range(rom, 0, total);
    assert(patched@ =~= rom@);
    let mut erased: Vec<u8> = Vec::new();
    push_fill(&mut erased, core.file.size, 0xff);
    assert(erased@ =~= fill(core.file.size as nat, 0xff));
    put_slice(&mut patched, core.file.offset, &erased);
    put_slice(&mut patched, core.file.offset, &file);
    Ok(patched)
}

/// The whole ROM with the DXE core swapped for `image`.
pub fn replace_dxe_core(rom: &[u8], image: &[u8]) -> (patched: Result<Vec<u8>, RomError>)
    ensures
        match patched {
            Ok(patched) => replaced(rom@, image@) == Ok::<Seq<u8>, RomError>(patched@)
                && patched@.len() == rom@.len(),
            Err(error) => replaced(rom@, image@) == Err::<Seq<u8>, RomError>(error),
        },
{
    let core: DxeCore = match locate(rom) {
        Ok(core) => core,
        Err(error) => {
            return Err(error);
        },
    };
    let blob: Vec<u8> = match rebuild_blob(&core, image) {
        Ok(blob) => blob,
        Err(error) => {
            return Err(error);
        },
    };
    match compress(&blob, PRESET) {
        Some(stream) => place_stream(rom, &core, &stream),
        None => Err(RomError::Encoder),
    }
}

/// Puts `pe` into the ROM and reads the result back the way a firmware volume
/// driver would: a patcher that writes an image nothing can find is worse than
/// one that refuses.
pub fn patch(rom: &[u8], pe: &[u8]) -> (patched: Result<Vec<u8>, RomError>)
    ensures
        match patched {
            Ok(patched) => {
                &&& pe@.len() >= 2 && pe@[0] == 0x4d && pe@[1] == 0x5a
                &&& replaced(rom@, pe@) == Ok::<Seq<u8>, RomError>(patched@)
                &&& located(patched@) matches Ok(core) && core.image() == pe@
            },
            Err(error) => if pe@.len() < 2 || pe@[0] != 0x4d || pe@[1] != 0x5a {
                error == RomError::NotAnImage
            } else {
                match replaced(rom@, pe@) {
                    Err(first) => error == first,
                    Ok(patched) => match located(patched) {
                        Err(second) => error == second,
                        Ok(core) => error == RomError::ReadBack && core.image() != pe@,
                    },
                }
            },
        },
{
    if pe.len() < 2 || pe[0] != 0x4d || pe[1] != 0x5a {
        return Err(RomError::NotAnImage);
    }
    let patched: Vec<u8> = match replace_dxe_core(rom, pe) {
        Ok(patched) => patched,
        Err(error) => {
            return Err(error);
        },
    };
    let carried: Vec<u8> = match extract(&patched) {
        Ok(carried) => carried,
        Err(error) => {
            return Err(error);
        },
    };
    if !same_bytes(&carried, pe) {
        return Err(RomError::ReadBack);
    }
    Ok(patched)
}

/// A rebuilt file header is consistent: the size field holds the file's size, the
/// header sums to zero as `GenFfs` counts it, the state is valid, and the second
/// checksum covers the body or is the fixed one, as the attributes say.
pub proof fn law_file_header_is_consistent(original: Seq<u8>, body: Seq<u8>)
    requires
        original.len() == FFS_HEADER_SIZE,
        FFS_HEADER_SIZE + body.len() <= MAX_SIZE,
    ensures
        ({
            let h = ffs_header(original, body);
            &&& h.len() == FFS_HEADER_SIZE
            &&& le_at(h, 20, 3) == FFS_HEADER_SIZE + body.len()
            &&& h[16] == check8(without_checks(h))
            &&& h[17] == if (original[19] / 0x40) % 2 == 1 {
                check8(body)
            } else {
                FFS_FIXED_CHECKSUM as int
            }
            &&& h[23] == FFS_STATE_VALID
            &&& h.subrange(0, 16) == original.subrange(0, 16)
        }),
{
    let n = FFS_HEADER_SIZE as nat + body.len();
    lemma_le_bytes_len(n, 3);
    lemma_widths();
    lemma_le_value_of_bytes(n, 3);
    let h = ffs_header(original, body);
    assert(h.subrange(20, 23) =~= le_bytes(n, 3));
    let sized = put(original, 20, le_bytes(n, 3));
    let checked = sized.update(
        17,
        if (sized[19] / 0x40) % 2 == 1 {
            check8(body) as u8
        } else {
            FFS_FIXED_CHECKSUM
        },
    ).update(23, FFS_STATE_VALID);
    assert(without_checks(h) =~= without_checks(checked));
    assert(h.subrange(0, 16) =~= original.subrange(0, 16));
}

/// A rebuilt volume header is consistent: the length field holds the length, and
/// the header's checksum matches what a volume is recognised by.
pub proof fn law_volume_header_is_consistent(header: Seq<u8>, length: nat)
    requires
        header.len() >= 52,
        length <= u64::MAX,
    ensures
        ({
            let h = relength(header, length);
            &&& h.len() == header.len()
            &&& le_at(h, 32, 8) == length
            &&& check16(h) == le_at(h, 50, 2)
        }),
{
    lemma_le_bytes_len(length, 8);
    lemma_widths();
    lemma_le_value_of_bytes(length, 8);
    let sized = put(header, 32, le_bytes(length, 8));
    let sum = check16(sized) as nat;
    lemma_le_bytes_len(sum, 2);
    lemma_le_value_of_bytes(sum, 2);
    let h = relength(header, length);
    assert(h.subrange(32, 40) =~= le_bytes(length, 8));
    assert(h.subrange(50, 52) =~= le_bytes(sum, 2));
    assert(put(h, 50, fill(2, 0)) =~= put(sized, 50, fill(2, 0)));
}

/// The name of a section type; `None` for one without a name.
pub open spec fn section_name(section_type: u8) -> Option<Seq<char>> {
    if section_type == 0x01 {
        Some("compression"@)
    } else if section_type == 0x02 {
        Some("guided"@)
    } else if section_type == 0x13 {
        Some("dependency"@)
    } else if section_type == 0x14 {
        Some("version"@)
    } else if section_type == 0x15 {
        Some("user interface"@)
    } else if section_type == 0x16 {
        Some("compat16"@)
    } else if section_type == 0x17 {
        Some("volume image"@)
    } else if section_type == 0x18 {
        Some("freeform"@)
    } else if section_type == 0x19 {
        Some("raw"@)
    } else if section_type == 0x10 {
        Some("PE32"@)
    } else if section_type == 0x1b {
        Some("PE32+"@)
    } else {
        None
    }
}

/// The name of a file type; `None` for one without a name.
pub open spec fn file_name(file_type: u8) -> Option<Seq<char>> {
    if file_type == 0x01 {
        Some("raw"@)
    } else if file_type == 0x02 {
        Some("freeform"@)
    } else if file_type == 0x03 {
        Some("security core"@)
    } else if file_type == 0x04 {
        Some("PEI core"@)
    } else if file_type == 0x05 {
        Some("DXE core"@)
    } else if file_type == 0x06 {
        Some("PEIM"@)
    } else if file_type == 0x07 {
        Some("driver"@)
    } else if file_type == 0x09 {
        Some("application"@)
    } else if file_type == 0x0b {
        Some("volume image"@)
    } else {
        None
    }
}

/// A name, or the number of what has none.
pub open spec fn name_text(name: Option<Seq<char>>, value: u8) -> Seq<char> {
    match name {
        Some(name) => name,
        None => "type 0x"@ + hex_digits(value as nat, 2),
    }
}

fn section_type_name(section_type: u8) -> (name: Option<&'static str>)
    ensures
        match name {
            Some(name) => section_name(section_type) == Some(name@),
            None => section_name(section_type) is None,
        },
{
    match section_type {
        0x01 => Some("compression"),
        0x02 => Some("guided"),
        0x13 => Some("dependency"),
        0x14 => Some("version"),
        0x15 => Some("user interface"),
        0x16 => Some("compat16"),
        0x17 => Some("volume image"),
        0x18 => Some("freeform"),
        0x19 => Some("raw"),
        0x10 => Some("PE32"),
        0x1b => Some("PE32+"),
        _ => None,
    }
}

fn file_type_name(file_type: u8) -> (name: Option<&'static str>)
    ensures
        match name {
            Some(name) => file_name(file_type) == Some(name@),
            None => file_name(file_type) is None,
        },
{
    match file_type {
        0x01 => Some("raw"),
        0x02 => Some("freeform"),
        0x03 => Some("security core"),
        0x04 => Some("PEI core"),
        0x05 => Some("DXE core"),
        0x06 => Some("PEIM"),
        0x07 => Some("driver"),
        0x09 => Some("application"),
        0x0b => Some("volume image"),
        _ => None,
    }
}

/// Appends a name, or the number of what has none.
fn name_of(out: &mut String, name: Option<&'static str>, value: u8)
    ensures
        final(out)@ == old(out)@ + name_text(
            match name {
                Some(name) => Some(name@),
                None => None,
            },
            value,
        ),
{
    match name {
        Some(name) => {
            out.append(name);
        },
        None => {
            out.append("type 0x");
            push_hex_digits(out, value as u64, 2);
        },
    }
    assert(out@ =~= old(out)@ + name_text(
        match name {
            Some(name) => Some(name@),
            None => None,
        },
        value,
    ));
}

/// The line of a section, and a line of its GUID when it is guided.
pub open spec fn section_lines(d: Seq<u8>, s: Section) -> Seq<char> {
    "    section at "@ + hex_text(s.offset as nat) + ": "@ + decimal_text(s.size as nat)
        + " bytes, "@ + name_text(section_name(s.section_type), s.section_type) + "\n"@ + (
    if s.section_type == TYPE_GUID_DEFINED {
        "      compression: "@ + guid_text(d.subrange(s.offset + 4, s.offset + 20)) + "\n"@
    } else {
        Seq::empty()
    })
}

/// The line of a file.
pub open spec fn file_line(d: Seq<u8>, f: FfsFile) -> Seq<char> {
    "  file at "@ + hex_text(f.offset as nat) + ": "@ + decimal_text(f.size as nat) + " bytes, "@
        + name_text(file_name(f.file_type), f.file_type) + ", "@ + guid_text(
        d.subrange(f.offset as int, f.offset + 16),
    ) + "\n"@
}

/// The line of a volume.
pub open spec fn volume_line(v: Volume, block: int) -> Seq<char> {
    "volume at "@ + hex_text(v.base as nat) + ": "@ + decimal_text(v.length as nat) + " bytes, "@
        + decimal_text(v.header_length as nat) + "-byte header, block "@ + hex_text(block as nat)
        + "\n"@
}

/// The lines of sections in order; a guided section whose GUID runs past the
/// image cannot be listed.
pub open spec fn sections_text(d: Seq<u8>, sections: Seq<Section>) -> Result<Seq<char>, RomError>
    decreases sections.len(),
{
    if sections.len() == 0 {
        Ok(Seq::empty())
    } else {
        let s = sections.last();
        match sections_text(d, sections.drop_last()) {
            Err(error) => Err(error),
            Ok(before) => if s.section_type == TYPE_GUID_DEFINED && s.offset + 20 > d.len() {
                Err(RomError::Truncated((s.offset + 4) as usize))
            } else {
                Ok(before + section_lines(d, s))
            },
        }
    }
}

/// The lines of files and their sections in order.
pub open spec fn files_text(d: Seq<u8>, files: Seq<FfsFile>) -> Result<Seq<char>, RomError>
    decreases files.len(),
{
    if files.len() == 0 {
        Ok(Seq::empty())
    } else {
        let f = files.last();
        match files_text(d, files.drop_last()) {
            Err(error) => Err(error),
            Ok(before) => match sections_of(d, f) {
                Err(error) => Err(RomError::Ffs(error)),
                Ok(sections) => match sections_text(d, sections) {
                    Err(error) => Err(error),
                    Ok(lines) => Ok(before + file_line(d, f) + lines),
                },
            },
        }
    }
}

/// The lines of volumes, their files and sections in order.
pub open spec fn volumes_text(d: Seq<u8>, found: Seq<Volume>) -> Result<Seq<char>, RomError>
    decreases found.len(),
{
    if found.len() == 0 {
        Ok(Seq::empty())
    } else {
        let v = found.last();
        match volumes_text(d, found.drop_last()) {
            Err(error) => Err(error),
            Ok(before) => match block_size_from(d.subrange(v.base as int, d.len() as int), 56) {
                Err(error) => Err(error),
                Ok(block) => match files_of(d, v) {
                    Err(error) => Err(RomError::Ffs(error)),
                    Ok(files) => match files_text(d, files) {
                        Err(error) => Err(error),
                        Ok(lines) => Ok(before + volume_line(v, block) + lines),
                    },
                },
            },
        }
    }
}

/// The line of the DXE core.
pub open spec fn core_line(core: DxeCoreView) -> Seq<char> {
    "DXE core: "@ + decimal_text((core.pe.size - SECTION_HEADER_SIZE) as nat)
        + " bytes of PE image at "@ + hex_text(core.pe.offset as nat) + " in a "@ + decimal_text(
        core.inner.length as nat,
    ) + "-byte volume, wrapped in "@ + decimal_text(
        (core.section.size - GUIDED_HEADER_SIZE) as nat,
    ) + " bytes of LZMA\n"@
}

proof fn lemma_joined(x: Seq<char>, y: Seq<char>, z: Seq<char>)
    ensures
        (x + y) + z == x + (y + z),
{
    assert((x + y) + z =~= x + (y + z));
}

/// The line of a section, and a line of its GUID when it is guided.
fn write_section(rom: &[u8], section: &Section) -> (lines: String)
    requires
        section_inside(rom@, *section),
        section.section_type == TYPE_GUID_DEFINED ==> section.offset + 20 <= rom@.len(),
    ensures
        lines@ == section_lines(rom@, *section),
{
    let total: usize = rom.len();
    let mut lines: String = String::from_str("    section at ");
    push_hex(&mut lines, section.offset as u64);
    lines.append(": ");
    push_decimal(&mut lines, section.size as u64);
    lines.append(" bytes, ");
    name_of(&mut lines, section_type_name(section.section_type), section.section_type);
    lines.append("\n");
    if section.section_type == TYPE_GUID_DEFINED {
        let mut more: String = String::from_str("      compression: ");
        let guid: Vec<u8> = copy_range(rom, section.offset + 4, section.offset + 20);
        push_guid(&mut more, &guid);
        more.append("\n");
        lines.append(more.as_str());
    } else {
        assert(lines@ + Seq::<char>::empty() =~= lines@);
    }
    lines
}

/// The line of a file.
fn write_file(rom: &[u8], file: &FfsFile) -> (line: String)
    requires
        file_inside(rom@, *file),
    ensures
        line@ == file_line(rom@, *file),
{
    let total: usize = rom.len();
    let mut line: String = String::from_str("  file at ");
    push_hex(&mut line, file.offset as u64);
    line.append(": ");
    push_decimal(&mut line, file.size as u64);
    line.append(" bytes, ");
    name_of(&mut line, file_type_name(file.file_type), file.file_type);
    line.append(", ");
    let name: Vec<u8> = copy_range(rom, file.offset, file.offset + 16);
    push_guid(&mut line, &name);
    line.append("\n");
    line
}

/// The line of a volume.
fn write_volume(volume: &Volume, block: u32) -> (line: String)
    ensures
        line@ == volume_line(*volume, block as int),
{
    let mut line: String = String::from_str("volume at ");
    push_hex(&mut line, volume.base as u64);
    line.append(": ");
    push_decimal(&mut line, volume.length as u64);
    line.append(" bytes, ");
    push_decimal(&mut line, volume.header_length as u64);
    line.append("-byte header, block ");
    push_hex(&mut line, block as u64);
    line.append("\n");
    line
}

/// The line of the DXE core.
fn write_core(core: &DxeCore) -> (line: String)
    requires
        core.pe.size >= SECTION_HEADER_SIZE,
        core.section.size >= GUIDED_HEADER_SIZE,
    ensures
        line@ == core_line(core@),
{
    let mut line: String = String::from_str("DXE core: ");
    push_decimal(&mut line, (core.pe.size - SECTION_HEADER_SIZE) as u64);
    line.append(" bytes of PE image at ");
    push_hex(&mut line, core.pe.offset as u64);
    line.append(" in a ");
    push_decimal(&mut line, core.inner.length as u64);
    line.append("-byte volume, wrapped in ");
    push_decimal(&mut line, (core.section.size - GUIDED_HEADER_SIZE) as u64);
    line.append(" bytes of LZMA\n");
    line
}

/// Appends the lines of the sections of a file.
fn dump_sections(rom: &[u8], sections: &Vec<Section>, out: &mut String) -> (listed: Result<
    (),
    RomError,
>)
    requires
        forall|i: int|
            0 <= i < sections@.len() ==> section_inside(rom@, #[trigger] sections@[i]),
    ensures
        match sections_text(rom@, sections@) {
            Ok(lines) => listed is Ok && final(out)@ == old(out)@ + lines,
            Err(error) => listed == Err::<(), RomError>(error),
        },
{
    let total: usize = rom.len();
    let ghost before = out@;
    let mut next: usize = 0;
    assert(sections@.subrange(0, 0) =~= Seq::<Section>::empty());
    assert(out@ =~= before + Seq::<char>::empty());
    while next < sections.len()
        invariant
            next <= sections@.len(),
            total == rom@.len(),
            before == old(out)@,
            forall|i: int|
                0 <= i < sections@.len() ==> section_inside(rom@, #[trigger] sections@[i]),
            sections_text(rom@, sections@.subrange(0, next as int)) is Ok,
            out@ == before + sections_text(rom@, sections@.subrange(0, next as int))->Ok_0,
        decreases sections@.len() - next,
    {
        let section: Section = sections[next];
        proof {
            let more = sections@.subrange(0, next + 1);
            assert(more.drop_last() =~= sections@.subrange(0, next as int));
            assert(more.last() == section);
            assert(section_inside(rom@, sections@[next as int]));
        }
        if section.section_type == TYPE_GUID_DEFINED && total - section.offset < 20 {
            proof {
                lemma_sections_stop(rom@, sections@, next + 1);
            }
            return Err(RomError::Truncated(section.offset + 4));
        }
        let lines: String = write_section(rom, &section);
        out.append(lines.as_str());
        proof {
            let text = sections_text(rom@, sections@.subrange(0, next as int))->Ok_0;
            lemma_joined(before, text, lines@);
        }
        next = next + 1;
    }
    assert(sections@.subrange(0, next as int) =~= sections@);
    Ok(())
}

proof fn lemma_sections_stop(d: Seq<u8>, sections: Seq<Section>, k: int)
    requires
        0 <= k <= sections.len(),
        sections_text(d, sections.subrange(0, k)) is Err,
    ensures
        sections_text(d, sections) == sections_text(d, sections.subrange(0, k)),
    decreases sections.len() - k,
{
    if k < sections.len() {
        assert(sections.subrange(0, k + 1).drop_last() =~= sections.subrange(0, k));
        lemma_sections_stop(d, sections, k + 1);
    } else {
        assert(sections.subrange(0, k) =~= sections);
    }
}

proof fn lemma_files_stop(d: Seq<u8>, files: Seq<FfsFile>, k: int)
    requires
        0 <= k <= files.len(),
        files_text(d, files.subrange(0, k)) is Err,
    ensures
        files_text(d, files) == files_text(d, files.subrange(0, k)),
    decreases files.len() - k,
{
    if k < files.len() {
        assert(files.subrange(0, k + 1).drop_last() =~= files.subrange(0, k));
        lemma_files_stop(d, files, k + 1);
    } else {
        assert(files.subrange(0, k) =~= files);
    }
}

proof fn lemma_volumes_stop(d: Seq<u8>, found: Seq<Volume>, k: int)
    requires
        0 <= k <= found.len(),
        volumes_text(d, found.subrange(0, k)) is Err,
    ensures
        volumes_text(d, found) == volumes_text(d, found.subrange(0, k)),
    decreases found.len() - k,
{
    if k < found.len() {
        assert(found.subrange(0, k + 1).drop_last() =~= found.subrange(0, k));
        lemma_volumes_stop(d, found, k + 1);
    } else {
        assert(found.subrange(0, k) =~= found);
    }
}

/// Appends the lines of the files of a volume.
fn dump_files(rom: &[u8], files: &Vec<FfsFile>, out: &mut String) -> (listed: Result<(), RomError>)
    requires
        forall|i: int| 0 <= i < files@.len() ==> file_inside(rom@, #[trigger] files@[i]),
    ensures
        match files_text(rom@, files@) {
            Ok(lines) => listed is Ok && final(out)@ == old(out)@ + lines,
            Err(error) => listed == Err::<(), RomError>(error),
        },
{
    let total: usize = rom.len();
    let ghost before = out@;
    let mut next: usize = 0;
    assert(files@.subrange(0, 0) =~= Seq::<FfsFile>::empty());
    assert(out@ =~= before + Seq::<char>::empty());
    while next < files.len()
        invariant
            next <= files@.len(),
            total == rom@.len(),
            before == old(out)@,
            forall|i: int| 0 <= i < files@.len() ==> file_inside(rom@, #[trigger] files@[i]),
            files_text(rom@, files@.subrange(0, next as int)) is Ok,
            out@ == before + files_text(rom@, files@.subrange(0, next as int))->Ok_0,
        decreases files@.len() - next,
    {
        let file: FfsFile = files[next];
        proof {
            let more = files@.subrange(0, next + 1);
            assert(more.drop_last() =~= files@.subrange(0, next as int));
            assert(more.last() == file);
            assert(file_inside(rom@, files@[next as int]));
        }
        let line: String = write_file(rom, &file);
        out.append(line.as_str());
        let sections: Vec<Section> = match sections_in(rom, &file) {
            Ok(sections) => sections,
            Err(error) => {
                proof {
                    lemma_files_stop(rom@, files@, next + 1);
                }
                return Err(RomError::Ffs(error));
            },
        };
        match dump_sections(rom, &sections, out) {
            Ok(()) => {},
            Err(error) => {
                proof {
                    lemma_files_stop(rom@, files@, next + 1);
                }
                return Err(error);
            },
        }
        proof {
            let text = files_text(rom@, files@.subrange(0, next as int))->Ok_0;
            let lines = sections_text(rom@, sections@)->Ok_0;
            lemma_joined(before, text, line@);
            lemma_joined(before, text + line@, lines);
        }
        next = next + 1;
    }
    assert(files@.subrange(0, next as int) =~= files@);
    Ok(())
}

/// Why a listing stopped: at damage, or because no usable DXE core follows it.
pub enum DumpError {
    /// The image cannot be listed.
    Damaged(RomError),
    /// The image was listed as given, but its DXE core is not usable.
    NoCore(String, RomError),
}

/// The listing of an image's volumes.
pub open spec fn listing(rom: Seq<u8>) -> Result<Seq<char>, RomError> {
    match volumes_text(rom, volumes_of(rom)) {
        Err(error) => Err(error),
        Ok(lines) => Ok("image: "@ + decimal_text(rom.len()) + " bytes\n"@ + lines),
    }
}

/// Lists what an image holds.
pub fn dump(rom: &[u8]) -> (text: Result<String, DumpError>)
    ensures
        match listing(rom@) {
            Err(error) => text == Err::<String, DumpError>(DumpError::Damaged(error)),
            Ok(lines) => match located(rom@) {
                Ok(core) => text matches Ok(text) && text@ == lines + core_line(core),
                Err(error) => text matches Err(DumpError::NoCore(text, found)) && text@ == lines
                    && found == error,
            },
        },
{
    let total: usize = rom.len();
    let mut out: String = String::from_str("image: ");
    push_decimal(&mut out, total as u64);
    out.append(" bytes\n");
    let ghost head = "image: "@ + decimal_text(rom@.len()) + " bytes\n"@;
    let found: Vec<Volume> = volumes(rom);
    let mut next: usize = 0;
    assert(found@.subrange(0, 0) =~= Seq::<Volume>::empty());
    assert(out@ =~= head + Seq::<char>::empty());
    while next < found.len()
        invariant
            next <= found@.len(),
            total == rom@.len(),
            found@ == volumes_of(rom@),
            forall|i: int| 0 <= i < found@.len() ==> volume_inside(rom@, #[trigger] found@[i]),
            volumes_text(rom@, found@.subrange(0, next as int)) is Ok,
            out@ == head + volumes_text(rom@, found@.subrange(0, next as int))->Ok_0,
        decreases found@.len() - next,
    {
        let volume: Volume = found[next];
        proof {
            let more = found@.subrange(0, next + 1);
            assert(more.drop_last() =~= found@.subrange(0, next as int));
            assert(more.last() == volume);
            assert(volume_inside(rom@, found@[next as int]));
        }
        let bytes: Vec<u8> = copy_range(rom, volume.base, total);
        let block: u32 = match block_size(&bytes) {
            Ok(block) => block,
            Err(error) => {
                proof {
                    lemma_volumes_stop(rom@, found@, next + 1);
                }
                return Err(DumpError::Damaged(error));
            },
        };
        let line: String = write_volume(&volume, block);
        out.append(line.as_str());
        let files: Vec<FfsFile> = match files_in(rom, &volume) {
            Ok(files) => files,
            Err(error) => {
                proof {
                    lemma_volumes_stop(rom@, found@, next + 1);
                }
                return Err(DumpError::Damaged(RomError::Ffs(error)));
            },
        };
        match dump_files(rom, &files, &mut out) {
            Ok(()) => {},
            Err(error) => {
                proof {
                    lemma_volumes_stop(rom@, found@, next + 1);
                }
                return Err(DumpError::Damaged(error));
            },
        }
        proof {
            let text = volumes_text(rom@, found@.subrange(0, next as int))->Ok_0;
            let lines = files_text(rom@, files@)->Ok_0;
            lemma_joined(head, text, line@);
            lemma_joined(head, text + line@, lines);
        }
        next = next + 1;
    }
    assert(found@.subrange(0, next as int) =~= found@);
    let ghost lines = out@;
    let core: DxeCore = match locate(rom) {
        Ok(core) => core,
        Err(error) => {
            return Err(DumpError::NoCore(out, error));
        },
    };
    let line: String = write_core(&core);
    out.append(line.as_str());
    Ok(out)
}

/// What the command line asks for.
pub struct Arguments {
    pub rom: String,
    pub pe: Option<String>,
    pub out: Option<String>,
    pub extract: Option<String>,
    pub dump: bool,
}

/// What the command line asks for.
#[verifier::ext_equal]
pub struct ArgumentsView {
    pub rom: Seq<char>,
    pub pe: Option<Seq<char>>,
    pub out: Option<Seq<char>>,
    pub extract: Option<Seq<char>>,
    pub dump: bool,
}

impl Arguments {
    pub open spec fn view(&self) -> ArgumentsView {
        ArgumentsView {
            rom: self.rom@,
            pe: text_of(self.pe),
            out: text_of(self.out),
            extract: text_of(self.extract),
            dump: self.dump,
        }
    }
}

/// Why the command line cannot be followed.
#[derive(Clone, Copy, PartialEq, Eq, Structural, Debug)]
pub enum ArgumentError {
    /// The argument at this position needs a value.
    NeedsValue(usize),
    /// The argument at this position is unknown.
    Unknown(usize),
    /// The usage was asked for.
    Help,
    /// `--rom` is required.
    NoRom,
    /// `--pe` and `--out` are required.
    NoPeOrOut,
}

/// The arguments from `at` on, added to those before.
pub open spec fn parsed_from(args: Seq<Seq<char>>, at: int, acc: ArgumentsView) -> Result<
    ArgumentsView,
    ArgumentError,
>
    decreases args.len() - at,
{
    if at >= args.len() {
        Ok(acc)
    } else {
        let a = args[at];
        if a == "--dump"@ {
            parsed_from(args, at + 1, ArgumentsView { dump: true, ..acc })
        } else if a == "--help"@ || a == "-h"@ {
            Err(ArgumentError::Help)
        } else if a == "--rom"@ || a == "--pe"@ || a == "--out"@ || a == "--extract"@ {
            if at + 1 >= args.len() {
                Err(ArgumentError::NeedsValue(at as usize))
            } else {
                let value = args[at + 1];
                let next = if a == "--rom"@ {
                    ArgumentsView { rom: value, ..acc }
                } else if a == "--pe"@ {
                    ArgumentsView { pe: Some(value), ..acc }
                } else if a == "--out"@ {
                    ArgumentsView { out: Some(value), ..acc }
                } else {
                    ArgumentsView { extract: Some(value), ..acc }
                };
                parsed_from(args, at + 2, next)
            }
        } else {
            Err(ArgumentError::Unknown(at as usize))
        }
    }
}

/// What a command line asks for: a ROM, and to dump it, to extract its DXE core,
/// or to replace it.
pub open spec fn parsed(args: Seq<Seq<char>>) -> Result<ArgumentsView, ArgumentError> {
    let none = ArgumentsView {
        rom: Seq::empty(),
        pe: None,
        out: None,
        extract: None,
        dump: false,
    };
    match parsed_from(args, 0, none) {
        Err(error) => Err(error),
        Ok(found) => if found.rom.len() == 0 {
            Err(ArgumentError::NoRom)
        } else if !found.dump && found.extract is None && (found.pe is None || found.out is None) {
            Err(ArgumentError::NoPeOrOut)
        } else {
            Ok(found)
        },
    }
}

/// Reads the command line.
pub fn parse_arguments(args: &Vec<String>) -> (arguments: Result<Arguments, ArgumentError>)
    ensures
        match arguments {
            Ok(arguments) => parsed(texts(args@)) == Ok::<ArgumentsView, ArgumentError>(arguments@),
            Err(error) => parsed(texts(args@)) == Err::<ArgumentsView, ArgumentError>(error),
        },
{
    let mut found = Arguments {
        rom: String::new(),
        pe: None,
        out: None,
        extract: None,
        dump: false,
    };
    let ghost all = texts(args@);
    assert(found@ =~= (ArgumentsView {
        rom: Seq::empty(),
        pe: None,
        out: None,
        extract: None,
        dump: false,
    }));
    let mut at: usize = 0;
    let ghost start = found@;
    while at < args.len()
        invariant
            at <= args@.len(),
            all == texts(args@),
            parsed_from(all, 0, start) == parsed_from(all, at as int, found@),
            start == (ArgumentsView {
                rom: Seq::empty(),
                pe: None,
                out: None,
                extract: None,
                dump: false,
            }),
        decreases args@.len() - at,
    {
        let argument: &str = args[at].as_str();
        assert(all[at as int] == argument@);
        if same_text(argument, "--dump") {
            found.dump = true;
            at = at + 1;
        } else if same_text(argument, "--help") || same_text(argument, "-h") {
            return Err(ArgumentError::Help);
        } else {
            let rom: bool = same_text(argument, "--rom");
            let pe: bool = same_text(argument, "--pe");
            let out: bool = same_text(argument, "--out");
            let extract: bool = same_text(argument, "--extract");
            if !rom && !pe && !out && !extract {
                return Err(ArgumentError::Unknown(at));
            }
            if at + 1 >= args.len() {
                return Err(ArgumentError::NeedsValue(at));
            }
            let value: String = args[at + 1].clone();
            assert(all[at + 1] == value@);
            if rom {
                found.rom = value;
            } else if pe {
                found.pe = Some(value);
            } else if out {
                found.out = Some(value);
            } else {
                found.extract = Some(value);
            }
            at = at + 2;
        }
    }
    let empty: String = String::new();
    if found.rom == empty {
        assert(found.rom@.len() == 0);
        return Err(ArgumentError::NoRom);
    }
    proof {
        if found.rom@.len() == 0 {
            assert(found.rom@ =~= Seq::<char>::empty());
        }
    }
    if !found.dump && found.extract.is_none() && (found.pe.is_none() || found.out.is_none()) {
        return Err(ArgumentError::NoPeOrOut);
    }
    Ok(found)
}

} // verus!
