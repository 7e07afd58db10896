//! What replacing the DXE core leaves of a ROM: every other file of the inner volume, byte
//! for byte and in its place, and every byte of the ROM outside the file that carries it.
use crate::bytes::{
    fill, le_at, le_bytes, lemma_inner, lemma_le_bytes_len, lemma_le_value_of_bytes, lemma_widths,
    put,
};
use crate::seqs::{first, lemma_first_is};
use crate::tools::ffs::{
    check16, files_from, files_of, is_free, lemma_u24, round8, sections_from, sections_of,
    volume_at, volumes_below, volumes_of, FfsError, FfsFile, Section, Volume, FFS_HEADER_SIZE,
    MAX_SIZE, SECTION_HEADER_SIZE, TYPE_DXE_CORE,
};
use crate::tools::rompatch::{
    block_size_from, ffs_bytes, ffs_header, filled8, found_core, holds_core,
    law_file_header_is_consistent, law_volume_header_is_consistent, located, lzma_decoded,
    lzma_encoded, lzma_section_bytes, rebuilt_blob, rebuilt_files, relength, replaced,
    search_files, search_volumes, section_bytes, unpacked, whole_blocks, with_stream, DxeCoreView,
    FoundView, RomError, DXE_CORE_FV_GUID, GUIDED_HEADER_SIZE, LZMA_GUID, PRESET, TYPE_FV_IMAGE,
    TYPE_GUID_DEFINED,
};
use vstd::prelude::*;

verus! {

/// What is known of the files of a volume, from the walk that lists them.
proof fn lemma_walked(d: Seq<u8>, offset: int, end: int)
    requires
        0 <= offset,
        end <= d.len() <= usize::MAX,
    ensures
        files_from(d, offset, end) matches Ok(fs) ==> {
            &&& forall|i: int|
                0 <= i < fs.len() ==> is_file(d, #[trigger] fs[i], end) && offset <= fs[i].offset
            &&& forall|i: int, j: int|
                0 <= i < j < fs.len() ==> (#[trigger] fs[i]).offset < (#[trigger] fs[j]).offset
        },
    decreases end + 8 - offset,
{
    let size = le_at(d, offset + 20, 3) as int;
    if files_from(d, offset, end) is Ok && offset + FFS_HEADER_SIZE <= end && !is_free(
        d.subrange(offset, offset + 16),
    ) {
        lemma_u24(d, offset + 20);
        lemma_walked(d, offset + round8(size), end);
        let fs = files_from(d, offset, end)->Ok_0;
        let rest = files_from(d, offset + round8(size), end)->Ok_0;
        assert forall|i: int| 0 <= i < fs.len() implies is_file(d, #[trigger] fs[i], end) && offset
            <= fs[i].offset by {
            if i > 0 {
                assert(fs[i] == rest[i - 1]);
            }
        }
        assert forall|i: int, j: int| 0 <= i < j < fs.len() implies (#[trigger] fs[i]).offset < (
        #[trigger] fs[j]).offset by {
            assert(fs[j] == rest[j - 1]);
            if i > 0 {
                assert(fs[i] == rest[i - 1]);
            }
        }
    }
}

/// Whether a file is what the bytes at its offset say, and ends by `end`.
pub open spec fn is_file(d: Seq<u8>, f: FfsFile, end: int) -> bool {
    &&& f.size == le_at(d, f.offset + 20, 3)
    &&& FFS_HEADER_SIZE <= f.size <= MAX_SIZE
    &&& f.offset + f.size <= end
    &&& f.file_type == d[f.offset + 18]
    &&& !is_free(d.subrange(f.offset as int, f.offset + 16))
}

/// The bytes of a file.
pub open spec fn bytes_of(d: Seq<u8>, f: FfsFile) -> Seq<u8> {
    d.subrange(f.offset as int, f.offset + f.size)
}

/// What stands for a file in the rebuilt volume.
spec fn piece(blob: Seq<u8>, f: FfsFile, core: usize, rebuilt: Seq<u8>) -> Seq<u8> {
    if f.offset == core {
        rebuilt
    } else {
        bytes_of(blob, f)
    }
}

/// The rebuilt files up to `n`.
spec fn front(blob: Seq<u8>, files: Seq<FfsFile>, core: usize, rebuilt: Seq<u8>, n: int) -> Seq<u8> {
    rebuilt_files(blob, files.subrange(0, n), core, rebuilt)
}

/// The first files are the same however many follow, and end at a multiple of eight.
proof fn lemma_front(blob: Seq<u8>, files: Seq<FfsFile>, core: usize, rebuilt: Seq<u8>, n: int, m: int)
    requires
        0 <= n <= m <= files.len(),
    ensures
        ({
            let x = front(blob, files, core, rebuilt, n);
            let y = front(blob, files, core, rebuilt, m);
            &&& x.len() <= y.len()
            &&& x.len() % 8 == 0
            &&& y.subrange(0, x.len() as int) == x
        }),
    decreases m - n, n,
{
    let x = front(blob, files, core, rebuilt, n);
    let y = front(blob, files, core, rebuilt, m);
    if n < m {
        lemma_front(blob, files, core, rebuilt, n, m - 1);
        let z = front(blob, files, core, rebuilt, m - 1);
        assert(files.subrange(0, m).drop_last() =~= files.subrange(0, m - 1));
        assert(files.subrange(0, m).last() == files[m - 1]);
        assert(y.subrange(0, x.len() as int) =~= z.subrange(0, x.len() as int));
    } else {
        assert(y.subrange(0, x.len() as int) =~= x);
        if n > 0 {
            assert(files.subrange(0, n).drop_last() =~= files.subrange(0, n - 1));
            assert(files.subrange(0, n).last() == files[n - 1]);
        }
    }
}

/// Bytes behind others that end at a multiple of eight, filled up to the next.
proof fn lemma_filled_behind(before: Seq<u8>, own: Seq<u8>)
    requires
        before.len() % 8 == 0,
    ensures
        ({
            let at = before.len() as int;
            let next = filled8(before + own);
            &&& next.len() == at + round8(own.len() as int)
            &&& at + own.len() <= next.len()
            &&& next.subrange(at, at + own.len()) == own
        }),
{
    let at = before.len() as int;
    assert(filled8(before + own).subrange(at, at + own.len()) =~= own);
}

/// Each file is behind the ones before it, and the next one at the next multiple of eight.
proof fn lemma_piece(blob: Seq<u8>, files: Seq<FfsFile>, core: usize, rebuilt: Seq<u8>, i: int)
    requires
        0 <= i < files.len(),
    ensures
        ({
            let at = front(blob, files, core, rebuilt, i).len() as int;
            let own = piece(blob, files[i], core, rebuilt);
            let next = front(blob, files, core, rebuilt, i + 1);
            let whole = rebuilt_files(blob, files, core, rebuilt);
            &&& next.len() == at + round8(own.len() as int)
            &&& at + own.len() <= whole.len()
            &&& next.len() <= whole.len()
            &&& whole.subrange(at, at + own.len()) == own
        }),
{
    let at = front(blob, files, core, rebuilt, i).len() as int;
    let own = piece(blob, files[i], core, rebuilt);
    let next = front(blob, files, core, rebuilt, i + 1);
    let whole = rebuilt_files(blob, files, core, rebuilt);
    lemma_front(blob, files, core, rebuilt, i, i);
    lemma_front(blob, files, core, rebuilt, i + 1, files.len() as int);
    assert(files.subrange(0, files.len() as int) =~= files);
    assert(files.subrange(0, i + 1).drop_last() =~= files.subrange(0, i));
    assert(files.subrange(0, i + 1).last() == files[i]);
    assert(next == filled8(front(blob, files, core, rebuilt, i) + own));
    lemma_filled_behind(front(blob, files, core, rebuilt, i), own);
    lemma_inner(whole, 0, next.len() as int, at, at + own.len());
}

/// Whether bytes are those of a file.
spec fn is_whole_file(s: Seq<u8>) -> bool {
    FFS_HEADER_SIZE <= s.len() <= MAX_SIZE && le_at(s, 20, 3) == s.len() && !is_free(
        s.subrange(0, 16),
    )
}

/// The file that stands for file `j` in the rebuilt volume, whose files start at `start`.
pub open spec fn placed(
    blob: Seq<u8>,
    files: Seq<FfsFile>,
    core: usize,
    rebuilt: Seq<u8>,
    start: int,
    j: int,
) -> FfsFile {
    FfsFile {
        offset: (start + rebuilt_files(blob, files.subrange(0, j), core, rebuilt).len()) as usize,
        size: if files[j].offset == core {
            rebuilt.len() as usize
        } else {
            files[j].size
        },
        file_type: if files[j].offset == core {
            rebuilt[18]
        } else {
            blob[files[j].offset + 18]
        },
    }
}

/// The rebuilt files are listed one after another, and nothing behind them.
proof fn lemma_listed(
    d: Seq<u8>,
    start: int,
    end: int,
    blob: Seq<u8>,
    files: Seq<FfsFile>,
    core: usize,
    rebuilt: Seq<u8>,
    i: int,
)
    requires
        0 <= i <= files.len(),
        0 <= start,
        end <= d.len() <= usize::MAX,
        blob.len() <= usize::MAX,
        ({
            let whole = rebuilt_files(blob, files, core, rebuilt);
            &&& start + whole.len() <= end
            &&& d.subrange(start, start + whole.len()) == whole
            &&& forall|p: int| start + whole.len() <= p < end ==> #[trigger] d[p] == 0xff
        }),
        forall|j: int|
            0 <= j < files.len() ==> is_whole_file(piece(blob, #[trigger] files[j], core, rebuilt)),
        forall|j: int|
            0 <= j < files.len() ==> (#[trigger] files[j]).offset + files[j].size <= blob.len()
                && files[j].size >= FFS_HEADER_SIZE,
    ensures
        ({
            let at = start + front(blob, files, core, rebuilt, i).len();
            files_from(d, at, end) == Ok::<Seq<FfsFile>, FfsError>(
                Seq::new(
                    (files.len() - i) as nat,
                    |j: int| placed(blob, files, core, rebuilt, start, i + j),
                ),
            )
        }),
    decreases files.len() - i,
{
    let whole = rebuilt_files(blob, files, core, rebuilt);
    let at = start + front(blob, files, core, rebuilt, i).len();
    let want = Seq::new(
        (files.len() - i) as nat,
        |j: int| placed(blob, files, core, rebuilt, start, i + j),
    );
    if i == files.len() {
        assert(files.subrange(0, i) =~= files);
        if at + FFS_HEADER_SIZE <= end {
            assert(d.subrange(at, at + 16) =~= fill(16, 0xff));
        }
        assert(want =~= Seq::<FfsFile>::empty());
    } else {
        let own = piece(blob, files[i], core, rebuilt);
        lemma_piece(blob, files, core, rebuilt, i);
        lemma_listed(d, start, end, blob, files, core, rebuilt, i + 1);
        let p = front(blob, files, core, rebuilt, i).len() as int;
        assert(d.subrange(at, at + own.len()) =~= d.subrange(start, start + whole.len()).subrange(
            p,
            p + own.len(),
        ));
        assert(d.subrange(at, at + own.len()) == own);
        assert(is_whole_file(piece(blob, files[i], core, rebuilt)));
        assert(d.subrange(at + 20, at + 23) =~= own.subrange(20, 23));
        assert(d.subrange(at, at + 16) =~= own.subrange(0, 16));
        assert(d[at + 18] == d.subrange(at, at + own.len())[18]);
        let rest = Seq::new(
            (files.len() - i - 1) as nat,
            |j: int| placed(blob, files, core, rebuilt, start, i + 1 + j),
        );
        let one = placed(blob, files, core, rebuilt, start, i);
        assert(files[i].offset + files[i].size <= blob.len());
        assert(want =~= seq![one] + rest);
    }
}

/// A volume that is listed is at its base.
proof fn lemma_volume_is_at(d: Seq<u8>, n: int, i: int)
    requires
        0 <= i < volumes_below(d, n).len(),
        n <= d.len() <= usize::MAX,
    ensures
        volume_at(d, volumes_below(d, n)[i].base as int) == Some(volumes_below(d, n)[i]),
        volumes_below(d, n)[i].base < n,
    decreases n,
{
    if n > 0 {
        match volume_at(d, n - 1) {
            Some(volume) => {
                if i < volumes_below(d, n - 1).len() {
                    assert(volumes_below(d, n)[i] == volumes_below(d, n - 1)[i]);
                    lemma_volume_is_at(d, n - 1, i);
                }
            },
            None => {
                lemma_volume_is_at(d, n - 1, i);
            },
        }
    }
}

/// Whether decompressed content is that of a core with its image replaced, and nothing else
/// of the inner volume: a volume with as many files, each of the type it had; every file but
/// the DXE core byte for byte as it was; and the DXE core under its name, with one section,
/// of the type it had, that holds the image.
pub open spec fn keeps_files(core: DxeCoreView, image: Seq<u8>, content: Seq<u8>) -> bool {
    let v = volume_at(content, core.inner.base as int)->0;
    let old = core.inner_files;
    let now = files_of(content, v)->Ok_0;
    &&& volume_at(content, core.inner.base as int) is Some
    &&& v.header_length == core.inner.header_length
    &&& v.base + v.length == content.len()
    &&& files_of(content, v) is Ok
    &&& now.len() == old.len()
    &&& forall|i: int|
        0 <= i < old.len() ==> (#[trigger] now[i]).file_type == old[i].file_type
    &&& forall|i: int|
        0 <= i < old.len() && old[i] != core.core ==> bytes_of(content, #[trigger] now[i])
            == bytes_of(core.blob, old[i])
    &&& forall|i: int|
        0 <= i < old.len() && old[i] == core.core ==> holds_image(
            core,
            image,
            content,
            #[trigger] now[i],
        )
}

/// Whether a file has the name of the DXE core, and one section with the image.
pub open spec fn holds_image(core: DxeCoreView, image: Seq<u8>, content: Seq<u8>, f: FfsFile) -> bool {
    let from = f.offset + FFS_HEADER_SIZE;
    &&& content.subrange(f.offset as int, f.offset + 16) == core.blob.subrange(
        core.core.offset as int,
        core.core.offset + 16,
    )
    &&& sections_of(content, f) == Ok::<Seq<Section>, FfsError>(
        seq![
            Section {
                offset: from as usize,
                size: (f.size - FFS_HEADER_SIZE) as usize,
                section_type: core.pe.section_type,
            },
        ],
    )
    &&& content.subrange(from + SECTION_HEADER_SIZE, f.offset + f.size) == image
}

/// What is known of a core that was found.
pub open spec fn is_found(core: DxeCoreView) -> bool {
    &&& core.blob.len() <= usize::MAX
    &&& volume_at(core.blob, core.inner.base as int) == Some(core.inner)
    &&& files_of(core.blob, core.inner) == Ok::<Seq<FfsFile>, FfsError>(core.inner_files)
    &&& exists|k: int| 0 <= k < core.inner_files.len() && #[trigger] core.inner_files[k] == core.core
}

/// The header of a rebuilt file keeps the type.
proof fn lemma_header_type(original: Seq<u8>, body: Seq<u8>)
    requires
        original.len() == FFS_HEADER_SIZE,
        FFS_HEADER_SIZE + body.len() <= MAX_SIZE,
    ensures
        ffs_header(original, body)[18] == original[18],
{
    lemma_le_bytes_len(FFS_HEADER_SIZE as nat + body.len(), 3);
}

/// A section that fills a file is the only one in it.
proof fn lemma_one_section(d: Seq<u8>, from: int, section_type: u8, payload: Seq<u8>, head: nat)
    requires
        0 <= from,
        SECTION_HEADER_SIZE <= head,
        head + payload.len() <= MAX_SIZE,
        from + head + payload.len() <= d.len() <= usize::MAX,
        d.subrange(from, from + 3) == le_bytes(head + payload.len(), 3),
        d[from + 3] == section_type,
    ensures
        sections_from(d, from, (from + head + payload.len()) as int) == Ok::<
            Seq<Section>,
            FfsError,
        >(
            seq![
                Section {
                    offset: from as usize,
                    size: (head + payload.len()) as usize,
                    section_type,
                },
            ],
        ),
{
    let size = head + payload.len();
    lemma_widths();
    lemma_le_value_of_bytes(size, 3);
    let end = from + size;
    let one = seq![Section { offset: from as usize, size: size as usize, section_type }];
    assert(sections_from(d, from + size, end) == Ok::<Seq<Section>, FfsError>(Seq::empty()));
    assert(one + Seq::<Section>::empty() =~= one);
}

/// What stands for each file in the rebuilt volume, `file` for the DXE core, is a file of
/// its own, and the DXE core is the only one that is replaced.
spec fn pieces_are_sound(core: DxeCoreView, file: Seq<u8>) -> bool {
    let files = core.inner_files;
    let at = core.core.offset;
    &&& forall|j: int|
        0 <= j < files.len() ==> is_whole_file(piece(core.blob, #[trigger] files[j], at, file))
    &&& forall|j: int|
        0 <= j < files.len() ==> (#[trigger] files[j]).offset + files[j].size <= core.blob.len()
            && files[j].size >= FFS_HEADER_SIZE && files[j].file_type == core.blob[files[j].offset
            + 18] && (files[j].offset == at ==> files[j] == core.core)
}

/// The rebuilt DXE core file: the name and the type it had, and a body of one section.
spec fn is_rebuilt_core(core: DxeCoreView, image: Seq<u8>, file: Seq<u8>) -> bool {
    &&& file.len() == FFS_HEADER_SIZE + SECTION_HEADER_SIZE + image.len()
    &&& is_whole_file(file)
    &&& file[18] == core.blob[core.core.offset + 18]
    &&& file.subrange(0, 16) == core.blob.subrange(
        core.core.offset as int,
        core.core.offset + 16,
    )
    &&& file.subrange(24, 27) == le_bytes((SECTION_HEADER_SIZE + image.len()) as nat, 3)
    &&& file[27] == core.pe.section_type
    &&& file.subrange(28, file.len() as int) == image
}

/// The DXE core file that was found is one of the volume's.
proof fn lemma_core_file(core: DxeCoreView)
    requires
        is_found(core),
    ensures
        is_file(core.blob, core.core, core.inner.base + core.inner.length),
        core.inner.base + core.inner.length <= core.blob.len(),
        forall|j: int|
            0 <= j < core.inner_files.len() ==> is_file(
                core.blob,
                #[trigger] core.inner_files[j],
                core.inner.base + core.inner.length,
            ) && (core.inner_files[j].offset == core.core.offset ==> core.inner_files[j]
                == core.core),
{
    let files = core.inner_files;
    let start = core.inner.base + core.inner.header_length;
    let end = core.inner.base + core.inner.length;
    let k = choose|k: int| 0 <= k < files.len() && #[trigger] files[k] == core.core;
    lemma_walked(core.blob, start, end);
    let fs = files_from(core.blob, start, end)->Ok_0;
    assert(fs == files);
    assert(is_file(core.blob, fs[k], end));
    assert forall|j: int| 0 <= j < files.len() implies is_file(core.blob, #[trigger] files[j], end)
        && (files[j].offset == core.core.offset ==> files[j] == core.core) by {
        assert(is_file(core.blob, fs[j], end));
        if j < k {
            assert(fs[j].offset < fs[k].offset);
        } else if k < j {
            assert(fs[k].offset < fs[j].offset);
        }
    }
}

proof fn lemma_rebuilt_core(core: DxeCoreView, image: Seq<u8>, body: Seq<u8>, file: Seq<u8>)
    requires
        is_found(core),
        section_bytes(core.pe.section_type, image) == Ok::<Seq<u8>, RomError>(body),
        ffs_bytes(
            core.blob.subrange(core.core.offset as int, core.core.offset + FFS_HEADER_SIZE),
            body,
        ) == Ok::<Seq<u8>, RomError>(file),
    ensures
        is_rebuilt_core(core, image, file),
{
    let at = core.core.offset as int;
    let hdr = core.blob.subrange(at, at + FFS_HEADER_SIZE);
    lemma_core_file(core);
    lemma_le_bytes_len((SECTION_HEADER_SIZE + image.len()) as nat, 3);
    assert(hdr.subrange(0, FFS_HEADER_SIZE as int) =~= hdr);
    law_file_header_is_consistent(hdr, body);
    lemma_header_type(hdr, body);
    let h = ffs_header(hdr, body);
    assert(file.subrange(20, 23) =~= h.subrange(20, 23));
    assert(file.subrange(0, 16) =~= h.subrange(0, 16));
    assert(h.subrange(0, 16) =~= core.blob.subrange(at, at + 16));
    assert(file.subrange(24, 27) =~= le_bytes((SECTION_HEADER_SIZE + image.len()) as nat, 3));
    assert(file.subrange(28, file.len() as int) =~= image);
}

proof fn lemma_pieces(core: DxeCoreView, image: Seq<u8>, file: Seq<u8>)
    requires
        is_found(core),
        is_rebuilt_core(core, image, file),
    ensures
        pieces_are_sound(core, file),
{
    let files = core.inner_files;
    let at = core.core.offset;
    lemma_core_file(core);
    assert forall|j: int| 0 <= j < files.len() implies is_whole_file(
        piece(core.blob, #[trigger] files[j], at, file),
    ) by {
        let f = files[j];
        if f.offset != at {
            let own = bytes_of(core.blob, f);
            assert(own.subrange(20, 23) =~= core.blob.subrange(f.offset + 20, f.offset + 23));
            assert(own.subrange(0, 16) =~= core.blob.subrange(f.offset as int, f.offset + 16));
        }
    }
}

/// The parts of rebuilt content: the volume's header with its length, the rebuilt files, and
/// erased bytes.
spec fn is_laid_out(core: DxeCoreView, content: Seq<u8>, file: Seq<u8>) -> bool {
    let base = core.inner.base as int;
    let start = base + core.inner.header_length;
    let whole = rebuilt_files(core.blob, core.inner_files, core.core.offset, file);
    &&& start + whole.len() <= content.len() <= usize::MAX
    &&& content.subrange(base, start) == relength(
        core.blob.subrange(base, start),
        (content.len() - base) as nat,
    )
    &&& content.subrange(start, start + whole.len()) == whole
    &&& forall|p: int| start + whole.len() <= p < content.len() ==> #[trigger] content[p] == 0xff
}

/// The rebuilt volume is recognised.
proof fn lemma_recognised(core: DxeCoreView, content: Seq<u8>, file: Seq<u8>)
    requires
        is_found(core),
        is_laid_out(core, content, file),
        pieces_are_sound(core, file),
    ensures
        volume_at(content, core.inner.base as int) == Some(
            Volume {
                base: core.inner.base,
                length: (content.len() - core.inner.base) as usize,
                header_length: core.inner.header_length,
            },
        ),
{
    let blob = core.blob;
    let base = core.inner.base as int;
    let head = core.inner.header_length as int;
    let header = blob.subrange(base, base + head);
    let length = (content.len() - base) as nat;
    let files = core.inner_files;
    let k = choose|k: int| 0 <= k < files.len() && #[trigger] files[k] == core.core;
    lemma_piece(blob, files, core.core.offset, file, k);
    assert(is_whole_file(piece(blob, files[k], core.core.offset, file)));
    law_volume_header_is_consistent(header, length);
    lemma_header_fields(header, length);
    let again = relength(header, length);
    assert(content.subrange(base + 40, base + 44) =~= again.subrange(40, 44));
    assert(content.subrange(base + 32, base + 40) =~= again.subrange(32, 40));
    assert(content.subrange(base + 48, base + 50) =~= again.subrange(48, 50));
    assert(content.subrange(base + 50, base + 52) =~= again.subrange(50, 52));
    assert(blob.subrange(base + 40, base + 44) =~= header.subrange(40, 44));
    assert(blob.subrange(base + 48, base + 50) =~= header.subrange(48, 50));
}

/// The bytes of each file in the rebuilt content.
proof fn lemma_piece_in_content(core: DxeCoreView, content: Seq<u8>, file: Seq<u8>, i: int)
    requires
        is_found(core),
        is_laid_out(core, content, file),
        pieces_are_sound(core, file),
        0 <= i < core.inner_files.len(),
    ensures
        ({
            let start = core.inner.base + core.inner.header_length;
            let f = placed(core.blob, core.inner_files, core.core.offset, file, start, i);
            let own = piece(core.blob, core.inner_files[i], core.core.offset, file);
            &&& f.size == own.len()
            &&& f.offset + f.size <= content.len()
            &&& bytes_of(content, f) == own
        }),
{
    let start = core.inner.base + core.inner.header_length;
    let files = core.inner_files;
    let at = core.core.offset;
    let whole = rebuilt_files(core.blob, files, at, file);
    lemma_piece(core.blob, files, at, file, i);
    assert(is_whole_file(piece(core.blob, files[i], at, file)));
    let f = placed(core.blob, files, at, file, start, i);
    let p = front(core.blob, files, at, file, i).len() as int;
    assert(files[i].offset + files[i].size <= core.blob.len());
    assert(bytes_of(content, f) =~= content.subrange(start, start + whole.len()).subrange(
        p,
        p + f.size,
    ));
}

/// The rebuilt DXE core file holds the image.
proof fn lemma_core_holds_image(
    core: DxeCoreView,
    image: Seq<u8>,
    content: Seq<u8>,
    file: Seq<u8>,
    f: FfsFile,
)
    requires
        is_rebuilt_core(core, image, file),
        f.size == file.len(),
        f.offset + f.size <= content.len() <= usize::MAX,
        bytes_of(content, f) == file,
    ensures
        holds_image(core, image, content, f),
{
    let from = f.offset + FFS_HEADER_SIZE;
    assert(content.subrange(f.offset as int, f.offset + 16) =~= file.subrange(0, 16));
    assert(content.subrange(from, from + 3) =~= file.subrange(24, 27));
    assert(content[from + 3] == bytes_of(content, f)[27]);
    lemma_one_section(content, from, core.pe.section_type, image, SECTION_HEADER_SIZE as nat);
    assert(content.subrange(from + SECTION_HEADER_SIZE, f.offset + f.size) =~= file.subrange(
        28,
        file.len() as int,
    ));
}

proof fn lemma_keeps(core: DxeCoreView, image: Seq<u8>, content: Seq<u8>, file: Seq<u8>)
    requires
        is_found(core),
        is_laid_out(core, content, file),
        is_rebuilt_core(core, image, file),
        pieces_are_sound(core, file),
    ensures
        keeps_files(core, image, content),
{
    let blob = core.blob;
    let files = core.inner_files;
    let at = core.core.offset;
    let start = core.inner.base + core.inner.header_length;
    let v = Volume {
        base: core.inner.base,
        length: (content.len() - core.inner.base) as usize,
        header_length: core.inner.header_length,
    };
    lemma_recognised(core, content, file);
    lemma_listed(content, start, content.len() as int, blob, files, at, file, 0);
    assert(files.subrange(0, 0) =~= Seq::<FfsFile>::empty());
    let now = Seq::new(files.len(), |j: int| placed(blob, files, at, file, start, 0 + j));
    assert(files_of(content, v) == Ok::<Seq<FfsFile>, FfsError>(now));
    assert forall|i: int| 0 <= i < files.len() implies (#[trigger] now[i]).file_type
        == files[i].file_type by {
        assert(files[i].file_type == blob[files[i].offset + 18]);
    }
    assert forall|i: int| 0 <= i < files.len() && files[i] != core.core implies bytes_of(
        content,
        #[trigger] now[i],
    ) == bytes_of(blob, files[i]) by {
        lemma_piece_in_content(core, content, file, i);
        assert(files[i].offset != at);
    }
    assert forall|i: int| 0 <= i < files.len() && files[i] == core.core implies holds_image(
        core,
        image,
        content,
        #[trigger] now[i],
    ) by {
        lemma_piece_in_content(core, content, file, i);
        lemma_core_holds_image(core, image, content, file, now[i]);
    }
}

/// The content that is rebuilt around an image keeps every other file of the inner volume,
/// byte for byte and in the same order; only the DXE core is replaced.
pub proof fn law_rebuilt_content_keeps_files(core: DxeCoreView, image: Seq<u8>, content: Seq<u8>)
    requires
        is_found(core),
        rebuilt_blob(core, image) == Ok::<Seq<u8>, RomError>(content),
        content.len() <= usize::MAX,
    ensures
        keeps_files(core, image, content),
        core.inner.base >= SECTION_HEADER_SIZE,
        forall|p: int|
            0 <= p < core.inner.base - SECTION_HEADER_SIZE ==> #[trigger] content[p]
                == core.blob[p],
{
    let (body, file) = lemma_content(core, image, content);
    lemma_rebuilt_core(core, image, body, file);
    lemma_pieces(core, image, file);
    lemma_keeps(core, image, content, file);
}

/// A header with another length keeps its signature and its own length.
proof fn lemma_header_fields(header: Seq<u8>, length: nat)
    requires
        header.len() >= 52,
    ensures
        relength(header, length).subrange(40, 44) == header.subrange(40, 44),
        relength(header, length).subrange(48, 50) == header.subrange(48, 50),
{
    lemma_le_bytes_len(length, 8);
    let sized = put(header, 32, le_bytes(length, 8));
    lemma_le_bytes_len(check16(sized) as nat, 2);
    assert(relength(header, length).subrange(40, 44) =~= header.subrange(40, 44));
    assert(relength(header, length).subrange(48, 50) =~= header.subrange(48, 50));
}

/// The parts of the rebuilt content.
proof fn lemma_content(core: DxeCoreView, image: Seq<u8>, content: Seq<u8>) -> (parts: (
    Seq<u8>,
    Seq<u8>,
))
    requires
        is_found(core),
        rebuilt_blob(core, image) == Ok::<Seq<u8>, RomError>(content),
        content.len() <= usize::MAX,
    ensures
        section_bytes(core.pe.section_type, image) == Ok::<Seq<u8>, RomError>(parts.0),
        ffs_bytes(
            core.blob.subrange(core.core.offset as int, core.core.offset + FFS_HEADER_SIZE),
            parts.0,
        ) == Ok::<Seq<u8>, RomError>(parts.1),
        is_laid_out(core, content, parts.1),
        core.inner.base >= SECTION_HEADER_SIZE,
        forall|p: int|
            0 <= p < core.inner.base - SECTION_HEADER_SIZE ==> #[trigger] content[p]
                == core.blob[p],
{
    let base = core.inner.base as int;
    let head = core.inner.header_length as int;
    let header = core.blob.subrange(base, base + head);
    let body = section_bytes(core.pe.section_type, image)->Ok_0;
    let hdr = core.blob.subrange(core.core.offset as int, core.core.offset + FFS_HEADER_SIZE);
    let file = ffs_bytes(hdr, body)->Ok_0;
    let whole = rebuilt_files(core.blob, core.inner_files, core.core.offset, file);
    let volume = core.blob.subrange(base, core.blob.len() as int);
    let block = block_size_from(volume, 56)->Ok_0;
    let length = whole_blocks(head + whole.len(), block);
    lemma_le_bytes_len((SECTION_HEADER_SIZE + length) as nat, 3);
    lemma_blocks_hold(volume, 56, head + whole.len());
    law_volume_header_is_consistent(header, length as nat);
    let again = relength(header, length as nat);
    assert(content.len() == base + length);
    assert(content.subrange(base, base + head) =~= again);
    assert(content.subrange(base + head, base + head + whole.len()) =~= whole);
    (body, file)
}

/// Whole blocks hold what they are for.
proof fn lemma_blocks_hold(v: Seq<u8>, offset: int, n: int)
    requires
        0 <= n,
    ensures
        block_size_from(v, offset) matches Ok(block) ==> block >= 0 && (block
            > 0 ==> n <= whole_blocks(n, block)),
    decreases v.len() - offset,
{
    if offset + 8 <= v.len() {
        lemma_blocks_hold(v, offset + 8, n);
        match block_size_from(v, offset) {
            Ok(block) => {
                if block > 0 {
                    vstd::arithmetic::div_mod::lemma_fundamental_div_mod(n + block - 1, block);
                    assert(block * ((n + block - 1) / block) == (n + block - 1) / block * block)
                        by (nonlinear_arith);
                }
            },
            Err(_) => {},
        }
    }
}

/// Whether a file carries compressed content, and is filed under the DXE core's name.
pub open spec fn is_named(d: Seq<u8>, f: FfsFile) -> bool {
    unpacked(d, f) is Some && d.subrange(f.offset as int, f.offset + 16) == DXE_CORE_FV_GUID@
}

/// Whether a file carries compressed content with a DXE core in it.
pub open spec fn carries_core(d: Seq<u8>, f: FfsFile) -> bool {
    unpacked(d, f) matches Some(blob) && holds_core(blob)
}

/// Whether what was found is a file of a volume, with its content.
pub open spec fn is_in(d: Seq<u8>, v: Volume, files: Seq<FfsFile>, found: FoundView) -> bool {
    &&& found.volume == v
    &&& files.contains(found.file)
    &&& unpacked(d, found.file) == Some(found.blob)
}

/// The search through one volume: the first file under the name ends it, and otherwise the
/// candidate stays, or becomes the first file that carries a core.
proof fn lemma_search_files(d: Seq<u8>, v: Volume, files: Seq<FfsFile>, candidate: Option<FoundView>)
    ensures
        ({
            let (done, best) = search_files(d, v, files, candidate);
            &&& done == exists|i: int| 0 <= i < files.len() && is_named(d, #[trigger] files[i])
            &&& done ==> best is Some && is_in(d, v, files, best->0) && is_named(d, best->0.file)
            &&& !done && candidate is Some ==> best == candidate
            &&& !done && candidate is None ==> match best {
                Some(found) => is_in(d, v, files, found) && carries_core(d, found.file),
                None => forall|i: int|
                    0 <= i < files.len() ==> !carries_core(d, #[trigger] files[i]),
            }
        }),
    decreases files.len(),
{
    if files.len() > 0 {
        let f = files[0];
        let rest = files.drop_first();
        let next = match unpacked(d, f) {
            Some(blob) => if candidate is None && holds_core(blob) {
                Some(FoundView { volume: v, file: f, blob })
            } else {
                candidate
            },
            None => candidate,
        };
        lemma_search_files(d, v, rest, next);
        let (done, best) = search_files(d, v, files, candidate);
        assert forall|x: FfsFile| rest.contains(x) implies #[trigger] files.contains(x) by {
            let j = choose|j: int| 0 <= j < rest.len() && rest[j] == x;
            assert(files[j + 1] == x);
        }
        assert(files.contains(f));
        if is_named(d, f) {
            assert(is_named(d, files[0]));
        } else {
            if exists|i: int| 0 <= i < rest.len() && is_named(d, #[trigger] rest[i]) {
                let i = choose|i: int| 0 <= i < rest.len() && is_named(d, #[trigger] rest[i]);
                assert(is_named(d, files[i + 1]));
            }
            if exists|i: int| 0 <= i < files.len() && is_named(d, #[trigger] files[i]) {
                let i = choose|i: int| 0 <= i < files.len() && is_named(d, #[trigger] files[i]);
                assert(i > 0);
                assert(is_named(d, rest[i - 1]));
            }
            if !done && candidate is None && best is None {
                assert forall|i: int| 0 <= i < files.len() implies !carries_core(
                    d,
                    #[trigger] files[i],
                ) by {
                    if i > 0 {
                        assert(files[i] == rest[i - 1]);
                    }
                }
            }
        }
    }
}

/// Whether a file of some volume is under the DXE core's name.
pub open spec fn any_named(d: Seq<u8>, v: Volume) -> bool {
    files_of(d, v) matches Ok(files) && exists|i: int|
        0 <= i < files.len() && is_named(d, #[trigger] files[i])
}

/// Whether a file of some volume carries a core.
pub open spec fn any_carries(d: Seq<u8>, v: Volume) -> bool {
    files_of(d, v) matches Ok(files) && exists|i: int|
        0 <= i < files.len() && carries_core(d, #[trigger] files[i])
}

/// Whether what was found is a file of one of the volumes, with its content.
pub open spec fn is_in_one(d: Seq<u8>, volumes: Seq<Volume>, found: FoundView) -> bool {
    volumes.contains(found.volume) && (files_of(d, found.volume) matches Ok(files) && is_in(
        d,
        found.volume,
        files,
        found,
    ))
}

proof fn lemma_search_volumes(d: Seq<u8>, volumes: Seq<Volume>, candidate: Option<FoundView>)
    ensures
        search_volumes(d, volumes, candidate) matches Ok(best) ==> {
            let named = exists|i: int| 0 <= i < volumes.len() && any_named(d, #[trigger] volumes[i]);
            &&& named ==> best is Some && is_in_one(d, volumes, best->0) && is_named(d, best->0.file)
            &&& !named && candidate is Some ==> best == candidate
            &&& !named && candidate is None ==> match best {
                Some(found) => is_in_one(d, volumes, found) && carries_core(d, found.file),
                None => forall|i: int|
                    0 <= i < volumes.len() ==> !any_carries(d, #[trigger] volumes[i]),
            }
        },
    decreases volumes.len(),
{
    if volumes.len() > 0 && search_volumes(d, volumes, candidate) is Ok {
        let v = volumes[0];
        let files = files_of(d, v)->Ok_0;
        lemma_search_files(d, v, files, candidate);
        let (done, best) = search_files(d, v, files, candidate);
        let rest = volumes.drop_first();
        assert(volumes.contains(v));
        assert forall|x: Volume| rest.contains(x) implies #[trigger] volumes.contains(x) by {
            let j = choose|j: int| 0 <= j < rest.len() && rest[j] == x;
            assert(volumes[j + 1] == x);
        }
        if done {
            assert(any_named(d, volumes[0]));
        } else {
            lemma_search_volumes(d, rest, best);
            assert(!any_named(d, v));
            if exists|i: int| 0 <= i < rest.len() && any_named(d, #[trigger] rest[i]) {
                let i = choose|i: int| 0 <= i < rest.len() && any_named(d, #[trigger] rest[i]);
                assert(any_named(d, volumes[i + 1]));
            }
            if exists|i: int| 0 <= i < volumes.len() && any_named(d, #[trigger] volumes[i]) {
                let i = choose|i: int|
                    0 <= i < volumes.len() && any_named(d, #[trigger] volumes[i]);
                assert(any_named(d, rest[i - 1]));
            }
            if best is None {
                assert(!any_carries(d, v));
                assert forall|i: int|
                    0 <= i < volumes.len() && (forall|j: int|
                        0 <= j < rest.len() ==> !any_carries(d, #[trigger] rest[j]))
                        implies !any_carries(d, #[trigger] volumes[i]) by {
                    if i > 0 {
                        assert(volumes[i] == rest[i - 1]);
                    }
                }
            }
        }
    }
}

/// What the search for the DXE core finds: a file of a volume of the image, with its
/// content. Where any file is filed under the DXE core's name it is one of those; otherwise
/// it is one whose content holds a DXE core, and none is found only where there is none.
pub proof fn law_search_finds_the_core(d: Seq<u8>)
    ensures
        ({
            let volumes = volumes_of(d);
            let named = exists|i: int| 0 <= i < volumes.len() && any_named(d, #[trigger] volumes[i]);
            match found_core(d) {
                Ok(found) => is_in_one(d, volumes, found) && if named {
                    is_named(d, found.file)
                } else {
                    carries_core(d, found.file)
                },
                Err(error) => (forall|i: int|
                    0 <= i < volumes.len() ==> files_of(d, #[trigger] volumes[i]) is Ok) ==> !named
                    && forall|i: int|
                    0 <= i < volumes.len() ==> !any_carries(d, #[trigger] volumes[i]),
            }
        }),
{
    lemma_search_volumes(d, volumes_of(d), None);
    lemma_search_damage(d, volumes_of(d), None);
}

/// Only a damaged volume ends the search with an error.
proof fn lemma_search_damage(d: Seq<u8>, volumes: Seq<Volume>, candidate: Option<FoundView>)
    ensures
        (forall|i: int| 0 <= i < volumes.len() ==> files_of(d, #[trigger] volumes[i]) is Ok)
            ==> search_volumes(d, volumes, candidate) is Ok,
    decreases volumes.len(),
{
    if volumes.len() > 0 && forall|i: int|
        0 <= i < volumes.len() ==> files_of(d, #[trigger] volumes[i]) is Ok {
        let rest = volumes.drop_first();
        assert(files_of(d, volumes[0]) is Ok);
        let (_, best) = search_files(d, volumes[0], files_of(d, volumes[0])->Ok_0, candidate);
        assert forall|i: int| 0 <= i < rest.len() implies files_of(d, #[trigger] rest[i]) is Ok by {
            assert(rest[i] == volumes[i + 1]);
        }
        lemma_search_damage(d, rest, best);
    }
}

/// What is known of a core that was located.
proof fn lemma_located(rom: Seq<u8>, core: DxeCoreView)
    requires
        located(rom) == Ok::<DxeCoreView, RomError>(core),
        rom.len() <= usize::MAX,
        core.blob.len() <= usize::MAX,
    ensures
        is_found(core),
        core.core.file_type == TYPE_DXE_CORE,
        unpacked(rom, core.file) == Some(core.blob),
        is_file(rom, core.file, core.volume.base + core.volume.length),
        core.volume.base + core.volume.length <= rom.len(),
{
    law_search_finds_the_core(rom);
    let found = found_core(rom)->Ok_0;
    let volumes = volumes_of(rom);
    let m = choose|m: int| 0 <= m < volumes.len() && volumes[m] == found.volume;
    lemma_volume_is_at(rom, rom.len() - 44, m);
    let start = found.volume.base + found.volume.header_length;
    let end = found.volume.base + found.volume.length;
    lemma_walked(rom, start, end);
    let fs = files_from(rom, start, end)->Ok_0;
    let n = choose|n: int| 0 <= n < fs.len() && fs[n] == found.file;
    assert(is_file(rom, fs[n], end));
    let blob = found.blob;
    lemma_volume_is_at(blob, blob.len() - 44, 0);
    let files = core.inner_files;
    lemma_first_is(files, |f: FfsFile| f.file_type == TYPE_DXE_CORE);
    let k = first(files, |f: FfsFile| f.file_type == TYPE_DXE_CORE);
    assert(files[k] == core.core);
}

/// The file of a patched ROM that stands where the one that carried the core did.
pub open spec fn carrier(patched: Seq<u8>, core: DxeCoreView) -> FfsFile {
    let at = core.file.offset;
    FfsFile {
        offset: at,
        size: le_at(patched, at + 20, 3) as usize,
        file_type: patched[at + 18],
    }
}

/// What a patched ROM holds in the place of the file that carried the core: a file with its
/// name and type, whose one section is compressed and holds the stream. Nothing outside the
/// two files is touched.
proof fn lemma_with_stream(rom: Seq<u8>, core: DxeCoreView, stream: Seq<u8>, patched: Seq<u8>)
    requires
        rom.len() <= usize::MAX,
        is_file(rom, core.file, core.volume.base + core.volume.length),
        core.volume.base + core.volume.length <= rom.len(),
        core.file.file_type == TYPE_FV_IMAGE,
        with_stream(rom, core, stream) == Ok::<Seq<u8>, RomError>(patched),
    ensures
        unpacked(patched, carrier(patched, core)) == lzma_decoded(stream),
        is_file(patched, carrier(patched, core), core.volume.base + core.volume.length),
        patched.len() == rom.len(),
        patched.subrange(core.file.offset as int, core.file.offset + 16) == rom.subrange(
            core.file.offset as int,
            core.file.offset + 16,
        ),
        forall|p: int|
            0 <= p < rom.len() && (p < core.file.offset || (p >= core.file.offset + core.file.size
                && p >= core.file.offset + carrier(patched, core).size)) ==> #[trigger] patched[p]
                == rom[p],
        forall|p: int|
            core.file.offset + carrier(patched, core).size <= p < core.file.offset + core.file.size
                ==> #[trigger] patched[p] == 0xff,
{
    let at = core.file.offset as int;
    let section = lzma_section_bytes(stream)->Ok_0;
    let hdr = rom.subrange(at, at + FFS_HEADER_SIZE);
    let file = ffs_bytes(hdr, section)->Ok_0;
    lemma_le_bytes_len((GUIDED_HEADER_SIZE + stream.len()) as nat, 3);
    lemma_le_bytes_len(GUIDED_HEADER_SIZE as nat, 2);
    lemma_le_bytes_len(1, 2);
    assert(section.len() == GUIDED_HEADER_SIZE + stream.len());
    assert(hdr.subrange(0, FFS_HEADER_SIZE as int) =~= hdr);
    law_file_header_is_consistent(hdr, section);
    lemma_header_type(hdr, section);
    let h = ffs_header(hdr, section);
    let size = file.len() as int;
    assert(patched.subrange(at, at + size) =~= file);
    assert(patched.subrange(at + 20, at + 23) =~= h.subrange(20, 23));
    assert(patched.subrange(at, at + 16) =~= h.subrange(0, 16));
    assert(h.subrange(0, 16) =~= rom.subrange(at, at + 16));
    assert(patched[at + 18] == patched.subrange(at, at + size)[18]);
    let f = carrier(patched, core);
    assert(f.size == size);
    let from = at + FFS_HEADER_SIZE;
    assert(patched.subrange(from, from + section.len()) =~= section) by {
        assert forall|x: int| 0 <= x < section.len() implies patched.subrange(
            from,
            from + section.len(),
        )[x] == section[x] by {
            assert(patched.subrange(at, at + size)[FFS_HEADER_SIZE + x] == section[x]);
        }
    }
    let whole = patched.subrange(from, from + section.len());
    assert(patched.subrange(from, from + 3) =~= whole.subrange(0, 3));
    assert(section.subrange(0, 3) =~= le_bytes((GUIDED_HEADER_SIZE + stream.len()) as nat, 3));
    assert(patched[from + 3] == whole[3]);
    lemma_one_section(
        patched,
        from,
        TYPE_GUID_DEFINED,
        stream,
        GUIDED_HEADER_SIZE as nat,
    );
    assert(patched.subrange(from + 4, from + 20) =~= whole.subrange(4, 20));
    assert(section.subrange(4, 20) =~= LZMA_GUID@);
    assert(patched.subrange(from + 20, from + 22) =~= whole.subrange(20, 22));
    assert(section.subrange(20, 22) =~= le_bytes(GUIDED_HEADER_SIZE as nat, 2));
    lemma_widths();
    lemma_le_value_of_bytes(GUIDED_HEADER_SIZE as nat, 2);
    assert(patched.subrange(from + GUIDED_HEADER_SIZE, from + section.len()) =~= whole.subrange(
        GUIDED_HEADER_SIZE as int,
        section.len() as int,
    ));
    assert(section.subrange(GUIDED_HEADER_SIZE as int, section.len() as int) =~= stream);
}

/// Replacing the DXE core of a ROM: the file that carried it is still there, under its name,
/// and what it decompresses to, as far as decompressing undoes compressing, is the content
/// it had with the DXE core replaced and every other file of the inner volume as it was,
/// byte for byte and in its order. No byte of the ROM outside that file changes, and what a
/// shorter file leaves of a longer one is erased.
pub proof fn law_patch_keeps_everything_else(rom: Seq<u8>, image: Seq<u8>, patched: Seq<u8>)
    requires
        replaced(rom, image) == Ok::<Seq<u8>, RomError>(patched),
        rom.len() <= usize::MAX,
        located(rom)->Ok_0.blob.len() <= usize::MAX,
        rebuilt_blob(located(rom)->Ok_0, image)->Ok_0.len() <= usize::MAX,
        forall|data: Seq<u8>, stream: Seq<u8>|
            #[trigger] lzma_encoded(data, PRESET) == Some(stream) ==> #[trigger] lzma_decoded(stream)
                == Some(data),
    ensures
        located(rom) is Ok,
        ({
            let core = located(rom)->Ok_0;
            let f = carrier(patched, core);
            &&& unpacked(rom, core.file) == Some(core.blob)
            &&& unpacked(patched, f) matches Some(content) && keeps_files(core, image, content)
            &&& patched.len() == rom.len()
            &&& patched.subrange(f.offset as int, f.offset + 16) == rom.subrange(
                f.offset as int,
                f.offset + 16,
            )
            &&& forall|p: int|
                0 <= p < rom.len() && (p < core.file.offset || (p >= core.file.offset
                    + core.file.size && p >= f.offset + f.size)) ==> #[trigger] patched[p] == rom[p]
            &&& forall|p: int|
                f.offset + f.size <= p < core.file.offset + core.file.size ==> #[trigger] patched[p]
                    == 0xff
        }),
{
    let core = located(rom)->Ok_0;
    let content = rebuilt_blob(core, image)->Ok_0;
    let stream = lzma_encoded(content, PRESET)->0;
    lemma_located(rom, core);
    law_rebuilt_content_keeps_files(core, image, content);
    lemma_with_stream(rom, core, stream, patched);
}

/// Which content can be rebuilt around an image: the image fits a section and a file, the inner
/// volume has blocks of a size and a header with its checksum, is wrapped in a section of its
/// own, and comes out at a size that section can have. No other can.
pub proof fn law_which_content_can_be_rebuilt(core: DxeCoreView, image: Seq<u8>, file: Seq<u8>)
    requires
        image.len() + SECTION_HEADER_SIZE + FFS_HEADER_SIZE <= MAX_SIZE ==> ffs_bytes(
            core.blob.subrange(core.core.offset as int, core.core.offset + FFS_HEADER_SIZE),
            le_bytes(SECTION_HEADER_SIZE as nat + image.len(), 3) + seq![core.pe.section_type]
                + image,
        ) == Ok::<Seq<u8>, RomError>(file),
    ensures
        rebuilt_blob(core, image) is Ok <==> {
            let base = core.inner.base as int;
            let head = core.inner.header_length as int;
            let header = core.blob.subrange(base, base + head);
            let files = rebuilt_files(core.blob, core.inner_files, core.core.offset, file);
            let block = block_size_from(core.blob.subrange(base, core.blob.len() as int), 56);
            &&& image.len() + SECTION_HEADER_SIZE + FFS_HEADER_SIZE <= MAX_SIZE
            &&& block matches Ok(block) && block != 0 && {
                let length = whole_blocks(head + files.len(), block);
                &&& length <= usize::MAX
                &&& length == core.inner.length || SECTION_HEADER_SIZE + length <= MAX_SIZE
            }
            &&& head % 2 == 0
            &&& check16(header) == le_at(header, 50, 2)
            &&& base >= SECTION_HEADER_SIZE
            &&& core.blob[base - 1] == 0x17
        },
{
    lemma_le_bytes_len(SECTION_HEADER_SIZE as nat + image.len(), 3);
}

/// Where four pieces are, one behind the other.
proof fn lemma_four(a: Seq<u8>, b: Seq<u8>, c: Seq<u8>, d: Seq<u8>)
    ensures
        ({
            let l = a + b + c + d;
            let x = a.len() as int;
            let y = x + b.len();
            let z = y + c.len();
            &&& l.len() == z + d.len()
            &&& l.subrange(0, x) == a
            &&& l.subrange(x, y) == b
            &&& l.subrange(y, z) == c
            &&& l.subrange(z, l.len() as int) == d
        }),
{
    let l = a + b + c + d;
    let x = a.len() as int;
    let y = x + b.len();
    let z = y + c.len();
    assert(l.subrange(0, x) =~= a);
    assert(l.subrange(x, y) =~= b);
    assert(l.subrange(y, z) =~= c);
    assert(l.subrange(z, l.len() as int) =~= d);
}

/// What is behind the files of the inner volume and before and around it, when its DXE core is
/// replaced: the volume ends at the first whole block behind its files, over erased bytes; its
/// header is as it was but for the length and the checksum; and what stands before it is as it
/// was but for the size of the section around it, which follows the length of the volume.
pub proof fn law_rebuilt_content_is_wrapped(
    core: DxeCoreView,
    image: Seq<u8>,
    content: Seq<u8>,
    block: int,
)
    requires
        rebuilt_blob(core, image) == Ok::<Seq<u8>, RomError>(content),
        core.inner.header_length >= 52,
        core.inner.base + core.inner.header_length <= core.blob.len(),
        block_size_from(
            core.blob.subrange(core.inner.base as int, core.blob.len() as int),
            56,
        ) == Ok::<int, RomError>(block),
        block > 0,
    ensures
        ({
            let base = core.inner.base as int;
            let head = core.inner.header_length as int;
            let length = content.len() - base;
            exists|files: Seq<u8>|
                {
                    let used = head + files.len();
                    &&& content.subrange(base + head, base + used) == files
                    &&& #[trigger] files.len() % 8 == 0
                    &&& length % block == 0
                    &&& used <= length < used + block
                    &&& le_at(content, base + 32, 8) == length
                    &&& base >= 4
                    &&& forall|p: int|
                        base + used <= p < content.len() ==> #[trigger] content[p] == 0xff
                    &&& forall|p: int|
                        0 <= p < head && !(32 <= p < 40) && !(50 <= p < 52) ==> content[base + p]
                            == #[trigger] core.blob[base + p]
                    &&& forall|p: int|
                        0 <= p < base && !(base - 4 <= p < base - 1) ==> #[trigger] content[p]
                            == core.blob[p]
                    &&& if length == core.inner.length {
                        content.subrange(base - 4, base - 1) == core.blob.subrange(
                            base - 4,
                            base - 1,
                        )
                    } else {
                        le_at(content, base - 4, 3) == length + 4
                    }
                }
        }),
{
    let base = core.inner.base as int;
    let head = core.inner.header_length as int;
    let body = section_bytes(core.pe.section_type, image)->Ok_0;
    let file = ffs_bytes(
        core.blob.subrange(core.core.offset as int, core.core.offset + FFS_HEADER_SIZE),
        body,
    )->Ok_0;
    let files = rebuilt_files(core.blob, core.inner_files, core.core.offset, file);
    let used = head + files.len();
    let length = whole_blocks(used, block);
    let header = core.blob.subrange(base, base + head);
    let front = core.blob.subrange(0, base);
    let size = le_bytes((SECTION_HEADER_SIZE + length) as nat, 3);
    let wrapped = if length != core.inner.length {
        put(front, base - 4, size)
    } else {
        front
    };
    lemma_whole_blocks(used, block);
    lemma_le_bytes_len((SECTION_HEADER_SIZE + length) as nat, 3);
    let tail = fill((length - used) as nat, 0xff);
    let again = relength(header, length as nat);
    law_volume_header_is_consistent(header, length as nat);
    lemma_four(wrapped, again, files, tail);
    assert(content == wrapped + again + files + tail);
    assert(content.len() - base == length);
    lemma_files_are_whole(core.blob, core.inner_files, core.core.offset, file);
    lemma_inner(content, base, head, 32, 40);
    assert forall|p: int| base + used <= p < content.len() implies #[trigger] content[p] == 0xff by {
        assert(content.subrange(base + used, content.len() as int)[p - base - used] == content[p]);
    }
    lemma_le_bytes_len(length as nat, 8);
    lemma_le_bytes_len(
        check16(put(header, 32, le_bytes(length as nat, 8))) as nat,
        2,
    );
    assert forall|p: int| 0 <= p < head && !(32 <= p < 40) && !(50 <= p < 52) implies content[base
        + p] == #[trigger] core.blob[base + p] by {
        assert(content.subrange(base, base + head)[p] == again[p]);
        assert(header[p] == core.blob[base + p]);
    }
    assert forall|p: int| 0 <= p < base && !(base - 4 <= p < base - 1) implies
        #[trigger] content[p] == core.blob[p] by {
        assert(content.subrange(0, base)[p] == wrapped[p]);
    }
    lemma_inner(content, 0, base, base - 4, base - 1);
    if length == core.inner.length {
        assert(wrapped.subrange(base - 4, base - 1) =~= core.blob.subrange(base - 4, base - 1));
    } else {
        assert(wrapped.subrange(base - 4, base - 1) =~= size);
        lemma_widths();
        lemma_le_value_of_bytes((SECTION_HEADER_SIZE + length) as nat, 3);
    }
    assert(content.subrange(base + head, base + used) == files && files.len() % 8 == 0);
}

proof fn lemma_whole_blocks(n: int, block: int)
    requires
        0 <= n,
        0 < block,
    ensures
        n <= whole_blocks(n, block) < n + block,
        whole_blocks(n, block) % block == 0,
{
    let q = (n + block - 1) / block;
    vstd::arithmetic::div_mod::lemma_fundamental_div_mod(n + block - 1, block);
    vstd::arithmetic::div_mod::lemma_mod_bound(n + block - 1, block);
    assert(block * q == q * block) by (nonlinear_arith);
    vstd::arithmetic::div_mod::lemma_mod_multiples_basic(q, block);
}

proof fn lemma_files_are_whole(blob: Seq<u8>, files: Seq<FfsFile>, core: usize, rebuilt: Seq<u8>)
    ensures
        rebuilt_files(blob, files, core, rebuilt).len() % 8 == 0,
{
    let n = files.len() as int;
    lemma_front(blob, files, core, rebuilt, n, n);
    assert(files.subrange(0, n) =~= files);
}

} // verus!
