//! Re-reads a disk that was written and checks the structures the firmware
//! parses.
use crate::bytes::{
    copy_range, fill, get_u16, get_u32, get_u64, le_at, le_bytes, lemma_le_bytes_len,
    lemma_le_value_of_bytes, lemma_widths, matches_at, push_fill, put, put_slice, same_bytes,
};
use crate::crc::{crc, crc32};
use crate::gpt::{ESP_TYPE, SIGNATURE};
use crate::tools::fat32::{
    boot_sector, built, cluster_at, cluster_of, components, empty_volume, entry_cluster, find_from,
    find_slot, geometry, info_sector, last_dot, lemma_sector_lens, lemma_words_len, name_83, split,
    Volume, LABEL, TYPE_NAME,
};
use crate::tools::fat32_laws::{
    contents_of, directory_at, entry_at, law_all_files_are_read, law_empty_is_sound,
    law_finishing_keeps_clusters, lemma_directory_is_there, lemma_file_is_there,
    lemma_with_all_shape, lemma_with_all_sound, orderly, reads, run_of, size_of, sound,
};
use crate::tools::mkesp::{
    entry_array, header_sector, lemma_entry_fields_read_back, lemma_header_reads_back,
    lemma_written_parts, Disk, FIRST_USABLE_LBA,
};
use vstd::prelude::*;

verus! {

/// `EFI`, as FAT stores it.
pub const EFI_NAME: [u8; 11] = [
    0x45, 0x46, 0x49, 0x20, 0x20, 0x20, 0x20, 0x20, 0x20, 0x20, 0x20,
];

/// `BOOT`, as FAT stores it.
pub const BOOT_NAME: [u8; 11] = [
    0x42, 0x4f, 0x4f, 0x54, 0x20, 0x20, 0x20, 0x20, 0x20, 0x20, 0x20,
];

/// `BOOTAA64.EFI`, as FAT stores it.
pub const IMAGE_NAME: [u8; 11] = [
    0x42, 0x4f, 0x4f, 0x54, 0x41, 0x41, 0x36, 0x34, 0x45, 0x46, 0x49,
];

/// What is wrong with a disk.
#[derive(Clone, Copy, PartialEq, Eq, Structural, Debug)]
pub enum DiskFault {
    GptSignature,
    GptHeaderCrc,
    EntryArrayCrc,
    EspType,
    PartitionStart,
    FatType,
    FatLabel,
    BootSignature,
    InfoLead,
    InfoStructure,
    /// `\EFI` is not in the root directory.
    NoEfi,
    /// `\EFI\BOOT` is missing.
    NoBoot,
    /// The boot image is missing.
    NoImage,
    ImageSize,
    ImageContents,
    /// A field leads outside the disk.
    Outside,
}

/// What is wrong with the partition table.
pub open spec fn table_fault(b: Seq<u8>) -> Option<DiskFault> {
    let gpt = b.subrange(512, 1024);
    let size = le_at(gpt, 12, 4) as int;
    let entries = b.subrange(1024, 17408);
    if gpt.subrange(0, 8) != SIGNATURE@ {
        Some(DiskFault::GptSignature)
    } else if size < 20 || size > 512 {
        Some(DiskFault::Outside)
    } else if crc(put(gpt.subrange(0, size), 16, fill(4, 0))) != le_at(gpt, 16, 4) {
        Some(DiskFault::GptHeaderCrc)
    } else if crc(entries) != le_at(gpt, 88, 4) {
        Some(DiskFault::EntryArrayCrc)
    } else if entries.subrange(0, 16) != ESP_TYPE@ {
        Some(DiskFault::EspType)
    } else if le_at(entries, 32, 8) != FIRST_USABLE_LBA {
        Some(DiskFault::PartitionStart)
    } else {
        None
    }
}

/// What is wrong with a volume's boot sector or FSInfo sector.
pub open spec fn sectors_fault(v: Seq<u8>) -> Option<DiskFault> {
    let info = le_at(v, 48, 2) as int * 512;
    if v.subrange(82, 90) != TYPE_NAME@ {
        Some(DiskFault::FatType)
    } else if v.subrange(71, 82) != LABEL@ {
        Some(DiskFault::FatLabel)
    } else if v[510] != 0x55 || v[511] != 0xaa {
        Some(DiskFault::BootSignature)
    } else if info + 512 > v.len() {
        Some(DiskFault::Outside)
    } else if le_at(v, info, 4) != 0x4161_5252 {
        Some(DiskFault::InfoLead)
    } else if le_at(v, info + 484, 4) != 0x6141_7272 {
        Some(DiskFault::InfoStructure)
    } else {
        None
    }
}

/// The size of a volume's clusters.
pub open spec fn cluster_bytes(v: Seq<u8>) -> int {
    v[13] * 512
}

/// Where the clusters of a volume start.
pub open spec fn data_start(v: Seq<u8>) -> int {
    (le_at(v, 14, 2) + 2 * le_at(v, 36, 4)) as int * 512
}

/// Where a cluster of a volume starts.
pub open spec fn offset_of(v: Seq<u8>, number: nat) -> int {
    data_start(v) + (number - 2) * cluster_bytes(v)
}

/// A cluster of a volume, where that is inside it.
pub open spec fn cluster_in(v: Seq<u8>, number: nat) -> Option<Seq<u8>> {
    if number < 2 || offset_of(v, number) + cluster_bytes(v) > v.len() {
        None
    } else {
        Some(v.subrange(offset_of(v, number), offset_of(v, number) + cluster_bytes(v)))
    }
}

/// The entry of a name in the directory at a cluster.
pub open spec fn entry_in(v: Seq<u8>, number: nat, name: Seq<u8>, missing: DiskFault) -> Result<
    Seq<u8>,
    DiskFault,
> {
    match cluster_in(v, number) {
        None => Err(DiskFault::Outside),
        Some(directory) => match find_from(directory, name, false, 0) {
            None => Err(missing),
            Some(entry) => Ok(entry),
        },
    }
}

/// What is wrong with the boot image that a volume holds.
pub open spec fn image_fault(v: Seq<u8>, image: Seq<u8>) -> Option<DiskFault> {
    match entry_in(v, 2, EFI_NAME@, DiskFault::NoEfi) {
        Err(fault) => Some(fault),
        Ok(efi) => match entry_in(v, cluster_of(efi), BOOT_NAME@, DiskFault::NoBoot) {
            Err(fault) => Some(fault),
            Ok(boot) => match entry_in(v, cluster_of(boot), IMAGE_NAME@, DiskFault::NoImage) {
                Err(fault) => Some(fault),
                Ok(entry) => {
                    let at = offset_of(v, cluster_of(entry));
                    if le_at(entry, 28, 4) != image.len() {
                        Some(DiskFault::ImageSize)
                    } else if cluster_of(entry) < 2 || at + image.len() > v.len() {
                        Some(DiskFault::Outside)
                    } else if v.subrange(at, at + image.len()) != image {
                        Some(DiskFault::ImageContents)
                    } else {
                        None
                    }
                },
            },
        },
    }
}

/// What is wrong with a disk that should boot an image.
pub open spec fn disk_fault(b: Seq<u8>, image: Seq<u8>) -> Option<DiskFault> {
    let v = b.subrange(FIRST_USABLE_LBA * 512, b.len() as int);
    match table_fault(b) {
        Some(fault) => Some(fault),
        None => match sectors_fault(v) {
            Some(fault) => Some(fault),
            None => image_fault(v, image),
        },
    }
}

fn check_table(bytes: &[u8]) -> (fault: Option<DiskFault>)
    requires
        bytes@.len() >= 17408,
    ensures
        fault == table_fault(bytes@),
{
    let gpt: Vec<u8> = copy_range(bytes, 512, 1024);
    if !matches_at(&gpt, 0, &SIGNATURE) {
        return Some(DiskFault::GptSignature);
    }
    let size: u32 = get_u32(&gpt, 12);
    if size < 20 || size > 512 {
        return Some(DiskFault::Outside);
    }
    let mut header: Vec<u8> = copy_range(&gpt, 0, size as usize);
    let mut zeroes: Vec<u8> = Vec::new();
    push_fill(&mut zeroes, 4, 0);
    assert(zeroes@ =~= fill(4, 0));
    put_slice(&mut header, 16, &zeroes);
    if crc32(&header) != get_u32(&gpt, 16) {
        return Some(DiskFault::GptHeaderCrc);
    }
    let entries: Vec<u8> = copy_range(bytes, 1024, 17408);
    if crc32(&entries) != get_u32(&gpt, 88) {
        return Some(DiskFault::EntryArrayCrc);
    }
    if !matches_at(&entries, 0, &ESP_TYPE) {
        return Some(DiskFault::EspType);
    }
    if get_u64(&entries, 32) != FIRST_USABLE_LBA {
        return Some(DiskFault::PartitionStart);
    }
    None
}

fn check_sectors(volume: &[u8]) -> (fault: Option<DiskFault>)
    requires
        volume@.len() >= 512,
    ensures
        fault == sectors_fault(volume@),
{
    let size: usize = volume.len();
    if !matches_at(volume, 82, &TYPE_NAME) {
        return Some(DiskFault::FatType);
    }
    if !matches_at(volume, 71, &LABEL) {
        return Some(DiskFault::FatLabel);
    }
    if volume[510] != 0x55 || volume[511] != 0xaa {
        return Some(DiskFault::BootSignature);
    }
    let info: usize = get_u16(volume, 48) as usize * 512;
    if info + 512 > size {
        return Some(DiskFault::Outside);
    }
    if get_u32(volume, info) != 0x4161_5252 {
        return Some(DiskFault::InfoLead);
    }
    if get_u32(volume, info + 484) != 0x6141_7272 {
        return Some(DiskFault::InfoStructure);
    }
    None
}

proof fn lemma_offset_bound(v: Seq<u8>, number: u32)
    requires
        v.len() >= 512,
    ensures
        0 <= cluster_bytes(v) <= 255 * 512,
        0 <= data_start(v) <= (0xffff + 2 * 0xffff_ffff) * 512,
        number >= 2 ==> 0 <= (number - 2) * cluster_bytes(v) <= 0xffff_ffff * (255 * 512),
{
    crate::bytes::lemma_le_value_2(v.subrange(14, 16));
    crate::bytes::lemma_le_value_4(v.subrange(36, 40));
    let n = number - 2;
    let c = cluster_bytes(v);
    if number >= 2 {
        assert(0 <= n * c <= 0xffff_ffff * (255 * 512)) by (nonlinear_arith)
            requires
                0 <= n <= 0xffff_ffff,
                0 <= c <= 255 * 512,
        ;
    }
}

/// Where a cluster of a volume starts.
fn cluster_offset(volume: &[u8], number: u32) -> (offset: u64)
    requires
        volume@.len() >= 512,
        number >= 2,
    ensures
        offset == offset_of(volume@, number as nat),
        offset < 0x8_0000_0000_0000,
{
    proof {
        lemma_offset_bound(volume@, number);
    }
    let start: u64 = (get_u16(volume, 14) as u64 + 2 * get_u32(volume, 36) as u64) * 512;
    start + (number as u64 - 2) * (volume[13] as u64 * 512)
}

fn find_in(volume: &[u8], number: u32, name: &[u8], missing: DiskFault) -> (entry: Result<
    Vec<u8>,
    DiskFault,
>)
    requires
        volume@.len() >= 512,
    ensures
        match entry {
            Ok(entry) => entry_in(volume@, number as nat, name@, missing) == Ok::<
                Seq<u8>,
                DiskFault,
            >(entry@) && entry@.len() == 32,
            Err(fault) => entry_in(volume@, number as nat, name@, missing) == Err::<
                Seq<u8>,
                DiskFault,
            >(fault),
        },
{
    let size: usize = volume.len();
    if number < 2 {
        return Err(DiskFault::Outside);
    }
    proof {
        lemma_offset_bound(volume@, number);
    }
    let offset: u64 = cluster_offset(volume, number);
    let cluster: u64 = volume[13] as u64 * 512;
    if offset + cluster > size as u64 {
        return Err(DiskFault::Outside);
    }
    let directory: Vec<u8> = copy_range(volume, offset as usize, (offset + cluster) as usize);
    match find_slot(&directory, name, false) {
        Some(entry) => Ok(entry),
        None => Err(missing),
    }
}

fn check_image(volume: &[u8], image: &[u8]) -> (fault: Option<DiskFault>)
    requires
        volume@.len() >= 512,
    ensures
        fault == image_fault(volume@, image@),
{
    let size: usize = volume.len();
    let efi: Vec<u8> = match find_in(volume, 2, &EFI_NAME, DiskFault::NoEfi) {
        Ok(entry) => entry,
        Err(fault) => {
            return Some(fault);
        },
    };
    let boot: Vec<u8> = match find_in(volume, entry_cluster(&efi), &BOOT_NAME, DiskFault::NoBoot) {
        Ok(entry) => entry,
        Err(fault) => {
            return Some(fault);
        },
    };
    let entry: Vec<u8> = match find_in(
        volume,
        entry_cluster(&boot),
        &IMAGE_NAME,
        DiskFault::NoImage,
    ) {
        Ok(entry) => entry,
        Err(fault) => {
            return Some(fault);
        },
    };
    if get_u32(&entry, 28) as u64 != image.len() as u64 {
        return Some(DiskFault::ImageSize);
    }
    let first: u32 = entry_cluster(&entry);
    if first < 2 {
        return Some(DiskFault::Outside);
    }
    let at: u64 = cluster_offset(volume, first);
    if at + image.len() as u64 > size as u64 {
        return Some(DiskFault::Outside);
    }
    let written: Vec<u8> = copy_range(volume, at as usize, at as usize + image.len());
    if !same_bytes(&written, image) {
        return Some(DiskFault::ImageContents);
    }
    None
}

impl Disk {
    /// Re-reads what was written and checks the structures the firmware parses:
    /// the partition table, the volume's sectors, and that the boot image is in
    /// `\EFI\BOOT` with the right size and contents.
    pub fn verify(&self, image: &[u8]) -> (fault: Option<DiskFault>)
        requires
            self.wf(),
        ensures
            fault == disk_fault(self.bytes@, image@),
    {
        let size: usize = self.bytes.len();
        match check_table(&self.bytes) {
            Some(fault) => {
                return Some(fault);
            },
            None => {},
        }
        let volume: Vec<u8> = copy_range(&self.bytes, FIRST_USABLE_LBA as usize * 512, size);
        match check_sectors(&volume) {
            Some(fault) => {
                return Some(fault);
            },
            None => {},
        }
        check_image(&volume, image)
    }
}

/// `EFI\BOOT\BOOTAA64.EFI`.
pub open spec fn image_path() -> Seq<u8> {
    seq![
        0x45u8,
        0x46u8,
        0x49u8,
        0x5cu8,
        0x42u8,
        0x4fu8,
        0x4fu8,
        0x54u8,
        0x5cu8,
        0x42u8,
        0x4fu8,
        0x4fu8,
        0x54u8,
        0x41u8,
        0x41u8,
        0x36u8,
        0x34u8,
        0x2eu8,
        0x45u8,
        0x46u8,
        0x49u8,
    ]
}

/// The path's names, as FAT stores them.
proof fn lemma_image_path()
    ensures
        components(image_path()).len() == 3,
        name_83(components(image_path())[0]) == EFI_NAME@,
        name_83(components(image_path())[1]) == BOOT_NAME@,
        name_83(components(image_path())[2]) == IMAGE_NAME@,
{
    let p = image_path();
    let efi = seq![0x45u8, 0x46u8, 0x49u8];
    let boot = seq![0x42u8, 0x4fu8, 0x4fu8, 0x54u8];
    let stem = seq![0x42u8, 0x4fu8, 0x4fu8, 0x54u8, 0x41u8, 0x41u8, 0x36u8, 0x34u8];
    let image = stem + seq![0x2eu8] + efi;
    lemma_split_name(Seq::empty(), Seq::empty(), efi);
    assert(Seq::<u8>::empty() + efi =~= efi);
    assert(split(efi) == (Seq::<Seq<u8>>::empty(), efi));
    assert(efi.push(0x5c).drop_last() =~= efi);
    assert(Seq::<Seq<u8>>::empty().push(efi) =~= seq![efi]);
    assert(split(efi.push(0x5c)) == (seq![efi], Seq::<u8>::empty()));
    lemma_split_name(efi.push(0x5c), seq![efi], boot);
    let second = efi.push(0x5c) + boot;
    assert(second.push(0x5c).drop_last() =~= second);
    assert(seq![efi].push(boot) =~= seq![efi, boot]);
    assert(split(second.push(0x5c)) == (seq![efi, boot], Seq::<u8>::empty()));
    lemma_split_name(second.push(0x5c), seq![efi, boot], image);
    assert(second.push(0x5c) + image =~= p);
    assert(components(p) =~= seq![efi, boot, image]);
    lemma_no_dot(efi);
    lemma_no_dot(boot);
    lemma_no_dot(efi);
    lemma_last_dot(stem, efi);
    assert(name_83(efi) =~= EFI_NAME@);
    assert(name_83(boot) =~= BOOT_NAME@);
    assert(image.subrange(0, 8) =~= stem);
    assert(image.subrange(9, 12) =~= efi);
    assert(name_83(image) =~= IMAGE_NAME@);
}

/// A name behind a separator is the one that is being read.
proof fn lemma_split_name(before: Seq<u8>, done: Seq<Seq<u8>>, name: Seq<u8>)
    requires
        split(before) == (done, Seq::<u8>::empty()),
        forall|i: int| 0 <= i < name.len() ==> #[trigger] name[i] != 0x5c && name[i] != 0x2f,
    ensures
        split(before + name) == (done, name),
    decreases name.len(),
{
    if name.len() == 0 {
        assert(before + name =~= before);
    } else {
        let front = name.drop_last();
        lemma_split_name(before, done, front);
        assert((before + name).drop_last() =~= before + front);
        assert((before + name).last() == name[name.len() - 1]);
        assert(front.push(name.last()) =~= name);
    }
}

proof fn lemma_no_dot(s: Seq<u8>)
    requires
        forall|i: int| 0 <= i < s.len() ==> #[trigger] s[i] != 0x2e,
    ensures
        last_dot(s) == -1,
    decreases s.len(),
{
    if s.len() > 0 {
        assert(s[s.len() - 1] != 0x2e);
        assert forall|i: int| 0 <= i < s.len() - 1 implies #[trigger] s.drop_last()[i] != 0x2e by {
            assert(s[i] != 0x2e);
        }
        lemma_no_dot(s.drop_last());
    }
}

proof fn lemma_last_dot(a: Seq<u8>, b: Seq<u8>)
    requires
        forall|i: int| 0 <= i < b.len() ==> #[trigger] b[i] != 0x2e,
    ensures
        last_dot(a + seq![0x2eu8] + b) == a.len(),
    decreases b.len(),
{
    let whole = a + seq![0x2eu8] + b;
    if b.len() == 0 {
        assert(whole.last() == 0x2e);
    } else {
        assert(whole.last() == b[b.len() - 1]);
        assert(whole.drop_last() =~= a + seq![0x2eu8] + b.drop_last());
        lemma_last_dot(a, b.drop_last());
    }
}

/// The sectors of a finished volume say what they were made of.
proof fn lemma_finished_sectors(v: Volume, b: Seq<u8>)
    requires
        v.wf(),
        v.fat_sectors <= u32::MAX,
        b.len() >= v.bytes.len(),
        b.subrange(0, v.bytes.len() as int) == v.finished(),
    ensures
        sectors_fault(b) is None,
        b[13] == 8,
        le_at(b, 14, 2) == 32,
        le_at(b, 36, 4) == v.fat_sectors,
{
    let total = v.bytes.len() / 512;
    let f = v.finished();
    let boot = boot_sector(total, v.fat_sectors);
    let info = info_sector();
    lemma_sector_lens(total, v.fat_sectors);
    lemma_words_len(v.fat);
    lemma_widths();
    lemma_le_bytes_len(512, 2);
    lemma_le_bytes_len(32, 2);
    lemma_le_bytes_len(64, 2);
    lemma_le_bytes_len(34, 4);
    lemma_le_bytes_len(total, 4);
    lemma_le_bytes_len(v.fat_sectors, 4);
    lemma_le_bytes_len(2, 4);
    lemma_le_bytes_len(1, 2);
    lemma_le_bytes_len(6, 2);
    lemma_le_bytes_len(0x5745_4952, 4);
    lemma_le_bytes_len(0x4161_5252, 4);
    lemma_le_bytes_len(0x6141_7272, 4);
    lemma_le_bytes_len(0xffff_ffff, 4);
    lemma_le_value_of_bytes(32, 2);
    lemma_le_value_of_bytes(1, 2);
    lemma_le_value_of_bytes(v.fat_sectors, 4);
    lemma_le_value_of_bytes(0x4161_5252, 4);
    lemma_le_value_of_bytes(0x6141_7272, 4);
    assert(f.subrange(0, 512) =~= boot);
    assert(f.subrange(512, 1024) =~= info);
    assert(b.subrange(0, 512) =~= f.subrange(0, 512));
    assert(b.subrange(512, 1024) =~= f.subrange(512, 1024));
    assert(b[13] == boot[13]);
    assert(b.subrange(14, 16) =~= boot.subrange(14, 16));
    assert(boot.subrange(14, 16) =~= le_bytes(32, 2));
    assert(b.subrange(36, 40) =~= boot.subrange(36, 40));
    assert(boot.subrange(36, 40) =~= le_bytes(v.fat_sectors, 4));
    assert(b.subrange(48, 50) =~= boot.subrange(48, 50));
    assert(boot.subrange(48, 50) =~= le_bytes(1, 2));
    assert(b.subrange(71, 82) =~= boot.subrange(71, 82));
    assert(boot.subrange(71, 82) =~= LABEL@);
    assert(b.subrange(82, 90) =~= boot.subrange(82, 90));
    assert(boot.subrange(82, 90) =~= TYPE_NAME@);
    assert(b[510] == boot[510]);
    assert(b[511] == boot[511]);
    assert(b.subrange(512, 516) =~= info.subrange(0, 4));
    assert(info.subrange(0, 4) =~= le_bytes(0x4161_5252, 4));
    assert(b.subrange(996, 1000) =~= info.subrange(484, 488));
    assert(info.subrange(484, 488) =~= le_bytes(0x6141_7272, 4));
}

/// A disk that was built from a list that starts with the boot image passes: the
/// partition table and the volume's sectors are in order, and the boot image is
/// in `\EFI\BOOT` with its size and contents.
pub proof fn law_built_disk_passes(bytes: Seq<u8>, files: Seq<(Seq<u8>, Seq<u8>)>)
    requires
        bytes.len() <= u64::MAX,
        bytes.len() / 512 > FIRST_USABLE_LBA + 33 + 8,
        files.len() > 0,
        files[0].0 == image_path(),
        ({
            let sectors = bytes.len() / 512 - 34 - FIRST_USABLE_LBA + 1;
            &&& geometry(sectors) is Ok
            &&& built(sectors, files) is Ok
            &&& orderly(
                empty_volume(sectors, geometry(sectors)->Ok_0.0, geometry(sectors)->Ok_0.1),
                files,
            )
        }),
    ensures
        ({
            let last_lba = bytes.len() / 512 - 34;
            let sectors = last_lba - FIRST_USABLE_LBA + 1;
            disk_fault(
                put(
                    Disk::with_gpt(bytes, FIRST_USABLE_LBA as nat, last_lba as nat),
                    FIRST_USABLE_LBA * 512,
                    (built(sectors, files)->Ok_0).finished(),
                ),
                files[0].1,
            ) is None
        }),
{
    let last_lba = bytes.len() / 512 - 34;
    let sectors = last_lba - FIRST_USABLE_LBA + 1;
    let (clusters, fat_sectors) = geometry(sectors)->Ok_0;
    let empty = empty_volume(sectors, clusters, fat_sectors);
    let v = built(sectors, files)->Ok_0;
    let disk = put(
        Disk::with_gpt(bytes, FIRST_USABLE_LBA as nat, last_lba as nat),
        FIRST_USABLE_LBA * 512,
        v.finished(),
    );
    law_empty_is_sound(sectors);
    lemma_with_all_sound(empty, files);
    lemma_with_all_shape(empty, files);
    law_finishing_keeps_clusters(v, 2);
    lemma_written_parts(bytes, v.finished());
    lemma_table_passes(disk, last_lba as nat, (bytes.len() / 512 - 1) as nat);
    law_all_files_are_read(empty, files, 0);
    lemma_put_reads(
        Disk::with_gpt(bytes, FIRST_USABLE_LBA as nat, last_lba as nat),
        FIRST_USABLE_LBA * 512,
        v.finished(),
    );
    lemma_volume_passes(v, disk, files[0].1);
}

/// What was put somewhere is there.
proof fn lemma_put_reads(s: Seq<u8>, at: int, with: Seq<u8>)
    requires
        0 <= at,
        at + with.len() <= s.len(),
    ensures
        put(s, at, with).subrange(at, at + with.len()) == with,
{
    assert(put(s, at, with).subrange(at, at + with.len()) =~= with);
}

/// A disk with a partition table in order and a volume that holds the boot image
/// passes.
proof fn lemma_volume_passes(v: Volume, disk: Seq<u8>, image: Seq<u8>)
    requires
        sound(v),
        v.fat_sectors <= u32::MAX,
        reads(v, image_path(), image),
        v.finished().len() == v.bytes.len(),
        FIRST_USABLE_LBA * 512 + v.bytes.len() <= disk.len(),
        disk.subrange(FIRST_USABLE_LBA * 512, FIRST_USABLE_LBA * 512 + v.bytes.len())
            == v.finished(),
        table_fault(disk) is None,
    ensures
        disk_fault(disk, image) is None,
{
    let b = disk.subrange(FIRST_USABLE_LBA * 512, disk.len() as int);
    assert(b.subrange(0, v.bytes.len() as int) =~= disk.subrange(
        FIRST_USABLE_LBA * 512,
        FIRST_USABLE_LBA * 512 + v.bytes.len(),
    ));
    lemma_finished_sectors(v, b);
    lemma_image_passes(v, b, image);
}

/// A volume that reads the boot image at its path passes.
proof fn lemma_image_passes(v: Volume, b: Seq<u8>, image: Seq<u8>)
    requires
        sound(v),
        reads(v, image_path(), image),
        b.len() >= v.bytes.len(),
        b.subrange(0, v.bytes.len() as int) == v.finished(),
        b[13] == 8,
        le_at(b, 14, 2) == 32,
        le_at(b, 36, 4) == v.fat_sectors,
    ensures
        image_fault(b, image) is None,
{
    lemma_image_path();
    let names = components(image_path());
    let one = names.drop_last().drop_last();
    let two = names.drop_last();
    assert(one.drop_last() =~= Seq::<Seq<u8>>::empty());
    assert(directory_at(v, Seq::<Seq<u8>>::empty()) == Some(2nat));
    assert(two.last() == names[1] && one.last() == names[0] && names.last() == names[2]);
    let entry = entry_at(v, names)->0;
    let boot = entry_at(v, two)->0;
    let efi = entry_at(v, one)->0;
    assert(entry_at(v, two) is Some);
    assert(entry_at(v, one) is Some);
    lemma_directory_is_there(v, one);
    lemma_directory_is_there(v, two);
    lemma_cluster_in(v, b, 2);
    lemma_cluster_in(v, b, cluster_of(efi));
    lemma_cluster_in(v, b, cluster_of(boot));
    assert(entry_in(b, 2, EFI_NAME@, DiskFault::NoEfi) == Ok::<Seq<u8>, DiskFault>(efi));
    assert(entry_in(b, cluster_of(efi), BOOT_NAME@, DiskFault::NoBoot) == Ok::<
        Seq<u8>,
        DiskFault,
    >(boot));
    assert(entry_in(b, cluster_of(boot), IMAGE_NAME@, DiskFault::NoImage) == Ok::<
        Seq<u8>,
        DiskFault,
    >(entry));
    lemma_file_is_there(v, names);
    lemma_image_contents(v, b, entry, image);
}

proof fn lemma_image_contents(v: Volume, b: Seq<u8>, entry: Seq<u8>, image: Seq<u8>)
    requires
        v.wf(),
        b.len() >= v.bytes.len(),
        b.subrange(0, v.bytes.len() as int) == v.finished(),
        b[13] == 8,
        le_at(b, 14, 2) == 32,
        le_at(b, 36, 4) == v.fat_sectors,
        2 <= cluster_of(entry),
        cluster_of(entry) + run_of(entry) <= v.fat.len(),
        size_of(entry) <= run_of(entry) * 4096,
        size_of(entry) == image.len(),
        contents_of(v, entry) == image,
    ensures
        offset_of(b, cluster_of(entry)) + image.len() <= b.len(),
        b.subrange(
            offset_of(b, cluster_of(entry)),
            offset_of(b, cluster_of(entry)) + image.len(),
        ) == image,
{
    let f = v.finished();
    let at = cluster_at(v.fat_sectors, cluster_of(entry) as int);
    lemma_offset(v, b, cluster_of(entry));
    law_finishing_keeps_clusters(v, 2);
    assert forall|j: int| 0 <= j < image.len() implies #[trigger] b.subrange(
        at,
        at + image.len(),
    )[j] == image[j] by {
        let k = cluster_of(entry) + j / 4096;
        law_finishing_keeps_clusters(v, k);
        let w = Volume { bytes: f, ..v };
        assert(w.cluster(k)[j % 4096] == f[at + j]);
        assert(v.cluster(k)[j % 4096] == v.bytes[at + j]);
        assert(contents_of(v, entry)[j] == v.bytes[at + j]);
        assert(b.subrange(0, v.bytes.len() as int)[at + j] == f[at + j]);
    }
    assert(b.subrange(at, at + image.len()) =~= image);
}

/// Where a cluster is, by what the boot sector says.
proof fn lemma_offset(v: Volume, b: Seq<u8>, c: nat)
    requires
        b[13] == 8,
        le_at(b, 14, 2) == 32,
        le_at(b, 36, 4) == v.fat_sectors,
    ensures
        offset_of(b, c) == cluster_at(v.fat_sectors, c as int),
{
    let size = cluster_bytes(b);
    let n = c - 2;
    assert(n * size == n * 4096) by (nonlinear_arith)
        requires
            size == 4096,
    ;
}

/// A cluster that is read from the disk is the volume's.
proof fn lemma_cluster_in(v: Volume, b: Seq<u8>, c: nat)
    requires
        v.wf(),
        2 <= c < v.fat.len(),
        b.len() >= v.bytes.len(),
        b.subrange(0, v.bytes.len() as int) == v.finished(),
        b[13] == 8,
        le_at(b, 14, 2) == 32,
        le_at(b, 36, 4) == v.fat_sectors,
    ensures
        cluster_in(b, c) == Some(v.cluster(c as int)),
        offset_of(b, c) == cluster_at(v.fat_sectors, c as int),
{
    law_finishing_keeps_clusters(v, c as int);
    lemma_offset(v, b, c);
    let at = cluster_at(v.fat_sectors, c as int);
    let w = Volume { bytes: v.finished(), ..v };
    assert(b.subrange(at, at + 4096) =~= w.cluster(c as int)) by {
        assert forall|j: int| at <= j < at + 4096 implies #[trigger] b[j] == v.finished()[j] by {
            assert(b.subrange(0, v.bytes.len() as int)[j] == v.finished()[j]);
        }
    }
}

/// The partition table of a disk that was built is in order.
proof fn lemma_table_passes(b: Seq<u8>, last_lba: nat, last: nat)
    requires
        ({
            let entries = entry_array(FIRST_USABLE_LBA as nat, last_lba);
            &&& b.len() >= 17408
            &&& b.subrange(512, 1024) == header_sector(
                1,
                last,
                2,
                FIRST_USABLE_LBA as nat,
                last_lba,
                crc(entries) as nat,
            )
            &&& b.subrange(1024, 17408) == entries
        }),
    ensures
        table_fault(b) is None,
{
    let first = FIRST_USABLE_LBA as nat;
    let entries_crc = crc(entry_array(first, last_lba)) as nat;
    lemma_header_reads_back(1, last, 2, first, last_lba, entries_crc);
    lemma_entry_fields_read_back(first, last_lba);
}

/// Whether the entries of the two directories and of the image lead from the root of a volume
/// to an image, and its bytes are there.
pub open spec fn leads_to(
    v: Seq<u8>,
    efi: Seq<u8>,
    boot: Seq<u8>,
    entry: Seq<u8>,
    image: Seq<u8>,
) -> bool {
    let at = offset_of(v, cluster_of(entry));
    &&& entry_in(v, 2, EFI_NAME@, DiskFault::NoEfi) == Ok::<Seq<u8>, DiskFault>(efi)
    &&& entry_in(v, cluster_of(efi), BOOT_NAME@, DiskFault::NoBoot) == Ok::<Seq<u8>, DiskFault>(
        boot,
    )
    &&& entry_in(v, cluster_of(boot), IMAGE_NAME@, DiskFault::NoImage) == Ok::<Seq<u8>, DiskFault>(
        entry,
    )
    &&& le_at(entry, 28, 4) == image.len()
    &&& cluster_of(entry) >= 2
    &&& at + image.len() <= v.len()
    &&& v.subrange(at, at + image.len()) == image
}

/// Which disks pass: those with a partition table whose checksums are right and whose first
/// partition is an ESP at the first usable sector, with a FAT32 volume there that is marked as
/// one, and with the image, byte for byte, where the volume's directories say. No other does.
pub proof fn law_which_disks_pass(b: Seq<u8>, image: Seq<u8>)
    ensures
        disk_fault(b, image) is None <==> {
            let gpt = b.subrange(512, 1024);
            let size = le_at(gpt, 12, 4) as int;
            let entries = b.subrange(1024, 17408);
            let v = b.subrange(FIRST_USABLE_LBA * 512, b.len() as int);
            let info = le_at(v, 48, 2) as int * 512;
            &&& gpt.subrange(0, 8) == SIGNATURE@
            &&& 20 <= size <= 512
            &&& crc(put(gpt.subrange(0, size), 16, fill(4, 0))) == le_at(gpt, 16, 4)
            &&& crc(entries) == le_at(gpt, 88, 4)
            &&& entries.subrange(0, 16) == ESP_TYPE@
            &&& le_at(entries, 32, 8) == FIRST_USABLE_LBA
            &&& v.subrange(82, 90) == TYPE_NAME@
            &&& v.subrange(71, 82) == LABEL@
            &&& v[510] == 0x55 && v[511] == 0xaa
            &&& info + 512 <= v.len()
            &&& le_at(v, info, 4) == 0x4161_5252
            &&& le_at(v, info + 484, 4) == 0x6141_7272
            &&& exists|efi: Seq<u8>, boot: Seq<u8>, entry: Seq<u8>| #[trigger]
                leads_to(v, efi, boot, entry, image)
        },
{
    let v = b.subrange(FIRST_USABLE_LBA * 512, b.len() as int);
    lemma_image_fault(v, image);
}

proof fn lemma_image_fault(v: Seq<u8>, image: Seq<u8>)
    ensures
        image_fault(v, image) is None <==> exists|efi: Seq<u8>, boot: Seq<u8>, entry: Seq<u8>|
            #[trigger] leads_to(v, efi, boot, entry, image),
{
    if image_fault(v, image) is None {
        let efi = entry_in(v, 2, EFI_NAME@, DiskFault::NoEfi)->Ok_0;
        let boot = entry_in(v, cluster_of(efi), BOOT_NAME@, DiskFault::NoBoot)->Ok_0;
        let entry = entry_in(v, cluster_of(boot), IMAGE_NAME@, DiskFault::NoImage)->Ok_0;
        assert(leads_to(v, efi, boot, entry, image));
    }
}

} // verus!
