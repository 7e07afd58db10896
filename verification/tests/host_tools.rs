use tinted_boot::tools::elf::{elf_image, elf_section, ElfError, FirmwareImage};
use tinted_boot::tools::fat32::{
    entry_cluster, find_slot, path_components, short_entry, to_83, Fat32, Source,
};
use tinted_boot::tools::ffs::{
    checksum8, files_in, fv_header_checksum, sections_in, volumes, FfsFile, Volume,
};
use tinted_boot::tools::mkesp::{gpt_header, split_source, verified_line, written_line, Disk, EspError};
use tinted_boot::tools::mkimage::{
    assemble, check_core, dxe_volume, firmware_line, fv_offset, stub_source, ImageError,
};
use tinted_boot::tools::mkimage;
use tinted_boot::tools::readback::DiskFault;
use tinted_boot::tools::rompatch::{
    block_size, build_ffs, build_lzma_section, build_section, dump, extract, locate, locate_in,
    lzma_section, parse_arguments, patch, place_stream, rebuild_blob, search_core, ArgumentError,
    Found, RomError, DXE_CORE_FV_GUID,
};
use tinted_boot::bytes::{get_u32, get_u64};
use tinted_boot::crc::crc32;

fn driver_image(length: usize, seed: u8) -> Vec<u8> {
    let mut image = vec![seed; length];
    image[0] = b'M';
    image[1] = b'Z';
    image[0x3c..0x40].copy_from_slice(&0x80u32.to_le_bytes());
    image[0x80..0x84].copy_from_slice(b"PE\0\0");
    image[0x84..0x86].copy_from_slice(&0xaa64u16.to_le_bytes());
    image[0x98..0x9a].copy_from_slice(&0x20bu16.to_le_bytes());
    image[0xdc..0xde].copy_from_slice(&11u16.to_le_bytes());
    image
}

#[test]
fn a_core_is_checked() {
    assert_eq!(check_core(&driver_image(0x200, 0)), None);
    assert_eq!(check_core(b"ELF"), Some(ImageError::NotPe));
    let mut image = driver_image(0x200, 0);
    image[0x80] = 0;
    assert_eq!(check_core(&image), Some(ImageError::NoSignature));
    let mut image = driver_image(0x200, 0);
    image[0x84] = 0;
    assert_eq!(check_core(&image), Some(ImageError::NotAarch64));
    let mut image = driver_image(0x200, 0);
    image[0x98] = 0;
    assert_eq!(check_core(&image), Some(ImageError::NotPe32Plus));
    let mut image = driver_image(0x200, 0);
    image[0xdc] = 10;
    assert_eq!(check_core(&image), Some(ImageError::NotDriver));
}

#[test]
fn a_firmware_volume_reads_back() {
    let image = driver_image(0x1234, 7);
    let volume = dxe_volume(&image).unwrap();
    assert_eq!(volume.len() % 0x1000, 0);
    let found = volumes(&volume);
    assert_eq!(found, vec![Volume { base: 0, length: volume.len(), header_length: 72 }]);
    let files = files_in(&volume, &found[0]).unwrap();
    assert_eq!(files.len(), 1);
    assert_eq!((files[0].offset, files[0].file_type), (72, 5));
    let sections = sections_in(&volume, &files[0]).unwrap();
    assert_eq!(sections[0].section_type, 0x10);
    let at = sections[0].offset + 4;
    assert_eq!(&volume[at..at + image.len()], &image[..]);
    assert_eq!(checksum8(&[1, 2, 3]), 250);
    let too_large = vec![0u8; 0x0100_0000];
    assert_eq!(dxe_volume(&too_large), Err(ImageError::FileTooLarge));
}

fn firmware() -> FirmwareImage {
    FirmwareImage {
        load_addr: 0x4000_0000,
        entry: 0x4000_0100,
        zero_ranges: vec![(0x4001_0000, 0x4002_0000)],
        image: vec![9u8; 0x1801],
    }
}

#[test]
fn a_flash_image_is_assembled() {
    let mut stub = vec![0xdfu8, 0x4f, 0x03, 0xd5];
    stub.push(1);
    let offset = fv_offset(0x1801).unwrap();
    assert_eq!(offset, 0x3000);
    let image = assemble(&stub, &firmware().image, &[5u8; 16]).unwrap();
    assert_eq!(image.len(), 0x3010);
    assert_eq!((image[4], image[5], image[0x1000], image[0x2800]), (1, 0, 9, 9));
    assert_eq!((image[0x2801], image[0x2fff], image[0x3000]), (0xff, 0xff, 5));
    assert_eq!(assemble(&[1, 2, 3, 4], &[], &[]), Err(ImageError::StubEntry));
    let mut long = stub.clone();
    long.resize(0x1001, 0);
    assert_eq!(assemble(&long, &[], &[]), Err(ImageError::StubTooLarge));
}

#[test]
fn the_trampoline_is_filled_in() {
    let template = "@FLASH_OFFSET@ @LOAD_ADDR@ @FIRMWARE_SIZE@ @ENTRY_ADDR@ @ZERO_RANGE_COUNT@ \
                    @FV_OFFSET@ @FV_SIZE@ @FV_ADDR@ @LOAD_ADDR@";
    assert_eq!(
        stub_source(template, &firmware(), 0x3000, 0x2000),
        "0x1000 0x40000000 0x1801 0x40000100 1 0x3000 0x2000 0x45000000 0x40000000"
    );
    assert!(firmware_line("fw.elf", &firmware()).contains("fw.elf"));
    assert!(mkimage::written_line("out.bin", 0x1801, 16).starts_with("mkimage: wrote out.bin ("));
}

fn put(bytes: &mut [u8], at: usize, value: u64, count: usize) {
    bytes[at..at + count].copy_from_slice(&value.to_le_bytes()[0..count]);
}

fn elf() -> Vec<u8> {
    let mut bytes = vec![0u8; 0x400];
    bytes[0..4].copy_from_slice(b"\x7fELF");
    bytes[4] = 2;
    bytes[5] = 1;
    bytes[6] = 1;
    put(&mut bytes, 16, 2, 2);
    put(&mut bytes, 18, 183, 2);
    put(&mut bytes, 20, 1, 4);
    put(&mut bytes, 24, 0x4000_0010, 8);
    put(&mut bytes, 32, 64, 8);
    put(&mut bytes, 40, 0x300, 8);
    put(&mut bytes, 52, 64, 2);
    put(&mut bytes, 54, 56, 2);
    put(&mut bytes, 56, 2, 2);
    put(&mut bytes, 58, 64, 2);
    put(&mut bytes, 60, 2, 2);
    put(&mut bytes, 62, 1, 2);
    for (at, offset, vaddr, filesz, memsz) in
        [(64usize, 0x100u64, 0x4000_0000u64, 0x20u64, 0x20u64), (120, 0x120, 0x4000_0040, 0x10, 0x30)]
    {
        put(&mut bytes, at, 1, 4);
        put(&mut bytes, at + 4, 5, 4);
        put(&mut bytes, at + 8, offset, 8);
        put(&mut bytes, at + 16, vaddr, 8);
        put(&mut bytes, at + 24, vaddr, 8);
        put(&mut bytes, at + 32, filesz, 8);
        put(&mut bytes, at + 40, memsz, 8);
    }
    for at in 0x100..0x120 {
        bytes[at] = 0xaa;
    }
    for at in 0x120..0x130 {
        bytes[at] = 0xbb;
    }
    bytes[0x200..0x211].copy_from_slice(b"\0.text\0.shstrtab\0");
    // Section zero is .text, section one the names.
    put(&mut bytes, 0x300, 1, 4);
    put(&mut bytes, 0x304, 1, 4);
    put(&mut bytes, 0x318, 0x100, 8);
    put(&mut bytes, 0x320, 0x20, 8);
    put(&mut bytes, 0x340, 7, 4);
    put(&mut bytes, 0x344, 3, 4);
    put(&mut bytes, 0x358, 0x200, 8);
    put(&mut bytes, 0x360, 0x11, 8);
    bytes
}

#[test]
fn segments_become_an_image() {
    let image = elf_image(&elf()).unwrap();
    assert_eq!((image.load_addr, image.entry), (0x4000_0000, 0x4000_0010));
    assert_eq!(image.image.len(), 0x50);
    assert_eq!((image.image[0x1f], image.image[0x20], image.image[0x40]), (0xaa, 0, 0xbb));
    assert_eq!(image.zero_ranges, vec![(0x4000_0050, 0x4000_0070)]);
    assert_eq!(elf_section(&elf(), b".text").unwrap(), vec![0xaa; 0x20]);
    assert!(matches!(elf_section(&elf(), b".data"), Err(ElfError::NoSection)));
}

#[test]
fn files_that_are_no_firmware_are_refused() {
    assert!(matches!(elf_image(b"MZ"), Err(_)));
    let mut bytes = elf();
    bytes[0] = 0;
    assert!(matches!(elf_image(&bytes), Err(ElfError::NotElf)));
    let mut bytes = elf();
    bytes[4] = 1;
    assert!(matches!(elf_image(&bytes), Err(ElfError::Not64Bit)));
    let mut bytes = elf();
    bytes[5] = 2;
    assert!(matches!(elf_image(&bytes), Err(ElfError::NotLittleEndian)));
    let mut bytes = elf();
    put(&mut bytes, 18, 62, 2);
    assert!(matches!(elf_image(&bytes), Err(ElfError::NotAarch64)));
    let mut bytes = elf();
    put(&mut bytes, 56, 0, 2);
    assert!(matches!(elf_image(&bytes), Err(ElfError::NoSegments)));
    let mut bytes = elf();
    put(&mut bytes, 24, 0x5000_0000, 8);
    assert!(matches!(elf_image(&bytes), Err(ElfError::EntryOutside)));
}

#[test]
fn names_are_shortened() {
    assert_eq!(to_83(b"BOOTAA64.EFI"), Some(b"BOOTAA64EFI".to_vec()));
    assert_eq!(to_83(b"a.b"), Some(b"A       B  ".to_vec()));
    assert_eq!(path_components(b"/EFI//BOOT/X"), vec![b"EFI".to_vec(), b"BOOT".to_vec(), b"X".to_vec()]);
    let entry = short_entry(b"KERNEL", 0x1_0005, 77, 0x20).unwrap();
    assert_eq!(&entry[0..11], b"KERNEL     ");
    assert_eq!((entry[11], get_u32(&entry, 28)), (0x20, 77));
    assert_eq!(entry_cluster(&entry), 0x1_0005);
    let mut directory = entry.clone();
    directory.resize(512, 0);
    assert!(find_slot(&directory, b"KERNEL     ", true).is_some());
    assert!(find_slot(&directory, b"OTHER      ", true).is_none());
}

#[test]
fn a_disk_has_two_partition_tables() {
    let mut disk = Disk::new(40 * 1024 * 1024).unwrap();
    disk.write_gpt();
    let last = disk.bytes.len() - 512;
    assert_eq!(&disk.bytes[512..520], b"EFI PART");
    assert_eq!(&disk.bytes[last..last + 8], b"EFI PART");
    assert_eq!(get_u64(&disk.bytes, 512 + 24), 1);
    assert_eq!(get_u64(&disk.bytes, last + 24), 81_919);
    assert_eq!(get_u64(&disk.bytes, last + 32), 1);
    let entries = crc32(&disk.bytes[1024..1024 + 128 * 128]);
    assert_eq!(get_u32(&disk.bytes, 512 + 88), entries);
    let header = gpt_header(1, 81_919, 2, disk.first_lba, disk.last_lba, entries);
    assert_eq!(header, disk.bytes[512..1024].to_vec());
    assert!(matches!(Disk::new(1024), Err(EspError::TooSmall)));
}

#[test]
fn a_built_disk_passes_its_own_check() {
    let image = driver_image(3000, 5);
    let mut disk = Disk::new(40 * 1024 * 1024).unwrap();
    let files = vec![Source { path: b"EFI/BOOT/BOOTAA64.EFI".to_vec(), contents: image.clone() }];
    let volume = Fat32::build(disk.partition_sectors(), &files).unwrap();
    disk.copy_partition(&volume);
    disk.write_gpt();
    assert_eq!(disk.verify(&image), None);
    assert_eq!(disk.verify(&image[1..]), Some(DiskFault::ImageSize));
    let mut other = image.clone();
    other[2999] ^= 1;
    assert_eq!(disk.verify(&other), Some(DiskFault::ImageContents));
    let mut damaged = Disk { bytes: disk.bytes.clone(), first_lba: disk.first_lba, last_lba: disk.last_lba };
    damaged.bytes[600] ^= 1;
    assert_eq!(damaged.verify(&image), Some(DiskFault::GptHeaderCrc));
    damaged.bytes[512] = 0;
    assert_eq!(damaged.verify(&image), Some(DiskFault::GptSignature));
    let mut empty = Disk::new(40 * 1024 * 1024).unwrap();
    empty.copy_partition(&Fat32::build(empty.partition_sectors(), &Vec::new()).unwrap());
    empty.write_gpt();
    assert_eq!(empty.verify(&image), Some(DiskFault::NoEfi));
}

#[test]
fn files_share_directories_and_fill_the_volume() {
    let sectors = 81_852;
    let files = vec![
        Source { path: b"EFI/A".to_vec(), contents: vec![1; 10] },
        Source { path: b"EFI/B".to_vec(), contents: vec![2; 70_000] },
    ];
    let volume = Fat32::build(sectors, &files).unwrap();
    assert_eq!(&volume[82..90], b"FAT32   ");
    assert_eq!((volume[510], volume[511]), (0x55, 0xaa));
    let huge = vec![Source { path: b"BIG".to_vec(), contents: vec![0; 50_000_000] }];
    assert_eq!(Fat32::build(sectors, &huge), Err(EspError::Full));
    let nameless = vec![Source { path: b"//".to_vec(), contents: Vec::new() }];
    assert_eq!(Fat32::build(sectors, &nameless), Err(EspError::NoName));
    let mut many = Vec::new();
    let mut at = 0;
    while at < 200 {
        many.push(Source { path: format!("F{at}").into_bytes(), contents: vec![0] });
        at += 1;
    }
    assert_eq!(Fat32::build(sectors, &many), Err(EspError::DirectoryFull));
    assert_eq!(split_source(b"host=EFI/X"), Some((b"host".to_vec(), b"EFI/X".to_vec())));
    assert_eq!(split_source(b"host"), None);
    assert!(verified_line(3000).contains("3000"));
    assert_eq!(
        written_line("esp.img", 64, 2),
        "mkesp: wrote esp.img (64 MiB, GPT + FAT32 ESP, 2 file(s))"
    );
}

fn rom(image: &[u8]) -> Vec<u8> {
    let inner = dxe_volume(image).unwrap();
    let blob = build_section(0x17, &inner).unwrap();
    let options = lzma_rust2::LzmaOptions::with_preset(6);
    let size = Some(blob.len() as u64);
    let mut writer = lzma_rust2::LzmaWriter::new_use_header(Vec::new(), &options, size).unwrap();
    std::io::Write::write_all(&mut writer, &blob).unwrap();
    let packed = build_lzma_section(&writer.finish().unwrap()).unwrap();
    let mut header = vec![0u8; 24];
    header[0..16].copy_from_slice(&DXE_CORE_FV_GUID);
    header[18] = 0x0b;
    let file = build_ffs(&header, &packed).unwrap();
    let length = 0x4_0000usize;
    let mut volume = vec![0u8; 72];
    put(&mut volume, 32, length as u64, 8);
    volume[40..44].copy_from_slice(b"_FVH");
    put(&mut volume, 48, 72, 2);
    volume[55] = 2;
    put(&mut volume, 56, (length / 0x1000) as u64, 4);
    put(&mut volume, 60, 0x1000, 4);
    let sum = fv_header_checksum(&volume).unwrap();
    put(&mut volume, 50, sum as u64, 2);
    volume.extend_from_slice(&file);
    volume.resize(length, 0xff);
    let mut whole = vec![0u8; 0x1000];
    whole.extend_from_slice(&volume);
    whole
}

#[test]
fn a_rom_is_patched_and_read_back() {
    let before = driver_image(0x2345, 3);
    let rom = rom(&before);
    assert_eq!(extract(&rom).unwrap(), before);
    let after = driver_image(0x3456, 0x5a);
    let patched = patch(&rom, &after).unwrap();
    assert_eq!(patched.len(), rom.len());
    assert_eq!(extract(&patched).unwrap(), after);
    assert_eq!(&patched[0..0x1000], &rom[0..0x1000]);
    assert_eq!(block_size(&rom[0x1000..]).unwrap(), 0x1000);
    let text = match dump(&patched) {
        Ok(text) => text,
        Err(_) => panic!("the rom is whole"),
    };
    assert!(!text.is_empty());
}

#[test]
fn the_unpacked_content_is_rebuilt() {
    let (before, after) = (driver_image(0x2345, 3), driver_image(0x2222, 0x5a));
    let rom = rom(&before);
    let located = locate(&rom).unwrap();
    let section = located.section;
    let inner = dxe_volume(&before).unwrap();
    let mut blob = build_section(0x17, &inner).unwrap();
    assert!(search_core(&blob));
    let found = Found { volume: located.volume, file: located.file, blob: blob.clone() };
    let core = locate_in(found, section).unwrap();
    assert_eq!((core.inner.base, core.inner_files.len()), (4, 1));
    blob = rebuild_blob(&core, &after).unwrap();
    let found = Found { volume: located.volume, file: located.file, blob };
    let core = locate_in(found, section).unwrap();
    let image = &core.blob[core.pe.offset + 4..core.pe.offset + core.pe.size];
    assert_eq!(image, &after[..]);
    let empty = Found { volume: located.volume, file: located.file, blob: vec![0; 100] };
    assert!(matches!(locate_in(empty, section), Err(RomError::NoVolume)));
    // The stream stands behind the guided header, and erased bytes behind it.
    let placed = place_stream(&rom, &located, &vec![7; 10]).unwrap();
    let at = located.file.offset + 24 + 24;
    assert_eq!(placed.len(), rom.len());
    assert_eq!(&placed[at..at + 10], &[7; 10]);
    assert_eq!((placed[at + 10], placed[located.file.offset + located.file.size - 1]), (0xff, 0xff));
    let large = vec![0; 0x4_0000];
    assert!(matches!(place_stream(&rom, &located, &large), Err(RomError::PastVolume(_))));
}

#[test]
fn roms_that_cannot_be_patched_are_refused() {
    assert!(matches!(extract(&[0u8; 100]), Err(RomError::NoCore)));
    let rom = rom(&driver_image(0x2345, 3));
    assert!(matches!(patch(&rom, b"not an image"), Err(RomError::NotAnImage)));
    let mut noise = driver_image(0x8_0000, 1);
    let mut state = 12345u32;
    let mut at = 0x200;
    while at < noise.len() {
        state = state.wrapping_mul(1_664_525).wrapping_add(1_013_904_223);
        noise[at] = (state >> 24) as u8;
        at += 1;
    }
    assert!(matches!(patch(&rom, &noise), Err(RomError::PastVolume(_))));
    let file = FfsFile { offset: 0, size: 24, file_type: 0x0b };
    assert!(matches!(lzma_section(&[0u8; 24], &file), Err(RomError::NoSections)));
}

fn arguments(list: &[&str]) -> Vec<String> {
    list.iter().map(|text| text.to_string()).collect()
}

#[test]
fn arguments_are_read() {
    let found = match parse_arguments(&arguments(&["--rom", "a", "--pe", "b", "--out", "c"])) {
        Ok(found) => found,
        Err(_) => panic!("the arguments are whole"),
    };
    assert_eq!(found.rom, "a");
    assert_eq!((found.pe.as_deref(), found.out.as_deref()), (Some("b"), Some("c")));
    assert!(!found.dump);
    assert!(matches!(parse_arguments(&arguments(&["--dump"])), Err(ArgumentError::NoRom)));
    assert!(matches!(
        parse_arguments(&arguments(&["--rom", "a"])),
        Err(ArgumentError::NoPeOrOut)
    ));
    assert!(matches!(
        parse_arguments(&arguments(&["--rom"])),
        Err(ArgumentError::NeedsValue(_))
    ));
    assert!(matches!(
        parse_arguments(&arguments(&["--what"])),
        Err(ArgumentError::Unknown(_))
    ));
    assert!(matches!(parse_arguments(&arguments(&["--help"])), Err(ArgumentError::Help)));
}
