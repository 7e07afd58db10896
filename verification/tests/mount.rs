//! Mounts an image the disk builder produced, with the reader the firmware uses.
use std::io::Cursor;

use hadris_fat::sync::{FatVolume, FatVolumeBuilder, FatVolumeReadExt};
use tinted_boot::tools::fat32::{Fat32, Source};
use tinted_boot::tools::mkesp::Disk;

const SIZE: usize = 64 * 1024 * 1024;

fn boot_image() -> Vec<u8> {
    let mut image = vec![0u8; 70_000];
    image[0] = b'M';
    image[1] = b'Z';
    let mut at = 2;
    while at < image.len() {
        image[at] = (at * 7 % 251) as u8;
        at += 1;
    }
    image
}

fn disk() -> Vec<u8> {
    let mut disk = Disk::new(SIZE).unwrap();
    let files = vec![Source {
        path: b"EFI/BOOT/BOOTAA64.EFI".to_vec(),
        contents: boot_image(),
    }];
    let volume = Fat32::build(disk.partition_sectors(), &files).unwrap();
    disk.copy_partition(&volume);
    disk.write_gpt();
    disk.bytes
}

#[test]
fn the_image_mounts_and_holds_the_boot_image() {
    let image = disk();
    let first_lba = 34usize;
    let last_lba = 131038usize;
    let partition = &image[first_lba * 512..(last_lba + 1) * 512];

    let volume: FatVolume<_> = FatVolumeBuilder::new(Cursor::new(partition))
        .open()
        .expect("the volume mounts");
    let root = volume.root_dir();
    let names: Vec<String> = root
        .entries()
        .filter_map(|entry| entry.ok())
        .filter_map(|entry| entry.as_entry().map(|entry| entry.name().to_string()))
        .collect();
    assert!(
        names.iter().any(|name| name.eq_ignore_ascii_case("EFI")),
        "names: {names:?}"
    );

    let efi = root
        .entries()
        .filter_map(|entry| entry.ok())
        .filter_map(|entry| entry.as_entry().cloned())
        .find(|entry| entry.name().eq_ignore_ascii_case("EFI"))
        .expect("EFI directory");
    let inner = volume.open_dir_entry(&efi).expect("a directory");
    let boot_entry = inner
        .entries()
        .filter_map(|entry| entry.ok())
        .filter_map(|entry| entry.as_entry().cloned())
        .find(|entry| entry.name().eq_ignore_ascii_case("BOOT"))
        .expect("BOOT directory");
    let boot = volume.open_dir_entry(&boot_entry).expect("a directory");
    let image_entry = boot
        .entries()
        .filter_map(|entry| entry.ok())
        .filter_map(|entry| entry.as_entry().cloned())
        .find(|entry| entry.name().eq_ignore_ascii_case("BOOTAA64.EFI"))
        .expect("the boot image");
    let mut reader = volume.read_file(&image_entry).expect("a reader");
    let mut buffer = vec![0u8; image_entry.len() as usize];
    let mut done = 0;
    while done < buffer.len() {
        let read = reader.read(&mut buffer[done..]).expect("the image reads");
        assert_ne!(read, 0, "the image reads");
        done += read;
    }
    assert_eq!(&buffer[0..2], b"MZ", "a PE image starts with MZ");
    assert_eq!(buffer, boot_image());
}
