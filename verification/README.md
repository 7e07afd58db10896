# Tinted-Boot

Verified firmware logic for QEMU's AArch64 `virt` machine, and the host tools that
build its images.

- `src/` is the library, proved with Verus: contracts over sequences of bytes,
  units and characters, and laws that relate the functions.
  - `firmware/` is the machine before and around the DXE phase: interrupt
    controllers, timer, page tables, the device tree, the HOB list, PCI and virtio,
    GPT and FAT, the PE loader, the UEFI services, and the boot manager.
  - `platform/` is what the platform adds to a DXE core: its timer and console, the
    storage stack, SMBIOS records, and the boot-device selection.
  - `tools/` builds and takes apart images: ELF to flash image, GPT and FAT32 disk
    image, and the DXE core inside a firmware ROM.
  - `testapp/` is the application that exercises the services, as the calls it
    makes and the lines it reports.
- `tests/` run the library.
- `app/` is ordinary Rust around it: the tools' command lines, register and bus
  access, and the protocol functions that turn pointers into values.

What the library takes from other crates stands behind small functions whose doc
comments name the outside function and say what is believed of it: `object` reads
PE headers, `hadris-fat` reads FAT volumes, `lzma-rust2` packs and unpacks,
`aarch64-paging` holds the page tables, and `r-efi` names status codes.
