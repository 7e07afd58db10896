[package]
name = "tinted_boot"
version = "0.1.0"
edition = "2021"
publish = false

[dependencies]
aarch64-paging = "=0.12.3"
hadris-fat = "=2.5.0"
hadris-io = "=2.5.0"
linked_list_allocator = "=0.10.6"
log = "=0.4.35"
lzma-rust2 = "=0.25.0"
object = { version = "=0.40.0", features = ["unaligned"] }
patina = "=24.1.1"
patina_acpi = "=24.1.1"
patina_adv_logger = "=24.1.1"
patina_dxe_core = "=24.1.1"
patina_ffs_extractors = "=24.1.1"
patina_smbios = "=24.1.1"
patina_stacktrace = "=24.1.1"
r-efi = "=7.1.0"
spin = "=0.12.3"
virtio-drivers = "=0.13.0"
