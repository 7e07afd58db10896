//! Builds the ESP disk image the firmware boots from.
//!
//! The image is a GPT disk with one EFI System Partition formatted FAT32. The
//! layout is written out here because it has to agree with two other parts of
//! this crate: the firmware's GPT parser, which checks the header CRCs and the
//! ESP type GUID, and its FAT reader.
use crate::bytes::{
    copy_range, fill, le_at, le_bytes, lemma_inner, lemma_le_bytes_len, lemma_le_value_of_bytes,
    lemma_widths, push_fill, push_le, push_slice, push_units, put, put_slice, unit_bytes,
};
use crate::crc::{crc, crc32};
use crate::firmware::storage::gpt::{claims_esp, esp_among, info, EspInfo};
use crate::gpt::{defined, entries_of, table, type_of, Table, ESP_TYPE, SIGNATURE};
use crate::seqs::lemma_first;
use crate::text::{decimal_text, push_decimal};
use vstd::prelude::*;
use vstd::string::*;

verus! {

/// The sector size the image, the GPT, and the FAT volume share.
pub const SECTOR: usize = 512;

/// Default image size in MiB.
pub const DEFAULT_SIZE_MB: usize = 64;

/// GPT entries: 128 of 128 bytes, in 32 sectors starting at LBA 2.
pub const GPT_ENTRIES: usize = 128;

pub const GPT_ENTRY_SIZE: usize = 128;

/// The first LBA a partition may start at: 1 header + 32 entry sectors + 1.
pub const FIRST_USABLE_LBA: u64 = 34;

/// The partition's name, `WEIR ESP`.
pub const PARTITION_NAME: [u16; 8] = [0x57, 0x45, 0x49, 0x52, 0x20, 0x45, 0x53, 0x50];

/// Why an image cannot be built.
#[derive(Clone, Copy, PartialEq, Eq, Structural, Debug)]
pub enum EspError {
    /// The image is too small for a GPT, or the partition for a FAT32 volume.
    TooSmall,
    /// The partition has more clusters than a FAT32 volume can number.
    TooLarge,
    /// The image is full.
    Full,
    /// A directory's cluster has no room for another entry.
    DirectoryFull,
    /// A file needs a name.
    NoName,
    /// A name is not a valid 8.3 name.
    BadName,
    /// A path leads through an entry whose cluster is outside the volume.
    OutsideVolume,
}

/// The disk under construction.
pub struct Disk {
    pub bytes: Vec<u8>,
    pub first_lba: u64,
    pub last_lba: u64,
}

/// A stable GUID, so regenerating the image does not churn the identifiers.
pub open spec fn guid_of(tag: u8) -> Seq<u8> {
    seq![
        0x57u8,
        0x11u8,
        tag,
        0u8,
        0x57u8,
        0x45u8,
        0x49u8,
        0x52u8,
        0x80u8,
        0u8,
        0x57u8,
        0x45u8,
        0x49u8,
        0x52u8,
        0u8,
        tag,
    ]
}

/// A stable GUID.
pub fn guid(tag: u8) -> (guid: [u8; 16])
    ensures
        guid@ == guid_of(tag),
{
    let guid: [u8; 16] = [
        0x57, 0x11, tag, 0x00, 0x57, 0x45, 0x49, 0x52, 0x80, 0x00, 0x57, 0x45, 0x49, 0x52, 0x00,
        tag,
    ];
    assert(guid@ =~= guid_of(tag));
    guid
}

/// The 92 bytes of a header with a checksum.
pub open spec fn header_fields(
    this_lba: nat,
    backup_lba: nat,
    entries_lba: nat,
    first_usable: nat,
    last_usable: nat,
    entries_crc: nat,
    checksum: nat,
) -> Seq<u8> {
    SIGNATURE@ + le_bytes(0x1_0000, 4) + le_bytes(92, 4) + le_bytes(checksum, 4) + fill(4, 0)
        + le_bytes(this_lba, 8) + le_bytes(backup_lba, 8) + le_bytes(first_usable, 8) + le_bytes(
        last_usable,
        8,
    ) + guid_of(0x10) + le_bytes(entries_lba, 8) + le_bytes(128, 4) + le_bytes(128, 4) + le_bytes(
        entries_crc,
        4,
    )
}

/// A header sector: the fields, with the checksum of the fields themselves, and
/// zeroes.
pub open spec fn header_sector(
    this_lba: nat,
    backup_lba: nat,
    entries_lba: nat,
    first_usable: nat,
    last_usable: nat,
    entries_crc: nat,
) -> Seq<u8> {
    header_fields(
        this_lba,
        backup_lba,
        entries_lba,
        first_usable,
        last_usable,
        entries_crc,
        crc(
            header_fields(
                this_lba,
                backup_lba,
                entries_lba,
                first_usable,
                last_usable,
                entries_crc,
                0,
            ),
        ) as nat,
    ) + fill(420, 0)
}

fn write_fields(
    this_lba: u64,
    backup_lba: u64,
    entries_lba: u64,
    first_usable: u64,
    last_usable: u64,
    entries_crc: u32,
    checksum: u32,
) -> (fields: Vec<u8>)
    ensures
        fields@ == header_fields(
            this_lba as nat,
            backup_lba as nat,
            entries_lba as nat,
            first_usable as nat,
            last_usable as nat,
            entries_crc as nat,
            checksum as nat,
        ),
{
    let mut fields: Vec<u8> = Vec::new();
    push_slice(&mut fields, &SIGNATURE);
    assert(fields@ =~= SIGNATURE@);
    push_le(&mut fields, 0x1_0000, 4);
    push_le(&mut fields, 92, 4);
    push_le(&mut fields, checksum as u64, 4);
    push_fill(&mut fields, 4, 0);
    push_le(&mut fields, this_lba, 8);
    push_le(&mut fields, backup_lba, 8);
    push_le(&mut fields, first_usable, 8);
    push_le(&mut fields, last_usable, 8);
    let guid: [u8; 16] = guid(0x10);
    push_slice(&mut fields, &guid);
    push_le(&mut fields, entries_lba, 8);
    push_le(&mut fields, GPT_ENTRIES as u64, 4);
    push_le(&mut fields, GPT_ENTRY_SIZE as u64, 4);
    push_le(&mut fields, entries_crc as u64, 4);
    fields
}

/// A GPT header sector, with its CRC32 filled in.
pub fn gpt_header(
    this_lba: u64,
    backup_lba: u64,
    entries_lba: u64,
    first_usable: u64,
    last_usable: u64,
    entries_crc: u32,
) -> (header: Vec<u8>)
    ensures
        header@ == header_sector(
            this_lba as nat,
            backup_lba as nat,
            entries_lba as nat,
            first_usable as nat,
            last_usable as nat,
            entries_crc as nat,
        ),
{
    let blank: Vec<u8> = write_fields(
        this_lba,
        backup_lba,
        entries_lba,
        first_usable,
        last_usable,
        entries_crc,
        0,
    );
    let checksum: u32 = crc32(&blank);
    let mut header: Vec<u8> = write_fields(
        this_lba,
        backup_lba,
        entries_lba,
        first_usable,
        last_usable,
        entries_crc,
        checksum,
    );
    push_fill(&mut header, 420, 0);
    header
}

/// The ESP's entry.
pub open spec fn esp_entry(first_lba: nat, last_lba: nat) -> Seq<u8> {
    ESP_TYPE@ + guid_of(1) + le_bytes(first_lba, 8) + le_bytes(last_lba, 8) + fill(8, 0)
        + unit_bytes(PARTITION_NAME@) + fill(56, 0)
}

/// The entry array: one ESP, the rest of it empty.
pub open spec fn entry_array(first_lba: nat, last_lba: nat) -> Seq<u8> {
    esp_entry(first_lba, last_lba) + fill(127 * 128, 0)
}

fn write_entries(first_lba: u64, last_lba: u64) -> (entries: Vec<u8>)
    ensures
        entries@ == entry_array(first_lba as nat, last_lba as nat),
{
    let mut entries: Vec<u8> = Vec::new();
    push_slice(&mut entries, &ESP_TYPE);
    assert(entries@ =~= ESP_TYPE@);
    let guid: [u8; 16] = guid(1);
    push_slice(&mut entries, &guid);
    push_le(&mut entries, first_lba, 8);
    push_le(&mut entries, last_lba, 8);
    push_fill(&mut entries, 8, 0);
    push_units(&mut entries, &PARTITION_NAME);
    push_fill(&mut entries, 56, 0);
    push_fill(&mut entries, 127 * 128, 0);
    entries
}

pub proof fn lemma_lens(a: nat, b: nat, c: nat, d: nat, e: nat, f: nat, g: nat)
    ensures
        header_fields(a, b, c, d, e, f, g).len() == 92,
        header_sector(a, b, c, d, e, f).len() == SECTOR,
        esp_entry(d, e).len() == 128,
        entry_array(d, e).len() == 128 * 128,
{
    lemma_le_bytes_len(0x1_0000, 4);
    lemma_le_bytes_len(92, 4);
    lemma_le_bytes_len(g, 4);
    lemma_le_bytes_len(crc(header_fields(a, b, c, d, e, f, 0)) as nat, 4);
    lemma_le_bytes_len(a, 8);
    lemma_le_bytes_len(b, 8);
    lemma_le_bytes_len(c, 8);
    lemma_le_bytes_len(d, 8);
    lemma_le_bytes_len(e, 8);
    lemma_le_bytes_len(f, 4);
    lemma_le_bytes_len(128, 4);
}

/// The fields of the protective MBR's partition record.
pub open spec fn protective_record(last_sector: nat) -> Seq<u8> {
    seq![0u8, 0u8, 2u8, 0u8, 0xeeu8, 0xffu8, 0xffu8, 0xffu8] + le_bytes(1, 4) + le_bytes(
        last_sector,
        4,
    )
}

impl Disk {
    /// What a disk under construction keeps to: there is room for the primary
    /// header and entries, the partition, and the backup entries and header.
    pub open spec fn wf(&self) -> bool {
        &&& self.bytes@.len() / 512 > FIRST_USABLE_LBA + 33 + 8
        &&& self.first_lba == FIRST_USABLE_LBA
        &&& self.last_lba == self.bytes@.len() / 512 - 34
    }

    /// An empty disk of a size.
    pub fn new(size_bytes: usize) -> (disk: Result<Disk, EspError>)
        ensures
            match disk {
                Ok(disk) => size_bytes / 512 > FIRST_USABLE_LBA + 33 + 8 && disk.wf() && disk.bytes@
                    == fill(size_bytes as nat, 0),
                Err(error) => size_bytes / 512 <= FIRST_USABLE_LBA + 33 + 8 && error
                    == EspError::TooSmall,
            },
    {
        let sectors: u64 = size_bytes as u64 / 512;
        if sectors <= FIRST_USABLE_LBA + 33 + 8 {
            return Err(EspError::TooSmall);
        }
        let mut bytes: Vec<u8> = Vec::new();
        push_fill(&mut bytes, size_bytes, 0);
        assert(bytes@ =~= fill(size_bytes as nat, 0));
        Ok(Disk { bytes, first_lba: FIRST_USABLE_LBA, last_lba: sectors - 34 })
    }

    /// How many sectors the partition has.
    pub open spec fn sectors(&self) -> int {
        self.last_lba - self.first_lba + 1
    }

    /// How many sectors the partition has.
    pub fn partition_sectors(&self) -> (sectors: u64)
        requires
            self.wf(),
        ensures
            sectors == self.sectors(),
            self.first_lba * 512 + sectors * 512 <= self.bytes@.len(),
    {
        let _size: usize = self.bytes.len();
        self.last_lba - self.first_lba + 1
    }

    /// The disk's bytes once the partition table is written.
    pub open spec fn with_gpt(bytes: Seq<u8>, first_lba: nat, last_lba: nat) -> Seq<u8> {
        let last = (bytes.len() / 512 - 1) as nat;
        let entries = entry_array(first_lba, last_lba);
        let entries_crc = crc(entries) as nat;
        let b = put(bytes, 0x1be, protective_record(last));
        let b = put(b, 0x1fe, seq![0x55u8, 0xaau8]);
        let b = put(b, 512, header_sector(1, last, 2, first_lba, last_lba, entries_crc));
        let b = put(
            b,
            last as int * 512,
            header_sector(last, 1, (last - 32) as nat, first_lba, last_lba, entries_crc),
        );
        let b = put(b, 1024, entries);
        put(b, (last - 32) * 512, entries)
    }

    /// Writes the partition table: a protective MBR, so a tool that only
    /// understands the old scheme sees a disk it must not touch; the primary
    /// header at LBA 1, pointed at the entries at LBA 2; the backup header in the
    /// last sector, pointed at the entries copied in front of it.
    pub fn write_gpt(&mut self)
        requires
            old(self).wf(),
        ensures
            final(self).wf(),
            final(self).first_lba == old(self).first_lba,
            final(self).last_lba == old(self).last_lba,
            final(self).bytes@.len() == old(self).bytes@.len(),
            final(self).bytes@ == Self::with_gpt(
                old(self).bytes@,
                old(self).first_lba as nat,
                old(self).last_lba as nat,
            ),
    {
        let size: usize = self.bytes.len();
        let last: u64 = size as u64 / 512 - 1;
        let mut record: Vec<u8> = Vec::new();
        record.push(0);
        record.push(0);
        record.push(2);
        record.push(0);
        record.push(0xee);
        record.push(0xff);
        record.push(0xff);
        record.push(0xff);
        assert(record@ =~= seq![0u8, 0u8, 2u8, 0u8, 0xeeu8, 0xffu8, 0xffu8, 0xffu8]);
        push_le(&mut record, 1, 4);
        push_le(&mut record, last, 4);
        let mut mark: Vec<u8> = Vec::new();
        mark.push(0x55);
        mark.push(0xaa);
        assert(mark@ =~= seq![0x55u8, 0xaau8]);
        let entries: Vec<u8> = write_entries(self.first_lba, self.last_lba);
        let entries_crc: u32 = crc32(&entries);
        let primary: Vec<u8> = gpt_header(
            1,
            last,
            2,
            self.first_lba,
            self.last_lba,
            entries_crc,
        );
        let backup: Vec<u8> = gpt_header(
            last,
            1,
            last - 32,
            self.first_lba,
            self.last_lba,
            entries_crc,
        );
        proof {
            lemma_le_bytes_len(1, 4);
            lemma_le_bytes_len(last as nat, 4);
            lemma_lens(
                1,
                last as nat,
                2,
                self.first_lba as nat,
                self.last_lba as nat,
                entries_crc as nat,
                0,
            );
            lemma_lens(
                last as nat,
                1,
                (last - 32) as nat,
                self.first_lba as nat,
                self.last_lba as nat,
                entries_crc as nat,
                0,
            );
        }
        put_slice(&mut self.bytes, 0x1be, &record);
        put_slice(&mut self.bytes, 0x1fe, &mark);
        put_slice(&mut self.bytes, 512, &primary);
        put_slice(&mut self.bytes, last as usize * 512, &backup);
        put_slice(&mut self.bytes, 1024, &entries);
        put_slice(&mut self.bytes, (last - 32) as usize * 512, &entries);
    }

    /// Puts a volume into the partition.
    pub fn copy_partition(&mut self, volume: &[u8])
        requires
            old(self).wf(),
            volume@.len() <= old(self).sectors() * 512,
        ensures
            final(self).wf(),
            final(self).first_lba == old(self).first_lba,
            final(self).last_lba == old(self).last_lba,
            final(self).bytes@.len() == old(self).bytes@.len(),
            final(self).bytes@ == put(
                old(self).bytes@,
                old(self).first_lba * 512,
                volume@,
            ),
    {
        let _size: usize = self.bytes.len();
        put_slice(&mut self.bytes, self.first_lba as usize * 512, volume);
    }
}

/// The firmware finds the partition that was written, from the primary header
/// and from the backup: the headers and the array match their checksums, the
/// first entry is an EFI System Partition, and nothing that is put into the
/// partition changes that.
pub proof fn law_partition_is_found(bytes: Seq<u8>, volume: Seq<u8>)
    requires
        bytes.len() / 512 > FIRST_USABLE_LBA + 33 + 8,
        bytes.len() <= u64::MAX,
        volume.len() <= (bytes.len() / 512 - 34 - FIRST_USABLE_LBA + 1) * 512,
    ensures
        ({
            let last = bytes.len() / 512 - 1;
            let last_lba = bytes.len() / 512 - 34;
            let written = put(
                Disk::with_gpt(bytes, FIRST_USABLE_LBA as nat, last_lba as nat),
                FIRST_USABLE_LBA * 512,
                volume,
            );
            let primary = table(written.subrange(512, 1024));
            let backup = table(written.subrange(last * 512, last * 512 + 512));
            let esp = EspInfo {
                first_lba: FIRST_USABLE_LBA,
                last_lba: last_lba as u64,
                number: 1,
            };
            &&& primary is Some
            &&& primary->0.lba == 2
            &&& primary->0.count * primary->0.entry_size == 32 * 512
            &&& esp_among(written.subrange(1024, 17408), primary->0) == Some(esp)
            &&& backup is Some
            &&& backup->0.lba == last - 32
            &&& backup->0.count * backup->0.entry_size == 32 * 512
            &&& esp_among(
                written.subrange((last - 32) * 512, (last - 32) * 512 + 32 * 512),
                backup->0,
            ) == Some(esp)
        }),
{
    let last = (bytes.len() / 512 - 1) as nat;
    let last_lba = (bytes.len() / 512 - 34) as nat;
    let first = FIRST_USABLE_LBA as nat;
    let entries_crc = crc(entry_array(first, last_lba)) as nat;
    let h1 = header_sector(1, last, 2, first, last_lba, entries_crc);
    let h2 = header_sector(last, 1, (last - 32) as nat, first, last_lba, entries_crc);
    lemma_written_parts(bytes, volume);
    lemma_header_reads_back(1, last, 2, first, last_lba, entries_crc);
    lemma_header_reads_back(last, 1, (last - 32) as nat, first, last_lba, entries_crc);
    lemma_entries_read_back(first, last_lba, table(h1)->0);
    lemma_entries_read_back(first, last_lba, table(h2)->0);
}

/// Where the headers and the entry arrays of a disk are.
pub proof fn lemma_written_parts(bytes: Seq<u8>, volume: Seq<u8>)
    requires
        bytes.len() / 512 > FIRST_USABLE_LBA + 33 + 8,
        volume.len() <= (bytes.len() / 512 - 34 - FIRST_USABLE_LBA + 1) * 512,
    ensures
        ({
            let last = (bytes.len() / 512 - 1) as nat;
            let last_lba = (bytes.len() / 512 - 34) as nat;
            let first = FIRST_USABLE_LBA as nat;
            let entries = entry_array(first, last_lba);
            let entries_crc = crc(entries) as nat;
            let whole = Disk::with_gpt(bytes, first, last_lba);
            let written = put(whole, FIRST_USABLE_LBA * 512, volume);
            &&& whole.len() == bytes.len()
            &&& written.len() == bytes.len()
            &&& written.subrange(512, 1024) == header_sector(
                1,
                last,
                2,
                first,
                last_lba,
                entries_crc,
            )
            &&& written.subrange(last as int * 512, last as int * 512 + 512) == header_sector(
                last,
                1,
                (last - 32) as nat,
                first,
                last_lba,
                entries_crc,
            )
            &&& written.subrange(1024, 17408) == entries
            &&& written.subrange((last - 32) * 512, (last - 32) * 512 + 32 * 512) == entries
        }),
{
    let last = (bytes.len() / 512 - 1) as nat;
    let last_lba = (bytes.len() / 512 - 34) as nat;
    let first = FIRST_USABLE_LBA as nat;
    let entries = entry_array(first, last_lba);
    let entries_crc = crc(entries) as nat;
    let whole = Disk::with_gpt(bytes, first, last_lba);
    let written = put(whole, FIRST_USABLE_LBA * 512, volume);
    let h1 = header_sector(1, last, 2, first, last_lba, entries_crc);
    let h2 = header_sector(last, 1, (last - 32) as nat, first, last_lba, entries_crc);
    lemma_lens(1, last, 2, first, last_lba, entries_crc, 0);
    lemma_lens(last, 1, (last - 32) as nat, first, last_lba, entries_crc, 0);
    lemma_le_bytes_len(1, 4);
    lemma_le_bytes_len(last, 4);
    assert(written.subrange(512, 1024) =~= h1);
    assert(written.subrange(last as int * 512, last as int * 512 + 512) =~= h2);
    assert(written.subrange(1024, 17408) =~= entries);
    assert(written.subrange((last - 32) * 512, (last - 32) * 512 + 32 * 512) =~= entries);
}

pub proof fn lemma_header_reads_back(a: nat, b: nat, c: nat, d: nat, e: nat, f: nat)
    requires
        c <= u64::MAX,
        f <= u32::MAX,
    ensures
        table(header_sector(a, b, c, d, e, f)) == Some(
            Table { lba: c as u64, count: 128, entry_size: 128, crc: f as u32 },
        ),
        le_at(header_sector(a, b, c, d, e, f), 12, 4) == 92,
        le_at(header_sector(a, b, c, d, e, f), 88, 4) == f,
{
    let h = header_sector(a, b, c, d, e, f);
    let blank = header_fields(a, b, c, d, e, f, 0);
    let check = crc(blank) as nat;
    lemma_lens(a, b, c, d, e, f, check);
    lemma_lens(a, b, c, d, e, f, 0);
    lemma_widths();
    lemma_le_bytes_len(0x1_0000, 4);
    lemma_le_bytes_len(92, 4);
    lemma_le_bytes_len(check, 4);
    lemma_le_bytes_len(0, 4);
    lemma_le_bytes_len(a, 8);
    lemma_le_bytes_len(b, 8);
    lemma_le_bytes_len(c, 8);
    lemma_le_bytes_len(d, 8);
    lemma_le_bytes_len(e, 8);
    lemma_le_bytes_len(f, 4);
    lemma_le_bytes_len(128, 4);
    lemma_le_value_of_bytes(92, 4);
    lemma_le_value_of_bytes(check, 4);
    lemma_le_value_of_bytes(c, 8);
    lemma_le_value_of_bytes(128, 4);
    lemma_le_value_of_bytes(f, 4);
    assert(h.subrange(0, 8) =~= SIGNATURE@);
    assert(h.subrange(12, 16) =~= le_bytes(92, 4));
    assert(h.subrange(16, 20) =~= le_bytes(check, 4));
    assert(h.subrange(72, 80) =~= le_bytes(c, 8));
    assert(h.subrange(80, 84) =~= le_bytes(128, 4));
    assert(h.subrange(84, 88) =~= le_bytes(128, 4));
    assert(h.subrange(88, 92) =~= le_bytes(f, 4));
    assert(le_bytes(0, 4) =~= fill(4, 0)) by {
        reveal_with_fuel(le_bytes, 5);
    }
    assert(put(h.subrange(0, 92), 16, fill(4, 0)) =~= blank);
}

proof fn lemma_entries_read_back(d: nat, e: nat, t: Table)
    requires
        d <= u64::MAX,
        e <= u64::MAX,
        t.count == 128,
        t.entry_size == 128,
        t.crc == crc(entry_array(d, e)),
    ensures
        esp_among(entry_array(d, e), t) == Some(
            EspInfo { first_lba: d as u64, last_lba: e as u64, number: 1 },
        ),
{
    let bytes = entry_array(d, e);
    let entry = esp_entry(d, e);
    let entries = entries_of(bytes, t);
    lemma_lens(0, 0, 0, d, e, 0, 0);
    lemma_widths();
    lemma_le_bytes_len(d, 8);
    lemma_le_bytes_len(e, 8);
    lemma_le_value_of_bytes(d, 8);
    lemma_le_value_of_bytes(e, 8);
    assert(bytes.subrange(0, 128) =~= entry);
    assert(entries[0] == entry);
    assert(entry.subrange(0, 16) =~= ESP_TYPE@);
    assert(entry.subrange(32, 40) =~= le_bytes(d, 8));
    assert(entry.subrange(40, 48) =~= le_bytes(e, 8));
    assert(ESP_TYPE@[0] == 0x28);
    assert(fill(16, 0)[0] == 0);
    assert(type_of(entry) == ESP_TYPE@);
    assert(defined(entry));
    let claim = |x: Seq<u8>| defined(x) && claims_esp(x);
    assert(claim(entries[0]));
    lemma_first(entries, claim, 0);
    assert(info(entry, 0) == EspInfo { first_lba: d as u64, last_lba: e as u64, number: 1 });
}

/// The first entry says what it was made of.
pub proof fn lemma_entry_fields_read_back(d: nat, e: nat)
    requires
        d <= u64::MAX,
    ensures
        entry_array(d, e).subrange(0, 16) == ESP_TYPE@,
        le_at(entry_array(d, e), 32, 8) == d,
{
    let bytes = entry_array(d, e);
    lemma_lens(0, 0, 0, d, e, 0, 0);
    lemma_widths();
    lemma_le_bytes_len(d, 8);
    lemma_le_bytes_len(e, 8);
    lemma_le_value_of_bytes(d, 8);
    assert(bytes.subrange(0, 16) =~= ESP_TYPE@);
    assert(bytes.subrange(32, 40) =~= le_bytes(d, 8));
}

/// Where the first `=` of an argument is, or its length.
pub open spec fn equals_at(s: Seq<u8>) -> int {
    crate::seqs::first(s, |b: u8| b == 0x3d)
}

/// Splits a `src=dst` argument; `None` when there is no `=`.
pub fn split_source(argument: &[u8]) -> (parts: Option<(Vec<u8>, Vec<u8>)>)
    ensures
        match parts {
            Some((source, destination)) => equals_at(argument@) < argument@.len() && source@
                == argument@.subrange(0, equals_at(argument@)) && destination@
                == argument@.subrange(equals_at(argument@) + 1, argument@.len() as int),
            None => equals_at(argument@) == argument@.len(),
        },
{
    let size: usize = argument.len();
    let ghost equals = |b: u8| b == 0x3d;
    let mut at: usize = 0;
    while at < size
        invariant
            at <= size,
            size == argument@.len(),
            equals == (|b: u8| b == 0x3d),
            forall|i: int| 0 <= i < at ==> !equals(#[trigger] argument@[i]),
        decreases size - at,
    {
        if argument[at] == 0x3d {
            proof {
                lemma_first(argument@, equals, at as int);
            }
            return Some((copy_range(argument, 0, at), copy_range(argument, at + 1, size)));
        }
        at = at + 1;
    }
    proof {
        lemma_first(argument@, equals, size as int);
    }
    None
}

/// What is said of a disk that passed.
pub fn verified_line(size: usize) -> (line: String)
    ensures
        line@ == "mkesp: verified GPT CRCs, FAT32 boot sector, and the "@ + decimal_text(
            size as nat,
        ) + " byte boot image in \\EFI\\BOOT"@,
{
    let mut line: String = String::from_str("mkesp: verified GPT CRCs, FAT32 boot sector, and the ");
    push_decimal(&mut line, size as u64);
    line.append(" byte boot image in \\EFI\\BOOT");
    line
}

/// What is said of a disk that was written.
pub fn written_line(path: &str, size_mb: usize, files: usize) -> (line: String)
    ensures
        line@ == "mkesp: wrote "@ + path@ + " ("@ + decimal_text(size_mb as nat)
            + " MiB, GPT + FAT32 ESP, "@ + decimal_text(files as nat) + " file(s))"@,
{
    let mut line: String = String::from_str("mkesp: wrote ");
    line.append(path);
    line.append(" (");
    push_decimal(&mut line, size_mb as u64);
    line.append(" MiB, GPT + FAT32 ESP, ");
    push_decimal(&mut line, files as u64);
    line.append(" file(s))");
    line
}

/// A header says where it is, where the other one is, and which sectors a partition may have,
/// each where the table has it.
pub proof fn law_header_is_laid_out(
    this_lba: nat,
    backup_lba: nat,
    entries_lba: nat,
    first_usable: nat,
    last_usable: nat,
    entries_crc: nat,
)
    requires
        this_lba <= u64::MAX,
        backup_lba <= u64::MAX,
        first_usable <= u64::MAX,
        last_usable <= u64::MAX,
    ensures
        ({
            let h = header_sector(
                this_lba,
                backup_lba,
                entries_lba,
                first_usable,
                last_usable,
                entries_crc,
            );
            &&& h.len() == 512
            &&& le_at(h, 8, 4) == 0x1_0000
            &&& le_at(h, 24, 8) == this_lba
            &&& le_at(h, 32, 8) == backup_lba
            &&& le_at(h, 40, 8) == first_usable
            &&& le_at(h, 48, 8) == last_usable
        }),
{
    let h = header_sector(
        this_lba,
        backup_lba,
        entries_lba,
        first_usable,
        last_usable,
        entries_crc,
    );
    let blank = header_fields(
        this_lba,
        backup_lba,
        entries_lba,
        first_usable,
        last_usable,
        entries_crc,
        0,
    );
    lemma_lens(this_lba, backup_lba, entries_lba, first_usable, last_usable, entries_crc, 0);
    lemma_widths();
    lemma_le_bytes_len(92, 4);
    lemma_le_bytes_len(crc(blank) as nat, 4);
    lemma_le_bytes_len(entries_lba, 8);
    lemma_le_bytes_len(128, 4);
    lemma_le_bytes_len(entries_crc, 4);
    lemma_le_value_of_bytes(0x1_0000, 4);
    lemma_le_value_of_bytes(this_lba, 8);
    lemma_le_value_of_bytes(backup_lba, 8);
    lemma_le_value_of_bytes(first_usable, 8);
    lemma_le_value_of_bytes(last_usable, 8);
    assert(h.subrange(8, 12) =~= le_bytes(0x1_0000, 4));
    assert(h.subrange(24, 32) =~= le_bytes(this_lba, 8));
    assert(h.subrange(32, 40) =~= le_bytes(backup_lba, 8));
    assert(h.subrange(40, 48) =~= le_bytes(first_usable, 8));
    assert(h.subrange(48, 56) =~= le_bytes(last_usable, 8));
}

proof fn lemma_put_nothing(b: Seq<u8>, at: int)
    ensures
        put(b, at, Seq::<u8>::empty()) == b,
{
    assert(put(b, at, Seq::<u8>::empty()) =~= b);
}

/// What a sector says is what the bytes there say.
proof fn lemma_sector_says(b: Seq<u8>, at: int, h: Seq<u8>)
    requires
        0 <= at,
        at + 512 <= b.len(),
        b.subrange(at, at + 512) == h,
    ensures
        le_at(b, at + 24, 8) == le_at(h, 24, 8),
        le_at(b, at + 32, 8) == le_at(h, 32, 8),
        le_at(b, at + 40, 8) == le_at(h, 40, 8),
        le_at(b, at + 48, 8) == le_at(h, 48, 8),
{
    lemma_inner(b, at, 512, 24, 32);
    lemma_inner(b, at, 512, 32, 40);
    lemma_inner(b, at, 512, 40, 48);
    lemma_inner(b, at, 512, 48, 56);
}

/// The disk once its table is written: the first sector protects all the others, the second
/// says that the last one is its backup, and the last one that the second is.
#[verifier::spinoff_prover]
pub proof fn law_both_headers_are_written(bytes: Seq<u8>)
    requires
        bytes.len() / 512 > FIRST_USABLE_LBA + 33 + 8,
        bytes.len() <= u64::MAX,
        bytes.len() / 512 <= u32::MAX,
    ensures
        ({
            let last = bytes.len() / 512 - 1;
            let last_lba = bytes.len() / 512 - 34;
            let b = Disk::with_gpt(bytes, FIRST_USABLE_LBA as nat, last_lba as nat);
            &&& b.len() == bytes.len()
            &&& b[0x1c2] == 0xee
            &&& le_at(b, 0x1c6, 4) == 1
            &&& le_at(b, 0x1ca, 4) == last
            &&& b[0x1fe] == 0x55 && b[0x1ff] == 0xaa
            &&& le_at(b, 536, 8) == 1
            &&& le_at(b, 544, 8) == last
            &&& le_at(b, last * 512 + 24, 8) == last
            &&& le_at(b, last * 512 + 32, 8) == 1
            &&& le_at(b, 552, 8) == FIRST_USABLE_LBA && le_at(b, last * 512 + 40, 8)
                == FIRST_USABLE_LBA
            &&& le_at(b, 560, 8) == last_lba && le_at(b, last * 512 + 48, 8) == last_lba
        }),
{
    let last = (bytes.len() / 512 - 1) as nat;
    let last_lba = (bytes.len() / 512 - 34) as nat;
    let first = FIRST_USABLE_LBA as nat;
    let b = Disk::with_gpt(bytes, first, last_lba);
    let entries_crc = crc(entry_array(first, last_lba)) as nat;
    let h1 = header_sector(1, last, 2, first, last_lba, entries_crc);
    let h2 = header_sector(last, 1, (last - 32) as nat, first, last_lba, entries_crc);
    lemma_written_parts(bytes, Seq::empty());
    lemma_put_nothing(b, FIRST_USABLE_LBA * 512);
    law_header_is_laid_out(1, last, 2, first, last_lba, entries_crc);
    law_header_is_laid_out(last, 1, (last - 32) as nat, first, last_lba, entries_crc);
    lemma_sector_says(b, 512, h1);
    lemma_sector_says(b, last as int * 512, h2);
    lemma_protected(bytes, first, last_lba);
}

proof fn lemma_protected(bytes: Seq<u8>, first_lba: nat, last_lba: nat)
    requires
        bytes.len() / 512 > FIRST_USABLE_LBA + 33 + 8,
        bytes.len() / 512 <= u32::MAX,
    ensures
        ({
            let b = Disk::with_gpt(bytes, first_lba, last_lba);
            &&& b[0x1c2] == 0xee
            &&& le_at(b, 0x1c6, 4) == 1
            &&& le_at(b, 0x1ca, 4) == bytes.len() / 512 - 1
            &&& b[0x1fe] == 0x55 && b[0x1ff] == 0xaa
        }),
{
    let last = (bytes.len() / 512 - 1) as nat;
    let b = Disk::with_gpt(bytes, first_lba, last_lba);
    let entries_crc = crc(entry_array(first_lba, last_lba)) as nat;
    lemma_lens(1, last, 2, first_lba, last_lba, entries_crc, 0);
    lemma_lens(last, 1, (last - 32) as nat, first_lba, last_lba, entries_crc, 0);
    lemma_widths();
    lemma_le_value_of_bytes(1, 4);
    lemma_le_value_of_bytes(last, 4);
    assert(b.subrange(0x1c6, 0x1ca) =~= le_bytes(1, 4));
    assert(b.subrange(0x1ca, 0x1ce) =~= le_bytes(last, 4));
}

} // verus!
