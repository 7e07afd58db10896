//! The boot manager: finding the boot image, loading it, and running it.
//!
//! The path is the one a firmware walks: enumerate disks, find the ESP, mount its
//! filesystem, then take the first entry of `BootOrder` that resolves - or the
//! removable-media fallback path `\EFI\BOOT\BOOTAA64.EFI`.
use crate::block::BlockDevice;
use crate::block_io::media_of;
use crate::bytes::push_slice;
use crate::firmware::block::SubDevice;
use crate::firmware::boot::images::lemma_second_protocol;
use crate::firmware::boot::load_option::{
    boot_order, boot_order_paths, views, Candidate, CandidateView,
};
use crate::firmware::fat::{mount, mounts, Volume};
use crate::firmware::fs::{walks, FileNode, FileSystem};
use crate::firmware::loader::pe::Loaded;
use crate::firmware::storage::gpt::{find_esp, finds, EspInfo};
use crate::firmware::uefi::blockio::{Slot, Slots, MAX_SLOTS};
use crate::firmware::uefi::device_path::{
    END_NODE, MEDIA_VENDOR, MESSAGING_DEVICE,
};
use crate::firmware::uefi::handles::{carries, is_on, on, Database, Installed, MAX_HANDLES};
use crate::firmware::uefi::mem::Memory;
use crate::firmware::uefi::services::{
    BLOCK_IO_PROTOCOL_GUID, DEVICE_PATH_PROTOCOL_GUID, SIMPLE_FILE_SYSTEM_PROTOCOL_GUID,
};
use crate::firmware::uefi::simplefs::{page_at, VolumeSlot, Volumes, MAX_VOLUMES};
use crate::firmware::uefi::vars::Store;
use crate::seqs::lemma_first;
use crate::status::Status;
use crate::text::{decimal_text, hex_text, parts, push_decimal, push_hex, texts};
use vstd::prelude::*;
use vstd::string::*;

verus! {

/// The size of the device path the firmware builds for a volume: a vendor node plus
/// the terminator.
pub const DEVICE_PATH_BYTES: usize = 24;

/// The removable-media fallback, which every ESP that can boot has.
pub open spec fn fallback_path() -> Seq<char> {
    "\\EFI\\BOOT\\BOOTAA64.EFI"@
}

/// Whether opening a path on a filesystem may give a node, or may not.
pub open spec fn may_open<F: FileSystem>(filesystem: F, path: Seq<char>, found: bool) -> bool {
    exists|node: Option<F::Node>|
        #![trigger opens_to(filesystem, path, node)]
        opens_to(filesystem, path, node) && (node is Some) == found
}

/// Whether opening a path on a filesystem may give this.
pub open spec fn opens_to<F: FileSystem>(
    filesystem: F,
    path: Seq<char>,
    node: Option<F::Node>,
) -> bool {
    exists|root: F::Node|
        #![trigger filesystem.rooted(root)]
        filesystem.rooted(root) && walks(root, parts(path, true), node)
}

/// The file node for a path, for callers that need the file itself.
pub fn open_file<F: FileSystem>(filesystem: &F, path: &str) -> (node: Option<F::Node>)
    ensures
        opens_to(*filesystem, path@, node),
{
    filesystem.open(path)
}

/// What is said of an entry that is not there.
pub open spec fn missing_text(path: Seq<char>) -> Seq<char> {
    "[boot] BootOrder entry "@ + path + " is not on this volume"@
}

/// The entry to boot among the candidates from an index on, by which of them open and
/// whether the fallback does, and what is said of it.
pub open spec fn chosen(
    candidates: Seq<CandidateView>,
    opened: Seq<bool>,
    fallback: bool,
    from: int,
) -> (Option<CandidateView>, Seq<Seq<char>>)
    decreases candidates.len() - from,
{
    if from >= candidates.len() {
        if fallback {
            (
                Some(CandidateView { path: fallback_path(), options: Seq::empty() }),
                seq!["[boot] using the removable-media fallback"@],
            )
        } else {
            (None, Seq::empty())
        }
    } else if opened[from] {
        (Some(candidates[from]), seq!["[boot] BootOrder names "@ + candidates[from].path])
    } else {
        let (entry, lines) = chosen(candidates, opened, fallback, from + 1);
        (entry, seq![missing_text(candidates[from].path)] + lines)
    }
}

/// The boot path to use, and its optional data, with what is said on the way:
/// `BootOrder` first, then the removable-media fallback. Opening a file is what tells
/// whether it is there.
pub fn choose_boot_image<F: FileSystem>(filesystem: &F, store: &Store) -> (answer: (
    Option<Candidate>,
    Vec<String>,
))
    requires
        store.wf(),
    ensures
        exists|opened: Seq<bool>, fallback: bool|
            {
                let (entry, lines) = #[trigger] chosen(boot_order(store@), opened, fallback, 0);
                &&& opened.len() == boot_order(store@).len()
                &&& forall|i: int|
                    0 <= i < opened.len() ==> may_open(
                        *filesystem,
                        (#[trigger] boot_order(store@)[i]).path,
                        opened[i],
                    )
                &&& may_open(*filesystem, fallback_path(), fallback)
                &&& entry == (match answer.0 {
                    Some(candidate) => Some(candidate@),
                    None => None,
                })
                &&& texts(answer.1@) == lines
            },
{
    let candidates: Vec<Candidate> = boot_order_paths(store);
    let mut opened: Vec<bool> = Vec::new();
    let mut next: usize = 0;
    while next < candidates.len()
        invariant
            next <= candidates@.len(),
            next == opened@.len(),
            views(candidates@) == boot_order(store@),
            forall|i: int|
                0 <= i < next ==> may_open(
                    *filesystem,
                    (#[trigger] boot_order(store@)[i]).path,
                    opened@[i],
                ),
        decreases candidates@.len() - next,
    {
        assert(views(candidates@)[next as int] == candidates@[next as int]@);
        let node: Option<F::Node> = open_file(filesystem, candidates[next].path.as_str());
        let there: bool = node.is_some();
        assert(may_open(*filesystem, boot_order(store@)[next as int].path, there));
        opened.push(there);
        next = next + 1;
    }
    let node: Option<F::Node> = open_file(filesystem, "\\EFI\\BOOT\\BOOTAA64.EFI");
    let fallback: bool = node.is_some();
    assert(may_open(*filesystem, fallback_path(), fallback));
    let ghost order = views(candidates@);
    let answer: (Option<Candidate>, Vec<String>) = choose_among(candidates, &opened, fallback);
    assert(order == boot_order(store@));
    answer
}

/// The entry to boot, by which of the candidates open and whether the fallback does,
/// and what is said of it.
pub fn choose_among(candidates: Vec<Candidate>, opened: &Vec<bool>, fallback: bool) -> (answer: (
    Option<Candidate>,
    Vec<String>,
))
    requires
        candidates@.len() == opened@.len(),
    ensures
        ({
            let (entry, lines) = chosen(views(candidates@), opened@, fallback, 0);
            &&& entry == (match answer.0 {
                Some(candidate) => Some(candidate@),
                None => None,
            })
            &&& texts(answer.1@) == lines
        }),
{
    let ghost c = views(candidates@);
    let mut rest: Vec<Candidate> = candidates;
    let mut lines: Vec<String> = Vec::new();
    let mut next: usize = 0;
    let count: usize = rest.len();
    assert(texts(lines@) + chosen(c, opened@, fallback, 0).1 =~= chosen(
        c,
        opened@,
        fallback,
        0,
    ).1);
    while next < count
        invariant
            next <= count,
            count == opened@.len(),
            count == c.len(),
            c == views(candidates@),
            rest@.len() == count - next,
            views(rest@) == c.subrange(next as int, count as int),
            chosen(c, opened@, fallback, 0).0 == chosen(c, opened@, fallback, next as int).0,
            texts(lines@) + chosen(c, opened@, fallback, next as int).1 == chosen(
                c,
                opened@,
                fallback,
                0,
            ).1,
        decreases count - next,
    {
        let ghost before = rest@;
        let ghost said = lines@;
        assert(views(before)[0] == c[next as int]);
        let candidate: Candidate = rest.remove(0);
        assert(views(rest@) =~= c.subrange(next + 1, count as int)) by {
            assert forall|i: int| 0 <= i < rest@.len() implies views(rest@)[i] == c[next + 1
                + i] by {
                assert(views(before)[i + 1] == c.subrange(next as int, count as int)[i + 1]);
            }
        }
        if opened[next] {
            let mut line: String = String::from_str("[boot] BootOrder names ");
            line.append(candidate.path.as_str());
            lines.push(line);
            assert(texts(lines@) =~= texts(said) + chosen(c, opened@, fallback, next as int).1);
            return (Some(candidate), lines);
        }
        let mut line: String = String::from_str("[boot] BootOrder entry ");
        line.append(candidate.path.as_str());
        line.append(" is not on this volume");
        lines.push(line);
        proof {
            let later = chosen(c, opened@, fallback, next + 1).1;
            assert(texts(lines@) =~= texts(said).push(missing_text(c[next as int].path)));
            assert(texts(lines@) + later =~= texts(said) + (seq![
                missing_text(c[next as int].path),
            ] + later));
        }
        next = next + 1;
    }
    let ghost said = lines@;
    if fallback {
        lines.push(String::from_str("[boot] using the removable-media fallback"));
        assert(texts(lines@) =~= texts(said) + chosen(c, opened@, fallback, next as int).1);
        let candidate: Candidate = Candidate {
            path: String::from_str("\\EFI\\BOOT\\BOOTAA64.EFI"),
            options: Vec::new(),
        };
        assert(candidate@ =~= CandidateView { path: fallback_path(), options: Seq::empty() });
        return (Some(candidate), lines);
    }
    assert(texts(lines@) =~= texts(said) + chosen(c, opened@, fallback, next as int).1);
    (None, lines)
}

/// The first entry of the boot order that opens is the one to boot, whatever stands
/// behind it, and those before it are said to be missing. Where none opens the fallback
/// is, if it does, and otherwise there is nothing to boot.
pub proof fn law_first_that_opens_boots(
    candidates: Seq<CandidateView>,
    opened: Seq<bool>,
    fallback: bool,
    k: int,
)
    requires
        opened.len() == candidates.len(),
        0 <= k <= opened.len(),
        forall|j: int| 0 <= j < k ==> !#[trigger] opened[j],
        k < opened.len() ==> opened[k],
    ensures
        ({
            let (entry, lines) = chosen(candidates, opened, fallback, 0);
            &&& forall|j: int|
                0 <= j < k ==> #[trigger] lines[j] == "[boot] BootOrder entry "@
                    + candidates[j].path + " is not on this volume"@
            &&& if k < candidates.len() {
                &&& entry == Some(candidates[k])
                &&& lines.len() == k + 1
                &&& lines[k] == "[boot] BootOrder names "@ + candidates[k].path
            } else if fallback {
                &&& entry is Some
                &&& entry->0.path == "\\EFI\\BOOT\\BOOTAA64.EFI"@
                &&& entry->0.options.len() == 0
                &&& lines.len() == k + 1
                &&& lines[k] == "[boot] using the removable-media fallback"@
            } else {
                entry is None && lines.len() == k
            }
        }),
{
    lemma_chosen_from(candidates, opened, fallback, 0, k);
    let (_, lines) = chosen(candidates, opened, fallback, 0);
    let (_, more) = chosen(candidates, opened, fallback, k);
    assert forall|j: int| 0 <= j < k implies #[trigger] lines[j] == "[boot] BootOrder entry "@
        + candidates[j].path + " is not on this volume"@ by {
        assert(candidates[0 + j] == candidates[j]);
    }
    if more.len() > 0 {
        assert(lines[k - 0 + 0] == more[0]);
    }
}

proof fn lemma_chosen_from(
    candidates: Seq<CandidateView>,
    opened: Seq<bool>,
    fallback: bool,
    from: int,
    k: int,
)
    requires
        opened.len() == candidates.len(),
        0 <= from <= k <= opened.len(),
        forall|j: int| 0 <= j < k ==> !#[trigger] opened[j],
        k < opened.len() ==> opened[k],
    ensures
        ({
            let (entry, lines) = chosen(candidates, opened, fallback, from);
            let (last, more) = chosen(candidates, opened, fallback, k);
            &&& entry == last
            &&& lines.len() == k - from + more.len()
            &&& forall|j: int|
                0 <= j < k - from ==> #[trigger] lines[j] == missing_text(candidates[from + j].path)
            &&& forall|j: int| 0 <= j < more.len() ==> lines[k - from + j] == #[trigger] more[j]
        }),
    decreases k - from,
{
    if from < k {
        assert(!opened[from]);
        lemma_chosen_from(candidates, opened, fallback, from + 1, k);
        let (_, lines) = chosen(candidates, opened, fallback, from);
        let (_, later) = chosen(candidates, opened, fallback, from + 1);
        let (_, more) = chosen(candidates, opened, fallback, k);
        assert forall|j: int| 0 <= j < k - from implies #[trigger] lines[j] == missing_text(
            candidates[from + j].path,
        ) by {
            if j > 0 {
                assert(lines[j] == later[j - 1]);
            }
        }
        assert forall|j: int| 0 <= j < more.len() implies lines[k - from + j]
            == #[trigger] more[j] by {
            assert(later[k - from - 1 + j] == more[j]);
        }
    }
}

/// The first bytes of a disk's name, filled up with zeroes.
pub open spec fn short_name(disk: Seq<u8>) -> Seq<u8> {
    Seq::new(
        12,
        |i: int|
            if i < disk.len() {
                disk[i]
            } else {
                0
            },
    )
}

/// The device path of a volume: a vendor node of sixteen bytes behind its header, and
/// the end node.
pub open spec fn volume_path(disk: Seq<u8>, partition: u32) -> Seq<u8> {
    seq![MESSAGING_DEVICE, MEDIA_VENDOR, 20, 0] + short_name(disk) + seq![
        (partition % 256) as u8,
        0,
        0,
        0,
    ] + END_NODE@
}

/// The device path the firmware gives a volume: a vendor node naming the disk and
/// partition, which is enough for `LocateDevicePath` to tell volumes apart.
pub fn volume_device_path(disk: &str, partition: u32) -> (path: Vec<u8>)
    ensures
        path@ == volume_path(disk.spec_bytes(), partition),
        path@.len() == DEVICE_PATH_BYTES,
{
    let name: &[u8] = disk.as_bytes();
    let mut path: Vec<u8> = Vec::new();
    path.push(MESSAGING_DEVICE);
    path.push(MEDIA_VENDOR);
    path.push(20);
    path.push(0);
    let mut next: usize = 0;
    while next < 12
        invariant
            next <= 12,
            name@ == disk.spec_bytes(),
            path@ == seq![MESSAGING_DEVICE, MEDIA_VENDOR, 20, 0] + short_name(
                disk.spec_bytes(),
            ).subrange(0, next as int),
        decreases 12 - next,
    {
        let ghost before = path@;
        let byte: u8 = if next < name.len() {
            name[next]
        } else {
            0
        };
        path.push(byte);
        next = next + 1;
        assert(path@ =~= seq![MESSAGING_DEVICE, MEDIA_VENDOR, 20, 0] + short_name(
            disk.spec_bytes(),
        ).subrange(0, next as int));
    }
    path.push((partition % 256) as u8);
    path.push(0);
    path.push(0);
    path.push(0);
    push_slice(&mut path, &END_NODE);
    assert(path@ =~= volume_path(disk.spec_bytes(), partition));
    path
}

/// Two volumes that differ in the partition, or in what the path keeps of the disk's
/// name, have different paths.
pub proof fn law_volume_paths_differ(a: Seq<u8>, p: u32, b: Seq<u8>, q: u32)
    requires
        volume_path(a, p) == volume_path(b, q),
    ensures
        short_name(a) == short_name(b),
        p % 256 == q % 256,
{
    let x = volume_path(a, p);
    let y = volume_path(b, q);
    assert forall|i: int| 0 <= i < 12 implies short_name(a)[i] == short_name(b)[i] by {
        assert(x[4 + i] == short_name(a)[i]);
        assert(y[4 + i] == short_name(b)[i]);
    }
    assert(short_name(a) =~= short_name(b));
    assert(x[16] == (p % 256) as u8);
    assert(y[16] == (q % 256) as u8);
}

/// The ESP of a disk, as a device of its own.
pub open spec fn partition_of<'a, D: BlockDevice>(disk: &'a D, esp: EspInfo) -> SubDevice<&'a D> {
    SubDevice {
        device: disk,
        first_lba: esp.first_lba,
        block_count: (esp.last_lba - esp.first_lba + 1) as u64,
        number: esp.number,
    }
}

/// Whether an ESP has blocks, and no more of them than can be counted.
pub open spec fn has_blocks(esp: EspInfo) -> bool {
    esp.first_lba <= esp.last_lba && esp.last_lba - esp.first_lba < u64::MAX
}

/// What became of a disk.
pub enum Attempt<'d> {
    /// There is no ESP on it.
    NoEsp,
    /// The ESP holds no filesystem.
    NoVolume(EspInfo),
    /// The ESP's filesystem is mounted.
    Mounted(EspInfo, Volume<'d>),
}

/// Finds the ESP on a disk and mounts its filesystem.
pub fn mount_esp<'d, D: BlockDevice>(disk: &'d D) -> (attempt: Attempt<'d>)
    ensures
        match attempt {
            Attempt::NoEsp => finds(disk, None),
            Attempt::NoVolume(esp) => finds(disk, Some(esp)) && (has_blocks(esp) ==> mounts(
                &partition_of(disk, esp),
                None,
            )),
            Attempt::Mounted(esp, volume) => finds(disk, Some(esp)) && has_blocks(esp) && mounts(
                &partition_of(disk, esp),
                Some(volume),
            ),
        },
{
    let esp: EspInfo = match find_esp(disk) {
        Some(esp) => esp,
        None => {
            return Attempt::NoEsp;
        },
    };
    if esp.first_lba > esp.last_lba || esp.last_lba - esp.first_lba == u64::MAX {
        return Attempt::NoVolume(esp);
    }
    let blocks: u64 = esp.last_lba - esp.first_lba + 1;
    let partition: SubDevice<&'d D> = SubDevice::new(disk, esp.first_lba, blocks, esp.number);
    match mount(partition) {
        Some(volume) => Attempt::Mounted(esp, volume),
        None => Attempt::NoVolume(esp),
    }
}

/// What a volume has to boot.
pub enum Bootable {
    /// No boot image.
    Nothing,
    /// One that could not be opened.
    NotOpened(Candidate),
    /// One, with its contents.
    Image(Candidate, Vec<u8>),
}

/// Whether a candidate may be the one to boot, with this said on the way.
pub open spec fn may_choose<F: FileSystem>(
    filesystem: F,
    order: Seq<CandidateView>,
    candidate: Option<CandidateView>,
    said: Seq<Seq<char>>,
) -> bool {
    exists|opened: Seq<bool>, fallback: bool|
        {
            &&& #[trigger] chosen(order, opened, fallback, 0) == (candidate, said)
            &&& opened.len() == order.len()
            &&& forall|i: int|
                0 <= i < opened.len() ==> may_open(
                    filesystem,
                    (#[trigger] order[i]).path,
                    opened[i],
                )
            &&& may_open(filesystem, fallback_path(), fallback)
        }
}

/// Whether a file may be missing, or larger than what memory can hold.
pub open spec fn may_be_closed<F: FileSystem>(filesystem: F, path: Seq<char>) -> bool {
    exists|node: Option<F::Node>| #[trigger]
        opens_to(filesystem, path, node) && match node {
            Some(node) => node.size() > usize::MAX,
            None => true,
        }
}

/// Whether opening a file and reading all of it may give these bytes; nothing where it
/// may be closed.
pub open spec fn may_read<F: FileSystem>(
    filesystem: F,
    path: Seq<char>,
    bytes: Option<Seq<u8>>,
) -> bool {
    match bytes {
        Some(bytes) => exists|node: F::Node| #[trigger]
            opens_to(filesystem, path, Some(node)) && node.holds(0, node.size() as nat, bytes),
        None => may_be_closed(filesystem, path),
    }
}

/// Opens a file and reads all of it.
#[verifier::spinoff_prover]
fn read_image<F: FileSystem>(filesystem: &F, path: &str) -> (bytes: Option<Vec<u8>>)
    ensures
        match bytes {
            Some(bytes) => may_read(*filesystem, path@, Some(bytes@)),
            None => may_read(*filesystem, path@, None),
        },
{
    let found: Option<F::Node> = open_file(filesystem, path);
    let ghost opened = found;
    assert(opens_to(*filesystem, path@, opened));
    let node: F::Node = match found {
        Some(node) => node,
        None => {
            return None;
        },
    };
    if node.len() > usize::MAX as u64 {
        return None;
    }
    let bytes: Vec<u8> = node.read_all();
    assert(opens_to(*filesystem, path@, Some(opened->0)));
    Some(bytes)
}

/// Chooses the boot image on a filesystem, opens it and reads it.
#[verifier::spinoff_prover]
pub fn find_image<F: FileSystem>(filesystem: &F, store: &Store) -> (answer: (Bootable, Vec<String>))
    requires
        store.wf(),
    ensures
        match answer.0 {
            Bootable::Nothing => may_choose(
                *filesystem,
                boot_order(store@),
                None,
                texts(answer.1@),
            ),
            Bootable::NotOpened(candidate) => may_choose(
                *filesystem,
                boot_order(store@),
                Some(candidate@),
                texts(answer.1@),
            ) && may_read(*filesystem, candidate@.path, None),
            Bootable::Image(candidate, bytes) => may_choose(
                *filesystem,
                boot_order(store@),
                Some(candidate@),
                texts(answer.1@),
            ) && may_read(*filesystem, candidate@.path, Some(bytes@)),
        },
{
    let (choice, said) = choose_boot_image(filesystem, store);
    let candidate: Candidate = match choice {
        Some(candidate) => candidate,
        None => {
            return (Bootable::Nothing, said);
        },
    };
    match read_image(filesystem, candidate.path.as_str()) {
        Some(bytes) => (Bootable::Image(candidate, bytes), said),
        None => (Bootable::NotOpened(candidate), said),
    }
}

/// What is said of a disk with an ESP.
pub open spec fn esp_text(disk: Seq<char>, esp: EspInfo) -> Seq<char> {
    "[boot] "@ + disk + ": ESP at LBA "@ + decimal_text(esp.first_lba as nat) + ".."@
        + decimal_text(esp.last_lba as nat) + " (partition "@ + decimal_text(esp.number as nat)
        + ")"@
}

/// What is said of a disk with an ESP.
pub fn esp_line(disk: &str, esp: &EspInfo) -> (line: String)
    ensures
        line@ == esp_text(disk@, *esp),
{
    let mut line: String = String::from_str("[boot] ");
    line.append(disk);
    line.append(": ESP at LBA ");
    push_decimal(&mut line, esp.first_lba);
    line.append("..");
    push_decimal(&mut line, esp.last_lba);
    line.append(" (partition ");
    push_decimal(&mut line, esp.number as u64);
    line.append(")");
    line
}

/// What is said of a disk without one.
pub fn no_esp_line(disk: &str) -> (line: String)
    ensures
        line@ == "[boot] "@ + disk@ + ": no GPT ESP"@,
{
    let mut line: String = String::from_str("[boot] ");
    line.append(disk);
    line.append(": no GPT ESP");
    line
}

/// What is said of the image found on a disk, if one was.
pub open spec fn image_text(disk: Seq<char>, found: Bootable) -> Seq<char> {
    match found {
        Bootable::Nothing => "[boot] no boot image on "@ + disk,
        Bootable::NotOpened(candidate) => "[boot] "@ + candidate.path@ + " could not be opened"@,
        Bootable::Image(candidate, bytes) => "[boot] loading "@ + candidate.path@ + " ("@
            + decimal_text(bytes@.len()) + " bytes)"@,
    }
}

/// What is said of the image found on a disk, if one was.
pub fn image_line(disk: &str, found: &Bootable) -> (line: String)
    ensures
        line@ == image_text(disk@, *found),
{
    match found {
        Bootable::Nothing => {
            let mut line: String = String::from_str("[boot] no boot image on ");
            line.append(disk);
            line
        },
        Bootable::NotOpened(candidate) => {
            let mut line: String = String::from_str("[boot] ");
            line.append(candidate.path.as_str());
            line.append(" could not be opened");
            line
        },
        Bootable::Image(candidate, bytes) => {
            let mut line: String = String::from_str("[boot] loading ");
            line.append(candidate.path.as_str());
            line.append(" (");
            push_decimal(&mut line, bytes.len() as u64);
            line.append(" bytes)");
            line
        },
    }
}

/// What is said of an image that is about to be entered.
pub fn entry_line(loaded: &Loaded) -> (line: String)
    ensures
        line@ == "[boot] PE entry "@ + hex_text(loaded.entry as nat) + " (base "@ + hex_text(
            loaded.base as nat,
        ) + ", "@ + decimal_text(loaded.size as nat) + " bytes)"@,
{
    let mut line: String = String::from_str("[boot] PE entry ");
    push_hex(&mut line, loaded.entry);
    line.append(" (base ");
    push_hex(&mut line, loaded.base);
    line.append(", ");
    push_decimal(&mut line, loaded.size);
    line.append(" bytes)");
    line
}

/// What the boot manager does next.
#[derive(Clone, Copy, PartialEq, Eq, Structural, Debug)]
pub enum Step {
    /// There is no disk at all.
    NoDisks,
    /// Try the disk at this index.
    Try(usize),
    /// An image ran: the boot is over.
    Ran,
    /// No disk had an image that ran.
    NothingRan,
}

/// Boots the machine: the disks are tried in order, until an image ran. `tried` is how
/// many disks were tried, and `ran` whether the last of them had an image that ran.
pub fn boot(disks: usize, tried: usize, ran: bool) -> (step: Step)
    ensures
        step == (if ran {
            Step::Ran
        } else if disks == 0 {
            Step::NoDisks
        } else if tried < disks {
            Step::Try(tried)
        } else {
            Step::NothingRan
        }),
{
    if ran {
        return Step::Ran;
    }
    if disks == 0 {
        return Step::NoDisks;
    }
    if tried < disks {
        Step::Try(tried)
    } else {
        Step::NothingRan
    }
}

/// Where the structures of a disk and its partition go, where there was room for them.
#[derive(Clone, Copy, PartialEq, Eq, Structural, Debug)]
pub struct Pages {
    pub disk_protocol: Option<u64>,
    pub disk_media: Option<u64>,
    pub disk_path: u64,
    pub volume_protocol: Option<u64>,
    pub volume_media: Option<u64>,
    pub volume_path: u64,
}

/// How far publishing a disk went.
#[derive(Clone, Copy, PartialEq, Eq, Structural, Debug)]
pub enum Published {
    /// The disk could not be published.
    DiskRefused(Status),
    /// The partition could not be published.
    PartitionRefused(Status),
    /// The volume was not published; the partition is on this handle.
    VolumeRefused(u64, Status),
    /// The volume is on this handle.
    Volume(u64),
}

/// The interfaces with a device and its path on a handle.
pub open spec fn with_device(p: Seq<Installed>, handle: u64, protocol: u64, path: u64) -> Seq<
    Installed,
> {
    p.push(Installed { handle, guid: BLOCK_IO_PROTOCOL_GUID, interface: protocol }).push(
        Installed { handle, guid: DEVICE_PATH_PROTOCOL_GUID, interface: path },
    )
}

/// The Block I/O protocol of a device, with its media numbered.
pub open spec fn slot_of<D: BlockDevice>(device: D, address: u64, number: nat, partition: bool) -> Slot<
    D,
> {
    Slot { address, media: media_of(device, number as u32, false, partition, true), device }
}

/// Publishes a device, and its path on the same handle.
fn publish_device<D: BlockDevice>(
    database: &mut Database,
    slots: &mut Slots<D>,
    device: D,
    partition: bool,
    protocol: Option<u64>,
    media: Option<u64>,
    path: u64,
) -> (handle: Result<u64, Status>)
    requires
        old(database).wf(),
        old(slots).wf(),
        old(database).count < MAX_HANDLES,
    ensures
        final(database).wf(),
        final(slots).wf(),
        final(database).opens@ == old(database).opens@,
        match handle {
            Ok(handle) => {
                &&& old(slots).slots@.len() < MAX_SLOTS && protocol is Some && media is Some
                &&& handle == old(database).count + 1
                &&& final(database).count == handle
                &&& final(database).protocols@ == with_device(
                    old(database).protocols@,
                    handle,
                    protocol->0,
                    path,
                )
                &&& final(slots).slots@ == old(slots).slots@.push(
                    slot_of(device, protocol->0, old(slots).slots@.len() + 1, partition),
                )
            },
            Err(status) => {
                &&& status == Status::OutOfResources
                &&& old(slots).slots@.len() == MAX_SLOTS || protocol is None || media is None
                &&& final(slots).slots@ == old(slots).slots@
                &&& final(database).protocols@ == old(database).protocols@
                &&& final(database).count == old(database).count
            },
        },
{
    let ghost before = database.protocols@;
    let handle: u64 = match slots.install(database, device, false, partition, protocol, media) {
        Ok(handle) => handle,
        Err(status) => {
            return Err(status);
        },
    };
    proof {
        assert(BLOCK_IO_PROTOCOL_GUID@[0] != DEVICE_PATH_PROTOCOL_GUID@[0]);
        lemma_second_protocol(
            before,
            Installed { handle, guid: BLOCK_IO_PROTOCOL_GUID, interface: protocol->0 },
            DEVICE_PATH_PROTOCOL_GUID,
        );
    }
    database.install_on(handle, &DEVICE_PATH_PROTOCOL_GUID, path);
    Ok(handle)
}

/// Installs the block I/O and file-system protocols for a disk and the partition the
/// firmware boots from. An application that walks the handle database finds a volume
/// to read, and one that walks device paths finds where it sits.
pub fn publish_storage<D: BlockDevice, F: FileSystem>(
    database: &mut Database,
    slots: &mut Slots<D>,
    volumes: &mut Volumes<F>,
    memory: &mut Memory,
    disk: D,
    partition: D,
    filesystem: F,
    pages: Pages,
) -> (published: Published)
    requires
        old(database).wf(),
        old(slots).wf(),
        old(volumes).wf(),
        old(memory).wf(),
        old(database).count + 2 <= MAX_HANDLES,
    ensures
        final(database).wf(),
        final(slots).wf(),
        final(volumes).wf(),
        final(memory).wf(),
        ({
            let p = old(database).protocols@;
            let n = old(database).count;
            let first = (n + 1) as u64;
            let second = (n + 2) as u64;
            let one = with_device(p, first, pages.disk_protocol->0, pages.disk_path);
            let both = with_device(one, second, pages.volume_protocol->0, pages.volume_path);
            let room = old(slots).slots@.len() < MAX_SLOTS && pages.disk_protocol is Some
                && pages.disk_media is Some;
            let more = old(slots).slots@.len() + 1 < MAX_SLOTS && pages.volume_protocol is Some
                && pages.volume_media is Some;
            let d = old(slots).slots@;
            let e = d.push(slot_of(disk, pages.disk_protocol->0, d.len() + 1, false));
            let f = e.push(slot_of(partition, pages.volume_protocol->0, d.len() + 2, true));
            let v = old(volumes).published@;
            let roomy = v.len() < MAX_VOLUMES && !old(memory).lacks(4096);
            match published {
                Published::DiskRefused(status) => {
                    &&& !room && status == Status::OutOfResources
                    &&& final(database).protocols@ == p && final(database).count == n
                    &&& final(slots).slots@ == d
                    &&& final(volumes).published@ == v && *final(memory) == *old(memory)
                },
                Published::PartitionRefused(status) => {
                    &&& room && !more && status == Status::OutOfResources
                    &&& final(database).protocols@ == one && final(database).count == first
                    &&& final(slots).slots@ == e
                    &&& final(volumes).published@ == v && *final(memory) == *old(memory)
                },
                Published::VolumeRefused(handle, status) => {
                    &&& room && more && !roomy
                    &&& status == Status::OutOfResources && handle == second
                    &&& final(database).protocols@ == both && final(database).count == second
                    &&& final(slots).slots@ == f
                    &&& final(volumes).published@ == v && *final(memory) == *old(memory)
                },
                Published::Volume(handle) => {
                    let address = final(volumes).published@.last().address;
                    &&& room && more && roomy
                    &&& handle == second && final(database).count == second
                    &&& final(slots).slots@ == f
                    &&& final(volumes).published@ == v.push(VolumeSlot { address, filesystem })
                    &&& old(memory).granted(final(memory), page_at(address))
                    &&& final(database).protocols@ == both.push(
                        Installed {
                            handle: second,
                            guid: SIMPLE_FILE_SYSTEM_PROTOCOL_GUID,
                            interface: address,
                        },
                    )
                },
            }
        }),
        final(database).opens@ == old(database).opens@,
{
    match publish_device(
        database,
        slots,
        disk,
        false,
        pages.disk_protocol,
        pages.disk_media,
        pages.disk_path,
    ) {
        Ok(_) => {},
        Err(status) => {
            return Published::DiskRefused(status);
        },
    }
    let ghost one = database.protocols@;
    let volume: u64 = match publish_device(
        database,
        slots,
        partition,
        true,
        pages.volume_protocol,
        pages.volume_media,
        pages.volume_path,
    ) {
        Ok(handle) => handle,
        Err(status) => {
            return Published::PartitionRefused(status);
        },
    };
    proof {
        lemma_third_protocol(one, volume, pages.volume_protocol->0, pages.volume_path);
    }
    match volumes.install(memory, filesystem) {
        Ok(address) => {
            database.install_on(volume, &SIMPLE_FILE_SYSTEM_PROTOCOL_GUID, address);
            Published::Volume(volume)
        },
        Err(status) => Published::VolumeRefused(volume, status),
    }
}

/// A fresh handle with a device and its path has room for a volume.
proof fn lemma_third_protocol(before: Seq<Installed>, handle: u64, protocol: u64, path: u64)
    requires
        forall|i: int| 0 <= i < before.len() ==> (#[trigger] before[i]).handle < handle,
    ensures
        !carries(
            with_device(before, handle, protocol, path),
            handle,
            SIMPLE_FILE_SYSTEM_PROTOCOL_GUID,
        ),
        on(with_device(before, handle, protocol, path), handle).len() == 2,
{
    let guid = SIMPLE_FILE_SYSTEM_PROTOCOL_GUID;
    let device = Installed { handle, guid: BLOCK_IO_PROTOCOL_GUID, interface: protocol };
    let p = with_device(before, handle, protocol, path);
    assert(BLOCK_IO_PROTOCOL_GUID@[0] != guid@[0]);
    assert(DEVICE_PATH_PROTOCOL_GUID@[0] != guid@[0]);
    lemma_second_protocol(before, device, guid);
    assert(p.drop_last() =~= before.push(device));
    let hit = |i: Installed| is_on(i, handle, guid);
    assert forall|i: int| 0 <= i < p.len() implies !hit(#[trigger] p[i]) by {
        if i < before.len() {
            assert(before[i].handle < handle);
        }
    }
    lemma_first(p, hit, p.len() as int);
}

} // verus!
