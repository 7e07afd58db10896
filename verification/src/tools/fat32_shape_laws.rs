//! What names, paths, directories and tables of a volume come to.
use crate::bytes::{le_at, le_bytes, lemma_le_bytes_len, lemma_le_value_of_bytes, lemma_widths};
use crate::tools::fat32::{
    boot_sector, components, extension, find_from, fits_83, geometry, info_sector, last_dot,
    lemma_sector_lens, lemma_words_len, name_83, slot_at, split, stem, words, Volume, CLUSTER_LIMIT,
    RESERVED_SECTORS,
};
use vstd::prelude::*;

verus! {

proof fn lemma_last_dot(s: Seq<u8>)
    ensures
        -1 <= last_dot(s) < s.len(),
        last_dot(s) >= 0 ==> s[last_dot(s)] == 0x2e,
        forall|i: int| last_dot(s) < i < s.len() ==> #[trigger] s[i] != 0x2e,
    decreases s.len(),
{
    if s.len() > 0 && s.last() != 0x2e {
        lemma_last_dot(s.drop_last());
        assert forall|i: int| last_dot(s) < i < s.len() implies #[trigger] s[i] != 0x2e by {
            if i < s.len() - 1 {
                assert(s.drop_last()[i] == s[i]);
            }
        }
    }
}

/// A name is its stem, a dot and its extension, which has no dot; one without a dot is all
/// stem.
pub proof fn law_name_parts_at_the_last_dot(s: Seq<u8>)
    ensures
        !extension(s).contains(0x2e),
        s.contains(0x2e) ==> s == stem(s).push(0x2e) + extension(s),
        !s.contains(0x2e) ==> stem(s) == s && extension(s).len() == 0,
{
    lemma_last_dot(s);
    let d = last_dot(s);
    if d >= 0 {
        assert(s.contains(s[d]));
        assert(s =~= stem(s).push(0x2e) + extension(s));
        assert forall|i: int| 0 <= i < extension(s).len() implies #[trigger] extension(s)[i]
            != 0x2e by {
            assert(extension(s)[i] == s[d + 1 + i]);
        }
    }
}

/// A name that fits is stored in eleven bytes: the stem from the first on and the extension
/// from the ninth on, small letters as capital ones and everything else as it is, with spaces
/// behind each.
pub proof fn law_name_is_stored(s: Seq<u8>, i: int)
    requires
        fits_83(s),
        0 <= i < 11,
    ensures
        name_83(s).len() == 11,
        ({
            let (part, k) = if i < 8 {
                (stem(s), i)
            } else {
                (extension(s), i - 8)
            };
            let b = name_83(s)[i];
            &&& k >= part.len() ==> b == 0x20
            &&& k < part.len() && 0x61 <= part[k] <= 0x7a ==> b + 0x20 == part[k]
            &&& k < part.len() && !(0x61 <= part[k] <= 0x7a) ==> b == part[k]
        }),
{
}

/// Whether a byte separates the names of a path.
pub open spec fn separates(b: u8) -> bool {
    b == 0x5c || b == 0x2f
}

proof fn lemma_split_name(path: Seq<u8>, name: Seq<u8>)
    requires
        split(path).1.len() == 0,
        forall|i: int| 0 <= i < name.len() ==> !separates(#[trigger] name[i]),
    ensures
        split(path + name) == (split(path).0, name),
    decreases name.len(),
{
    let (done, current) = split(path);
    if name.len() == 0 {
        assert(path + name =~= path);
        assert(current =~= name);
    } else {
        let front = name.drop_last();
        assert forall|i: int| 0 <= i < front.len() implies !separates(#[trigger] front[i]) by {
            assert(front[i] == name[i]);
        }
        lemma_split_name(path, front);
        assert((path + name).drop_last() =~= path + front);
        assert(!separates(name[name.len() - 1]));
        assert(front.push(name.last()) =~= name);
    }
}

/// A path has the names between its slashes and backslashes: a separator behind a path adds
/// no name, a name behind a separator is one more, and a path without one is a name.
pub proof fn law_path_has_its_names(path: Seq<u8>, separator: u8, name: Seq<u8>)
    requires
        separates(separator),
        name.len() > 0,
        forall|i: int| 0 <= i < name.len() ==> !separates(#[trigger] name[i]),
    ensures
        components(Seq::empty()) == Seq::<Seq<u8>>::empty(),
        components(name) == seq![name],
        components(path.push(separator)) == components(path),
        components(path.push(separator) + name) == components(path).push(name),
{
    let front = path.push(separator);
    assert(front.drop_last() =~= path);
    assert(split(front) == (components(path), Seq::<u8>::empty()));
    lemma_split_name(front, name);
    lemma_split_name(Seq::empty(), name);
    assert(Seq::<u8>::empty() + name =~= name);
    assert(components(name) =~= seq![name]);
}

/// Whether a slot ends a directory.
pub open spec fn ends_here(slot: Seq<u8>, deleted_ends: bool) -> bool {
    slot[0] == 0 || (deleted_ends && slot[0] == 0xe5)
}

/// Whether a slot is the entry of a name: no part of a long one, and with that name in it.
pub open spec fn is_entry(slot: Seq<u8>, name: Seq<u8>) -> bool {
    slot[11] & 0x0f != 0x0f && slot.subrange(0, 11) == name
}

proof fn lemma_found_from(
    directory: Seq<u8>,
    name: Seq<u8>,
    deleted_ends: bool,
    from: int,
    k: int,
)
    requires
        0 <= from <= k <= directory.len() / 32,
        forall|j: int|
            from <= j < k ==> !ends_here(#[trigger] slot_at(directory, j), deleted_ends)
                && !is_entry(slot_at(directory, j), name),
        k < directory.len() / 32 ==> ends_here(slot_at(directory, k), deleted_ends) || is_entry(
            slot_at(directory, k),
            name,
        ),
    ensures
        find_from(directory, name, deleted_ends, from) == (if k < directory.len() / 32
            && !ends_here(slot_at(directory, k), deleted_ends) {
            Some(slot_at(directory, k))
        } else {
            None
        }),
    decreases k - from,
{
    if from < k {
        assert(!ends_here(slot_at(directory, from), deleted_ends));
        lemma_found_from(directory, name, deleted_ends, from + 1, k);
    }
}

/// A name is looked for up to the first slot that ends the directory or is its entry: where
/// that ends the directory, or there is none, the name is not found, and otherwise the slot
/// is.
pub proof fn law_first_entry_of_the_name_is_found(
    directory: Seq<u8>,
    name: Seq<u8>,
    deleted_ends: bool,
    k: int,
)
    requires
        0 <= k <= directory.len() / 32,
        forall|j: int|
            0 <= j < k ==> !ends_here(#[trigger] slot_at(directory, j), deleted_ends) && !is_entry(
                slot_at(directory, j),
                name,
            ),
        k < directory.len() / 32 ==> ends_here(slot_at(directory, k), deleted_ends) || is_entry(
            slot_at(directory, k),
            name,
        ),
    ensures
        find_from(directory, name, deleted_ends, 0) == (if k < directory.len() / 32 && !ends_here(
            slot_at(directory, k),
            deleted_ends,
        ) {
            Some(slot_at(directory, k))
        } else {
            None
        }),
{
    lemma_found_from(directory, name, deleted_ends, 0, k);
}

/// The sectors of a table for the clusters that a partition had without one.
pub open spec fn first_table(partition_sectors: int) -> int {
    (((partition_sectors - RESERVED_SECTORS) / 8 + 2) * 4 + 511) / 512
}

/// The geometry of a partition: the reserved sectors, two tables and the clusters fit it, a
/// table has an entry for each cluster and the two before them and no sector too many, and
/// another cluster beside the largest tables there could be would not fit. There is one
/// for every partition with room for a cluster that is not too large.
pub proof fn law_geometry_fits(partition_sectors: int)
    ensures
        geometry(partition_sectors) matches Ok((clusters, fat_sectors)) ==> {
            &&& clusters >= 1
            &&& RESERVED_SECTORS + 2 * fat_sectors + 8 * clusters <= partition_sectors
            &&& 4 * (clusters + 2) <= 512 * fat_sectors < 4 * (clusters + 2) + 512
            &&& clusters + 2 <= CLUSTER_LIMIT
            &&& partition_sectors < RESERVED_SECTORS + 2 * first_table(partition_sectors) + 8 * (
            clusters + 1)
        },
        partition_sectors >= RESERVED_SECTORS && partition_sectors - RESERVED_SECTORS - 2
            * first_table(partition_sectors) >= 8 && partition_sectors / 8 + 2 <= CLUSTER_LIMIT
            && partition_sectors * 512 <= usize::MAX ==> geometry(partition_sectors) is Ok,
{
}

/// A file gets as many clusters as its contents take, and one when it is empty.
pub proof fn law_clusters_hold_the_contents(contents: Seq<u8>)
    ensures
        Volume::clusters_for(contents) >= 1,
        contents.len() <= 4096 * Volume::clusters_for(contents),
        Volume::clusters_for(contents) > 1 ==> 4096 * (Volume::clusters_for(contents) - 1)
            < contents.len(),
{
}

proof fn lemma_word(s: Seq<u32>, i: int)
    requires
        0 <= i < s.len(),
    ensures
        words(s).len() == 4 * s.len(),
        words(s).subrange(4 * i, 4 * i + 4) == le_bytes(s[i] as nat, 4),
    decreases s.len(),
{
    let front = s.drop_last();
    lemma_words_len(s);
    lemma_words_len(front);
    lemma_le_bytes_len(s.last() as nat, 4);
    if i < front.len() {
        lemma_word(front, i);
        assert(front[i] == s[i]);
        assert(words(s).subrange(4 * i, 4 * i + 4) =~= words(front).subrange(4 * i, 4 * i + 4));
    } else {
        assert(words(s).subrange(4 * i, 4 * i + 4) =~= le_bytes(s[i] as nat, 4));
    }
}

/// A finished volume has its boot sector and its FSInfo sector in the first two sectors and
/// again in the seventh and the eighth, and each copy of the table says of a cluster what
/// the volume does.
pub proof fn law_finished_volume_is_laid_out(v: Volume, c: int)
    requires
        v.wf(),
        0 <= c < v.fat.len(),
    ensures
        ({
            let b = v.finished();
            let boot = boot_sector(v.bytes.len() / 512, v.fat_sectors);
            &&& b.subrange(0, 512) == boot
            &&& b.subrange(3072, 3584) == boot
            &&& b.subrange(512, 1024) == info_sector()
            &&& b.subrange(3584, 4096) == info_sector()
            &&& le_at(b, 16384 + 4 * c, 4) == v.fat[c]
            &&& le_at(b, 16384 + 512 * v.fat_sectors + 4 * c, 4) == v.fat[c]
        }),
{
    let b = v.finished();
    let at = 16384 + 4 * c;
    let boot = boot_sector(v.bytes.len() / 512, v.fat_sectors);
    lemma_sector_lens(v.bytes.len() / 512, v.fat_sectors);
    lemma_word(v.fat, c);
    lemma_widths();
    lemma_le_value_of_bytes(v.fat[c] as nat, 4);
    assert(v.table().subrange(4 * c, 4 * c + 4) =~= words(v.fat).subrange(4 * c, 4 * c + 4));
    assert(v.table().len() == 512 * v.fat_sectors);
    assert(b.subrange(0, 512) =~= boot);
    assert(b.subrange(3072, 3584) =~= boot);
    assert(b.subrange(512, 1024) =~= info_sector());
    assert(b.subrange(3584, 4096) =~= info_sector());
    assert(b.subrange(at, at + 4) =~= v.table().subrange(4 * c, 4 * c + 4));
    let second = at + 512 * v.fat_sectors;
    assert(b.subrange(second, second + 4) =~= v.table().subrange(4 * c, 4 * c + 4));
}

/// A boot sector says what the volume is made of, each field where FAT32 has it: sectors of
/// 512 bytes, eight to a cluster, 32 of them reserved, two tables, no root directory of its
/// own size, how many sectors there are and how many a table has, the root directory's
/// cluster, and the sectors of the FSInfo and of the backup.
pub proof fn law_boot_sector_is_laid_out(total: nat, fat_sectors: nat)
    requires
        total < 0x1_0000_0000,
        fat_sectors < 0x1_0000_0000,
    ensures
        ({
            let b = boot_sector(total, fat_sectors);
            &&& b.len() == 512
            &&& le_at(b, 11, 2) == 512
            &&& b[13] == 8
            &&& le_at(b, 14, 2) == RESERVED_SECTORS
            &&& b[16] == 2
            &&& b[17] == 0 && b[18] == 0 && b[19] == 0 && b[20] == 0
            &&& b[21] == 0xf8
            &&& b[22] == 0 && b[23] == 0
            &&& le_at(b, 32, 4) == total
            &&& le_at(b, 36, 4) == fat_sectors
            &&& le_at(b, 44, 4) == 2
            &&& le_at(b, 48, 2) == 1
            &&& le_at(b, 50, 2) == 6
            &&& b[66] == 0x29
            &&& b[510] == 0x55 && b[511] == 0xaa
        }),
{
    let b = boot_sector(total, fat_sectors);
    lemma_sector_lens(total, fat_sectors);
    lemma_widths();
    lemma_le_bytes_len(64, 2);
    lemma_le_bytes_len(34, 4);
    lemma_le_bytes_len(0x5745_4952, 4);
    lemma_le_value_of_bytes(512, 2);
    lemma_le_value_of_bytes(32, 2);
    lemma_le_value_of_bytes(total, 4);
    lemma_le_value_of_bytes(fat_sectors, 4);
    lemma_le_value_of_bytes(2, 4);
    lemma_le_value_of_bytes(1, 2);
    lemma_le_value_of_bytes(6, 2);
    assert(b.subrange(11, 13) =~= le_bytes(512, 2));
    assert(b.subrange(14, 16) =~= le_bytes(32, 2));
    assert(b.subrange(32, 36) =~= le_bytes(total, 4));
    assert(b.subrange(36, 40) =~= le_bytes(fat_sectors, 4));
    assert(b.subrange(44, 48) =~= le_bytes(2, 4));
    assert(b.subrange(48, 50) =~= le_bytes(1, 2));
    assert(b.subrange(50, 52) =~= le_bytes(6, 2));
}

} // verus!
