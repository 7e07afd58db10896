//! What a reader finds in a volume that was built.
use crate::bytes::{le_at, le_bytes, lemma_le_bytes_len, lemma_le_value_of_bytes, lemma_widths, put};
use crate::tools::fat32::{
    cluster_at, cluster_of, components, empty_volume, entry_bytes, find_from, fits_83, geometry,
    last_dot, lemma_sector_lens, lemma_words_len, name_83, slot_at, stem, upper, uppers, Volume,
    ARCHIVE, DIRECTORY, DIRECTORY_SLOTS, DOT, DOT_DOT, END_OF_CHAIN,
};
use vstd::prelude::*;

verus! {

/// The size an entry gives.
pub open spec fn size_of(entry: Seq<u8>) -> nat {
    le_at(entry, 28, 4)
}

/// How many clusters an entry's file takes.
pub open spec fn run_of(entry: Seq<u8>) -> nat {
    if size_of(entry) == 0 {
        1
    } else {
        ((size_of(entry) + 4095) / 4096) as nat
    }
}

/// The bytes of an entry's file.
pub open spec fn contents_of(v: Volume, entry: Seq<u8>) -> Seq<u8> {
    let at = cluster_at(v.fat_sectors, cluster_of(entry) as int);
    v.bytes.subrange(at, at + size_of(entry))
}

/// The cluster of the directory a path leads to, as a reader walks it.
pub open spec fn directory_at(v: Volume, names: Seq<Seq<u8>>) -> Option<nat>
    decreases names.len(), 1int,
{
    if names.len() == 0 {
        Some(2)
    } else {
        match entry_at(v, names) {
            Some(entry) => Some(cluster_of(entry)),
            None => None,
        }
    }
}

/// The entry a path leads to, as a reader walks it.
pub open spec fn entry_at(v: Volume, names: Seq<Seq<u8>>) -> Option<Seq<u8>>
    decreases names.len(), 0int,
{
    if names.len() == 0 {
        None
    } else {
        match directory_at(v, names.drop_last()) {
            Some(cluster) => find_from(
                v.cluster(cluster as int),
                name_83(names.last()),
                false,
                0,
            ),
            None => None,
        }
    }
}

/// Whether a path leads through directories only.
pub open spec fn through_directories(v: Volume, names: Seq<Seq<u8>>) -> bool
    decreases names.len(),
{
    names.len() == 0 || (through_directories(v, names.drop_last()) && match entry_at(v, names) {
        Some(entry) => entry[11] == DIRECTORY,
        None => true,
    })
}

/// Whether a name is one that a directory can hold: its first byte is neither the
/// one that ends a directory nor the one that marks a deleted entry, and it is
/// not stored as the name of the directory itself or of its parent.
pub open spec fn proper(name: Seq<u8>) -> bool {
    &&& fits_83(name)
    &&& name[0] != 0 && name[0] != 0xe5
    &&& name_83(name) != DOT@ && name_83(name) != DOT_DOT@
}

/// Whether every name is one that a directory can hold.
pub open spec fn all_proper(names: Seq<Seq<u8>>) -> bool {
    forall|i: int| 0 <= i < names.len() ==> proper(#[trigger] names[i])
}

/// Slot `i` of a directory.
pub open spec fn slot(v: Volume, directory: u32, i: int) -> Seq<u8> {
    slot_at(v.cluster(directory as int), i)
}

/// Whether a cluster is a directory's.
pub open spec fn is_directory(v: Volume, cluster: int) -> bool {
    0 <= cluster <= u32::MAX && v.slots.contains_key(cluster as u32)
}

/// Whether the table chains a file's clusters, one behind the other.
pub open spec fn chained(v: Volume, entry: Seq<u8>) -> bool {
    forall|k: int|
        cluster_of(entry) <= k < cluster_of(entry) + run_of(entry) ==> #[trigger] v.fat[k] == (if k
            + 1 == cluster_of(entry) + run_of(entry) {
            END_OF_CHAIN
        } else {
            (k + 1) as u32
        })
}

/// Whether a file's clusters are all allocated and chained, and none is a
/// directory's.
pub open spec fn run_is_sound(v: Volume, entry: Seq<u8>) -> bool {
    &&& 2 <= cluster_of(entry)
    &&& cluster_of(entry) + run_of(entry) <= v.next
    &&& chained(v, entry)
    &&& forall|k: int|
        cluster_of(entry) <= k < cluster_of(entry) + run_of(entry) ==> !(#[trigger] is_directory(
            v,
            k,
        ))
}

/// Whether an entry is one of a directory that is there, or of a file.
pub open spec fn entry_is_sound(v: Volume, entry: Seq<u8>) -> bool {
    &&& entry.len() == 32
    &&& entry[0] != 0 && entry[0] != 0xe5
    &&& {
        ||| entry[11] == DIRECTORY && is_directory(v, cluster_of(entry) as int)
        ||| entry[11] == ARCHIVE && run_is_sound(v, entry)
    }
}

/// Whether a directory holds sound entries and nothing behind them.
pub open spec fn directory_is_sound(v: Volume, c: u32) -> bool {
    &&& 2 <= c < v.next
    &&& forall|i: int| 0 <= i < v.used(c) ==> entry_is_sound(v, #[trigger] slot(v, c, i))
    &&& forall|j: int| v.used(c) * 32 <= j < 4096 ==> #[trigger] v.cluster(c as int)[j] == 0
}

/// What every volume under construction keeps to, besides its bounds: the root is
/// a directory, directories hold sound entries, and clusters that are not
/// allocated hold zeroes.
pub open spec fn sound(v: Volume) -> bool {
    &&& v.wf()
    &&& v.slots.contains_key(2)
    &&& forall|c: u32| #[trigger] v.slots.contains_key(c) ==> directory_is_sound(v, c)
    &&& forall|j: int|
        cluster_at(v.fat_sectors, v.next as int) <= j < cluster_at(
            v.fat_sectors,
            v.fat.len() as int,
        ) ==> #[trigger] v.bytes[j] == 0
}

/// Whether `w` holds everything that `v` holds: directories only gain entries, and
/// clusters of files are as they were.
pub open spec fn extends(v: Volume, w: Volume) -> bool {
    &&& w.fat_sectors == v.fat_sectors
    &&& w.fat.len() == v.fat.len()
    &&& w.bytes.len() == v.bytes.len()
    &&& v.next <= w.next
    &&& forall|k: int| 0 <= k < v.next ==> #[trigger] w.fat[k] == v.fat[k]
    &&& forall|c: u32| #[trigger]
        v.slots.contains_key(c) ==> w.slots.contains_key(c) && v.used(c) <= w.used(c) && (forall|
            i: int,
        |
            0 <= i < v.used(c) ==> #[trigger] slot(w, c, i) == slot(v, c, i))
    &&& forall|c: u32|
        w.slots.contains_key(c) && !v.slots.contains_key(c) ==> v.next <= #[trigger] as_int(c)
    &&& forall|c: int|
        2 <= c < v.next && !is_directory(v, c) ==> #[trigger] w.cluster(c) == v.cluster(c)
}

pub open spec fn as_int(c: u32) -> int {
    c as int
}

proof fn lemma_extends_trans(a: Volume, b: Volume, c: Volume)
    requires
        extends(a, b),
        extends(b, c),
        a.wf(),
    ensures
        extends(a, c),
{
    assert forall|d: u32| #[trigger] a.slots.contains_key(d) implies c.slots.contains_key(d)
        && a.used(d) <= c.used(d) && (forall|i: int|
        0 <= i < a.used(d) ==> #[trigger] slot(c, d, i) == slot(a, d, i)) by {
        assert(b.slots.contains_key(d));
        assert forall|i: int| 0 <= i < a.used(d) implies #[trigger] slot(c, d, i) == slot(
            a,
            d,
            i,
        ) by {
            assert(slot(b, d, i) == slot(a, d, i));
        }
    }
    assert forall|d: u32| c.slots.contains_key(d) && !a.slots.contains_key(d) implies a.next
        <= #[trigger] as_int(d) by {
        if b.slots.contains_key(d) {
            assert(a.next <= as_int(d));
        } else {
            assert(b.next <= as_int(d));
        }
    }
    assert forall|k: int| 2 <= k < a.next && !is_directory(a, k) implies #[trigger] c.cluster(k)
        == a.cluster(k) by {
        assert(b.cluster(k) == a.cluster(k));
        if is_directory(b, k) {
            assert(a.next <= as_int(k as u32));
        }
        assert(c.cluster(k) == b.cluster(k));
    }
}

/// The first entry of a name among the slots from `i` on.
pub open spec fn listed(v: Volume, c: u32, name: Seq<u8>, i: int) -> Option<Seq<u8>>
    decreases v.used(c) - i,
{
    if i < 0 || i >= v.used(c) {
        None
    } else if slot(v, c, i).subrange(0, 11) == name {
        Some(slot(v, c, i))
    } else {
        listed(v, c, name, i + 1)
    }
}

proof fn lemma_attributes()
    ensures
        DIRECTORY & 0x0f != 0x0f,
        ARCHIVE & 0x0f != 0x0f,
{
    assert(0x10u8 & 0x0f != 0x0f && 0x20u8 & 0x0f != 0x0f) by (bit_vector);
}

/// In a sound volume a search of a directory's cluster is one of its entries.
proof fn lemma_found_is_listed(v: Volume, c: u32, name: Seq<u8>, deleted_ends: bool, i: int)
    requires
        sound(v),
        v.slots.contains_key(c),
        0 <= i <= v.used(c),
    ensures
        find_from(v.cluster(c as int), name, deleted_ends, i) == listed(v, c, name, i),
        listed(v, c, name, i) is Some ==> entry_is_sound(v, listed(v, c, name, i)->0) && listed(
            v,
            c,
            name,
            i,
        )->0.subrange(0, 11) == name,
    decreases v.used(c) - i,
{
    lemma_attributes();
    assert(directory_is_sound(v, c));
    lemma_cluster_len(v, c as int);
    let directory = v.cluster(c as int);
    if i < v.used(c) {
        assert(entry_is_sound(v, slot(v, c, i)));
        lemma_found_is_listed(v, c, name, deleted_ends, i + 1);
    } else if i < DIRECTORY_SLOTS {
        assert(directory[i * 32] == 0);
        assert(slot_at(directory, i)[0] == directory[i * 32]);
    }
}

proof fn lemma_cluster_len(v: Volume, c: int)
    requires
        v.wf(),
        2 <= c < v.fat.len(),
    ensures
        v.cluster(c).len() == 4096,
        0 <= cluster_at(v.fat_sectors, c),
        cluster_at(v.fat_sectors, c) + 4096 <= cluster_at(v.fat_sectors, v.fat.len() as int)
            <= v.bytes.len(),
{
}

proof fn lemma_listed_grows(v: Volume, w: Volume, c: u32, name: Seq<u8>, i: int)
    requires
        extends(v, w),
        v.slots.contains_key(c),
        listed(v, c, name, i) is Some,
    ensures
        listed(w, c, name, i) == listed(v, c, name, i),
    decreases v.used(c) - i,
{
    assert(slot(w, c, i) == slot(v, c, i));
    if slot(v, c, i).subrange(0, 11) != name {
        lemma_listed_grows(v, w, c, name, i + 1);
    }
}

/// A new entry of a name that was not there is the one found.
proof fn lemma_listed_new(v: Volume, w: Volume, c: u32, name: Seq<u8>, i: int)
    requires
        extends(v, w),
        v.slots.contains_key(c),
        w.used(c) == v.used(c) + 1,
        0 <= i <= v.used(c),
        listed(v, c, name, i) is None,
        slot(w, c, v.used(c) as int).subrange(0, 11) == name,
    ensures
        listed(w, c, name, i) == Some(slot(w, c, v.used(c) as int)),
    decreases v.used(c) - i,
{
    if i < v.used(c) {
        assert(slot(w, c, i) == slot(v, c, i));
        lemma_listed_new(v, w, c, name, i + 1);
    } else {
        assert(i == v.used(c));
    }
}

/// What an entry says is what it was made of.
pub proof fn lemma_entry_fields(name: Seq<u8>, attributes: u8, cluster: nat, size: nat)
    requires
        name.len() == 11,
        cluster <= u32::MAX,
        size <= u32::MAX,
    ensures
        ({
            let e = entry_bytes(name, attributes, cluster, size);
            &&& e.len() == 32
            &&& e.subrange(0, 11) == name
            &&& e[0] == name[0]
            &&& e[11] == attributes
            &&& cluster_of(e) == cluster
            &&& size_of(e) == size
        }),
{
    let e = entry_bytes(name, attributes, cluster, size);
    lemma_widths();
    lemma_le_bytes_len(cluster / 65536, 2);
    lemma_le_bytes_len(cluster % 65536, 2);
    lemma_le_bytes_len(size, 4);
    lemma_le_value_of_bytes(cluster / 65536, 2);
    lemma_le_value_of_bytes(cluster % 65536, 2);
    lemma_le_value_of_bytes(size, 4);
    assert(e.subrange(0, 11) =~= name);
    assert(e.subrange(20, 22) =~= le_bytes(cluster / 65536, 2));
    assert(e.subrange(26, 28) =~= le_bytes(cluster % 65536, 2));
    assert(e.subrange(28, 32) =~= le_bytes(size, 4));
}

proof fn lemma_name_starts(name: Seq<u8>)
    requires
        proper(name),
    ensures
        name_83(name).len() == 11,
        name_83(name)[0] != 0,
        name_83(name)[0] != 0xe5,
{
    lemma_dot_inside(name);
    assert(stem(name)[0] == name[0]);
    assert(uppers(stem(name))[0] == upper(name[0]));
    assert(name_83(name)[0] == upper(name[0]));
}

proof fn lemma_dot_inside(s: Seq<u8>)
    ensures
        -1 <= last_dot(s) < s.len(),
    decreases s.len(),
{
    if s.len() > 0 {
        lemma_dot_inside(s.drop_last());
    }
}

/// Writing an entry into a directory's next slot changes that slot and nothing
/// else of any cluster.
proof fn lemma_entered(v: Volume, d: u32, e: Seq<u8>)
    requires
        v.wf(),
        2 <= d < v.fat.len(),
        e.len() == 32,
        v.used(d) < DIRECTORY_SLOTS,
    ensures
        ({
            let w = v.entered(d, e)->Ok_0;
            &&& v.entered(d, e) is Ok
            &&& w.wf()
            &&& w.used(d) == v.used(d) + 1
            &&& slot(w, d, v.used(d) as int) == e
            &&& forall|i: int|
                0 <= i < DIRECTORY_SLOTS && i != v.used(d) ==> #[trigger] slot(w, d, i) == slot(
                    v,
                    d,
                    i,
                )
            &&& forall|j: int|
                0 <= j < 4096 && !(v.used(d) * 32 <= j < v.used(d) * 32 + 32)
                    ==> #[trigger] w.cluster(d as int)[j] == v.cluster(d as int)[j]
            &&& forall|c: int|
                2 <= c < v.fat.len() && c != d ==> #[trigger] w.cluster(c) == v.cluster(c)
            &&& forall|c: u32| c != d ==> #[trigger] w.used(c) == v.used(c)
            &&& forall|j: int|
                cluster_at(v.fat_sectors, d + 1) <= j < v.bytes.len() ==> #[trigger] w.bytes[j]
                    == v.bytes[j]
        }),
{
    let w = v.entered(d, e)->Ok_0;
    let at = cluster_at(v.fat_sectors, d as int);
    lemma_cluster_len(v, d as int);
    assert forall|c: u32| #[trigger] w.slots.contains_key(c) implies w.slots[c]
        <= DIRECTORY_SLOTS by {
        if c != d {
            assert(v.slots.contains_key(c));
        }
    }
    assert(slot(w, d, v.used(d) as int) =~= e);
    assert forall|i: int| 0 <= i < DIRECTORY_SLOTS && i != v.used(d) implies #[trigger] slot(
        w,
        d,
        i,
    ) == slot(v, d, i) by {
        assert(slot(w, d, i) =~= slot(v, d, i));
    }
    assert forall|c: int| 2 <= c < v.fat.len() && c != d implies #[trigger] w.cluster(c)
        == v.cluster(c) by {
        lemma_cluster_len(v, c);
        assert(w.cluster(c) =~= v.cluster(c));
    }
}

/// Entering a sound entry into a directory, or into a cluster that has just been
/// allocated for one, keeps the volume sound and what it held.
proof fn lemma_entered_sound(v: Volume, d: u32, e: Seq<u8>)
    requires
        sound(v),
        v.used(d) < DIRECTORY_SLOTS,
        v.slots.contains_key(d) || (3 <= d && d + 1 == v.next && sound(
            Volume { next: d as nat, ..v },
        )),
        e.len() == 32,
        entry_is_sound(v.entered(d, e)->Ok_0, e),
    ensures
        ({
            let w = v.entered(d, e)->Ok_0;
            &&& v.entered(d, e) is Ok
            &&& sound(w)
            &&& w.slots.contains_key(d)
            &&& v.slots.contains_key(d) ==> extends(v, w)
            &&& !v.slots.contains_key(d) ==> extends(Volume { next: d as nat, ..v }, w)
            &&& w.used(d) == v.used(d) + 1
            &&& slot(w, d, v.used(d) as int) == e
            &&& forall|c: u32| c != d ==> #[trigger] w.used(c) == v.used(c)
            &&& w.fat == v.fat
            &&& w.next == v.next
            &&& w.fat_sectors == v.fat_sectors
            &&& w.slots.dom() == v.slots.dom().insert(d)
        }),
{
    let w = v.entered(d, e)->Ok_0;
    let fresh = !v.slots.contains_key(d);
    let v0 = Volume { next: d as nat, ..v };
    if !fresh {
        assert(directory_is_sound(v, d));
    }
    lemma_entered(v, d, e);
    assert forall|c: u32| #[trigger] w.slots.contains_key(c) implies directory_is_sound(w, c) by {
        lemma_cluster_len(v, c as int);
        if c != d {
            assert(v.slots.contains_key(c));
            assert(directory_is_sound(v, c));
            assert(w.cluster(c as int) == v.cluster(c as int));
        }
        assert forall|i: int| 0 <= i < w.used(c) implies entry_is_sound(
            w,
            #[trigger] slot(w, c, i),
        ) by {
            if c == d && i == v.used(d) {
            } else {
                if c == d {
                    if fresh {
                        assert(v.used(d) == 0);
                    }
                    assert(slot(w, c, i) == slot(v, c, i));
                }
                let s = slot(v, c, i);
                assert(slot(w, c, i) == s);
                if fresh {
                    assert(v0.slots.contains_key(c));
                    assert(directory_is_sound(v0, c));
                    assert(slot(v0, c, i) == s);
                    assert(v0.used(c) == v.used(c));
                    assert(entry_is_sound(v0, s));
                    if s[11] == DIRECTORY {
                        assert(is_directory(w, cluster_of(s) as int));
                    } else {
                        assert forall|k: int|
                            cluster_of(s) <= k < cluster_of(s) + run_of(s) implies !(
                        #[trigger] is_directory(w, k)) by {
                            assert(!is_directory(v0, k));
                        }
                    }
                } else {
                    assert(entry_is_sound(v, s));
                    if s[11] == DIRECTORY {
                        assert(is_directory(w, cluster_of(s) as int));
                    } else {
                        assert forall|k: int|
                            cluster_of(s) <= k < cluster_of(s) + run_of(s) implies !(
                        #[trigger] is_directory(w, k)) by {
                            assert(!is_directory(v, k));
                        }
                    }
                }
            }
        }
        assert forall|j: int| w.used(c) * 32 <= j < 4096 implies #[trigger] w.cluster(c as int)[j]
            == 0 by {
            if c == d {
                assert(w.cluster(d as int)[j] == v.cluster(d as int)[j]);
                if fresh {
                    let at = cluster_at(v.fat_sectors, d as int);
                    assert(v0.bytes[at + j] == 0);
                    assert(v.cluster(d as int)[j] == v.bytes[at + j]);
                } else {
                    assert(v.cluster(d as int)[j] == 0);
                }
            } else {
                assert(v.cluster(c as int)[j] == 0);
            }
        }
    }
    assert forall|j: int|
        cluster_at(w.fat_sectors, w.next as int) <= j < cluster_at(
            w.fat_sectors,
            w.fat.len() as int,
        ) implies #[trigger] w.bytes[j] == 0 by {
        assert(w.bytes[j] == v.bytes[j]);
        assert(v.bytes[j] == 0);
    }
    let base = if fresh {
        v0
    } else {
        v
    };
    assert forall|c: u32| #[trigger] base.slots.contains_key(c) implies w.slots.contains_key(c)
        && base.used(c) <= w.used(c) && (forall|i: int|
        0 <= i < base.used(c) ==> #[trigger] slot(w, c, i) == slot(base, c, i)) by {
        assert(directory_is_sound(base, c));
        lemma_cluster_len(v, c as int);
        assert(base.used(c) == v.used(c));
        assert forall|i: int| 0 <= i < base.used(c) implies #[trigger] slot(w, c, i) == slot(
            base,
            c,
            i,
        ) by {
            if c == d {
                assert(slot(w, d, i) == slot(v, d, i));
            } else {
                assert(w.cluster(c as int) == v.cluster(c as int));
            }
        }
    }
    assert forall|c: int| 2 <= c < base.next && !is_directory(base, c) implies #[trigger] w.cluster(
        c,
    ) == base.cluster(c) by {
        assert(w.cluster(c) == v.cluster(c));
    }
    assert(w.slots.dom() =~= v.slots.dom().insert(d));
}

/// Allocating clusters keeps a volume sound and what it held.
proof fn lemma_allocated_sound(v: Volume, n: nat)
    requires
        sound(v),
        n >= 1,
        v.allocated(n) is Ok,
    ensures
        sound(v.allocated(n)->Ok_0),
        sound(Volume { next: v.next, ..v.allocated(n)->Ok_0 }),
        extends(v, v.allocated(n)->Ok_0),
        extends(v, Volume { next: v.next, ..v.allocated(n)->Ok_0 }),
{
    let w = v.allocated(n)->Ok_0;
    let w0 = Volume { next: v.next, ..w };
    lemma_same_bytes_sound(v, w);
    lemma_same_bytes_sound(v, w0);
}

proof fn lemma_same_bytes_sound(v: Volume, w: Volume)
    requires
        sound(v),
        w.bytes == v.bytes,
        w.slots == v.slots,
        w.fat_sectors == v.fat_sectors,
        w.fat.len() == v.fat.len(),
        v.next <= w.next <= w.fat.len(),
        forall|k: int| 0 <= k < v.next ==> #[trigger] w.fat[k] == v.fat[k],
    ensures
        sound(w),
        extends(v, w),
{
    assert forall|c: u32| #[trigger] w.slots.contains_key(c) implies directory_is_sound(w, c) by {
        assert(v.slots.contains_key(c));
        assert(directory_is_sound(v, c));
        assert(w.cluster(c as int) == v.cluster(c as int));
        assert forall|i: int| 0 <= i < w.used(c) implies entry_is_sound(
            w,
            #[trigger] slot(w, c, i),
        ) by {
            let s = slot(v, c, i);
            assert(entry_is_sound(v, s));
            if s[11] == DIRECTORY {
                assert(is_directory(w, cluster_of(s) as int));
            } else {
                assert forall|k: int|
                    cluster_of(s) <= k < cluster_of(s) + run_of(s) implies !(
                #[trigger] is_directory(w, k)) by {
                    assert(!is_directory(v, k));
                }
            }
        }
    }
    assert forall|c: u32| #[trigger] v.slots.contains_key(c) implies w.slots.contains_key(c)
        && v.used(c) <= w.used(c) && (forall|i: int|
        0 <= i < v.used(c) ==> #[trigger] slot(w, c, i) == slot(v, c, i)) by {
        assert(w.cluster(c as int) == v.cluster(c as int));
    }
    assert forall|c: int| 2 <= c < v.next && !is_directory(v, c) implies #[trigger] w.cluster(c)
        == v.cluster(c) by {
    }
}

/// A directory that is created, in a directory that has no entry of its name, is
/// found there.
proof fn lemma_created(v: Volume, parent: u32, name: Seq<u8>)
    requires
        sound(v),
        v.slots.contains_key(parent),
        proper(name),
        v.with_directory(parent, name) is Ok,
        listed(v, parent, name_83(name), 0) is None,
    ensures
        ({
            let w = v.with_directory(parent, name)->Ok_0;
            let found = listed(w, parent, name_83(name), 0);
            &&& sound(w)
            &&& extends(v, w)
            &&& w.slots.contains_key(v.next as u32)
            &&& found is Some
            &&& cluster_of(found->0) == v.next
            &&& found->0[11] == DIRECTORY
            &&& forall|n: Seq<u8>|
                n != DOT@ && n != DOT_DOT@ ==> #[trigger] listed(w, v.next as u32, n, 0) is None
        }),
{
    assert(directory_is_sound(v, parent));
    let cluster = v.next as u32;
    let a = v.allocated(1)->Ok_0;
    let dot = entry_bytes(DOT@, DIRECTORY, cluster as nat, 0);
    let dot_dot = entry_bytes(DOT_DOT@, DIRECTORY, parent as nat, 0);
    let entry = entry_bytes(name_83(name), DIRECTORY, cluster as nat, 0);
    let b = a.entered(cluster, dot)->Ok_0;
    let c = b.entered(cluster, dot_dot)->Ok_0;
    let w = c.entered(parent, entry)->Ok_0;
    lemma_name_starts(name);
    lemma_entry_fields(DOT@, DIRECTORY, cluster as nat, 0);
    lemma_entry_fields(DOT_DOT@, DIRECTORY, parent as nat, 0);
    lemma_entry_fields(name_83(name), DIRECTORY, cluster as nat, 0);
    lemma_allocated_sound(v, 1);
    if v.slots.contains_key(cluster) {
        assert(directory_is_sound(v, cluster));
    }
    assert(a.used(cluster) == 0);
    let a0 = Volume { next: cluster as nat, ..a };
    assert(a0 == Volume { next: v.next, ..a });
    assert(is_directory(b, cluster as int));
    assert(entry_is_sound(b, dot));
    lemma_entered_sound(a, cluster, dot);
    lemma_extends_trans(v, a0, b);
    assert(is_directory(c, parent as int));
    assert(entry_is_sound(c, dot_dot));
    lemma_entered_sound(b, cluster, dot_dot);
    lemma_extends_trans(v, b, c);
    assert(is_directory(w, cluster as int));
    assert(entry_is_sound(w, entry));
    lemma_entered_sound(c, parent, entry);
    lemma_extends_trans(v, c, w);
    // The parent's entries are as they were, with the new one behind them.
    assert(c.used(parent) == v.used(parent));
    lemma_listed_new(v, w, parent, name_83(name), 0);
    // The directory itself holds the two dots.
    assert(w.used(cluster) == 2) by {
        assert(b.used(cluster) == 1);
        assert(c.used(cluster) == 2);
    }
    assert(b.slots.contains_key(cluster));
    assert(c.slots.contains_key(cluster));
    assert(slot(b, cluster, 0) == dot);
    assert(slot(c, cluster, 0) == dot);
    assert(slot(c, cluster, 1) == dot_dot);
    assert(slot(w, cluster, 0) == dot);
    assert(slot(w, cluster, 1) == dot_dot);
    assert forall|n: Seq<u8>| n != DOT@ && n != DOT_DOT@ implies #[trigger] listed(
        w,
        cluster,
        n,
        0,
    ) is None by {
        reveal_with_fuel(listed, 4);
    }
}

/// A directory of a path that leads through directories is found or created, and
/// is then where the path leads.
proof fn lemma_ensured(v: Volume, parent: u32, name: Seq<u8>)
    requires
        sound(v),
        v.slots.contains_key(parent),
        proper(name),
        v.ensured(parent, name) is Ok,
        listed(v, parent, name_83(name), 0) is Some ==> listed(v, parent, name_83(name), 0)->0[11]
            == DIRECTORY,
    ensures
        ({
            let (w, found) = v.ensured(parent, name)->Ok_0;
            let entry = listed(w, parent, name_83(name), 0);
            &&& sound(w)
            &&& extends(v, w)
            &&& w.slots.contains_key(found)
            &&& entry is Some
            &&& cluster_of(entry->0) == found
            &&& entry->0[11] == DIRECTORY
            &&& w == v || (forall|n: Seq<u8>|
                n != DOT@ && n != DOT_DOT@ ==> #[trigger] listed(w, found, n, 0) is None)
        }),
{
    lemma_found_is_listed(v, parent, name_83(name), true, 0);
    lemma_same_bytes_sound(v, v);
    if v.child(parent, name) is None {
        lemma_created(v, parent, name);
    } else {
        let entry = listed(v, parent, name_83(name), 0)->0;
        assert(is_directory(v, cluster_of(entry) as int));
    }
}

/// The directories of a path that leads through directories are found or created,
/// and the path then leads to the last one.
proof fn lemma_walked(v: Volume, names: Seq<Seq<u8>>)
    requires
        sound(v),
        all_proper(names),
        through_directories(v, names),
        v.walked(names) is Ok,
    ensures
        ({
            let (w, found) = v.walked(names)->Ok_0;
            &&& sound(w)
            &&& extends(v, w)
            &&& w.slots.contains_key(found)
            &&& directory_at(w, names) == Some(found as nat)
            &&& through_directories(w, names)
            &&& w == v || (forall|n: Seq<u8>|
                n != DOT@ && n != DOT_DOT@ ==> #[trigger] listed(w, found, n, 0) is None)
        }),
    decreases names.len(),
{
    lemma_same_bytes_sound(v, v);
    if names.len() > 0 {
        let front = names.drop_last();
        let name = names.last();
        assert(proper(names[names.len() - 1]));
        assert forall|i: int| 0 <= i < front.len() implies proper(#[trigger] front[i]) by {
            assert(front[i] == names[i]);
        }
        lemma_walked(v, front);
        let (u, parent) = v.walked(front)->Ok_0;
        lemma_found_is_listed(u, parent, name_83(name), false, 0);
        assert(entry_at(u, names) == listed(u, parent, name_83(name), 0));
        if u != v {
            assert(listed(u, parent, name_83(name), 0) is None);
        }
        lemma_ensured(u, parent, name);
        let (w, found) = u.ensured(parent, name)->Ok_0;
        lemma_extends_trans(v, u, w);
        lemma_directory_kept(u, w, front);
        lemma_found_is_listed(w, parent, name_83(name), false, 0);
        assert(entry_at(w, names) == listed(w, parent, name_83(name), 0));
    }
}

/// A directory that a path leads to through directories is still there in what
/// extends the volume.
proof fn lemma_directory_kept(v: Volume, w: Volume, names: Seq<Seq<u8>>)
    requires
        sound(v),
        sound(w),
        extends(v, w),
        through_directories(v, names),
        directory_at(v, names) is Some,
    ensures
        is_directory(v, directory_at(v, names)->0 as int),
        directory_at(w, names) == directory_at(v, names),
        entry_at(w, names) == entry_at(v, names),
        through_directories(w, names),
    decreases names.len(),
{
    if names.len() > 0 {
        let front = names.drop_last();
        lemma_directory_kept(v, w, front);
        lemma_entry_kept(v, w, names);
        let entry = entry_at(v, names)->0;
        let parent = directory_at(v, front)->0 as u32;
        lemma_found_is_listed(v, parent, name_83(names.last()), false, 0);
        assert(entry_is_sound(v, entry));
        assert(is_directory(v, cluster_of(entry) as int));
    }
}

proof fn lemma_entry_kept(v: Volume, w: Volume, names: Seq<Seq<u8>>)
    requires
        sound(v),
        sound(w),
        extends(v, w),
        names.len() > 0,
        entry_at(v, names) is Some,
        is_directory(v, directory_at(v, names.drop_last())->0 as int),
        directory_at(w, names.drop_last()) == directory_at(v, names.drop_last()),
    ensures
        entry_at(w, names) == entry_at(v, names),
{
    let parent = directory_at(v, names.drop_last())->0 as u32;
    let name = name_83(names.last());
    lemma_found_is_listed(v, parent, name, false, 0);
    lemma_found_is_listed(w, parent, name, false, 0);
    lemma_listed_grows(v, w, parent, name, 0);
}

/// A file whose clusters are as they were reads as it did.
proof fn lemma_contents_kept(v: Volume, w: Volume, entry: Seq<u8>)
    requires
        v.wf(),
        w.wf(),
        extends(v, w),
        run_is_sound(v, entry),
    ensures
        contents_of(w, entry) == contents_of(v, entry),
        chained(w, entry),
{
    let first = cluster_of(entry) as int;
    let at = cluster_at(v.fat_sectors, first);
    let a = contents_of(v, entry);
    let b = contents_of(w, entry);
    lemma_cluster_len(v, first);
    assert(a.len() == size_of(entry)) by {
        lemma_cluster_len(v, first + run_of(entry) - 1);
    }
    assert forall|j: int| 0 <= j < size_of(entry) implies #[trigger] b[j] == a[j] by {
        let k = first + j / 4096;
        assert(!is_directory(v, k));
        assert(w.cluster(k) == v.cluster(k));
        lemma_cluster_len(v, k);
        assert(v.cluster(k)[j % 4096] == v.bytes[at + j]);
        assert(w.cluster(k)[j % 4096] == w.bytes[at + j]);
    }
    assert(b =~= a);
    assert forall|k: int| first <= k < first + run_of(entry) implies #[trigger] w.fat[k] == (if k
        + 1 == first + run_of(entry) {
        END_OF_CHAIN
    } else {
        (k + 1) as u32
    }) by {
        assert(w.fat[k] == v.fat[k]);
    }
}

/// A file put into a directory that has no entry of its name is found there, with
/// its contents.
proof fn lemma_with_file(v: Volume, parent: u32, name: Seq<u8>, contents: Seq<u8>)
    requires
        sound(v),
        v.slots.contains_key(parent),
        proper(name),
        contents.len() <= u32::MAX,
        v.with_file(parent, name, contents) is Ok,
    ensures
        ({
            let w = v.with_file(parent, name, contents)->Ok_0;
            let entry = entry_bytes(name_83(name), ARCHIVE, v.next, contents.len());
            &&& sound(w)
            &&& extends(v, w)
            &&& listed(v, parent, name_83(name), 0) is None ==> listed(
                w,
                parent,
                name_83(name),
                0,
            ) == Some(entry)
            &&& entry_is_sound(w, entry)
            &&& entry[11] == ARCHIVE
            &&& contents_of(w, entry) == contents
        }),
{
    assert(directory_is_sound(v, parent));
    let n = Volume::clusters_for(contents);
    let a = v.allocated(n)->Ok_0;
    let at = cluster_at(v.fat_sectors, v.next as int);
    let b = Volume { bytes: put(a.bytes, at, contents), ..a };
    let entry = entry_bytes(name_83(name), ARCHIVE, v.next, contents.len());
    lemma_name_starts(name);
    lemma_entry_fields(name_83(name), ARCHIVE, v.next, contents.len());
    assert(run_of(entry) == n);
    assert(contents.len() <= n * 4096);
    let a0 = Volume { next: v.next, ..a };
    lemma_allocated_sound(v, n);
    // Below the new clusters nothing changes.
    assert(b.wf());
    assert forall|c: int| 2 <= c < v.next implies #[trigger] b.cluster(c) == v.cluster(c) by {
        lemma_cluster_len(v, c);
        assert(b.cluster(c) =~= v.cluster(c));
    }
    assert forall|c: u32| #[trigger] b.slots.contains_key(c) implies directory_is_sound(b, c) by {
        assert(a.slots.contains_key(c));
        assert(directory_is_sound(v, c));
        assert(directory_is_sound(a, c));
        assert(b.cluster(c as int) == v.cluster(c as int));
        assert(a.cluster(c as int) == v.cluster(c as int));
        assert forall|i: int| 0 <= i < b.used(c) implies entry_is_sound(
            b,
            #[trigger] slot(b, c, i),
        ) by {
            let s = slot(a, c, i);
            assert(entry_is_sound(a, s));
            if s[11] == DIRECTORY {
                assert(is_directory(b, cluster_of(s) as int));
            } else {
                assert forall|k: int|
                    cluster_of(s) <= k < cluster_of(s) + run_of(s) implies !(
                #[trigger] is_directory(b, k)) by {
                    assert(!is_directory(a, k));
                }
            }
        }
        assert forall|j: int| b.used(c) * 32 <= j < 4096 implies #[trigger] b.cluster(c as int)[j]
            == 0 by {
            assert(a.cluster(c as int)[j] == 0);
        }
    }
    assert forall|j: int|
        cluster_at(b.fat_sectors, b.next as int) <= j < cluster_at(
            b.fat_sectors,
            b.fat.len() as int,
        ) implies #[trigger] b.bytes[j] == 0 by {
        assert(a.bytes[j] == 0);
    }
    assert(sound(b));
    assert(extends(v, b)) by {
        assert forall|c: u32| #[trigger] v.slots.contains_key(c) implies b.slots.contains_key(c)
            && v.used(c) <= b.used(c) && (forall|i: int|
            0 <= i < v.used(c) ==> #[trigger] slot(b, c, i) == slot(v, c, i)) by {
            assert(directory_is_sound(v, c));
            assert(b.cluster(c as int) == v.cluster(c as int));
        }
    }
    let w = b.entered(parent, entry)->Ok_0;
    assert forall|k: int|
        cluster_of(entry) <= k < cluster_of(entry) + run_of(entry) implies !(
    #[trigger] is_directory(w, k)) by {
        if is_directory(w, k) {
            if k != parent {
                assert(v.slots.contains_key(k as u32));
                assert(directory_is_sound(v, k as u32));
            }
        }
    }
    assert(chained(w, entry));
    assert(run_is_sound(w, entry));
    lemma_entered_sound(b, parent, entry);
    lemma_extends_trans(v, b, w);
    if listed(v, parent, name_83(name), 0) is None {
        lemma_listed_new(v, w, parent, name_83(name), 0);
    }
    lemma_entered(b, parent, entry);
    assert(contents_of(w, entry) =~= contents) by {
        assert forall|j: int| 0 <= j < contents.len() implies #[trigger] contents_of(w, entry)[j]
            == contents[j] by {
            assert(w.bytes[at + j] == b.bytes[at + j]);
        }
    }
}

/// A file that is added where nothing was is read back: a reader that follows the
/// path finds an entry of the contents' size, whose clusters are chained and hold
/// the contents.
pub proof fn law_added_file_is_read(v: Volume, path: Seq<u8>, contents: Seq<u8>)
    requires
        sound(v),
        all_proper(components(path)),
        contents.len() <= u32::MAX,
        v.added(path, contents) is Ok,
        through_directories(v, components(path).drop_last()),
        entry_at(v, components(path)) is None,
    ensures
        ({
            let w = v.added(path, contents)->Ok_0;
            let found = entry_at(w, components(path));
            &&& sound(w)
            &&& found is Some
            &&& found->0[11] == ARCHIVE
            &&& size_of(found->0) == contents.len()
            &&& chained(w, found->0)
            &&& contents_of(w, found->0) == contents
        }),
{
    let names = components(path);
    let front = names.drop_last();
    let name = names.last();
    assert(proper(names[names.len() - 1]));
    assert forall|i: int| 0 <= i < front.len() implies proper(#[trigger] front[i]) by {
        assert(front[i] == names[i]);
    }
    lemma_walked(v, front);
    let (u, parent) = v.walked(front)->Ok_0;
    lemma_found_is_listed(u, parent, name_83(name), false, 0);
    assert(listed(u, parent, name_83(name), 0) is None);
    lemma_with_file(u, parent, name, contents);
    let w = u.with_file(parent, name, contents)->Ok_0;
    lemma_directory_kept(u, w, front);
    lemma_found_is_listed(w, parent, name_83(name), false, 0);
    lemma_name_starts(name);
    lemma_entry_fields(name_83(name), ARCHIVE, u.next, contents.len());
}

/// Adding a file changes nothing of what was there: every path that led to an
/// entry through directories leads to the same entry, and a file reads as it did.
pub proof fn law_files_are_kept(
    v: Volume,
    path: Seq<u8>,
    contents: Seq<u8>,
    other: Seq<Seq<u8>>,
)
    requires
        sound(v),
        all_proper(components(path)),
        contents.len() <= u32::MAX,
        v.added(path, contents) is Ok,
        through_directories(v, components(path).drop_last()),
        other.len() > 0,
        through_directories(v, other.drop_last()),
        entry_at(v, other) is Some,
    ensures
        ({
            let w = v.added(path, contents)->Ok_0;
            let entry = entry_at(v, other)->0;
            &&& sound(w)
            &&& through_directories(w, other.drop_last())
            &&& entry_at(w, other) == Some(entry)
            &&& entry[11] == ARCHIVE ==> contents_of(w, entry) == contents_of(v, entry) && chained(
                w,
                entry,
            )
        }),
{
    let names = components(path);
    let front = names.drop_last();
    let name = names.last();
    assert(proper(names[names.len() - 1]));
    assert forall|i: int| 0 <= i < front.len() implies proper(#[trigger] front[i]) by {
        assert(front[i] == names[i]);
    }
    lemma_walked(v, front);
    let (u, parent) = v.walked(front)->Ok_0;
    lemma_with_file(u, parent, name, contents);
    let w = u.with_file(parent, name, contents)->Ok_0;
    lemma_extends_trans(v, u, w);
    lemma_directory_kept(v, w, other.drop_last());
    lemma_entry_kept(v, w, other);
    let entry = entry_at(v, other)->0;
    let there = directory_at(v, other.drop_last())->0 as u32;
    lemma_found_is_listed(v, there, name_83(other.last()), false, 0);
    if entry[11] == ARCHIVE {
        lemma_contents_kept(v, w, entry);
    }
}

/// An empty volume is sound.
pub proof fn law_empty_is_sound(partition_sectors: int)
    requires
        geometry(partition_sectors) is Ok,
    ensures
        sound(
            empty_volume(
                partition_sectors,
                geometry(partition_sectors)->Ok_0.0,
                geometry(partition_sectors)->Ok_0.1,
            ),
        ),
{
    let (clusters, fat_sectors) = geometry(partition_sectors)->Ok_0;
    let v = empty_volume(partition_sectors, clusters, fat_sectors);
    assert(v.wf());
    assert forall|c: u32| #[trigger] v.slots.contains_key(c) implies directory_is_sound(v, c) by {
        assert(c == 2);
        lemma_cluster_len(v, 2);
    }
}

/// Whether files can be added one after the other to what a volume holds: their
/// names are ones that directories can hold, no path leads through a file, and
/// none leads to what is already there.
pub open spec fn orderly(v: Volume, files: Seq<(Seq<u8>, Seq<u8>)>) -> bool
    decreases files.len(),
{
    files.len() == 0 || (orderly(v, files.drop_last()) && match v.with_all(files.drop_last()) {
        Ok(w) => {
            &&& all_proper(components(files.last().0))
            &&& files.last().1.len() <= u32::MAX
            &&& through_directories(w, components(files.last().0).drop_last())
            &&& entry_at(w, components(files.last().0)) is None
        },
        Err(_) => true,
    })
}

/// Whether a reader finds contents at a path.
pub open spec fn reads(v: Volume, path: Seq<u8>, contents: Seq<u8>) -> bool {
    &&& components(path).len() > 0
    &&& through_directories(v, components(path).drop_last())
    &&& entry_at(v, components(path)) matches Some(entry) && entry[11] == ARCHIVE && size_of(entry)
        == contents.len() && chained(v, entry) && contents_of(v, entry) == contents
}

/// Every file that was put into a volume is read back from it.
pub proof fn law_all_files_are_read(v: Volume, files: Seq<(Seq<u8>, Seq<u8>)>, i: int)
    requires
        sound(v),
        v.with_all(files) is Ok,
        orderly(v, files),
        0 <= i < files.len(),
    ensures
        reads(v.with_all(files)->Ok_0, files[i].0, files[i].1),
    decreases files.len(),
{
    let front = files.drop_last();
    let u = v.with_all(front)->Ok_0;
    lemma_with_all_sound(v, front);
    let (path, contents) = files.last();
    law_added_file_is_read(u, path, contents);
    if i == files.len() - 1 {
        assert(files[i] == files.last());
        let names = components(path);
        lemma_path_kept(u, path, contents);
    } else {
        law_all_files_are_read(v, front, i);
        assert(front[i] == files[i]);
        law_files_are_kept(u, path, contents, components(files[i].0));
    }
}

pub proof fn lemma_with_all_sound(v: Volume, files: Seq<(Seq<u8>, Seq<u8>)>)
    requires
        sound(v),
        v.with_all(files) is Ok,
        orderly(v, files),
    ensures
        sound(v.with_all(files)->Ok_0),
    decreases files.len(),
{
    if files.len() > 0 {
        lemma_with_all_sound(v, files.drop_last());
        let u = v.with_all(files.drop_last())->Ok_0;
        law_added_file_is_read(u, files.last().0, files.last().1);
    }
}

/// The directories on the way to a new file are directories.
proof fn lemma_path_kept(v: Volume, path: Seq<u8>, contents: Seq<u8>)
    requires
        sound(v),
        all_proper(components(path)),
        contents.len() <= u32::MAX,
        v.added(path, contents) is Ok,
        through_directories(v, components(path).drop_last()),
    ensures
        through_directories(v.added(path, contents)->Ok_0, components(path).drop_last()),
{
    let names = components(path);
    let front = names.drop_last();
    assert(proper(names[names.len() - 1]));
    assert forall|i: int| 0 <= i < front.len() implies proper(#[trigger] front[i]) by {
        assert(front[i] == names[i]);
    }
    lemma_walked(v, front);
    let (u, parent) = v.walked(front)->Ok_0;
    lemma_with_file(u, parent, names.last(), contents);
    lemma_directory_kept(u, u.with_file(parent, names.last(), contents)->Ok_0, front);
}

/// The boot sector, the FSInfo sectors and the table do not reach the clusters, so
/// what is read from the finished bytes is what was read before.
pub proof fn law_finishing_keeps_clusters(v: Volume, c: int)
    requires
        v.wf(),
        2 <= c < v.fat.len(),
    ensures
        (Volume { bytes: v.finished(), ..v }).cluster(c) == v.cluster(c),
        v.finished().len() == v.bytes.len(),
{
    lemma_sector_lens(v.bytes.len() / 512, v.fat_sectors);
    lemma_words_len(v.fat);
    lemma_cluster_len(v, c);
    assert((Volume { bytes: v.finished(), ..v }).cluster(c) =~= v.cluster(c));
}

/// Adding files keeps a volume's size and that of its table.
pub proof fn lemma_with_all_shape(v: Volume, files: Seq<(Seq<u8>, Seq<u8>)>)
    requires
        sound(v),
        v.with_all(files) is Ok,
        orderly(v, files),
    ensures
        (v.with_all(files)->Ok_0).bytes.len() == v.bytes.len(),
        (v.with_all(files)->Ok_0).fat_sectors == v.fat_sectors,
        (v.with_all(files)->Ok_0).fat.len() == v.fat.len(),
    decreases files.len(),
{
    if files.len() > 0 {
        let front = files.drop_last();
        lemma_with_all_shape(v, front);
        lemma_with_all_sound(v, front);
        let u = v.with_all(front)->Ok_0;
        let (path, contents) = files.last();
        let names = components(path);
        assert(proper(names[names.len() - 1]));
        let on_the_way = names.drop_last();
        assert forall|i: int| 0 <= i < on_the_way.len() implies proper(
            #[trigger] on_the_way[i],
        ) by {
            assert(on_the_way[i] == names[i]);
        }
        lemma_walked(u, on_the_way);
        let (w, parent) = u.walked(on_the_way)->Ok_0;
        lemma_with_file(w, parent, names.last(), contents);
    }
}

/// A directory that a path leads to through directories is one of the volume's.
pub proof fn lemma_directory_is_there(v: Volume, names: Seq<Seq<u8>>)
    requires
        sound(v),
        through_directories(v, names),
        directory_at(v, names) is Some,
    ensures
        2 <= directory_at(v, names)->0 < v.fat.len(),
{
    lemma_same_bytes_sound(v, v);
    lemma_directory_kept(v, v, names);
    assert(directory_is_sound(v, directory_at(v, names)->0 as u32));
}

/// The clusters of a file that a path leads to through directories are the
/// volume's.
pub proof fn lemma_file_is_there(v: Volume, names: Seq<Seq<u8>>)
    requires
        sound(v),
        names.len() > 0,
        through_directories(v, names.drop_last()),
        entry_at(v, names) is Some,
        (entry_at(v, names)->0)[11] == ARCHIVE,
    ensures
        ({
            let entry = entry_at(v, names)->0;
            &&& 2 <= cluster_of(entry)
            &&& cluster_of(entry) + run_of(entry) <= v.fat.len()
            &&& size_of(entry) <= run_of(entry) * 4096
        }),
{
    lemma_same_bytes_sound(v, v);
    lemma_directory_kept(v, v, names.drop_last());
    let parent = directory_at(v, names.drop_last())->0 as u32;
    lemma_found_is_listed(v, parent, name_83(names.last()), false, 0);
}

} // verus!
