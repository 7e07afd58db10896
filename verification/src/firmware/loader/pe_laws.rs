//! What loading makes of an image: its headers and sections at their addresses, and its
//! absolute addresses moved to where it lies.
use crate::bytes::{
    fill, le_at, le_bytes, lemma_le_bytes_len, lemma_le_value_2, lemma_le_value_4,
    lemma_le_value_of_bytes, lemma_widths, put,
};
use crate::firmware::loader::pe::{
    directory_range, has_headers, image_of, load_offset, nt_offset, relocation_directory,
    section_headers, shifted, with_blocks, with_entries, with_sections, PeError, SectionHeader,
};
use vstd::prelude::*;

verus! {

/// The address an image is linked for.
pub open spec fn preferred_base(b: Seq<u8>) -> u64 {
    le_at(b, nt_offset(b) + 48, 8) as u64
}

/// Whether a section brings the byte at an address from the file: the part of its data
/// that it has room for.
pub open spec fn brings(h: SectionHeader, a: int) -> bool {
    h.virtual_address <= a < h.virtual_address + h.size_of_raw_data && a < h.virtual_address
        + h.virtual_size
}

/// The byte that a section brings, where no later one does, is that of the file.
proof fn lemma_brought(image: Seq<u8>, b: Seq<u8>, s: Seq<SectionHeader>, i: int, a: int)
    requires
        with_sections(image, b, s) is Some,
        0 <= i < s.len(),
        brings(s[i], a),
        forall|j: int| i < j < s.len() ==> !brings(#[trigger] s[j], a),
    ensures
        ({
            let after = with_sections(image, b, s)->0;
            let from = s[i].pointer_to_raw_data + (a - s[i].virtual_address);
            after.len() == image.len() && a < image.len() && from < b.len() && after[a] == b[from]
        }),
    decreases s.len(),
{
    let front = s.drop_last();
    lemma_sections_length(image, b, s);
    lemma_sections_length(image, b, front);
    if i < s.len() - 1 {
        assert(front[i] == s[i]);
        assert forall|j: int| i < j < front.len() implies !brings(#[trigger] front[j], a) by {
            assert(front[j] == s[j]);
        }
        lemma_brought(image, b, front, i, a);
        assert(!brings(s[s.len() - 1], a));
    }
}

proof fn lemma_sections_length(image: Seq<u8>, b: Seq<u8>, s: Seq<SectionHeader>)
    ensures
        with_sections(image, b, s) matches Some(after) ==> after.len() == image.len(),
    decreases s.len(),
{
    if s.len() > 0 {
        lemma_sections_length(image, b, s.drop_last());
    }
}

/// A byte that no section brings stays.
proof fn lemma_not_brought(image: Seq<u8>, b: Seq<u8>, s: Seq<SectionHeader>, a: int)
    requires
        with_sections(image, b, s) is Some,
        0 <= a < image.len(),
        forall|j: int| 0 <= j < s.len() ==> !brings(#[trigger] s[j], a),
    ensures
        with_sections(image, b, s)->0[a] == image[a],
    decreases s.len(),
{
    if s.len() > 0 {
        let front = s.drop_last();
        lemma_sections_length(image, b, front);
        assert forall|j: int| 0 <= j < front.len() implies !brings(#[trigger] front[j], a) by {
            assert(front[j] == s[j]);
        }
        lemma_not_brought(image, b, front, a);
        assert(!brings(s[s.len() - 1], a));
    }
}

/// An image that loads anywhere loads where it was linked for, at the same size.
pub proof fn law_loads_where_it_was_linked(b: Seq<u8>, base: u64)
    requires
        image_of(b, base) is Ok,
    ensures
        image_of(b, preferred_base(b)) is Ok,
        image_of(b, preferred_base(b))->Ok_0.len() == le_at(b, nt_offset(b) + 80, 4),
{
    let size = le_at(b, nt_offset(b) + 80, 4);
    let headers = le_at(b, nt_offset(b) + 84, 4);
    lemma_sections_length(
        put(fill(size, 0), 0, b.subrange(0, headers as int)),
        b,
        section_headers(b),
    );
}

/// An image where it was linked for: every byte that a section brings is that of the file,
/// where no later section brings one of its own; of the others, those of the headers are
/// those of the file, and the rest are zero.
pub proof fn law_sections_are_laid_out(b: Seq<u8>, a: int)
    requires
        image_of(b, preferred_base(b)) is Ok,
        0 <= a < le_at(b, nt_offset(b) + 80, 4),
    ensures
        ({
            let image = image_of(b, preferred_base(b))->Ok_0;
            let s = section_headers(b);
            &&& image.len() == le_at(b, nt_offset(b) + 80, 4)
            &&& forall|i: int|
                0 <= i < s.len() && brings(#[trigger] s[i], a) && (forall|j: int|
                    i < j < s.len() ==> !brings(#[trigger] s[j], a)) ==> image[a]
                    == b[s[i].pointer_to_raw_data + (a - s[i].virtual_address)]
            &&& (forall|j: int| 0 <= j < s.len() ==> !brings(#[trigger] s[j], a)) ==> image[a] == (
            if a < le_at(b, nt_offset(b) + 84, 4) {
                b[a]
            } else {
                0
            })
        }),
{
    let s = section_headers(b);
    let size = le_at(b, nt_offset(b) + 80, 4);
    let headers = le_at(b, nt_offset(b) + 84, 4);
    let blank = put(fill(size, 0), 0, b.subrange(0, headers as int));
    let image = image_of(b, preferred_base(b))->Ok_0;
    lemma_sections_length(blank, b, s);
    assert forall|i: int|
        0 <= i < s.len() && brings(#[trigger] s[i], a) && (forall|j: int|
            i < j < s.len() ==> !brings(#[trigger] s[j], a)) implies image[a]
        == b[s[i].pointer_to_raw_data + (a - s[i].virtual_address)] by {
        lemma_brought(blank, b, s, i, a);
    }
    if forall|j: int| 0 <= j < s.len() ==> !brings(#[trigger] s[j], a) {
        lemma_not_brought(blank, b, s, a);
    }
}

/// Whether section `k` is the one that holds the relocations: the first whose span holds
/// their address.
pub open spec fn holds_relocations(b: Seq<u8>, k: int) -> bool {
    let s = section_headers(b);
    relocation_directory(b) matches Some((rva, _)) && 0 <= k < s.len() && spans(s[k], rva)
        && forall|j: int| 0 <= j < k ==> !spans(#[trigger] s[j], rva)
}

/// Whether an address is inside a section, in memory or in the file.
pub open spec fn spans(h: SectionHeader, rva: u32) -> bool {
    h.virtual_address <= rva && (rva < h.virtual_address + h.virtual_size || rva
        < h.virtual_address + h.size_of_raw_data)
}

/// The relocations that the file has in section `k`: as many bytes as the directory says,
/// and no more than the section's data has.
pub open spec fn relocations_in(b: Seq<u8>, k: int) -> Seq<u8> {
    let h = section_headers(b)[k];
    let (rva, size) = relocation_directory(b)->0;
    let within = rva - h.virtual_address;
    let left = if within <= h.size_of_raw_data {
        h.size_of_raw_data - within
    } else {
        0
    };
    let from = h.pointer_to_raw_data + within;
    b.subrange(
        from,
        from + if left <= size {
            left
        } else {
            size as int
        },
    )
}

proof fn lemma_directory(s: Seq<SectionHeader>, rva: u32, size: u32, k: int)
    requires
        0 <= k < s.len(),
        spans(s[k], rva),
        forall|j: int| 0 <= j < k ==> !spans(#[trigger] s[j], rva),
    ensures
        ({
            let h = s[k];
            let within = rva - h.virtual_address;
            let left = if within <= h.size_of_raw_data {
                h.size_of_raw_data - within
            } else {
                0
            };
            let from = h.pointer_to_raw_data + within;
            directory_range(s, rva, size) == Some(
                (
                    from,
                    from + if left <= size {
                        left
                    } else {
                        size as int
                    },
                ),
            )
        }),
    decreases k,
{
    if k > 0 {
        assert(!spans(s[0], rva));
        let rest = s.drop_first();
        assert(rest[k - 1] == s[k]);
        assert forall|j: int| 0 <= j < k - 1 implies !spans(#[trigger] rest[j], rva) by {
            assert(rest[j] == s[j + 1]);
        }
        lemma_directory(rest, rva, size, k - 1);
    }
}

proof fn lemma_no_directory(s: Seq<SectionHeader>, rva: u32, size: u32)
    ensures
        directory_range(s, rva, size) is Some ==> exists|k: int|
            0 <= k < s.len() && spans(#[trigger] s[k], rva) && forall|j: int|
                0 <= j < k ==> !spans(#[trigger] s[j], rva),
    decreases s.len(),
{
    if s.len() > 0 {
        if spans(s[0], rva) {
            assert(forall|j: int| 0 <= j < 0 ==> !spans(#[trigger] s[j], rva));
        } else {
            let rest = s.drop_first();
            lemma_no_directory(rest, rva, size);
            if directory_range(s, rva, size) is Some {
                let k = choose|k: int|
                    0 <= k < rest.len() && spans(#[trigger] rest[k], rva) && forall|j: int|
                        0 <= j < k ==> !spans(#[trigger] rest[j], rva);
                assert(spans(s[k + 1], rva));
                assert forall|j: int| 0 <= j < k + 1 implies !spans(#[trigger] s[j], rva) by {
                    if j > 0 {
                        assert(rest[j - 1] == s[j]);
                    }
                }
            }
        }
    }
}

/// Whether a relocation block starts at `c`, when one starts at `from`: each starts where
/// the one before it ends.
pub open spec fn block_from(r: Seq<u8>, from: int, c: int) -> bool
    decreases c - from,
{
    if from >= c {
        from == c && c + 8 <= r.len()
    } else {
        from + 8 <= r.len() && 8 <= le_at(r, from + 4, 4) <= c - from && block_from(
            r,
            from + le_at(r, from + 4, 4),
            c,
        )
    }
}

/// Whether the block at `c` has an entry `j`.
pub open spec fn has_entry(r: Seq<u8>, c: int, j: int) -> bool {
    0 <= j && 8 + 2 * j + 2 <= le_at(r, c + 4, 4)
}

/// The kind of entry `j` of the block at `c`.
pub open spec fn kind_of(r: Seq<u8>, c: int, j: int) -> int {
    le_at(r, c + 8 + 2 * j, 2) as int / 4096
}

/// The address that entry `j` of the block at `c` is for.
pub open spec fn target_of(r: Seq<u8>, c: int, j: int) -> int {
    le_at(r, c, 4) + le_at(r, c + 8 + 2 * j, 2) as int % 4096
}

/// Whether an entry moves a word that has a byte among the `n` at `a`.
pub open spec fn moves(r: Seq<u8>, c: int, j: int, a: int, n: int) -> bool {
    kind_of(r, c, j) == 10 && target_of(r, c, j) < a + n && a < target_of(r, c, j) + 8
}

/// Entries that move nothing of some bytes leave them.
proof fn lemma_entries_keep(image: Seq<u8>, r: Seq<u8>, c: int, n: nat, delta: u64, a: int, w: int)
    requires
        with_entries(image, r, c + 8, n, le_at(r, c, 4) as int, delta) is Ok,
        0 <= a,
        0 <= w,
        a + w <= image.len(),
        forall|j: int| 0 <= j < n ==> !#[trigger] moves(r, c, j, a, w),
    ensures
        ({
            let after = with_entries(image, r, c + 8, n, le_at(r, c, 4) as int, delta)->Ok_0;
            after.len() == image.len() && after.subrange(a, a + w) == image.subrange(a, a + w)
        }),
    decreases n,
{
    if n > 0 {
        let page = le_at(r, c, 4) as int;
        lemma_entries_keep(image, r, c, (n - 1) as nat, delta, a, w);
        let before = with_entries(image, r, c + 8, (n - 1) as nat, page, delta)->Ok_0;
        let after = with_entries(image, r, c + 8, n, page, delta)->Ok_0;
        assert(!moves(r, c, n - 1, a, w));
        let t = target_of(r, c, n - 1);
        lemma_le_bytes_len(shifted(le_at(before, t, 8), delta), 8);
        assert forall|i: int| 0 <= i < w implies #[trigger] after.subrange(a, a + w)[i]
            == image.subrange(a, a + w)[i] by {
            assert(before.subrange(a, a + w)[i] == image.subrange(a, a + w)[i]);
        }
        assert(after.subrange(a, a + w) =~= image.subrange(a, a + w));
    }
}

/// Every entry that was applied is padding or moves a word inside the image.
proof fn lemma_entries_known(image: Seq<u8>, r: Seq<u8>, c: int, n: nat, delta: u64, j: int)
    requires
        with_entries(image, r, c + 8, n, le_at(r, c, 4) as int, delta) is Ok,
        0 <= j < n,
    ensures
        kind_of(r, c, j) == 0 || (kind_of(r, c, j) == 10 && target_of(r, c, j) + 8 <= image.len()),
    decreases n,
{
    let page = le_at(r, c, 4) as int;
    lemma_entries_length(image, r, c, (n - 1) as nat, delta);
    if j < n - 1 {
        lemma_entries_known(image, r, c, (n - 1) as nat, delta, j);
    }
}

proof fn lemma_entries_length(image: Seq<u8>, r: Seq<u8>, c: int, n: nat, delta: u64)
    ensures
        with_entries(image, r, c + 8, n, le_at(r, c, 4) as int, delta) matches Ok(after)
            ==> after.len() == image.len(),
    decreases n,
{
    if n > 0 {
        lemma_entries_length(image, r, c, (n - 1) as nat, delta);
    }
}

/// The word of an entry that no other one touches is moved.
proof fn lemma_entries_move(image: Seq<u8>, r: Seq<u8>, c: int, n: nat, delta: u64, j: int)
    requires
        with_entries(image, r, c + 8, n, le_at(r, c, 4) as int, delta) is Ok,
        0 <= j < n,
        kind_of(r, c, j) == 10,
        forall|i: int| 0 <= i < n && i != j ==> !#[trigger] moves(r, c, i, target_of(r, c, j), 8),
    ensures
        ({
            let after = with_entries(image, r, c + 8, n, le_at(r, c, 4) as int, delta)->Ok_0;
            let t = target_of(r, c, j);
            &&& after.len() == image.len() && t + 8 <= image.len()
            &&& le_at(after, t, 8) == (le_at(image, t, 8) + delta) % 0x1_0000_0000_0000_0000
        }),
    decreases n,
{
    let page = le_at(r, c, 4) as int;
    let t = target_of(r, c, j);
    lemma_entries_length(image, r, c, (n - 1) as nat, delta);
    lemma_entries_known(image, r, c, n, delta, j);
    let before = with_entries(image, r, c + 8, (n - 1) as nat, page, delta)->Ok_0;
    let after = with_entries(image, r, c + 8, n, page, delta)->Ok_0;
    if j < n - 1 {
        lemma_entries_move(image, r, c, (n - 1) as nat, delta, j);
        assert(!moves(r, c, n - 1, t, 8));
        let u = target_of(r, c, n - 1);
        lemma_le_bytes_len(shifted(le_at(before, u, 8), delta), 8);
        assert(after.subrange(t, t + 8) =~= before.subrange(t, t + 8));
    } else {
        assert forall|i: int| 0 <= i < n - 1 implies !#[trigger] moves(r, c, i, t, 8) by {}
        lemma_entries_keep(image, r, c, (n - 1) as nat, delta, t, 8);
        let moved = shifted(le_at(before, t, 8), delta);
        lemma_widths();
        lemma_le_value_of_bytes(moved, 8);
        assert(after.subrange(t, t + 8) =~= le_bytes(moved, 8));
    }
}

/// Blocks that move nothing of some bytes leave them.
proof fn lemma_blocks_keep(image: Seq<u8>, r: Seq<u8>, from: int, delta: u64, a: int, w: int)
    requires
        with_blocks(image, r, from, delta) is Ok,
        0 <= from,
        0 <= a,
        0 <= w,
        a + w <= image.len(),
        forall|c: int, j: int|
            block_from(r, from, c) && has_entry(r, c, j) ==> !#[trigger] moves(r, c, j, a, w),
    ensures
        ({
            let after = with_blocks(image, r, from, delta)->Ok_0;
            after.len() == image.len() && after.subrange(a, a + w) == image.subrange(a, a + w)
        }),
    decreases r.len() - from,
{
    if from + 8 <= r.len() {
        let size = le_at(r, from + 4, 4) as int;
        let n = ((size - 8) / 2) as nat;
        assert(block_from(r, from, from));
        assert forall|j: int| 0 <= j < n implies !#[trigger] moves(r, from, j, a, w) by {
            assert(has_entry(r, from, j));
        }
        lemma_entries_keep(image, r, from, n, delta, a, w);
        let next = with_entries(image, r, from + 8, n, le_at(r, from, 4) as int, delta)->Ok_0;
        assert forall|c: int, j: int|
            block_from(r, from + size, c) && has_entry(r, c, j) implies !#[trigger] moves(
            r,
            c,
            j,
            a,
            w,
        ) by {
            lemma_block_later(r, from, c);
        }
        lemma_blocks_keep(next, r, from + size, delta, a, w);
    }
}

/// A block behind the next one is a block.
proof fn lemma_block_later(r: Seq<u8>, from: int, c: int)
    requires
        from + 8 <= r.len(),
        le_at(r, from + 4, 4) >= 8,
        block_from(r, from + le_at(r, from + 4, 4), c),
    ensures
        block_from(r, from, c),
        from < c,
{
    lemma_block_bound(r, from + le_at(r, from + 4, 4), c);
}

proof fn lemma_block_bound(r: Seq<u8>, from: int, c: int)
    requires
        block_from(r, from, c),
    ensures
        from <= c,
{
}

/// The word of an entry that no other one touches is moved.
proof fn lemma_blocks_move(image: Seq<u8>, r: Seq<u8>, from: int, delta: u64, c: int, j: int)
    requires
        with_blocks(image, r, from, delta) is Ok,
        0 <= from,
        block_from(r, from, c),
        has_entry(r, c, j),
        kind_of(r, c, j) == 10,
        forall|d: int, i: int|
            block_from(r, from, d) && has_entry(r, d, i) && (d != c || i != j) ==> !#[trigger] moves(
                r,
                d,
                i,
                target_of(r, c, j),
                8,
            ),
    ensures
        ({
            let after = with_blocks(image, r, from, delta)->Ok_0;
            let t = target_of(r, c, j);
            &&& after.len() == image.len() && t + 8 <= image.len()
            &&& le_at(after, t, 8) == (le_at(image, t, 8) + delta) % 0x1_0000_0000_0000_0000
        }),
    decreases r.len() - from,
{
    let t = target_of(r, c, j);
    let size = le_at(r, from + 4, 4) as int;
    let n = ((size - 8) / 2) as nat;
    let page = le_at(r, from, 4) as int;
    let next = with_entries(image, r, from + 8, n, page, delta)->Ok_0;
    lemma_block_bound(r, from, c);
    assert(from + 8 <= r.len());
    assert(block_from(r, from, from));
    lemma_entries_length(image, r, from, n, delta);
    if from == c {
        assert forall|i: int| 0 <= i < n && i != j implies !#[trigger] moves(r, c, i, t, 8) by {
            assert(has_entry(r, c, i));
        }
        lemma_entries_move(image, r, c, n, delta, j);
        assert forall|d: int, i: int|
            block_from(r, from + size, d) && has_entry(r, d, i) implies !#[trigger] moves(
            r,
            d,
            i,
            t,
            8,
        ) by {
            lemma_block_later(r, from, d);
        }
        lemma_blocks_keep(next, r, from + size, delta, t, 8);
    } else {
        lemma_known_from(next, r, from + size, delta, c, j);
        assert forall|i: int| 0 <= i < n implies !#[trigger] moves(r, from, i, t, 8) by {
            assert(has_entry(r, from, i));
        }
        lemma_entries_keep(image, r, from, n, delta, t, 8);
        assert forall|d: int, i: int|
            block_from(r, from + size, d) && has_entry(r, d, i) && (d != c || i != j)
                implies !#[trigger] moves(r, d, i, t, 8) by {
            lemma_block_later(r, from, d);
        }
        lemma_blocks_move(next, r, from + size, delta, c, j);
    }
}

/// Every entry of every block that was applied is padding or moves a word inside the image.
proof fn lemma_known_from(image: Seq<u8>, r: Seq<u8>, from: int, delta: u64, c: int, j: int)
    requires
        with_blocks(image, r, from, delta) is Ok,
        0 <= from,
        block_from(r, from, c),
        has_entry(r, c, j),
    ensures
        kind_of(r, c, j) == 0 || (kind_of(r, c, j) == 10 && target_of(r, c, j) + 8 <= image.len()),
        c + le_at(r, c + 4, 4) <= r.len(),
    decreases r.len() - from,
{
    let size = le_at(r, from + 4, 4) as int;
    let n = ((size - 8) / 2) as nat;
    lemma_block_bound(r, from, c);
    lemma_entries_length(image, r, from, n, delta);
    let next = with_entries(image, r, from + 8, n, le_at(r, from, 4) as int, delta)->Ok_0;
    if from == c {
        lemma_entries_known(image, r, c, n, delta, j);
    } else {
        lemma_known_from(next, r, from + size, delta, c, j);
    }
}

/// What an image that was not loaded where it was linked for is relocated by.
proof fn lemma_moved(b: Seq<u8>, base: u64) -> (k: int)
    requires
        image_of(b, base) is Ok,
        base != preferred_base(b),
    ensures
        holds_relocations(b, k),
        with_blocks(
            image_of(b, preferred_base(b))->Ok_0,
            relocations_in(b, k),
            0,
            load_offset(base, preferred_base(b)),
        ) == image_of(b, base),
{
    law_loads_where_it_was_linked(b, base);
    let s = section_headers(b);
    let (rva, size) = relocation_directory(b)->0;
    lemma_no_directory(s, rva, size);
    let k = choose|k: int|
        0 <= k < s.len() && spans(#[trigger] s[k], rva) && forall|j: int|
            0 <= j < k ==> !spans(#[trigger] s[j], rva);
    lemma_directory(s, rva, size, k);
    k
}

/// Only one section is the first that holds the relocations.
proof fn lemma_one_section(b: Seq<u8>, k: int, m: int)
    requires
        holds_relocations(b, k),
        holds_relocations(b, m),
    ensures
        k == m,
{
    let s = section_headers(b);
    let (rva, _) = relocation_directory(b)->0;
    if k < m {
        assert(!spans(s[k], rva));
    } else if m < k {
        assert(!spans(s[m], rva));
    }
}

/// The word that `n` more than a word comes to, modulo its width, whether or not `n` was taken
/// modulo the width before.
proof fn lemma_moved_word(word: nat, base: u64, preferred: u64)
    ensures
        (word + load_offset(base, preferred)) % 0x1_0000_0000_0000_0000 == (word + base - preferred)
            % 0x1_0000_0000_0000_0000,
{
}

proof fn lemma_address_moved(
    linked: Seq<u8>,
    image: Seq<u8>,
    r: Seq<u8>,
    preferred: u64,
    base: u64,
    c: int,
    j: int,
)
    requires
        with_blocks(linked, r, 0, load_offset(base, preferred)) == Ok::<Seq<u8>, PeError>(image),
        block_from(r, 0, c),
        has_entry(r, c, j),
    ensures
        image.len() == linked.len(),
        kind_of(r, c, j) == 0 || kind_of(r, c, j) == 10,
        kind_of(r, c, j) == 10 ==> target_of(r, c, j) + 8 <= image.len(),
        kind_of(r, c, j) == 10 && (forall|d: int, i: int|
            block_from(r, 0, d) && has_entry(r, d, i) && (d != c || i != j) ==> !#[trigger] moves(
                r,
                d,
                i,
                target_of(r, c, j),
                8,
            )) ==> le_at(image, target_of(r, c, j), 8) == (le_at(linked, target_of(r, c, j), 8)
            + base - preferred) % 0x1_0000_0000_0000_0000,
{
    let delta = load_offset(base, preferred);
    let t = target_of(r, c, j);
    lemma_known_from(linked, r, 0, delta, c, j);
    lemma_blocks_length(linked, r, 0, delta);
    if kind_of(r, c, j) == 10 && (forall|d: int, i: int|
        block_from(r, 0, d) && has_entry(r, d, i) && (d != c || i != j) ==> !#[trigger] moves(
            r,
            d,
            i,
            t,
            8,
        )) {
        lemma_blocks_move(linked, r, 0, delta, c, j);
        lemma_moved_word(le_at(linked, t, 8), base, preferred);
    }
}

/// An image loaded anywhere else: for every block of its relocations and every entry in
/// it, the entry is padding or names a 64-bit word inside the image; where no other entry
/// touches that word, it is the word of the image where it was linked for, moved by as
/// much as the image was.
#[verifier::spinoff_prover]
pub proof fn law_every_address_is_moved(b: Seq<u8>, base: u64, k: int, c: int, j: int)
    requires
        image_of(b, base) is Ok,
        base != preferred_base(b),
        holds_relocations(b, k),
        block_from(relocations_in(b, k), 0, c),
        has_entry(relocations_in(b, k), c, j),
    ensures
        ({
            let r = relocations_in(b, k);
            let image = image_of(b, base)->Ok_0;
            let linked = image_of(b, preferred_base(b))->Ok_0;
            let t = target_of(r, c, j);
            &&& image.len() == linked.len()
            &&& kind_of(r, c, j) == 0 || kind_of(r, c, j) == 10
            &&& kind_of(r, c, j) == 10 ==> t + 8 <= image.len()
            &&& kind_of(r, c, j) == 10 && (forall|d: int, i: int|
                block_from(r, 0, d) && has_entry(r, d, i) && (d != c || i != j)
                    ==> !#[trigger] moves(r, d, i, t, 8)) ==> le_at(image, t, 8) == (le_at(
                linked,
                t,
                8,
            ) + base - preferred_base(b)) % 0x1_0000_0000_0000_0000
        }),
{
    let m = lemma_moved(b, base);
    lemma_one_section(b, k, m);
    lemma_address_moved(
        image_of(b, preferred_base(b))->Ok_0,
        image_of(b, base)->Ok_0,
        relocations_in(b, k),
        preferred_base(b),
        base,
        c,
        j,
    );
}

proof fn lemma_blocks_length(image: Seq<u8>, r: Seq<u8>, from: int, delta: u64)
    requires
        0 <= from,
    ensures
        with_blocks(image, r, from, delta) matches Ok(after) ==> after.len() == image.len(),
    decreases r.len() - from,
{
    if with_blocks(image, r, from, delta) is Ok && from + 8 <= r.len() {
        let size = le_at(r, from + 4, 4) as int;
        let n = ((size - 8) / 2) as nat;
        lemma_entries_length(image, r, from, n, delta);
        let next = with_entries(image, r, from + 8, n, le_at(r, from, 4) as int, delta)->Ok_0;
        lemma_blocks_length(next, r, from + size, delta);
    }
}

/// An image loaded anywhere else: every byte that no entry moves is that of the image where
/// it was linked for.
#[verifier::spinoff_prover]
pub proof fn law_nothing_else_is_moved(b: Seq<u8>, base: u64, k: int, a: int)
    requires
        image_of(b, base) is Ok,
        base != preferred_base(b),
        holds_relocations(b, k),
        0 <= a < image_of(b, base)->Ok_0.len(),
        forall|c: int, j: int|
            block_from(relocations_in(b, k), 0, c) && has_entry(relocations_in(b, k), c, j)
                ==> !#[trigger] moves(relocations_in(b, k), c, j, a, 1),
    ensures
        image_of(b, base)->Ok_0[a] == image_of(b, preferred_base(b))->Ok_0[a],
{
    let m = lemma_moved(b, base);
    lemma_one_section(b, k, m);
    let r = relocations_in(b, k);
    let delta = load_offset(base, preferred_base(b));
    let linked = image_of(b, preferred_base(b))->Ok_0;
    lemma_blocks_length(linked, r, 0, delta);
    lemma_blocks_keep(linked, r, 0, delta, a, 1);
    let image = image_of(b, base)->Ok_0;
    assert(image.subrange(a, a + 1)[0] == linked.subrange(a, a + 1)[0]);
}

/// An image that was not loaded where it was linked for says where its relocations are.
pub proof fn law_moved_image_has_relocations(b: Seq<u8>, base: u64)
    requires
        image_of(b, base) is Ok,
        base != preferred_base(b),
    ensures
        exists|k: int| #[trigger] holds_relocations(b, k),
{
    let k = lemma_moved(b, base);
}

/// Whether a section can be laid out: what it has is in the file, and there is room for it in
/// the image.
pub open spec fn can_be_laid_out(b: Seq<u8>, h: SectionHeader) -> bool {
    let size = le_at(b, nt_offset(b) + 80, 4);
    h.size_of_raw_data == 0 || h.virtual_size == 0 || (h.pointer_to_raw_data + h.size_of_raw_data
        <= b.len() && (h.virtual_address + h.size_of_raw_data <= size || h.virtual_address
        + h.virtual_size <= size))
}

proof fn lemma_all_fit(image: Seq<u8>, b: Seq<u8>, s: Seq<SectionHeader>)
    requires
        image.len() == le_at(b, nt_offset(b) + 80, 4),
    ensures
        with_sections(image, b, s) is Some <==> forall|i: int|
            0 <= i < s.len() ==> can_be_laid_out(b, #[trigger] s[i]),
    decreases s.len(),
{
    if s.len() > 0 {
        let front = s.drop_last();
        lemma_all_fit(image, b, front);
        if forall|i: int| 0 <= i < s.len() ==> can_be_laid_out(b, #[trigger] s[i]) {
            assert forall|i: int| 0 <= i < front.len() implies can_be_laid_out(
                b,
                #[trigger] front[i],
            ) by {
                assert(can_be_laid_out(b, s[i]));
            }
            assert(can_be_laid_out(b, s[s.len() - 1]));
        }
        if with_sections(image, b, s) is Some {
            assert forall|i: int| 0 <= i < s.len() implies can_be_laid_out(b, #[trigger] s[i]) by {
                if i < front.len() {
                    assert(can_be_laid_out(b, front[i]));
                }
            }
        }
    }
}

/// Which files load where they were linked for: those with the headers of a PE32+ image for
/// AArch64, of an EFI application or driver, with a size, headers inside the file and the
/// image, and sections that can be laid out. No other does.
pub proof fn law_which_images_load(b: Seq<u8>)
    ensures
        image_of(b, preferred_base(b)) is Ok <==> {
            let nt = nt_offset(b);
            let subsystem = le_at(b, nt + 92, 2);
            &&& has_headers(b)
            &&& le_at(b, nt + 4, 2) == 0xaa64
            &&& subsystem == 10 || subsystem == 11 || subsystem == 12
            &&& le_at(b, nt + 80, 4) > 0
            &&& le_at(b, nt + 84, 4) <= b.len()
            &&& le_at(b, nt + 84, 4) <= le_at(b, nt + 80, 4)
            &&& forall|i: int|
                0 <= i < section_headers(b).len() ==> can_be_laid_out(
                    b,
                    #[trigger] section_headers(b)[i],
                )
        },
{
    let nt = nt_offset(b);
    let size = le_at(b, nt + 80, 4);
    let headers = le_at(b, nt + 84, 4);
    let blank = put(fill(size, 0), 0, b.subrange(0, headers as int));
    lemma_all_fit(blank, b, section_headers(b));
}

/// Whether a block of relocations is whole, and every entry in it is padding or names a word
/// inside an image of a size.
pub open spec fn block_applies(r: Seq<u8>, c: int, size: int) -> bool {
    &&& 8 <= le_at(r, c + 4, 4) <= r.len() - c
    &&& forall|j: int|
        has_entry(r, c, j) ==> #[trigger] kind_of(r, c, j) == 0 || (kind_of(r, c, j) == 10
            && target_of(r, c, j) + 8 <= size)
}

/// Whether relocations can be applied to an image of a size: every block can.
pub open spec fn can_be_applied(r: Seq<u8>, from: int, size: int) -> bool {
    forall|c: int| #[trigger] block_from(r, from, c) ==> block_applies(r, c, size)
}

proof fn lemma_entries_apply(image: Seq<u8>, r: Seq<u8>, c: int, n: nat, delta: u64)
    requires
        forall|j: int|
            0 <= j < n ==> #[trigger] kind_of(r, c, j) == 0 || (kind_of(r, c, j) == 10 && target_of(
                r,
                c,
                j,
            ) + 8 <= image.len()),
    ensures
        with_entries(image, r, c + 8, n, le_at(r, c, 4) as int, delta) is Ok,
    decreases n,
{
    if n > 0 {
        lemma_entries_apply(image, r, c, (n - 1) as nat, delta);
        lemma_entries_length(image, r, c, (n - 1) as nat, delta);
        assert(kind_of(r, c, n - 1) == 0 || kind_of(r, c, n - 1) == 10);
    }
}

proof fn lemma_blocks_apply(image: Seq<u8>, r: Seq<u8>, from: int, delta: u64)
    requires
        0 <= from,
    ensures
        with_blocks(image, r, from, delta) is Ok <==> can_be_applied(r, from, image.len() as int),
    decreases r.len() - from,
{
    if from + 8 <= r.len() {
        assert(block_from(r, from, from));
        let size = le_at(r, from + 4, 4) as int;
        if 8 <= size <= r.len() - from {
            let n = ((size - 8) / 2) as nat;
            let page = le_at(r, from, 4) as int;
            lemma_entries_length(image, r, from, n, delta);
            let next = with_entries(image, r, from + 8, n, page, delta);
            if next is Ok {
                lemma_blocks_apply(next->Ok_0, r, from + size, delta);
            }
            if can_be_applied(r, from, image.len() as int) {
                assert forall|j: int| 0 <= j < n implies #[trigger] kind_of(r, from, j) == 0 || (
                kind_of(r, from, j) == 10 && target_of(r, from, j) + 8 <= image.len()) by {
                    assert(has_entry(r, from, j));
                }
                lemma_entries_apply(image, r, from, n, delta);
                assert forall|c: int| #[trigger] block_from(
                    r,
                    from + size,
                    c,
                ) implies block_applies(r, c, image.len() as int) by {
                    lemma_block_later(r, from, c);
                }
            }
            if with_blocks(image, r, from, delta) is Ok {
                assert forall|c: int| #[trigger] block_from(r, from, c) implies block_applies(
                    r,
                    c,
                    image.len() as int,
                ) by {
                    lemma_block_bound(r, from, c);
                    if c == from {
                        assert forall|j: int| has_entry(r, c, j) implies #[trigger] kind_of(r, c, j)
                            == 0 || (kind_of(r, c, j) == 10 && target_of(r, c, j) + 8
                            <= image.len()) by {
                            lemma_entries_known(image, r, c, n, delta, j);
                        }
                    } else {
                        assert(block_from(r, from + size, c));
                    }
                }
            }
        }
    } else {
        assert forall|c: int| !(#[trigger] block_from(r, from, c)) by {}
    }
}

/// Which images load elsewhere: those that load where they were linked for and have
/// relocations in the file that can all be applied.
pub proof fn law_which_images_load_elsewhere(b: Seq<u8>, base: u64, k: int)
    requires
        base != preferred_base(b),
        image_of(b, preferred_base(b)) is Ok,
        holds_relocations(b, k),
    ensures
        image_of(b, base) is Ok <==> {
            let h = section_headers(b)[k];
            let (rva, size) = relocation_directory(b)->0;
            let within = rva - h.virtual_address;
            &&& size != 0
            &&& h.pointer_to_raw_data + within + (if within > h.size_of_raw_data {
                0
            } else if h.size_of_raw_data - within <= size {
                h.size_of_raw_data - within
            } else {
                size as int
            }) <= b.len()
            &&& can_be_applied(
                relocations_in(b, k),
                0,
                le_at(b, nt_offset(b) + 80, 4) as int,
            )
        },
{
    law_loads_where_it_was_linked(b, preferred_base(b));
    let (rva, size) = relocation_directory(b)->0;
    lemma_directory(section_headers(b), rva, size, k);
    let linked = image_of(b, preferred_base(b))->Ok_0;
    lemma_blocks_apply(
        linked,
        relocations_in(b, k),
        0,
        load_offset(base, preferred_base(b)),
    );
}

/// What the headers of a file say, each field where PE32+ has it: where the NT headers are, how
/// many sections there are, and of each where it goes, how large it is there, and where and how
/// long its data is in the file.
pub proof fn law_section_headers_are_read(b: Seq<u8>, i: int)
    requires
        has_headers(b),
        0 <= i < le_at(b, le_at(b, 0x3c, 4) as int + 6, 2),
    ensures
        ({
            let nt = le_at(b, 0x3c, 4) as int;
            let at = nt + 24 + le_at(b, nt + 20, 2) + 40 * i;
            let h = section_headers(b)[i];
            &&& section_headers(b).len() == le_at(b, nt + 6, 2)
            &&& h.virtual_size == le_at(b, at + 8, 4)
            &&& h.virtual_address == le_at(b, at + 12, 4)
            &&& h.size_of_raw_data == le_at(b, at + 16, 4)
            &&& h.pointer_to_raw_data == le_at(b, at + 20, 4)
        }),
{
    let nt = le_at(b, 0x3c, 4) as int;
    let at = nt + 24 + le_at(b, nt + 20, 2) + 40 * i;
    lemma_le_value_4(b.subrange(at + 8, at + 12));
    lemma_le_value_4(b.subrange(at + 12, at + 16));
    lemma_le_value_4(b.subrange(at + 16, at + 20));
    lemma_le_value_4(b.subrange(at + 20, at + 24));
}

/// Which files have the headers: those that start as a DOS program and say where the NT headers
/// are, with the signature and the optional header of a PE32+ image there, and with as many
/// directories and section headers inside the file as they say.
pub proof fn law_which_files_have_headers(b: Seq<u8>)
    ensures
        has_headers(b) <==> {
            let nt = le_at(b, 0x3c, 4) as int;
            let optional = le_at(b, nt + 20, 2) as int;
            &&& b.len() >= 64
            &&& b[0] == 0x4d && b[1] == 0x5a
            &&& nt + 136 <= b.len()
            &&& b[nt] == 0x50 && b[nt + 1] == 0x45 && b[nt + 2] == 0 && b[nt + 3] == 0
            &&& le_at(b, nt + 24, 2) == 0x20b
            &&& 112 + 8 * le_at(b, nt + 132, 4) <= optional
            &&& nt + 24 + optional + 40 * le_at(b, nt + 6, 2) <= b.len()
        },
{
    let nt = le_at(b, 0x3c, 4) as int;
    if b.len() >= 64 && nt + 136 <= b.len() {
        lemma_le_value_2(b.subrange(0, 2));
        lemma_le_value_4(b.subrange(nt, nt + 4));
    }
}

/// The relocations are where the sixth data directory says, when there are that many and it has
/// an address.
pub proof fn law_relocation_directory_is_read(b: Seq<u8>)
    requires
        has_headers(b),
    ensures
        ({
            let nt = le_at(b, 0x3c, 4) as int;
            let there = le_at(b, nt + 132, 4) >= 6 && le_at(b, nt + 176, 4) != 0;
            &&& relocation_directory(b) is Some <==> there
            &&& relocation_directory(b) matches Some((rva, size)) ==> rva == le_at(b, nt + 176, 4)
                && size == le_at(b, nt + 180, 4)
        }),
{
    let nt = le_at(b, 0x3c, 4) as int;
    if le_at(b, nt + 132, 4) >= 6 {
        lemma_le_value_4(b.subrange(nt + 176, nt + 180));
        lemma_le_value_4(b.subrange(nt + 180, nt + 184));
    }
}

} // verus!
