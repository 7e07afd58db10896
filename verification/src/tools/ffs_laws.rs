//! What the walks over volumes, files and sections find: everything, in order.
use crate::bytes::{
    fill, le_at, le_bytes, lemma_le_value_2, lemma_le_value_of_bytes, lemma_widths, put,
};
use crate::tools::ffs::{
    byte_sum, check16, check8, files_from, files_of, is_free, lemma_u24, round8, sections_from,
    sections_of, volume_at, volumes_below, volumes_of, word_sum, FfsFile, Volume, FFS_HEADER_SIZE,
    FV_SIGNATURE, SECTION_HEADER_SIZE,
};
use vstd::prelude::*;

verus! {

/// Every volume whose header is in an image is found, at its place, and nothing else is;
/// they come in the order of their places.
pub proof fn law_volumes_are_found(d: Seq<u8>)
    requires
        d.len() <= usize::MAX,
    ensures
        forall|at: int|
            0 <= at < d.len() - 44 && (#[trigger] volume_at(d, at)) is Some ==> volumes_of(
                d,
            ).contains(volume_at(d, at)->0),
        forall|i: int|
            0 <= i < volumes_of(d).len() ==> (#[trigger] volumes_of(d)[i]).base < d.len() - 44
                && volume_at(d, volumes_of(d)[i].base as int) == Some(volumes_of(d)[i]),
        forall|i: int, j: int|
            0 <= i < j < volumes_of(d).len() ==> (#[trigger] volumes_of(d)[i]).base < (
            #[trigger] volumes_of(d)[j]).base,
{
    lemma_volumes(d, d.len() - 44);
}

proof fn lemma_volumes(d: Seq<u8>, n: int)
    requires
        n <= d.len() <= usize::MAX,
    ensures
        forall|at: int|
            0 <= at < n && (#[trigger] volume_at(d, at)) is Some ==> volumes_below(d, n).contains(
                volume_at(d, at)->0,
            ),
        forall|i: int|
            0 <= i < volumes_below(d, n).len() ==> (#[trigger] volumes_below(d, n)[i]).base < n
                && volume_at(d, volumes_below(d, n)[i].base as int) == Some(volumes_below(d, n)[i]),
        forall|i: int, j: int|
            0 <= i < j < volumes_below(d, n).len() ==> (#[trigger] volumes_below(d, n)[i]).base < (
            #[trigger] volumes_below(d, n)[j]).base,
    decreases n,
{
    if n > 0 {
        lemma_volumes(d, n - 1);
        let before = volumes_below(d, n - 1);
        let all = volumes_below(d, n);
        assert forall|at: int| 0 <= at < n && (#[trigger] volume_at(d, at)) is Some
            implies all.contains(volume_at(d, at)->0) by {
            if at < n - 1 {
                let i = choose|i: int| 0 <= i < before.len() && before[i] == volume_at(d, at)->0;
                assert(all[i] == before[i]);
            } else {
                assert(all[all.len() - 1] == volume_at(d, at)->0);
            }
        }
        assert forall|i: int| 0 <= i < all.len() implies (#[trigger] all[i]).base < n && volume_at(
            d,
            all[i].base as int,
        ) == Some(all[i]) by {
            if i < before.len() {
                assert(all[i] == before[i]);
            }
        }
        assert forall|i: int, j: int| 0 <= i < j < all.len() implies (#[trigger] all[i]).base < (
        #[trigger] all[j]).base by {
            assert(all[i] == before[i]);
            if j < before.len() {
                assert(all[j] == before[j]);
            }
        }
    }
}

/// Where a walk stops: no room for a header is left, or there is free space.
pub open spec fn files_end(d: Seq<u8>, at: int, end: int) -> bool {
    at + FFS_HEADER_SIZE > end || is_free(d.subrange(at, at + 16))
}

/// The files of a walk follow one another: the first is where it starts, each of the others
/// where the one before ends, rounded up to eight bytes, each as long as its header says,
/// and there is no file behind the last.
pub proof fn law_files_follow_one_another(d: Seq<u8>, offset: int, end: int)
    requires
        0 <= offset,
        end <= d.len() <= usize::MAX,
        files_from(d, offset, end) is Ok,
    ensures
        ({
            let fs = files_from(d, offset, end)->Ok_0;
            &&& forall|i: int|
                0 <= i < fs.len() ==> (#[trigger] fs[i]).offset == (if i == 0 {
                    offset
                } else {
                    fs[i - 1].offset + round8(fs[i - 1].size as int)
                }) && fs[i].size == le_at(d, fs[i].offset + 20, 3) && fs[i].file_type
                    == d[fs[i].offset + 18] && fs[i].offset + fs[i].size <= end && fs[i].size >= 24
                    && !files_end(d, fs[i].offset as int, end)
            &&& files_end(
                d,
                if fs.len() == 0 {
                    offset
                } else {
                    fs.last().offset + round8(fs.last().size as int)
                },
                end,
            )
        }),
    decreases end + 8 - offset,
{
    let size = le_at(d, offset + 20, 3) as int;
    if !files_end(d, offset, end) {
        lemma_u24(d, offset + 20);
        let next = offset + round8(size);
        law_files_follow_one_another(d, next, end);
        let fs = files_from(d, offset, end)->Ok_0;
        let rest = files_from(d, next, end)->Ok_0;
        assert forall|i: int| 0 <= i < fs.len() implies (#[trigger] fs[i]).offset == (if i == 0 {
            offset
        } else {
            fs[i - 1].offset + round8(fs[i - 1].size as int)
        }) && fs[i].size == le_at(d, fs[i].offset + 20, 3) && fs[i].file_type == d[fs[i].offset + 18]
            && fs[i].offset + fs[i].size <= end && fs[i].size >= 24 && !files_end(
            d,
            fs[i].offset as int,
            end,
        ) by {
            if i > 0 {
                assert(fs[i] == rest[i - 1]);
                if i > 1 {
                    assert(fs[i - 1] == rest[i - 2]);
                }
            }
        }
        if rest.len() > 0 {
            assert(fs.last() == rest.last());
        }
    }
}

/// The sections of a walk follow one another without a gap, each as long as its header says,
/// up to where no header fits.
pub proof fn law_sections_follow_one_another(d: Seq<u8>, offset: int, end: int)
    requires
        0 <= offset,
        end <= d.len() <= usize::MAX,
        sections_from(d, offset, end) is Ok,
    ensures
        ({
            let ss = sections_from(d, offset, end)->Ok_0;
            &&& forall|i: int|
                0 <= i < ss.len() ==> (#[trigger] ss[i]).offset == (if i == 0 {
                    offset
                } else {
                    ss[i - 1].offset + ss[i - 1].size
                }) && ss[i].size == le_at(d, ss[i].offset as int, 3) && ss[i].section_type
                    == d[ss[i].offset + 3] && ss[i].offset + ss[i].size <= end && ss[i].size >= 4
            &&& (if ss.len() == 0 {
                offset
            } else {
                ss.last().offset + ss.last().size
            }) + SECTION_HEADER_SIZE > end
        }),
    decreases end - offset,
{
    let size = le_at(d, offset, 3) as int;
    if offset + SECTION_HEADER_SIZE <= end {
        lemma_u24(d, offset);
        law_sections_follow_one_another(d, offset + size, end);
        let ss = sections_from(d, offset, end)->Ok_0;
        let rest = sections_from(d, offset + size, end)->Ok_0;
        assert forall|i: int| 0 <= i < ss.len() implies (#[trigger] ss[i]).offset == (if i == 0 {
            offset
        } else {
            ss[i - 1].offset + ss[i - 1].size
        }) && ss[i].size == le_at(d, ss[i].offset as int, 3) && ss[i].section_type
            == d[ss[i].offset + 3] && ss[i].offset + ss[i].size <= end && ss[i].size >= 4 by {
            if i > 0 {
                assert(ss[i] == rest[i - 1]);
                if i > 1 {
                    assert(ss[i - 1] == rest[i - 2]);
                }
            }
        }
        if rest.len() > 0 {
            assert(ss.last() == rest.last());
        }
    }
}

/// A check byte behind bytes brings their sum to zero.
pub proof fn law_check_byte_sums_to_zero(s: Seq<u8>)
    ensures
        byte_sum(s.push(check8(s) as u8)) == 0,
        0 <= check8(s) < 256,
{
    lemma_byte_sum(s);
    let all = s.push(check8(s) as u8);
    assert(all.drop_last() =~= s);
}

/// The sum of two runs of bytes is the sum of their sums, in eight bits.
pub proof fn law_byte_sums_add(a: Seq<u8>, b: Seq<u8>)
    ensures
        byte_sum(a + b) == (byte_sum(a) + byte_sum(b)) % 256,
    decreases b.len(),
{
    lemma_byte_sum(a);
    if b.len() == 0 {
        assert(a + b =~= a);
    } else {
        law_byte_sums_add(a, b.drop_last());
        assert((a + b).drop_last() =~= a + b.drop_last());
        lemma_byte_sum(b.drop_last());
        lemma_sum_of_sums(byte_sum(a), byte_sum(b.drop_last()), b.last() as int);
    }
}

proof fn lemma_sum_of_sums(x: int, y: int, z: int)
    ensures
        ((x + y) % 256 + z) % 256 == (x + (y + z) % 256) % 256,
{
    vstd::arithmetic::div_mod::lemma_add_mod_noop_right(z, x + y, 256);
    vstd::arithmetic::div_mod::lemma_add_mod_noop_right(x, y + z, 256);
}

proof fn lemma_sum_of_words(x: int, y: int, z: int)
    ensures
        ((x + y) % 0x1_0000 + z) % 0x1_0000 == (x + (y + z) % 0x1_0000) % 0x1_0000,
        ((x + y) % 0x1_0000 + z) % 0x1_0000 == ((x + z) % 0x1_0000 + y) % 0x1_0000,
{
    vstd::arithmetic::div_mod::lemma_add_mod_noop_right(z, x + y, 0x1_0000);
    vstd::arithmetic::div_mod::lemma_add_mod_noop_right(x, y + z, 0x1_0000);
    vstd::arithmetic::div_mod::lemma_add_mod_noop_right(y, x + z, 0x1_0000);
}

proof fn lemma_word_sum(s: Seq<u8>, n: nat)
    ensures
        0 <= word_sum(s, n) < 0x1_0000,
{
}

proof fn lemma_byte_sum(s: Seq<u8>)
    ensures
        0 <= byte_sum(s) < 256,
    decreases s.len(),
{
    if s.len() > 0 {
        lemma_byte_sum(s.drop_last());
    }
}

/// Which places have a volume: where its signature stands forty bytes in, its header is even, of
/// 52 bytes to a page, with its checksum, and the volume has room for a file and lies inside
/// the data.
pub proof fn law_which_places_have_a_volume(d: Seq<u8>, start: int)
    requires
        0 <= start,
        start + 52 <= d.len() <= usize::MAX,
    ensures
        volume_at(d, start) is Some <==> {
            let length = le_at(d, start + 32, 8);
            let header = le_at(d, start + 48, 2);
            &&& d.subrange(start + 40, start + 44) == FV_SIGNATURE@
            &&& 52 <= header <= 4096
            &&& header % 2 == 0
            &&& header + 24 <= length
            &&& start + length <= d.len()
            &&& check16(d.subrange(start, (start + header) as int)) == le_at(d, start + 50, 2)
        },
        volume_at(d, start) matches Some(v) ==> {
            &&& v.base == start
            &&& v.length == le_at(d, start + 32, 8)
            &&& v.header_length == le_at(d, start + 48, 2)
        },
{
}

/// The files of a volume begin behind its header and end where it does, and the sections of a
/// file likewise.
pub proof fn law_walks_begin_behind_the_header(d: Seq<u8>, v: Volume, f: FfsFile)
    ensures
        files_of(d, v) == files_from(d, v.base + v.header_length, v.base + v.length),
        sections_of(d, f) == sections_from(d, f.offset + 24, f.offset + f.size),
{
}

/// Sums of words add: one word is its own sum, and that of a run is that of its beginning and
/// that of its rest, in sixteen bits.
pub proof fn law_word_sums_add(s: Seq<u8>, n: nat, m: nat)
    requires
        2 * (n + m) <= s.len(),
    ensures
        word_sum(s, n + m) == (word_sum(s, n) + word_sum(
            s.subrange(2 * n as int, s.len() as int),
            m,
        )) % 0x1_0000,
        s.len() >= 2 ==> word_sum(s, 1) == le_at(s, 0, 2),
    decreases m,
{
    let rest = s.subrange(2 * n as int, s.len() as int);
    lemma_word_sum(s, n);
    if s.len() >= 2 {
        lemma_le_value_2(s.subrange(0, 2));
        assert(word_sum(s, 0) == 0);
    }
    if m > 0 {
        law_word_sums_add(s, n, (m - 1) as nat);
        let at = 2 * (m - 1);
        lemma_sum_of_words(
            word_sum(s, n),
            word_sum(rest, (m - 1) as nat),
            le_at(rest, at, 2) as int,
        );
        assert(s.subrange(2 * n + at, 2 * n + at + 2) =~= rest.subrange(at, at + 2));
        assert(le_at(s, 2 * (n + m - 1), 2) == le_at(rest, at, 2));
    }
}

proof fn lemma_word_sum_with(header: Seq<u8>, check: nat, n: nat)
    requires
        header.len() >= 52,
        2 * n <= header.len(),
        check < 0x1_0000,
    ensures
        ({
            let blank = put(header, 50, fill(2, 0));
            let filled = put(header, 50, le_bytes(check, 2));
            word_sum(filled, n) == (if n <= 25 {
                word_sum(blank, n)
            } else {
                (word_sum(blank, n) + check) % 0x1_0000
            })
        }),
    decreases n,
{
    let blank = put(header, 50, fill(2, 0));
    let filled = put(header, 50, le_bytes(check, 2));
    lemma_widths();
    lemma_le_value_of_bytes(check, 2);
    if n > 0 {
        let at = 2 * (n - 1);
        let before = word_sum(blank, (n - 1) as nat);
        lemma_word_sum(blank, (n - 1) as nat);
        lemma_word_sum_with(header, check, (n - 1) as nat);
        lemma_sum_of_words(before, check as int, le_at(blank, at, 2) as int);
        if at == 50 {
            assert(filled.subrange(50, 52) =~= le_bytes(check, 2));
            assert(blank.subrange(50, 52) =~= fill(2, 0));
            lemma_le_value_2(fill(2, 0));
        } else {
            assert(filled.subrange(at, at + 2) =~= blank.subrange(at, at + 2));
        }
    }
}

/// The word that a volume header is checked by brings the sum of its words to zero.
pub proof fn law_check_word_sums_to_zero(header: Seq<u8>)
    requires
        header.len() >= 52,
        header.len() % 2 == 0,
    ensures
        0 <= check16(header) < 0x1_0000,
        word_sum(
            put(header, 50, le_bytes(check16(header) as nat, 2)),
            header.len() / 2,
        ) == 0,
{
    let blank = put(header, 50, fill(2, 0));
    let n = header.len() / 2;
    lemma_word_sum(blank, n);
    lemma_word_sum_with(header, check16(header) as nat, n);
}

} // verus!
