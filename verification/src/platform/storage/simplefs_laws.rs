//! What names resolve to, and what a volume says of itself.
use crate::bytes::{
    fill, le_at, le_bytes, lemma_le_bytes_len, lemma_le_value_of_bytes, lemma_widths, unit_bytes,
};
use crate::platform::storage::simplefs::{
    from_root, is_name, resolved, stepped, stepped_all, system_info, VOLUME_LABEL,
};
use crate::text::{filled, joined, parts, separates};
use crate::text_laws::{law_joined_names_part_again, law_parts_make_the_path};
use vstd::prelude::*;

verus! {

proof fn lemma_parts_of_two(a: Seq<char>, c: char, b: Seq<char>)
    requires
        separates(c, true),
    ensures
        parts(a.push(c) + b, true) == parts(a, true) + parts(b, true),
        parts(b, true).len() >= 1,
    decreases b.len(),
{
    let whole = a.push(c) + b;
    law_parts_make_the_path(b, true);
    law_parts_make_the_path(a, true);
    if b.len() == 0 {
        assert(whole =~= a.push(c));
        assert(a.push(c).drop_last() =~= a);
        assert(parts(whole, true) =~= parts(a, true) + parts(b, true));
    } else {
        let front = b.drop_last();
        lemma_parts_of_two(a, c, front);
        assert(whole.drop_last() =~= a.push(c) + front);
        assert(whole.last() == b.last());
        assert(parts(whole, true) =~= parts(a, true) + parts(b, true));
    }
}

proof fn lemma_parts_of_one(name: Seq<char>)
    requires
        forall|i: int| 0 <= i < name.len() ==> !separates(#[trigger] name[i], true),
    ensures
        parts(name, true) == seq![name],
    decreases name.len(),
{
    if name.len() == 0 {
        assert(name =~= Seq::empty());
    } else {
        let front = name.drop_last();
        assert forall|i: int| 0 <= i < front.len() implies !separates(#[trigger] front[i], true) by {
            assert(front[i] == name[i]);
        }
        lemma_parts_of_one(front);
        assert(!separates(name[name.len() - 1], true));
        assert(front.push(name.last()) =~= name);
        assert(parts(name, true) =~= seq![name]);
    }
}

proof fn lemma_stepped_on(from: Seq<Seq<char>>, a: Seq<Seq<char>>, b: Seq<Seq<char>>)
    ensures
        stepped_all(from, a + b) == stepped_all(stepped_all(from, a), b),
    decreases b.len(),
{
    if b.len() == 0 {
        assert(a + b =~= a);
    } else {
        lemma_stepped_on(from, a, b.drop_last());
        assert((a + b).drop_last() =~= a + b.drop_last());
    }
}

/// Names that are not empty and have no backslash in them.
spec fn plain(names: Seq<Seq<char>>) -> bool {
    forall|k: int|
        0 <= k < names.len() ==> (#[trigger] names[k]).len() > 0 && !names[k].contains('\\')
}

proof fn lemma_filled_plain(all: Seq<Seq<char>>)
    requires
        forall|k: int| 0 <= k < all.len() ==> !(#[trigger] all[k]).contains('\\'),
    ensures
        plain(filled(all)),
    decreases all.len(),
{
    if all.len() > 0 {
        assert forall|k: int| 0 <= k < all.drop_last().len() implies !(
        #[trigger] all.drop_last()[k]).contains('\\') by {
            assert(all.drop_last()[k] == all[k]);
        }
        lemma_filled_plain(all.drop_last());
        assert(!all[all.len() - 1].contains('\\'));
    }
}

proof fn lemma_stepped_plain(from: Seq<Seq<char>>, components: Seq<Seq<char>>)
    requires
        plain(from),
        forall|k: int| 0 <= k < components.len() ==> !(#[trigger] components[k]).contains('\\'),
    ensures
        plain(stepped_all(from, components)),
    decreases components.len(),
{
    if components.len() > 0 {
        let front = components.drop_last();
        assert forall|k: int| 0 <= k < front.len() implies !(#[trigger] front[k]).contains('\\') by {
            assert(front[k] == components[k]);
        }
        lemma_stepped_plain(from, front);
        assert(!components[components.len() - 1].contains('\\'));
    }
}

proof fn lemma_parts_plain(path: Seq<char>, slash: bool)
    ensures
        forall|k: int|
            0 <= k < parts(path, slash).len() ==> !(#[trigger] parts(path, slash)[k]).contains(
                '\\',
            ),
{
    law_parts_make_the_path(path, slash);
    assert forall|k: int| 0 <= k < parts(path, slash).len() implies !(#[trigger] parts(
        path,
        slash,
    )[k]).contains('\\') by {
        let part = parts(path, slash)[k];
        assert forall|i: int| 0 <= i < part.len() implies part[i] != '\\' by {
            assert(!separates(parts(path, slash)[k][i], slash));
        }
    }
}

proof fn lemma_filled_whole(names: Seq<Seq<char>>)
    requires
        forall|k: int| 0 <= k < names.len() ==> (#[trigger] names[k]).len() > 0,
    ensures
        filled(names) == names,
    decreases names.len(),
{
    if names.len() > 0 {
        assert forall|k: int| 0 <= k < names.drop_last().len() implies (
        #[trigger] names.drop_last()[k]).len() > 0 by {
            assert(names.drop_last()[k] == names[k]);
        }
        lemma_filled_whole(names.drop_last());
        assert(names[names.len() - 1].len() > 0);
        assert(names.drop_last().push(names.last()) =~= names);
    } else {
        assert(names =~= Seq::empty());
    }
}

/// Joining plain names and taking the path apart gives them back.
proof fn lemma_plain_again(names: Seq<Seq<char>>)
    requires
        plain(names),
    ensures
        filled(parts(joined(names), false)) == names,
{
    if names.len() == 0 {
        assert(joined(names) =~= Seq::empty());
        reveal_with_fuel(filled, 2);
        let one = parts(joined(names), false);
        assert(one =~= seq![Seq::<char>::empty()]);
        assert(filled(one) =~= names);
    } else {
        assert forall|k: int, i: int| 0 <= k < names.len() && 0 <= i < names[k].len() implies
            #[trigger] names[k][i] != '\\' by {
            assert(!names[k].contains('\\'));
        }
        law_joined_names_part_again(names);
        lemma_filled_whole(names);
    }
}

/// A single name below a directory is one component more, `.` and nothing stay there, and `..`
/// leads to what is above it; above the root is nothing.
pub proof fn law_one_name_is_resolved(base: Seq<char>, name: Seq<char>)
    requires
        forall|i: int| 0 <= i < name.len() ==> !separates(#[trigger] name[i], true),
    ensures
        ({
            let here = filled(parts(base, false));
            &&& is_name(name) ==> resolved(base, name) == here.push(name)
            &&& name.len() == 0 || name == seq!['.'] ==> resolved(base, name) == here
            &&& name == seq!['.', '.'] && here.len() > 0 ==> resolved(base, name)
                == here.drop_last()
            &&& name == seq!['.', '.'] && here.len() == 0 ==> resolved(base, name) == here
        }),
{
    let here = filled(parts(base, false));
    lemma_parts_of_one(name);
    if name.len() > 0 {
        assert(!separates(name[0], true));
    }
    assert(seq![name].drop_last() =~= Seq::<Seq<char>>::empty());
    assert(seq![name].last() == name);
    reveal_with_fuel(stepped_all, 2);
    assert(seq!['.', '.'].len() == 2 && seq!['.'].len() == 1);
    assert(resolved(base, name) == stepped(here, name));
}

/// A longer name is resolved one part after the other: what stands behind a separator is
/// resolved below what stands before it.
pub proof fn law_longer_names_go_on(base: Seq<char>, before: Seq<char>, c: char, behind: Seq<char>)
    requires
        separates(c, true),
        before.len() > 0,
        !from_root(behind),
    ensures
        resolved(base, before.push(c) + behind) == resolved(
            joined(resolved(base, before)),
            behind,
        ),
{
    let whole = before.push(c) + behind;
    let from = if from_root(before) {
        Seq::empty()
    } else {
        filled(parts(base, false))
    };
    assert(whole[0] == before[0]);
    lemma_parts_of_two(before, c, behind);
    lemma_stepped_on(from, parts(before, true), parts(behind, true));
    lemma_parts_plain(base, false);
    lemma_parts_plain(before, true);
    lemma_filled_plain(parts(base, false));
    lemma_stepped_plain(from, parts(before, true));
    lemma_plain_again(resolved(base, before));
}

/// A name that starts with a separator is resolved from the root, wherever it was given.
pub proof fn law_names_from_the_root(base: Seq<char>, c: char, behind: Seq<char>)
    requires
        separates(c, true),
        !from_root(behind),
    ensures
        resolved(base, seq![c] + behind) == resolved(Seq::empty(), behind),
{
    let whole = seq![c] + behind;
    let none = Seq::<Seq<char>>::empty();
    let empty = seq![Seq::<char>::empty()];
    assert(whole[0] == c);
    assert(Seq::<char>::empty().push(c) + behind =~= whole);
    lemma_parts_of_two(Seq::empty(), c, behind);
    lemma_stepped_on(none, empty, parts(behind, true));
    assert(empty.drop_last() =~= none);
    reveal_with_fuel(stepped_all, 2);
    assert(stepped_all(none, empty) == none);
    reveal_with_fuel(filled, 2);
    assert(filled(parts(Seq::<char>::empty(), false)) =~= none);
}

/// What a volume says of itself: how long that is, that it can only be read, how large the
/// volume is, that nothing of it is free, the size of its blocks, and its label.
pub proof fn law_system_info_is_laid_out(volume_size: u64, block_size: u32)
    ensures
        ({
            let info = system_info(volume_size, block_size);
            &&& info.len() == 48
            &&& le_at(info, 0, 8) == 48
            &&& info[8] == 1
            &&& le_at(info, 16, 8) == volume_size
            &&& info.subrange(24, 32) == fill(8, 0)
            &&& le_at(info, 32, 4) == block_size
            &&& info.subrange(40, 46) == unit_bytes(VOLUME_LABEL@)
            &&& info[46] == 0 && info[47] == 0
        }),
{
    let info = system_info(volume_size, block_size);
    lemma_widths();
    lemma_le_value_of_bytes(48, 8);
    lemma_le_value_of_bytes(volume_size as nat, 8);
    lemma_le_value_of_bytes(block_size as nat, 4);
    lemma_le_bytes_len(48, 8);
    assert(info.subrange(0, 8) =~= le_bytes(48, 8));
    assert(info.subrange(16, 24) =~= le_bytes(volume_size as nat, 8));
    assert(info.subrange(24, 32) =~= fill(8, 0));
    assert(info.subrange(32, 36) =~= le_bytes(block_size as nat, 4));
    assert(info.subrange(40, 46) =~= unit_bytes(VOLUME_LABEL@));
}

} // verus!
