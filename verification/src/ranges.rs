//! Address ranges, as `(start, end)` pairs with the end excluded, in order.
use vstd::prelude::*;
use vstd::relations::{sorted_by, total_ordering};
use vstd::seq_lib::lemma_sorted_unique;

verus! {

/// By start, then by end.
pub open spec fn in_order(a: (u64, u64), b: (u64, u64)) -> bool {
    a.0 < b.0 || (a.0 == b.0 && a.1 <= b.1)
}

/// `s` in ascending order.
pub open spec fn sorted(s: Seq<(u64, u64)>) -> Seq<(u64, u64)> {
    s.sort_by(|a: (u64, u64), b: (u64, u64)| in_order(a, b))
}

/// Whether a range covers an address.
pub open spec fn covers(r: (u64, u64), a: int) -> bool {
    r.0 <= a < r.1
}

/// Whether some range of `s` covers an address.
pub open spec fn covered(s: Seq<(u64, u64)>, a: int) -> bool {
    exists|i: int| 0 <= i < s.len() && covers(#[trigger] s[i], a)
}

/// Sorting keeps every range, adds none, and puts them in order.
pub proof fn lemma_sorted(s: Seq<(u64, u64)>)
    ensures
        sorted(s).len() == s.len(),
        sorted(s).to_multiset() == s.to_multiset(),
        forall|i: int, j: int|
            0 <= i <= j < s.len() ==> in_order(#[trigger] sorted(s)[i], #[trigger] sorted(s)[j]),
        forall|r: (u64, u64)| s.contains(r) == #[trigger] sorted(s).contains(r),
{
    broadcast use vstd::seq_lib::group_to_multiset_ensures;

    let leq = |a: (u64, u64), b: (u64, u64)| in_order(a, b);
    s.lemma_sort_by_ensures(leq);
    vstd::seq_lib::to_multiset_len(s);
    vstd::seq_lib::to_multiset_len(sorted(s));
    assert(sorted_by(sorted(s), leq));
    assert forall|i: int, j: int| 0 <= i <= j < s.len() implies in_order(
        #[trigger] sorted(s)[i],
        #[trigger] sorted(s)[j],
    ) by {
        if i < j {
            assert(leq(sorted(s)[i], sorted(s)[j]));
        }
    }
    assert forall|r: (u64, u64)| s.contains(r) == #[trigger] sorted(s).contains(r) by {
        assert(s.contains(r) == (s.to_multiset().count(r) > 0));
    }
}

/// Sorting changes no coverage.
pub proof fn lemma_sorted_covers(s: Seq<(u64, u64)>, a: int)
    ensures
        covered(sorted(s), a) == covered(s, a),
{
    lemma_sorted(s);
    if covered(s, a) {
        let i = choose|i: int| 0 <= i < s.len() && covers(#[trigger] s[i], a);
        assert(sorted(s).contains(s[i]));
    }
    if covered(sorted(s), a) {
        let i = choose|i: int| 0 <= i < sorted(s).len() && covers(#[trigger] sorted(s)[i], a);
        assert(sorted(s).contains(sorted(s)[i]));
        assert(s.contains(sorted(s)[i]));
    }
}

/// Puts `range` into the ordered list `list`.
fn insert(list: &mut Vec<(u64, u64)>, range: (u64, u64))
    requires
        sorted_by(old(list)@, |a: (u64, u64), b: (u64, u64)| in_order(a, b)),
    ensures
        sorted_by(final(list)@, |a: (u64, u64), b: (u64, u64)| in_order(a, b)),
        final(list)@.to_multiset() == old(list)@.to_multiset().insert(range),
{
    let mut at: usize = 0;
    while at < list.len() && (list[at].0 < range.0 || (list[at].0 == range.0 && list[at].1
        <= range.1))
        invariant
            at <= list@.len(),
            forall|i: int| 0 <= i < at ==> in_order(#[trigger] list@[i], range),
        decreases list@.len() - at,
    {
        at = at + 1;
    }
    let ghost before = list@;
    let ghost leq = |a: (u64, u64), b: (u64, u64)| in_order(a, b);
    list.insert(at, range);
    proof {
        vstd::seq_lib::to_multiset_insert(before, at as int, range);
        assert forall|i: int, j: int| 0 <= i < j < list@.len() implies #[trigger] leq(
            list@[i],
            list@[j],
        ) by {
            let left = if i < at { i } else { i - 1 };
            let right = if j < at { j } else { j - 1 };
            if i != at && j != at {
                assert(leq(before[left], before[right]));
            } else if i == at {
                if at < before.len() {
                    assert(in_order(range, before[at as int]));
                    if at < right {
                        assert(leq(before[at as int], before[right]));
                    }
                }
            }
        }
    }
}

/// The ranges of `list` in ascending order.
pub fn sort(list: &Vec<(u64, u64)>) -> (ordered: Vec<(u64, u64)>)
    ensures
        ordered@ == sorted(list@),
{
    let mut ordered: Vec<(u64, u64)> = Vec::new();
    let mut next: usize = 0;
    let ghost leq = |a: (u64, u64), b: (u64, u64)| in_order(a, b);
    assert(list@.subrange(0, 0) =~= ordered@);
    while next < list.len()
        invariant
            next <= list@.len(),
            leq == (|a: (u64, u64), b: (u64, u64)| in_order(a, b)),
            sorted_by(ordered@, leq),
            ordered@.to_multiset() == list@.subrange(0, next as int).to_multiset(),
        decreases list@.len() - next,
    {
        insert(&mut ordered, list[next]);
        proof {
            vstd::seq_lib::to_multiset_build(list@.subrange(0, next as int), list@[next as int]);
            assert(list@.subrange(0, next + 1) =~= list@.subrange(0, next as int).push(
                list@[next as int],
            ));
        }
        next = next + 1;
    }
    proof {
        assert(list@.subrange(0, next as int) =~= list@);
        assert(total_ordering(leq));
        list@.lemma_sort_by_ensures(leq);
        lemma_sorted_unique(ordered@, sorted(list@), leq);
    }
    ordered
}

} // verus!
