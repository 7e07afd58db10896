//! Searching and ordering sequences.
use vstd::prelude::*;

verus! {

/// The index of the first element `p` holds of; the length when it holds of none.
pub open spec fn first<A>(s: Seq<A>, p: spec_fn(A) -> bool) -> int
    decreases s.len(),
{
    if s.len() == 0 {
        0
    } else if p(s[0]) {
        0
    } else {
        1 + first(s.drop_first(), p)
    }
}

/// `first` is the only index with nothing before it and a match at it.
pub proof fn lemma_first<A>(s: Seq<A>, p: spec_fn(A) -> bool, k: int)
    requires
        0 <= k <= s.len(),
        forall|i: int| 0 <= i < k ==> !p(#[trigger] s[i]),
        k < s.len() ==> p(s[k]),
    ensures
        first(s, p) == k,
    decreases s.len(),
{
    if s.len() > 0 && k > 0 {
        assert(!p(s[0]));
        let rest = s.drop_first();
        assert forall|i: int| 0 <= i < k - 1 implies !p(#[trigger] rest[i]) by {
            assert(rest[i] == s[i + 1]);
        }
        lemma_first(rest, p, k - 1);
    }
}

pub proof fn lemma_first_is<A>(s: Seq<A>, p: spec_fn(A) -> bool)
    ensures
        0 <= first(s, p) <= s.len(),
        forall|i: int| 0 <= i < first(s, p) ==> !p(#[trigger] s[i]),
        first(s, p) < s.len() ==> p(s[first(s, p)]),
    decreases s.len(),
{
    if s.len() > 0 && !p(s[0]) {
        let rest = s.drop_first();
        lemma_first_is(rest, p);
        assert forall|i: int| 0 <= i < first(s, p) implies !p(#[trigger] s[i]) by {
            if i > 0 {
                assert(rest[i - 1] == s[i]);
            }
        }
    }
}

/// The elements as integers.
pub open spec fn ints8(s: Seq<u8>) -> Seq<int> {
    Seq::new(s.len(), |i: int| s[i] as int)
}

/// The elements as integers.
pub open spec fn ints16(s: Seq<u16>) -> Seq<int> {
    Seq::new(s.len(), |i: int| s[i] as int)
}

/// Lexicographic order: a proper prefix comes first.
pub open spec fn lex_less(a: Seq<int>, b: Seq<int>) -> bool
    decreases a.len(),
{
    if b.len() == 0 {
        false
    } else if a.len() == 0 {
        true
    } else if a[0] != b[0] {
        a[0] < b[0]
    } else {
        lex_less(a.drop_first(), b.drop_first())
    }
}

pub proof fn lemma_lex_irreflexive(a: Seq<int>)
    ensures
        !lex_less(a, a),
    decreases a.len(),
{
    if a.len() > 0 {
        lemma_lex_irreflexive(a.drop_first());
    }
}

pub proof fn lemma_lex_transitive(a: Seq<int>, b: Seq<int>, c: Seq<int>)
    requires
        lex_less(a, b),
        lex_less(b, c),
    ensures
        lex_less(a, c),
    decreases a.len(),
{
    if a.len() > 0 && a[0] == b[0] && b[0] == c[0] {
        lemma_lex_transitive(a.drop_first(), b.drop_first(), c.drop_first());
    }
}

pub proof fn lemma_lex_total(a: Seq<int>, b: Seq<int>)
    ensures
        lex_less(a, b) || lex_less(b, a) || a == b,
    decreases a.len(),
{
    if a.len() == 0 || b.len() == 0 {
        if a.len() == 0 && b.len() == 0 {
            assert(a =~= b);
        }
    } else if a[0] == b[0] {
        lemma_lex_total(a.drop_first(), b.drop_first());
        if a.drop_first() == b.drop_first() {
            assert(a =~= seq![a[0]] + a.drop_first());
            assert(b =~= seq![b[0]] + b.drop_first());
        }
    }
}

proof fn lemma_lex_step(a: Seq<int>, b: Seq<int>, k: int)
    requires
        0 <= k <= a.len(),
        k <= b.len(),
        forall|i: int| 0 <= i < k ==> a[i] == b[i],
    ensures
        lex_less(a, b) == lex_less(a.subrange(k, a.len() as int), b.subrange(k, b.len() as int)),
    decreases k,
{
    if k == 0 {
        assert(a.subrange(0, a.len() as int) =~= a);
        assert(b.subrange(0, b.len() as int) =~= b);
    } else {
        lemma_lex_step(a.drop_first(), b.drop_first(), k - 1);
        assert(a.drop_first().subrange(k - 1, a.len() - 1) =~= a.subrange(k, a.len() as int));
        assert(b.drop_first().subrange(k - 1, b.len() - 1) =~= b.subrange(k, b.len() as int));
    }
}

/// Whether `a` comes before `b`, unit by unit.
pub fn less16(a: &[u16], b: &[u16]) -> (less: bool)
    ensures
        less == lex_less(ints16(a@), ints16(b@)),
{
    let mut k: usize = 0;
    while k < a.len() && k < b.len() && a[k] == b[k]
        invariant
            k <= a@.len(),
            k <= b@.len(),
            forall|i: int| 0 <= i < k ==> a@[i] == b@[i],
        decreases a@.len() - k,
    {
        k = k + 1;
    }
    proof {
        lemma_lex_step(ints16(a@), ints16(b@), k as int);
    }
    if k < b.len() {
        if k < a.len() {
            a[k] < b[k]
        } else {
            true
        }
    } else {
        false
    }
}

/// Whether `a` comes before `b`, byte by byte.
pub fn less8(a: &[u8], b: &[u8]) -> (less: bool)
    ensures
        less == lex_less(ints8(a@), ints8(b@)),
{
    let mut k: usize = 0;
    while k < a.len() && k < b.len() && a[k] == b[k]
        invariant
            k <= a@.len(),
            k <= b@.len(),
            forall|i: int| 0 <= i < k ==> a@[i] == b@[i],
        decreases a@.len() - k,
    {
        k = k + 1;
    }
    proof {
        lemma_lex_step(ints8(a@), ints8(b@), k as int);
    }
    if k < b.len() {
        if k < a.len() {
            a[k] < b[k]
        } else {
            true
        }
    } else {
        false
    }
}

/// Whether two strings of units are the same.
pub fn same16(a: &[u16], b: &[u16]) -> (same: bool)
    ensures
        same == (a@ == b@),
{
    if a.len() != b.len() {
        return false;
    }
    let mut k: usize = 0;
    while k < a.len()
        invariant
            k <= a@.len(),
            a@.len() == b@.len(),
            forall|i: int| 0 <= i < k ==> a@[i] == b@[i],
        decreases a@.len() - k,
    {
        if a[k] != b[k] {
            return false;
        }
        k = k + 1;
    }
    assert(a@ =~= b@);
    true
}

/// A copy of the units from `from` to `to`.
pub fn copy_units(units: &[u16], from: usize, to: usize) -> (copy: Vec<u16>)
    requires
        from <= to <= units@.len(),
    ensures
        copy@ == units@.subrange(from as int, to as int),
{
    let mut copy: Vec<u16> = Vec::new();
    let mut next: usize = from;
    while next < to
        invariant
            from <= next <= to <= units@.len(),
            copy@ == units@.subrange(from as int, next as int),
        decreases to - next,
    {
        copy.push(units[next]);
        next = next + 1;
        assert(copy@ =~= units@.subrange(from as int, next as int));
    }
    copy
}

/// Which of two sequences comes first: the one with the smaller element where they first
/// differ, and one that the other goes on from.
pub proof fn law_first_difference_decides(a: Seq<int>, b: Seq<int>, k: int)
    requires
        0 <= k <= a.len(),
        k < b.len(),
        forall|i: int| 0 <= i < k ==> a[i] == b[i],
        k < a.len() ==> a[k] < b[k],
    ensures
        lex_less(a, b),
        !lex_less(b, a),
{
    lemma_lex_step(a, b, k);
    let x = a.subrange(k, a.len() as int);
    let y = b.subrange(k, b.len() as int);
    assert(y[0] == b[k]);
    if k < a.len() {
        assert(x[0] == a[k]);
    }
    if lex_less(b, a) {
        lemma_lex_transitive(a, b, a);
        lemma_lex_irreflexive(a);
    }
}

} // verus!
