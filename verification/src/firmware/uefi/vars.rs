//! The EFI variable store.
//!
//! Variables live in a fixed RAM window. A record is a state word, the
//! attributes, the vendor GUID, then the name and data; records are kept sorted
//! by (name, GUID), which is also the order `GetNextVariableName` must hand
//! them out in.
//!
//! The machine has no writable non-volatile storage attached, so a variable
//! marked `NON_VOLATILE` survives in this store for the life of the boot and not
//! beyond.
use crate::bytes::{
    copy_range, fill, get_16, get_u32, get_units, le_at, le_bytes, lemma_inner, lemma_le_bytes_len,
    lemma_le_value_of_bytes, lemma_unit_bytes_injective, lemma_widths, push_fill, push_le,
    push_slice, push_units, same_bytes, unit_bytes,
};
use crate::seqs::{
    copy_units, first, ints16, ints8, lemma_first, lemma_first_is, lemma_lex_irreflexive,
    lemma_lex_total, lemma_lex_transitive, less16, less8, lex_less, same16,
};
use crate::status::{Guid, Status};
use vstd::prelude::*;

verus! {

/// The store's size: what holds a boot manager's `Boot####` entries comfortably.
pub const STORE_SIZE: usize = 0x1_0000;

/// The largest variable (name and data) the store accepts.
pub const MAX_VARIABLE_SIZE: usize = 1024;

/// How many variables fit at worst.
pub const VARIABLE_LIMIT: usize = 64;

/// The record header, before the name and data; the magic takes as much.
pub const HEADER_SIZE: usize = 32;

/// The state of a live record.
pub const STATE_VALID: u32 = 1;

/// "WVS1", little-endian.
pub const MAGIC: u32 = 0x3153_5657;

/// `EFI_VARIABLE_NON_VOLATILE`.
pub const VARIABLE_NON_VOLATILE: u32 = 1;

/// `EFI_VARIABLE_BOOTSERVICE_ACCESS`.
pub const VARIABLE_BOOTSERVICE_ACCESS: u32 = 2;

/// `EFI_VARIABLE_RUNTIME_ACCESS`.
pub const VARIABLE_RUNTIME_ACCESS: u32 = 4;

/// A variable.
#[verifier::ext_equal]
pub struct Variable {
    pub name: Seq<u16>,
    pub guid: Seq<u8>,
    pub attributes: u32,
    pub data: Seq<u8>,
}

impl Variable {
    /// Whether this is the variable called `name` in `guid`'s namespace.
    pub open spec fn is(self, name: Seq<u16>, guid: Seq<u8>) -> bool {
        self.name == name && self.guid == guid
    }

    /// The order of the store: by name, then by GUID.
    pub open spec fn before(self, other: Variable) -> bool {
        lex_less(ints16(self.name), ints16(other.name)) || (self.name == other.name && lex_less(
            ints8(self.guid),
            ints8(other.guid),
        ))
    }

    /// The bytes a record takes: the header, the name and the data, padded to a
    /// 4-byte boundary.
    pub open spec fn size(self) -> nat {
        record_size(self.name.len(), self.data.len())
    }

    /// What the store accepts as a variable.
    pub open spec fn storable(self) -> bool {
        &&& self.name.len() > 0
        &&& self.guid.len() == 16
        &&& self.data.len() > 0
        &&& 2 * self.name.len() + self.data.len() <= MAX_VARIABLE_SIZE
    }

    /// The record.
    pub open spec fn encode(self) -> Seq<u8> {
        le_bytes(STATE_VALID as nat, 4) + le_bytes(self.attributes as nat, 4) + self.guid
            + le_bytes(2 * self.name.len(), 4) + le_bytes(self.data.len(), 4) + unit_bytes(
            self.name,
        ) + self.data + fill(
            (self.size() - HEADER_SIZE - 2 * self.name.len() - self.data.len()) as nat,
            0,
        )
    }
}

/// The bytes a record with a name of `units` units and `bytes` bytes of data takes.
pub open spec fn record_size(units: nat, bytes: nat) -> nat {
    (HEADER_SIZE as nat + 2 * units + bytes + 3) / 4 * 4
}

/// Where the variable called `name` in `guid`'s namespace is; past the end when
/// it is not there.
pub open spec fn index_of(s: Seq<Variable>, name: Seq<u16>, guid: Seq<u8>) -> int {
    first(s, |v: Variable| v.is(name, guid))
}

/// Where the walk goes from the variable named; the empty name starts it.
pub open spec fn next_index(s: Seq<Variable>, name: Seq<u16>, guid: Seq<u8>) -> int {
    if name.len() == 0 {
        0
    } else {
        index_of(s, name, guid) + 1
    }
}

/// Whether the variable is there.
pub open spec fn holds(s: Seq<Variable>, name: Seq<u16>, guid: Seq<u8>) -> bool {
    index_of(s, name, guid) < s.len()
}

/// The variables with `v` among them: in place of the one it is named like, else
/// in front of the first that comes after it.
pub open spec fn stored(s: Seq<Variable>, v: Variable) -> Seq<Variable> {
    if holds(s, v.name, v.guid) {
        s.update(index_of(s, v.name, v.guid), v)
    } else {
        s.insert(first(s, |x: Variable| v.before(x)), v)
    }
}

/// The bytes in use with the variables `s` stored.
pub open spec fn used(s: Seq<Variable>) -> nat
    decreases s.len(),
{
    if s.len() == 0 {
        HEADER_SIZE as nat
    } else {
        used(s.drop_last()) + s.last().size()
    }
}

/// Whether storing `v` needs no room: it takes the place of a record that is at
/// least as large and has the same attributes.
pub open spec fn in_place(s: Seq<Variable>, v: Variable) -> bool {
    holds(s, v.name, v.guid) && s[index_of(s, v.name, v.guid)].attributes == v.attributes
        && v.size() <= s[index_of(s, v.name, v.guid)].size()
}

/// Whether there is room to store `v`.
pub open spec fn room_for(s: Seq<Variable>, v: Variable) -> bool {
    in_place(s, v) || used(s) + v.size() <= STORE_SIZE
}

/// Every variable in its place, once.
pub open spec fn ordered(s: Seq<Variable>) -> bool {
    forall|i: int, j: int|
        0 <= i < j < s.len() ==> (#[trigger] s[i]).before(#[trigger] s[j])
}

/// The records of `s`, one after another.
pub open spec fn encode_all(s: Seq<Variable>) -> Seq<u8>
    decreases s.len(),
{
    if s.len() == 0 {
        Seq::empty()
    } else {
        encode_all(s.drop_last()) + s.last().encode()
    }
}

proof fn lemma_before_strict(a: Variable, b: Variable)
    ensures
        !a.before(a),
        a.before(b) ==> !b.before(a),
        a.before(b) || b.before(a) || a.is(b.name, b.guid),
{
    lemma_lex_irreflexive(ints16(a.name));
    lemma_lex_irreflexive(ints8(a.guid));
    lemma_lex_total(ints16(a.name), ints16(b.name));
    lemma_lex_total(ints8(a.guid), ints8(b.guid));
    if a.before(b) && b.before(a) {
        if lex_less(ints16(a.name), ints16(b.name)) && lex_less(ints16(b.name), ints16(a.name)) {
            lemma_lex_transitive(ints16(a.name), ints16(b.name), ints16(a.name));
        }
        if lex_less(ints8(a.guid), ints8(b.guid)) && lex_less(ints8(b.guid), ints8(a.guid)) {
            lemma_lex_transitive(ints8(a.guid), ints8(b.guid), ints8(a.guid));
        }
    }
    if ints16(a.name) == ints16(b.name) {
        lemma_ints16_injective(a.name, b.name);
    }
    if ints8(a.guid) == ints8(b.guid) {
        lemma_ints8_injective(a.guid, b.guid);
    }
}

proof fn lemma_before_transitive(a: Variable, b: Variable, c: Variable)
    requires
        a.before(b),
        b.before(c),
    ensures
        a.before(c),
{
    if lex_less(ints16(a.name), ints16(b.name)) && lex_less(ints16(b.name), ints16(c.name)) {
        lemma_lex_transitive(ints16(a.name), ints16(b.name), ints16(c.name));
    }
    if lex_less(ints8(a.guid), ints8(b.guid)) && lex_less(ints8(b.guid), ints8(c.guid)) {
        lemma_lex_transitive(ints8(a.guid), ints8(b.guid), ints8(c.guid));
    }
}

proof fn lemma_ints16_injective(a: Seq<u16>, b: Seq<u16>)
    requires
        ints16(a) == ints16(b),
    ensures
        a == b,
{
    assert(ints16(a).len() == a.len() && ints16(b).len() == b.len());
    assert forall|i: int| 0 <= i < a.len() implies a[i] == b[i] by {
        assert(ints16(a)[i] == a[i] as int);
        assert(ints16(b)[i] == b[i] as int);
    }
    assert(a =~= b);
}

proof fn lemma_ints8_injective(a: Seq<u8>, b: Seq<u8>)
    requires
        ints8(a) == ints8(b),
    ensures
        a == b,
{
    assert(ints8(a).len() == a.len() && ints8(b).len() == b.len());
    assert forall|i: int| 0 <= i < a.len() implies a[i] == b[i] by {
        assert(ints8(a)[i] == a[i] as int);
        assert(ints8(b)[i] == b[i] as int);
    }
    assert(a =~= b);
}

/// In an ordered store a name stands once.
proof fn lemma_index(s: Seq<Variable>, k: int)
    requires
        ordered(s),
        0 <= k < s.len(),
    ensures
        index_of(s, s[k].name, s[k].guid) == k,
{
    let p = |v: Variable| v.is(s[k].name, s[k].guid);
    assert forall|i: int| 0 <= i < k implies !p(#[trigger] s[i]) by {
        lemma_before_strict(s[i], s[k]);
        lemma_before_strict(s[k], s[k]);
    }
    lemma_first(s, p, k);
}

/// Storing a variable keeps the order.
proof fn lemma_stored_ordered(s: Seq<Variable>, v: Variable)
    requires
        ordered(s),
    ensures
        ordered(stored(s, v)),
        holds(s, v.name, v.guid) ==> stored(s, v).len() == s.len(),
        !holds(s, v.name, v.guid) ==> stored(s, v).len() == s.len() + 1,
{
    let t = stored(s, v);
    let p = |x: Variable| x.is(v.name, v.guid);
    lemma_first_is(s, p);
    if holds(s, v.name, v.guid) {
        let k = index_of(s, v.name, v.guid);
        assert forall|i: int, j: int| 0 <= i < j < t.len() implies (#[trigger] t[i]).before(
            #[trigger] t[j],
        ) by {
            assert(s[i].before(s[j]));
        }
    } else {
        let q = |x: Variable| v.before(x);
        let k = first(s, q);
        lemma_first_is(s, q);
        assert forall|i: int, j: int| 0 <= i < j < t.len() implies (#[trigger] t[i]).before(
            #[trigger] t[j],
        ) by {
            let left = if i < k { i } else { i - 1 };
            let right = if j < k { j } else { j - 1 };
            if i != k && j != k {
                assert(s[left].before(s[right]));
            } else if j == k {
                assert(!q(s[i]));
                assert(!p(s[i]));
                lemma_before_strict(v, s[i]);
            } else {
                assert(q(s[k]));
                if right > k {
                    assert(s[k].before(s[right]));
                    lemma_before_transitive(v, s[k], s[right]);
                }
            }
        }
    }
}

/// Removing a variable keeps the order.
proof fn lemma_removed_ordered(s: Seq<Variable>, k: int)
    requires
        ordered(s),
        0 <= k < s.len(),
    ensures
        ordered(s.remove(k)),
{
    let t = s.remove(k);
    assert forall|i: int, j: int| 0 <= i < j < t.len() implies (#[trigger] t[i]).before(
        #[trigger] t[j],
    ) by {
        let left = if i < k { i } else { i + 1 };
        let right = if j < k { j } else { j + 1 };
        assert(s[left].before(s[right]));
    }
}

/// What was stored is read back, and every other variable reads as before.
pub proof fn law_get_after_set(s: Seq<Variable>, v: Variable, name: Seq<u16>, guid: Seq<u8>)
    requires
        ordered(s),
    ensures
        holds(stored(s, v), v.name, v.guid),
        stored(s, v)[index_of(stored(s, v), v.name, v.guid)] == v,
        !v.is(name, guid) ==> holds(stored(s, v), name, guid) == holds(s, name, guid),
        !v.is(name, guid) && holds(s, name, guid) ==> stored(s, v)[index_of(
            stored(s, v),
            name,
            guid,
        )] == s[index_of(s, name, guid)],
{
    let t = stored(s, v);
    lemma_stored_ordered(s, v);
    lemma_first_is(s, |x: Variable| x.is(v.name, v.guid));
    lemma_first_is(s, |x: Variable| v.before(x));
    lemma_first_is(s, |x: Variable| x.is(name, guid));
    lemma_first_is(t, |x: Variable| x.is(name, guid));
    let at = if holds(s, v.name, v.guid) {
        index_of(s, v.name, v.guid)
    } else {
        first(s, |x: Variable| v.before(x))
    };
    assert(t[at] == v);
    lemma_index(t, at);
    if !v.is(name, guid) {
        let k = index_of(s, name, guid);
        if k < s.len() {
            assert(s[k].is(name, guid));
            let moved = if holds(s, v.name, v.guid) || k < at { k } else { k + 1 };
            assert(t[moved] == s[k]);
            lemma_index(t, moved);
        }
        let m = index_of(t, name, guid);
        if m < t.len() {
            assert(t[m].is(name, guid));
            let back = if holds(s, v.name, v.guid) || m < at { m } else { m - 1 };
            assert(s[back] == t[m]);
            lemma_index(s, back);
        }
    }
}

/// A deleted variable is gone, and every other variable reads as before.
pub proof fn law_get_after_delete(s: Seq<Variable>, v: Variable, name: Seq<u16>, guid: Seq<u8>)
    requires
        ordered(s),
        holds(s, v.name, v.guid),
    ensures
        ({
            let t = s.remove(index_of(s, v.name, v.guid));
            &&& !holds(t, v.name, v.guid)
            &&& !v.is(name, guid) ==> holds(t, name, guid) == holds(s, name, guid)
            &&& !v.is(name, guid) && holds(s, name, guid) ==> t[index_of(t, name, guid)]
                == s[index_of(s, name, guid)]
        }),
{
    let at = index_of(s, v.name, v.guid);
    let t = s.remove(at);
    lemma_first_is(s, |x: Variable| x.is(v.name, v.guid));
    lemma_removed_ordered(s, at);
    lemma_first_is(t, |x: Variable| x.is(v.name, v.guid));
    lemma_first_is(s, |x: Variable| x.is(name, guid));
    lemma_first_is(t, |x: Variable| x.is(name, guid));
    let gone = index_of(t, v.name, v.guid);
    if gone < t.len() {
        let back = if gone < at { gone } else { gone + 1 };
        assert(t[gone].is(v.name, v.guid));
        assert(s[back] == t[gone]);
        lemma_index(s, back);
    }
    if !v.is(name, guid) {
        let k = index_of(s, name, guid);
        if k < s.len() {
            assert(s[k].is(name, guid));
            let moved = if k < at { k } else { k - 1 };
            assert(t[moved] == s[k]);
            lemma_index(t, moved);
        }
        let m = index_of(t, name, guid);
        if m < t.len() {
            assert(t[m].is(name, guid));
            let back = if m < at { m } else { m + 1 };
            assert(s[back] == t[m]);
            lemma_index(s, back);
        }
    }
}

spec fn all_storable(s: Seq<Variable>) -> bool {
    forall|i: int| 0 <= i < s.len() ==> (#[trigger] s[i]).storable()
}

proof fn lemma_encode_len(v: Variable)
    requires
        v.storable(),
    ensures
        v.encode().len() == v.size(),
        v.size() >= HEADER_SIZE + 3,
        v.size() <= HEADER_SIZE + MAX_VARIABLE_SIZE,
{
    lemma_le_bytes_len(STATE_VALID as nat, 4);
    lemma_le_bytes_len(v.attributes as nat, 4);
    lemma_le_bytes_len(2 * v.name.len(), 4);
    lemma_le_bytes_len(v.data.len(), 4);
}

proof fn lemma_encode_all_add(x: Seq<Variable>, y: Seq<Variable>)
    ensures
        encode_all(x + y) == encode_all(x) + encode_all(y),
    decreases y.len(),
{
    if y.len() == 0 {
        assert(x + y =~= x);
        assert(encode_all(x) + encode_all(y) =~= encode_all(x));
    } else {
        assert((x + y).drop_last() =~= x + y.drop_last());
        lemma_encode_all_add(x, y.drop_last());
        assert(encode_all(x + y) =~= encode_all(x) + encode_all(y));
    }
}

proof fn lemma_encode_one(v: Variable)
    ensures
        encode_all(seq![v]) == v.encode(),
{
    assert(seq![v].drop_last() =~= Seq::<Variable>::empty());
    assert(encode_all(seq![v].drop_last()) =~= Seq::<u8>::empty());
    assert(encode_all(seq![v]) =~= v.encode());
}

proof fn lemma_used(s: Seq<Variable>)
    requires
        all_storable(s),
    ensures
        used(s) == HEADER_SIZE + encode_all(s).len(),
    decreases s.len(),
{
    if s.len() > 0 {
        assert(all_storable(s.drop_last())) by {
            assert forall|i: int| 0 <= i < s.drop_last().len() implies (
            #[trigger] s.drop_last()[i]).storable() by {
                assert(s[i].storable());
            }
        }
        lemma_used(s.drop_last());
        assert(s[s.len() - 1].storable());
        lemma_encode_len(s.last());
    }
}

proof fn lemma_encode_insert(s: Seq<Variable>, at: int, v: Variable)
    requires
        0 <= at <= s.len(),
        all_storable(s),
        v.storable(),
    ensures
        encode_all(s.insert(at, v)) == encode_all(s.subrange(0, at)) + v.encode() + encode_all(
            s.subrange(at, s.len() as int),
        ),
        all_storable(s.insert(at, v)),
{
    let after = s.insert(at, v);
    let front = s.subrange(0, at);
    let back = s.subrange(at, s.len() as int);
    assert(after =~= front + seq![v] + back);
    lemma_encode_all_add(front + seq![v], back);
    lemma_encode_all_add(front, seq![v]);
    lemma_encode_one(v);
    assert forall|i: int| 0 <= i < after.len() implies (#[trigger] after[i]).storable() by {
        assert(i < at ==> after[i] == s[i]);
        assert(i > at ==> after[i] == s[i - 1]);
    }
}

proof fn lemma_count(s: Seq<Variable>)
    ensures
        used(s) >= HEADER_SIZE + s.len(),
    decreases s.len(),
{
    if s.len() > 0 {
        lemma_count(s.drop_last());
    }
}

/// The records around the `k`-th.
proof fn lemma_split(s: Seq<Variable>, k: int)
    requires
        0 <= k < s.len(),
    ensures
        encode_all(s) == encode_all(s.subrange(0, k)) + s[k].encode() + encode_all(
            s.subrange(k + 1, s.len() as int),
        ),
        encode_all(s.subrange(0, k + 1)) == encode_all(s.subrange(0, k)) + s[k].encode(),
{
    let front = s.subrange(0, k);
    let back = s.subrange(k + 1, s.len() as int);
    assert(s =~= front + seq![s[k]] + back);
    assert(s.subrange(0, k + 1) =~= front + seq![s[k]]);
    lemma_encode_all_add(front + seq![s[k]], back);
    lemma_encode_all_add(front, seq![s[k]]);
    lemma_encode_one(s[k]);
}

/// The fields of a record, where they stand.
proof fn lemma_fields(bytes: Seq<u8>, at: int, v: Variable)
    requires
        v.storable(),
        0 <= at,
        at + v.size() <= bytes.len(),
        bytes.subrange(at, at + v.size()) == v.encode(),
    ensures
        le_at(bytes, at, 4) == STATE_VALID,
        le_at(bytes, at + 4, 4) == v.attributes,
        bytes.subrange(at + 8, at + 24) == v.guid,
        le_at(bytes, at + 24, 4) == 2 * v.name.len(),
        le_at(bytes, at + 28, 4) == v.data.len(),
        bytes.subrange(at + 32, at + 32 + 2 * v.name.len()) == unit_bytes(v.name),
        bytes.subrange(
            at + 32 + 2 * v.name.len(),
            at + 32 + 2 * v.name.len() + v.data.len(),
        ) == v.data,
{
    lemma_encode_len(v);
    lemma_le_bytes_len(STATE_VALID as nat, 4);
    lemma_le_bytes_len(v.attributes as nat, 4);
    lemma_le_bytes_len(2 * v.name.len(), 4);
    lemma_le_bytes_len(v.data.len(), 4);
    lemma_widths();
    lemma_le_value_of_bytes(STATE_VALID as nat, 4);
    lemma_le_value_of_bytes(v.attributes as nat, 4);
    lemma_le_value_of_bytes(2 * v.name.len(), 4);
    lemma_le_value_of_bytes(v.data.len(), 4);
    let e = v.encode();
    let n = 2 * v.name.len();
    let d = v.data.len();
    lemma_inner(bytes, at, v.size() as int, 0, 4);
    lemma_inner(bytes, at, v.size() as int, 4, 8);
    lemma_inner(bytes, at, v.size() as int, 8, 24);
    lemma_inner(bytes, at, v.size() as int, 24, 28);
    lemma_inner(bytes, at, v.size() as int, 28, 32);
    lemma_inner(bytes, at, v.size() as int, 32, 32 + n as int);
    lemma_inner(bytes, at, v.size() as int, 32 + n as int, 32 + n as int + d as int);
    assert(e.subrange(0, 4) =~= le_bytes(STATE_VALID as nat, 4));
    assert(e.subrange(4, 8) =~= le_bytes(v.attributes as nat, 4));
    assert(e.subrange(8, 24) =~= v.guid);
    assert(e.subrange(24, 28) =~= le_bytes(n, 4));
    assert(e.subrange(28, 32) =~= le_bytes(d, 4));
    assert(e.subrange(32, 32 + n as int) =~= unit_bytes(v.name));
    assert(e.subrange(32 + n as int, 32 + n as int + d as int) =~= v.data);
}

/// A record's header.
struct Header {
    state: u32,
    attributes: u32,
    name_bytes: u32,
    data_bytes: u32,
}

/// Where a record begins, as an offset into the store.
struct Record {
    offset: usize,
}

/// What `next_name` answers.
#[derive(Debug)]
pub enum NextName {
    /// The caller's name has no end.
    InvalidParameter,
    /// There is no variable after the one named.
    NotFound,
    /// The name does not fit; this many bytes are needed.
    BufferTooSmall(usize),
    /// The next variable's name, its GUID, and the bytes its name takes with the
    /// terminator.
    Found(Vec<u16>, Guid, usize),
}

/// The variable store.
pub struct Store {
    bytes: Vec<u8>,
    /// The offset just past the last record, in bytes.
    used: usize,
    variables: Ghost<Seq<Variable>>,
}

impl Store {
    /// The variables, in the order they are handed out in.
    pub closed spec fn view(&self) -> Seq<Variable> {
        self.variables@
    }

    /// What every operation keeps: the bytes in use are the records of the
    /// variables, in order, each name once.
    pub closed spec fn wf(&self) -> bool {
        &&& self.bytes@.len() == STORE_SIZE
        &&& HEADER_SIZE <= self.used <= STORE_SIZE
        &&& le_at(self.bytes@, 0, 4) == MAGIC
        &&& self.bytes@.subrange(HEADER_SIZE as int, self.used as int) == encode_all(self@)
        &&& ordered(self@)
        &&& all_storable(self@)
    }

    /// The variables are kept in order, none twice, each of them whole, and together
    /// no larger than the store.
    pub proof fn law_store_keeps_order(&self)
        requires
            self.wf(),
        ensures
            ordered(self@),
            forall|i: int| 0 <= i < self@.len() ==> (#[trigger] self@[i]).storable(),
            used(self@) <= STORE_SIZE,
    {
        lemma_used(self@);
    }

    /// The offset of the `k`-th record.
    spec fn offset_of(&self, k: int) -> int {
        HEADER_SIZE + encode_all(self@.subrange(0, k)).len()
    }

    /// The `k`-th record stands where the ones before it end.
    proof fn lemma_record(&self, k: int)
        requires
            self.wf(),
            0 <= k < self@.len(),
        ensures
            self.offset_of(k) + self@[k].size() <= self.used,
            self.bytes@.subrange(self.offset_of(k), self.offset_of(k) + self@[k].size())
                == self@[k].encode(),
            self.offset_of(k + 1) == self.offset_of(k) + self@[k].size(),
            self@[k].storable(),
            HEADER_SIZE <= self.offset_of(k),
    {
        lemma_split(self@, k);
        self.lemma_end();
        assert(self@[k].storable());
        lemma_encode_len(self@[k]);
        let front = encode_all(self@.subrange(0, k));
        let own = self@[k].encode();
        let back = encode_all(self@.subrange(k + 1, self@.len() as int));
        let all = encode_all(self@);
        assert(all.subrange(front.len() as int, (front.len() + own.len()) as int) =~= own);
        let records = self.bytes@.subrange(HEADER_SIZE as int, self.used as int);
        assert(records.subrange(front.len() as int, (front.len() + own.len()) as int)
            =~= self.bytes@.subrange(
            HEADER_SIZE + front.len(),
            HEADER_SIZE + front.len() + own.len(),
        ));
    }

    proof fn lemma_end(&self)
        requires
            self.wf(),
        ensures
            self.offset_of(self@.len() as int) == self.used,
            self.offset_of(0) == HEADER_SIZE,
            used(self@) == self.used,
            encode_all(self@).len() == self.used - HEADER_SIZE,
    {
        assert(self.bytes@.subrange(HEADER_SIZE as int, self.used as int).len() == self.used
            - HEADER_SIZE);
        assert(self@.subrange(0, self@.len() as int) =~= self@);
        assert(self@.subrange(0, 0) =~= Seq::<Variable>::empty());
        lemma_used(self@);
    }

    /// An empty store.
    pub fn init() -> (store: Store)
        ensures
            store.wf(),
            store@ == Seq::<Variable>::empty(),
    {
        let mut bytes: Vec<u8> = Vec::new();
        push_le(&mut bytes, MAGIC as u64, 4);
        proof {
            lemma_le_bytes_len(MAGIC as nat, 4);
            lemma_widths();
            lemma_le_value_of_bytes(MAGIC as nat, 4);
        }
        push_fill(&mut bytes, STORE_SIZE - 4, 0xff);
        let store = Store { bytes, used: HEADER_SIZE, variables: Ghost(Seq::empty()) };
        assert(store.bytes@.subrange(0, 4) =~= le_bytes(MAGIC as nat, 4));
        assert(store.bytes@.subrange(HEADER_SIZE as int, store.used as int) =~= encode_all(
            store@,
        ));
        store
    }

    /// The header of the record at `offset`.
    fn header(&self, record: &Record, Ghost(k): Ghost<int>) -> (header: Header)
        requires
            self.wf(),
            0 <= k < self@.len(),
            record.offset == self.offset_of(k),
        ensures
            header.state == STATE_VALID,
            header.attributes == self@[k].attributes,
            header.name_bytes == 2 * self@[k].name.len(),
            header.data_bytes == self@[k].data.len(),
            record.offset + self@[k].size() <= self.used <= STORE_SIZE,
            HEADER_SIZE <= record.offset,
            self@[k].storable(),
            self.bytes@.subrange(record.offset as int, record.offset + self@[k].size())
                == self@[k].encode(),
            self.offset_of(k + 1) == record.offset + self@[k].size(),
    {
        proof {
            self.lemma_record(k);
            lemma_encode_len(self@[k]);
            lemma_fields(self.bytes@, record.offset as int, self@[k]);
        }
        Header {
            state: get_u32(&self.bytes, record.offset),
            attributes: get_u32(&self.bytes, record.offset + 4),
            name_bytes: get_u32(&self.bytes, record.offset + 24),
            data_bytes: get_u32(&self.bytes, record.offset + 28),
        }
    }

    fn guid(&self, record: &Record, Ghost(k): Ghost<int>) -> (guid: Guid)
        requires
            self.wf(),
            0 <= k < self@.len(),
            record.offset == self.offset_of(k),
        ensures
            guid@ == self@[k].guid,
    {
        let _header: Header = self.header(record, Ghost(k));
        proof {
            lemma_fields(self.bytes@, record.offset as int, self@[k]);
        }
        get_16(&self.bytes, record.offset + 8)
    }

    fn name(&self, record: &Record, Ghost(k): Ghost<int>) -> (name: Vec<u16>)
        requires
            self.wf(),
            0 <= k < self@.len(),
            record.offset == self.offset_of(k),
        ensures
            name@ == self@[k].name,
    {
        let header: Header = self.header(record, Ghost(k));
        proof {
            lemma_fields(self.bytes@, record.offset as int, self@[k]);
        }
        let name: Vec<u16> = get_units(
            &self.bytes,
            record.offset + HEADER_SIZE,
            header.name_bytes as usize / 2,
        );
        proof {
            lemma_unit_bytes_injective(name@, self@[k].name);
        }
        name
    }

    fn data(&self, record: &Record, Ghost(k): Ghost<int>) -> (data: Vec<u8>)
        requires
            self.wf(),
            0 <= k < self@.len(),
            record.offset == self.offset_of(k),
        ensures
            data@ == self@[k].data,
    {
        let header: Header = self.header(record, Ghost(k));
        proof {
            lemma_fields(self.bytes@, record.offset as int, self@[k]);
        }
        let start: usize = record.offset + HEADER_SIZE + header.name_bytes as usize;
        copy_range(&self.bytes, start, start + header.data_bytes as usize)
    }

    /// The record's length, padded to a 4-byte boundary.
    fn size(&self, record: &Record, Ghost(k): Ghost<int>) -> (size: usize)
        requires
            self.wf(),
            0 <= k < self@.len(),
            record.offset == self.offset_of(k),
        ensures
            size == self@[k].size(),
            record.offset + size <= self.used,
            record.offset + size == self.offset_of(k + 1),
    {
        let header: Header = self.header(record, Ghost(k));
        (HEADER_SIZE + header.name_bytes as usize + header.data_bytes as usize + 3) / 4 * 4
    }

    /// The first record, if the store has one.
    fn first(&self) -> (record: Option<Record>)
        requires
            self.wf(),
        ensures
            match record {
                Some(record) => self@.len() > 0 && record.offset == self.offset_of(0),
                None => self@.len() == 0,
            },
    {
        proof {
            self.lemma_end();
            if self@.len() > 0 {
                self.lemma_record(0);
                lemma_encode_len(self@[0]);
                self.lemma_monotonic(1, self@.len() as int);
            }
        }
        if self.used <= HEADER_SIZE {
            return None;
        }
        Some(Record { offset: HEADER_SIZE })
    }

    proof fn lemma_monotonic(&self, a: int, b: int)
        requires
            self.wf(),
            0 <= a <= b <= self@.len(),
        ensures
            self.offset_of(a) <= self.offset_of(b),
        decreases b - a,
    {
        if a < b {
            self.lemma_record(a);
            self.lemma_monotonic(a + 1, b);
        }
    }

    /// The record after `record`, in storage - and therefore sorted - order.
    fn next(&self, record: &Record, Ghost(k): Ghost<int>) -> (following: Option<Record>)
        requires
            self.wf(),
            0 <= k < self@.len(),
            record.offset == self.offset_of(k),
        ensures
            match following {
                Some(following) => k + 1 < self@.len() && following.offset == self.offset_of(
                    k + 1,
                ),
                None => k + 1 == self@.len(),
            },
    {
        let following: usize = record.offset + self.size(record, Ghost(k));
        proof {
            self.lemma_end();
            if k + 1 < self@.len() {
                self.lemma_record(k + 1);
                lemma_encode_len(self@[k + 1]);
                self.lemma_monotonic(k + 2, self@.len() as int);
            }
        }
        if following + HEADER_SIZE > self.used {
            return None;
        }
        Some(Record { offset: following })
    }

    /// Finds the record for `(name, guid)`.
    fn find(&self, name: &[u16], guid: &Guid) -> (record: Option<Record>)
        requires
            self.wf(),
        ensures
            match record {
                Some(record) => holds(self@, name@, guid@) && record.offset == self.offset_of(
                    index_of(self@, name@, guid@),
                ) && 0 <= index_of(self@, name@, guid@),
                None => !holds(self@, name@, guid@),
            },
    {
        let ghost p = |v: Variable| v.is(name@, guid@);
        let mut record: Record = match self.first() {
            Some(record) => record,
            None => {
                return None;
            },
        };
        let mut k: Ghost<int> = Ghost(0);
        loop
            invariant
                self.wf(),
                p == (|v: Variable| v.is(name@, guid@)),
                0 <= k@ < self@.len(),
                record.offset == self.offset_of(k@),
                forall|i: int| 0 <= i < k@ ==> !p(#[trigger] self@[i]),
            decreases self@.len() - k@,
        {
            let record_guid: Guid = self.guid(&record, k);
            let record_name: Vec<u16> = self.name(&record, k);
            if same_bytes(&record_guid, guid) && same16(&record_name, name) {
                proof {
                    assert(p(self@[k@]));
                    lemma_first(self@, p, k@);
                }
                return Some(record);
            }
            assert(!p(self@[k@]));
            record = match self.next(&record, k) {
                Some(following) => following,
                None => {
                    proof {
                        lemma_first(self@, p, self@.len() as int);
                    }
                    return None;
                },
            };
            proof {
                k@ = k@ + 1;
            }
        }
    }

    /// `GetVariable`: the attributes and the value.
    pub fn get(&self, name: &[u16], guid: &Guid) -> (found: Option<(u32, Vec<u8>)>)
        requires
            self.wf(),
        ensures
            match found {
                Some((attributes, data)) => {
                    &&& holds(self@, name@, guid@)
                    &&& attributes == self@[index_of(self@, name@, guid@)].attributes
                    &&& data@ == self@[index_of(self@, name@, guid@)].data
                },
                None => !holds(self@, name@, guid@),
            },
    {
        let record: Record = match self.find(name, guid) {
            Some(record) => record,
            None => {
                return None;
            },
        };
        let ghost k = index_of(self@, name@, guid@);
        let header: Header = self.header(&record, Ghost(k));
        Some((header.attributes, self.data(&record, Ghost(k))))
    }

    /// How many variables the store currently holds.
    pub fn count(&self) -> (found: usize)
        requires
            self.wf(),
        ensures
            found == self@.len(),
    {
        proof {
            lemma_used(self@);
            lemma_count(self@);
        }
        let mut found: usize = 0;
        let mut record: Record = match self.first() {
            Some(record) => record,
            None => {
                return 0;
            },
        };
        loop
            invariant
                self.wf(),
                found < self@.len() <= STORE_SIZE,
                record.offset == self.offset_of(found as int),
            decreases self@.len() - found,
        {
            let following: Option<Record> = self.next(&record, Ghost(found as int));
            found = found + 1;
            record = match following {
                Some(following) => following,
                None => {
                    return found;
                },
            };
        }
    }

    /// Puts `with` in place of the bytes from `from` to `to`, moving the records
    /// behind them.
    fn splice(&mut self, from: usize, to: usize, with: &Vec<u8>, Ghost(after): Ghost<Seq<Variable>>)
        requires
            old(self).wf(),
            HEADER_SIZE <= from <= to <= old(self).used,
            old(self).used - (to - from) + with@.len() <= STORE_SIZE,
            ordered(after),
            all_storable(after),
            encode_all(after) == old(self).bytes@.subrange(HEADER_SIZE as int, from as int) + with@
                + old(self).bytes@.subrange(to as int, old(self).used as int),
        ensures
            final(self).wf(),
            final(self)@ == after,
    {
        let ghost before = self.bytes@;
        let used: usize = self.used - (to - from) + with.len();
        let mut bytes: Vec<u8> = copy_range(&self.bytes, 0, from);
        push_slice(&mut bytes, with);
        let tail: Vec<u8> = copy_range(&self.bytes, to, self.used);
        push_slice(&mut bytes, &tail);
        push_fill(&mut bytes, STORE_SIZE - used, 0xff);
        self.bytes = bytes;
        self.used = used;
        self.variables = Ghost(after);
        assert(self.bytes@.subrange(HEADER_SIZE as int, used as int) =~= before.subrange(
            HEADER_SIZE as int,
            from as int,
        ) + with@ + tail@);
        assert(self.bytes@.subrange(0, 4) =~= before.subrange(0, 4));
    }

    /// `SetVariable`. A zero-length value deletes the variable, as the
    /// specification requires.
    pub fn set(&mut self, name: &[u16], guid: &Guid, attributes: u32, data: &[u8]) -> (status:
        Status)
        requires
            old(self).wf(),
        ensures
            final(self).wf(),
            ({
                let v = Variable { name: name@, guid: guid@, attributes, data: data@ };
                let here = holds(old(self)@, name@, guid@);
                if name@.len() == 0 {
                    status == Status::InvalidParameter && final(self)@ == old(self)@
                } else if 2 * name@.len() + data@.len() > MAX_VARIABLE_SIZE {
                    status == Status::OutOfResources && final(self)@ == old(self)@
                } else if data@.len() == 0 && here {
                    status == Status::Success && final(self)@ == old(self)@.remove(
                        index_of(old(self)@, name@, guid@),
                    )
                } else if data@.len() == 0 {
                    status == Status::NotFound && final(self)@ == old(self)@
                } else if room_for(old(self)@, v) {
                    status == Status::Success && final(self)@ == stored(old(self)@, v)
                } else {
                    status == Status::OutOfResources && final(self)@ == old(self)@
                }
            }),
    {
        if name.len() == 0 {
            return Status::InvalidParameter;
        }
        if name.len() > MAX_VARIABLE_SIZE || data.len() > MAX_VARIABLE_SIZE || name.len() * 2
            + data.len() > MAX_VARIABLE_SIZE {
            return Status::OutOfResources;
        }
        let wanted: usize = (HEADER_SIZE + name.len() * 2 + data.len() + 3) / 4 * 4;
        let ghost s = self@;
        let ghost k = index_of(s, name@, guid@);
        let found: Option<Record> = self.find(name, guid);

        if data.len() == 0 {
            return match found {
                Some(record) => {
                    self.delete(&record, Ghost(k));
                    Status::Success
                },
                None => Status::NotFound,
            };
        }
        let ghost v = Variable { name: name@, guid: guid@, attributes, data: data@ };
        proof {
            assert(guid@.len() == 16);
            assert(v.storable());
            self.lemma_end();
        }
        match found {
            Some(record) => {
                // The same variable: the new record takes the place of the old
                // one, so a variable an application refreshes does not move.
                let header: Header = self.header(&record, Ghost(k));
                let size: usize = self.size(&record, Ghost(k));
                if !(header.attributes == attributes && wanted <= size) && self.used + wanted
                    > STORE_SIZE {
                    return Status::OutOfResources;
                }
                let with: Vec<u8> = encode(name, guid, attributes, data);
                self.replace(&record, &with, Ghost(k), Ghost(v));
            },
            None => {
                if self.used + wanted > STORE_SIZE {
                    return Status::OutOfResources;
                }
                let with: Vec<u8> = encode(name, guid, attributes, data);
                self.insert(name, guid, &with, Ghost(v));
            },
        }
        Status::Success
    }

    /// Drops a record by moving the ones after it down.
    fn delete(&mut self, record: &Record, Ghost(k): Ghost<int>)
        requires
            old(self).wf(),
            0 <= k < old(self)@.len(),
            record.offset == old(self).offset_of(k),
        ensures
            final(self).wf(),
            final(self)@ == old(self)@.remove(k),
    {
        let ghost s = self@;
        let size: usize = self.size(record, Ghost(k));
        let nothing: Vec<u8> = Vec::new();
        let ghost after = s.remove(k);
        proof {
            self.lemma_around(k);
            self.lemma_record(k);
            lemma_removed_ordered(s, k);
            let front = s.subrange(0, k);
            let back = s.subrange(k + 1, s.len() as int);
            assert(after =~= front + back);
            lemma_encode_all_add(front, back);
            assert forall|i: int| 0 <= i < after.len() implies (#[trigger] after[i]).storable() by {
                assert(after[i] == if i < k { s[i] } else { s[i + 1] });
            }
            assert(encode_all(front) + nothing@ =~= encode_all(front));
        }
        self.splice(record.offset, record.offset + size, &nothing, Ghost(after));
    }

    /// Puts the record of `v` in place of the `k`-th.
    fn replace(
        &mut self,
        record: &Record,
        with: &Vec<u8>,
        Ghost(k): Ghost<int>,
        Ghost(v): Ghost<Variable>,
    )
        requires
            old(self).wf(),
            v.storable(),
            with@ == v.encode(),
            holds(old(self)@, v.name, v.guid),
            0 <= k,
            k == index_of(old(self)@, v.name, v.guid),
            record.offset == old(self).offset_of(k),
            v.size() <= old(self)@[k].size() || old(self).used + v.size() <= STORE_SIZE,
        ensures
            final(self).wf(),
            final(self)@ == stored(old(self)@, v),
    {
        let ghost s = self@;
        let size: usize = self.size(record, Ghost(k));
        let ghost after = stored(s, v);
        proof {
            self.lemma_around(k);
            self.lemma_record(k);
            lemma_encode_len(v);
            lemma_stored_ordered(s, v);
            let front = s.subrange(0, k);
            let back = s.subrange(k + 1, s.len() as int);
            assert(after =~= front + seq![v] + back);
            lemma_encode_all_add(front + seq![v], back);
            lemma_encode_all_add(front, seq![v]);
            lemma_encode_one(v);
            assert forall|i: int| 0 <= i < after.len() implies (#[trigger] after[i]).storable() by {
                assert(i != k ==> after[i] == s[i]);
            }
        }
        self.splice(record.offset, record.offset + size, with, Ghost(after));
    }

    /// The bytes with the record of `v` inserted at its place.
    proof fn lemma_inserted(&self, v: Variable)
        requires
            self.wf(),
            v.storable(),
            !holds(self@, v.name, v.guid),
        ensures
            ({
                let at = first(self@, |x: Variable| v.before(x));
                &&& 0 <= at <= self@.len()
                &&& HEADER_SIZE <= self.offset_of(at) <= self.used
                &&& encode_all(stored(self@, v)) == self.bytes@.subrange(
                    HEADER_SIZE as int,
                    self.offset_of(at),
                ) + v.encode() + self.bytes@.subrange(self.offset_of(at), self.used as int)
            }),
            ordered(stored(self@, v)),
            all_storable(stored(self@, v)),
    {
        let p = |x: Variable| v.before(x);
        let at = first(self@, p);
        lemma_first_is(self@, p);
        self.lemma_between(at);
        lemma_stored_ordered(self@, v);
        lemma_encode_insert(self@, at, v);
    }

    /// Inserts the record of `v`, keeping records sorted by (name, GUID), which
    /// is the order the iteration API must present.
    fn insert(&mut self, name: &[u16], guid: &Guid, with: &Vec<u8>, Ghost(v): Ghost<Variable>)
        requires
            old(self).wf(),
            v.name == name@,
            v.guid == guid@,
            v.storable(),
            with@ == v.encode(),
            !holds(old(self)@, v.name, v.guid),
            old(self).used + v.size() <= STORE_SIZE,
        ensures
            final(self).wf(),
            final(self)@ == stored(old(self)@, v),
    {
        let ghost after = stored(self@, v);
        let position: usize = self.insertion_point(name, guid, Ghost(v));
        proof {
            self.lemma_inserted(v);
            lemma_encode_len(v);
        }
        self.splice(position, position, with, Ghost(after));
    }

    /// The bytes in front of the `k`-th record and behind it.
    proof fn lemma_around(&self, k: int)
        requires
            self.wf(),
            0 <= k < self@.len(),
        ensures
            self.bytes@.subrange(HEADER_SIZE as int, self.offset_of(k)) == encode_all(
                self@.subrange(0, k),
            ),
            self.bytes@.subrange(self.offset_of(k) + self@[k].size(), self.used as int)
                == encode_all(self@.subrange(k + 1, self@.len() as int)),
    {
        lemma_split(self@, k);
        self.lemma_end();
        self.lemma_record(k);
        lemma_encode_len(self@[k]);
        let front = encode_all(self@.subrange(0, k));
        let back = encode_all(self@.subrange(k + 1, self@.len() as int));
        let n = self.used - HEADER_SIZE;
        let own = self@[k].size();
        lemma_inner(self.bytes@, HEADER_SIZE as int, n, 0, front.len() as int);
        lemma_inner(self.bytes@, HEADER_SIZE as int, n, (front.len() + own) as int, n);
        assert(encode_all(self@).subrange(0, front.len() as int) =~= front);
        assert(encode_all(self@).subrange((front.len() + own) as int, n) =~= back);
    }

    /// The bytes in front of where the `k`-th record starts, or the records end,
    /// and from there on.
    proof fn lemma_between(&self, k: int)
        requires
            self.wf(),
            0 <= k <= self@.len(),
        ensures
            HEADER_SIZE <= self.offset_of(k) <= self.used,
            self.bytes@.subrange(HEADER_SIZE as int, self.offset_of(k)) == encode_all(
                self@.subrange(0, k),
            ),
            self.bytes@.subrange(self.offset_of(k), self.used as int) == encode_all(
                self@.subrange(k, self@.len() as int),
            ),
    {
        self.lemma_end();
        let front = self@.subrange(0, k);
        let back = self@.subrange(k, self@.len() as int);
        assert(self@ =~= front + back);
        lemma_encode_all_add(front, back);
        let n = self.used - HEADER_SIZE;
        let m = encode_all(front).len() as int;
        lemma_inner(self.bytes@, HEADER_SIZE as int, n, 0, m);
        lemma_inner(self.bytes@, HEADER_SIZE as int, n, m, n);
        assert(encode_all(self@).subrange(0, m) =~= encode_all(front));
        assert(encode_all(self@).subrange(m, n) =~= encode_all(back));
    }

    /// The offset of the first record that comes after `(name, guid)`.
    fn insertion_point(&self, name: &[u16], guid: &Guid, Ghost(v): Ghost<Variable>) -> (position:
        usize)
        requires
            self.wf(),
            v.name == name@,
            v.guid == guid@,
        ensures
            position == self.offset_of(first(self@, |x: Variable| v.before(x))),
    {
        let ghost p = |x: Variable| v.before(x);
        let mut record: Record = match self.first() {
            Some(record) => record,
            None => {
                proof {
                    lemma_first(self@, p, 0);
                    self.lemma_end();
                }
                return HEADER_SIZE;
            },
        };
        let mut k: Ghost<int> = Ghost(0);
        loop
            invariant
                self.wf(),
                p == (|x: Variable| v.before(x)),
                v.name == name@,
                v.guid == guid@,
                0 <= k@ < self@.len(),
                record.offset == self.offset_of(k@),
                forall|i: int| 0 <= i < k@ ==> !p(#[trigger] self@[i]),
            decreases self@.len() - k@,
        {
            let record_guid: Guid = self.guid(&record, k);
            let record_name: Vec<u16> = self.name(&record, k);
            if less16(name, &record_name) || (same16(&record_name, name) && less8(
                guid,
                &record_guid,
            )) {
                proof {
                    assert(p(self@[k@]));
                    lemma_first(self@, p, k@);
                }
                return record.offset;
            }
            assert(!p(self@[k@]));
            record = match self.next(&record, k) {
                Some(following) => following,
                None => {
                    proof {
                        lemma_first(self@, p, self@.len() as int);
                        self.lemma_end();
                    }
                    return self.used;
                },
            };
            proof {
                k@ = k@ + 1;
            }
        }
    }

    /// `GetNextVariableName`: walks the store in order. A terminator at the start
    /// of `name` means "start at the beginning". `size` is the room the caller
    /// has for the next name, in bytes.
    pub fn next_name(&self, size: usize, name: &[u16], guid: &Guid) -> (answer: NextName)
        requires
            self.wf(),
        ensures
            ({
                let end = first(name@, |unit: u16| unit == 0);
                let next = next_index(self@, name@.subrange(0, end), guid@);
                if end >= name@.len() || end > MAX_VARIABLE_SIZE {
                    answer is InvalidParameter
                } else if next >= self@.len() {
                    answer is NotFound
                } else {
                    let needed = 2 * (self@[next].name.len() + 1);
                    match answer {
                        NextName::BufferTooSmall(bytes) => size < needed && bytes == needed,
                        NextName::Found(found, found_guid, bytes) => size >= needed && bytes
                            == needed && found@ == self@[next].name && found_guid@
                            == self@[next].guid,
                        _ => false,
                    }
                }
            }),
    {
        let ghost zero = |unit: u16| unit == 0;
        let mut units: usize = 0;
        while units < name.len() && units <= MAX_VARIABLE_SIZE && name[units] != 0
            invariant
                units <= name@.len(),
                units <= MAX_VARIABLE_SIZE + 1,
                zero == (|unit: u16| unit == 0),
                forall|i: int| 0 <= i < units ==> !zero(#[trigger] name@[i]),
            decreases name@.len() - units,
        {
            units = units + 1;
        }
        proof {
            lemma_first_is(name@, zero);
            if units < name@.len() && name@[units as int] == 0 {
                lemma_first(name@, zero, units as int);
            }
        }
        if units >= name.len() || units > MAX_VARIABLE_SIZE {
            return NextName::InvalidParameter;
        }
        let ghost end = first(name@, zero);
        let mut record: Record = match self.first() {
            Some(record) => record,
            None => {
                proof {
                    let wanted = name@.subrange(0, end);
                    lemma_first_is(self@, |v: Variable| v.is(wanted, guid@));
                }
                return NextName::NotFound;
            },
        };
        let ghost mut at: int = 0;
        if units > 0 {
            // Skip past the variable the caller just saw.
            let previous: Vec<u16> = copy_units(name, 0, units);
            proof {
                lemma_first_is(self@, |v: Variable| v.is(previous@, guid@));
            }
            let seen: Record = match self.find(&previous, guid) {
                Some(seen) => seen,
                None => {
                    return NextName::NotFound;
                },
            };
            proof {
                at = index_of(self@, previous@, guid@) + 1;
            }
            record = match self.next(&seen, Ghost((at - 1) as int)) {
                Some(following) => following,
                None => {
                    return NextName::NotFound;
                },
            };
        }
        let found: Vec<u16> = self.name(&record, Ghost(at));
        assert(self@[at].storable());
        let bytes: usize = (found.len() + 1) * 2;
        if size < bytes {
            return NextName::BufferTooSmall(bytes);
        }
        let found_guid: Guid = self.guid(&record, Ghost(at));
        NextName::Found(found, found_guid, bytes)
    }

    /// `QueryVariableInfo`: what the store holds, what is left of it, and the
    /// largest variable it takes.
    pub fn query_info(&self) -> (info: (u64, u64, u64))
        requires
            self.wf(),
        ensures
            info.0 == STORE_SIZE,
            info.1 == STORE_SIZE - used(self@),
            info.2 == MAX_VARIABLE_SIZE,
    {
        proof {
            self.lemma_end();
        }
        (STORE_SIZE as u64, (STORE_SIZE - self.used) as u64, MAX_VARIABLE_SIZE as u64)
    }
}

/// The record of a variable.
fn encode(name: &[u16], guid: &Guid, attributes: u32, data: &[u8]) -> (record: Vec<u8>)
    requires
        2 * name@.len() + data@.len() <= MAX_VARIABLE_SIZE,
    ensures
        record@ == (Variable { name: name@, guid: guid@, attributes, data: data@ }).encode(),
{
    let size: usize = (HEADER_SIZE + name.len() * 2 + data.len() + 3) / 4 * 4;
    let mut record: Vec<u8> = Vec::new();
    push_le(&mut record, STATE_VALID as u64, 4);
    push_le(&mut record, attributes as u64, 4);
    push_slice(&mut record, guid);
    push_le(&mut record, 2 * name.len() as u64, 4);
    push_le(&mut record, data.len() as u64, 4);
    push_units(&mut record, name);
    push_slice(&mut record, data);
    push_fill(&mut record, size - HEADER_SIZE - name.len() * 2 - data.len(), 0);
    assert(record@ =~= (Variable { name: name@, guid: guid@, attributes, data: data@ }).encode());
    record
}

/// Walking from the empty name hands out every variable, in order and once:
/// the walk starts at the first, and goes from each to the one behind it.
pub proof fn law_walk_in_order(s: Seq<Variable>, k: int, guid: Seq<u8>)
    requires
        ordered(s),
        0 <= k < s.len(),
        s[k].storable(),
    ensures
        next_index(s, Seq::<u16>::empty(), guid) == 0,
        next_index(s, s[k].name, s[k].guid) == k + 1,
{
    lemma_index(s, k);
}

/// Whether the store accepts writes of the given attribute combination.
pub fn attributes_are_valid(attributes: u32) -> (valid: bool)
    ensures
        valid == (1 <= attributes <= (VARIABLE_NON_VOLATILE | VARIABLE_BOOTSERVICE_ACCESS
            | VARIABLE_RUNTIME_ACCESS)),
{
    assert(1u32 | 2u32 | 4u32 == 7u32) by (bit_vector);
    assert(attributes & !7u32 == 0 <==> attributes <= 7) by (bit_vector);
    let known: u32 = VARIABLE_NON_VOLATILE | VARIABLE_BOOTSERVICE_ACCESS | VARIABLE_RUNTIME_ACCESS;
    attributes != 0 && attributes & !known == 0
}

} // verus!
