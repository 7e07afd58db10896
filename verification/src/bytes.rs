//! Byte buffers: little-endian and big-endian numbers inside them, and writing
//! runs of bytes over or after what is there.
use vstd::arithmetic::power::pow;
use vstd::prelude::*;

verus! {

/// The number a byte string spells, low byte first.
pub open spec fn le_value(s: Seq<u8>) -> nat
    decreases s.len(),
{
    if s.len() == 0 {
        0
    } else {
        s[0] as nat + 256 * le_value(s.drop_first())
    }
}

/// The number a byte string spells, high byte first.
pub open spec fn be_value(s: Seq<u8>) -> nat
    decreases s.len(),
{
    if s.len() == 0 {
        0
    } else {
        256 * be_value(s.drop_last()) + s.last() as nat
    }
}

/// The `n` low bytes of `v`, low byte first.
pub open spec fn le_bytes(v: nat, n: nat) -> Seq<u8>
    decreases n,
{
    if n == 0 {
        Seq::empty()
    } else {
        seq![(v % 256) as u8] + le_bytes(v / 256, (n - 1) as nat)
    }
}

/// The `n`-byte little-endian number at `at`.
pub open spec fn le_at(s: Seq<u8>, at: int, n: int) -> nat {
    le_value(s.subrange(at, at + n))
}

/// The `n`-byte big-endian number at `at`.
pub open spec fn be_at(s: Seq<u8>, at: int, n: int) -> nat {
    be_value(s.subrange(at, at + n))
}

/// `s` with the bytes from `at` on replaced by `b`.
pub open spec fn put(s: Seq<u8>, at: int, b: Seq<u8>) -> Seq<u8> {
    Seq::new(s.len(), |i: int| if at <= i < at + b.len() { b[i - at] } else { s[i] })
}

/// `n` copies of `b`.
pub open spec fn fill(n: nat, b: u8) -> Seq<u8> {
    Seq::new(n, |i: int| b)
}

/// A part of a part.
pub proof fn lemma_inner<A>(s: Seq<A>, at: int, n: int, a: int, b: int)
    requires
        0 <= at,
        at + n <= s.len(),
        0 <= a <= b <= n,
    ensures
        s.subrange(at, at + n).subrange(a, b) == s.subrange(at + a, at + b),
{
    assert(s.subrange(at, at + n).subrange(a, b) =~= s.subrange(at + a, at + b));
}

pub proof fn lemma_le_bytes_len(v: nat, n: nat)
    ensures
        le_bytes(v, n).len() == n,
    decreases n,
{
    if n > 0 {
        lemma_le_bytes_len(v / 256, (n - 1) as nat);
    }
}

/// Reading back the bytes of a number gives the number.
pub proof fn lemma_le_value_of_bytes(v: nat, n: nat)
    requires
        v < pow(256, n),
    ensures
        le_value(le_bytes(v, n)) == v,
        le_bytes(v, n).len() == n,
    decreases n,
{
    reveal(pow);
    if n > 0 {
        lemma_le_bytes_len(v / 256, (n - 1) as nat);
        assert(le_bytes(v, n).drop_first() =~= le_bytes(v / 256, (n - 1) as nat));
        assert(pow(256, n) == 256 * pow(256, (n - 1) as nat));
        lemma_le_value_of_bytes(v / 256, (n - 1) as nat);
    }
}

/// The limits of the widths this library uses.
pub proof fn lemma_widths()
    ensures
        pow(256, 1) == 0x100,
        pow(256, 2) == 0x1_0000,
        pow(256, 3) == 0x100_0000,
        pow(256, 4) == 0x1_0000_0000,
        pow(256, 8) == 0x1_0000_0000_0000_0000,
{
    reveal_with_fuel(pow, 9);
}

pub proof fn lemma_le_value_2(s: Seq<u8>)
    requires
        s.len() == 2,
    ensures
        le_value(s) == s[0] + 256 * s[1],
{
    reveal_with_fuel(le_value, 3);
}

pub proof fn lemma_le_value_3(s: Seq<u8>)
    requires
        s.len() == 3,
    ensures
        le_value(s) == s[0] + 256 * s[1] + 0x1_0000 * s[2],
{
    reveal_with_fuel(le_value, 4);
}

pub proof fn lemma_le_value_4(s: Seq<u8>)
    requires
        s.len() == 4,
    ensures
        le_value(s) == s[0] + 256 * s[1] + 0x1_0000 * s[2] + 0x100_0000 * s[3],
{
    reveal_with_fuel(le_value, 5);
}

pub proof fn lemma_le_value_8(s: Seq<u8>)
    requires
        s.len() == 8,
    ensures
        le_value(s) == le_value(s.subrange(0, 4)) + 0x1_0000_0000 * le_value(s.subrange(4, 8)),
{
    reveal_with_fuel(le_value, 9);
    lemma_le_value_4(s.subrange(0, 4));
    lemma_le_value_4(s.subrange(4, 8));
}

pub proof fn lemma_be_value_4(s: Seq<u8>)
    requires
        s.len() == 4,
    ensures
        be_value(s) == s[3] + 256 * s[2] + 0x1_0000 * s[1] + 0x100_0000 * s[0],
{
    reveal_with_fuel(be_value, 5);
}

/// The little-endian 16-bit number at `at`.
pub fn get_u16(data: &[u8], at: usize) -> (value: u16)
    requires
        at + 2 <= data@.len(),
    ensures
        value == le_at(data@, at as int, 2),
{
    proof {
        lemma_le_value_2(data@.subrange(at as int, at + 2));
    }
    data[at] as u16 + 256 * (data[at + 1] as u16)
}

/// The little-endian 24-bit number at `at`.
pub fn get_u24(data: &[u8], at: usize) -> (value: u32)
    requires
        at + 3 <= data@.len(),
    ensures
        value == le_at(data@, at as int, 3),
{
    proof {
        lemma_le_value_3(data@.subrange(at as int, at + 3));
    }
    data[at] as u32 + 256 * (data[at + 1] as u32) + 0x1_0000 * (data[at + 2] as u32)
}

/// The little-endian 32-bit number at `at`.
pub fn get_u32(data: &[u8], at: usize) -> (value: u32)
    requires
        at + 4 <= data@.len(),
    ensures
        value == le_at(data@, at as int, 4),
{
    proof {
        lemma_le_value_4(data@.subrange(at as int, at + 4));
    }
    data[at] as u32 + 256 * (data[at + 1] as u32) + 0x1_0000 * (data[at + 2] as u32)
        + 0x100_0000 * (data[at + 3] as u32)
}

/// The little-endian 64-bit number at `at`.
pub fn get_u64(data: &[u8], at: usize) -> (value: u64)
    requires
        at + 8 <= data@.len(),
    ensures
        value == le_at(data@, at as int, 8),
{
    proof {
        let s = data@.subrange(at as int, at + 8);
        lemma_le_value_8(s);
        assert(s.subrange(0, 4) =~= data@.subrange(at as int, at + 4));
        assert(s.subrange(4, 8) =~= data@.subrange(at + 4, at + 8));
    }
    let _size: usize = data.len();
    let low: u32 = get_u32(data, at);
    let high: u32 = get_u32(data, at + 4);
    low as u64 + 0x1_0000_0000 * (high as u64)
}

/// The big-endian 32-bit number at `at`.
pub fn get_be32(data: &[u8], at: usize) -> (value: u32)
    requires
        at + 4 <= data@.len(),
    ensures
        value == be_at(data@, at as int, 4),
{
    proof {
        lemma_be_value_4(data@.subrange(at as int, at + 4));
    }
    let _size: usize = data.len();
    data[at + 3] as u32 + 256 * (data[at + 2] as u32) + 0x1_0000 * (data[at + 1] as u32)
        + 0x100_0000 * (data[at] as u32)
}

/// Appends the `count` low bytes of `value`, low byte first.
pub fn push_le(out: &mut Vec<u8>, value: u64, count: usize)
    ensures
        final(out)@ == old(out)@ + le_bytes(value as nat, count as nat),
{
    let mut rest: u64 = value;
    let mut done: usize = 0;
    assert(out@ + le_bytes(rest as nat, count as nat) =~= old(out)@ + le_bytes(value as nat, count as nat));
    while done < count
        invariant
            done <= count,
            out@ + le_bytes(rest as nat, (count - done) as nat) == old(out)@ + le_bytes(
                value as nat,
                count as nat,
            ),
        decreases count - done,
    {
        let ghost before = out@;
        out.push((rest % 256) as u8);
        proof {
            let n = (count - done) as nat;
            assert(le_bytes(rest as nat, n) == seq![(rest % 256) as u8] + le_bytes(
                (rest / 256) as nat,
                (n - 1) as nat,
            ));
            assert(out@ + le_bytes((rest / 256) as nat, (n - 1) as nat) =~= before + le_bytes(
                rest as nat,
                n,
            ));
        }
        rest = rest / 256;
        done = done + 1;
    }
    assert(out@ =~= out@ + le_bytes(rest as nat, 0));
}

/// Appends `more`.
pub fn push_slice(out: &mut Vec<u8>, more: &[u8])
    ensures
        final(out)@ == old(out)@ + more@,
{
    let mut done: usize = 0;
    while done < more.len()
        invariant
            done <= more@.len(),
            out@ == old(out)@ + more@.subrange(0, done as int),
        decreases more@.len() - done,
    {
        out.push(more[done]);
        assert(more@.subrange(0, done + 1) =~= more@.subrange(0, done as int).push(more@[done as int]));
        done = done + 1;
    }
    assert(more@.subrange(0, done as int) =~= more@);
}

/// Appends `count` copies of `byte`.
pub fn push_fill(out: &mut Vec<u8>, count: usize, byte: u8)
    ensures
        final(out)@ == old(out)@ + fill(count as nat, byte),
{
    let mut done: usize = 0;
    while done < count
        invariant
            done <= count,
            out@ == old(out)@ + fill(done as nat, byte),
        decreases count - done,
    {
        out.push(byte);
        assert(fill((done + 1) as nat, byte) =~= fill(done as nat, byte).push(byte));
        done = done + 1;
    }
}

/// Overwrites the bytes from `at` on with `with`.
pub fn put_slice(out: &mut Vec<u8>, at: usize, with: &[u8])
    requires
        at + with@.len() <= old(out)@.len(),
    ensures
        final(out)@ == put(old(out)@, at as int, with@),
{
    let size: usize = out.len();
    let mut done: usize = 0;
    while done < with.len()
        invariant
            done <= with@.len(),
            at + with@.len() <= size,
            size == out@.len(),
            out@ == put(old(out)@, at as int, with@.subrange(0, done as int)),
        decreases with@.len() - done,
    {
        out.set(at + done, with[done]);
        assert(out@ =~= put(old(out)@, at as int, with@.subrange(0, done + 1)));
        done = done + 1;
    }
    assert(with@.subrange(0, done as int) =~= with@);
}

/// Overwrites the `count` bytes at `at` with the low bytes of `value`, low byte
/// first.
pub fn put_le(out: &mut Vec<u8>, at: usize, value: u64, count: usize)
    requires
        at + count <= old(out)@.len(),
    ensures
        final(out)@ == put(old(out)@, at as int, le_bytes(value as nat, count as nat)),
{
    let mut bytes: Vec<u8> = Vec::new();
    push_le(&mut bytes, value, count);
    proof {
        lemma_le_bytes_len(value as nat, count as nat);
        assert(bytes@ =~= le_bytes(value as nat, count as nat));
    }
    put_slice(out, at, &bytes);
}

/// A copy of the bytes from `from` to `to`.
pub fn copy_range(data: &[u8], from: usize, to: usize) -> (copy: Vec<u8>)
    requires
        from <= to <= data@.len(),
    ensures
        copy@ == data@.subrange(from as int, to as int),
{
    let mut copy: Vec<u8> = Vec::new();
    let mut next: usize = from;
    while next < to
        invariant
            from <= next <= to <= data@.len(),
            copy@ == data@.subrange(from as int, next as int),
        decreases to - next,
    {
        copy.push(data[next]);
        next = next + 1;
        assert(copy@ =~= data@.subrange(from as int, next as int));
    }
    copy
}

/// Whether the bytes at `at` are `want`.
pub fn matches_at(data: &[u8], at: usize, want: &[u8]) -> (same: bool)
    requires
        at + want@.len() <= data@.len(),
    ensures
        same == (data@.subrange(at as int, at + want@.len()) == want@),
{
    let size: usize = data.len();
    let mut done: usize = 0;
    while done < want.len()
        invariant
            done <= want@.len(),
            at + want@.len() <= size,
            size == data@.len(),
            forall|i: int| 0 <= i < done ==> data@[at + i] == want@[i],
        decreases want@.len() - done,
    {
        if data[at + done] != want[done] {
            assert(data@.subrange(at as int, at + want@.len())[done as int] != want@[done as int]);
            return false;
        }
        done = done + 1;
    }
    assert(data@.subrange(at as int, at + want@.len()) =~= want@);
    true
}

/// Whether two byte strings are the same.
pub fn same_bytes(a: &[u8], b: &[u8]) -> (same: bool)
    ensures
        same == (a@ == b@),
{
    if a.len() != b.len() {
        return false;
    }
    assert(a@.subrange(0, b@.len() as int) =~= a@);
    matches_at(a, 0, b)
}

/// 16-bit units as they lie in memory, each low byte first.
pub open spec fn unit_bytes(u: Seq<u16>) -> Seq<u8> {
    Seq::new(
        2 * u.len(),
        |i: int|
            if i % 2 == 0 {
                (u[i / 2] % 256) as u8
            } else {
                (u[i / 2] / 256) as u8
            },
    )
}

/// Appends 16-bit units, each low byte first.
pub fn push_units(out: &mut Vec<u8>, units: &[u16])
    ensures
        final(out)@ == old(out)@ + unit_bytes(units@),
{
    let mut done: usize = 0;
    assert(out@ =~= old(out)@ + unit_bytes(units@.subrange(0, 0)));
    while done < units.len()
        invariant
            done <= units@.len(),
            out@ == old(out)@ + unit_bytes(units@.subrange(0, done as int)),
        decreases units@.len() - done,
    {
        let unit: u16 = units[done];
        out.push((unit % 256) as u8);
        out.push((unit / 256) as u8);
        done = done + 1;
        assert(out@ =~= old(out)@ + unit_bytes(units@.subrange(0, done as int)));
    }
    assert(units@.subrange(0, done as int) =~= units@);
}

/// The `count` units that start at `at`.
pub fn get_units(data: &[u8], at: usize, count: usize) -> (units: Vec<u16>)
    requires
        at + 2 * count <= data@.len(),
    ensures
        units@.len() == count,
        unit_bytes(units@) == data@.subrange(at as int, at + 2 * count),
{
    let size: usize = data.len();
    let mut units: Vec<u16> = Vec::new();
    assert(unit_bytes(units@) =~= data@.subrange(at as int, at as int));
    while units.len() < count
        invariant
            units@.len() <= count,
            at + 2 * count <= size,
            size == data@.len(),
            unit_bytes(units@) == data@.subrange(at as int, at + 2 * units@.len()),
        decreases count - units@.len(),
    {
        let from: usize = at + 2 * units.len();
        let ghost before = units@;
        units.push(data[from] as u16 + 256 * (data[from + 1] as u16));
        proof {
            assert forall|i: int| 0 <= i < 2 * units@.len() implies unit_bytes(units@)[i]
                == data@.subrange(at as int, at + 2 * units@.len())[i] by {
                if i < 2 * before.len() {
                    assert(unit_bytes(units@)[i] == unit_bytes(before)[i]);
                    assert(unit_bytes(before)[i] == data@.subrange(
                        at as int,
                        at + 2 * before.len(),
                    )[i]);
                }
            }
            assert(unit_bytes(units@) =~= data@.subrange(at as int, at + 2 * units@.len()));
        }
    }
    units
}

/// Different units lie in memory differently.
pub proof fn lemma_unit_bytes_injective(a: Seq<u16>, b: Seq<u16>)
    requires
        unit_bytes(a) == unit_bytes(b),
    ensures
        a == b,
{
    assert(unit_bytes(a).len() == 2 * a.len() && unit_bytes(b).len() == 2 * b.len());
    assert forall|i: int| 0 <= i < a.len() implies a[i] == b[i] by {
        assert(unit_bytes(a)[2 * i] == unit_bytes(b)[2 * i]);
        assert(unit_bytes(a)[2 * i + 1] == unit_bytes(b)[2 * i + 1]);
        assert((2 * i) / 2 == i && (2 * i + 1) / 2 == i);
        assert((2 * i) % 2 == 0 && (2 * i + 1) % 2 == 1);
        assert(unit_bytes(a)[2 * i] == (a[i] % 256) as u8);
        assert(unit_bytes(b)[2 * i] == (b[i] % 256) as u8);
        assert(unit_bytes(a)[2 * i + 1] == (a[i] / 256) as u8);
        assert(unit_bytes(b)[2 * i + 1] == (b[i] / 256) as u8);
        assert(a[i] % 256 == b[i] % 256 && a[i] / 256 == b[i] / 256);
    }
    assert(a =~= b);
}

/// The sixteen bytes at `at`.
pub fn get_16(data: &[u8], at: usize) -> (sixteen: [u8; 16])
    requires
        at + 16 <= data@.len(),
    ensures
        sixteen@ == data@.subrange(at as int, at + 16),
{
    let size: usize = data.len();
    let mut sixteen: [u8; 16] = [0; 16];
    let mut i: usize = 0;
    while i < 16
        invariant
            i <= 16,
            at + 16 <= size,
            size == data@.len(),
            forall|j: int| 0 <= j < i ==> sixteen@[j] == data@[at + j],
        decreases 16 - i,
    {
        sixteen[i] = data[at + i];
        i = i + 1;
    }
    assert(sixteen@ =~= data@.subrange(at as int, at + 16));
    sixteen
}

} // verus!
