//! CRC-32 as UEFI, GPT and FAT use it: reflected polynomial 0xEDB88320.
use vstd::prelude::*;

verus! {

/// One bit of the division.
pub open spec fn crc_bit(value: u32) -> u32 {
    if value & 1 == 1 {
        (value >> 1) ^ 0xedb8_8320
    } else {
        value >> 1
    }
}

/// `n` bits of the division.
pub open spec fn crc_bits(value: u32, n: nat) -> u32
    decreases n,
{
    if n == 0 {
        value
    } else {
        crc_bit(crc_bits(value, (n - 1) as nat))
    }
}

/// The remainder after the bytes `s`, from all ones.
pub open spec fn crc_remainder(s: Seq<u8>) -> u32
    decreases s.len(),
{
    if s.len() == 0 {
        0xffff_ffff
    } else {
        crc_bits(crc_remainder(s.drop_last()) ^ s.last() as u32, 8)
    }
}

/// The CRC-32 of the bytes `s`.
pub open spec fn crc(s: Seq<u8>) -> u32 {
    !crc_remainder(s)
}

/// The CRC-32 of `bytes`.
pub fn crc32(bytes: &[u8]) -> (sum: u32)
    ensures
        sum == crc(bytes@),
{
    let mut value: u32 = 0xffff_ffff;
    let mut next: usize = 0;
    assert(bytes@.subrange(0, 0) =~= Seq::<u8>::empty());
    while next < bytes.len()
        invariant
            next <= bytes@.len(),
            value == crc_remainder(bytes@.subrange(0, next as int)),
        decreases bytes@.len() - next,
    {
        let ghost before = value;
        value = value ^ (bytes[next] as u32);
        let ghost mixed = value;
        let mut bit: u32 = 0;
        while bit < 8
            invariant
                bit <= 8,
                value == crc_bits(mixed, bit as nat),
            decreases 8 - bit,
        {
            let ghost old_value = value;
            let mask: u32 = if value & 1 == 1 {
                0xffff_ffff
            } else {
                0
            };
            proof {
                assert(old_value & 1 == 1 || old_value & 1 == 0) by (bit_vector);
                assert(0xedb8_8320u32 & 0xffff_ffffu32 == 0xedb8_8320u32) by (bit_vector);
                assert((old_value >> 1) ^ (0xedb8_8320u32 & 0u32) == old_value >> 1)
                    by (bit_vector);
            }
            value = (value >> 1) ^ (0xedb8_8320 & mask);
            bit = bit + 1;
        }
        proof {
            let whole = bytes@.subrange(0, next + 1);
            assert(whole.drop_last() =~= bytes@.subrange(0, next as int));
            assert(whole.last() == bytes@[next as int]);
        }
        next = next + 1;
    }
    assert(bytes@.subrange(0, next as int) =~= bytes@);
    !value
}

/// No two values come to the same by one bit of the division.
proof fn lemma_bit_differs(a: u32, b: u32)
    requires
        a != b,
    ensures
        crc_bit(a) != crc_bit(b),
{
    assert((if a & 1 == 1 {
        (a >> 1) ^ 0xedb8_8320
    } else {
        a >> 1
    }) != (if b & 1 == 1 {
        (b >> 1) ^ 0xedb8_8320
    } else {
        b >> 1
    })) by (bit_vector)
        requires
            a != b,
    ;
}

proof fn lemma_bits_differ(a: u32, b: u32, n: nat)
    requires
        a != b,
    ensures
        crc_bits(a, n) != crc_bits(b, n),
    decreases n,
{
    if n > 0 {
        lemma_bits_differ(a, b, (n - 1) as nat);
        lemma_bit_differs(crc_bits(a, (n - 1) as nat), crc_bits(b, (n - 1) as nat));
    }
}

/// Every byte counts: a sequence with one of its bytes changed has another CRC-32.
pub proof fn law_changed_byte_changes_the_sum(s: Seq<u8>, i: int, b: u8)
    requires
        0 <= i < s.len(),
        s[i] != b,
    ensures
        crc(s.update(i, b)) != crc(s),
{
    lemma_remainder_differs(s, i, b);
    let x = crc_remainder(s);
    let y = crc_remainder(s.update(i, b));
    assert(!x != !y) by (bit_vector)
        requires
            x != y,
    ;
}

proof fn lemma_remainder_differs(s: Seq<u8>, i: int, b: u8)
    requires
        0 <= i < s.len(),
        s[i] != b,
    ensures
        crc_remainder(s.update(i, b)) != crc_remainder(s),
    decreases s.len(),
{
    let t = s.update(i, b);
    let front = s.drop_last();
    let x = crc_remainder(front);
    let y = crc_remainder(t.drop_last());
    let p = s.last() as u32;
    let q = t.last() as u32;
    if i < front.len() {
        lemma_remainder_differs(front, i, b);
        assert(t.drop_last() =~= front.update(i, b));
        assert(x ^ p != y ^ p) by (bit_vector)
            requires
                x != y,
        ;
    } else {
        assert(t.drop_last() =~= front);
        assert(x ^ p != x ^ q) by (bit_vector)
            requires
                p != q,
        ;
    }
    lemma_bits_differ(x ^ p, y ^ q, 8);
}

} // verus!
