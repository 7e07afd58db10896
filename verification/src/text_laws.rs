//! What splitting, joining, replacing and numbering texts come to.
use crate::bytes::{le_at, lemma_inner, lemma_le_value_2, lemma_le_value_4};
use crate::text::{
    digit, filled, guid_text, hex_digits, joined, lemma_smaller, numeral, parts, replaced,
    separates,
};
use vstd::arithmetic::power::pow;
use vstd::prelude::*;

verus! {

/// Joining the parts of a path gives the path, with a backslash for each separator.
pub proof fn law_parts_make_the_path(path: Seq<char>, slash: bool)
    ensures
        parts(path, slash).len() >= 1,
        joined(parts(path, slash)) == Seq::new(
            path.len(),
            |i: int|
                if separates(path[i], slash) {
                    '\\'
                } else {
                    path[i]
                },
        ),
        forall|k: int, i: int|
            0 <= k < parts(path, slash).len() && 0 <= i < parts(path, slash)[k].len()
                ==> !separates(#[trigger] parts(path, slash)[k][i], slash),
    decreases path.len(),
{
    let same = |p: Seq<char>| Seq::new(
        p.len(),
        |i: int|
            if separates(p[i], slash) {
                '\\'
            } else {
                p[i]
            },
    );
    let all = parts(path, slash);
    if path.len() == 0 {
        assert(joined(all) =~= same(path));
    } else {
        let front = path.drop_last();
        let before = parts(front, slash);
        law_parts_make_the_path(front, slash);
        if separates(path.last(), slash) {
            assert(all.drop_last() =~= before);
            assert(joined(all) =~= joined(before) + seq!['\\'] + Seq::<char>::empty());
        } else {
            assert(all.drop_last() =~= before.drop_last());
            assert(all.last() == before.last().push(path.last()));
            assert(joined(all) =~= joined(before).push(path.last()));
        }
        assert(joined(all) =~= same(path));
        assert forall|k: int, i: int| 0 <= k < all.len() && 0 <= i < all[k].len()
            implies !separates(#[trigger] all[k][i], slash) by {
            if separates(path.last(), slash) {
                if k < before.len() {
                    assert(all[k] == before[k]);
                    assert(!separates(before[k][i], slash));
                }
            } else if k < before.len() - 1 {
                assert(all[k] == before[k]);
                assert(!separates(before[k][i], slash));
            } else if i < before.last().len() {
                assert(all[k][i] == before[before.len() - 1][i]);
                assert(!separates(before[before.len() - 1][i], slash));
            }
        }
    }
}

/// The names between the backslashes of joined names are those names.
pub proof fn law_joined_names_part_again(names: Seq<Seq<char>>)
    requires
        names.len() > 0,
        forall|k: int, i: int|
            0 <= k < names.len() && 0 <= i < names[k].len() ==> #[trigger] names[k][i] != '\\',
    ensures
        parts(joined(names), false) == names,
    decreases names.len(),
{
    let last = names.last();
    assert forall|i: int| 0 <= i < last.len() implies #[trigger] last[i] != '\\' by {
        assert(names[names.len() - 1][i] != '\\');
    }
    if names.len() == 1 {
        lemma_parts_of_name(Seq::empty(), last);
        assert(Seq::<char>::empty() + last =~= last);
        assert(parts(Seq::<char>::empty(), false).update(0, Seq::<char>::empty() + last) =~= names);
    } else {
        let front = names.drop_last();
        assert forall|k: int, i: int| 0 <= k < front.len() && 0 <= i < front[k].len()
            implies #[trigger] front[k][i] != '\\' by {
            assert(names[k][i] != '\\');
        }
        law_joined_names_part_again(front);
        let stem = joined(front) + seq!['\\'];
        assert(stem.drop_last() =~= joined(front));
        assert(parts(stem, false) == front.push(Seq::empty()));
        lemma_parts_of_name(stem, last);
        assert(Seq::<char>::empty() + last =~= last);
        assert(front.push(Seq::empty()).update(front.len() as int, last) =~= names);
    }
}

/// A name behind a path adds to the last of its parts.
proof fn lemma_parts_of_name(stem: Seq<char>, name: Seq<char>)
    requires
        forall|i: int| 0 <= i < name.len() ==> #[trigger] name[i] != '\\',
    ensures
        parts(stem, false).len() >= 1,
        parts(stem + name, false) == parts(stem, false).update(
            parts(stem, false).len() - 1,
            parts(stem, false).last() + name,
        ),
    decreases name.len(),
{
    law_parts_make_the_path(stem, false);
    let p = parts(stem, false);
    if name.len() == 0 {
        assert(stem + name =~= stem);
        assert(p.last() + name =~= p.last());
        assert(p.update(p.len() - 1, p.last()) =~= p);
    } else {
        let front = name.drop_last();
        assert forall|i: int| 0 <= i < front.len() implies #[trigger] front[i] != '\\' by {
            assert(name[i] != '\\');
        }
        lemma_parts_of_name(stem, front);
        assert((stem + name).drop_last() =~= stem + front);
        assert(name[name.len() - 1] != '\\');
        assert((p.last() + front).push(name.last()) =~= p.last() + name);
        assert(p.update(p.len() - 1, p.last() + front).update(
            p.len() - 1,
            (p.last() + front).push(name.last()),
        ) =~= p.update(p.len() - 1, p.last() + name));
    }
}

/// The names of a path are the parts that are not empty, in order.
pub proof fn law_names_are_the_parts_that_are_filled(all: Seq<Seq<char>>)
    ensures
        filled(all) == all.filter(|part: Seq<char>| part.len() > 0),
    decreases all.len(),
{
    reveal(Seq::filter);
    if all.len() > 0 {
        law_names_are_the_parts_that_are_filled(all.drop_last());
    }
}

/// A text without the pattern stays as it is; one with it has the first match replaced, and
/// the rest behind that treated the same.
pub proof fn law_matches_are_replaced(t: Seq<char>, pattern: Seq<char>, with: Seq<char>, k: int)
    requires
        pattern.len() > 0,
        0 <= k <= t.len(),
        forall|j: int|
            0 <= j < k && j + pattern.len() <= t.len() ==> #[trigger] t.subrange(
                j,
                j + pattern.len(),
            ) != pattern,
        k + pattern.len() <= t.len() ==> t.subrange(k, k + pattern.len()) == pattern,
    ensures
        replaced(t, pattern, with) == (if k + pattern.len() <= t.len() {
            t.subrange(0, k) + with + replaced(
                t.subrange(k + pattern.len(), t.len() as int),
                pattern,
                with,
            )
        } else {
            t
        }),
    decreases t.len(),
{
    let m = pattern.len() as int;
    if t.len() >= m {
        if k == 0 {
            assert(t.subrange(0, 0) + with =~= with);
        } else {
            assert(t.subrange(0, 0 + m) != pattern);
            let rest = t.subrange(1, t.len() as int);
            assert forall|j: int| 0 <= j < k - 1 && j + m <= rest.len() implies #[trigger] rest.subrange(
                j,
                j + m,
            ) != pattern by {
                assert(rest.subrange(j, j + m) =~= t.subrange(j + 1, j + 1 + m));
            }
            if k + m <= t.len() {
                assert(rest.subrange(k - 1, k - 1 + m) =~= t.subrange(k, k + m));
            }
            law_matches_are_replaced(rest, pattern, with, k - 1);
            if k + m <= t.len() {
                let end = replaced(t.subrange(k + m, t.len() as int), pattern, with);
                assert(rest.subrange(k - 1 + m, rest.len() as int) =~= t.subrange(
                    k + m,
                    t.len() as int,
                ));
                assert(t.subrange(0, 1) + (rest.subrange(0, k - 1) + with + end) =~= t.subrange(
                    0,
                    k,
                ) + with + end);
            } else {
                assert(t.subrange(0, 1) + rest =~= t);
            }
        }
    }
}

/// The number that digits spell.
pub open spec fn spelt(s: Seq<char>, base: nat) -> nat
    decreases s.len(),
{
    if s.len() == 0 {
        0
    } else {
        spelt(s.drop_last(), base) * base + digit_value(s.last())
    }
}

/// The value of a digit.
pub open spec fn digit_value(c: char) -> nat {
    if '0' <= c && c <= '9' {
        (c as int - '0' as int) as nat
    } else {
        (c as int - 'a' as int + 10) as nat
    }
}

proof fn lemma_digit(d: int)
    requires
        0 <= d < 16,
    ensures
        digit_value(digit(d)) == d,
        digit(d) == '0' <==> d == 0,
{
    assert(d == 0 || d == 1 || d == 2 || d == 3 || d == 4 || d == 5 || d == 6 || d == 7 || d == 8
        || d == 9 || d == 10 || d == 11 || d == 12 || d == 13 || d == 14 || d == 15);
}

/// A digit behind others.
proof fn lemma_spelt_push(s: Seq<char>, c: char, base: nat)
    ensures
        spelt(s.push(c), base) == spelt(s, base) * base + digit_value(c),
{
    assert(s.push(c).drop_last() =~= s);
}

proof fn lemma_spelt_one(c: char, base: nat)
    ensures
        spelt(seq![c], base) == digit_value(c),
{
    let none = Seq::<char>::empty();
    lemma_spelt_push(none, c, base);
    assert(none.push(c) =~= seq![c]);
    assert(spelt(none, base) == 0);
    assert(0 * base == 0) by (nonlinear_arith);
}

/// A number in digits spells that number, without a zero in front.
pub proof fn law_numeral_spells_the_number(v: nat, base: nat)
    requires
        2 <= base <= 16,
    ensures
        spelt(numeral(v, base), base) == v,
        numeral(v, base).len() >= 1,
        v > 0 ==> numeral(v, base)[0] != '0',
        v == 0 ==> numeral(v, base).len() == 1,
    decreases v,
{
    let s = numeral(v, base);
    if v < base {
        lemma_digit(v as int);
        lemma_spelt_one(digit(v as int), base);
    } else {
        lemma_smaller(v as int, base as int);
        law_numeral_spells_the_number(v / base, base);
        lemma_digit((v % base) as int);
        lemma_spelt_push(numeral(v / base, base), digit((v % base) as int), base);
        vstd::arithmetic::div_mod::lemma_fundamental_div_mod(v as int, base as int);
        assert(v / base * base == base * (v / base)) by (nonlinear_arith);
        assert(v / base > 0) by (nonlinear_arith)
            requires
                v >= base,
                base > 0,
        ;
    }
}

/// So many hexadecimal digits spell the low digits of a number.
pub proof fn law_hex_digits_spell_the_number(v: nat, n: nat)
    ensures
        hex_digits(v, n).len() == n,
        spelt(hex_digits(v, n), 16) == v % (pow(16, n) as nat),
        pow(16, n) > 0,
    decreases n,
{
    reveal(pow);
    let s = hex_digits(v, n);
    if n > 0 {
        let k = (n - 1) as nat;
        law_hex_digits_spell_the_number(v / 16, k);
        lemma_digit((v % 16) as int);
        assert(s.drop_last() =~= hex_digits(v / 16, k));
        let p = pow(16, k);
        assert(pow(16, n) == 16 * p);
        vstd::arithmetic::div_mod::lemma_fundamental_div_mod((v / 16) as int, p);
        let q = (v / 16) as int / p;
        let r = (v / 16) as int % p;
        assert(v == (16 * p) * q + (r * 16 + v % 16)) by (nonlinear_arith)
            requires
                v == 16 * (v / 16) + v % 16,
                (v / 16) as int == p * q + r,
        ;
        vstd::arithmetic::div_mod::lemma_mod_bound((v / 16) as int, p);
        vstd::arithmetic::div_mod::lemma_fundamental_div_mod_converse(
            v as int,
            16 * p,
            q,
            r * 16 + v % 16,
        );
    } else {
        assert(pow(16, 0) == 1);
    }
}

proof fn lemma_byte_digits(b: u8)
    ensures
        hex_digits(b as nat, 2).len() == 2,
        spelt(hex_digits(b as nat, 2), 16) == b,
{
    law_hex_digits_spell_the_number(b as nat, 2);
    lemma_widths_of_hex();
    vstd::arithmetic::div_mod::lemma_small_mod(b as nat, pow(16, 2) as nat);
}

/// Where the parts of a GUID's text are.
proof fn lemma_guid_parts(
    a: Seq<char>,
    b: Seq<char>,
    c: Seq<char>,
    d: Seq<char>,
    e: Seq<char>,
    f: Seq<char>,
)
    requires
        a.len() == 8,
        b.len() == 4,
        c.len() == 4,
        d.len() == 2,
        e.len() == 2,
        f.len() == 12,
    ensures
        ({
            let t = a + seq!['-'] + b + seq!['-'] + c + seq!['-'] + d + e + seq!['-'] + f;
            &&& t.len() == 36
            &&& t.subrange(0, 8) == a
            &&& t[8] == '-' && t[13] == '-' && t[18] == '-' && t[23] == '-'
            &&& t.subrange(9, 13) == b
            &&& t.subrange(14, 18) == c
            &&& t.subrange(19, 21) == d
            &&& t.subrange(21, 23) == e
            &&& t.subrange(24, 36) == f
        }),
{
    let t = a + seq!['-'] + b + seq!['-'] + c + seq!['-'] + d + e + seq!['-'] + f;
    assert(t.subrange(0, 8) =~= a);
    assert(t.subrange(9, 13) =~= b);
    assert(t.subrange(14, 18) =~= c);
    assert(t.subrange(19, 21) =~= d);
    assert(t.subrange(21, 23) =~= e);
    assert(t.subrange(24, 36) =~= f);
}

proof fn lemma_six_pairs(
    a: Seq<char>,
    b: Seq<char>,
    c: Seq<char>,
    d: Seq<char>,
    e: Seq<char>,
    f: Seq<char>,
)
    requires
        a.len() == 2,
        b.len() == 2,
        c.len() == 2,
        d.len() == 2,
        e.len() == 2,
        f.len() == 2,
    ensures
        ({
            let t = a + b + c + d + e + f;
            &&& t.len() == 12
            &&& t.subrange(0, 2) == a
            &&& t.subrange(2, 4) == b
            &&& t.subrange(4, 6) == c
            &&& t.subrange(6, 8) == d
            &&& t.subrange(8, 10) == e
            &&& t.subrange(10, 12) == f
        }),
{
    let t = a + b + c + d + e + f;
    assert(t.subrange(0, 2) =~= a);
    assert(t.subrange(2, 4) =~= b);
    assert(t.subrange(4, 6) =~= c);
    assert(t.subrange(6, 8) =~= d);
    assert(t.subrange(8, 10) =~= e);
    assert(t.subrange(10, 12) =~= f);
}

/// The text of a GUID spells its fields between dashes: one of 32 bits and two of 16 bits, each
/// with its first byte the lowest, and then the other bytes one by one.
pub proof fn law_guid_text_spells_the_guid(g: Seq<u8>)
    requires
        g.len() == 16,
    ensures
        ({
            let t = guid_text(g);
            let part = |from: int, to: int| spelt(t.subrange(from, to), 16);
            &&& t.len() == 36
            &&& t[8] == '-' && t[13] == '-' && t[18] == '-' && t[23] == '-'
            &&& part(0, 8) == g[0] + 0x100 * g[1] + 0x1_0000 * g[2] + 0x100_0000 * g[3]
            &&& part(9, 13) == g[4] + 0x100 * g[5]
            &&& part(14, 18) == g[6] + 0x100 * g[7]
            &&& part(19, 21) == g[8] && part(21, 23) == g[9]
            &&& part(24, 26) == g[10] && part(26, 28) == g[11]
            &&& part(28, 30) == g[12] && part(30, 32) == g[13]
            &&& part(32, 34) == g[14] && part(34, 36) == g[15]
        }),
{
    let t = guid_text(g);
    let (x, y, z) = (le_at(g, 0, 4), le_at(g, 4, 2), le_at(g, 6, 2));
    lemma_le_value_4(g.subrange(0, 4));
    lemma_le_value_2(g.subrange(4, 6));
    lemma_le_value_2(g.subrange(6, 8));
    law_hex_digits_spell_the_number(x, 8);
    law_hex_digits_spell_the_number(y, 4);
    law_hex_digits_spell_the_number(z, 4);
    lemma_widths_of_hex();
    vstd::arithmetic::div_mod::lemma_small_mod(x, pow(16, 8) as nat);
    vstd::arithmetic::div_mod::lemma_small_mod(y, pow(16, 4) as nat);
    vstd::arithmetic::div_mod::lemma_small_mod(z, pow(16, 4) as nat);
    lemma_byte_digits(g[8]);
    lemma_byte_digits(g[9]);
    lemma_byte_digits(g[10]);
    lemma_byte_digits(g[11]);
    lemma_byte_digits(g[12]);
    lemma_byte_digits(g[13]);
    lemma_byte_digits(g[14]);
    lemma_byte_digits(g[15]);
    let pairs = hex_digits(g[10] as nat, 2) + hex_digits(g[11] as nat, 2) + hex_digits(
        g[12] as nat,
        2,
    ) + hex_digits(g[13] as nat, 2) + hex_digits(g[14] as nat, 2) + hex_digits(g[15] as nat, 2);
    lemma_six_pairs(
        hex_digits(g[10] as nat, 2),
        hex_digits(g[11] as nat, 2),
        hex_digits(g[12] as nat, 2),
        hex_digits(g[13] as nat, 2),
        hex_digits(g[14] as nat, 2),
        hex_digits(g[15] as nat, 2),
    );
    lemma_guid_parts(
        hex_digits(x, 8),
        hex_digits(y, 4),
        hex_digits(z, 4),
        hex_digits(g[8] as nat, 2),
        hex_digits(g[9] as nat, 2),
        pairs,
    );
    assert(t =~= hex_digits(x, 8) + seq!['-'] + hex_digits(y, 4) + seq!['-'] + hex_digits(z, 4)
        + seq!['-'] + hex_digits(g[8] as nat, 2) + hex_digits(g[9] as nat, 2) + seq!['-'] + pairs);
    assert(t.subrange(24, 26) =~= pairs.subrange(0, 2)) by {
        lemma_tail(t, 0, 2);
    }
    assert(t.subrange(26, 28) =~= pairs.subrange(2, 4)) by {
        lemma_tail(t, 2, 4);
    }
    assert(t.subrange(28, 30) =~= pairs.subrange(4, 6)) by {
        lemma_tail(t, 4, 6);
    }
    assert(t.subrange(30, 32) =~= pairs.subrange(6, 8)) by {
        lemma_tail(t, 6, 8);
    }
    assert(t.subrange(32, 34) =~= pairs.subrange(8, 10)) by {
        lemma_tail(t, 8, 10);
    }
    assert(t.subrange(34, 36) =~= pairs.subrange(10, 12)) by {
        lemma_tail(t, 10, 12);
    }
}

proof fn lemma_tail(t: Seq<char>, from: int, to: int)
    requires
        t.len() == 36,
        0 <= from <= to <= 12,
    ensures
        t.subrange(24 + from, 24 + to) == t.subrange(24, 36).subrange(from, to),
{
    lemma_inner(t, 24, 12, from, to);
}

proof fn lemma_widths_of_hex()
    ensures
        pow(16, 2) == 0x100,
        pow(16, 4) == 0x1_0000,
        pow(16, 8) == 0x1_0000_0000,
{
    reveal_with_fuel(pow, 9);
}

} // verus!
