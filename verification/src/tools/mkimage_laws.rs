//! What the stub's template becomes.
use crate::text::{decimal_text, digit, hex_text, lemma_smaller, numeral, replaced};
use crate::text_laws::law_matches_are_replaced;
use crate::tools::elf::FirmwareView;
use crate::tools::mkimage::{range_lines, stub_text, FV_ADDR, STUB_RESERVE};
use vstd::prelude::*;
use vstd::string::*;

verus! {

/// Whether a text is a placeholder: a name between two signs.
pub open spec fn is_placeholder(p: Seq<char>) -> bool {
    &&& p.len() >= 2
    &&& p[0] == '@'
    &&& p.last() == '@'
    &&& forall|i: int| 0 < i < p.len() - 1 ==> #[trigger] p[i] != '@'
}

/// A text with no sign in it has no placeholder to replace.
proof fn lemma_nothing_to_replace(t: Seq<char>, p: Seq<char>, with: Seq<char>)
    requires
        is_placeholder(p),
        !t.contains('@'),
    ensures
        replaced(t, p, with) == t,
{
    assert forall|j: int| 0 <= j < t.len() && j + p.len() <= t.len() implies #[trigger] t.subrange(
        j,
        j + p.len(),
    ) != p by {
        assert(t.subrange(j, j + p.len())[0] == t[j]);
        assert(t.contains(t[j]));
    }
    law_matches_are_replaced(t, p, with, t.len() as int);
}

/// A placeholder between texts without a sign is replaced.
proof fn lemma_one_is_replaced(a: Seq<char>, p: Seq<char>, b: Seq<char>, with: Seq<char>)
    requires
        is_placeholder(p),
        !a.contains('@'),
        !b.contains('@'),
    ensures
        replaced(a + p + b, p, with) == a + with + b,
{
    let t = a + p + b;
    let k = a.len() as int;
    assert forall|j: int| 0 <= j < k && j + p.len() <= t.len() implies #[trigger] t.subrange(
        j,
        j + p.len(),
    ) != p by {
        assert(t.subrange(j, j + p.len())[0] == a[j]);
        assert(a.contains(a[j]));
    }
    assert(t.subrange(k, k + p.len()) =~= p);
    law_matches_are_replaced(t, p, with, k);
    assert(t.subrange(0, k) =~= a);
    assert(t.subrange(k + p.len(), t.len() as int) =~= b);
    lemma_nothing_to_replace(b, p, with);
}

/// A placeholder between texts without a sign is no other one.
proof fn lemma_another_stays(
    a: Seq<char>,
    p: Seq<char>,
    b: Seq<char>,
    q: Seq<char>,
    with: Seq<char>,
)
    requires
        is_placeholder(p),
        is_placeholder(q),
        p != q,
        !a.contains('@'),
        !b.contains('@'),
    ensures
        replaced(a + p + b, q, with) == a + p + b,
{
    let t = a + p + b;
    let k = a.len() as int;
    assert forall|i: int| 0 <= i < t.len() && #[trigger] t[i] == '@' implies i == k || i == k
        + p.len() - 1 by {
        if i < k {
            assert(a.contains(a[i]));
        } else if i < k + p.len() {
            assert(t[i] == p[i - k]);
        } else {
            assert(t[i] == b[i - k - p.len()]);
            assert(b.contains(b[i - k - p.len()]));
        }
    }
    assert forall|j: int| 0 <= j < t.len() && j + q.len() <= t.len() implies #[trigger] t.subrange(
        j,
        j + q.len(),
    ) != q by {
        let here = t.subrange(j, j + q.len());
        if here == q {
            assert(here[0] == t[j]);
            assert(here[q.len() - 1] == t[j + q.len() - 1]);
            assert(t[j] == '@' && t[j + q.len() - 1] == '@');
            assert(j == k && q.len() == p.len());
            assert(here =~= p);
        }
    }
    law_matches_are_replaced(t, q, with, t.len() as int);
}

proof fn lemma_numeral_plain(v: nat, base: nat)
    requires
        2 <= base <= 16,
    ensures
        !numeral(v, base).contains('@'),
    decreases v,
{
    let s = numeral(v, base);
    let d = if v < base {
        v as int
    } else {
        (v % base) as int
    };
    assert(0 <= d < 16) by {
        if v >= base {
            vstd::arithmetic::div_mod::lemma_mod_bound(v as int, base as int);
        }
    }
    assert(digit(d) != '@') by {
        assert(d == 0 || d == 1 || d == 2 || d == 3 || d == 4 || d == 5 || d == 6 || d == 7 || d
            == 8 || d == 9 || d == 10 || d == 11 || d == 12 || d == 13 || d == 14 || d == 15);
    }
    if v >= base {
        lemma_smaller(v as int, base as int);
        lemma_numeral_plain(v / base, base);
        assert forall|i: int| 0 <= i < s.len() implies s[i] != '@' by {
            if i < s.len() - 1 {
                assert(numeral(v / base, base).contains(numeral(v / base, base)[i]));
            }
        }
    }
}

proof fn lemma_hex_plain(v: nat)
    ensures
        !hex_text(v).contains('@'),
        !decimal_text(v).contains('@'),
{
    lemma_numeral_plain(v, 16);
    lemma_numeral_plain(v, 10);
    let digits = numeral(v, 16);
    assert forall|i: int| 0 <= i < hex_text(v).len() implies hex_text(v)[i] != '@' by {
        if i >= 2 {
            assert(digits.contains(digits[i - 2]));
        }
    }
}

proof fn lemma_lines_plain(ranges: Seq<(u64, u64)>)
    ensures
        !range_lines(ranges).contains('@'),
    decreases ranges.len(),
{
    if ranges.len() > 0 {
        let front = range_lines(ranges.drop_last());
        let (x, y) = ranges.last();
        lemma_lines_plain(ranges.drop_last());
        lemma_hex_plain(x as nat);
        lemma_hex_plain(y as nat);
        reveal_strlit("    .quad ");
        reveal_strlit(", ");
        reveal_strlit("\n");
        lemma_add_plain(front, "    .quad "@);
        lemma_add_plain(front + "    .quad "@, hex_text(x as nat));
        lemma_add_plain(front + "    .quad "@ + hex_text(x as nat), ", "@);
        lemma_add_plain(front + "    .quad "@ + hex_text(x as nat) + ", "@, hex_text(y as nat));
        lemma_add_plain(
            front + "    .quad "@ + hex_text(x as nat) + ", "@ + hex_text(y as nat),
            "\n"@,
        );
    }
}

proof fn lemma_add_plain(a: Seq<char>, b: Seq<char>)
    requires
        !a.contains('@'),
        !b.contains('@'),
    ensures
        !(a + b).contains('@'),
{
    assert forall|i: int| 0 <= i < (a + b).len() implies (a + b)[i] != '@' by {
        if i < a.len() {
            assert(a.contains(a[i]));
        } else {
            assert(b.contains(b[i - a.len()]));
        }
    }
}

/// The placeholders of the template, in the order they are replaced.
pub open spec fn placeholders() -> Seq<Seq<char>> {
    seq![
        "@FLASH_OFFSET@"@,
        "@LOAD_ADDR@"@,
        "@FIRMWARE_SIZE@"@,
        "@ENTRY_ADDR@"@,
        "@ZERO_RANGE_COUNT@"@,
        "@ZERO_RANGES@"@,
        "@FV_OFFSET@"@,
        "@FV_SIZE@"@,
        "@FV_ADDR@"@,
    ]
}

/// What each of them stands for.
pub open spec fn values(firmware: FirmwareView, offset: nat, volume_size: nat) -> Seq<Seq<char>> {
    seq![
        hex_text(STUB_RESERVE as nat),
        hex_text(firmware.load_addr as nat),
        hex_text(firmware.image.len()),
        hex_text(firmware.entry as nat),
        decimal_text(firmware.zero_ranges.len()),
        range_lines(firmware.zero_ranges),
        hex_text(offset),
        hex_text(volume_size),
        hex_text(FV_ADDR as nat),
    ]
}

/// A text in which some placeholders have been replaced, one kind after the other.
spec fn replaced_upto(t: Seq<char>, v: Seq<Seq<char>>, n: int) -> Seq<char>
    decreases n,
{
    if n <= 0 {
        t
    } else {
        replaced(replaced_upto(t, v, n - 1), placeholders()[n - 1], v[n - 1])
    }
}

proof fn lemma_placeholders()
    ensures
        forall|i: int| 0 <= i < 9 ==> is_placeholder(#[trigger] placeholders()[i]),
        forall|i: int, j: int|
            0 <= i < 9 && 0 <= j < 9 && i != j ==> (#[trigger] placeholders()[i]) != (
            #[trigger] placeholders()[j]),
{
    reveal_strlit("@FLASH_OFFSET@");
    reveal_strlit("@LOAD_ADDR@");
    reveal_strlit("@FIRMWARE_SIZE@");
    reveal_strlit("@ENTRY_ADDR@");
    reveal_strlit("@ZERO_RANGE_COUNT@");
    reveal_strlit("@ZERO_RANGES@");
    reveal_strlit("@FV_OFFSET@");
    reveal_strlit("@FV_SIZE@");
    reveal_strlit("@FV_ADDR@");
    assert("@FV_SIZE@"@[4] == 'S' && "@FV_ADDR@"@[4] == 'A');
    assert("@FLASH_OFFSET@"@.len() == 14);
    assert("@LOAD_ADDR@"@.len() == 11 && "@LOAD_ADDR@"@[1] == 'L');
    assert("@FIRMWARE_SIZE@"@.len() == 15);
    assert("@ENTRY_ADDR@"@.len() == 12);
    assert("@ZERO_RANGE_COUNT@"@.len() == 18);
    assert("@ZERO_RANGES@"@.len() == 13);
    assert("@FV_OFFSET@"@.len() == 11 && "@FV_OFFSET@"@[1] == 'F');
    assert("@FV_SIZE@"@.len() == 9 && "@FV_ADDR@"@.len() == 9);
}

proof fn lemma_upto(a: Seq<char>, b: Seq<char>, v: Seq<Seq<char>>, k: int, n: int)
    requires
        !a.contains('@'),
        !b.contains('@'),
        v.len() == 9,
        0 <= k < 9,
        0 <= n <= 9,
        !v[k].contains('@'),
    ensures
        replaced_upto(a + placeholders()[k] + b, v, n) == a + (if n <= k {
            placeholders()[k]
        } else {
            v[k]
        }) + b,
    decreases n,
{
    if n > 0 {
        lemma_upto(a, b, v, k, n - 1);
        lemma_placeholders();
        let q = placeholders()[n - 1];
        if n - 1 < k {
            lemma_another_stays(a, placeholders()[k], b, q, v[n - 1]);
        } else if n - 1 == k {
            lemma_one_is_replaced(a, q, b, v[k]);
        } else {
            lemma_add_plain(a, v[k]);
            lemma_add_plain(a + v[k], b);
            lemma_nothing_to_replace(a + v[k] + b, q, v[n - 1]);
        }
    }
}

/// Each placeholder of the template becomes what it stands for, and the text on both sides of
/// it stays.
pub proof fn law_placeholder_becomes_its_value(
    a: Seq<char>,
    k: int,
    b: Seq<char>,
    firmware: FirmwareView,
    offset: nat,
    volume_size: nat,
)
    requires
        0 <= k < 9,
        !a.contains('@'),
        !b.contains('@'),
    ensures
        stub_text(a + placeholders()[k] + b, firmware, offset, volume_size) == a + values(
            firmware,
            offset,
            volume_size,
        )[k] + b,
{
    let v = values(firmware, offset, volume_size);
    let t = a + placeholders()[k] + b;
    lemma_hex_plain(STUB_RESERVE as nat);
    lemma_hex_plain(firmware.load_addr as nat);
    lemma_hex_plain(firmware.image.len());
    lemma_hex_plain(firmware.entry as nat);
    lemma_hex_plain(firmware.zero_ranges.len());
    lemma_lines_plain(firmware.zero_ranges);
    lemma_hex_plain(offset);
    lemma_hex_plain(volume_size);
    lemma_hex_plain(FV_ADDR as nat);
    lemma_upto(a, b, v, k, 9);
    reveal_with_fuel(replaced_upto, 10);
    assert(stub_text(t, firmware, offset, volume_size) == replaced_upto(t, v, 9));
}

} // verus!
