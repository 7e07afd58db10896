//! What is found in a device tree, by how the tree is built: nodes inside nodes, each with
//! its properties before the nodes in it.
use crate::bytes::{be_at, be_value};
use crate::firmware::fdt::{
    bootargs_from, cells_value, memory_from, until_zero, Shape, Token, Walk, ADDRESS_CELLS,
    BOOTARGS, CHOSEN, MEMORY, REG, SIZE_CELLS,
};
use vstd::prelude::*;
use vstd::utf8::valid_utf8;

verus! {

/// Whether a node ends at a place in the structure block.
pub open spec fn ends_at(s: Shape, at: int) -> bool {
    s.token(at) == Some((Token::End, at + 4))
}

/// Whether what lies between two places in the structure block is whole properties and
/// whole nodes, with whole properties and whole nodes in them.
pub open spec fn is_body(s: Shape, from: int, to: int) -> bool
    decreases to - from,
{
    if from >= to {
        from == to
    } else {
        match s.token(from) {
            Some((Token::Property(_, _), next)) => from < next <= to && is_body(s, next, to),
            Some((Token::Begin(_), next)) => exists|end: int|
                from < next <= end && end + 4 <= to && #[trigger] ends_at(s, end) && is_body(
                    s,
                    next,
                    end,
                ) && is_body(s, end + 4, to),
            _ => false,
        }
    }
}

/// Whether what lies between two places is whole properties.
pub open spec fn is_properties(s: Shape, from: int, to: int) -> bool
    decreases to - from,
{
    if from >= to {
        from == to
    } else {
        match s.token(from) {
            Some((Token::Property(_, _), next)) => from < next <= to && is_properties(s, next, to),
            _ => false,
        }
    }
}

/// The value of the property of a name among those between two places; the last, if there
/// are several.
pub open spec fn value_of(s: Shape, from: int, to: int, name: Seq<u8>) -> Option<Seq<u8>>
    decreases to - from,
{
    if from >= to {
        None
    } else {
        match s.token(from) {
            Some((Token::Property(own, value), next)) if from < next <= to => match value_of(
                s,
                next,
                to,
                name,
            ) {
                Some(later) => Some(later),
                None => if own == name {
                    Some(value)
                } else {
                    None
                },
            },
            _ => None,
        }
    }
}

/// Whether the cell counts among the properties between two places are whole cells.
pub open spec fn counts_are_cells(s: Shape, from: int, to: int) -> bool
    decreases to - from,
{
    from < to ==> match s.token(from) {
        Some((Token::Property(own, value), next)) => {
            &&& own == ADDRESS_CELLS@ || own == SIZE_CELLS@ ==> value.len() >= 4
            &&& from < next <= to ==> counts_are_cells(s, next, to)
        },
        _ => true,
    }
}

/// Whether what lies between two places is whole nodes, none of them with such a name.
pub open spec fn other_nodes(s: Shape, from: int, to: int, named: spec_fn(Seq<u8>) -> bool) -> bool
    decreases to - from,
{
    if from >= to {
        from == to
    } else {
        match s.token(from) {
            Some((Token::Begin(name), next)) => !named(name) && exists|end: int|
                from < next <= end && end + 4 <= to && #[trigger] ends_at(s, end) && is_body(
                    s,
                    next,
                    end,
                ) && other_nodes(s, end + 4, to, named),
            _ => false,
        }
    }
}

/// Whether a name starts with `memory`.
pub open spec fn is_memory(name: Seq<u8>) -> bool {
    name.len() >= 6 && name.subrange(0, 6) == MEMORY@
}

/// Whether a name is `chosen`.
pub open spec fn is_chosen(name: Seq<u8>) -> bool {
    name == CHOSEN@
}

/// How many cells a count says; two where there is none.
pub open spec fn cells_said(count: Option<Seq<u8>>) -> int {
    match count {
        Some(value) => be_at(value, 0, 4) as int,
        None => 2,
    }
}

/// A tree whose root has some properties, then some nodes, and then something at `c`.
pub open spec fn root_until(
    s: Shape,
    a: int,
    b: int,
    c: int,
    named: spec_fn(Seq<u8>) -> bool,
) -> bool {
    &&& s.token(0) matches Some((Token::Begin(_), next)) && next == a && 0 < a
    &&& is_properties(s, a, b)
    &&& other_nodes(s, b, c, named)
}

/// What lies inside another node of the root does not matter.
proof fn lemma_skip_body(s: Shape, from: int, to: int, w: Walk)
    requires
        is_body(s, from, to),
        w.depth >= 2,
        !w.inside,
    ensures
        memory_from(s, from, w) == memory_from(s, to, w),
    decreases to - from,
{
    if from < to {
        match s.token(from) {
            Some((Token::Property(_, _), next)) => {
                lemma_skip_body(s, next, to, w);
            },
            Some((Token::Begin(_), next)) => {
                let end = choose|end: int|
                    from < next <= end && end + 4 <= to && #[trigger] ends_at(s, end) && is_body(
                        s,
                        next,
                        end,
                    ) && is_body(s, end + 4, to);
                let inner = Walk { depth: w.depth + 1, ..w };
                lemma_skip_body(s, next, end, inner);
                lemma_skip_body(s, end + 4, to, w);
            },
            _ => {},
        }
    }
}

/// Nodes of the root that are not the memory node do not matter.
proof fn lemma_skip_nodes(s: Shape, from: int, to: int, w: Walk)
    requires
        other_nodes(s, from, to, |name: Seq<u8>| is_memory(name)),
        w.depth == 1,
        !w.inside,
    ensures
        memory_from(s, from, w) == memory_from(s, to, w),
    decreases to - from,
{
    let named = |name: Seq<u8>| is_memory(name);
    if from < to {
        match s.token(from) {
            Some((Token::Begin(name), next)) => {
                let end = choose|end: int|
                    from < next <= end && end + 4 <= to && #[trigger] ends_at(s, end) && is_body(
                        s,
                        next,
                        end,
                    ) && other_nodes(s, end + 4, to, named);
                assert(!named(name));
                lemma_skip_body(s, next, end, Walk { depth: 2, ..w });
                lemma_skip_nodes(s, end + 4, to, w);
            },
            _ => {},
        }
    }
}

/// The root's properties say how many cells there are.
proof fn lemma_root_properties(s: Shape, from: int, to: int, w: Walk)
    requires
        is_properties(s, from, to),
        counts_are_cells(s, from, to),
        w.depth == 1,
        !w.inside,
    ensures
        memory_from(s, from, w) == memory_from(
            s,
            to,
            Walk {
                address_cells: match value_of(s, from, to, ADDRESS_CELLS@) {
                    Some(value) => be_at(value, 0, 4) as int,
                    None => w.address_cells,
                },
                size_cells: match value_of(s, from, to, SIZE_CELLS@) {
                    Some(value) => be_at(value, 0, 4) as int,
                    None => w.size_cells,
                },
                ..w
            },
        ),
    decreases to - from,
{
    assert(ADDRESS_CELLS@.len() != SIZE_CELLS@.len());
    if from < to {
        match s.token(from) {
            Some((Token::Property(own, value), next)) => {
                if own == ADDRESS_CELLS@ {
                    lemma_root_properties(
                        s,
                        next,
                        to,
                        Walk { address_cells: be_at(value, 0, 4) as int, ..w },
                    );
                } else if own == SIZE_CELLS@ {
                    lemma_root_properties(
                        s,
                        next,
                        to,
                        Walk { size_cells: be_at(value, 0, 4) as int, ..w },
                    );
                } else {
                    lemma_root_properties(s, next, to, w);
                }
            },
            _ => {},
        }
    }
}

/// The properties of the memory node before its `reg` do not matter.
proof fn lemma_before_reg(s: Shape, from: int, to: int, w: Walk)
    requires
        is_properties(s, from, to),
        value_of(s, from, to, REG@) is None,
        w.depth == 2,
        w.inside,
    ensures
        memory_from(s, from, w) == memory_from(s, to, w),
    decreases to - from,
{
    if from < to {
        match s.token(from) {
            Some((Token::Property(_, _), next)) => {
                lemma_before_reg(s, next, to, w);
            },
            _ => {},
        }
    }
}

/// Four more bytes of a big-endian number.
proof fn lemma_be_cell(value: Seq<u8>, cells: int)
    requires
        0 < cells,
        cells * 4 <= value.len(),
    ensures
        be_at(value, 0, cells * 4) == 0x1_0000_0000 * be_at(value, 0, (cells - 1) * 4) + be_at(
            value,
            (cells - 1) * 4,
            4,
        ),
        be_at(value, (cells - 1) * 4, 4) < 0x1_0000_0000,
{
    let n = cells * 4;
    let s = value.subrange(0, n);
    let a = value.subrange(n - 4, n);
    assert(s.drop_last() =~= value.subrange(0, n - 1));
    assert(s.drop_last().drop_last() =~= value.subrange(0, n - 2));
    assert(s.drop_last().drop_last().drop_last() =~= value.subrange(0, n - 3));
    assert(s.drop_last().drop_last().drop_last().drop_last() =~= value.subrange(0, n - 4));
    reveal_with_fuel(be_value, 5);
    assert(a.drop_last().drop_last().drop_last().drop_last() =~= Seq::<u8>::empty());
}

/// One more cell behind a number, in 64 bits.
proof fn lemma_low_bits(x: int, cell: int)
    requires
        0 <= x,
        0 <= cell < 0x1_0000_0000,
    ensures
        (x % 0x1_0000_0000_0000_0000) % 0x1_0000_0000 * 0x1_0000_0000 + cell == (0x1_0000_0000 * x
            + cell) % 0x1_0000_0000_0000_0000,
{
    let q = x / 0x1_0000_0000;
    let r = x % 0x1_0000_0000;
    vstd::arithmetic::div_mod::lemma_mod_mod(x, 0x1_0000_0000, 0x1_0000_0000);
    vstd::arithmetic::div_mod::lemma_fundamental_div_mod_converse(
        0x1_0000_0000 * x + cell,
        0x1_0000_0000_0000_0000,
        q,
        r * 0x1_0000_0000 + cell,
    );
}

/// A number in cells is the big-endian number that its bytes spell, in 64 bits.
pub proof fn law_cells_are_a_number(value: Seq<u8>, cells: int)
    requires
        0 <= cells,
        cells * 4 <= value.len(),
    ensures
        cells_value(value, cells) == be_at(value, 0, cells * 4) % 0x1_0000_0000_0000_0000,
    decreases cells,
{
    if cells > 0 {
        law_cells_are_a_number(value, cells - 1);
        lemma_be_cell(value, cells);
        lemma_low_bits(
            be_at(value, 0, (cells - 1) * 4) as int,
            be_at(value, (cells - 1) * 4, 4) as int,
        );
    } else {
        assert(value.subrange(0, 0) =~= Seq::<u8>::empty());
    }
}

/// The memory node is found wherever it stands among the nodes of the root: behind the
/// root's properties, between `a` and `b`, and any other nodes, between `b` and `c`, the
/// node at `c` is the first whose name starts with `memory`; behind other properties of
/// its own it has a `reg` at `d`. The base and the size are the numbers in that, in as many
/// cells as the root's properties say.
pub proof fn law_memory_is_found(
    s: Shape,
    a: int,
    b: int,
    c: int,
    inner: int,
    d: int,
    name: Seq<u8>,
    value: Seq<u8>,
    behind: int,
)
    requires
        root_until(s, a, b, c, |name: Seq<u8>| is_memory(name)),
        counts_are_cells(s, a, b),
        s.token(c) == Some((Token::Begin(name), inner)),
        c < inner,
        is_memory(name),
        is_properties(s, inner, d),
        value_of(s, inner, d, REG@) is None,
        s.token(d) == Some((Token::Property(REG@, value), behind)),
        d < behind,
        value.len() >= 4 * (cells_said(value_of(s, a, b, ADDRESS_CELLS@)) + cells_said(
            value_of(s, a, b, SIZE_CELLS@),
        )),
    ensures
        ({
            let x = cells_said(value_of(s, a, b, ADDRESS_CELLS@));
            let y = cells_said(value_of(s, a, b, SIZE_CELLS@));
            let found = memory_from(
                s,
                0,
                Walk { depth: 0, inside: false, address_cells: 2, size_cells: 2 },
            );
            found matches Some((base, size)) && base == be_at(value, 0, 4 * x)
                % 0x1_0000_0000_0000_0000 && size == be_at(value, 4 * x, 4 * y)
                % 0x1_0000_0000_0000_0000
        }),
{
    let x = cells_said(value_of(s, a, b, ADDRESS_CELLS@));
    let y = cells_said(value_of(s, a, b, SIZE_CELLS@));
    let start = Walk { depth: 0, inside: false, address_cells: 2, size_cells: 2 };
    let root = Walk { depth: 1, ..start };
    let known = Walk { address_cells: x, size_cells: y, ..root };
    let there = Walk { depth: 2, inside: true, ..known };
    assert(memory_from(s, 0, start) == memory_from(s, a, root));
    lemma_root_properties(s, a, b, root);
    lemma_skip_nodes(s, b, c, known);
    assert(memory_from(s, c, known) == memory_from(s, inner, there));
    lemma_before_reg(s, inner, d, there);
    law_cells_are_a_number(value, x);
    let rest = value.subrange(x * 4, value.len() as int);
    law_cells_are_a_number(rest, y);
    assert(rest.subrange(0, y * 4) =~= value.subrange(4 * x, 4 * x + 4 * y));
    assert(value.subrange(0, x * 4) == value.subrange(0, 0 + 4 * x));
}

/// A tree without a memory node has no memory, and neither has one whose memory node has
/// no `reg`.
pub proof fn law_no_memory_is_found(s: Shape, a: int, b: int, c: int, inner: int, d: int)
    requires
        root_until(s, a, b, c, |name: Seq<u8>| is_memory(name)),
        counts_are_cells(s, a, b),
        ({
            ||| ends_at(s, c) && s.token(c + 4) is None
            ||| {
                &&& s.token(c) matches Some((Token::Begin(name), next)) && is_memory(name) && next
                    == inner && c < inner
                &&& is_properties(s, inner, d)
                &&& value_of(s, inner, d, REG@) is None
                &&& ends_at(s, d)
            }
        }),
    ensures
        memory_from(s, 0, Walk { depth: 0, inside: false, address_cells: 2, size_cells: 2 })
            is None,
{
    let start = Walk { depth: 0, inside: false, address_cells: 2, size_cells: 2 };
    let root = Walk { depth: 1, ..start };
    let known = Walk {
        address_cells: cells_said(value_of(s, a, b, ADDRESS_CELLS@)),
        size_cells: cells_said(value_of(s, a, b, SIZE_CELLS@)),
        ..root
    };
    let there = Walk { depth: 2, inside: true, ..known };
    assert(memory_from(s, 0, start) == memory_from(s, a, root));
    lemma_root_properties(s, a, b, root);
    lemma_skip_nodes(s, b, c, known);
    if ends_at(s, c) && s.token(c + 4) is None {
        assert(memory_from(s, c + 4, Walk { depth: 0, ..known }) is None);
    } else {
        assert(memory_from(s, c, known) == memory_from(s, inner, there));
        lemma_before_reg(s, inner, d, there);
    }
}

/// What lies inside another node of the root holds no command line.
proof fn lemma_no_line_inside(s: Shape, from: int, to: int, depth: int)
    requires
        is_body(s, from, to),
        depth >= 2,
    ensures
        bootargs_from(s, from, depth, false) == bootargs_from(s, to, depth, false),
    decreases to - from,
{
    if from < to {
        match s.token(from) {
            Some((Token::Property(_, _), next)) => {
                lemma_no_line_inside(s, next, to, depth);
            },
            Some((Token::Begin(_), next)) => {
                let end = choose|end: int|
                    from < next <= end && end + 4 <= to && #[trigger] ends_at(s, end) && is_body(
                        s,
                        next,
                        end,
                    ) && is_body(s, end + 4, to);
                lemma_no_line_inside(s, next, end, depth + 1);
                lemma_no_line_inside(s, end + 4, to, depth);
            },
            _ => {},
        }
    }
}

proof fn lemma_no_line_in_nodes(s: Shape, from: int, to: int)
    requires
        other_nodes(s, from, to, |name: Seq<u8>| is_chosen(name)),
    ensures
        bootargs_from(s, from, 1, false) == bootargs_from(s, to, 1, false),
    decreases to - from,
{
    let named = |name: Seq<u8>| is_chosen(name);
    if from < to {
        match s.token(from) {
            Some((Token::Begin(name), next)) => {
                let end = choose|end: int|
                    from < next <= end && end + 4 <= to && #[trigger] ends_at(s, end) && is_body(
                        s,
                        next,
                        end,
                    ) && other_nodes(s, end + 4, to, named);
                assert(!named(name));
                lemma_no_line_inside(s, next, end, 2);
                lemma_no_line_in_nodes(s, end + 4, to);
            },
            _ => {},
        }
    }
}

/// Properties that are not the command line are passed over.
proof fn lemma_no_line_in_properties(s: Shape, from: int, to: int, depth: int, inside: bool)
    requires
        is_properties(s, from, to),
        inside ==> value_of(s, from, to, BOOTARGS@) is None,
    ensures
        bootargs_from(s, from, depth, inside) == bootargs_from(s, to, depth, inside),
    decreases to - from,
{
    if from < to {
        match s.token(from) {
            Some((Token::Property(_, _), next)) => {
                lemma_no_line_in_properties(s, next, to, depth, inside);
            },
            _ => {},
        }
    }
}

/// The bytes up to the first zero.
proof fn lemma_until_zero(s: Seq<u8>, n: int)
    requires
        0 <= n <= s.len(),
        forall|i: int| 0 <= i < n ==> #[trigger] s[i] != 0,
        n == s.len() || s[n] == 0,
    ensures
        until_zero(s) == s.subrange(0, n),
    decreases n,
{
    if n > 0 {
        assert(s[0] != 0);
        let rest = s.drop_first();
        assert forall|i: int| 0 <= i < n - 1 implies #[trigger] rest[i] != 0 by {
            assert(rest[i] == s[i + 1]);
        }
        lemma_until_zero(rest, n - 1);
        assert(seq![s[0]] + rest.subrange(0, n - 1) =~= s.subrange(0, n));
    } else {
        assert(until_zero(s) =~= s.subrange(0, 0));
    }
}

/// The command line is found wherever `chosen` stands among the nodes of the root: it is
/// the value of `bootargs` there, up to its first zero, which is at `n`, where that is
/// text.
pub proof fn law_command_line_is_found(
    s: Shape,
    a: int,
    b: int,
    c: int,
    inner: int,
    d: int,
    value: Seq<u8>,
    behind: int,
    n: int,
)
    requires
        root_until(s, a, b, c, |name: Seq<u8>| is_chosen(name)),
        s.token(c) == Some((Token::Begin(CHOSEN@), inner)),
        c < inner,
        is_properties(s, inner, d),
        value_of(s, inner, d, BOOTARGS@) is None,
        s.token(d) == Some((Token::Property(BOOTARGS@, value), behind)),
        d < behind,
        0 <= n <= value.len(),
        forall|i: int| 0 <= i < n ==> #[trigger] value[i] != 0,
        n == value.len() || value[n] == 0,
    ensures
        bootargs_from(s, 0, 0, false) == (if valid_utf8(value.subrange(0, n)) {
            Some(vstd::utf8::decode_utf8(value.subrange(0, n)))
        } else {
            None
        }),
{
    lemma_no_line_in_properties(s, a, b, 1, false);
    lemma_no_line_in_nodes(s, b, c);
    assert(bootargs_from(s, c, 1, false) == bootargs_from(s, inner, 2, true));
    lemma_no_line_in_properties(s, inner, d, 2, true);
    lemma_until_zero(value, n);
}

/// A tree without `chosen` has no command line.
pub proof fn law_no_command_line_is_found(s: Shape, a: int, b: int, c: int)
    requires
        root_until(s, a, b, c, |name: Seq<u8>| is_chosen(name)),
        ends_at(s, c),
        s.token(c + 4) is None,
    ensures
        bootargs_from(s, 0, 0, false) is None,
{
    lemma_no_line_in_properties(s, a, b, 1, false);
    lemma_no_line_in_nodes(s, b, c);
    assert(bootargs_from(s, c + 4, 0, false) is None);
}

/// The beginning of a node: the number one, the name up to a zero, and what fills the four bytes.
pub proof fn law_beginning_is_read(s: Shape, cursor: int, n: int)
    requires
        0 <= s.structure + cursor,
        0 <= n,
        s.structure + cursor + 4 + n < s.blob.len(),
        be_at(s.blob, s.structure + cursor, 4) == 1,
        forall|i: int| 0 <= i < n ==> #[trigger] s.blob[s.structure + cursor + 4 + i] != 0,
        s.blob[s.structure + cursor + 4 + n] == 0,
    ensures
        ({
            let at = s.structure + cursor + 4;
            let name = s.blob.subrange(at, at + n);
            s.token(cursor) matches Some((token, next)) && token == Token::Begin(name) && next % 4
                == 0 && cursor + 4 + n + 1 <= next < cursor + 4 + n + 5
        }),
{
    let at = s.structure + cursor + 4;
    let rest = s.blob.subrange(at, s.blob.len() as int);
    assert forall|i: int| 0 <= i < n implies #[trigger] rest[i] != 0 by {
        assert(s.blob[s.structure + cursor + 4 + i] != 0);
    }
    lemma_until_zero(rest, n);
    assert(rest.subrange(0, n) =~= s.blob.subrange(at, at + n));
}

/// A property: the number three, how long its value is, where its name is in the strings, the
/// value, and what fills the four bytes.
pub proof fn law_property_is_read(s: Shape, cursor: int, n: int)
    requires
        0 <= s.structure + cursor,
        s.structure + cursor + 12 + be_at(s.blob, s.structure + cursor + 4, 4) <= s.blob.len(),
        be_at(s.blob, s.structure + cursor, 4) == 3,
        0 <= s.strings,
        s.strings + s.strings_len <= s.blob.len(),
        0 <= n,
        be_at(s.blob, s.structure + cursor + 8, 4) + n < s.strings_len,
        forall|i: int|
            0 <= i < n ==> #[trigger] s.blob[s.strings + be_at(
                s.blob,
                s.structure + cursor + 8,
                4,
            ) + i] != 0,
        s.blob[s.strings + be_at(s.blob, s.structure + cursor + 8, 4) + n] == 0,
    ensures
        ({
            let at = s.structure + cursor;
            let length = be_at(s.blob, at + 4, 4);
            let from = s.strings + be_at(s.blob, at + 8, 4);
            let name = s.blob.subrange(from, from + n);
            let value = s.blob.subrange(at + 12, at + 12 + length);
            s.token(cursor) matches Some((token, next)) && token == Token::Property(name, value)
                && next % 4 == 0 && cursor + 12 + length <= next < cursor + 12 + length + 4
        }),
{
    let offset = be_at(s.blob, s.structure + cursor + 8, 4) as int;
    let from = s.strings + offset;
    let rest = s.blob.subrange(from, s.strings + s.strings_len);
    assert forall|i: int| 0 <= i < n implies #[trigger] rest[i] != 0 by {
        assert(s.blob[s.strings + be_at(s.blob, s.structure + cursor + 8, 4) + i] != 0);
    }
    lemma_until_zero(rest, n);
    assert(rest.subrange(0, n) =~= s.blob.subrange(from, from + n));
}

/// The end of a node is the number two, and any number but these three ends the tree.
pub proof fn law_end_is_read(s: Shape, cursor: int)
    requires
        0 <= s.structure + cursor,
        s.structure + cursor + 4 <= s.blob.len(),
    ensures
        be_at(s.blob, s.structure + cursor, 4) == 2 ==> s.token(cursor) == Some(
            (Token::End, cursor + 4),
        ),
        !(1 <= be_at(s.blob, s.structure + cursor, 4) <= 3) ==> s.token(cursor) is None,
{
}

} // verus!
