//! UTF-16, the alphabet of the interfaces.
use vstd::prelude::*;
use vstd::string::*;

verus! {

/// `char::from_u32` gives the character of a scalar value, and nothing for any
/// other number.
pub assume_specification[ char::from_u32 ](i: u32) -> (c: Option<char>)
    ensures
        match c {
            Some(c) => c == i as char && (i < 0xd800 || 0xe000 <= i <= 0x10ffff),
            None => (0xd800 <= i <= 0xdfff) || i > 0x10ffff,
        },
;

/// `String::push` appends one character.
pub assume_specification[ String::push ](s: &mut String, ch: char)
    ensures
        final(s)@ == old(s)@.push(ch),
;

/// The character a unit stands for on its own; `?` for half of a pair.
pub open spec fn char_of(unit: u16) -> char {
    if 0xd800 <= unit <= 0xdfff {
        '?'
    } else {
        unit as char
    }
}

/// The characters of units, each on its own.
pub open spec fn chars_of(units: Seq<u16>) -> Seq<char> {
    Seq::new(units.len(), |i: int| char_of(units[i]))
}

/// The units of a character: one, or a pair.
pub open spec fn units_of_char(c: char) -> Seq<u16> {
    if c as u32 <= 0xffff {
        seq![c as u16]
    } else {
        seq![
            (0xd800 + (c as u32 - 0x1_0000) / 0x400) as u16,
            (0xdc00 + (c as u32 - 0x1_0000) % 0x400) as u16,
        ]
    }
}

/// The units of a text.
pub open spec fn units_of(text: Seq<char>) -> Seq<u16>
    decreases text.len(),
{
    if text.len() == 0 {
        Seq::empty()
    } else {
        units_of(text.drop_last()) + units_of_char(text.last())
    }
}

/// The character a unit stands for on its own.
pub fn char_of_unit(unit: u16) -> (c: char)
    ensures
        c == char_of(unit),
{
    match char::from_u32(unit as u32) {
        Some(c) => c,
        None => '?',
    }
}

/// The text of units, each on its own.
pub fn text_of_units(units: &[u16]) -> (text: String)
    ensures
        text@ == chars_of(units@),
{
    let mut text: String = String::new();
    let mut next: usize = 0;
    assert(text@ =~= chars_of(units@.subrange(0, 0)));
    while next < units.len()
        invariant
            next <= units@.len(),
            text@ == chars_of(units@.subrange(0, next as int)),
        decreases units@.len() - next,
    {
        text.push(char_of_unit(units[next]));
        assert(text@ =~= chars_of(units@.subrange(0, next + 1)));
        next = next + 1;
    }
    assert(units@.subrange(0, next as int) =~= units@);
    text
}

/// The units of a text.
pub fn encode(text: &str) -> (units: Vec<u16>)
    ensures
        units@ == units_of(text@),
{
    let size: usize = text.unicode_len();
    let mut units: Vec<u16> = Vec::new();
    let mut next: usize = 0;
    assert(text@.subrange(0, 0) =~= Seq::<char>::empty());
    while next < size
        invariant
            next <= size,
            size == text@.len(),
            units@ == units_of(text@.subrange(0, next as int)),
        decreases size - next,
    {
        let c: u32 = text.get_char(next) as u32;
        proof {
            let more = text@.subrange(0, next + 1);
            assert(more.drop_last() =~= text@.subrange(0, next as int));
            assert(more.last() == text@[next as int]);
        }
        let ghost before = units@;
        if c <= 0xffff {
            units.push(c as u16);
        } else {
            units.push((0xd800 + (c - 0x1_0000) / 0x400) as u16);
            units.push((0xdc00 + (c - 0x1_0000) % 0x400) as u16);
        }
        assert(units@ =~= before + units_of_char(text@[next as int]));
        next = next + 1;
    }
    assert(text@.subrange(0, next as int) =~= text@);
    units
}

/// Where the first terminator of units is, or how many there are.
pub open spec fn terminator(units: Seq<u16>) -> int {
    crate::seqs::first(units, |u: u16| u == 0)
}

/// The units before the first terminator, when that is among the first `limit`.
pub fn until_terminator(units: &[u16], limit: usize) -> (text: Option<Vec<u16>>)
    ensures
        match text {
            Some(text) => terminator(units@) < limit && terminator(units@) < units@.len() && text@
                == units@.subrange(0, terminator(units@)),
            None => terminator(units@) >= limit || terminator(units@) >= units@.len(),
        },
{
    let ghost zero = |u: u16| u == 0;
    let mut text: Vec<u16> = Vec::new();
    let mut next: usize = 0;
    while next < units.len() && next < limit
        invariant
            next <= units@.len(),
            next <= limit,
            zero == (|u: u16| u == 0),
            text@ == units@.subrange(0, next as int),
            forall|i: int| 0 <= i < next ==> !zero(#[trigger] units@[i]),
        decreases units@.len() - next,
    {
        let unit: u16 = units[next];
        if unit == 0 {
            proof {
                crate::seqs::lemma_first(units@, zero, next as int);
            }
            return Some(text);
        }
        text.push(unit);
        assert(text@ =~= units@.subrange(0, next + 1));
        next = next + 1;
    }
    proof {
        crate::seqs::lemma_first_is(units@, zero);
        if terminator(units@) < next {
            assert(!zero(units@[terminator(units@)]));
        }
    }
    None
}

/// Whether a unit is the first of a pair.
pub open spec fn is_high(unit: u16) -> bool {
    0xd800 <= unit <= 0xdbff
}

/// Whether a unit is the second of a pair.
pub open spec fn is_low(unit: u16) -> bool {
    0xdc00 <= unit <= 0xdfff
}

/// The text that units encode; `?` for half of a pair that stands alone.
pub open spec fn decoded(units: Seq<u16>) -> Seq<char>
    decreases units.len(),
{
    if units.len() == 0 {
        Seq::empty()
    } else if units.len() >= 2 && is_high(units[0]) && is_low(units[1]) {
        seq![(0x1_0000 + (units[0] - 0xd800) * 0x400 + (units[1] - 0xdc00)) as char] + decoded(
            units.subrange(2, units.len() as int),
        )
    } else {
        seq![char_of(units[0])] + decoded(units.subrange(1, units.len() as int))
    }
}

/// The text that units encode.
pub fn decode(units: &[u16]) -> (text: String)
    ensures
        text@ == decoded(units@),
{
    let size: usize = units.len();
    let mut text: String = String::new();
    let mut next: usize = 0;
    assert(units@.subrange(0, size as int) =~= units@);
    assert(text@ + decoded(units@) =~= decoded(units@));
    while next < size
        invariant
            next <= size,
            size == units@.len(),
            text@ + decoded(units@.subrange(next as int, size as int)) == decoded(units@),
        decreases size - next,
    {
        let ghost rest = units@.subrange(next as int, size as int);
        let ghost before = text@;
        let unit: u16 = units[next];
        if size - next >= 2 && unit >= 0xd800 && unit <= 0xdbff && units[next + 1] >= 0xdc00
            && units[next + 1] <= 0xdfff {
            let value: u32 = 0x1_0000 + (unit as u32 - 0xd800) * 0x400 + (units[next + 1] as u32
                - 0xdc00);
            let c: char = match char::from_u32(value) {
                Some(c) => c,
                None => '?',
            };
            text.push(c);
            assert(rest.subrange(2, rest.len() as int) =~= units@.subrange(next + 2, size as int));
            assert(before + (seq![c] + decoded(units@.subrange(next + 2, size as int))) =~= text@
                + decoded(units@.subrange(next + 2, size as int)));
            next = next + 2;
        } else {
            let c: char = char_of_unit(unit);
            text.push(c);
            assert(rest.subrange(1, rest.len() as int) =~= units@.subrange(next + 1, size as int));
            assert(before + (seq![c] + decoded(units@.subrange(next + 1, size as int))) =~= text@
                + decoded(units@.subrange(next + 1, size as int)));
            next = next + 1;
        }
    }
    assert(text@ =~= decoded(units@));
    text
}

/// A text is what its units encode.
pub proof fn law_decode_undoes_encode(text: Seq<char>, rest: Seq<u16>)
    ensures
        decoded(units_of(text) + rest) == text + decoded(rest),
    decreases text.len(),
{
    if text.len() == 0 {
        assert(units_of(text) + rest =~= rest);
        assert(text + decoded(rest) =~= decoded(rest));
    } else {
        let c = text.last();
        let front = text.drop_last();
        let more = units_of_char(c) + rest;
        assert(units_of(text) + rest =~= units_of(front) + more);
        law_decode_undoes_encode(front, more);
        lemma_decoded_char(c, rest);
        assert(front + (seq![c] + decoded(rest)) =~= text + decoded(rest));
    }
}

proof fn lemma_decoded_char(c: char, rest: Seq<u16>)
    ensures
        decoded(units_of_char(c) + rest) == seq![c] + decoded(rest),
{
    let s = units_of_char(c) + rest;
    if c as u32 <= 0xffff {
        assert(s.subrange(1, s.len() as int) =~= rest);
        assert(!(0xd800 <= c as u32 <= 0xdfff));
        assert(char_of(s[0]) == c);
    } else {
        assert(s.subrange(2, s.len() as int) =~= rest);
        assert(is_high(s[0]) && is_low(s[1]));
    }
}

/// Units among which no two make a pair decode each on its own, a half of one to `?`.
pub proof fn law_units_without_pairs_decode_alone(units: Seq<u16>)
    requires
        forall|i: int| 0 <= i < units.len() - 1 ==> !(is_high(#[trigger] units[i]) && is_low(
            units[i + 1],
        )),
    ensures
        decoded(units).len() == units.len(),
        forall|i: int|
            0 <= i < units.len() ==> #[trigger] decoded(units)[i] == (if 0xd800 <= units[i]
                <= 0xdfff {
                '?'
            } else {
                units[i] as char
            }),
    decreases units.len(),
{
    if units.len() > 0 {
        let rest = units.subrange(1, units.len() as int);
        assert forall|i: int| 0 <= i < rest.len() - 1 implies !(is_high(#[trigger] rest[i])
            && is_low(rest[i + 1])) by {
            assert(rest[i] == units[i + 1] && rest[i + 1] == units[i + 2]);
        }
        law_units_without_pairs_decode_alone(rest);
        assert forall|i: int| 0 <= i < units.len() implies #[trigger] decoded(units)[i] == (
        if 0xd800 <= units[i] <= 0xdfff {
            '?'
        } else {
            units[i] as char
        }) by {
            if i > 0 {
                assert(rest[i - 1] == units[i]);
                assert(decoded(units)[i] == decoded(rest)[i - 1]);
            }
        }
    }
}

} // verus!
