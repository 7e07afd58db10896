//! What the consoles have in common: characters as bytes on a serial line, and
//! the escape sequences a terminal sends for its keys.

use vstd::prelude::*;

verus! {

/// The screen the firmware reports: the serial console has no modes, but the
/// protocol wants one, and this is the one an application can rely on being told
/// about.
pub const COLUMNS: i32 = 80;

pub const ROWS: i32 = 25;

/// What a text-output protocol says of itself.
#[derive(Clone, Copy, PartialEq, Eq, Structural, Debug)]
pub struct Mode {
    pub max_mode: i32,
    pub mode: i32,
    pub attribute: i32,
    pub cursor_column: i32,
    pub cursor_row: i32,
    pub cursor_visible: bool,
}

/// The mode a console starts in.
pub open spec fn first_mode() -> Mode {
    Mode {
        max_mode: 1,
        mode: 0,
        attribute: 7,
        cursor_column: 0,
        cursor_row: 0,
        cursor_visible: true,
    }
}

/// The mode a console starts in.
pub fn initial_mode() -> (mode: Mode)
    ensures
        mode == first_mode(),
{
    Mode {
        max_mode: 1,
        mode: 0,
        attribute: 7,
        cursor_column: 0,
        cursor_row: 0,
        cursor_visible: true,
    }
}

/// A character of the basic plane as UTF-8.
pub open spec fn utf8_of(unit: u16) -> Seq<u8> {
    if unit < 0x80 {
        seq![unit as u8]
    } else if unit < 0x800 {
        seq![(0xc0 + unit / 64) as u8, (0x80 + unit % 64) as u8]
    } else {
        seq![
            (0xe0 + unit / 4096) as u8,
            (0x80 + unit / 64 % 64) as u8,
            (0x80 + unit % 64) as u8,
        ]
    }
}

/// Appends a character of the basic plane as UTF-8.
pub fn push_utf8(out: &mut Vec<u8>, unit: u16)
    ensures
        final(out)@ == old(out)@ + utf8_of(unit),
{
    if unit < 0x80 {
        out.push(unit as u8);
    } else if unit < 0x800 {
        out.push((0xc0 + unit / 64) as u8);
        out.push((0x80 + unit % 64) as u8);
    } else {
        out.push((0xe0 + unit / 4096) as u8);
        out.push((0x80 + unit / 64 % 64) as u8);
        out.push((0x80 + unit % 64) as u8);
    }
    assert(out@ =~= old(out)@ + utf8_of(unit));
}

/// Where a tab leads from a column: the next multiple of eight, not past the
/// screen, and never back.
pub open spec fn tabbed(column: int) -> int {
    let stop = if column >= 0 {
        (column / 8 + 1) * 8
    } else {
        (1 - (-column) / 8) * 8
    };
    let stop = if stop > COLUMNS {
        COLUMNS as int
    } else {
        stop
    };
    if column < stop {
        stop
    } else {
        column
    }
}

/// Where a tab leads from a column.
pub fn tab_stop(column: i32) -> (to: i32)
    ensures
        to == tabbed(column as int),
        column <= to,
{
    let wide: i64 = column as i64;
    let stop: i64 = if wide >= 0 {
        (wide / 8 + 1) * 8
    } else {
        (1 - ((0 - wide) / 8)) * 8
    };
    let stop: i64 = if stop > 80 {
        80
    } else {
        stop
    };
    if wide < stop {
        stop as i32
    } else {
        column
    }
}

/// The low 32 bits of a number, as a signed one.
pub open spec fn low_signed(n: nat) -> int {
    let low = n % 0x1_0000_0000;
    if low >= 0x8000_0000 {
        low - 0x1_0000_0000
    } else {
        low as int
    }
}

/// The low 32 bits of a number, as a signed one.
pub fn low_i32(n: usize) -> (low: i32)
    ensures
        low == low_signed(n as nat),
{
    let low: u64 = n as u64 % 0x1_0000_0000;
    if low >= 0x8000_0000 {
        (low as i64 - 0x1_0000_0000) as i32
    } else {
        low as i32
    }
}

/// The cursor after a character: past the last column it goes to the next line,
/// and it stays on the last line.
pub open spec fn settled(column: int, row: int) -> (int, int) {
    let (column, row) = if column >= COLUMNS {
        (0, row + 1)
    } else {
        (column, row)
    };
    (
        column,
        if row >= ROWS {
            ROWS - 1
        } else {
            row
        },
    )
}

/// The cursor after a character.
pub fn settle(column: i64, row: i64) -> (to: (i32, i32))
    requires
        i32::MIN <= column <= i32::MAX + 1,
        i32::MIN <= row <= i32::MAX + 1,
    ensures
        to.0 == settled(column as int, row as int).0,
        to.1 == settled(column as int, row as int).1,
{
    let (column, row): (i64, i64) = if column >= 80 {
        (0, row + 1)
    } else {
        (column, row)
    };
    (
        column as i32,
        if row >= 25 {
            24
        } else {
            row as i32
        },
    )
}

/// A key, as the specification names it.
#[derive(Clone, Copy, PartialEq, Eq, Structural, Debug)]
pub struct Key {
    pub scan_code: u16,
    pub unicode: u16,
}

/// How many bytes there are up to and with the first `~`, or at all.
pub open spec fn through_tilde(s: Seq<u8>) -> int
    decreases s.len(),
{
    if s.len() == 0 {
        0
    } else if s[0] == 0x7e {
        1
    } else {
        1 + through_tilde(s.drop_first())
    }
}

/// What a dialect makes of the keys that have a sequence of their own.
#[derive(Clone, Copy, PartialEq, Eq, Structural, Debug)]
pub enum Dialect {
    /// An escape that no sequence follows is a character; one that nothing follows
    /// is no key at all.
    Plain,
    /// An escape that no sequence follows is the escape key.
    Full,
}

/// The scan code of a cursor key's letter.
pub open spec fn letter_code(byte: u8) -> u16 {
    if byte == 0x41 {
        1
    } else if byte == 0x42 {
        2
    } else if byte == 0x43 {
        3
    } else if byte == 0x44 {
        4
    } else if byte == 0x48 {
        5
    } else if byte == 0x46 {
        6
    } else {
        0
    }
}

/// The scan code of an editing key's number.
pub open spec fn number_code(byte: u8, dialect: Dialect) -> u16 {
    if byte == 0x31 {
        0x05
    } else if byte == 0x33 {
        0x08
    } else if byte == 0x34 {
        0x06
    } else if dialect == Dialect::Plain {
        if byte == 0x35 {
            0x0a
        } else if byte == 0x36 {
            0x18
        } else {
            0
        }
    } else if byte == 0x32 {
        0x07
    } else if byte == 0x35 {
        0x09
    } else if byte == 0x36 {
        0x0a
    } else {
        0
    }
}

/// The key that waiting bytes begin with, and how many of them it takes. Bytes of
/// a sequence that breaks off are taken all the same.
pub open spec fn key_in(s: Seq<u8>, dialect: Dialect) -> (Option<Key>, int) {
    if s.len() == 0 {
        (None, 0)
    } else if s[0] == 0x0d || s[0] == 0x0a {
        (Some(Key { scan_code: 0, unicode: 0x0d }), 1)
    } else if s[0] == 0x08 || s[0] == 0x7f {
        (Some(Key { scan_code: 0, unicode: 0x08 }), 1)
    } else if s[0] == 0x09 {
        (Some(Key { scan_code: 0, unicode: 0x09 }), 1)
    } else if s[0] == 0x1b {
        let bare = if dialect == Dialect::Plain {
            Key { scan_code: 0, unicode: 0x1b }
        } else {
            Key { scan_code: 0x17, unicode: 0 }
        };
        if s.len() == 1 {
            (
                if dialect == Dialect::Plain {
                    None
                } else {
                    Some(bare)
                },
                1,
            )
        } else if s[1] != 0x5b && s[1] != 0x4f {
            (Some(bare), 2)
        } else if s.len() == 2 {
            (None, 2)
        } else if 0x30 <= s[2] <= 0x39 {
            (
                Some(Key { scan_code: number_code(s[2], dialect), unicode: 0 }),
                3 + through_tilde(s.subrange(3, s.len() as int)),
            )
        } else {
            (Some(Key { scan_code: letter_code(s[2]), unicode: 0 }), 3)
        }
    } else if 0x20 <= s[0] < 0x7f {
        (Some(Key { scan_code: 0, unicode: s[0] as u16 }), 1)
    } else {
        (Some(Key { scan_code: 0, unicode: 0 }), 1)
    }
}

fn key_letter(byte: u8) -> (code: u16)
    ensures
        code == letter_code(byte),
{
    match byte {
        0x41 => 1,
        0x42 => 2,
        0x43 => 3,
        0x44 => 4,
        0x48 => 5,
        0x46 => 6,
        _ => 0,
    }
}

fn key_number(byte: u8, dialect: Dialect) -> (code: u16)
    ensures
        code == number_code(byte, dialect),
{
    if byte == 0x31 {
        return 0x05;
    }
    if byte == 0x33 {
        return 0x08;
    }
    if byte == 0x34 {
        return 0x06;
    }
    if dialect == Dialect::Plain {
        return match byte {
            0x35 => 0x0a,
            0x36 => 0x18,
            _ => 0,
        };
    }
    match byte {
        0x32 => 0x07,
        0x35 => 0x09,
        0x36 => 0x0a,
        _ => 0,
    }
}

/// Where the first `~` from an index on ends, or the end.
fn skip_tilde(s: &Vec<u8>, from: usize) -> (end: usize)
    requires
        from <= s@.len(),
    ensures
        end == from + through_tilde(s@.subrange(from as int, s@.len() as int)),
        end <= s@.len(),
{
    let mut at: usize = from;
    while at < s.len()
        invariant
            from <= at <= s@.len(),
            from + through_tilde(s@.subrange(from as int, s@.len() as int)) == at + through_tilde(
                s@.subrange(at as int, s@.len() as int),
            ),
        decreases s@.len() - at,
    {
        let ghost rest = s@.subrange(at as int, s@.len() as int);
        assert(rest.drop_first() =~= s@.subrange(at + 1, s@.len() as int));
        if s[at] == 0x7e {
            return at + 1;
        }
        at = at + 1;
    }
    at
}

/// The bytes that wait on the serial line.
pub struct Keyboard {
    pub pending: Vec<u8>,
    pub dialect: Dialect,
}

impl Keyboard {
    pub fn new(dialect: Dialect) -> (keyboard: Keyboard)
        ensures
            keyboard.pending@ == Seq::<u8>::empty(),
            keyboard.dialect == dialect,
    {
        Keyboard { pending: Vec::new(), dialect }
    }

    /// Takes a byte from the line.
    pub fn receive(&mut self, byte: u8)
        ensures
            final(self).pending@ == old(self).pending@.push(byte),
            final(self).dialect == old(self).dialect,
    {
        self.pending.push(byte);
    }

    /// Whether a byte is waiting.
    pub fn has_pending_key(&self) -> (waiting: bool)
        ensures
            waiting == (self.pending@.len() > 0),
    {
        self.pending.len() > 0
    }

    /// Drains whatever the terminal has already sent: a reset means "start from
    /// here", not "play back the typing that happened before I started".
    pub fn input_reset(&mut self)
        ensures
            final(self).pending@ == Seq::<u8>::empty(),
            final(self).dialect == old(self).dialect,
    {
        self.pending = Vec::new();
    }

    /// Reads and decodes one key, if one is waiting.
    pub fn read_key(&mut self) -> (key: Option<Key>)
        ensures
            final(self).dialect == old(self).dialect,
            ({
                let (pressed, taken) = key_in(old(self).pending@, old(self).dialect);
                &&& key == pressed
                &&& 0 <= taken <= old(self).pending@.len()
                &&& final(self).pending@ == old(self).pending@.subrange(
                    taken,
                    old(self).pending@.len() as int,
                )
            }),
    {
        let (key, taken): (Option<Key>, usize) = self.decode();
        let rest: Vec<u8> = crate::bytes::copy_range(&self.pending, taken, self.pending.len());
        self.pending = rest;
        key
    }

    fn decode(&self) -> (found: (Option<Key>, usize))
        ensures
            found.0 == key_in(self.pending@, self.dialect).0,
            found.1 == key_in(self.pending@, self.dialect).1,
            found.1 <= self.pending@.len(),
    {
        let s: &Vec<u8> = &self.pending;
        if s.len() == 0 {
            return (None, 0);
        }
        let byte: u8 = s[0];
        if byte == 0x0d || byte == 0x0a {
            return (Some(Key { scan_code: 0, unicode: 0x0d }), 1);
        }
        if byte == 0x08 || byte == 0x7f {
            return (Some(Key { scan_code: 0, unicode: 0x08 }), 1);
        }
        if byte == 0x09 {
            return (Some(Key { scan_code: 0, unicode: 0x09 }), 1);
        }
        if byte == 0x1b {
            let bare: Key = if self.dialect == Dialect::Plain {
                Key { scan_code: 0, unicode: 0x1b }
            } else {
                Key { scan_code: 0x17, unicode: 0 }
            };
            if s.len() == 1 {
                if self.dialect == Dialect::Plain {
                    return (None, 1);
                }
                return (Some(bare), 1);
            }
            if s[1] != 0x5b && s[1] != 0x4f {
                return (Some(bare), 2);
            }
            if s.len() == 2 {
                return (None, 2);
            }
            if s[2] >= 0x30 && s[2] <= 0x39 {
                return (
                    Some(Key { scan_code: key_number(s[2], self.dialect), unicode: 0 }),
                    skip_tilde(s, 3),
                );
            }
            return (Some(Key { scan_code: key_letter(s[2]), unicode: 0 }), 3);
        }
        if byte >= 0x20 && byte < 0x7f {
            return (Some(Key { scan_code: 0, unicode: byte as u16 }), 1);
        }
        (Some(Key { scan_code: 0, unicode: 0 }), 1)
    }
}

/// Bytes are taken up to and with the first tilde, or all where there is none.
pub proof fn law_taken_through_the_tilde(s: Seq<u8>, k: int)
    requires
        0 <= k <= s.len(),
        forall|i: int| 0 <= i < k ==> #[trigger] s[i] != 0x7e,
        k < s.len() ==> s[k] == 0x7e,
    ensures
        through_tilde(s) == (if k < s.len() {
            k + 1
        } else {
            k
        }),
    decreases s.len(),
{
    if s.len() > 0 && k > 0 {
        assert(s[0] != 0x7e);
        let rest = s.drop_first();
        assert forall|i: int| 0 <= i < k - 1 implies #[trigger] rest[i] != 0x7e by {
            assert(rest[i] == s[i + 1]);
        }
        law_taken_through_the_tilde(rest, k - 1);
    }
}

/// A key that is typed is the key that is read, whatever is typed behind it, and takes its
/// own bytes alone: a printable character, return, tab, backspace, and an arrow.
pub proof fn law_typed_key_is_read(c: u8, letter: u8, code: u16, behind: Seq<u8>, dialect: Dialect)
    requires
        0x20 <= c < 0x7f,
        (letter == 0x41 && code == 1) || (letter == 0x42 && code == 2) || (letter == 0x43 && code
            == 3) || (letter == 0x44 && code == 4),
    ensures
        key_in(seq![c] + behind, dialect) == (
            Some(Key { scan_code: 0, unicode: c as u16 }),
            1int,
        ),
        key_in(seq![0x0du8] + behind, dialect) == (
            Some(Key { scan_code: 0, unicode: 0x0d }),
            1int,
        ),
        key_in(seq![0x09u8] + behind, dialect) == (
            Some(Key { scan_code: 0, unicode: 0x09 }),
            1int,
        ),
        key_in(seq![0x7fu8] + behind, dialect) == (
            Some(Key { scan_code: 0, unicode: 0x08 }),
            1int,
        ),
        key_in(seq![0x1bu8, 0x5bu8, letter] + behind, dialect) == (
            Some(Key { scan_code: code, unicode: 0 }),
            3int,
        ),
{
    assert((seq![c] + behind)[0] == c);
    assert((seq![0x0du8] + behind)[0] == 0x0d);
    assert((seq![0x09u8] + behind)[0] == 0x09);
    assert((seq![0x7fu8] + behind)[0] == 0x7f);
    let s = seq![0x1bu8, 0x5bu8, letter] + behind;
    assert(s[0] == 0x1b && s[1] == 0x5b && s[2] == letter);
}

/// A character of the basic plane goes out as its UTF-8 encoding.
pub proof fn law_utf8_is_the_encoding(unit: u16)
    requires
        unit < 0xd800 || unit > 0xdfff,
    ensures
        utf8_of(unit) == vstd::utf8::encode_scalar(unit as u32),
{
    let v: u32 = unit as u32;
    assert(v < 0x80 ==> (v & 0x7f) as u8 == v as u8) by (bit_vector);
    assert(v < 0x800 ==> (0xC0 | ((v >> 6) & 0x1F) as u8) == (0xc0 + v / 64) as u8) by (bit_vector);
    assert((0x80 | (v & 0x3F) as u8) == (0x80 + v % 64) as u8) by (bit_vector);
    assert((0x80 | ((v >> 6) & 0x3F) as u8) == (0x80 + v / 64 % 64) as u8) by (bit_vector);
    assert(v < 0x1_0000 ==> (0xE0 | ((v >> 12) & 0x0F) as u8) == (0xe0 + v / 4096) as u8)
        by (bit_vector);
    assert(utf8_of(unit) =~= vstd::utf8::encode_scalar(unit as u32));
}

/// A tab leads on to the next multiple of eight.
pub proof fn law_tab_goes_to_the_next_stop(column: int)
    requires
        0 <= column < COLUMNS,
    ensures
        tabbed(column) % 8 == 0,
        column < tabbed(column) <= column + 8,
{
}

/// A cursor on the screen stays where it is, one past the end of a line goes to the start of
/// the next, and one past the last line to the last.
pub proof fn law_cursor_settles(column: int, row: int)
    requires
        0 <= column <= COLUMNS,
        0 <= row <= ROWS,
    ensures
        column < COLUMNS && row < ROWS ==> settled(column, row) == (column, row),
        column == COLUMNS && row < ROWS - 1 ==> settled(column, row) == (0int, row + 1),
        column == COLUMNS && row >= ROWS - 1 ==> settled(column, row) == (0int, ROWS - 1),
        column < COLUMNS && row == ROWS ==> settled(column, row) == (column, ROWS - 1),
{
}

/// The low half of a number as a signed one: it differs from the number by a multiple of two
/// to the 32nd.
pub proof fn law_low_half_is_signed(n: nat)
    ensures
        -0x8000_0000 <= low_signed(n) < 0x8000_0000,
        (n - low_signed(n)) % 0x1_0000_0000 == 0,
{
    let low = n % 0x1_0000_0000;
    vstd::arithmetic::div_mod::lemma_fundamental_div_mod(n as int, 0x1_0000_0000);
    let q = n as int / 0x1_0000_0000;
    if low >= 0x8000_0000 {
        vstd::arithmetic::div_mod::lemma_fundamental_div_mod_converse(
            n - low_signed(n),
            0x1_0000_0000,
            q + 1,
            0,
        );
    } else {
        vstd::arithmetic::div_mod::lemma_fundamental_div_mod_converse(
            n - low_signed(n),
            0x1_0000_0000,
            q,
            0,
        );
    }
}

} // verus!
