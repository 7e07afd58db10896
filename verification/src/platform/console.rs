//! The UEFI console: simple text input and output over the serial line.
//!
//! Without this an application's `ConOut->OutputString` is a call through a null
//! pointer.
use crate::bytes::{fill, push_slice};
use crate::firmware::uefi::text::{CLEAR, RUB_OUT};
use crate::status::Status;
use crate::terminal::{
    first_mode, initial_mode, low_i32, low_signed, push_utf8, settle, settled, tab_stop, tabbed,
    utf8_of, Dialect, Keyboard, Mode, COLUMNS, ROWS,
};
use crate::utf16::{terminator, until_terminator};
use vstd::prelude::*;

verus! {

/// Where the cursor is, and what has gone out on the line.
#[verifier::ext_equal]
pub struct Print {
    pub column: int,
    pub row: int,
    pub bytes: Seq<u8>,
}

/// What one character does: carriage return and line feed move the cursor, a
/// backspace rubs out unless the cursor is at the start of a line, a tab writes
/// spaces to the next stop, other control characters are dropped, and anything
/// else goes out as UTF-8 and moves the cursor on.
pub open spec fn printed(p: Print, unit: u16) -> Print {
    let q = if unit == 0x0d {
        Print { column: 0, bytes: p.bytes + seq![0x0du8], ..p }
    } else if unit == 0x0a {
        Print { row: p.row + 1, bytes: p.bytes + seq![0x0au8], ..p }
    } else if unit == 0x08 {
        if p.column > 0 {
            Print { column: p.column - 1, bytes: p.bytes + RUB_OUT@, ..p }
        } else {
            p
        }
    } else if unit == 0x09 {
        Print {
            column: tabbed(p.column),
            bytes: p.bytes + fill((tabbed(p.column) - p.column) as nat, 0x20),
            ..p
        }
    } else if unit < 0x20 || unit == 0x7f {
        p
    } else {
        Print { column: p.column + 1, bytes: p.bytes + utf8_of(unit), ..p }
    };
    let (column, row) = settled(q.column, q.row);
    Print { column, row, bytes: q.bytes }
}

/// What characters do, one after the other.
pub open spec fn printed_all(p: Print, units: Seq<u16>) -> Print
    decreases units.len(),
{
    if units.len() == 0 {
        p
    } else {
        printed(printed_all(p, units.drop_last()), units.last())
    }
}

/// A number in decimal digits, as bytes.
pub open spec fn decimal_bytes(value: nat) -> Seq<u8>
    decreases value,
{
    if value < 10 {
        seq![(0x30 + value) as u8]
    } else {
        decimal_bytes(value / 10).push((0x30 + value % 10) as u8)
    }
}

/// Writes a small decimal number, for escape sequences.
fn push_decimal(out: &mut Vec<u8>, value: u32)
    ensures
        final(out)@ == old(out)@ + decimal_bytes(value as nat),
    decreases value,
{
    if value < 10 {
        out.push(0x30 + value as u8);
    } else {
        push_decimal(out, value / 10);
        out.push(0x30 + (value % 10) as u8);
    }
    assert(out@ =~= old(out)@ + decimal_bytes(value as nat));
}

/// An EFI colour's place among a terminal's: EFI colours have red and blue
/// swapped.
pub open spec fn ansi(colour: int) -> int {
    if colour == 1 {
        4
    } else if colour == 3 {
        6
    } else if colour == 4 {
        1
    } else if colour == 6 {
        3
    } else {
        colour
    }
}

fn ansi_colour(colour: u32) -> (code: u32)
    requires
        colour < 8,
    ensures
        code == ansi(colour as int),
        code < 8,
{
    match colour {
        1 => 4,
        3 => 6,
        4 => 1,
        6 => 3,
        other => other,
    }
}

/// The sequence that sets a terminal's colours: the foreground is the low four
/// bits, the fourth of them for bright, and the background the next three.
pub open spec fn colour_sequence(attribute: nat) -> Seq<u8> {
    let foreground = attribute % 16;
    let background = attribute / 16 % 8;
    seq![0x1bu8, 0x5bu8, 0x30u8, 0x3bu8] + (if foreground >= 8 {
        seq![0x31u8, 0x3bu8]
    } else {
        Seq::empty()
    }) + decimal_bytes((30 + ansi((foreground % 8) as int)) as nat) + seq![0x3bu8] + decimal_bytes(
        (40 + ansi(background as int)) as nat,
    ) + seq![0x6du8]
}

/// The sequence that moves a terminal's cursor.
pub open spec fn cursor_sequence(column: nat, row: nat) -> Seq<u8> {
    seq![0x1bu8, 0x5bu8] + decimal_bytes(row + 1) + seq![0x3bu8] + decimal_bytes(column + 1)
        + seq![0x48u8]
}

/// The sequence that shows or hides a terminal's cursor.
pub open spec fn visible_sequence(visible: bool) -> Seq<u8> {
    seq![
        0x1bu8,
        0x5bu8,
        0x3fu8,
        0x32u8,
        0x35u8,
        if visible {
            0x68u8
        } else {
            0x6cu8
        },
    ]
}

/// The console's output: its mode, and the bytes that have gone out.
pub struct Console {
    pub mode: Mode,
    pub sent: Vec<u8>,
}

impl Console {
    pub fn new() -> (console: Console)
        ensures
            console.mode == first_mode(),
            console.sent@ == Seq::<u8>::empty(),
    {
        Console { mode: initial_mode(), sent: Vec::new() }
    }

    /// Where the cursor is, and what has gone out.
    pub open spec fn print(&self) -> Print {
        Print {
            column: self.mode.cursor_column as int,
            row: self.mode.cursor_row as int,
            bytes: self.sent@,
        }
    }

    /// The cursor is on the screen.
    pub open spec fn wf(&self) -> bool {
        0 <= self.mode.cursor_column < COLUMNS && 0 <= self.mode.cursor_row < ROWS
    }

    fn push(&mut self, byte: u8)
        ensures
            final(self).sent@ == old(self).sent@ + seq![byte],
            final(self).mode == old(self).mode,
    {
        self.sent.push(byte);
        assert(self.sent@ =~= old(self).sent@ + seq![byte]);
    }

    /// Puts one character out.
    fn put(&mut self, unit: u16)
        requires
            old(self).wf(),
        ensures
            final(self).wf(),
            final(self).print() == printed(old(self).print(), unit),
            final(self).mode == (Mode {
                cursor_column: final(self).mode.cursor_column,
                cursor_row: final(self).mode.cursor_row,
                ..old(self).mode
            }),
    {
        let mut column: i64 = self.mode.cursor_column as i64;
        let mut row: i64 = self.mode.cursor_row as i64;
        let ghost before = self.sent@;
        if unit == 0x0d {
            column = 0;
            self.push(0x0d);
        } else if unit == 0x0a {
            row = row + 1;
            self.push(0x0a);
        } else if unit == 0x08 {
            if column > 0 {
                column = column - 1;
                push_slice(&mut self.sent, &RUB_OUT);
            }
        } else if unit == 0x09 {
            let stop: i32 = tab_stop(self.mode.cursor_column);
            let mut done: i64 = column;
            assert(self.sent@ =~= before + fill(0, 0x20));
            while done < stop as i64
                invariant
                    column <= done <= stop,
                    self.sent@ == before + fill((done - column) as nat, 0x20),
                    self.mode == old(self).mode,
                decreases stop - done,
            {
                self.sent.push(0x20);
                done = done + 1;
                assert(self.sent@ =~= before + fill((done - column) as nat, 0x20));
            }
            column = stop as i64;
        } else if unit < 0x20 || unit == 0x7f {
        } else {
            push_utf8(&mut self.sent, unit);
            column = column + 1;
        }
        let (column, row): (i32, i32) = settle(column, row);
        self.mode.cursor_column = column;
        self.mode.cursor_row = row;
    }

    /// `OutputString`.
    pub fn output_string(&mut self, string: Option<&[u16]>) -> (status: Status)
        requires
            old(self).wf(),
            string is Some ==> terminator(string->0@) < string->0@.len(),
        ensures
            final(self).wf(),
            match string {
                None => status == Status::InvalidParameter && *final(self) == *old(self),
                Some(string) => {
                    &&& status == Status::Success
                    &&& final(self).print() == printed_all(
                        old(self).print(),
                        string@.subrange(0, terminator(string@)),
                    )
                    &&& final(self).mode == (Mode {
                        cursor_column: final(self).mode.cursor_column,
                        cursor_row: final(self).mode.cursor_row,
                        ..old(self).mode
                    })
                },
            },
    {
        let string: &[u16] = match string {
            Some(string) => string,
            None => {
                return Status::InvalidParameter;
            },
        };
        let size: usize = string.len();
        let units: Vec<u16> = match until_terminator(string, size) {
            Some(units) => units,
            None => Vec::new(),
        };
        let ghost start = self.print();
        let ghost mode = self.mode;
        let mut next: usize = 0;
        assert(units@.subrange(0, 0) =~= Seq::<u16>::empty());
        while next < units.len()
            invariant
                next <= units@.len(),
                self.wf(),
                self.print() == printed_all(start, units@.subrange(0, next as int)),
                self.mode == (Mode {
                    cursor_column: self.mode.cursor_column,
                    cursor_row: self.mode.cursor_row,
                    ..mode
                }),
            decreases units@.len() - next,
        {
            proof {
                let more = units@.subrange(0, next + 1);
                assert(more.drop_last() =~= units@.subrange(0, next as int));
                assert(more.last() == units@[next as int]);
            }
            self.put(units[next]);
            next = next + 1;
        }
        assert(units@.subrange(0, next as int) =~= units@);
        Status::Success
    }

    /// `TestString`: everything is printable.
    pub fn test_string(&self) -> (status: Status)
        ensures
            status == Status::Success,
    {
        Status::Success
    }

    /// `QueryMode`: the columns and rows of the one mode.
    pub fn query_mode(&self, mode_number: usize, out: bool) -> (size: Result<
        (usize, usize),
        Status,
    >)
        ensures
            size == (if mode_number != 0 {
                Err::<(usize, usize), Status>(Status::Unsupported)
            } else if !out {
                Err::<(usize, usize), Status>(Status::InvalidParameter)
            } else {
                Ok::<(usize, usize), Status>((80usize, 25usize))
            }),
    {
        if mode_number != 0 {
            return Err(Status::Unsupported);
        }
        if !out {
            return Err(Status::InvalidParameter);
        }
        Ok((80, 25))
    }

    /// `Reset` and `ClearScreen`.
    pub fn clear_screen(&mut self) -> (status: Status)
        ensures
            status == Status::Success,
            final(self).sent@ == old(self).sent@ + CLEAR@,
            final(self).mode == (Mode { cursor_column: 0, cursor_row: 0, ..old(self).mode }),
    {
        push_slice(&mut self.sent, &CLEAR);
        self.mode.cursor_column = 0;
        self.mode.cursor_row = 0;
        Status::Success
    }

    /// `SetMode`: there is one, and setting it clears the screen.
    pub fn set_mode(&mut self, mode_number: usize) -> (status: Status)
        ensures
            if mode_number != 0 {
                status == Status::Unsupported && *final(self) == *old(self)
            } else {
                &&& status == Status::Success
                &&& final(self).sent@ == old(self).sent@ + CLEAR@
                &&& final(self).mode == (Mode { cursor_column: 0, cursor_row: 0, ..old(self).mode })
            },
    {
        if mode_number != 0 {
            return Status::Unsupported;
        }
        self.clear_screen()
    }

    /// `SetAttribute`.
    pub fn set_attribute(&mut self, attribute: usize) -> (status: Status)
        ensures
            status == Status::Success,
            final(self).sent@ == old(self).sent@ + colour_sequence(attribute as nat),
            final(self).mode == (Mode {
                attribute: low_signed(attribute as nat) as i32,
                ..old(self).mode
            }),
    {
        self.mode.attribute = low_i32(attribute);
        let foreground: u32 = (attribute % 16) as u32;
        let background: u32 = (attribute / 16 % 8) as u32;
        let ghost before = self.sent@;
        self.push(0x1b);
        self.push(0x5b);
        self.push(0x30);
        self.push(0x3b);
        if foreground >= 8 {
            self.push(0x31);
            self.push(0x3b);
        }
        push_decimal(&mut self.sent, 30 + ansi_colour(foreground % 8));
        self.push(0x3b);
        push_decimal(&mut self.sent, 40 + ansi_colour(background));
        self.push(0x6d);
        assert(self.sent@ =~= before + colour_sequence(attribute as nat));
        Status::Success
    }

    /// `SetCursorPosition`.
    pub fn set_cursor_position(&mut self, column: usize, row: usize) -> (status: Status)
        ensures
            if column >= COLUMNS || row >= ROWS {
                status == Status::Unsupported && *final(self) == *old(self)
            } else {
                &&& status == Status::Success
                &&& final(self).sent@ == old(self).sent@ + cursor_sequence(
                    column as nat,
                    row as nat,
                )
                &&& final(self).mode == (Mode {
                    cursor_column: column as i32,
                    cursor_row: row as i32,
                    ..old(self).mode
                })
            },
    {
        if column >= 80 || row >= 25 {
            return Status::Unsupported;
        }
        let ghost before = self.sent@;
        self.push(0x1b);
        self.push(0x5b);
        push_decimal(&mut self.sent, row as u32 + 1);
        self.push(0x3b);
        push_decimal(&mut self.sent, column as u32 + 1);
        self.push(0x48);
        assert(self.sent@ =~= before + cursor_sequence(column as nat, row as nat));
        self.mode.cursor_column = column as i32;
        self.mode.cursor_row = row as i32;
        Status::Success
    }

    /// `EnableCursor`.
    pub fn enable_cursor(&mut self, visible: bool) -> (status: Status)
        ensures
            status == Status::Success,
            final(self).sent@ == old(self).sent@ + visible_sequence(visible),
            final(self).mode == (Mode { cursor_visible: visible, ..old(self).mode }),
    {
        let ghost before = self.sent@;
        self.push(0x1b);
        self.push(0x5b);
        self.push(0x3f);
        self.push(0x32);
        self.push(0x35);
        self.push(
            if visible {
                0x68
            } else {
                0x6c
            },
        );
        assert(self.sent@ =~= before + visible_sequence(visible));
        self.mode.cursor_visible = visible;
        Status::Success
    }
}

/// The console's input.
pub fn input() -> (keyboard: Keyboard)
    ensures
        keyboard.pending@ == Seq::<u8>::empty(),
        keyboard.dialect == Dialect::Full,
{
    Keyboard::new(Dialect::Full)
}

/// The cursor stays on the screen, whatever is printed.
pub proof fn law_cursor_stays_on_screen(p: Print, units: Seq<u16>)
    requires
        0 <= p.column < COLUMNS,
        0 <= p.row < ROWS,
    ensures
        0 <= printed_all(p, units).column < COLUMNS,
        0 <= printed_all(p, units).row < ROWS,
    decreases units.len(),
{
    if units.len() > 0 {
        law_cursor_stays_on_screen(p, units.drop_last());
    }
}

/// Characters are put out one after the other: two runs of them as the first and then the
/// second. One that is no control character goes out as UTF-8, behind what went out before.
pub proof fn law_characters_go_out_in_order(p: Print, a: Seq<u16>, b: Seq<u16>, unit: u16)
    ensures
        printed_all(p, a + b) == printed_all(printed_all(p, a), b),
        printed_all(p, Seq::empty()) == p,
        unit >= 0x20 && unit != 0x7f ==> printed_all(p, a.push(unit)).bytes == printed_all(
            p,
            a,
        ).bytes + utf8_of(unit),
    decreases b.len(),
{
    assert(a.push(unit).drop_last() =~= a);
    if b.len() == 0 {
        assert(a + b =~= a);
    } else {
        law_characters_go_out_in_order(p, a, b.drop_last(), unit);
        assert((a + b).drop_last() =~= a + b.drop_last());
    }
}

/// The number that digits in ASCII spell.
pub open spec fn spelt_in_bytes(s: Seq<u8>) -> nat
    decreases s.len(),
{
    if s.len() == 0 {
        0
    } else {
        spelt_in_bytes(s.drop_last()) * 10 + (s.last() - 0x30) as nat
    }
}

/// A number in decimal digits spells that number.
pub proof fn law_decimal_bytes_spell_the_number(value: nat)
    ensures
        spelt_in_bytes(decimal_bytes(value)) == value,
        forall|i: int|
            0 <= i < decimal_bytes(value).len() ==> 0x30 <= #[trigger] decimal_bytes(value)[i]
                <= 0x39,
    decreases value,
{
    let s = decimal_bytes(value);
    if value < 10 {
        reveal_with_fuel(spelt_in_bytes, 2);
        assert(s.drop_last() =~= Seq::<u8>::empty());
    } else {
        law_decimal_bytes_spell_the_number(value / 10);
        assert(s.drop_last() =~= decimal_bytes(value / 10));
    }
}

/// Where characters move the cursor: a carriage return to the start of the line, a line feed to
/// the next one, a backspace back by one, at the start of the line nowhere, and one that is no
/// control character on by one, to the next line past the end of this one. The screen's last
/// line is where it stays.
pub proof fn law_characters_move_the_cursor(p: Print, unit: u16)
    requires
        0 <= p.column < COLUMNS,
        0 <= p.row < ROWS,
    ensures
        ({
            let q = printed(p, unit);
            let below = if p.row + 1 < ROWS {
                p.row + 1
            } else {
                p.row
            };
            &&& unit == 0x0d ==> q.column == 0 && q.row == p.row
            &&& unit == 0x0a ==> q.column == p.column && q.row == below
            &&& unit == 0x08 && p.column > 0 ==> q.column + 1 == p.column && q.row == p.row
            &&& unit == 0x08 && p.column == 0 ==> q == p
            &&& unit >= 0x20 && unit != 0x7f && p.column + 1 < COLUMNS ==> q.column == p.column + 1
                && q.row == p.row
            &&& unit >= 0x20 && unit != 0x7f && p.column + 1 == COLUMNS ==> q.column == 0 && q.row
                == below
        }),
{
}

/// A terminal's colours are EFI's with the bits of red and blue exchanged.
pub proof fn law_red_and_blue_are_exchanged(colour: int)
    requires
        0 <= colour < 8,
    ensures
        ansi(colour) == 4 * (colour % 2) + 2 * (colour / 2 % 2) + colour / 4,
        ansi(ansi(colour)) == colour,
{
}

} // verus!
