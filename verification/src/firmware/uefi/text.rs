//! The console protocols: `EFI_SIMPLE_TEXT_OUTPUT` and `EFI_SIMPLE_TEXT_INPUT`,
//! both over the serial line.
//!
//! Text output is what a boot loader's messages, and this firmware's own log, come
//! out as: UTF-16 in, bytes on the serial line, with carriage return and line feed
//! handled the way a terminal expects. Text input decodes the escape sequences a
//! terminal sends for the cursor keys into the specification's scan codes.
use crate::bytes::{fill, push_slice};
use crate::status::Status;
use crate::terminal::{
    first_mode, initial_mode, key_in, low_i32, low_signed, push_utf8, settle, settled, tab_stop,
    tabbed, utf8_of, Dialect, Key, Keyboard, Mode, COLUMNS, ROWS,
};
use crate::utf16::{terminator, until_terminator};
use vstd::prelude::*;

verus! {

/// How many units of a string are looked at for its terminator.
pub const MAX_STRING: usize = 0x10_0000;

/// `ESC [ 2 J ESC [ H`: clears a terminal's screen and moves its cursor home.
pub const CLEAR: [u8; 7] = [0x1b, 0x5b, 0x32, 0x4a, 0x1b, 0x5b, 0x48];

/// Backspace, space, backspace: rubs a character out.
pub const RUB_OUT: [u8; 3] = [0x08, 0x20, 0x08];

/// Where the cursor is, and what has gone out on the line.
#[verifier::ext_equal]
pub struct Print {
    pub column: int,
    pub row: int,
    pub bytes: Seq<u8>,
}

/// What one character does: carriage return and line feed move the cursor, a tab
/// writes spaces to the next stop, a backspace rubs out, other control characters
/// are dropped, and anything else goes out as UTF-8.
pub open spec fn printed(p: Print, unit: u16) -> Print {
    let q = if unit == 0x0d {
        Print { column: 0, bytes: p.bytes + seq![0x0du8], ..p }
    } else if unit == 0x0a {
        Print { row: p.row + 1, bytes: p.bytes + seq![0x0au8], ..p }
    } else if unit == 0x09 {
        Print {
            column: tabbed(p.column),
            bytes: p.bytes + fill((tabbed(p.column) - p.column) as nat, 0x20),
            ..p
        }
    } else if unit == 0x08 {
        Print {
            column: if p.column > 1 {
                p.column - 1
            } else {
                0
            },
            bytes: p.bytes + RUB_OUT@,
            ..p
        }
    } else if unit < 0x20 || unit == 0x7f {
        p
    } else {
        Print { bytes: p.bytes + utf8_of(unit), ..p }
    };
    let (column, row) = settled(q.column, q.row);
    Print { column, row, bytes: q.bytes }
}

/// What characters do, one after the other.
pub open spec fn printed_all(p: Print, units: Seq<u16>) -> Print
    decreases units.len(),
{
    if units.len() == 0 {
        p
    } else {
        printed(printed_all(p, units.drop_last()), units.last())
    }
}

/// The console's output: its mode, and the bytes that have gone out.
pub struct Output {
    pub mode: Mode,
    pub sent: Vec<u8>,
}

impl Output {
    /// Builds the console protocol.
    pub fn init() -> (output: Output)
        ensures
            output.mode == first_mode(),
            output.sent@ == Seq::<u8>::empty(),
    {
        Output { mode: initial_mode(), sent: Vec::new() }
    }

    /// Where the cursor is, and what has gone out.
    pub open spec fn print(&self) -> Print {
        Print {
            column: self.mode.cursor_column as int,
            row: self.mode.cursor_row as int,
            bytes: self.sent@,
        }
    }

    /// `Reset`.
    pub fn output_reset(&mut self) -> (status: Status)
        ensures
            status == Status::Success,
            final(self).sent@ == old(self).sent@,
            final(self).mode == (Mode { cursor_column: 0, cursor_row: 0, ..old(self).mode }),
    {
        self.mode.cursor_column = 0;
        self.mode.cursor_row = 0;
        Status::Success
    }

    /// Puts one character out.
    fn put(&mut self, unit: u16)
        ensures
            final(self).print() == printed(old(self).print(), unit),
            final(self).mode == (Mode {
                cursor_column: final(self).mode.cursor_column,
                cursor_row: final(self).mode.cursor_row,
                ..old(self).mode
            }),
    {
        let mut column: i64 = self.mode.cursor_column as i64;
        let mut row: i64 = self.mode.cursor_row as i64;
        let ghost before = self.sent@;
        if unit == 0x0d {
            column = 0;
            self.sent.push(0x0d);
            assert(self.sent@ =~= before + seq![0x0du8]);
        } else if unit == 0x0a {
            row = row + 1;
            self.sent.push(0x0a);
            assert(self.sent@ =~= before + seq![0x0au8]);
        } else if unit == 0x09 {
            let stop: i32 = tab_stop(self.mode.cursor_column);
            let mut done: i64 = column;
            assert(self.sent@ =~= before + fill(0, 0x20));
            while done < stop as i64
                invariant
                    column <= done <= stop,
                    self.sent@ == before + fill((done - column) as nat, 0x20),
                    self.mode == old(self).mode,
                decreases stop - done,
            {
                self.sent.push(0x20);
                done = done + 1;
                assert(self.sent@ =~= before + fill((done - column) as nat, 0x20));
            }
            column = stop as i64;
        } else if unit == 0x08 {
            column = if column > 1 {
                column - 1
            } else {
                0
            };
            push_slice(&mut self.sent, &RUB_OUT);
        } else if unit < 0x20 || unit == 0x7f {
        } else {
            push_utf8(&mut self.sent, unit);
        }
        let (column, row): (i32, i32) = settle(column, row);
        self.mode.cursor_column = column;
        self.mode.cursor_row = row;
    }

    /// `OutputString`: UTF-16 in, bytes out.
    pub fn output_string(&mut self, string: Option<&[u16]>) -> (status: Status)
        ensures
            ({
                let ended = string is Some && terminator(string->0@) <= MAX_STRING && terminator(
                    string->0@,
                ) < string->0@.len();
                if ended {
                    &&& status == Status::Success
                    &&& final(self).print() == printed_all(
                        old(self).print(),
                        string->0@.subrange(0, terminator(string->0@)),
                    )
                    &&& final(self).mode == (Mode {
                        cursor_column: final(self).mode.cursor_column,
                        cursor_row: final(self).mode.cursor_row,
                        ..old(self).mode
                    })
                } else {
                    status == Status::InvalidParameter && *final(self) == *old(self)
                }
            }),
    {
        let string: &[u16] = match string {
            Some(string) => string,
            None => {
                return Status::InvalidParameter;
            },
        };
        let units: Vec<u16> = match until_terminator(string, MAX_STRING + 1) {
            Some(units) => units,
            None => {
                return Status::InvalidParameter;
            },
        };
        let ghost start = self.print();
        let ghost mode = self.mode;
        let mut next: usize = 0;
        assert(units@.subrange(0, 0) =~= Seq::<u16>::empty());
        while next < units.len()
            invariant
                next <= units@.len(),
                self.print() == printed_all(start, units@.subrange(0, next as int)),
                self.mode == (Mode {
                    cursor_column: self.mode.cursor_column,
                    cursor_row: self.mode.cursor_row,
                    ..mode
                }),
            decreases units@.len() - next,
        {
            proof {
                let more = units@.subrange(0, next + 1);
                assert(more.drop_last() =~= units@.subrange(0, next as int));
                assert(more.last() == units@[next as int]);
            }
            self.put(units[next]);
            next = next + 1;
        }
        assert(units@.subrange(0, next as int) =~= units@);
        Status::Success
    }

    /// `TestString`: everything the firmware can print is printable; the string
    /// only has to end.
    pub fn test_string(&self, string: Option<&[u16]>) -> (status: Status)
        ensures
            status == (if string is None {
                Status::InvalidParameter
            } else if terminator(string->0@) < MAX_STRING && terminator(string->0@)
                < string->0@.len() {
                Status::Success
            } else {
                Status::Unsupported
            }),
    {
        let string: &[u16] = match string {
            Some(string) => string,
            None => {
                return Status::InvalidParameter;
            },
        };
        match until_terminator(string, MAX_STRING) {
            Some(_) => Status::Success,
            None => Status::Unsupported,
        }
    }

    /// `QueryMode`: the columns and rows of the one mode.
    pub fn query_mode(&self, mode_number: usize, out: bool) -> (size: Result<
        (usize, usize),
        Status,
    >)
        ensures
            size == (if !out {
                Err::<(usize, usize), Status>(Status::InvalidParameter)
            } else if mode_number != 0 {
                Err::<(usize, usize), Status>(Status::Unsupported)
            } else {
                Ok::<(usize, usize), Status>((80usize, 25usize))
            }),
    {
        if !out {
            return Err(Status::InvalidParameter);
        }
        if mode_number != 0 {
            return Err(Status::Unsupported);
        }
        Ok((80, 25))
    }

    /// `SetMode`: there is one.
    pub fn set_mode(&self, mode_number: usize) -> (status: Status)
        ensures
            status == (if mode_number == 0 {
                Status::Success
            } else {
                Status::Unsupported
            }),
    {
        if mode_number == 0 {
            Status::Success
        } else {
            Status::Unsupported
        }
    }

    /// `SetAttribute`: the serial console has no colours to set; the attribute an
    /// application asked for is recorded so that it reads back what it expects.
    pub fn set_attribute(&mut self, attribute: usize) -> (status: Status)
        ensures
            status == Status::Success,
            final(self).sent@ == old(self).sent@,
            final(self).mode == (Mode {
                attribute: low_signed(attribute as nat) as i32,
                ..old(self).mode
            }),
    {
        self.mode.attribute = low_i32(attribute);
        Status::Success
    }

    /// `ClearScreen`: moves the cursor home, on the terminal too.
    pub fn clear_screen(&mut self) -> (status: Status)
        ensures
            status == Status::Success,
            final(self).sent@ == old(self).sent@ + CLEAR@,
            final(self).mode == (Mode { cursor_column: 0, cursor_row: 0, ..old(self).mode }),
    {
        push_slice(&mut self.sent, &CLEAR);
        self.mode.cursor_column = 0;
        self.mode.cursor_row = 0;
        Status::Success
    }

    /// `SetCursorPosition`.
    pub fn set_cursor_position(&mut self, column: usize, row: usize) -> (status: Status)
        ensures
            status == Status::Success,
            final(self).sent@ == old(self).sent@,
            final(self).mode == (Mode {
                cursor_column: low_signed(column as nat) as i32,
                cursor_row: low_signed(row as nat) as i32,
                ..old(self).mode
            }),
    {
        self.mode.cursor_column = low_i32(column);
        self.mode.cursor_row = low_i32(row);
        Status::Success
    }

    /// `EnableCursor`.
    pub fn enable_cursor(&mut self, visible: bool) -> (status: Status)
        ensures
            status == Status::Success,
            final(self).sent@ == old(self).sent@,
            final(self).mode == (Mode { cursor_visible: visible, ..old(self).mode }),
    {
        self.mode.cursor_visible = visible;
        Status::Success
    }
}

/// The cursor stays on the screen: whatever is printed from a place on it, the
/// column and the row it ends at are the screen's.
pub proof fn law_cursor_stays_on_screen(p: Print, units: Seq<u16>)
    requires
        0 <= p.column < COLUMNS,
        0 <= p.row < ROWS,
    ensures
        0 <= printed_all(p, units).column < COLUMNS,
        0 <= printed_all(p, units).row < ROWS,
    decreases units.len(),
{
    if units.len() > 0 {
        law_cursor_stays_on_screen(p, units.drop_last());
    }
}

/// The console's input.
pub fn input() -> (keyboard: Keyboard)
    ensures
        keyboard.pending@ == Seq::<u8>::empty(),
        keyboard.dialect == Dialect::Plain,
{
    Keyboard::new(Dialect::Plain)
}

/// `ReadKeyStroke`: a key, if one is waiting.
pub fn read_key_stroke(keyboard: &mut Keyboard, out: bool) -> (key: Result<Key, Status>)
    ensures
        final(keyboard).dialect == old(keyboard).dialect,
        if !out {
            key == Err::<Key, Status>(Status::InvalidParameter) && final(keyboard).pending@ == old(
                keyboard,
            ).pending@
        } else {
            let (pressed, taken) = key_in(old(keyboard).pending@, old(keyboard).dialect);
            &&& key == (match pressed {
                Some(pressed) => Ok::<Key, Status>(pressed),
                None => Err::<Key, Status>(Status::NotReady),
            })
            &&& final(keyboard).pending@ == old(keyboard).pending@.subrange(
                taken,
                old(keyboard).pending@.len() as int,
            )
        },
{
    if !out {
        return Err(Status::InvalidParameter);
    }
    match keyboard.read_key() {
        Some(key) => Ok(key),
        None => Err(Status::NotReady),
    }
}

/// Characters are put out one after the other: two runs of them as the first and then the
/// second. One that is no control character goes out as UTF-8, behind what went out before.
pub proof fn law_characters_go_out_in_order(p: Print, a: Seq<u16>, b: Seq<u16>, unit: u16)
    ensures
        printed_all(p, a + b) == printed_all(printed_all(p, a), b),
        printed_all(p, Seq::empty()) == p,
        unit >= 0x20 && unit != 0x7f ==> printed_all(p, a.push(unit)).bytes == printed_all(
            p,
            a,
        ).bytes + utf8_of(unit),
    decreases b.len(),
{
    assert(a.push(unit).drop_last() =~= a);
    if b.len() == 0 {
        assert(a + b =~= a);
    } else {
        law_characters_go_out_in_order(p, a, b.drop_last(), unit);
        assert((a + b).drop_last() =~= a + b.drop_last());
    }
}

/// Where characters move the cursor: a carriage return to the start of the line, a line feed to
/// the next one, on the screen's last line nowhere, and a backspace back by one, at the start of
/// the line nowhere. One that is no control character leaves it.
pub proof fn law_characters_move_the_cursor(p: Print, unit: u16)
    requires
        0 <= p.column < COLUMNS,
        0 <= p.row < ROWS,
    ensures
        ({
            let q = printed(p, unit);
            &&& unit == 0x0d ==> q.column == 0 && q.row == p.row
            &&& unit == 0x0a && p.row + 1 < ROWS ==> q.column == p.column && q.row == p.row + 1
            &&& unit == 0x0a && p.row + 1 == ROWS ==> q.column == p.column && q.row == p.row
            &&& unit == 0x08 && p.column > 0 ==> q.column + 1 == p.column && q.row == p.row
            &&& unit == 0x08 && p.column == 0 ==> q.column == 0 && q.row == p.row
            &&& unit >= 0x20 ==> q.column == p.column && q.row == p.row
        }),
{
}

} // verus!
