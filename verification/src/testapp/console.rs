//! One output line at a time: text is formatted into UTF-16 units and handed to
//! `OutputString`.
use crate::seqs::copy_units;
use crate::status::Guid;
use crate::text::{
    decimal_text, guid_text, hex_digits, push_decimal, push_guid, push_hex_digits,
};
use crate::utf16::terminator;
use vstd::prelude::*;
use vstd::string::*;

verus! {

/// How many units a line has room for, with its terminator.
pub const LINE_CAP: usize = 256;

/// The unit of a character: anything but ASCII degrades to `?`.
pub open spec fn unit_of(c: char) -> u16 {
    if (c as u32) < 0x80 {
        (c as u32) as u16
    } else {
        0x3f
    }
}

/// The units of a text.
pub open spec fn ascii(text: Seq<char>) -> Seq<u16> {
    Seq::new(text.len(), |i: int| unit_of(text[i]))
}

/// Units cut to what a line has room for: the slot after the last unit stays reserved
/// for the terminator.
pub open spec fn cut(units: Seq<u16>) -> Seq<u16> {
    if units.len() < LINE_CAP {
        units
    } else {
        units.subrange(0, LINE_CAP - 1)
    }
}

/// Cutting as units arrive comes to the same as cutting at the end.
pub proof fn lemma_cut(a: Seq<u16>, b: Seq<u16>)
    ensures
        cut(cut(a) + b) == cut(a + b),
{
    assert(cut(cut(a) + b) =~= cut(a + b));
}

/// What a status code is called, by r-efi, on a machine whose pointers have so many
/// bits.
pub uninterp spec fn status_name(code: usize, bits: u32) -> Option<Seq<char>>;

/// `r_efi::base::Status::description`: the name of a status code, where it knows one.
/// Which codes are errors depends on the machine's pointer width.
#[verifier::external_body]
fn description(code: usize) -> (name: Option<String>)
    ensures
        match name {
            Some(name) => status_name(code, usize::BITS) == Some(name@),
            None => status_name(code, usize::BITS) is None,
        },
{
    match r_efi::base::Status::from_usize(code).description() {
        Some(name) => Some(String::from(name)),
        None => None,
    }
}

/// A status: the full width, because codes carry meaning in the high bits, and the
/// symbolic name where there is one.
pub open spec fn status_text(code: u64) -> Seq<char> {
    named(code, status_name(code as usize, usize::BITS))
}

/// A status with a symbolic name, if it has one.
pub open spec fn named(code: u64, name: Option<Seq<char>>) -> Seq<char> {
    hex_digits(code as nat, 16) + (match name {
        Some(name) => " ("@ + name + ")"@,
        None => ""@,
    })
}

/// Appends a status with a symbolic name, if it has one.
pub fn push_named(out: &mut String, code: u64, name: &Option<String>)
    ensures
        final(out)@ == old(out)@ + named(
            code,
            match *name {
                Some(name) => Some(name@),
                None => None,
            },
        ),
{
    let ghost before = out@;
    push_hex_digits(out, code, 16);
    match name {
        Some(name) => {
            out.append(" (");
            out.append(name.as_str());
            out.append(")");
            assert(out@ =~= before + (hex_digits(code as nat, 16) + (" ("@ + name@ + ")"@)));
        },
        None => {
            out.append("");
            assert(out@ =~= before + (hex_digits(code as nat, 16) + ""@));
        },
    }
}

/// Appends a status.
pub fn push_status(out: &mut String, code: u64)
    ensures
        final(out)@ == old(out)@ + status_text(code),
{
    let name: Option<String> = description(code as usize);
    push_named(out, code, &name);
}

/// The line that is being put together.
pub struct Console {
    pub buf: Vec<u16>,
}

impl Console {
    /// No more units than the line has room for.
    pub open spec fn wf(&self) -> bool {
        self.buf@.len() < LINE_CAP
    }

    pub fn new() -> (console: Console)
        ensures
            console.wf(),
            console.buf@ == Seq::<u16>::empty(),
    {
        Console { buf: Vec::new() }
    }

    /// Pushes one UCS-2 code unit, dropping it when the line is full.
    pub fn raw(&mut self, c: u16)
        requires
            old(self).wf(),
        ensures
            final(self).wf(),
            final(self).buf@ == cut(old(self).buf@.push(c)),
    {
        if self.buf.len() + 1 < LINE_CAP {
            self.buf.push(c);
        } else {
            assert(cut(old(self).buf@.push(c)) =~= old(self).buf@);
        }
    }

    /// Pushes one character.
    pub fn chr(&mut self, c: char)
        requires
            old(self).wf(),
        ensures
            final(self).wf(),
            final(self).buf@ == cut(old(self).buf@.push(unit_of(c))),
    {
        let unit: u32 = c as u32;
        if unit < 0x80 {
            self.raw(unit as u16);
        } else {
            self.raw(0x3f);
        }
    }

    pub fn str(&mut self, s: &str)
        requires
            old(self).wf(),
        ensures
            final(self).wf(),
            final(self).buf@ == cut(old(self).buf@ + ascii(s@)),
    {
        let size: usize = s.unicode_len();
        let mut next: usize = 0;
        assert(old(self).buf@ + ascii(s@.subrange(0, 0)) =~= old(self).buf@);
        while next < size
            invariant
                next <= size,
                size == s@.len(),
                self.wf(),
                self.buf@ == cut(old(self).buf@ + ascii(s@.subrange(0, next as int))),
            decreases size - next,
        {
            let ghost before = old(self).buf@ + ascii(s@.subrange(0, next as int));
            let c: char = s.get_char(next);
            self.chr(c);
            proof {
                lemma_cut(before, seq![unit_of(c)]);
                assert(cut(before).push(unit_of(c)) =~= cut(before) + seq![unit_of(c)]);
                assert(before + seq![unit_of(c)] =~= old(self).buf@ + ascii(
                    s@.subrange(0, next + 1),
                ));
            }
            next = next + 1;
        }
        assert(s@.subrange(0, size as int) =~= s@);
    }

    /// A decimal number.
    pub fn dec(&mut self, v: u64)
        requires
            old(self).wf(),
        ensures
            final(self).wf(),
            final(self).buf@ == cut(old(self).buf@ + ascii(decimal_text(v as nat))),
    {
        let mut text: String = String::new();
        push_decimal(&mut text, v);
        assert(text@ =~= decimal_text(v as nat));
        self.str(text.as_str());
    }

    /// Exactly `digits` hex digits, zero-padded, with no prefix.
    pub fn hex(&mut self, v: u64, digits: usize)
        requires
            old(self).wf(),
        ensures
            final(self).wf(),
            final(self).buf@ == cut(old(self).buf@ + ascii(hex_digits(v as nat, digits as nat))),
    {
        let mut text: String = String::new();
        push_hex_digits(&mut text, v, digits);
        assert(text@ =~= hex_digits(v as nat, digits as nat));
        self.str(text.as_str());
    }

    /// A status code, with its symbolic name where r-efi knows it.
    pub fn status(&mut self, code: u64)
        requires
            old(self).wf(),
        ensures
            final(self).wf(),
            final(self).buf@ == cut(old(self).buf@ + ascii(status_text(code))),
    {
        let mut text: String = String::new();
        push_status(&mut text, code);
        assert(text@ =~= status_text(code));
        self.str(text.as_str());
    }

    /// A GUID: xxxxxxxx-xxxx-xxxx-xxxx-xxxxxxxxxxxx.
    pub fn guid(&mut self, g: &Guid)
        requires
            old(self).wf(),
        ensures
            final(self).wf(),
            final(self).buf@ == cut(old(self).buf@ + ascii(guid_text(g@))),
    {
        let mut text: String = String::new();
        push_guid(&mut text, g);
        assert(text@ =~= guid_text(g@));
        self.str(text.as_str());
    }

    /// The end of a line. The firmware console tracks cursor rows and columns; a bare
    /// LF would leave the column unanchored, so line ends are CRLF.
    pub fn nl(&mut self)
        requires
            old(self).wf(),
        ensures
            final(self).wf(),
            final(self).buf@ == cut(old(self).buf@ + seq![0x0du16, 0x0au16]),
    {
        let ghost start = self.buf@;
        self.raw(0x0d);
        self.raw(0x0a);
        proof {
            lemma_cut(start.push(0x0d), seq![0x0au16]);
            assert(cut(start.push(0x0d)).push(0x0a) =~= cut(start.push(0x0d)) + seq![0x0au16]);
            assert(start.push(0x0d) + seq![0x0au16] =~= start + seq![0x0du16, 0x0au16]);
        }
    }

    /// Appends a firmware-owned UCS-2 string, up to its terminator, as it is.
    pub fn wstr(&mut self, s: Option<&[u16]>)
        requires
            old(self).wf(),
        ensures
            final(self).wf(),
            final(self).buf@ == cut(old(self).buf@ + wide(s)),
    {
        let units: &[u16] = match s {
            Some(units) => units,
            None => {
                self.str("(null)");
                return;
            },
        };
        let ghost zero = |u: u16| u == 0;
        let ghost start = self.buf@;
        let mut next: usize = 0;
        assert(start + units@.subrange(0, 0) =~= start);
        while next < units.len() && units[next] != 0
            invariant
                next <= units@.len(),
                self.wf(),
                zero == (|u: u16| u == 0),
                forall|i: int| 0 <= i < next ==> !zero(#[trigger] units@[i]),
                self.buf@ == cut(start + units@.subrange(0, next as int)),
            decreases units@.len() - next,
        {
            let ghost before = start + units@.subrange(0, next as int);
            let unit: u16 = units[next];
            self.raw(unit);
            proof {
                lemma_cut(before, seq![unit]);
                assert(cut(before).push(unit) =~= cut(before) + seq![unit]);
                assert(before + seq![unit] =~= start + units@.subrange(0, next + 1));
            }
            next = next + 1;
        }
        proof {
            crate::seqs::lemma_first(units@, zero, next as int);
        }
    }

    /// Ends the line: the units with their terminator, for `OutputString`.
    pub fn flush(&mut self) -> (line: Vec<u16>)
        requires
            old(self).wf(),
        ensures
            final(self).wf(),
            final(self).buf@ == Seq::<u16>::empty(),
            line@ == old(self).buf@.push(0),
    {
        let size: usize = self.buf.len();
        let mut line: Vec<u16> = copy_units(self.buf.as_slice(), 0, size);
        assert(line@ =~= old(self).buf@);
        line.push(0);
        self.buf = Vec::new();
        line
    }
}

/// What a firmware-owned string adds to a line.
pub open spec fn wide(s: Option<&[u16]>) -> Seq<u16> {
    match s {
        Some(units) => units@.subrange(0, terminator(units@)),
        None => ascii("(null)"@),
    }
}

/// The line of a text, as it goes to `OutputString`.
pub open spec fn line_of(text: Seq<char>) -> Seq<u16> {
    cut(ascii(text) + seq![0x0du16, 0x0au16]).push(0)
}

/// A line of text, as it goes to `OutputString`.
pub fn line(text: &str) -> (line: Vec<u16>)
    ensures
        line@ == line_of(text@),
{
    let mut console: Console = Console::new();
    console.str(text);
    console.nl();
    proof {
        assert(Seq::<u16>::empty() + ascii(text@) =~= ascii(text@));
        lemma_cut(ascii(text@), seq![0x0du16, 0x0au16]);
    }
    console.flush()
}

/// A line ends with its terminator and holds no more than it has room for; a text
/// that leaves room for the line end is there whole.
pub proof fn law_lines_are_terminated(text: Seq<char>)
    ensures
        line_of(text).len() <= LINE_CAP,
        line_of(text).last() == 0,
        text.len() + 2 < LINE_CAP ==> line_of(text) == (ascii(text) + seq![
            0x0du16,
            0x0au16,
        ]).push(0),
{
}

} // verus!
