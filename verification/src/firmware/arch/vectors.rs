//! AArch64 exceptions.
//!
//! The vector table is 16 entries: four kinds of exception at each of four
//! sources. Each slot saves the integer state; what follows is decided here.
use crate::text::{hex_digits, hex_text, push_hex, push_hex_digits};
use vstd::prelude::*;
use vstd::string::*;

verus! {

/// The saved state of an interrupted or faulting context.
pub struct ExceptionFrame {
    pub x: [u64; 31],
    /// Which vector: `source * 4 + kind`. See `Source`/`Kind`.
    pub vector: u64,
    pub sp_el0: u64,
    pub elr: u64,
    pub spsr: u64,
    pub esr: u64,
    pub far: u64,
}

/// Where the exception came from, from the vector offset.
#[derive(Clone, Copy, PartialEq, Eq, Structural, Debug)]
pub enum Source {
    CurrentSp0,
    CurrentSpX,
    LowerAarch64,
    LowerAarch32,
}

/// What kind of exception it was, from the vector offset.
#[derive(Clone, Copy, PartialEq, Eq, Structural, Debug)]
pub enum Kind {
    Synchronous,
    Irq,
    Fiq,
    SError,
}

/// The source of a vector.
pub open spec fn source_of(vector: u64) -> Source {
    if vector / 4 == 0 {
        Source::CurrentSp0
    } else if vector / 4 == 1 {
        Source::CurrentSpX
    } else if vector / 4 == 2 {
        Source::LowerAarch64
    } else {
        Source::LowerAarch32
    }
}

/// The kind of a vector.
pub open spec fn kind_of(vector: u64) -> Kind {
    if vector % 4 == 0 {
        Kind::Synchronous
    } else if vector % 4 == 1 {
        Kind::Irq
    } else if vector % 4 == 2 {
        Kind::Fiq
    } else {
        Kind::SError
    }
}

/// The name of a source.
pub open spec fn source_name(source: Source) -> Seq<char> {
    match source {
        Source::CurrentSp0 => "CurrentSp0"@,
        Source::CurrentSpX => "CurrentSpX"@,
        Source::LowerAarch64 => "LowerAarch64"@,
        Source::LowerAarch32 => "LowerAarch32"@,
    }
}

/// The name of a kind.
pub open spec fn kind_name(kind: Kind) -> Seq<char> {
    match kind {
        Kind::Synchronous => "Synchronous"@,
        Kind::Irq => "Irq"@,
        Kind::Fiq => "Fiq"@,
        Kind::SError => "SError"@,
    }
}

/// A number as `0x` and all of its sixteen hexadecimal digits.
pub open spec fn whole_hex(v: u64) -> Seq<char> {
    "0x"@ + hex_digits(v as nat, 16)
}

/// What is said of an exception that nothing handles.
pub open spec fn trap_text(f: ExceptionFrame) -> Seq<char> {
    "\r\n[trap] "@ + kind_name(kind_of(f.vector)) + " from "@ + source_name(source_of(f.vector))
        + "\r\n[trap] esr="@ + whole_hex(f.esr) + " elr="@ + whole_hex(f.elr) + " far="@
        + whole_hex(f.far) + " spsr="@ + whole_hex(f.spsr) + "\r\n[trap] exception class "@
        + hex_text((f.esr / 0x400_0000 % 64) as nat) + "\r\n[trap] x0="@ + hex_text(f.x[0] as nat)
        + " x1="@ + hex_text(f.x[1] as nat) + " x2="@ + hex_text(f.x[2] as nat) + " x3="@
        + hex_text(f.x[3] as nat) + " x29="@ + hex_text(f.x[29] as nat) + " x30="@ + hex_text(
        f.x[30] as nat,
    ) + "\r\n"@
}

fn push_whole_hex(out: &mut String, v: u64)
    ensures
        final(out)@ == old(out)@ + whole_hex(v),
{
    out.append("0x");
    push_hex_digits(out, v, 16);
    assert(out@ =~= old(out)@ + whole_hex(v));
}

/// What the handler does: an interrupt is dispatched and the context resumed;
/// anything else is reported, and the machine halts.
pub enum Outcome {
    Dispatch,
    Halt(String),
}

impl ExceptionFrame {
    pub fn source(&self) -> (source: Source)
        ensures
            source == source_of(self.vector),
    {
        match self.vector / 4 {
            0 => Source::CurrentSp0,
            1 => Source::CurrentSpX,
            2 => Source::LowerAarch64,
            _ => Source::LowerAarch32,
        }
    }

    pub fn kind(&self) -> (kind: Kind)
        ensures
            kind == kind_of(self.vector),
    {
        match self.vector % 4 {
            0 => Kind::Synchronous,
            1 => Kind::Irq,
            2 => Kind::Fiq,
            _ => Kind::SError,
        }
    }

    /// The exception class, as reported in `ESR_EL1.EC`.
    pub fn exception_class(&self) -> (class: u64)
        ensures
            class == self.esr / 0x400_0000 % 64,
    {
        self.esr / 0x400_0000 % 64
    }

    /// What is said of an exception that nothing handles.
    fn trap_report(&self) -> (text: String)
        ensures
            text@ == trap_text(*self),
    {
        let mut text: String = String::from_str("\r\n[trap] ");
        text.append(
            match self.kind() {
                Kind::Synchronous => "Synchronous",
                Kind::Irq => "Irq",
                Kind::Fiq => "Fiq",
                Kind::SError => "SError",
            },
        );
        text.append(" from ");
        text.append(
            match self.source() {
                Source::CurrentSp0 => "CurrentSp0",
                Source::CurrentSpX => "CurrentSpX",
                Source::LowerAarch64 => "LowerAarch64",
                Source::LowerAarch32 => "LowerAarch32",
            },
        );
        text.append("\r\n[trap] esr=");
        push_whole_hex(&mut text, self.esr);
        text.append(" elr=");
        push_whole_hex(&mut text, self.elr);
        text.append(" far=");
        push_whole_hex(&mut text, self.far);
        text.append(" spsr=");
        push_whole_hex(&mut text, self.spsr);
        text.append("\r\n[trap] exception class ");
        push_hex(&mut text, self.exception_class());
        text.append("\r\n[trap] x0=");
        push_hex(&mut text, self.x[0]);
        text.append(" x1=");
        push_hex(&mut text, self.x[1]);
        text.append(" x2=");
        push_hex(&mut text, self.x[2]);
        text.append(" x3=");
        push_hex(&mut text, self.x[3]);
        text.append(" x29=");
        push_hex(&mut text, self.x[29]);
        text.append(" x30=");
        push_hex(&mut text, self.x[30]);
        text.append("\r\n");
        text
    }
}

/// What an exception leads to.
pub fn exception_handler(frame: &ExceptionFrame) -> (outcome: Outcome)
    ensures
        match outcome {
            Outcome::Dispatch => kind_of(frame.vector) == Kind::Irq,
            Outcome::Halt(text) => kind_of(frame.vector) != Kind::Irq && text@ == trap_text(*frame),
        },
{
    match frame.kind() {
        Kind::Irq => Outcome::Dispatch,
        _ => Outcome::Halt(frame.trap_report()),
    }
}

/// A vector is named by its source and its kind: the sources in their order have four vectors
/// each, one for every kind.
pub proof fn law_vectors_go_by_source_and_kind(vector: u64)
    requires
        vector < 16,
    ensures
        vector == 4 * (match source_of(vector) {
            Source::CurrentSp0 => 0int,
            Source::CurrentSpX => 1int,
            Source::LowerAarch64 => 2int,
            Source::LowerAarch32 => 3int,
        }) + (match kind_of(vector) {
            Kind::Synchronous => 0int,
            Kind::Irq => 1int,
            Kind::Fiq => 2int,
            Kind::SError => 3int,
        }),
{
}

} // verus!
