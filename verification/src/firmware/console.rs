//! The console: a PL011 UART, and the bytes that reach it.
//!
//! It is deliberately dumb: byte-at-a-time polls of the flag register.
use crate::bytes::push_slice;
use crate::firmware::platform::UART0_BASE;
use vstd::prelude::*;
use vstd::string::*;

verus! {

/// PL011 register offsets.
pub const DR: u64 = 0x00;

pub const FR: u64 = 0x18;

pub const IBRD: u64 = 0x24;

pub const FBRD: u64 = 0x28;

pub const LCR_H: u64 = 0x2c;

pub const CR: u64 = 0x30;

pub const ICR: u64 = 0x44;

/// A register write.
#[derive(Clone, Copy, PartialEq, Eq, Structural, Debug)]
pub struct Write {
    pub address: u64,
    pub value: u32,
}

/// Whether the flags say that the transmit FIFO is full.
pub open spec fn transmit_full(flags: u32) -> bool {
    flags / 32 % 2 == 1
}

/// Whether the flags say that the receive FIFO is empty.
pub open spec fn receive_empty(flags: u32) -> bool {
    flags / 16 % 2 == 1
}

/// A UART at an address.
#[derive(Clone, Copy, PartialEq, Eq, Structural, Debug)]
pub struct Pl011 {
    pub base: u64,
}

impl Pl011 {
    pub open spec fn wf(&self) -> bool {
        self.base <= u64::MAX - 0x1000
    }

    /// A write to a register.
    pub open spec fn to(&self, offset: u64, value: u32) -> Write {
        Write { address: (self.base + offset) as u64, value }
    }

    pub fn new(base: u64) -> (uart: Pl011)
        ensures
            uart.base == base,
    {
        Pl011 { base }
    }

    /// Where the flags are.
    pub fn flags_address(&self) -> (address: u64)
        requires
            self.wf(),
        ensures
            address == self.base + FR,
    {
        self.base + FR
    }

    fn write(&self, out: &mut Vec<Write>, offset: u64, value: u32)
        requires
            self.wf(),
            offset <= 0x1000,
        ensures
            final(out)@ == old(out)@.push(self.to(offset, value)),
    {
        out.push(Write { address: self.base + offset, value });
    }

    /// Programs the UART for 8N1 at 115200: the register writes that do, in order.
    pub fn init(&self) -> (writes: Vec<Write>)
        requires
            self.wf(),
        ensures
            writes@ == seq![
                self.to(CR, 0),
                self.to(ICR, 0x7ff),
                self.to(IBRD, 13),
                self.to(FBRD, 1),
                self.to(LCR_H, 0x70),
                self.to(CR, 0x301),
            ],
    {
        let mut writes: Vec<Write> = Vec::new();
        self.write(&mut writes, CR, 0);
        self.write(&mut writes, ICR, 0x7ff);
        self.write(&mut writes, IBRD, 13);
        self.write(&mut writes, FBRD, 1);
        self.write(&mut writes, LCR_H, 0x70);
        self.write(&mut writes, CR, 0x301);
        assert(writes@ =~= seq![
            self.to(CR, 0),
            self.to(ICR, 0x7ff),
            self.to(IBRD, 13),
            self.to(FBRD, 1),
            self.to(LCR_H, 0x70),
            self.to(CR, 0x301),
        ]);
        writes
    }

    /// The write that sends a byte, unless the flags say to wait.
    pub fn write_byte(&self, flags: u32, byte: u8) -> (write: Option<Write>)
        requires
            self.wf(),
        ensures
            write == (if transmit_full(flags) {
                None::<Write>
            } else {
                Some(self.to(DR, byte as u32))
            }),
    {
        if flags / 32 % 2 == 1 {
            return None;
        }
        Some(Write { address: self.base + DR, value: byte as u32 })
    }

    /// Where to read a byte if one is waiting, nothing otherwise.
    pub fn try_read_byte(&self, flags: u32) -> (address: Option<u64>)
        requires
            self.wf(),
        ensures
            address == (if receive_empty(flags) {
                None::<u64>
            } else {
                Some((self.base + DR) as u64)
            }),
    {
        if flags / 16 % 2 == 1 {
            return None;
        }
        Some(self.base + DR)
    }

    /// Whether a byte is waiting, without consuming it.
    pub fn has_input(&self, flags: u32) -> (waiting: bool)
        ensures
            waiting == !receive_empty(flags),
    {
        flags / 16 % 2 == 0
    }
}

/// The byte that was read from the data register.
pub fn byte_of(data: u32) -> (byte: u8)
    ensures
        byte == data % 256,
{
    (data % 256) as u8
}

/// The console: its UART, whether it has been initialised, and the bytes that are
/// to go out.
pub struct Console {
    pub uart: Pl011,
    pub initialised: bool,
    pub outgoing: Vec<u8>,
}

/// A hexadecimal digit, as a byte.
pub open spec fn nibble_byte(nibble: int) -> u8 {
    if nibble < 10 {
        (0x30 + nibble) as u8
    } else {
        (0x61 + nibble - 10) as u8
    }
}

/// The `n` low hexadecimal digits of a number, as bytes.
pub open spec fn nibbles(value: nat, n: nat) -> Seq<u8>
    decreases n,
{
    if n == 0 {
        Seq::empty()
    } else {
        nibbles(value / 16, (n - 1) as nat).push(nibble_byte((value % 16) as int))
    }
}

fn push_nibbles(out: &mut Vec<u8>, value: u64, n: usize)
    ensures
        final(out)@ == old(out)@ + nibbles(value as nat, n as nat),
    decreases n,
{
    if n > 0 {
        push_nibbles(out, value / 16, n - 1);
        let nibble: u8 = (value % 16) as u8;
        out.push(
            if nibble < 10 {
                0x30 + nibble
            } else {
                0x61 + (nibble - 10)
            },
        );
    }
    assert(out@ =~= old(out)@ + nibbles(value as nat, n as nat));
}

impl Console {
    pub fn new() -> (console: Console)
        ensures
            console.uart.base == UART0_BASE,
            !console.initialised,
            console.outgoing@ == Seq::<u8>::empty(),
    {
        Console { uart: Pl011::new(UART0_BASE), initialised: false, outgoing: Vec::new() }
    }

    /// Programs the console. Until this returns, output still works, but nothing
    /// is synchronised.
    pub fn init(&mut self) -> (writes: Vec<Write>)
        requires
            old(self).uart.wf(),
        ensures
            final(self).initialised,
            final(self).uart == old(self).uart,
            final(self).outgoing@ == old(self).outgoing@,
            writes@ == seq![
                old(self).uart.to(CR, 0),
                old(self).uart.to(ICR, 0x7ff),
                old(self).uart.to(IBRD, 13),
                old(self).uart.to(FBRD, 1),
                old(self).uart.to(LCR_H, 0x70),
                old(self).uart.to(CR, 0x301),
            ],
    {
        self.initialised = true;
        self.uart.init()
    }

    /// Whether the console has been initialised. The panic path checks this:
    /// before it, formatting is not safe.
    pub fn ready(&self) -> (ready: bool)
        ensures
            ready == self.initialised,
    {
        self.initialised
    }

    /// Writes raw bytes, without formatting.
    pub fn write(&mut self, bytes: &[u8])
        ensures
            final(self).outgoing@ == old(self).outgoing@ + bytes@,
            final(self).uart == old(self).uart,
            final(self).initialised == old(self).initialised,
    {
        push_slice(&mut self.outgoing, bytes);
    }

    /// Writes a string without formatting.
    pub fn emergency_write(&mut self, s: &str)
        ensures
            final(self).outgoing@ == old(self).outgoing@ + s.spec_bytes(),
            final(self).uart == old(self).uart,
            final(self).initialised == old(self).initialised,
    {
        let bytes: &[u8] = s.as_bytes();
        push_slice(&mut self.outgoing, bytes);
    }

    /// Writes `value` as sixteen hexadecimal digits, without formatting.
    pub fn emergency_hex(&mut self, value: u64)
        ensures
            final(self).outgoing@ == old(self).outgoing@ + seq![0x30u8, 0x78u8] + nibbles(
                value as nat,
                16,
            ),
            final(self).uart == old(self).uart,
            final(self).initialised == old(self).initialised,
    {
        let ghost before = self.outgoing@;
        self.outgoing.push(0x30);
        self.outgoing.push(0x78);
        assert(self.outgoing@ =~= before + seq![0x30u8, 0x78u8]);
        push_nibbles(&mut self.outgoing, value, 16);
    }
}

/// A handle on the UART that needs no formatting, for code that runs before the
/// console is initialised or from an interrupt.
pub struct UartWriter {
    pub uart: Pl011,
}

impl UartWriter {
    /// The write that sends a byte, unless the flags say to wait.
    pub fn write_byte(&self, flags: u32, byte: u8) -> (write: Option<Write>)
        requires
            self.uart.wf(),
        ensures
            write == (if transmit_full(flags) {
                None::<Write>
            } else {
                Some(self.uart.to(DR, byte as u32))
            }),
    {
        self.uart.write_byte(flags, byte)
    }
}

/// What a hexadecimal digit is worth.
pub open spec fn worth(byte: u8) -> int {
    if byte >= 0x61 {
        byte - 0x61 + 10
    } else {
        byte - 0x30
    }
}

/// The number that hexadecimal digits spell.
pub open spec fn spelt(s: Seq<u8>) -> int
    decreases s.len(),
{
    if s.len() == 0 {
        0
    } else {
        spelt(s.drop_last()) * 16 + worth(s.last())
    }
}

/// Sixteen digits spell any 64-bit number, and fewer one that they have room for: there are as
/// many as were asked for, and they are worth the number.
pub proof fn law_nibbles_spell_the_number(value: nat, n: nat)
    requires
        value < vstd::arithmetic::power::pow(16, n),
    ensures
        nibbles(value, n).len() == n,
        spelt(nibbles(value, n)) == value,
    decreases n,
{
    reveal(vstd::arithmetic::power::pow);
    if n > 0 {
        let front = nibbles(value / 16, (n - 1) as nat);
        law_nibbles_spell_the_number(value / 16, (n - 1) as nat);
        assert(nibbles(value, n).drop_last() =~= front);
        assert(worth(nibble_byte((value % 16) as int)) == value % 16);
    }
}

} // verus!
