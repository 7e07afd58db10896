//! Just enough device tree to learn the machine's shape.
//!
//! UEFI on AArch64 is entered with a device tree, and it is the only description
//! of the machine the firmware gets. The firmware parses two things from it: the
//! memory node, and `/chosen/bootargs` for the loaded image's command line.
use crate::bytes::{be_at, copy_range, get_be32, same_bytes};
use crate::text::utf8_text;
use vstd::prelude::*;
use vstd::utf8::valid_utf8;

verus! {

pub const MAGIC: u32 = 0xd00d_feed;

pub const TOKEN_BEGIN_NODE: u32 = 1;

pub const TOKEN_END_NODE: u32 = 2;

pub const TOKEN_PROP: u32 = 3;

/// `memory`.
pub const MEMORY: [u8; 6] = [0x6d, 0x65, 0x6d, 0x6f, 0x72, 0x79];

/// `chosen`.
pub const CHOSEN: [u8; 6] = [0x63, 0x68, 0x6f, 0x73, 0x65, 0x6e];

/// `#address-cells`.
pub const ADDRESS_CELLS: [u8; 14] = [
    0x23, 0x61, 0x64, 0x64, 0x72, 0x65, 0x73, 0x73, 0x2d, 0x63, 0x65, 0x6c, 0x6c, 0x73,
];

/// `#size-cells`.
pub const SIZE_CELLS: [u8; 11] = [
    0x23, 0x73, 0x69, 0x7a, 0x65, 0x2d, 0x63, 0x65, 0x6c, 0x6c, 0x73,
];

/// `reg`.
pub const REG: [u8; 3] = [0x72, 0x65, 0x67];

/// `bootargs`.
pub const BOOTARGS: [u8; 8] = [0x62, 0x6f, 0x6f, 0x74, 0x61, 0x72, 0x67, 0x73];

/// A device tree blob.
pub struct Fdt<'a> {
    pub blob: &'a [u8],
    /// Offset of the structure block, and of the strings block.
    pub struct_off: usize,
    pub strings_off: usize,
    pub strings_len: usize,
    pub total_size: usize,
}

/// A token of the structure block.
#[verifier::ext_equal]
pub enum Token {
    /// A node begins; its name.
    Begin(Seq<u8>),
    /// A node ends.
    End,
    /// A property; its name and its value.
    Property(Seq<u8>, Seq<u8>),
}

/// The bytes of `s` up to the first zero, or all of them.
pub open spec fn until_zero(s: Seq<u8>) -> Seq<u8>
    decreases s.len(),
{
    if s.len() == 0 || s[0] == 0 {
        Seq::empty()
    } else {
        seq![s[0]] + until_zero(s.drop_first())
    }
}

/// The next multiple of four.
pub open spec fn round4(n: int) -> int {
    (n + 3) / 4 * 4
}

/// A blob's shape: where its blocks are.
#[verifier::ext_equal]
pub struct Shape {
    pub blob: Seq<u8>,
    pub structure: int,
    pub strings: int,
    pub strings_len: int,
}

impl Shape {
    /// The name at an offset in the strings block: up to a zero or the end of the
    /// block. `None` when that is outside the blob.
    pub open spec fn string(self, offset: int) -> Option<Seq<u8>> {
        let start = self.strings + offset;
        let room = if self.strings_len > offset {
            self.strings_len - offset
        } else {
            0
        };
        if start + room > self.blob.len() {
            None
        } else {
            Some(until_zero(self.blob.subrange(start, start + room)))
        }
    }

    /// The token at an offset in the structure block, and the offset behind it;
    /// `None` at the end token, at one that is not known, and where the blob ends.
    pub open spec fn token(self, cursor: int) -> Option<(Token, int)> {
        let at = self.structure + cursor;
        let b = self.blob;
        if at + 4 > b.len() {
            None
        } else {
            let kind = be_at(b, at, 4);
            if kind == TOKEN_BEGIN_NODE {
                let name = until_zero(b.subrange(at + 4, b.len() as int));
                if at + 4 + name.len() >= b.len() {
                    None
                } else {
                    Some((Token::Begin(name), round4(cursor + 4 + name.len() + 1)))
                }
            } else if kind == TOKEN_END_NODE {
                Some((Token::End, cursor + 4))
            } else if kind == TOKEN_PROP && at + 12 <= b.len() {
                let len = be_at(b, at + 4, 4) as int;
                match self.string(be_at(b, at + 8, 4) as int) {
                    None => None,
                    Some(name) => if at + 12 + len > b.len() {
                        None
                    } else {
                        Some(
                            (
                                Token::Property(name, b.subrange(at + 12, at + 12 + len)),
                                round4(cursor + 12 + len),
                            ),
                        )
                    },
                }
            } else {
                None
            }
        }
    }
}

/// A number in big-endian cells of 32 bits: the low 64 bits of it.
pub open spec fn cells_value(value: Seq<u8>, cells: int) -> int
    decreases cells,
{
    if cells <= 0 {
        0
    } else {
        cells_value(value, cells - 1) % 0x1_0000_0000 * 0x1_0000_0000 + be_at(
            value,
            (cells - 1) * 4,
            4,
        )
    }
}

/// What is known of the tree on the way to the memory node.
#[verifier::ext_equal]
pub struct Walk {
    pub depth: int,
    pub inside: bool,
    pub address_cells: int,
    pub size_cells: int,
}

/// The memory node's base and size, from a place in the tree on. The node is a
/// child of the root whose name starts with `memory`; its `reg` holds a base and
/// a size in as many cells as the root says.
pub open spec fn memory_from(s: Shape, cursor: int, w: Walk) -> Option<(u64, u64)>
    decreases s.blob.len() - s.structure - cursor + 4,
{
    match s.token(cursor) {
        None => None,
        Some((token, next)) => if next <= cursor {
            None
        } else {
            match token {
                Token::Begin(name) => memory_from(
                    s,
                    next,
                    Walk {
                        depth: w.depth + 1,
                        inside: w.inside || (w.depth + 1 == 2 && name.len() >= 6 && name.subrange(
                            0,
                            6,
                        ) == MEMORY@),
                        ..w
                    },
                ),
                Token::End => if w.inside {
                    None
                } else {
                    memory_from(
                        s,
                        next,
                        Walk {
                            depth: if w.depth > 0 {
                                w.depth - 1
                            } else {
                                0
                            },
                            ..w
                        },
                    )
                },
                Token::Property(name, value) => if w.depth == 1 && name == ADDRESS_CELLS@ {
                    if value.len() < 4 {
                        None
                    } else {
                        memory_from(
                            s,
                            next,
                            Walk { address_cells: be_at(value, 0, 4) as int, ..w },
                        )
                    }
                } else if w.depth == 1 && name == SIZE_CELLS@ {
                    if value.len() < 4 {
                        None
                    } else {
                        memory_from(s, next, Walk { size_cells: be_at(value, 0, 4) as int, ..w })
                    }
                } else if w.depth == 2 && w.inside && name == REG@ {
                    if value.len() < (w.address_cells + w.size_cells) * 4 {
                        None
                    } else {
                        Some(
                            (
                                cells_value(value, w.address_cells) as u64,
                                cells_value(
                                    value.subrange(w.address_cells * 4, value.len() as int),
                                    w.size_cells,
                                ) as u64,
                            ),
                        )
                    }
                } else {
                    memory_from(s, next, w)
                },
            }
        },
    }
}

/// The command line, from a place in the tree on: the `bootargs` of the root's
/// child `chosen`, up to a zero, where that is text.
pub open spec fn bootargs_from(s: Shape, cursor: int, depth: int, inside: bool) -> Option<Seq<char>>
    decreases s.blob.len() - s.structure - cursor + 4,
{
    match s.token(cursor) {
        None => None,
        Some((token, next)) => if next <= cursor {
            None
        } else {
            match token {
                Token::Begin(name) => bootargs_from(
                    s,
                    next,
                    depth + 1,
                    depth + 1 == 2 && name == CHOSEN@,
                ),
                Token::End => bootargs_from(
                    s,
                    next,
                    if depth > 0 {
                        depth - 1
                    } else {
                        0
                    },
                    false,
                ),
                Token::Property(name, value) => if inside && name == BOOTARGS@ {
                    let text = until_zero(value);
                    if valid_utf8(text) {
                        Some(vstd::utf8::decode_utf8(text))
                    } else {
                        None
                    }
                } else {
                    bootargs_from(s, next, depth, inside)
                },
            }
        },
    }
}

/// The bytes of a slice from `from` up to the first zero, or up to `to`.
fn name_at(data: &[u8], from: usize, to: usize) -> (name: Vec<u8>)
    requires
        from <= to <= data@.len(),
    ensures
        name@ == until_zero(data@.subrange(from as int, to as int)),
{
    let mut name: Vec<u8> = Vec::new();
    let mut at: usize = from;
    let ghost whole = data@.subrange(from as int, to as int);
    assert(name@ + until_zero(data@.subrange(at as int, to as int)) =~= until_zero(whole));
    while at < to
        invariant
            from <= at <= to <= data@.len(),
            whole == data@.subrange(from as int, to as int),
            name@ + until_zero(data@.subrange(at as int, to as int)) == until_zero(whole),
        decreases to - at,
    {
        let b: u8 = data[at];
        let ghost rest = data@.subrange(at as int, to as int);
        if b == 0 {
            assert(until_zero(rest) =~= Seq::<u8>::empty());
            assert(name@ =~= until_zero(whole));
            return name;
        }
        let ghost before = name@;
        name.push(b);
        assert(rest.drop_first() =~= data@.subrange(at + 1, to as int));
        assert(before + (seq![b] + until_zero(rest.drop_first())) =~= name@ + until_zero(
            rest.drop_first(),
        ));
        at = at + 1;
    }
    assert(name@ =~= until_zero(whole));
    name
}

/// An offset, no higher than what can be addressed.
spec fn capped(n: int) -> int {
    if n > usize::MAX {
        usize::MAX as int
    } else {
        n
    }
}

fn cap(n: u128) -> (offset: usize)
    ensures
        offset == capped(n as int),
{
    if n > usize::MAX as u128 {
        usize::MAX
    } else {
        n as usize
    }
}

/// A token as it was read.
enum Read {
    Begin(Vec<u8>),
    End,
    Property(Vec<u8>, Vec<u8>),
}

spec fn read_of(r: Read) -> Token {
    match r {
        Read::Begin(name) => Token::Begin(name@),
        Read::End => Token::End,
        Read::Property(name, value) => Token::Property(name@, value@),
    }
}

proof fn lemma_until_zero_len(s: Seq<u8>)
    ensures
        until_zero(s).len() <= s.len(),
    decreases s.len(),
{
    if s.len() > 0 && s[0] != 0 {
        lemma_until_zero_len(s.drop_first());
    }
}

/// Reads a number in cells.
fn read_cells(value: &[u8], cells: usize) -> (number: u64)
    requires
        cells * 4 <= value@.len(),
    ensures
        number == cells_value(value@, cells as int),
{
    let _size: usize = value.len();
    let mut number: u64 = 0;
    let mut next: usize = 0;
    while next < cells
        invariant
            next <= cells,
            cells * 4 <= value@.len() <= usize::MAX,
            number == cells_value(value@, next as int),
        decreases cells - next,
    {
        let cell: u32 = get_be32(value, next * 4);
        number = number % 0x1_0000_0000 * 0x1_0000_0000 + cell as u64;
        next = next + 1;
    }
    number
}

impl<'a> Fdt<'a> {
    pub open spec fn view(&self) -> Shape {
        Shape {
            blob: self.blob@,
            structure: self.struct_off as int,
            strings: self.strings_off as int,
            strings_len: self.strings_len as int,
        }
    }

    /// Wraps a blob and checks its header. Returns `None` for anything that is
    /// not a device tree, so a caller can fall back to the built-in platform
    /// description.
    pub fn new(blob: &'a [u8]) -> (fdt: Option<Fdt<'a>>)
        ensures
            match fdt {
                Some(fdt) => blob@.len() >= 36 && be_at(blob@, 0, 4) == MAGIC && fdt@ == (Shape {
                    blob: blob@,
                    structure: be_at(blob@, 8, 4) as int,
                    strings: be_at(blob@, 12, 4) as int,
                    strings_len: be_at(blob@, 32, 4) as int,
                }) && fdt.total_size == be_at(blob@, 4, 4),
                None => blob@.len() < 36 || be_at(blob@, 0, 4) != MAGIC,
            },
    {
        if blob.len() < 36 || get_be32(blob, 0) != MAGIC {
            return None;
        }
        Some(
            Fdt {
                blob,
                struct_off: get_be32(blob, 8) as usize,
                strings_off: get_be32(blob, 12) as usize,
                strings_len: get_be32(blob, 32) as usize,
                total_size: get_be32(blob, 4) as usize,
            },
        )
    }

    /// The name at an offset in the strings block.
    fn string(&self, name_off: u32) -> (name: Option<Vec<u8>>)
        ensures
            match name {
                Some(name) => self@.string(name_off as int) == Some(name@),
                None => self@.string(name_off as int) is None,
            },
    {
        let start: u128 = self.strings_off as u128 + name_off as u128;
        let room: u128 = if self.strings_len as u128 > name_off as u128 {
            self.strings_len as u128 - name_off as u128
        } else {
            0
        };
        if start + room > self.blob.len() as u128 {
            return None;
        }
        Some(name_at(self.blob, start as usize, (start + room) as usize))
    }

    /// The token at an offset in the structure block, and the offset behind it.
    fn read(&self, cursor: usize) -> (found: Option<(Read, usize)>)
        ensures
            match (found, self@.token(cursor as int)) {
                (Some((token, next)), Some((t, n))) => read_of(token) == t && next == capped(n)
                    && cursor < next,
                (None, None) => true,
                _ => false,
            },
    {
        let size: usize = self.blob.len();
        let start: u128 = self.struct_off as u128 + cursor as u128;
        if start + 4 > size as u128 {
            return None;
        }
        let at: usize = start as usize;
        let kind: u32 = get_be32(self.blob, at);
        if kind == TOKEN_BEGIN_NODE {
            let name: Vec<u8> = name_at(self.blob, at + 4, size);
            proof {
                lemma_until_zero_len(self.blob@.subrange(at + 4, size as int));
            }
            if at + 4 + name.len() >= size {
                return None;
            }
            let end: u128 = (cursor as u128 + 4 + name.len() as u128 + 1 + 3) / 4 * 4;
            return Some((Read::Begin(name), cap(end)));
        }
        if kind == TOKEN_END_NODE {
            return Some((Read::End, cursor + 4));
        }
        if kind != TOKEN_PROP || start + 12 > size as u128 {
            return None;
        }
        let len: u32 = get_be32(self.blob, at + 4);
        let name: Vec<u8> = match self.string(get_be32(self.blob, at + 8)) {
            Some(name) => name,
            None => {
                return None;
            },
        };
        if start + 12 + len as u128 > size as u128 {
            return None;
        }
        let value: Vec<u8> = copy_range(self.blob, at + 12, at + 12 + len as usize);
        let end: u128 = (cursor as u128 + 12 + len as u128 + 3) / 4 * 4;
        Some((Read::Property(name, value), cap(end)))
    }
}

impl<'a> Fdt<'a> {
    /// The first `/memory` node's base and size, taking the root node's cell
    /// sizes into account.
    pub fn memory(&self) -> (found: Option<(u64, u64)>)
        ensures
            found == memory_from(
                self@,
                0,
                Walk { depth: 0, inside: false, address_cells: 2, size_cells: 2 },
            ),
    {
        let ghost start = Walk { depth: 0, inside: false, address_cells: 2, size_cells: 2 };
        let mut cursor: usize = 0;
        let mut address_cells: u32 = 2;
        let mut size_cells: u32 = 2;
        let mut depth: usize = 0;
        let mut in_memory: bool = false;
        loop
            invariant
                start == (Walk { depth: 0, inside: false, address_cells: 2, size_cells: 2 }),
                depth <= cursor,
                memory_from(self@, 0, start) == memory_from(
                    self@,
                    cursor as int,
                    Walk {
                        depth: depth as int,
                        inside: in_memory,
                        address_cells: address_cells as int,
                        size_cells: size_cells as int,
                    },
                ),
            decreases usize::MAX - cursor,
        {
            let _size: usize = self.blob.len();
            let (token, next): (Read, usize) = match self.read(cursor) {
                Some(found) => found,
                None => {
                    return None;
                },
            };
            proof {
                let (_, n) = self@.token(cursor as int)->0;
                if n != next {
                    assert forall|w: Walk|
                        memory_from(self@, n, w) == #[trigger] memory_from(
                            self@,
                            next as int,
                            w,
                        ) by {
                        assert(self@.token(n) is None);
                        assert(self@.token(next as int) is None);
                    }
                }
            }
            match token {
                Read::Begin(name) => {
                    depth = depth + 1;
                    if depth == 2 && name.len() >= 6 {
                        let start: Vec<u8> = copy_range(&name, 0, 6);
                        if same_bytes(&start, &MEMORY) {
                            in_memory = true;
                        }
                    }
                },
                Read::End => {
                    if in_memory {
                        return None;
                    }
                    if depth > 0 {
                        depth = depth - 1;
                    }
                },
                Read::Property(name, value) => {
                    if depth == 1 && same_bytes(&name, &ADDRESS_CELLS) {
                        if value.len() < 4 {
                            return None;
                        }
                        address_cells = get_be32(&value, 0);
                    } else if depth == 1 && same_bytes(&name, &SIZE_CELLS) {
                        if value.len() < 4 {
                            return None;
                        }
                        size_cells = get_be32(&value, 0);
                    } else if depth == 2 && in_memory && same_bytes(&name, &REG) {
                        if (value.len() as u64) < (address_cells as u64 + size_cells as u64) * 4 {
                            return None;
                        }
                        let base: u64 = read_cells(&value, address_cells as usize);
                        let rest: Vec<u8> = copy_range(
                            &value,
                            address_cells as usize * 4,
                            value.len(),
                        );
                        let size: u64 = read_cells(&rest, size_cells as usize);
                        return Some((base, size));
                    }
                },
            }
            cursor = next;
        }
    }

    /// `/chosen/bootargs`, the command line the boot stage passed.
    pub fn bootargs(&self) -> (found: Option<String>)
        ensures
            match found {
                Some(text) => bootargs_from(self@, 0, 0, false) == Some(text@),
                None => bootargs_from(self@, 0, 0, false) is None,
            },
    {
        let mut cursor: usize = 0;
        let mut depth: usize = 0;
        let mut in_chosen: bool = false;
        loop
            invariant
                depth <= cursor,
                bootargs_from(self@, 0, 0, false) == bootargs_from(
                    self@,
                    cursor as int,
                    depth as int,
                    in_chosen,
                ),
            decreases usize::MAX - cursor,
        {
            let _size: usize = self.blob.len();
            let (token, next): (Read, usize) = match self.read(cursor) {
                Some(found) => found,
                None => {
                    return None;
                },
            };
            proof {
                let (_, n) = self@.token(cursor as int)->0;
                if n != next {
                    assert forall|d: int, w: bool|
                        bootargs_from(self@, n, d, w) == #[trigger] bootargs_from(
                            self@,
                            next as int,
                            d,
                            w,
                        ) by {
                        assert(self@.token(n) is None);
                        assert(self@.token(next as int) is None);
                    }
                }
            }
            match token {
                Read::Begin(name) => {
                    depth = depth + 1;
                    in_chosen = depth == 2 && same_bytes(&name, &CHOSEN);
                },
                Read::End => {
                    in_chosen = false;
                    if depth > 0 {
                        depth = depth - 1;
                    }
                },
                Read::Property(name, value) => {
                    if in_chosen && same_bytes(&name, &BOOTARGS) {
                        let text: Vec<u8> = name_at(&value, 0, value.len());
                        proof {
                            assert(value@.subrange(0, value@.len() as int) =~= value@);
                        }
                        let found: Option<String> = utf8_text(&text);
                        proof {
                            if found is Some {
                                vstd::utf8::encode_utf8_decode_utf8(found->0@);
                            }
                        }
                        return found;
                    }
                },
            }
            cursor = next;
        }
    }
}

} // verus!
