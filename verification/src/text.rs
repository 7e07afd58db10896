//! Numbers and identifiers as text.
use vstd::prelude::*;
use vstd::string::*;
use vstd::utf8::{encode_utf8, valid_utf8};

verus! {

/// A hexadecimal digit.
pub open spec fn digit(d: int) -> char {
    if d == 0 {
        '0'
    } else if d == 1 {
        '1'
    } else if d == 2 {
        '2'
    } else if d == 3 {
        '3'
    } else if d == 4 {
        '4'
    } else if d == 5 {
        '5'
    } else if d == 6 {
        '6'
    } else if d == 7 {
        '7'
    } else if d == 8 {
        '8'
    } else if d == 9 {
        '9'
    } else if d == 10 {
        'a'
    } else if d == 11 {
        'b'
    } else if d == 12 {
        'c'
    } else if d == 13 {
        'd'
    } else if d == 14 {
        'e'
    } else {
        'f'
    }
}

/// A number in a base, with no more digits than it needs.
pub open spec fn numeral(v: nat, base: nat) -> Seq<char>
    decreases v,
{
    if base < 2 || v < base {
        seq![digit(v as int)]
    } else {
        proof {
            lemma_smaller(v as int, base as int);
        }
        numeral(v / base, base).push(digit((v % base) as int))
    }
}

/// The `n` low hexadecimal digits of a number.
pub open spec fn hex_digits(v: nat, n: nat) -> Seq<char>
    decreases n,
{
    if n == 0 {
        Seq::empty()
    } else {
        hex_digits(v / 16, (n - 1) as nat).push(digit((v % 16) as int))
    }
}

/// Appends one digit.
pub fn push_digit(out: &mut String, d: u64)
    requires
        d < 16,
    ensures
        final(out)@ == old(out)@.push(digit(d as int)),
{
    proof {
        reveal_strlit("0");
        reveal_strlit("1");
        reveal_strlit("2");
        reveal_strlit("3");
        reveal_strlit("4");
        reveal_strlit("5");
        reveal_strlit("6");
        reveal_strlit("7");
        reveal_strlit("8");
        reveal_strlit("9");
        reveal_strlit("a");
        reveal_strlit("b");
        reveal_strlit("c");
        reveal_strlit("d");
        reveal_strlit("e");
        reveal_strlit("f");
    }
    let text: &str = match d {
        0 => "0",
        1 => "1",
        2 => "2",
        3 => "3",
        4 => "4",
        5 => "5",
        6 => "6",
        7 => "7",
        8 => "8",
        9 => "9",
        10 => "a",
        11 => "b",
        12 => "c",
        13 => "d",
        14 => "e",
        _ => "f",
    };
    out.append(text);
    assert(out@ =~= old(out)@.push(digit(d as int)));
}

/// Appends a number in a base of at most sixteen.
pub fn push_numeral(out: &mut String, v: u64, base: u64)
    requires
        2 <= base <= 16,
    ensures
        final(out)@ == old(out)@ + numeral(v as nat, base as nat),
    decreases v,
{
    if v < base {
        push_digit(out, v);
        assert(out@ =~= old(out)@ + numeral(v as nat, base as nat));
    } else {
        proof {
            lemma_smaller(v as int, base as int);
        }
        push_numeral(out, v / base, base);
        push_digit(out, v % base);
        assert(out@ =~= old(out)@ + numeral(v as nat, base as nat));
    }
}

pub proof fn lemma_smaller(v: int, base: int)
    requires
        2 <= base <= v,
    ensures
        0 <= v / base < v,
        v % base < base,
{
    assert(0 <= v / base < v && v % base < base) by (nonlinear_arith)
        requires
            2 <= base <= v,
    ;
}

/// Appends the `n` low hexadecimal digits of a number.
pub fn push_hex_digits(out: &mut String, v: u64, n: usize)
    ensures
        final(out)@ == old(out)@ + hex_digits(v as nat, n as nat),
    decreases n,
{
    if n > 0 {
        push_hex_digits(out, v / 16, n - 1);
        push_digit(out, v % 16);
    }
    assert(out@ =~= old(out)@ + hex_digits(v as nat, n as nat));
}

/// A number as `0x` and its hexadecimal digits.
pub open spec fn hex_text(v: nat) -> Seq<char> {
    seq!['0', 'x'] + numeral(v, 16)
}

/// A number in decimal digits.
pub open spec fn decimal_text(v: nat) -> Seq<char> {
    numeral(v, 10)
}

/// Appends a number as `0x` and its hexadecimal digits.
pub fn push_hex(out: &mut String, v: u64)
    ensures
        final(out)@ == old(out)@ + hex_text(v as nat),
{
    proof {
        reveal_strlit("0x");
    }
    out.append("0x");
    push_numeral(out, v, 16);
    assert("0x"@ =~= seq!['0', 'x']);
    assert(out@ =~= old(out)@ + hex_text(v as nat));
}

/// Appends a number in decimal digits.
pub fn push_decimal(out: &mut String, v: u64)
    ensures
        final(out)@ == old(out)@ + decimal_text(v as nat),
{
    push_numeral(out, v, 10);
}

/// The text of a GUID: the first three fields are numbers stored low byte first,
/// the rest bytes in order.
pub open spec fn guid_text(g: Seq<u8>) -> Seq<char> {
    hex_digits(crate::bytes::le_at(g, 0, 4), 8) + seq!['-'] + hex_digits(
        crate::bytes::le_at(g, 4, 2),
        4,
    ) + seq!['-'] + hex_digits(crate::bytes::le_at(g, 6, 2), 4) + seq!['-'] + hex_digits(
        g[8] as nat,
        2,
    ) + hex_digits(g[9] as nat, 2) + seq!['-'] + hex_digits(g[10] as nat, 2) + hex_digits(
        g[11] as nat,
        2,
    ) + hex_digits(g[12] as nat, 2) + hex_digits(g[13] as nat, 2) + hex_digits(g[14] as nat, 2)
        + hex_digits(g[15] as nat, 2)
}

/// Appends the text of a GUID.
pub fn push_guid(out: &mut String, guid: &[u8])
    requires
        guid@.len() == 16,
    ensures
        final(out)@ == old(out)@ + guid_text(guid@),
{
    proof {
        reveal_strlit("-");
        assert("-"@ =~= seq!['-']);
    }
    push_hex_digits(out, crate::bytes::get_u32(guid, 0) as u64, 8);
    out.append("-");
    push_hex_digits(out, crate::bytes::get_u16(guid, 4) as u64, 4);
    out.append("-");
    push_hex_digits(out, crate::bytes::get_u16(guid, 6) as u64, 4);
    out.append("-");
    push_hex_digits(out, guid[8] as u64, 2);
    push_hex_digits(out, guid[9] as u64, 2);
    out.append("-");
    push_hex_digits(out, guid[10] as u64, 2);
    push_hex_digits(out, guid[11] as u64, 2);
    push_hex_digits(out, guid[12] as u64, 2);
    push_hex_digits(out, guid[13] as u64, 2);
    push_hex_digits(out, guid[14] as u64, 2);
    push_hex_digits(out, guid[15] as u64, 2);
    assert(out@ =~= old(out)@ + guid_text(guid@));
}

/// Whether two texts are the same.
pub fn same_text(a: &str, b: &str) -> (same: bool)
    ensures
        same == (a@ == b@),
{
    a.to_owned() == b.to_owned()
}

/// The text that bytes encode, by `core::str::from_utf8`: it succeeds exactly on
/// valid UTF-8, and the text's encoding is the bytes.
#[verifier::external_body]
pub(crate) fn utf8_text(bytes: &[u8]) -> (text: Option<String>)
    ensures
        match text {
            Some(text) => valid_utf8(bytes@) && encode_utf8(text@) == bytes@,
            None => !valid_utf8(bytes@),
        },
{
    match core::str::from_utf8(bytes) {
        Ok(text) => Some(String::from(text)),
        Err(_) => None,
    }
}

/// A text with every match of a pattern, from the left, replaced.
pub open spec fn replaced(t: Seq<char>, pattern: Seq<char>, with: Seq<char>) -> Seq<char>
    decreases t.len(),
{
    if pattern.len() == 0 || t.len() < pattern.len() {
        t
    } else if t.subrange(0, pattern.len() as int) == pattern {
        with + replaced(t.subrange(pattern.len() as int, t.len() as int), pattern, with)
    } else {
        t.subrange(0, 1) + replaced(t.subrange(1, t.len() as int), pattern, with)
    }
}

/// Replaces every match of a pattern.
pub fn replace(text: &str, pattern: &str, with: &str) -> (out: String)
    ensures
        out@ == replaced(text@, pattern@, with@),
{
    let size: usize = text.unicode_len();
    let step: usize = pattern.unicode_len();
    let mut out: String = String::new();
    if step == 0 || size < step {
        out.append(text);
        assert(out@ =~= text@);
        return out;
    }
    let mut at: usize = 0;
    assert(text@.subrange(0, size as int) =~= text@);
    assert(out@ + replaced(text@, pattern@, with@) =~= replaced(text@, pattern@, with@));
    while size - at >= step
        invariant
            at <= size,
            size == text@.len(),
            0 < step == pattern@.len(),
            replaced(text@, pattern@, with@) == out@ + replaced(
                text@.subrange(at as int, size as int),
                pattern@,
                with@,
            ),
        decreases size - at,
    {
        let ghost rest = text@.subrange(at as int, size as int);
        let ghost before = out@;
        let piece: &str = text.substring_char(at, at + step);
        assert(piece@ =~= rest.subrange(0, step as int));
        if same_text(piece, pattern) {
            out.append(with);
            assert(rest.subrange(step as int, rest.len() as int) =~= text@.subrange(
                at + step,
                size as int,
            ));
            assert(before + (with@ + replaced(
                text@.subrange(at + step, size as int),
                pattern@,
                with@,
            )) =~= out@ + replaced(text@.subrange(at + step, size as int), pattern@, with@));
            at = at + step;
        } else {
            let one: &str = text.substring_char(at, at + 1);
            out.append(one);
            assert(one@ =~= rest.subrange(0, 1));
            assert(rest.subrange(1, rest.len() as int) =~= text@.subrange(at + 1, size as int));
            assert(before + (one@ + replaced(
                text@.subrange(at + 1, size as int),
                pattern@,
                with@,
            )) =~= out@ + replaced(text@.subrange(at + 1, size as int), pattern@, with@));
            at = at + 1;
        }
    }
    let tail: &str = text.substring_char(at, size);
    out.append(tail);
    out
}

/// The characters of each of a list of texts.
pub open spec fn texts(s: Seq<String>) -> Seq<Seq<char>> {
    Seq::new(s.len(), |i: int| s[i]@)
}

/// The characters of a text that may be missing.
pub open spec fn text_of(s: Option<String>) -> Option<Seq<char>> {
    match s {
        Some(s) => Some(s@),
        None => None,
    }
}

/// Whether a character separates the components of a path: a backslash, and a
/// slash where that counts too.
pub open spec fn separates(c: char, slash: bool) -> bool {
    c == '\\' || (slash && c == '/')
}

/// What stands between the separators of a path, empty components included.
pub open spec fn parts(path: Seq<char>, slash: bool) -> Seq<Seq<char>>
    decreases path.len(),
{
    if path.len() == 0 {
        seq![Seq::empty()]
    } else {
        let before = parts(path.drop_last(), slash);
        if separates(path.last(), slash) {
            before.push(Seq::empty())
        } else {
            before.update(before.len() - 1, before.last().push(path.last()))
        }
    }
}

/// Splits a path at its separators.
pub fn split_path(path: &str, slash: bool) -> (components: Vec<String>)
    ensures
        texts(components@) == parts(path@, slash),
{
    let size: usize = path.unicode_len();
    let mut done: Vec<String> = Vec::new();
    let mut current: String = String::new();
    let mut at: usize = 0;
    assert(path@.subrange(0, 0) =~= Seq::<char>::empty());
    assert(texts(done@).push(current@) =~= seq![Seq::<char>::empty()]);
    while at < size
        invariant
            at <= size,
            size == path@.len(),
            texts(done@).push(current@) == parts(path@.subrange(0, at as int), slash),
        decreases size - at,
    {
        let c: char = path.get_char(at);
        let ghost more = path@.subrange(0, at + 1);
        let ghost before = texts(done@).push(current@);
        proof {
            assert(more.drop_last() =~= path@.subrange(0, at as int));
            assert(more.last() == c);
        }
        if c == '\\' || (slash && c == '/') {
            let ghost listed = done@;
            done.push(current);
            current = String::new();
            assert(texts(done@) =~= texts(listed).push(done@.last()@));
            assert(texts(done@).push(current@) =~= before.push(Seq::empty()));
        } else {
            let one: &str = path.substring_char(at, at + 1);
            let ghost read = current@;
            current.append(one);
            assert(current@ =~= read.push(c));
            assert(texts(done@).push(current@) =~= before.update(
                before.len() - 1,
                before.last().push(c),
            ));
        }
        at = at + 1;
    }
    assert(path@.subrange(0, size as int) =~= path@);
    let ghost before = texts(done@);
    let ghost last = current@;
    done.push(current);
    assert(texts(done@) =~= before.push(last));
    done
}

/// The components of a path that are not empty.
pub open spec fn filled(s: Seq<Seq<char>>) -> Seq<Seq<char>>
    decreases s.len(),
{
    if s.len() == 0 {
        Seq::empty()
    } else if s.last().len() == 0 {
        filled(s.drop_last())
    } else {
        filled(s.drop_last()).push(s.last())
    }
}

/// Names with a backslash between each two.
pub open spec fn joined(names: Seq<Seq<char>>) -> Seq<char>
    decreases names.len(),
{
    if names.len() == 0 {
        Seq::empty()
    } else if names.len() == 1 {
        names[0]
    } else {
        joined(names.drop_last()) + seq!['\\'] + names.last()
    }
}

/// The components of a path that are not empty.
pub fn path_names(path: &str, slash: bool) -> (names: Vec<String>)
    ensures
        texts(names@) == filled(parts(path@, slash)),
{
    let all: Vec<String> = split_path(path, slash);
    let mut names: Vec<String> = Vec::new();
    let mut next: usize = 0;
    assert(texts(all@).subrange(0, 0) =~= Seq::<Seq<char>>::empty());
    assert(texts(names@) =~= Seq::<Seq<char>>::empty());
    while next < all.len()
        invariant
            next <= all@.len(),
            texts(names@) == filled(texts(all@).subrange(0, next as int)),
        decreases all@.len() - next,
    {
        proof {
            let more = texts(all@).subrange(0, next + 1);
            assert(more.drop_last() =~= texts(all@).subrange(0, next as int));
            assert(more.last() == all@[next as int]@);
        }
        if all[next].as_str().unicode_len() > 0 {
            let ghost before = names@;
            names.push(all[next].clone());
            assert(texts(names@) =~= texts(before).push(all@[next as int]@));
        }
        next = next + 1;
    }
    assert(texts(all@).subrange(0, next as int) =~= texts(all@));
    names
}

/// Names with a backslash between each two.
pub fn join(names: &Vec<String>) -> (path: String)
    ensures
        path@ == joined(texts(names@)),
{
    let mut path: String = String::new();
    let mut next: usize = 0;
    proof {
        reveal_strlit("\\");
        assert("\\"@ =~= seq!['\\']);
        assert(texts(names@).subrange(0, 0) =~= Seq::<Seq<char>>::empty());
        assert(path@ =~= Seq::<char>::empty());
    }
    while next < names.len()
        invariant
            next <= names@.len(),
            "\\"@ == seq!['\\'],
            path@ == joined(texts(names@).subrange(0, next as int)),
        decreases names@.len() - next,
    {
        proof {
            let more = texts(names@).subrange(0, next + 1);
            assert(more.drop_last() =~= texts(names@).subrange(0, next as int));
            assert(more.last() == names@[next as int]@);
            assert(more[0] == names@[0]@);
        }
        if next > 0 {
            path.append("\\");
        }
        path.append(names[next].as_str());
        assert(path@ =~= joined(texts(names@).subrange(0, next + 1)));
        next = next + 1;
    }
    assert(texts(names@).subrange(0, next as int) =~= texts(names@));
    path
}

} // verus!
