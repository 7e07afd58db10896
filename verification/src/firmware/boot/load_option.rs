//! Boot options: `BootOrder`, and the `Boot####` variables it names.
//!
//! A variable's payload is the specification's `EFI_LOAD_OPTION`: attributes, a device
//! path, a description, and optional data. Only the active entries are honoured, and
//! only the file path of each is used: this firmware has one volume mounted, so an
//! entry that names a file on it is the entry to run.
use crate::bytes::{
    copy_range, get_u16, get_u32, le_at, le_bytes, lemma_le_bytes_len, lemma_le_value_2,
    lemma_le_value_of_bytes, lemma_widths, unit_bytes,
};
use crate::firmware::uefi::device_path::{
    file_path, file_path_name, is_end, is_node, law_file_path_reads_back, node_length,
    END_DEVICE_PATH, END_DEVICE_PATH_INSTANCE, MEDIA_DEVICE, MEDIA_FILE_PATH,
};
use crate::firmware::uefi::vars::{holds, index_of, Store, Variable};
use crate::seqs::{copy_units, lemma_first};
use crate::text::{hex_digits, push_hex_digits};
use crate::utf16::{chars_of, encode, terminator, text_of_units, units_of};
use vstd::prelude::*;

verus! {

/// The GUID of the variables the specification defines.
pub const GLOBAL_VARIABLE: [u8; 16] = [
    0x61,
    0xdf,
    0xe4,
    0x8b,
    0xca,
    0x93,
    0xd2,
    0x11,
    0xaa,
    0x0d,
    0x00,
    0xe0,
    0x98,
    0x03,
    0x2b,
    0x8c,
];

/// The load option's `LOAD_OPTION_ACTIVE` bit.
pub const LOAD_OPTION_ACTIVE: u32 = 0x1;

/// Where the device path starts in a load option.
pub const PATH_START: usize = 6;

/// One entry of the boot order, resolved to a path on the ESP.
pub struct Candidate {
    pub path: String,
    pub options: Vec<u8>,
}

/// An entry of the boot order, in specifications.
#[verifier::ext_equal]
pub struct CandidateView {
    pub path: Seq<char>,
    pub options: Seq<u8>,
}

impl View for Candidate {
    type V = CandidateView;

    open spec fn view(&self) -> CandidateView {
        CandidateView { path: self.path@, options: self.options@ }
    }
}

/// The entries, in specifications.
pub open spec fn views(s: Seq<Candidate>) -> Seq<CandidateView> {
    Seq::new(s.len(), |i: int| s[i]@)
}

/// Where the description that starts at `at` ends: behind its terminator, or where no
/// whole unit is left.
pub open spec fn description_end(payload: Seq<u8>, at: int) -> int
    decreases payload.len() - at,
{
    if at + 1 >= payload.len() {
        at
    } else if le_at(payload, at, 2) == 0 {
        at + 2
    } else {
        description_end(payload, at + 2)
    }
}

/// The units of a file-path node at `at`.
pub open spec fn node_units(payload: Seq<u8>, at: int) -> Seq<u16> {
    Seq::new(
        ((node_length(payload, at) - 4) / 2) as nat,
        |i: int| (payload[at + 4 + 2 * i] + 256 * payload[at + 5 + 2 * i]) as u16,
    )
}

/// The name in the first file-path node from `at` on, before `end` and before the end
/// node.
pub open spec fn file_name(payload: Seq<u8>, at: int, end: int) -> Option<Seq<u16>>
    decreases end - at,
{
    if at + 4 > end || node_length(payload, at) < 4 || at + node_length(payload, at) > end || is_end(
        payload,
        at,
    ) {
        None
    } else if payload[at] == MEDIA_DEVICE && payload[at + 1] == MEDIA_FILE_PATH {
        Some(node_units(payload, at))
    } else {
        file_name(payload, at + node_length(payload, at), end)
    }
}

/// The entry a load option stands for, when it is active and names a file.
pub open spec fn option_of(payload: Seq<u8>) -> Option<CandidateView> {
    let end = PATH_START + le_at(payload, 4, 2);
    if payload.len() < 6 || le_at(payload, 0, 4) % 2 == 0 || end > payload.len() {
        None
    } else {
        match file_name(payload, PATH_START as int, end) {
            None => None,
            Some(units) => Some(
                CandidateView {
                    path: chars_of(units.subrange(0, terminator(units))),
                    options: payload.subrange(
                        description_end(payload, end),
                        payload.len() as int,
                    ),
                },
            ),
        }
    }
}

/// An active load option for a file, as the specification lays it out.
pub open spec fn load_option(name: Seq<u16>, description: Seq<u16>, options: Seq<u8>) -> Seq<u8> {
    le_bytes(LOAD_OPTION_ACTIVE as nat, 4) + le_bytes(file_path(name).len(), 2) + file_path(name)
        + unit_bytes(description) + seq![0u8, 0u8] + options
}

proof fn lemma_description(payload: Seq<u8>, at: int, description: Seq<u16>, k: int)
    requires
        0 <= at,
        0 <= k <= description.len(),
        at + 2 * description.len() + 2 <= payload.len(),
        payload.subrange(at, at + 2 * description.len()) == unit_bytes(description),
        payload[at + 2 * description.len()] == 0,
        payload[at + 2 * description.len() + 1] == 0,
        forall|i: int| 0 <= i < description.len() ==> #[trigger] description[i] != 0,
    ensures
        description_end(payload, at + 2 * k) == at + 2 * description.len() + 2,
    decreases description.len() - k,
{
    let here = payload.subrange(at + 2 * k, at + 2 * k + 2);
    lemma_le_value_2(here);
    if k < description.len() {
        let lie = unit_bytes(description);
        assert(payload[at + 2 * k] == payload.subrange(at, at + 2 * description.len())[2 * k]);
        assert(payload[at + 2 * k + 1] == payload.subrange(at, at + 2 * description.len())[2 * k
            + 1]);
        assert(lie[2 * k] == (description[k] % 256) as u8);
        assert(lie[2 * k + 1] == (description[k] / 256) as u8);
        assert(description[k] != 0);
        lemma_description(payload, at, description, k + 1);
    }
}

/// An active load option names the file it was made for, and hands on its options.
pub proof fn law_load_option_names_its_file(
    name: Seq<u16>,
    description: Seq<u16>,
    options: Seq<u8>,
)
    requires
        8 + 2 * name.len() <= 0xffff,
        forall|i: int| 0 <= i < name.len() ==> #[trigger] name[i] != 0,
        forall|i: int| 0 <= i < description.len() ==> #[trigger] description[i] != 0,
    ensures
        option_of(load_option(name, description, options)) == Some(
            CandidateView { path: chars_of(name), options },
        ),
{
    let payload = load_option(name, description, options);
    let path = file_path(name);
    law_file_path_reads_back(name);
    lemma_widths();
    lemma_le_bytes_len((4 + name.len() * 2) as nat, 2);
    assert(path.len() == 8 + 2 * name.len());
    lemma_le_bytes_len(1, 4);
    lemma_le_bytes_len(path.len(), 2);
    lemma_le_value_of_bytes(1, 4);
    lemma_le_value_of_bytes(path.len(), 2);
    let end = 6 + path.len() as int;
    assert(payload.subrange(0, 4) =~= le_bytes(1, 4));
    assert(payload.subrange(4, 6) =~= le_bytes(path.len(), 2));
    assert(payload.subrange(6, end) =~= path);
    assert(payload.subrange(8, 10) =~= path.subrange(2, 4));
    assert(payload[6] == path[0] && payload[7] == path[1]);
    let units = node_units(payload, 6);
    assert forall|i: int| 0 <= i < name.len() implies units[i] == name[i] by {
        assert(payload[6 + 4 + 2 * i] == path[4 + 2 * i]);
        assert(payload[6 + 5 + 2 * i] == path[5 + 2 * i]);
        assert(path[4 + 2 * i] == unit_bytes(name)[2 * i]);
        assert(path[5 + 2 * i] == unit_bytes(name)[2 * i + 1]);
    }
    assert(units =~= name);
    let zero = |u: u16| u == 0;
    assert forall|i: int| 0 <= i < units.len() implies !zero(#[trigger] units[i]) by {
        assert(name[i] != 0);
    }
    crate::seqs::lemma_first(units, zero, units.len() as int);
    assert(units.subrange(0, units.len() as int) =~= name);
    assert(payload.subrange(end, end + 2 * description.len()) =~= unit_bytes(description));
    lemma_description(payload, end, description, 0);
    assert(payload.subrange(end + 2 * description.len() + 2, payload.len() as int) =~= options);
}

/// The text of units up to the first terminator.
fn text_before_terminator(units: &Vec<u16>) -> (text: String)
    ensures
        text@ == chars_of(units@.subrange(0, terminator(units@))),
{
    let ghost zero = |u: u16| u == 0;
    let mut k: usize = 0;
    while k < units.len() && units[k] != 0
        invariant
            k <= units@.len(),
            zero == (|u: u16| u == 0),
            forall|i: int| 0 <= i < k ==> !zero(#[trigger] units@[i]),
        decreases units@.len() - k,
    {
        k = k + 1;
    }
    proof {
        crate::seqs::lemma_first(units@, zero, k as int);
    }
    text_of_units(copy_units(units.as_slice(), 0, k).as_slice())
}

/// The name in the first file-path node of the paths between two places.
fn find_file_name(payload: &[u8], start: usize, end: usize) -> (name: Option<Vec<u16>>)
    requires
        start <= end <= payload@.len(),
    ensures
        match name {
            Some(name) => file_name(payload@, start as int, end as int) == Some(name@),
            None => file_name(payload@, start as int, end as int) is None,
        },
{
    let mut offset: usize = start;
    while end - offset >= 4
        invariant
            start <= offset <= end <= payload@.len(),
            file_name(payload@, start as int, end as int) == file_name(
                payload@,
                offset as int,
                end as int,
            ),
        decreases end - offset,
    {
        let length: usize = get_u16(payload, offset + 2) as usize;
        if length < 4 || end - offset < length {
            return None;
        }
        if payload[offset] == END_DEVICE_PATH && payload[offset + 1] == END_DEVICE_PATH_INSTANCE {
            return None;
        }
        let node: Vec<u8> = copy_range(payload, offset, offset + length);
        assert(node@.subrange(2, 4) =~= payload@.subrange(offset + 2, offset + 4));
        assert(is_node(node@, 0));
        match file_path_name(node.as_slice()) {
            Some(units) => {
                proof {
                    let count = (length - 4) / 2;
                    assert forall|i: int| 0 <= i < count implies units@[i] == node_units(
                        payload@,
                        offset as int,
                    )[i] by {
                        let lie = node@.subrange(4, 4 + count * 2);
                        assert(unit_bytes(units@)[2 * i] == lie[2 * i]);
                        assert(unit_bytes(units@)[2 * i + 1] == lie[2 * i + 1]);
                    }
                    assert(units@ =~= node_units(payload@, offset as int));
                }
                return Some(units);
            },
            None => {},
        }
        offset = offset + length;
    }
    None
}

/// Parses `EFI_LOAD_OPTION`, returning the file it names.
pub fn parse_load_option(payload: &[u8]) -> (candidate: Option<Candidate>)
    ensures
        match candidate {
            Some(candidate) => option_of(payload@) == Some(candidate@),
            None => option_of(payload@) is None,
        },
{
    let size: usize = payload.len();
    if size < 6 {
        return None;
    }
    let attributes: u32 = get_u32(payload, 0);
    if attributes % 2 != LOAD_OPTION_ACTIVE {
        return None;
    }
    let path_length: usize = get_u16(payload, 4) as usize;
    if path_length > size - PATH_START {
        return None;
    }
    let path_end: usize = PATH_START + path_length;

    // The description follows the path list, then the optional data.
    let mut cursor: usize = path_end;
    let mut open: bool = true;
    while open && size - cursor > 1
        invariant
            path_end <= cursor <= size,
            size == payload@.len(),
            open ==> description_end(payload@, path_end as int) == description_end(
                payload@,
                cursor as int,
            ),
            !open ==> description_end(payload@, path_end as int) == cursor,
        decreases size - cursor,
    {
        let unit: u16 = get_u16(payload, cursor);
        cursor = cursor + 2;
        if unit == 0 {
            open = false;
        }
    }
    let options: Vec<u8> = copy_range(payload, cursor, size);

    // The file-path node is the file this entry names.
    match find_file_name(payload, PATH_START, path_end) {
        Some(units) => {
            let path: String = text_before_terminator(&units);
            let candidate: Candidate = Candidate { path, options };
            assert(candidate@ =~= option_of(payload@)->0);
            Some(candidate)
        },
        None => None,
    }
}

/// The name of a boot option.
pub open spec fn option_name(number: nat) -> Seq<u16> {
    units_of("Boot"@ + hex_digits(number, 4))
}

/// The entry of a boot option, when it is in the store.
pub open spec fn option_in(s: Seq<Variable>, number: nat) -> Option<CandidateView> {
    if holds(s, option_name(number), GLOBAL_VARIABLE@) {
        option_of(s[index_of(s, option_name(number), GLOBAL_VARIABLE@)].data)
    } else {
        None
    }
}

/// The entries that the first `count` numbers of an order name.
pub open spec fn listed(s: Seq<Variable>, order: Seq<u8>, count: nat) -> Seq<CandidateView>
    decreases count,
{
    if count == 0 {
        Seq::empty()
    } else {
        let before = listed(s, order, (count - 1) as nat);
        match option_in(s, le_at(order, 2 * (count - 1), 2)) {
            Some(candidate) => before.push(candidate),
            None => before,
        }
    }
}

/// The entries of the boot order.
pub open spec fn boot_order(s: Seq<Variable>) -> Seq<CandidateView> {
    let name = units_of("BootOrder"@);
    if holds(s, name, GLOBAL_VARIABLE@) {
        let order = s[index_of(s, name, GLOBAL_VARIABLE@)].data;
        listed(s, order, order.len() / 2)
    } else {
        Seq::empty()
    }
}

/// The boot order lists the options that its numbers name, in the order of the numbers,
/// without those that are missing, inactive or name no file.
pub proof fn law_boot_order_is_kept(s: Seq<Variable>, order: Seq<u8>, count: nat)
    ensures
        listed(s, order, count) == Seq::new(
            count,
            |i: int| le_at(order, 2 * i, 2),
        ).filter_map(|number: nat| option_in(s, number)),
    decreases count,
{
    let f = |number: nat| option_in(s, number);
    let numbers = Seq::new(count, |i: int| le_at(order, 2 * i, 2));
    if count > 0 {
        let less = (count - 1) as nat;
        law_boot_order_is_kept(s, order, less);
        assert(numbers.drop_last() =~= Seq::new(less, |i: int| le_at(order, 2 * i, 2)));
        assert(numbers.last() == le_at(order, 2 * (count - 1), 2));
        match f(numbers.last()) {
            Some(candidate) => {
                assert(listed(s, order, count) =~= numbers.drop_last().filter_map(f)
                    + seq![candidate]);
            },
            None => {},
        }
    } else {
        assert(numbers =~= Seq::<nat>::empty());
        assert(numbers.filter_map(f) =~= Seq::<CandidateView>::empty());
    }
}

/// Reads a boot option.
fn read_option(store: &Store, number: u16) -> (candidate: Option<Candidate>)
    requires
        store.wf(),
    ensures
        match candidate {
            Some(candidate) => option_in(store@, number as nat) == Some(candidate@),
            None => option_in(store@, number as nat) is None,
        },
{
    let mut name: String = String::from_str("Boot");
    push_hex_digits(&mut name, number as u64, 4);
    let units: Vec<u16> = encode(name.as_str());
    match store.get(units.as_slice(), &GLOBAL_VARIABLE) {
        Some((_, payload)) => parse_load_option(payload.as_slice()),
        None => None,
    }
}

/// Reads `BootOrder` and the `Boot####` options it names.
pub fn boot_order_paths(store: &Store) -> (candidates: Vec<Candidate>)
    requires
        store.wf(),
    ensures
        views(candidates@) == boot_order(store@),
{
    let mut candidates: Vec<Candidate> = Vec::new();
    let name: Vec<u16> = encode("BootOrder");
    assert(views(candidates@) =~= Seq::<CandidateView>::empty());
    let order: Vec<u8> = match store.get(name.as_slice(), &GLOBAL_VARIABLE) {
        Some((_, order)) => order,
        None => {
            return candidates;
        },
    };
    let count: usize = order.len() / 2;
    let mut next: usize = 0;
    while next < count
        invariant
            next <= count,
            count == order@.len() / 2,
            store.wf(),
            views(candidates@) == listed(store@, order@, next as nat),
        decreases count - next,
    {
        let _size: usize = order.len();
        let number: u16 = get_u16(order.as_slice(), 2 * next);
        match read_option(store, number) {
            Some(candidate) => {
                let ghost before = candidates@;
                candidates.push(candidate);
                assert(views(candidates@) =~= views(before).push(candidate@));
            },
            None => {},
        }
        next = next + 1;
    }
    candidates
}

/// Whether a whole node stands at a place before an end.
pub open spec fn whole_node(payload: Seq<u8>, at: int, end: int) -> bool {
    at + 4 <= end && node_length(payload, at) >= 4 && at + node_length(payload, at) <= end
}

/// Whether the node at a place is one of a file path.
pub open spec fn is_file_node(payload: Seq<u8>, at: int) -> bool {
    payload[at] == MEDIA_DEVICE && payload[at + 1] == MEDIA_FILE_PATH
}

/// Whether a walk over whole nodes that neither end the path nor name a file comes from one
/// place to another.
pub open spec fn walks_to(payload: Seq<u8>, at: int, end: int, to: int) -> bool
    decreases to - at,
{
    if at >= to {
        at == to
    } else {
        whole_node(payload, at, end) && !is_end(payload, at) && !is_file_node(payload, at) && at
            + node_length(payload, at) <= to && walks_to(
            payload,
            at + node_length(payload, at),
            end,
            to,
        )
    }
}

/// The first node that names a file gives the name, whatever nodes stand before it; where the
/// path ends before, or breaks off, there is none.
pub proof fn law_first_file_node_gives_the_name(payload: Seq<u8>, at: int, end: int, to: int)
    requires
        walks_to(payload, at, end, to),
    ensures
        !whole_node(payload, to, end) || is_end(payload, to) ==> file_name(payload, at, end) is None,
        whole_node(payload, to, end) && !is_end(payload, to) && is_file_node(payload, to)
            ==> file_name(payload, at, end) == Some(node_units(payload, to)),
    decreases to - at,
{
    if at < to {
        law_first_file_node_gives_the_name(payload, at + node_length(payload, at), end, to);
    }
}

/// The options begin behind the terminator of the description: behind the first unit that is
/// zero, or at the end where there is none.
pub proof fn law_options_follow_the_description(payload: Seq<u8>, at: int, k: nat)
    requires
        0 <= at,
        at + 2 * k <= payload.len(),
        forall|j: int| 0 <= j < k ==> le_at(payload, #[trigger] (at + 2 * j), 2) != 0,
        at + 2 * k + 2 <= payload.len() ==> le_at(payload, at + 2 * k, 2) == 0,
    ensures
        description_end(payload, at) == (if at + 2 * k + 2 <= payload.len() {
            at + 2 * k + 2
        } else {
            at + 2 * k
        }),
    decreases k,
{
    if k > 0 {
        assert(le_at(payload, at + 2 * 0, 2) != 0);
        assert forall|j: int| 0 <= j < k - 1 implies le_at(payload, #[trigger] (at + 2 + 2 * j), 2)
            != 0 by {
            let m = j + 1;
            assert(at + 2 * m == at + 2 + 2 * j);
            assert(le_at(payload, at + 2 * m, 2) != 0);
        }
        law_options_follow_the_description(payload, at + 2, (k - 1) as nat);
    }
}

/// Which load options stand for an entry: those that are active and whose path is inside them
/// and names a file. No other does.
pub proof fn law_which_options_count(payload: Seq<u8>)
    ensures
        option_of(payload) is Some <==> {
            let end = 6 + le_at(payload, 4, 2);
            &&& payload.len() >= 6
            &&& le_at(payload, 0, 4) % 2 == 1
            &&& end <= payload.len()
            &&& file_name(payload, 6, end as int) is Some
        },
{
}

/// The boot order is what the numbers in its variable name; without the variable there is none.
pub proof fn law_boot_order_comes_from_its_variable(s: Seq<Variable>, k: int)
    requires
        0 <= k < s.len(),
        s[k].name == units_of("BootOrder"@),
        s[k].guid == GLOBAL_VARIABLE@,
        forall|i: int|
            0 <= i < k ==> !((#[trigger] s[i]).name == s[k].name && s[i].guid == s[k].guid),
    ensures
        boot_order(s) == Seq::new(
            s[k].data.len() / 2,
            |i: int| le_at(s[k].data, 2 * i, 2),
        ).filter_map(|number: nat| option_in(s, number)),
{
    let name = units_of("BootOrder"@);
    lemma_first(s, |v: Variable| v.is(name, GLOBAL_VARIABLE@), k);
    law_boot_order_is_kept(s, s[k].data, s[k].data.len() / 2);
}

} // verus!
