//! Device paths: the lists of nodes that describe where something is.
//!
//! A node is a type, a subtype, and its length in bytes including its own
//! header, so a path walks in fixed steps until the end node. The firmware needs
//! two things from them: how long a path is, and which handle's path is a prefix
//! of another's, which is how `LocateDevicePath` and the boot manager decide what
//! an application is asking about.
use crate::bytes::{
    copy_range, get_u16, get_units, le_at, le_bytes, lemma_le_bytes_len, lemma_le_value_2,
    lemma_le_value_of_bytes, lemma_widths, push_le, push_slice, push_units, same_bytes, unit_bytes,
};
use crate::status::Status;
use vstd::prelude::*;

verus! {

pub const HARDWARE_DEVICE: u8 = 0x01;

pub const ACPI_DEVICE: u8 = 0x02;

pub const MESSAGING_DEVICE: u8 = 0x03;

pub const MEDIA_DEVICE: u8 = 0x04;

pub const MEDIA_PROTOCOL: u8 = 0x04;

pub const END_DEVICE_PATH: u8 = 0x7f;

pub const END_DEVICE_PATH_INSTANCE: u8 = 0xff;

pub const MEDIA_FILE_PATH: u8 = 0x04;

pub const MEDIA_VENDOR: u8 = 0x01;

/// How many nodes of a path are looked at, so a malformed path cannot loop
/// forever.
pub const MAX_NODES: u32 = 256;

/// The single node that ends every path.
pub const END_NODE: [u8; 4] = [0x7f, 0xff, 0x04, 0x00];

/// A terminator, for paths the firmware builds itself.
pub fn end_node() -> (node: Vec<u8>)
    ensures
        node@ == END_NODE@,
{
    let mut node: Vec<u8> = Vec::new();
    push_slice(&mut node, &END_NODE);
    assert(node@ =~= END_NODE@);
    node
}

/// The length a node gives for itself.
pub open spec fn node_length(path: Seq<u8>, at: int) -> int {
    le_at(path, at + 2, 2) as int
}

/// Whether a node ends the path.
pub open spec fn is_end(path: Seq<u8>, at: int) -> bool {
    path[at] == END_DEVICE_PATH && path[at + 1] == END_DEVICE_PATH_INSTANCE
}

/// Whether a whole node is at `at`.
pub open spec fn is_node(path: Seq<u8>, at: int) -> bool {
    &&& at + 4 <= path.len()
    &&& node_length(path, at) >= 4
    &&& at + node_length(path, at) <= path.len()
}

/// The length of a path from a node on, looking at a number of nodes: up to and
/// with the end node, or up to where no whole node is.
pub open spec fn length_from(path: Seq<u8>, at: int, nodes: nat) -> int
    decreases nodes,
{
    if nodes == 0 || !is_node(path, at) {
        0
    } else if is_end(path, at) {
        node_length(path, at)
    } else {
        node_length(path, at) + length_from(path, at + node_length(path, at), (nodes - 1) as nat)
    }
}

/// The length of a path in bytes, including the terminator.
pub fn length(path: &[u8]) -> (total: usize)
    ensures
        total == length_from(path@, 0, MAX_NODES as nat),
        total <= path@.len(),
{
    let size: usize = path.len();
    let mut total: usize = 0;
    let mut left: u32 = MAX_NODES;
    while left > 0
        invariant
            left <= MAX_NODES,
            size == path@.len(),
            total <= size,
            total + length_from(path@, total as int, left as nat) == length_from(
                path@,
                0,
                MAX_NODES as nat,
            ),
        decreases left,
    {
        if size - total < 4 {
            return total;
        }
        let node: usize = get_u16(path, total + 2) as usize;
        if node < 4 || size - total < node {
            return total;
        }
        if path[total] == END_DEVICE_PATH && path[total + 1] == END_DEVICE_PATH_INSTANCE {
            return total + node;
        }
        total = total + node;
        left = left - 1;
    }
    total
}

/// How many bytes of a path match a prefix from two nodes on, when the prefix's
/// nodes up to its end are the path's.
pub open spec fn matched_from(
    path: Seq<u8>,
    prefix: Seq<u8>,
    at: int,
    nodes: nat,
) -> Option<int>
    decreases nodes,
{
    if nodes == 0 || !is_node(path, at) || !is_node(prefix, at) {
        None
    } else if is_end(prefix, at) {
        Some(at)
    } else {
        let n = node_length(prefix, at);
        if path.subrange(at, at + node_length(path, at)) != prefix.subrange(at, at + n) {
            None
        } else {
            matched_from(path, prefix, at + n, (nodes - 1) as nat)
        }
    }
}

/// Whether `candidate` begins with `prefix`, and how many bytes of it matched.
pub fn match_prefix_bytes(candidate: &[u8], prefix: &[u8]) -> (matched: Option<usize>)
    ensures
        match matched {
            Some(matched) => matched_from(candidate@, prefix@, 0, MAX_NODES as nat) == Some(
                matched as int,
            ),
            None => matched_from(candidate@, prefix@, 0, MAX_NODES as nat) is None,
        },
{
    let size: usize = candidate.len();
    let prefix_size: usize = prefix.len();
    let mut at: usize = 0;
    let mut left: u32 = MAX_NODES;
    while left > 0
        invariant
            left <= MAX_NODES,
            size == candidate@.len(),
            prefix_size == prefix@.len(),
            at <= size,
            at <= prefix_size,
            matched_from(candidate@, prefix@, at as int, left as nat) == matched_from(
                candidate@,
                prefix@,
                0,
                MAX_NODES as nat,
            ),
        decreases left,
    {
        if size - at < 4 || prefix_size - at < 4 {
            return None;
        }
        let n: usize = get_u16(prefix, at + 2) as usize;
        let m: usize = get_u16(candidate, at + 2) as usize;
        if n < 4 || m < 4 || prefix_size - at < n || size - at < m {
            return None;
        }
        if prefix[at] == END_DEVICE_PATH && prefix[at + 1] == END_DEVICE_PATH_INSTANCE {
            return Some(at);
        }
        let ours: Vec<u8> = copy_range(prefix, at, at + n);
        let theirs: Vec<u8> = copy_range(candidate, at, at + m);
        if !same_bytes(&theirs, &ours) {
            return None;
        }
        assert(m == n) by {
            assert(theirs@.len() == ours@.len());
        }
        at = at + n;
        left = left - 1;
    }
    None
}

/// How much of `path` a handle's device path matches: the number of matched
/// bytes, or `None` when the handle does not describe that path. This is what
/// `LocateDevicePath` uses to pick the handle that describes the longest prefix
/// of a path.
pub fn match_prefix(installed: Option<&[u8]>, path: &[u8]) -> (matched: Option<usize>)
    ensures
        match matched {
            Some(matched) => installed is Some && matched_from(
                path@,
                installed->0@,
                0,
                MAX_NODES as nat,
            ) == Some(matched as int),
            None => installed is None || matched_from(
                path@,
                installed->0@,
                0,
                MAX_NODES as nat,
            ) is None,
        },
{
    match installed {
        Some(installed) => match_prefix_bytes(path, installed),
        None => None,
    }
}

/// What matches a prefix starts with it: the matched bytes are the same, and they
/// are all of the prefix but its end node.
pub proof fn law_match_is_a_prefix(path: Seq<u8>, prefix: Seq<u8>, at: int, nodes: nat)
    requires
        0 <= at,
        matched_from(path, prefix, at, nodes) is Some,
    ensures
        ({
            let end = matched_from(path, prefix, at, nodes)->0;
            &&& at <= end
            &&& end + 4 <= path.len()
            &&& end + 4 <= prefix.len()
            &&& is_end(prefix, end)
            &&& path.subrange(at, end) == prefix.subrange(at, end)
            &&& length_from(prefix, at, nodes) == end - at + node_length(prefix, end)
        }),
    decreases nodes,
{
    if is_end(prefix, at) {
        assert(path.subrange(at, at) =~= prefix.subrange(at, at));
    } else {
        let n = node_length(prefix, at);
        let m = node_length(path, at);
        assert(path.subrange(at, at + m).len() == prefix.subrange(at, at + n).len());
        law_match_is_a_prefix(path, prefix, at + n, (nodes - 1) as nat);
        let end = matched_from(path, prefix, at, nodes)->0;
        assert(path.subrange(at, end) =~= path.subrange(at, at + m) + path.subrange(at + n, end));
        assert(prefix.subrange(at, end) =~= prefix.subrange(at, at + n) + prefix.subrange(
            at + n,
            end,
        ));
    }
}

/// A file-path node for a name, and an end node.
pub open spec fn file_path(name: Seq<u16>) -> Seq<u8> {
    seq![MEDIA_DEVICE, MEDIA_FILE_PATH] + le_bytes((4 + name.len() * 2) as nat, 2) + unit_bytes(name)
        + END_NODE@
}

/// Builds a file-path node for a `\`-separated name, with its terminator, for a
/// buffer of a size.
pub fn write_file_path(name: &[u16], buffer_size: usize) -> (path: Result<Vec<u8>, Status>)
    ensures
        match path {
            Ok(path) => 8 + name@.len() * 2 <= buffer_size && path@ == file_path(name@),
            Err(status) => 8 + name@.len() * 2 > buffer_size && status == Status::BufferTooSmall,
        },
{
    if name.len() as u128 * 2 + 8 > buffer_size as u128 {
        return Err(Status::BufferTooSmall);
    }
    let mut path: Vec<u8> = Vec::new();
    path.push(MEDIA_DEVICE);
    path.push(MEDIA_FILE_PATH);
    assert(path@ =~= seq![MEDIA_DEVICE, MEDIA_FILE_PATH]);
    push_le(&mut path, 4 + name.len() as u64 * 2, 2);
    push_units(&mut path, name);
    push_slice(&mut path, &END_NODE);
    Ok(path)
}

/// The file-path node's name, when a node is one.
pub fn file_path_name(node: &[u8]) -> (name: Option<Vec<u16>>)
    requires
        node@.len() >= 4,
    ensures
        match name {
            Some(name) => node@[0] == MEDIA_DEVICE && node@[1] == MEDIA_FILE_PATH && is_node(
                node@,
                0,
            ) && name@.len() == (node_length(node@, 0) - 4) / 2 && unit_bytes(name@)
                == node@.subrange(4, 4 + (node_length(node@, 0) - 4) / 2 * 2),
            None => node@[0] != MEDIA_DEVICE || node@[1] != MEDIA_FILE_PATH || !is_node(node@, 0),
        },
{
    if node[0] != MEDIA_DEVICE || node[1] != MEDIA_FILE_PATH {
        return None;
    }
    let size: usize = get_u16(node, 2) as usize;
    if size < 4 || node.len() < size {
        return None;
    }
    Some(get_units(node, 4, (size - 4) / 2))
}

/// A name that fits a node is read back from the path built for it, and the path
/// ends behind it.
pub proof fn law_file_path_reads_back(name: Seq<u16>)
    requires
        4 + name.len() * 2 <= 0xffff,
    ensures
        ({
            let path = file_path(name);
            &&& path[0] == MEDIA_DEVICE
            &&& path[1] == MEDIA_FILE_PATH
            &&& is_node(path, 0)
            &&& node_length(path, 0) == 4 + name.len() * 2
            &&& path.subrange(4, 4int + name.len() * 2) == unit_bytes(name)
            &&& length_from(path, 0, MAX_NODES as nat) == path.len()
        }),
{
    let path = file_path(name);
    let n = (4 + name.len() * 2) as nat;
    lemma_widths();
    lemma_le_bytes_len(n, 2);
    lemma_le_value_of_bytes(n, 2);
    lemma_le_bytes_len(4, 2);
    assert(path.subrange(2, 4) =~= le_bytes(n, 2));
    assert(path.subrange(4, 4int + name.len() * 2) =~= unit_bytes(name));
    let at = n as int;
    lemma_le_value_2(path.subrange(at + 2, at + 4));
    assert(node_length(path, at) == 4);
    assert(is_end(path, at));
    reveal_with_fuel(length_from, 3);
}

/// Whether the nodes of a path from `at` on lead to its end node at `end`, within a number of
/// nodes.
pub open spec fn leads_to_end(path: Seq<u8>, at: int, end: int, nodes: nat) -> bool
    decreases nodes,
{
    nodes > 0 && is_node(path, at) && if is_end(path, at) {
        at == end
    } else {
        leads_to_end(path, at + node_length(path, at), end, (nodes - 1) as nat)
    }
}

/// A path that has the bytes of another up to that one's end, and a node there, begins with it:
/// all of those bytes match. And the other one's length is up to and with its end node.
pub proof fn law_prefix_is_matched(path: Seq<u8>, prefix: Seq<u8>, at: int, end: int, nodes: nat)
    requires
        0 <= at,
        leads_to_end(prefix, at, end, nodes),
        end <= path.len(),
        at <= end,
        path.subrange(at, end) == prefix.subrange(at, end),
        is_node(path, end),
    ensures
        matched_from(path, prefix, at, nodes) == Some(end),
        length_from(prefix, at, nodes) == end - at + node_length(prefix, end),
    decreases nodes,
{
    if !is_end(prefix, at) {
        let n = node_length(prefix, at);
        lemma_leads_forward(prefix, at + n, end, (nodes - 1) as nat);
        assert(path.subrange(at, at + n) =~= path.subrange(at, end).subrange(0, n));
        assert(prefix.subrange(at, at + n) =~= prefix.subrange(at, end).subrange(0, n));
        assert(path.subrange(at + 2, at + 4) =~= path.subrange(at, at + n).subrange(2, 4));
        assert(prefix.subrange(at + 2, at + 4) =~= prefix.subrange(at, at + n).subrange(2, 4));
        assert(path.subrange(at + n, end) =~= path.subrange(at, end).subrange(n, end - at));
        assert(prefix.subrange(at + n, end) =~= prefix.subrange(at, end).subrange(n, end - at));
        law_prefix_is_matched(path, prefix, at + n, end, (nodes - 1) as nat);
    }
}

proof fn lemma_leads_forward(path: Seq<u8>, at: int, end: int, nodes: nat)
    requires
        leads_to_end(path, at, end, nodes),
    ensures
        at <= end,
        is_node(path, end),
    decreases nodes,
{
    if !is_end(path, at) {
        lemma_leads_forward(path, at + node_length(path, at), end, (nodes - 1) as nat);
    }
}

} // verus!
