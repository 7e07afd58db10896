//! `EFI_SIMPLE_FILE_SYSTEM_PROTOCOL` and `EFI_FILE_PROTOCOL` over a filesystem.
//!
//! Volumes are read-only: the write side of the file protocol answers that they
//! are write-protected.
//!
//! `Open` resolves names the way the specification describes them: a leading `\`
//! is from the root, `.` and `..` are the current and parent directory, and a name
//! may have several components.
use crate::bytes::{
    copy_range, fill, le_bytes, lemma_le_bytes_len, push_fill, push_le, push_units, put, put_slice,
    same_bytes, unit_bytes,
};
use crate::file_info::{
    answer, answer_with, answer_with_file, file_info, Answer, FILE_INFO_GUID, FILE_INFO_SIZE,
    FILE_SYSTEM_INFO_GUID, FILE_SYSTEM_VOLUME_LABEL_GUID, READ_ONLY,
};
use crate::firmware::uefi::simplefs::advanced;
use crate::platform::storage::fs::{follows, FileNode, FileSystem};
use crate::status::{Guid, Status};
use crate::text::{filled, join, joined, parts, path_names, split_path, texts};
use crate::utf16::{decode, decoded, encode, terminator, units_of, until_terminator};
use vstd::prelude::*;
use vstd::string::*;

verus! {

/// The label every volume carries, `ESP`.
pub const VOLUME_LABEL: [u16; 3] = [0x45, 0x53, 0x50];

/// How many units of a name are looked at for its terminator.
pub const MAX_NAME: usize = 4096;

pub const MODE_CREATE: u64 = 0x8000_0000_0000_0000;

/// A directory that can only be read.
pub const READ_ONLY_DIRECTORY: u64 = 0x11;

/// A published volume.
pub struct Volume<F: FileSystem> {
    pub filesystem: F,
    /// The volume's size in bytes, for `EFI_FILE_SYSTEM_INFO`.
    pub size: u64,
    pub block_size: u32,
}

/// An open file or directory.
pub struct File<N: FileNode> {
    /// The node's path from the root, normalised and backslash-separated.
    pub path: String,
    pub node: N,
    /// A file's byte offset, or a directory's entry index.
    pub position: u64,
    /// A directory's entries, read once on the first directory read.
    pub entries: Option<Vec<N>>,
}

/// The components that lead to a name, after one more component.
pub open spec fn stepped(sofar: Seq<Seq<char>>, component: Seq<char>) -> Seq<Seq<char>> {
    if component.len() == 0 || component == seq!['.'] {
        sofar
    } else if component == seq!['.', '.'] {
        if sofar.len() == 0 {
            sofar
        } else {
            sofar.drop_last()
        }
    } else {
        sofar.push(component)
    }
}

/// The components that lead to a name from others.
pub open spec fn stepped_all(from: Seq<Seq<char>>, components: Seq<Seq<char>>) -> Seq<Seq<char>>
    decreases components.len(),
{
    if components.len() == 0 {
        from
    } else {
        stepped(stepped_all(from, components.drop_last()), components.last())
    }
}

/// Whether a name is from the root.
pub open spec fn from_root(name: Seq<char>) -> bool {
    name.len() > 0 && (name[0] == '\\' || name[0] == '/')
}

/// The components of a name, resolved against a directory.
pub open spec fn resolved(base: Seq<char>, name: Seq<char>) -> Seq<Seq<char>> {
    stepped_all(
        if from_root(name) {
            Seq::empty()
        } else {
            filled(parts(base, false))
        },
        parts(name, true),
    )
}

/// Applies one component.
fn step(sofar: &mut Vec<String>, component: &str)
    ensures
        texts(final(sofar)@) == stepped(texts(old(sofar)@), component@),
{
    let size: usize = component.unicode_len();
    let ghost before = sofar@;
    if size == 0 {
        return;
    }
    if size == 1 && component.get_char(0) == '.' {
        assert(component@ =~= seq!['.']);
        return;
    }
    if size == 2 && component.get_char(0) == '.' && component.get_char(1) == '.' {
        assert(component@ =~= seq!['.', '.']);
        if sofar.len() > 0 {
            sofar.pop();
            assert(texts(sofar@) =~= texts(before).drop_last());
        }
        return;
    }
    sofar.push(component.to_owned());
    assert(texts(sofar@) =~= texts(before).push(component@));
}

/// Resolves `name` against the directory at `base`.
pub fn resolve(base: &str, name: &str) -> (path: String)
    ensures
        path@ == joined(resolved(base@, name@)),
{
    let mut sofar: Vec<String> = Vec::new();
    let rooted: bool = name.unicode_len() > 0 && (name.get_char(0) == '\\' || name.get_char(0)
        == '/');
    if !rooted {
        sofar = path_names(base, false);
    }
    let ghost start = texts(sofar@);
    assert(rooted ==> start =~= Seq::<Seq<char>>::empty());
    let components: Vec<String> = split_path(name, true);
    let ghost all = texts(components@);
    let mut next: usize = 0;
    assert(all.subrange(0, 0) =~= Seq::<Seq<char>>::empty());
    while next < components.len()
        invariant
            next <= components@.len(),
            all == texts(components@),
            texts(sofar@) == stepped_all(start, all.subrange(0, next as int)),
        decreases components@.len() - next,
    {
        proof {
            let more = all.subrange(0, next + 1);
            assert(more.drop_last() =~= all.subrange(0, next as int));
            assert(more.last() == components@[next as int]@);
        }
        step(&mut sofar, components[next].as_str());
        next = next + 1;
    }
    assert(all.subrange(0, next as int) =~= all);
    join(&sofar)
}

/// Whether a component is a name: not empty, and neither `.` nor `..`.
pub open spec fn is_name(component: Seq<char>) -> bool {
    component.len() > 0 && component != seq!['.'] && component != seq!['.', '.']
}

/// A resolved path holds names only, whatever it is resolved from: no empty
/// component, no `.` and no `..` is left in it.
pub proof fn law_resolved_is_normal(from: Seq<Seq<char>>, components: Seq<Seq<char>>)
    requires
        forall|i: int| 0 <= i < from.len() ==> is_name(#[trigger] from[i]),
    ensures
        forall|i: int|
            0 <= i < stepped_all(from, components).len() ==> is_name(
                #[trigger] stepped_all(from, components)[i],
            ),
    decreases components.len(),
{
    if components.len() > 0 {
        law_resolved_is_normal(from, components.drop_last());
        let before = stepped_all(from, components.drop_last());
        let after = stepped_all(from, components);
        assert forall|i: int| 0 <= i < after.len() implies is_name(#[trigger] after[i]) by {
            if i < before.len() {
                assert(is_name(before[i]));
                assert(after[i] == before[i]);
            }
        }
    }
}

/// Going into a name and back out leads back.
pub proof fn law_parent_undoes_child(from: Seq<Seq<char>>, name: Seq<char>)
    requires
        is_name(name),
    ensures
        stepped(stepped(from, name), seq!['.', '.']) == from,
{
    assert(from.push(name).drop_last() =~= from);
    assert(seq!['.', '.'].len() == 2);
    assert(seq!['.'].len() == 1);
}

/// What stands before the last backslash of a path, or nothing.
pub open spec fn parent_of(path: Seq<char>) -> Seq<char>
    decreases path.len(),
{
    if path.len() == 0 {
        Seq::empty()
    } else if path.last() == '\\' {
        path.drop_last()
    } else {
        parent_of(path.drop_last())
    }
}

fn parent(path: &str) -> (above: String)
    ensures
        above@ == parent_of(path@),
{
    let mut end: usize = path.unicode_len();
    assert(path@.subrange(0, end as int) =~= path@);
    while end > 0
        invariant
            end <= path@.len(),
            parent_of(path@) == parent_of(path@.subrange(0, end as int)),
        decreases end,
    {
        proof {
            let s = path@.subrange(0, end as int);
            assert(s.drop_last() =~= path@.subrange(0, end - 1));
            assert(s.last() == path@[end - 1]);
        }
        if path.get_char(end - 1) == '\\' {
            return path.substring_char(0, end - 1).to_owned();
        }
        end = end - 1;
    }
    String::new()
}

/// A NUL-terminated string's text, when the terminator is among the first units.
fn string16(text: &[u16]) -> (name: Option<String>)
    ensures
        match name {
            Some(name) => is_text(text@) && name@ == text_in(text@),
            None => !is_text(text@),
        },
{
    match until_terminator(text, MAX_NAME) {
        Some(units) => Some(decode(&units)),
        None => None,
    }
}

/// Whether units hold a terminated string that is not too long.
pub open spec fn is_text(units: Seq<u16>) -> bool {
    terminator(units) < MAX_NAME && terminator(units) < units.len()
}

/// The text of a terminated string.
pub open spec fn text_in(units: Seq<u16>) -> Seq<char> {
    decoded(units.subrange(0, terminator(units)))
}

/// What a directory entry's information is answered with.
pub open spec fn info_answer<N: FileNode>(
    node: N,
    size: usize,
    buffer: Seq<u8>,
    given: bool,
) -> Answer {
    let name = units_of(node.label());
    answer(
        FILE_INFO_SIZE + (name.len() + 1) * 2,
        size,
        buffer,
        given,
        put(
            buffer,
            0,
            file_info(
                name,
                node.size(),
                if node.directory() {
                    READ_ONLY_DIRECTORY
                } else {
                    READ_ONLY
                },
            ),
        ),
    )
}

/// Writes `node`'s `EFI_FILE_INFO`, or reports the size it needs.
fn write_file_info<N: FileNode>(
    node: &N,
    size: &mut usize,
    buffer: &mut Vec<u8>,
    given: bool,
) -> (status: Status)
    requires
        given ==> *old(size) <= old(buffer)@.len(),
    ensures
        info_answer(*node, *old(size), old(buffer)@, given) == (Answer {
            status,
            size: *final(size),
            buffer: final(buffer)@,
        }),
        final(buffer)@.len() == old(buffer)@.len(),
{
    let label: String = node.name();
    let name: Vec<u16> = encode(label.as_str());
    answer_with_file(
        &name,
        node.len(),
        if node.is_dir() {
            READ_ONLY_DIRECTORY
        } else {
            READ_ONLY
        },
        size,
        buffer,
        given,
    )
}

/// The volume's label, with its terminator.
pub open spec fn label_bytes() -> Seq<u8> {
    unit_bytes(VOLUME_LABEL@) + fill(2, 0)
}

/// `EFI_FILE_SYSTEM_INFO`: read-only, with nothing free.
pub open spec fn system_info(volume_size: u64, block_size: u32) -> Seq<u8> {
    le_bytes(48, 8) + seq![1u8] + fill(7, 0) + le_bytes(volume_size as nat, 8) + fill(8, 0)
        + le_bytes(block_size as nat, 4) + fill(4, 0) + label_bytes()
}

fn write_label() -> (label: Vec<u8>)
    ensures
        label@ == label_bytes(),
        label@.len() == 8,
{
    let mut label: Vec<u8> = Vec::new();
    push_units(&mut label, &VOLUME_LABEL);
    assert(label@ =~= unit_bytes(VOLUME_LABEL@));
    push_fill(&mut label, 2, 0);
    label
}

fn write_system_info(volume_size: u64, block_size: u32) -> (info: Vec<u8>)
    ensures
        info@ == system_info(volume_size, block_size),
{
    let mut info: Vec<u8> = Vec::new();
    push_le(&mut info, 48, 8);
    assert(info@ =~= le_bytes(48, 8));
    let ghost before = info@;
    info.push(1);
    assert(info@ =~= before + seq![1u8]);
    push_fill(&mut info, 7, 0);
    push_le(&mut info, volume_size, 8);
    push_fill(&mut info, 8, 0);
    push_le(&mut info, block_size as u64, 4);
    push_fill(&mut info, 4, 0);
    let label: Vec<u8> = write_label();
    crate::bytes::push_slice(&mut info, &label);
    info
}

/// What a file answers when it is asked for information of a kind.
pub open spec fn information<N: FileNode>(
    node: N,
    volume_size: u64,
    block_size: u32,
    kind: Guid,
    size: usize,
    buffer: Seq<u8>,
    given: bool,
) -> Answer {
    if kind@ == FILE_INFO_GUID@ {
        info_answer(node, size, buffer, given)
    } else if kind@ == FILE_SYSTEM_INFO_GUID@ {
        answer(48, size, buffer, given, put(buffer, 0, system_info(volume_size, block_size)))
    } else if kind@ == FILE_SYSTEM_VOLUME_LABEL_GUID@ {
        answer(8, size, buffer, given, put(buffer, 0, label_bytes()))
    } else {
        Answer { status: Status::Unsupported, size, buffer }
    }
}

/// Whether a mode asks to write or to create.
pub open spec fn asks_to_write(mode: u64) -> bool {
    mode >= MODE_CREATE || mode % 4 >= 2
}

/// The path that opening a name from a file leads to.
pub open spec fn opened_path<N: FileNode>(file: File<N>, name: Seq<u16>) -> Seq<char> {
    joined(
        resolved(
            if file.node.directory() {
                file.path@
            } else {
                parent_of(file.path@)
            },
            text_in(name),
        ),
    )
}

/// Whether looking up a path in a volume may give `node`.
pub open spec fn looks_up<F: FileSystem>(
    filesystem: F,
    path: Seq<char>,
    node: Option<F::Node>,
) -> bool {
    exists|root: F::Node|
        #![trigger filesystem.rooted(root)]
        filesystem.rooted(root) && follows(root, filled(parts(path, false)), node)
}

impl<F: FileSystem> Volume<F> {
    /// `OpenVolume`: the root, as a file.
    pub fn open_volume(&self, out: bool) -> (root: Result<File<F::Node>, Status>)
        ensures
            match root {
                Ok(file) => out && self.filesystem.rooted(file.node) && file.path@ == Seq::<
                    char,
                >::empty() && file.position == 0 && file.entries is None,
                Err(status) => !out && status == Status::InvalidParameter,
            },
    {
        if !out {
            return Err(Status::InvalidParameter);
        }
        Ok(open_file(String::new(), self.filesystem.root()))
    }

    /// `Open`: a relative name is resolved against the directory, or a file's
    /// parent.
    pub fn open(
        &self,
        file: &File<F::Node>,
        out: bool,
        name: Option<&[u16]>,
        mode: u64,
    ) -> (opened: Result<File<F::Node>, Status>)
        ensures
            match opened {
                Ok(opened) => {
                    &&& out && name is Some && !asks_to_write(mode) && is_text(name->0@)
                    &&& opened.path@ == opened_path(*file, name->0@)
                    &&& looks_up(self.filesystem, opened.path@, Some(opened.node))
                    &&& opened.position == 0 && opened.entries is None
                },
                Err(status) => if !out || name is None {
                    status == Status::InvalidParameter
                } else if asks_to_write(mode) {
                    status == Status::WriteProtected
                } else if !is_text(name->0@) {
                    status == Status::InvalidParameter
                } else {
                    status == Status::NotFound && looks_up(
                        self.filesystem,
                        opened_path(*file, name->0@),
                        None,
                    )
                },
            },
    {
        if !out {
            return Err(Status::InvalidParameter);
        }
        let units: &[u16] = match name {
            Some(units) => units,
            None => {
                return Err(Status::InvalidParameter);
            },
        };
        if mode >= MODE_CREATE || mode % 4 >= 2 {
            return Err(Status::WriteProtected);
        }
        let given: String = match string16(units) {
            Some(given) => given,
            None => {
                return Err(Status::InvalidParameter);
            },
        };
        let path: String = if file.node.is_dir() {
            resolve(file.path.as_str(), given.as_str())
        } else {
            let above: String = parent(file.path.as_str());
            resolve(above.as_str(), given.as_str())
        };
        match self.filesystem.open(path.as_str()) {
            Some(node) => Ok(open_file(path, node)),
            None => Err(Status::NotFound),
        }
    }
}

/// A file, at its start.
pub fn open_file<N: FileNode>(path: String, node: N) -> (file: File<N>)
    ensures
        file.path == path,
        file.node == node,
        file.position == 0,
        file.entries is None,
{
    File { path, node, position: 0, entries: None }
}

/// What reading a directory's next entry does: the next entry's information, or
/// nothing at the end. A read that does not fit stays at the entry.
pub open spec fn entry_read<N: FileNode>(
    entries: Seq<N>,
    position: u64,
    size: usize,
    buffer: Seq<u8>,
    given: bool,
) -> (Answer, u64) {
    if position >= entries.len() {
        (Answer { status: Status::Success, size: 0, buffer }, position)
    } else {
        let said = info_answer(entries[position as int], size, buffer, given);
        (
            said,
            if said.status == Status::Success {
                (position + 1) as u64
            } else {
                position
            },
        )
    }
}

impl<N: FileNode> File<N> {
    /// `Read`: a file's bytes from the current position, or a directory's next
    /// entry.
    pub fn read(
        &mut self,
        size: &mut usize,
        size_given: bool,
        buffer: &mut Vec<u8>,
        buffer_given: bool,
    ) -> (status: Status)
        requires
            buffer_given ==> *old(size) <= old(buffer)@.len(),
        ensures
            final(self).path == old(self).path,
            final(self).node == old(self).node,
            if !size_given || (*old(size) > 0 && !buffer_given) {
                status == Status::InvalidParameter && *final(self) == *old(self) && *final(size)
                    == *old(size) && final(buffer)@ == old(buffer)@
            } else if old(self).node.directory() {
                &&& final(self).entries is Some
                &&& match old(self).entries {
                    Some(entries) => final(self).entries->0 == entries,
                    None => old(self).node.lists(final(self).entries->0@),
                }
                &&& entry_read(
                    final(self).entries->0@,
                    old(self).position,
                    *old(size),
                    old(buffer)@,
                    buffer_given,
                ) == (
                    (Answer { status, size: *final(size), buffer: final(buffer)@ }),
                    final(self).position,
                )
            } else {
                let data = final(buffer)@.subrange(0, *final(size) as int);
                &&& status == Status::Success
                &&& *final(size) <= *old(size)
                &&& final(self).entries == old(self).entries
                &&& *old(size) > 0 ==> old(self).node.holds(
                    old(self).position,
                    *old(size) as nat,
                    data,
                ) && final(buffer)@ == put(old(buffer)@, 0, data)
                &&& *old(size) == 0 ==> final(buffer)@ == old(buffer)@
                &&& final(self).position == advanced(old(self).position, *final(size))
            },
    {
        if !size_given {
            return Status::InvalidParameter;
        }
        let capacity: usize = *size;
        if capacity > 0 && !buffer_given {
            return Status::InvalidParameter;
        }
        if self.node.is_dir() {
            if self.entries.is_none() {
                let children: Vec<N> = self.node.children();
                self.entries = Some(children);
            }
            let position: u64 = self.position;
            return match &self.entries {
                Some(entries) => {
                    if position >= entries.len() as u64 {
                        *size = 0;
                        return Status::Success;
                    }
                    let status: Status = write_file_info(
                        &entries[position as usize],
                        size,
                        buffer,
                        buffer_given,
                    );
                    if status == Status::Success {
                        self.position = position + 1;
                    }
                    status
                },
                None => Status::Success,
            };
        }
        let mut data: Vec<u8> = Vec::new();
        if capacity > 0 {
            data = copy_range(buffer, 0, capacity);
        }
        let position: u64 = self.position;
        let read: usize = self.node.read_at(position, &mut data);
        if capacity > 0 {
            let ghost before = buffer@;
            put_slice(buffer, 0, &data);
            proof {
                let d = data@.subrange(0, read as int);
                assert(buffer@.subrange(0, read as int) =~= d);
                assert(buffer@ =~= put(before, 0, d));
            }
        }
        *size = read;
        self.position = if position > u64::MAX - read as u64 {
            u64::MAX
        } else {
            position + read as u64
        };
        Status::Success
    }

    /// `GetPosition`. A directory has none.
    pub fn get_position(&self, given: bool) -> (position: Result<u64, Status>)
        ensures
            position == (if !given {
                Err::<u64, Status>(Status::InvalidParameter)
            } else if self.node.directory() {
                Err::<u64, Status>(Status::Unsupported)
            } else {
                Ok::<u64, Status>(self.position)
            }),
    {
        if !given {
            return Err(Status::InvalidParameter);
        }
        if self.node.is_dir() {
            return Err(Status::Unsupported);
        }
        Ok(self.position)
    }

    /// `SetPosition`. Only rewinding a directory is defined; all ones means the
    /// end of a file.
    pub fn set_position(&mut self, position: u64) -> (status: Status)
        ensures
            final(self).path == old(self).path,
            final(self).node == old(self).node,
            final(self).entries == old(self).entries,
            if old(self).node.directory() && position != 0 {
                status == Status::Unsupported && final(self).position == old(self).position
            } else {
                &&& status == Status::Success
                &&& final(self).position == (if !old(self).node.directory() && position == u64::MAX {
                    old(self).node.size()
                } else {
                    position
                })
            },
    {
        if self.node.is_dir() {
            if position != 0 {
                return Status::Unsupported;
            }
            self.position = 0;
            return Status::Success;
        }
        self.position = if position == u64::MAX {
            self.node.len()
        } else {
            position
        };
        Status::Success
    }

    /// `GetInfo`: `EFI_FILE_INFO`, `EFI_FILE_SYSTEM_INFO`, or the volume label.
    pub fn get_info(
        &self,
        volume_size: u64,
        block_size: u32,
        kind: Option<Guid>,
        size: &mut usize,
        size_given: bool,
        buffer: &mut Vec<u8>,
        buffer_given: bool,
    ) -> (status: Status)
        requires
            buffer_given ==> *old(size) <= old(buffer)@.len(),
        ensures
            if kind is None || !size_given {
                status == Status::InvalidParameter && *final(size) == *old(size) && final(buffer)@
                    == old(buffer)@
            } else {
                information(
                    self.node,
                    volume_size,
                    block_size,
                    kind->0,
                    *old(size),
                    old(buffer)@,
                    buffer_given,
                ) == (Answer { status, size: *final(size), buffer: final(buffer)@ })
            },
    {
        let kind: Guid = match kind {
            Some(kind) => kind,
            None => {
                return Status::InvalidParameter;
            },
        };
        if !size_given {
            return Status::InvalidParameter;
        }
        if same_bytes(&kind, &FILE_INFO_GUID) {
            return write_file_info(&self.node, size, buffer, buffer_given);
        }
        if same_bytes(&kind, &FILE_SYSTEM_INFO_GUID) {
            let info: Vec<u8> = write_system_info(volume_size, block_size);
            proof {
                lemma_le_bytes_len(48, 8);
                lemma_le_bytes_len(volume_size as nat, 8);
                lemma_le_bytes_len(block_size as nat, 4);
                assert(info@.len() == 48);
            }
            return answer_with(&info, size, buffer, buffer_given);
        }
        if same_bytes(&kind, &FILE_SYSTEM_VOLUME_LABEL_GUID) {
            let label: Vec<u8> = write_label();
            return answer_with(&label, size, buffer, buffer_given);
        }
        Status::Unsupported
    }

    /// `Delete` closes the handle even though the file cannot be deleted.
    pub fn delete(self) -> (status: Status)
        ensures
            status == Status::WarnDeleteFailure,
    {
        Status::WarnDeleteFailure
    }

    /// `Write` and `SetInfo`: a read-only volume cannot change.
    pub fn write(&self) -> (status: Status)
        ensures
            status == Status::WriteProtected,
    {
        Status::WriteProtected
    }

    /// `Flush`: there is nothing to flush.
    pub fn flush(&self) -> (status: Status)
        ensures
            status == Status::Success,
    {
        Status::Success
    }
}

/// What stands above a path is what is before its last backslash, which is at `k`; nothing
/// where it has none.
pub proof fn law_parent_is_before_the_last_backslash(path: Seq<char>, k: int)
    requires
        -1 <= k < path.len(),
        k >= 0 ==> path[k] == '\\',
        forall|i: int| k < i < path.len() ==> #[trigger] path[i] != '\\',
    ensures
        parent_of(path) == (if k >= 0 {
            path.subrange(0, k)
        } else {
            Seq::empty()
        }),
    decreases path.len(),
{
    if path.len() > 0 {
        let front = path.drop_last();
        if k == path.len() - 1 {
            assert(front =~= path.subrange(0, k));
        } else {
            assert(path[path.len() - 1] != '\\');
            assert forall|i: int| k < i < front.len() implies #[trigger] front[i] != '\\' by {
                assert(path[i] != '\\');
            }
            law_parent_is_before_the_last_backslash(front, k);
            assert(front.subrange(0, if k >= 0 { k } else { 0 }) =~= path.subrange(
                0,
                if k >= 0 {
                    k
                } else {
                    0
                },
            ));
        }
    }
}

} // verus!
