//! `EFI_SIMPLE_FILE_SYSTEM_PROTOCOL` and `EFI_FILE_PROTOCOL`, over the filesystem
//! abstraction.
//!
//! An application's view of a volume: open it, get a handle for the root, then
//! open, read, and close files by name. This firmware's volumes are read-only, so
//! the write side of the protocol answers that they are write-protected rather
//! than pretending: a caller that gets that answer knows the volume will not
//! change under it.
//!
//! An application may hold a file handle for as long as it runs, and `Close` is
//! the only thing that releases it.
use crate::bytes::{
    copy_range, fill, le_at, le_bytes, lemma_le_bytes_len, lemma_le_value_of_bytes, lemma_widths,
    push_fill, push_le, push_units, put, put_le, put_slice, same_bytes, unit_bytes,
};
use crate::file_info::{
    answer, answer_with, answer_with_file, file_info, Answer, DIRECTORY, FILE_INFO_GUID,
    FILE_INFO_SIZE, FILE_SYSTEM_INFO_GUID, FILE_SYSTEM_VOLUME_LABEL_GUID, READ_ONLY, SYSTEM_INFO_SIZE,
};
use crate::firmware::fs::{FileNode, FileSystem};
use crate::firmware::uefi::mem::{Allocation, Memory};
use crate::status::{Guid, Status};
use crate::utf16::{chars_of, encode, terminator, text_of_units, units_of, until_terminator};
use vstd::prelude::*;
use vstd::string::*;

verus! {

/// How many files may be open at once.
pub const MAX_FILES: usize = 32;

/// How many volumes the firmware will publish.
pub const MAX_VOLUMES: usize = 4;

/// What a file handle takes in memory.
pub const FILE_PROTOCOL_SIZE: u64 = 120;

/// What a volume's protocol takes in memory.
pub const VOLUME_PROTOCOL_SIZE: u64 = 16;

/// `EfiBootServicesData`.
pub const BOOT_SERVICES_DATA: u32 = 4;

/// How many units of a name are looked at for its terminator.
pub const MAX_NAME: usize = 1024;

/// What asks for a file to be created.
pub const MODE_CREATE: u64 = 0x8000_0000_0000_0000;

/// The label every volume this firmware publishes carries, `WEIR`.
pub const VOLUME_LABEL: [u16; 4] = [0x57, 0x45, 0x49, 0x52];

/// An open file: its handle, the node it points at, and where the reader is in it.
pub struct FileState<N: FileNode> {
    pub address: u64,
    pub node: N,
    pub position: u64,
}

/// The files that are open.
pub struct Files<N: FileNode> {
    pub open: Vec<FileState<N>>,
}

/// Where the file of a handle is in the list, or how many files are open.
pub open spec fn file_at<N: FileNode>(s: Seq<FileState<N>>, this: u64) -> int {
    crate::seqs::first(s, |f: FileState<N>| f.address == this)
}

/// The volume's label, behind its size.
pub open spec fn label_info() -> Seq<u8> {
    le_bytes(14, 4) + unit_bytes(VOLUME_LABEL@) + fill(2, 0)
}

/// A buffer with `EFI_FILE_SYSTEM_INFO` in it: read-only, of no stated size, in
/// blocks of 512 bytes. What lies between the fields is left as it is.
pub open spec fn with_system_info(b: Seq<u8>) -> Seq<u8> {
    put(
        put(put(b, 0, le_bytes(SYSTEM_INFO_SIZE as nat, 8)), 8, seq![1u8]),
        16,
        fill(16, 0) + le_bytes(512, 4),
    )
}

/// The attribute of a node.
pub open spec fn attribute_of(is_dir: bool) -> u64 {
    if is_dir {
        DIRECTORY
    } else {
        READ_ONLY
    }
}

/// What a file answers when it is asked for information of a kind.
pub open spec fn information<N: FileNode>(
    node: N,
    kind: Guid,
    size: usize,
    buffer: Seq<u8>,
    given: bool,
) -> Answer {
    let name = units_of(node.label());
    let info = file_info(name, node.size(), attribute_of(node.directory()));
    if kind@ == FILE_INFO_GUID@ {
        answer(FILE_INFO_SIZE + (name.len() + 1) * 2, size, buffer, given, put(buffer, 0, info))
    } else if kind@ == FILE_SYSTEM_INFO_GUID@ {
        answer(SYSTEM_INFO_SIZE as int, size, buffer, given, with_system_info(buffer))
    } else if kind@ == FILE_SYSTEM_VOLUME_LABEL_GUID@ {
        answer(14, size, buffer, given, put(buffer, 0, label_info()))
    } else {
        Answer { status: Status::Unsupported, size, buffer }
    }
}

fn write_label_info() -> (info: Vec<u8>)
    ensures
        info@ == label_info(),
        info@.len() == 14,
{
    let mut info: Vec<u8> = Vec::new();
    push_le(&mut info, 14, 4);
    assert(info@ =~= le_bytes(14, 4));
    push_units(&mut info, &VOLUME_LABEL);
    push_fill(&mut info, 2, 0);
    proof {
        lemma_le_bytes_len(14, 4);
    }
    info
}

fn write_system_info(buffer: &mut Vec<u8>)
    requires
        old(buffer)@.len() >= SYSTEM_INFO_SIZE,
    ensures
        final(buffer)@ == with_system_info(old(buffer)@),
        final(buffer)@.len() == old(buffer)@.len(),
{
    proof {
        lemma_le_bytes_len(512, 4);
        lemma_le_bytes_len(SYSTEM_INFO_SIZE as nat, 8);
    }
    put_le(buffer, 0, SYSTEM_INFO_SIZE as u64, 8);
    let mut flag: Vec<u8> = Vec::new();
    flag.push(1);
    assert(flag@ =~= seq![1u8]);
    put_slice(buffer, 8, &flag);
    let mut rest: Vec<u8> = Vec::new();
    push_fill(&mut rest, 16, 0);
    assert(rest@ =~= fill(16, 0));
    push_le(&mut rest, 512, 4);
    put_slice(buffer, 16, &rest);
}

/// What keeps a file from being opened below a node, if it can be said without
/// looking for it.
pub open spec fn refusal<N: FileNode>(
    s: Seq<FileState<N>>,
    this: u64,
    out: bool,
    name: Option<Seq<u16>>,
    mode: u64,
) -> Option<Status> {
    let k = file_at(s, this);
    if !out || name is None || k >= s.len() {
        Some(Status::InvalidParameter)
    } else if !s[k].node.directory() {
        Some(Status::NotFound)
    } else if mode >= MODE_CREATE {
        Some(Status::WriteProtected)
    } else if terminator(name->0) >= MAX_NAME || terminator(name->0) >= name->0.len() {
        Some(Status::InvalidParameter)
    } else {
        None
    }
}

/// The name a caller gave, as characters.
pub open spec fn asked(name: Seq<u16>) -> Seq<char> {
    chars_of(name.subrange(0, terminator(name)))
}

/// The page a protocol lives in.
pub open spec fn page_at(address: u64) -> Allocation {
    Allocation { start: address, pages: 1, memory_type: BOOT_SERVICES_DATA }
}

/// Whether a node may have a child of a name.
pub open spec fn may_have<N: FileNode>(node: N, name: Seq<char>) -> bool {
    exists|child: N| #[trigger] node.opens(name, Some(child))
}

impl<N: FileNode> Files<N> {
    /// No more files are open than may be.
    pub open spec fn wf(&self) -> bool {
        self.open@.len() <= MAX_FILES
    }

    /// Prepares the table.
    pub fn init() -> (files: Files<N>)
        ensures
            files.wf(),
            files.open@ == Seq::<FileState<N>>::empty(),
    {
        Files { open: Vec::new() }
    }

    /// The open file a handle came from.
    fn file_slot(&self, this: u64) -> (k: usize)
        ensures
            k == file_at(self.open@, this),
            k <= self.open@.len(),
            k < self.open@.len() ==> self.open@[k as int].address == this,
    {
        let ghost is_it = |f: FileState<N>| f.address == this;
        let mut k: usize = 0;
        while k < self.open.len()
            invariant
                k <= self.open@.len(),
                is_it == (|f: FileState<N>| f.address == this),
                forall|i: int| 0 <= i < k ==> !is_it(#[trigger] self.open@[i]),
            decreases self.open@.len() - k,
        {
            if self.open[k].address == this {
                proof {
                    crate::seqs::lemma_first(self.open@, is_it, k as int);
                }
                return k;
            }
            k = k + 1;
        }
        proof {
            crate::seqs::lemma_first(self.open@, is_it, k as int);
        }
        k
    }

    /// Creates a file handle for `node`: pages for it are allocated, and their
    /// address is the handle.
    pub fn open_handle(&mut self, memory: &mut Memory, node: N) -> (handle: Result<u64, Status>)
        requires
            old(self).wf(),
            old(memory).wf(),
        ensures
            final(self).wf(),
            final(memory).wf(),
            match handle {
                Ok(address) => {
                    &&& old(self).open@.len() < MAX_FILES
                    &&& final(self).open@ == old(self).open@.push(
                        FileState { address, node, position: 0 },
                    )
                    &&& old(memory).granted(final(memory), page_at(address))
                },
                Err(status) => {
                    &&& status == Status::OutOfResources
                    &&& old(self).open@.len() >= MAX_FILES || old(memory).lacks(4096)
                    &&& final(self).open@ == old(self).open@
                    &&& *final(memory) == *old(memory)
                },
            },
    {
        if self.open.len() >= MAX_FILES {
            return Err(Status::OutOfResources);
        }
        match memory.pages_for(BOOT_SERVICES_DATA, FILE_PROTOCOL_SIZE) {
            Some(address) => {
                self.open.push(FileState { address, node, position: 0 });
                Ok(address)
            },
            None => Err(Status::OutOfResources),
        }
    }

    /// `Open`: a file or directory relative to this one. Nothing on a volume can
    /// be created: it is mounted read-only.
    pub fn open(
        &mut self,
        memory: &mut Memory,
        this: u64,
        out: bool,
        name: Option<&[u16]>,
        mode: u64,
    ) -> (handle: Result<u64, Status>)
        requires
            old(self).wf(),
            old(memory).wf(),
        ensures
            final(self).wf(),
            final(memory).wf(),
            ({
                let units = match name {
                    Some(name) => Some(name@),
                    None => None,
                };
                let s = old(self).open@;
                match refusal(s, this, out, units, mode) {
                    Some(status) => handle == Err::<u64, Status>(status) && final(self).open@ == s
                        && *final(memory) == *old(memory),
                    None => match handle {
                        Ok(address) => exists|child: N|
                            s[file_at(s, this)].node.opens(asked(units->0), Some(child))
                                && final(self).open@ == #[trigger] s.push(
                                FileState { address, node: child, position: 0 },
                            ) && s.len() < MAX_FILES && old(memory).granted(
                                final(memory),
                                page_at(address),
                            ),
                        Err(status) => {
                            &&& final(self).open@ == s
                            &&& *final(memory) == *old(memory)
                            &&& {
                                ||| status == Status::NotFound && s[file_at(s, this)].node.opens(
                                    asked(units->0),
                                    None,
                                )
                                ||| status == Status::OutOfResources && (s.len() >= MAX_FILES
                                    || old(memory).lacks(4096)) && may_have(
                                    s[file_at(s, this)].node,
                                    asked(units->0),
                                )
                            }
                        },
                    },
                }
            }),
    {
        if !out {
            return Err(Status::InvalidParameter);
        }
        let units: &[u16] = match name {
            Some(units) => units,
            None => {
                return Err(Status::InvalidParameter);
            },
        };
        let k: usize = self.file_slot(this);
        if k == self.open.len() {
            return Err(Status::InvalidParameter);
        }
        if !self.open[k].node.is_dir() {
            return Err(Status::NotFound);
        }
        if mode >= MODE_CREATE {
            return Err(Status::WriteProtected);
        }
        let given: Vec<u16> = match until_terminator(units, MAX_NAME) {
            Some(given) => given,
            None => {
                return Err(Status::InvalidParameter);
            },
        };
        let text: String = text_of_units(&given);
        match self.open[k].node.child(text.as_str()) {
            None => Err(Status::NotFound),
            Some(child) => {
                let ghost kept = child;
                let ghost before = self.open@;
                assert(may_have(before[k as int].node, asked(units@)));
                let handle: Result<u64, Status> = self.open_handle(memory, child);
                proof {
                    if handle is Ok {
                        assert(self.open@ == before.push(
                            FileState { address: handle->Ok_0, node: kept, position: 0 },
                        ));
                    }
                }
                handle
            },
        }
    }

    /// `Close`: the handle is not usable afterwards.
    pub fn close(&mut self, this: u64) -> (status: Status)
        requires
            old(self).wf(),
        ensures
            final(self).wf(),
            ({
                let s = old(self).open@;
                if file_at(s, this) < s.len() {
                    status == Status::Success && final(self).open@ == s.remove(file_at(s, this))
                } else {
                    status == Status::InvalidParameter && final(self).open@ == s
                }
            }),
    {
        let k: usize = self.file_slot(this);
        if k == self.open.len() {
            return Status::InvalidParameter;
        }
        self.open.remove(k);
        Status::Success
    }

    /// `Delete`: a read-only volume cannot delete.
    pub fn delete(&self, _this: u64) -> (status: Status)
        ensures
            status == Status::WriteProtected,
    {
        Status::WriteProtected
    }

    /// `Read`: fills the caller's buffer from the current position. `size` is the
    /// size of the buffer, and then how much was read; either may not be given.
    pub fn read(
        &mut self,
        this: u64,
        size: &mut usize,
        size_given: bool,
        buffer: &mut Vec<u8>,
        buffer_given: bool,
    ) -> (status: Status)
        requires
            old(self).wf(),
            buffer_given ==> *old(size) <= old(buffer)@.len(),
        ensures
            final(self).wf(),
            ({
                let s = old(self).open@;
                let t = final(self).open@;
                let k = file_at(s, this);
                let refused = if !size_given || k >= s.len() || (*old(size) > 0 && !buffer_given) {
                    Some(Status::InvalidParameter)
                } else if s[k].node.directory() {
                    Some(Status::AccessDenied)
                } else {
                    None
                };
                match refused {
                    Some(refused) => status == refused && t == s && *final(size) == *old(size)
                        && final(buffer)@ == old(buffer)@,
                    None => {
                        let data = final(buffer)@.subrange(0, *final(size) as int);
                        &&& status == Status::Success
                        &&& *final(size) <= *old(size)
                        &&& *old(size) > 0 ==> s[k].node.holds(
                            s[k].position,
                            *old(size) as nat,
                            data,
                        ) && final(buffer)@ == put(old(buffer)@, 0, data)
                        &&& *old(size) == 0 ==> final(buffer)@ == old(buffer)@
                        &&& t == s.update(
                            k,
                            FileState {
                                position: advanced(s[k].position, *final(size)),
                                ..s[k]
                            },
                        )
                    },
                }
            }),
    {
        if !size_given {
            return Status::InvalidParameter;
        }
        let k: usize = self.file_slot(this);
        if k == self.open.len() {
            return Status::InvalidParameter;
        }
        let capacity: usize = *size;
        if capacity > 0 && !buffer_given {
            return Status::InvalidParameter;
        }
        if self.open[k].node.is_dir() {
            return Status::AccessDenied;
        }
        let mut data: Vec<u8> = Vec::new();
        if capacity > 0 {
            data = copy_range(buffer, 0, capacity);
        }
        let ghost held = data@;
        let position: u64 = self.open[k].position;
        let read: usize = self.open[k].node.read_at(position, &mut data);
        proof {
            assert(data@.subrange(0, read as int).len() == read);
        }
        if capacity > 0 {
            let ghost old_buffer = buffer@;
            put_slice(buffer, 0, &data);
            proof {
                let d = data@.subrange(0, read as int);
                assert(buffer@.subrange(0, read as int) =~= d);
                assert(buffer@ =~= put(old_buffer, 0, d));
            }
        }
        *size = read;
        let ghost before = self.open@;
        let next: u64 = if position > u64::MAX - read as u64 {
            u64::MAX
        } else {
            position + read as u64
        };
        self.set_position_of(k, next);
        Status::Success
    }

    /// Moves one open file.
    fn set_position_of(&mut self, k: usize, position: u64)
        requires
            old(self).wf(),
            k < old(self).open@.len(),
        ensures
            final(self).wf(),
            final(self).open@ == old(self).open@.update(
                k as int,
                FileState { position, ..old(self).open@[k as int] },
            ),
    {
        let ghost before = self.open@;
        let FileState { address, node, position: _ } = self.open.remove(k);
        self.open.insert(k, FileState { address, node, position });
        assert(self.open@ =~= before.update(k as int, FileState { position, ..before[k as int] }));
    }

    /// `Write`: a read-only volume cannot write.
    pub fn write(&self, _this: u64) -> (status: Status)
        ensures
            status == Status::WriteProtected,
    {
        Status::WriteProtected
    }

    /// `GetPosition`.
    pub fn get_position(&self, this: u64, given: bool) -> (position: Result<u64, Status>)
        ensures
            ({
                let k = file_at(self.open@, this);
                if given && k < self.open@.len() {
                    position == Ok::<u64, Status>(self.open@[k].position)
                } else {
                    position == Err::<u64, Status>(Status::InvalidParameter)
                }
            }),
    {
        if !given {
            return Err(Status::InvalidParameter);
        }
        let k: usize = self.file_slot(this);
        if k == self.open.len() {
            return Err(Status::InvalidParameter);
        }
        Ok(self.open[k].position)
    }

    /// `SetPosition`. The end of the file is allowed: the next read returns
    /// nothing. Beyond that, a position is meaningless.
    pub fn set_position(&mut self, this: u64, position: u64) -> (status: Status)
        requires
            old(self).wf(),
        ensures
            final(self).wf(),
            ({
                let s = old(self).open@;
                let k = file_at(s, this);
                if k < s.len() && position <= s[k].node.size() {
                    status == Status::Success && final(self).open@ == s.update(
                        k,
                        FileState { position, ..s[k] },
                    )
                } else {
                    status == Status::InvalidParameter && final(self).open@ == s
                }
            }),
    {
        let k: usize = self.file_slot(this);
        if k == self.open.len() {
            return Status::InvalidParameter;
        }
        if position > self.open[k].node.len() {
            return Status::InvalidParameter;
        }
        self.set_position_of(k, position);
        Status::Success
    }

    /// `GetInfo`: `EFI_FILE_INFO`, `EFI_FILE_SYSTEM_INFO`, or the volume label,
    /// depending on the GUID the caller asks for. `size` is the size of the
    /// buffer, and then what the answer takes.
    pub fn get_info(
        &self,
        this: u64,
        kind: Option<Guid>,
        size: &mut usize,
        size_given: bool,
        buffer: &mut Vec<u8>,
        buffer_given: bool,
    ) -> (status: Status)
        requires
            self.wf(),
            buffer_given ==> *old(size) <= old(buffer)@.len(),
        ensures
            ({
                let k = file_at(self.open@, this);
                if kind is None || !size_given || k >= self.open@.len() {
                    status == Status::InvalidParameter && *final(size) == *old(size)
                        && final(buffer)@ == old(buffer)@
                } else {
                    information(
                        self.open@[k].node,
                        kind->0,
                        *old(size),
                        old(buffer)@,
                        buffer_given,
                    ) == (Answer { status, size: *final(size), buffer: final(buffer)@ })
                }
            }),
    {
        let kind: Guid = match kind {
            Some(kind) => kind,
            None => {
                return Status::InvalidParameter;
            },
        };
        if !size_given {
            return Status::InvalidParameter;
        }
        let k: usize = self.file_slot(this);
        if k == self.open.len() {
            return Status::InvalidParameter;
        }
        let capacity: usize = *size;
        if same_bytes(&kind, &FILE_INFO_GUID) {
            let label: String = self.open[k].node.name();
            let name: Vec<u16> = encode(label.as_str());
            return answer_with_file(
                &name,
                self.open[k].node.len(),
                if self.open[k].node.is_dir() {
                    DIRECTORY
                } else {
                    READ_ONLY
                },
                size,
                buffer,
                buffer_given,
            );
        }
        if same_bytes(&kind, &FILE_SYSTEM_INFO_GUID) {
            *size = SYSTEM_INFO_SIZE;
            if capacity < SYSTEM_INFO_SIZE {
                return Status::BufferTooSmall;
            }
            if !buffer_given {
                return Status::InvalidParameter;
            }
            write_system_info(buffer);
            return Status::Success;
        }
        if same_bytes(&kind, &FILE_SYSTEM_VOLUME_LABEL_GUID) {
            let info: Vec<u8> = write_label_info();
            return answer_with(&info, size, buffer, buffer_given);
        }
        Status::Unsupported
    }

    /// `SetInfo`: a read-only volume has nothing to rename or resize.
    pub fn set_info(&self, _this: u64) -> (status: Status)
        ensures
            status == Status::WriteProtected,
    {
        Status::WriteProtected
    }

    /// `Flush`: there is nothing to flush, but a caller that flushes is about to
    /// trust the file, and gets a success.
    pub fn flush(&self, _this: u64) -> (status: Status)
        ensures
            status == Status::Success,
    {
        Status::Success
    }

    /// The extended variants: this firmware publishes revision 1 semantics and
    /// says so, rather than implementing a second file API.
    pub fn extended(&self, _this: u64) -> (status: Status)
        ensures
            status == Status::Unsupported,
    {
        Status::Unsupported
    }
}

/// A position moved on by what was read.
pub open spec fn advanced(position: u64, read: usize) -> u64 {
    if position + read > u64::MAX {
        u64::MAX
    } else {
        (position + read) as u64
    }
}

/// A volume that is published: the address of its protocol, and its filesystem.
pub struct VolumeSlot<F: FileSystem> {
    pub address: u64,
    pub filesystem: F,
}

/// The volumes that are published.
pub struct Volumes<F: FileSystem> {
    pub published: Vec<VolumeSlot<F>>,
}

/// Where the volume of a protocol is in the list, or how many are published.
pub open spec fn volume_at<F: FileSystem>(s: Seq<VolumeSlot<F>>, this: u64) -> int {
    crate::seqs::first(s, |v: VolumeSlot<F>| v.address == this)
}

impl<F: FileSystem> Volumes<F> {
    /// No more volumes are published than may be.
    pub open spec fn wf(&self) -> bool {
        self.published@.len() <= MAX_VOLUMES
    }

    pub fn init() -> (volumes: Volumes<F>)
        ensures
            volumes.wf(),
            volumes.published@ == Seq::<VolumeSlot<F>>::empty(),
    {
        Volumes { published: Vec::new() }
    }

    /// Makes a protocol for a volume: pages for it are allocated, and their
    /// address is what goes onto the volume's handle.
    pub fn install(&mut self, memory: &mut Memory, filesystem: F) -> (protocol: Result<u64, Status>)
        requires
            old(self).wf(),
            old(memory).wf(),
        ensures
            final(self).wf(),
            final(memory).wf(),
            match protocol {
                Ok(address) => {
                    &&& old(self).published@.len() < MAX_VOLUMES
                    &&& final(self).published@ == old(self).published@.push(
                        VolumeSlot { address, filesystem },
                    )
                    &&& old(memory).granted(final(memory), page_at(address))
                },
                Err(status) => {
                    &&& status == Status::OutOfResources
                    &&& final(self).published@ == old(self).published@
                    &&& *final(memory) == *old(memory)
                    &&& old(self).published@.len() >= MAX_VOLUMES || old(memory).lacks(4096)
                },
            },
    {
        if self.published.len() >= MAX_VOLUMES {
            return Err(Status::OutOfResources);
        }
        match memory.pages_for(BOOT_SERVICES_DATA, VOLUME_PROTOCOL_SIZE) {
            Some(address) => {
                self.published.push(VolumeSlot { address, filesystem });
                Ok(address)
            },
            None => Err(Status::OutOfResources),
        }
    }

    /// The volume behind a protocol.
    fn volume_of(&self, this: u64) -> (k: usize)
        ensures
            k == volume_at(self.published@, this),
            k <= self.published@.len(),
    {
        let ghost is_it = |v: VolumeSlot<F>| v.address == this;
        let mut k: usize = 0;
        while k < self.published.len()
            invariant
                k <= self.published@.len(),
                is_it == (|v: VolumeSlot<F>| v.address == this),
                forall|i: int| 0 <= i < k ==> !is_it(#[trigger] self.published@[i]),
            decreases self.published@.len() - k,
        {
            if self.published[k].address == this {
                proof {
                    crate::seqs::lemma_first(self.published@, is_it, k as int);
                }
                return k;
            }
            k = k + 1;
        }
        proof {
            crate::seqs::lemma_first(self.published@, is_it, k as int);
        }
        k
    }

    /// `OpenVolume`: the root of the volume, as a file handle.
    pub fn open_volume(
        &self,
        files: &mut Files<F::Node>,
        memory: &mut Memory,
        this: u64,
        out: bool,
    ) -> (handle: Result<u64, Status>)
        requires
            self.wf(),
            old(files).wf(),
            old(memory).wf(),
        ensures
            final(files).wf(),
            final(memory).wf(),
            ({
                let s = old(files).open@;
                let k = volume_at(self.published@, this);
                if !out || k >= self.published@.len() {
                    handle == Err::<u64, Status>(Status::InvalidParameter) && final(files).open@
                        == s && *final(memory) == *old(memory)
                } else {
                    match handle {
                        Ok(address) => s.len() < MAX_FILES && old(memory).granted(
                            final(memory),
                            page_at(address),
                        ) && exists|root: F::Node|
                            self.published@[k].filesystem.rooted(root) && final(files).open@
                                == #[trigger] s.push(
                                FileState { address, node: root, position: 0 },
                            ),
                        Err(status) => status == Status::OutOfResources && (s.len() >= MAX_FILES
                            || old(memory).lacks(4096)) && final(files).open@ == s
                            && *final(memory) == *old(memory),
                    }
                }
            }),
    {
        if !out {
            return Err(Status::InvalidParameter);
        }
        let k: usize = self.volume_of(this);
        if k == self.published.len() {
            return Err(Status::InvalidParameter);
        }
        let root: F::Node = self.published[k].filesystem.root();
        let ghost kept = root;
        let ghost before = files.open@;
        let handle: Result<u64, Status> = files.open_handle(memory, root);
        proof {
            if handle is Ok {
                assert(files.open@ == before.push(
                    FileState { address: handle->Ok_0, node: kept, position: 0 },
                ));
            }
        }
        handle
    }
}

/// A position that was set is the one that is got, and no other file moves.
pub proof fn law_position_is_kept<N: FileNode>(
    s: Seq<FileState<N>>,
    this: u64,
    other: u64,
    position: u64,
)
    requires
        file_at(s, this) < s.len(),
        this != other,
    ensures
        ({
            let k = file_at(s, this);
            let t = s.update(k, FileState { position, ..s[k] });
            &&& file_at(t, this) == k
            &&& t[k].position == position
            &&& file_at(t, other) == file_at(s, other)
            &&& file_at(s, other) < s.len() ==> t[file_at(s, other)] == s[file_at(s, other)]
        }),
{
    let k = file_at(s, this);
    let mine = |f: FileState<N>| f.address == this;
    let theirs = |f: FileState<N>| f.address == other;
    crate::seqs::lemma_first_is(s, mine);
    crate::seqs::lemma_first_is(s, theirs);
    let t = s.update(k, FileState { position, ..s[k] });
    let o = file_at(s, other);
    assert(mine(s[k]));
    assert forall|i: int| 0 <= i < k implies !mine(#[trigger] t[i]) by {
        assert(!mine(s[i]));
    }
    crate::seqs::lemma_first(t, mine, k);
    assert forall|i: int| 0 <= i < o implies !theirs(#[trigger] t[i]) by {
        assert(!theirs(s[i]));
    }
    if o < s.len() {
        assert(theirs(s[o]));
    }
    crate::seqs::lemma_first(t, theirs, o);
}

/// A handle that was closed is not usable afterwards, and every other one is.
pub proof fn law_closed_handle_is_gone<N: FileNode>(
    s: Seq<FileState<N>>,
    this: u64,
    other: u64,
)
    requires
        file_at(s, this) < s.len(),
        this != other,
        forall|i: int, j: int|
            0 <= i < j < s.len() ==> (#[trigger] s[i]).address != (#[trigger] s[j]).address,
    ensures
        ({
            let t = s.remove(file_at(s, this));
            &&& file_at(t, this) == t.len()
            &&& (file_at(t, other) < t.len()) == (file_at(s, other) < s.len())
            &&& file_at(s, other) < s.len() ==> t[file_at(t, other)] == s[file_at(s, other)]
        }),
{
    let k = file_at(s, this);
    let mine = |f: FileState<N>| f.address == this;
    let theirs = |f: FileState<N>| f.address == other;
    crate::seqs::lemma_first_is(s, mine);
    crate::seqs::lemma_first_is(s, theirs);
    let t = s.remove(k);
    let o = file_at(s, other);
    assert(mine(s[k]));
    assert forall|i: int| 0 <= i < t.len() implies !mine(#[trigger] t[i]) by {
        let j = if i < k {
            i
        } else {
            i + 1
        };
        assert(t[i] == s[j]);
        if j < k {
            assert(s[j].address != s[k].address);
        } else {
            assert(s[k].address != s[j].address);
        }
    }
    crate::seqs::lemma_first(t, mine, t.len() as int);
    let p = if o < k {
        o
    } else {
        o - 1
    };
    if o < s.len() {
        assert(theirs(s[o]));
        assert(o != k);
        assert(t[p] == s[o]);
    }
    assert forall|i: int| 0 <= i < p implies !theirs(#[trigger] t[i]) by {
        let j = if i < k {
            i
        } else {
            i + 1
        };
        assert(t[i] == s[j]);
        assert(!theirs(s[j]));
    }
    crate::seqs::lemma_first(t, theirs, p);
}

/// What a volume says of itself: how long that is, that it can only be read, no stated size and
/// nothing free, and blocks of 512 bytes.
pub proof fn law_system_info_is_laid_out(b: Seq<u8>)
    requires
        b.len() >= SYSTEM_INFO_SIZE,
    ensures
        ({
            let info = with_system_info(b);
            &&& info.len() == b.len()
            &&& le_at(info, 0, 8) == SYSTEM_INFO_SIZE
            &&& info[8] == 1
            &&& info.subrange(16, 32) == fill(16, 0)
            &&& le_at(info, 32, 4) == 512
            &&& forall|i: int| 36 <= i < b.len() ==> #[trigger] info[i] == b[i]
        }),
{
    let info = with_system_info(b);
    lemma_widths();
    lemma_le_value_of_bytes(SYSTEM_INFO_SIZE as nat, 8);
    lemma_le_value_of_bytes(512, 4);
    assert(info.subrange(0, 8) =~= le_bytes(SYSTEM_INFO_SIZE as nat, 8));
    assert(info.subrange(16, 32) =~= fill(16, 0));
    assert(info.subrange(32, 36) =~= le_bytes(512, 4));
}

} // verus!
