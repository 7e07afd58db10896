//! The handle database and the protocol services.
//!
//! A handle owns zero or more protocol interfaces, each keyed by a GUID. Handles
//! are numbers, from one up; zero is no handle.
use crate::bytes::same_bytes;
use crate::firmware::uefi::device_path::{match_prefix, matched_from, MAX_NODES};
use crate::firmware::uefi::services::DEVICE_PATH_PROTOCOL_GUID;
use crate::seqs::{first, lemma_first, lemma_first_is};
use crate::status::{Guid, Status};
use vstd::prelude::*;

verus! {

/// How many handles exist. More than a boot loader's worth: the disk, each
/// partition, the filesystem, the console, and the image.
pub const MAX_HANDLES: u64 = 64;

/// How many protocols a single handle may carry.
pub const MAX_PROTOCOLS: usize = 8;

/// How many `OpenProtocol` calls may be outstanding on one protocol.
pub const MAX_OPENS: usize = 8;

/// The one interface type there is.
pub const NATIVE_INTERFACE: u32 = 0;

pub const ALL_HANDLES: u32 = 0;

pub const BY_PROTOCOL: u32 = 2;

pub const OPEN_PROTOCOL_BY_HANDLE_PROTOCOL: u32 = 1;

/// The size of a handle.
pub const HANDLE_SIZE: usize = 8;

/// An interface on a handle.
#[derive(Clone, Copy)]
pub struct Installed {
    pub handle: u64,
    pub guid: Guid,
    pub interface: u64,
}

/// A protocol that an agent has open.
#[derive(Clone, Copy)]
pub struct Open {
    pub handle: u64,
    pub guid: Guid,
    pub agent: u64,
    pub controller: u64,
    pub attributes: u32,
}

/// Whether an interface is the one of a GUID on a handle.
pub open spec fn is_on(i: Installed, handle: u64, guid: Guid) -> bool {
    i.handle == handle && i.guid@ == guid@
}

/// Where the interface of a GUID on a handle is in the list, or how long that is.
pub open spec fn found(p: Seq<Installed>, handle: u64, guid: Guid) -> int {
    first(p, |i: Installed| is_on(i, handle, guid))
}

/// Whether a handle carries a protocol.
pub open spec fn carries(p: Seq<Installed>, handle: u64, guid: Guid) -> bool {
    found(p, handle, guid) < p.len()
}

/// The interfaces of a handle, in the order they were installed.
pub open spec fn on(p: Seq<Installed>, handle: u64) -> Seq<Installed>
    decreases p.len(),
{
    if p.len() == 0 {
        Seq::empty()
    } else if p.last().handle == handle {
        on(p.drop_last(), handle).push(p.last())
    } else {
        on(p.drop_last(), handle)
    }
}

/// The handles up to a number that carry a protocol, in order.
pub open spec fn handles_with(p: Seq<Installed>, count: u64, guid: Guid) -> Seq<u64>
    decreases count,
{
    if count == 0 {
        Seq::empty()
    } else if carries(p, count, guid) {
        handles_with(p, (count - 1) as u64, guid).push(count)
    } else {
        handles_with(p, (count - 1) as u64, guid)
    }
}

/// The handles up to a number.
pub open spec fn all_handles(count: u64) -> Seq<u64> {
    Seq::new(count as nat, |i: int| (i + 1) as u64)
}

/// Whether an agent's opening is one of a protocol on a handle.
pub open spec fn opens_it(o: Open, handle: u64, guid: Guid) -> bool {
    o.handle == handle && o.guid@ == guid@
}

/// Who has a protocol on a handle open.
pub open spec fn openers(s: Seq<Open>, handle: u64, guid: Guid) -> Seq<Open>
    decreases s.len(),
{
    if s.len() == 0 {
        Seq::empty()
    } else if opens_it(s.last(), handle, guid) {
        openers(s.drop_last(), handle, guid).push(s.last())
    } else {
        openers(s.drop_last(), handle, guid)
    }
}

/// Where an agent's opening of a protocol is in the list, or how long that is.
pub open spec fn opening(s: Seq<Open>, handle: u64, guid: Guid, agent: u64) -> int {
    first(s, |o: Open| opens_it(o, handle, guid) && o.agent == agent)
}

/// The handle database.
pub struct Database {
    pub count: u64,
    pub protocols: Vec<Installed>,
    pub opens: Vec<Open>,
}

impl Database {
    /// What the database keeps to: no more handles than there may be, every
    /// interface on one of them, no more interfaces on a handle than it may carry,
    /// and no GUID twice on one handle.
    pub open spec fn wf(&self) -> bool {
        &&& self.count <= MAX_HANDLES
        &&& forall|i: int|
            0 <= i < self.protocols@.len() ==> 1 <= (#[trigger] self.protocols@[i]).handle
                <= self.count
        &&& forall|h: u64| (#[trigger] on(self.protocols@, h)).len() <= MAX_PROTOCOLS
        &&& forall|i: int, j: int|
            0 <= i < j < self.protocols@.len() ==> !is_on(
                #[trigger] self.protocols@[j],
                (#[trigger] self.protocols@[i]).handle,
                self.protocols@[i].guid,
            )
    }

    /// Prepares the database.
    pub fn init() -> (database: Database)
        ensures
            database.wf(),
            database.count == 0,
            database.protocols@ == Seq::<Installed>::empty(),
            database.opens@ == Seq::<Open>::empty(),
    {
        Database { count: 0, protocols: Vec::new(), opens: Vec::new() }
    }

    /// Whether a handle is one this database handed out.
    pub open spec fn has(&self, handle: u64) -> bool {
        1 <= handle <= self.count
    }

    fn is_handle(&self, handle: u64) -> (is: bool)
        ensures
            is == self.has(handle),
    {
        1 <= handle && handle <= self.count
    }

    /// Allocates a fresh, empty handle; `None` when there are no more.
    pub fn create_handle(&mut self) -> (handle: Option<u64>)
        requires
            old(self).wf(),
        ensures
            final(self).wf(),
            final(self).protocols@ == old(self).protocols@,
            final(self).opens@ == old(self).opens@,
            match handle {
                Some(handle) => handle == old(self).count + 1 && final(self).count == handle,
                None => old(self).count == MAX_HANDLES && final(self).count == old(self).count,
            },
    {
        if self.count == MAX_HANDLES {
            return None;
        }
        self.count = self.count + 1;
        assert forall|i: int| 0 <= i < self.protocols@.len() implies 1 <= (
        #[trigger] self.protocols@[i]).handle <= self.count by {
            assert(old(self).protocols@[i].handle <= old(self).count);
        }
        Some(self.count)
    }

    /// Where the interface of a GUID on a handle is in the list.
    fn find_protocol_index(&self, handle: u64, guid: &Guid) -> (k: usize)
        ensures
            k == found(self.protocols@, handle, *guid),
            k <= self.protocols@.len(),
            k < self.protocols@.len() ==> is_on(self.protocols@[k as int], handle, *guid),
    {
        let ghost hit = |i: Installed| is_on(i, handle, *guid);
        let mut k: usize = 0;
        while k < self.protocols.len()
            invariant
                k <= self.protocols@.len(),
                hit == (|i: Installed| is_on(i, handle, *guid)),
                forall|i: int| 0 <= i < k ==> !hit(#[trigger] self.protocols@[i]),
            decreases self.protocols@.len() - k,
        {
            if self.protocols[k].handle == handle && same_bytes(&self.protocols[k].guid, guid) {
                proof {
                    lemma_first(self.protocols@, hit, k as int);
                }
                return k;
            }
            k = k + 1;
        }
        proof {
            lemma_first(self.protocols@, hit, k as int);
        }
        k
    }

    /// How many interfaces a handle carries.
    fn protocol_count(&self, handle: u64) -> (count: usize)
        ensures
            count == on(self.protocols@, handle).len(),
    {
        let mut count: usize = 0;
        let mut k: usize = 0;
        assert(self.protocols@.subrange(0, 0) =~= Seq::<Installed>::empty());
        while k < self.protocols.len()
            invariant
                k <= self.protocols@.len(),
                count <= k,
                count == on(self.protocols@.subrange(0, k as int), handle).len(),
            decreases self.protocols@.len() - k,
        {
            proof {
                let more = self.protocols@.subrange(0, k + 1);
                assert(more.drop_last() =~= self.protocols@.subrange(0, k as int));
                assert(more.last() == self.protocols@[k as int]);
            }
            if self.protocols[k].handle == handle {
                count = count + 1;
            }
            k = k + 1;
        }
        assert(self.protocols@.subrange(0, k as int) =~= self.protocols@);
        count
    }

    /// Installs `interface` on `handle`, creating the handle when it is zero: the
    /// status, and the handle.
    pub fn install_on(&mut self, handle: u64, guid: &Guid, interface: u64) -> (answer: (
        Status,
        u64,
    ))
        requires
            old(self).wf(),
        ensures
            final(self).wf(),
            final(self).opens@ == old(self).opens@,
            ({
                let (status, to) = answer;
                let added = Installed { handle: to, guid: *guid, interface };
                if handle == 0 {
                    if old(self).count == MAX_HANDLES {
                        &&& status == Status::OutOfResources && to == 0
                        &&& final(self).count == old(self).count
                        &&& final(self).protocols@ == old(self).protocols@
                    } else {
                        &&& status == Status::Success && to == old(self).count + 1
                        &&& final(self).count == to
                        &&& final(self).protocols@ == old(self).protocols@.push(added)
                    }
                } else {
                    &&& to == handle
                    &&& final(self).count == old(self).count
                    &&& if !old(self).has(handle) || carries(
                        old(self).protocols@,
                        handle,
                        *guid,
                    ) {
                        status == Status::InvalidParameter && final(self).protocols@ == old(
                            self,
                        ).protocols@
                    } else if on(old(self).protocols@, handle).len() >= MAX_PROTOCOLS {
                        status == Status::OutOfResources && final(self).protocols@ == old(
                            self,
                        ).protocols@
                    } else {
                        status == Status::Success && final(self).protocols@ == old(
                            self,
                        ).protocols@.push(added)
                    }
                }
            }),
    {
        let to: u64 = if handle == 0 {
            match self.create_handle() {
                Some(created) => created,
                None => {
                    return (Status::OutOfResources, 0);
                },
            }
        } else {
            handle
        };
        if !self.is_handle(to) {
            return (Status::InvalidParameter, to);
        }
        let ghost before = self.protocols@;
        proof {
            lemma_on(before, to);
            lemma_first_is(before, |i: Installed| is_on(i, to, *guid));
            if handle == 0 {
                lemma_nothing_on(before, to, *guid);
            }
        }
        if self.find_protocol_index(to, guid) < self.protocols.len() {
            return (Status::InvalidParameter, to);
        }
        if self.protocol_count(to) >= MAX_PROTOCOLS {
            return (Status::OutOfResources, to);
        }
        let added = Installed { handle: to, guid: *guid, interface };
        self.protocols.push(added);
        proof {
            let after = self.protocols@;
            assert(after.drop_last() =~= before);
            assert forall|h: u64| (#[trigger] on(after, h)).len() <= MAX_PROTOCOLS by {
                assert(on(before, h).len() <= MAX_PROTOCOLS);
            }
            assert forall|i: int, j: int| 0 <= i < j < after.len() implies !is_on(
                #[trigger] after[j],
                (#[trigger] after[i]).handle,
                after[i].guid,
            ) by {
                if j < before.len() {
                    assert(!is_on(before[j], before[i].handle, before[i].guid));
                } else {
                    assert(!is_on(before[i], to, *guid));
                }
            }
            assert forall|i: int| 0 <= i < after.len() implies 1 <= (#[trigger] after[i]).handle
                <= self.count by {
                if i < before.len() {
                    assert(after[i] == before[i]);
                }
            }
        }
        (Status::Success, to)
    }

    /// Installs `interface` on a fresh handle.
    pub fn install_new(&mut self, guid: &Guid, interface: u64) -> (handle: u64)
        requires
            old(self).wf(),
            old(self).count < MAX_HANDLES,
        ensures
            final(self).wf(),
            final(self).opens@ == old(self).opens@,
            handle == old(self).count + 1,
            final(self).count == handle,
            final(self).protocols@ == old(self).protocols@.push(
                Installed { handle, guid: *guid, interface },
            ),
    {
        let (_, handle) = self.install_on(0, guid, interface);
        handle
    }

    /// The device path of a handle, if it has one: where it is.
    pub fn path_of(&self, handle: u64) -> (path: Option<u64>)
        ensures
            path == self.interface(handle, DEVICE_PATH_PROTOCOL_GUID),
    {
        self.interface_on(handle, &DEVICE_PATH_PROTOCOL_GUID)
    }

    /// The interface for `guid` on `handle`, if it is installed.
    pub open spec fn interface(&self, handle: u64, guid: Guid) -> Option<u64> {
        if self.has(handle) && carries(self.protocols@, handle, guid) {
            Some(self.protocols@[found(self.protocols@, handle, guid)].interface)
        } else {
            None
        }
    }

    /// The interface for `guid` on `handle`, if it is installed.
    pub fn interface_on(&self, handle: u64, guid: &Guid) -> (interface: Option<u64>)
        ensures
            interface == self.interface(handle, *guid),
    {
        if !self.is_handle(handle) {
            return None;
        }
        let k: usize = self.find_protocol_index(handle, guid);
        if k < self.protocols.len() {
            Some(self.protocols[k].interface)
        } else {
            None
        }
    }

    /// The handles carrying `guid`, in order.
    pub fn handles_carrying(&self, guid: &Guid) -> (handles: Vec<u64>)
        ensures
            handles@ == handles_with(self.protocols@, self.count, *guid),
            handles@.len() <= self.count,
    {
        let mut handles: Vec<u64> = Vec::new();
        let mut h: u64 = 0;
        while h < self.count
            invariant
                h <= self.count,
                handles@ == handles_with(self.protocols@, h, *guid),
                handles@.len() <= h,
            decreases self.count - h,
        {
            h = h + 1;
            if self.find_protocol_index(h, guid) < self.protocols.len() {
                handles.push(h);
            }
        }
        handles
    }

    /// The first handle carrying `guid`.
    pub fn handle_with(&self, guid: &Guid) -> (handle: Option<u64>)
        ensures
            ({
                let all = handles_with(self.protocols@, self.count, *guid);
                handle == (if all.len() > 0 {
                    Some(all[0])
                } else {
                    None::<u64>
                })
            }),
    {
        let all: Vec<u64> = self.handles_carrying(guid);
        if all.len() > 0 {
            Some(all[0])
        } else {
            None
        }
    }

    /// How many handles carry `guid`.
    pub fn count_with(&self, guid: &Guid) -> (count: usize)
        ensures
            count == handles_with(self.protocols@, self.count, *guid).len(),
    {
        self.handles_carrying(guid).len()
    }

    /// `InstallProtocolInterface`: the status, and the handle.
    pub fn install_protocol_interface(
        &mut self,
        handle: Option<u64>,
        guid: Option<Guid>,
        interface_type: u32,
        interface: u64,
    ) -> (answer: (Status, u64))
        requires
            old(self).wf(),
        ensures
            final(self).wf(),
            final(self).opens@ == old(self).opens@,
            if handle is None || guid is None || interface_type != NATIVE_INTERFACE {
                &&& answer == (
                    Status::InvalidParameter,
                    match handle {
                        Some(handle) => handle,
                        None => 0,
                    },
                )
                &&& final(self).count == old(self).count
                &&& final(self).protocols@ == old(self).protocols@
            } else if handle->0 == 0 && old(self).count < MAX_HANDLES {
                &&& answer == (Status::Success, (old(self).count + 1) as u64)
                &&& final(self).count == answer.1
                &&& final(self).protocols@ == old(self).protocols@.push(
                    Installed { handle: answer.1, guid: guid->0, interface },
                )
                &&& !carries(old(self).protocols@, answer.1, guid->0)
            } else if handle->0 != 0 && old(self).has(handle->0) && !carries(
                old(self).protocols@,
                handle->0,
                guid->0,
            ) && on(old(self).protocols@, handle->0).len() < MAX_PROTOCOLS {
                &&& answer == (Status::Success, handle->0)
                &&& final(self).count == old(self).count
                &&& final(self).protocols@ == old(self).protocols@.push(
                    Installed { handle: answer.1, guid: guid->0, interface },
                )
            } else {
                &&& answer.1 == handle->0
                &&& final(self).protocols@ == old(self).protocols@
                &&& final(self).count == old(self).count
                &&& answer.0 == (if handle->0 != 0 && (!old(self).has(handle->0) || carries(
                    old(self).protocols@,
                    handle->0,
                    guid->0,
                )) {
                    Status::InvalidParameter
                } else {
                    Status::OutOfResources
                })
            },
    {
        match (handle, guid) {
            (Some(handle), Some(guid)) => {
                if interface_type != NATIVE_INTERFACE {
                    return (Status::InvalidParameter, handle);
                }
                proof {
                    lemma_first_is(
                        self.protocols@,
                        |i: Installed| is_on(i, (self.count + 1) as u64, guid),
                    );
                    if self.count < MAX_HANDLES {
                        lemma_nothing_on(self.protocols@, (self.count + 1) as u64, guid);
                    }
                }
                self.install_on(handle, &guid, interface)
            },
            (Some(handle), None) => (Status::InvalidParameter, handle),
            _ => (Status::InvalidParameter, 0),
        }
    }

    /// `ReinstallProtocolInterface`.
    pub fn reinstall_protocol_interface(
        &mut self,
        handle: u64,
        guid: Option<Guid>,
        old_interface: u64,
        new_interface: u64,
    ) -> (status: Status)
        requires
            old(self).wf(),
        ensures
            final(self).wf(),
            final(self).count == old(self).count,
            final(self).opens@ == old(self).opens@,
            ({
                let p = old(self).protocols@;
                let k = found(p, handle, guid->0);
                if guid is None || !old(self).has(handle) {
                    status == Status::InvalidParameter && final(self).protocols@ == p
                } else if k >= p.len() {
                    status == Status::NotFound && final(self).protocols@ == p
                } else if p[k].interface != old_interface {
                    status == Status::InvalidParameter && final(self).protocols@ == p
                } else {
                    status == Status::Success && final(self).protocols@ == p.update(
                        k,
                        Installed { interface: new_interface, ..p[k] },
                    )
                }
            }),
    {
        let guid: Guid = match guid {
            Some(guid) => guid,
            None => {
                return Status::InvalidParameter;
            },
        };
        if !self.is_handle(handle) {
            return Status::InvalidParameter;
        }
        let k: usize = self.find_protocol_index(handle, &guid);
        if k == self.protocols.len() {
            return Status::NotFound;
        }
        if self.protocols[k].interface != old_interface {
            return Status::InvalidParameter;
        }
        let ghost before = self.protocols@;
        let mut changed: Installed = self.protocols[k];
        changed.interface = new_interface;
        self.protocols.set(k, changed);
        proof {
            lemma_same_owners(before, self.protocols@);
            assert forall|h: u64| (#[trigger] on(self.protocols@, h)).len() <= MAX_PROTOCOLS by {
                assert(on(before, h).len() <= MAX_PROTOCOLS);
            }
            assert forall|i: int, j: int| 0 <= i < j < self.protocols@.len() implies !is_on(
                #[trigger] self.protocols@[j],
                (#[trigger] self.protocols@[i]).handle,
                self.protocols@[i].guid,
            ) by {
                assert(!is_on(before[j], before[i].handle, before[i].guid));
            }
        }
        Status::Success
    }

    /// `UninstallProtocolInterface`.
    pub fn uninstall_protocol_interface(
        &mut self,
        handle: u64,
        guid: Option<Guid>,
        interface: u64,
    ) -> (status: Status)
        requires
            old(self).wf(),
        ensures
            final(self).wf(),
            final(self).count == old(self).count,
            final(self).opens@ == old(self).opens@,
            ({
                let p = old(self).protocols@;
                let k = found(p, handle, guid->0);
                if guid is None || !old(self).has(handle) {
                    status == Status::InvalidParameter && final(self).protocols@ == p
                } else if k >= p.len() {
                    status == Status::NotFound && final(self).protocols@ == p
                } else if p[k].interface != interface {
                    status == Status::InvalidParameter && final(self).protocols@ == p
                } else {
                    status == Status::Success && final(self).protocols@ == p.remove(k)
                }
            }),
    {
        let guid: Guid = match guid {
            Some(guid) => guid,
            None => {
                return Status::InvalidParameter;
            },
        };
        if !self.is_handle(handle) {
            return Status::InvalidParameter;
        }
        let k: usize = self.find_protocol_index(handle, &guid);
        if k == self.protocols.len() {
            return Status::NotFound;
        }
        if self.protocols[k].interface != interface {
            return Status::InvalidParameter;
        }
        let ghost before = self.protocols@;
        self.protocols.remove(k);
        proof {
            let after = self.protocols@;
            assert forall|h: u64| (#[trigger] on(after, h)).len() <= MAX_PROTOCOLS by {
                lemma_on_remove(before, k as int, h);
                assert(on(before, h).len() <= MAX_PROTOCOLS);
            }
            assert forall|i: int, j: int| 0 <= i < j < after.len() implies !is_on(
                #[trigger] after[j],
                (#[trigger] after[i]).handle,
                after[i].guid,
            ) by {
                let a = if i < k {
                    i
                } else {
                    i + 1
                };
                let b = if j < k {
                    j
                } else {
                    j + 1
                };
                assert(!is_on(before[b], before[a].handle, before[a].guid));
            }
            assert forall|i: int| 0 <= i < after.len() implies 1 <= (#[trigger] after[i]).handle
                <= self.count by {
                let a = if i < k {
                    i
                } else {
                    i + 1
                };
                assert(after[i] == before[a]);
            }
        }
        Status::Success
    }

    /// `HandleProtocol`.
    pub fn handle_protocol(&self, handle: u64, guid: Option<Guid>, out: bool) -> (interface: Result<
        u64,
        Status,
    >)
        ensures
            interface == (if guid is None || !out {
                Err::<u64, Status>(Status::InvalidParameter)
            } else {
                match self.interface(handle, guid->0) {
                    Some(interface) => Ok::<u64, Status>(interface),
                    None => Err::<u64, Status>(Status::Unsupported),
                }
            }),
    {
        let guid: Guid = match guid {
            Some(guid) => guid,
            None => {
                return Err(Status::InvalidParameter);
            },
        };
        if !out {
            return Err(Status::InvalidParameter);
        }
        match self.interface_on(handle, &guid) {
            Some(interface) => Ok(interface),
            None => Err(Status::Unsupported),
        }
    }

    /// `LocateProtocol`: the interface on the first handle that carries one.
    pub fn locate_protocol(&self, guid: Option<Guid>, out: bool) -> (interface: Result<u64, Status>)
        ensures
            ({
                let all = handles_with(self.protocols@, self.count, guid->0);
                interface == (if guid is None || !out {
                    Err::<u64, Status>(Status::InvalidParameter)
                } else if all.len() == 0 {
                    Err::<u64, Status>(Status::NotFound)
                } else {
                    match self.interface(all[0], guid->0) {
                        Some(interface) => Ok::<u64, Status>(interface),
                        None => Err::<u64, Status>(Status::NotFound),
                    }
                })
            }),
    {
        let guid: Guid = match guid {
            Some(guid) => guid,
            None => {
                return Err(Status::InvalidParameter);
            },
        };
        if !out {
            return Err(Status::InvalidParameter);
        }
        match self.handle_with(&guid) {
            Some(handle) => match self.interface_on(handle, &guid) {
                Some(interface) => Ok(interface),
                None => Err(Status::NotFound),
            },
            None => Err(Status::NotFound),
        }
    }

    /// The handles a search finds.
    pub open spec fn searched(&self, search_type: u32, guid: Option<Guid>) -> Seq<u64> {
        if search_type == ALL_HANDLES {
            all_handles(self.count)
        } else if search_type == BY_PROTOCOL && guid is Some {
            handles_with(self.protocols@, self.count, guid->0)
        } else {
            Seq::empty()
        }
    }

    fn collect_handles(&self, search_type: u32, guid: Option<Guid>) -> (handles: Vec<u64>)
        requires
            self.wf(),
        ensures
            handles@ == self.searched(search_type, guid),
            handles@.len() <= MAX_HANDLES,
    {
        if search_type == ALL_HANDLES {
            let mut handles: Vec<u64> = Vec::new();
            let mut h: u64 = 0;
            while h < self.count
                invariant
                    h <= self.count,
                    self.count <= MAX_HANDLES,
                    handles@ == all_handles(h),
                decreases self.count - h,
            {
                h = h + 1;
                handles.push(h);
                assert(handles@ =~= all_handles(h));
            }
            return handles;
        }
        if search_type == BY_PROTOCOL {
            match guid {
                Some(guid) => {
                    return self.handles_carrying(&guid);
                },
                None => {},
            }
        }
        Vec::new()
    }

    /// `LocateHandle`: `size` is the size of the buffer in bytes, and then what the
    /// handles take.
    pub fn locate_handle(
        &self,
        search_type: u32,
        guid: Option<Guid>,
        size: &mut usize,
        size_given: bool,
        buffer: bool,
    ) -> (handles: Result<Vec<u64>, Status>)
        requires
            self.wf(),
        ensures
            ({
                let all = self.searched(search_type, guid);
                let refused = !size_given || (search_type == BY_PROTOCOL && guid is None);
                &&& *final(size) == (if refused {
                    *old(size)
                } else {
                    (all.len() * 8) as usize
                })
                &&& match handles {
                    Ok(handles) => !refused && *old(size) >= all.len() * 8 && all.len() > 0
                        && buffer && handles@ == all,
                    Err(status) => status == (if refused {
                        Status::InvalidParameter
                    } else if *old(size) < all.len() * 8 {
                        Status::BufferTooSmall
                    } else if all.len() == 0 {
                        Status::NotFound
                    } else {
                        Status::InvalidParameter
                    }) && (refused || *old(size) < all.len() * 8 || all.len() == 0 || !buffer),
                }
            }),
    {
        if !size_given {
            return Err(Status::InvalidParameter);
        }
        if search_type == BY_PROTOCOL && guid.is_none() {
            return Err(Status::InvalidParameter);
        }
        let handles: Vec<u64> = self.collect_handles(search_type, guid);
        let needed: usize = handles.len() * HANDLE_SIZE;
        let capacity: usize = *size;
        *size = needed;
        if capacity < needed {
            return Err(Status::BufferTooSmall);
        }
        if handles.len() == 0 {
            return Err(Status::NotFound);
        }
        if !buffer {
            return Err(Status::InvalidParameter);
        }
        Ok(handles)
    }

    /// `LocateHandleBuffer`: the handles that go into a pool buffer of their size.
    /// The caller releases it with `FreePool`, so it has to be a pool allocation.
    pub fn locate_handle_buffer(&self, search_type: u32, guid: Option<Guid>, out: bool) -> (handles:
        Result<Vec<u64>, Status>)
        requires
            self.wf(),
        ensures
            ({
                let all = self.searched(search_type, guid);
                match handles {
                    Ok(handles) => out && !(search_type == BY_PROTOCOL && guid is None)
                        && all.len() > 0 && handles@ == all,
                    Err(status) => if !out || (search_type == BY_PROTOCOL && guid is None) {
                        status == Status::InvalidParameter
                    } else {
                        status == Status::NotFound && all.len() == 0
                    },
                }
            }),
    {
        if !out || (search_type == BY_PROTOCOL && guid.is_none()) {
            return Err(Status::InvalidParameter);
        }
        let handles: Vec<u64> = self.collect_handles(search_type, guid);
        if handles.len() == 0 {
            return Err(Status::NotFound);
        }
        Ok(handles)
    }

    /// How many agents have a protocol on a handle open.
    fn open_count(&self, handle: u64, guid: &Guid) -> (count: usize)
        ensures
            count == openers(self.opens@, handle, *guid).len(),
    {
        let mut count: usize = 0;
        let mut k: usize = 0;
        assert(self.opens@.subrange(0, 0) =~= Seq::<Open>::empty());
        while k < self.opens.len()
            invariant
                k <= self.opens@.len(),
                count <= k,
                count == openers(self.opens@.subrange(0, k as int), handle, *guid).len(),
            decreases self.opens@.len() - k,
        {
            proof {
                let more = self.opens@.subrange(0, k + 1);
                assert(more.drop_last() =~= self.opens@.subrange(0, k as int));
                assert(more.last() == self.opens@[k as int]);
            }
            if self.opens[k].handle == handle && same_bytes(&self.opens[k].guid, guid) {
                count = count + 1;
            }
            k = k + 1;
        }
        assert(self.opens@.subrange(0, k as int) =~= self.opens@);
        count
    }

    /// `OpenProtocol`: the interface, with the opening recorded where there is room
    /// for it.
    pub fn open_protocol(
        &mut self,
        handle: u64,
        guid: Option<Guid>,
        agent: u64,
        controller: u64,
        attributes: u32,
    ) -> (interface: Result<u64, Status>)
        requires
            old(self).wf(),
        ensures
            final(self).wf(),
            final(self).count == old(self).count,
            final(self).protocols@ == old(self).protocols@,
            ({
                let recorded = guid is Some && old(self).interface(handle, guid->0) is Some && (
                attributes % 2 == 1 || attributes == 0) && openers(
                    old(self).opens@,
                    handle,
                    guid->0,
                ).len() < MAX_OPENS;
                &&& interface == (if guid is None || !old(self).has(handle) {
                    Err::<u64, Status>(Status::InvalidParameter)
                } else {
                    match old(self).interface(handle, guid->0) {
                        Some(interface) => Ok::<u64, Status>(interface),
                        None => Err::<u64, Status>(Status::Unsupported),
                    }
                })
                &&& final(self).opens@ == (if recorded {
                    old(self).opens@.push(
                        Open { handle, guid: guid->0, agent, controller, attributes },
                    )
                } else {
                    old(self).opens@
                })
            }),
    {
        let guid: Guid = match guid {
            Some(guid) => guid,
            None => {
                return Err(Status::InvalidParameter);
            },
        };
        if !self.is_handle(handle) {
            return Err(Status::InvalidParameter);
        }
        let interface: u64 = match self.interface_on(handle, &guid) {
            Some(interface) => interface,
            None => {
                return Err(Status::Unsupported);
            },
        };
        if (attributes % 2 == 1 || attributes == 0) && self.open_count(handle, &guid)
            < MAX_OPENS {
            self.opens.push(Open { handle, guid, agent, controller, attributes });
        }
        Ok(interface)
    }

    /// `CloseProtocol`: the agent's opening is forgotten.
    pub fn close_protocol(&mut self, handle: u64, guid: Option<Guid>, agent: u64) -> (status: Status)
        requires
            old(self).wf(),
        ensures
            final(self).wf(),
            final(self).count == old(self).count,
            final(self).protocols@ == old(self).protocols@,
            ({
                let s = old(self).opens@;
                let k = opening(s, handle, guid->0, agent);
                if guid is None || !old(self).has(handle) {
                    status == Status::InvalidParameter && final(self).opens@ == s
                } else if !carries(old(self).protocols@, handle, guid->0) {
                    status == Status::Unsupported && final(self).opens@ == s
                } else if k >= s.len() {
                    status == Status::NotFound && final(self).opens@ == s
                } else {
                    status == Status::Success && final(self).opens@ == s.update(
                        k,
                        s.last(),
                    ).drop_last()
                }
            }),
    {
        let id: Guid = match guid {
            Some(id) => id,
            None => {
                return Status::InvalidParameter;
            },
        };
        if !self.is_handle(handle) {
            return Status::InvalidParameter;
        }
        if self.find_protocol_index(handle, &id) == self.protocols.len() {
            return Status::Unsupported;
        }
        let ghost hit = |o: Open| opens_it(o, handle, id) && o.agent == agent;
        let mut k: usize = 0;
        while k < self.opens.len()
            invariant
                k <= self.opens@.len(),
                hit == (|o: Open| opens_it(o, handle, id) && o.agent == agent),
                *self == *old(self),
                self.wf(),
                guid == Some(id),
                self.has(handle),
                carries(self.protocols@, handle, id),
                forall|i: int| 0 <= i < k ==> !hit(#[trigger] self.opens@[i]),
            decreases self.opens@.len() - k,
        {
            if self.opens[k].handle == handle && same_bytes(&self.opens[k].guid, &id)
                && self.opens[k].agent == agent {
                proof {
                    lemma_first(self.opens@, hit, k as int);
                }
                let ghost before = self.opens@;
                self.opens.swap_remove(k);
                assert(self.opens@ =~= before.update(k as int, before.last()).drop_last());
                return Status::Success;
            }
            k = k + 1;
        }
        proof {
            lemma_first(self.opens@, hit, k as int);
        }
        Status::NotFound
    }

    /// `OpenProtocolInformation`: reports who has the protocol open, which is what
    /// an application uses to decide whether it may uninstall it. `capacity` is how
    /// many entries there is room for.
    pub fn open_protocol_information(
        &self,
        handle: u64,
        guid: Option<Guid>,
        entries: bool,
        capacity: Option<usize>,
    ) -> (answer: (Status, Option<usize>, Vec<Open>))
        ensures
            ({
                let all = openers(self.opens@, handle, guid->0);
                let (status, count, list) = answer;
                if guid is None || capacity is None || !self.has(handle) {
                    status == Status::InvalidParameter && count is None
                } else if !carries(self.protocols@, handle, guid->0) {
                    status == Status::Unsupported && count is None
                } else {
                    &&& count == Some(all.len() as usize)
                    &&& if all.len() > 0 && (!entries || capacity->0 < all.len()) {
                        status == Status::BufferTooSmall
                    } else {
                        status == Status::Success && list@ == all
                    }
                }
            }),
    {
        let guid: Guid = match guid {
            Some(guid) => guid,
            None => {
                return (Status::InvalidParameter, None, Vec::new());
            },
        };
        let room: usize = match capacity {
            Some(room) => room,
            None => {
                return (Status::InvalidParameter, None, Vec::new());
            },
        };
        if !self.is_handle(handle) {
            return (Status::InvalidParameter, None, Vec::new());
        }
        if self.find_protocol_index(handle, &guid) == self.protocols.len() {
            return (Status::Unsupported, None, Vec::new());
        }
        let mut list: Vec<Open> = Vec::new();
        let mut k: usize = 0;
        assert(self.opens@.subrange(0, 0) =~= Seq::<Open>::empty());
        while k < self.opens.len()
            invariant
                k <= self.opens@.len(),
                list@ == openers(self.opens@.subrange(0, k as int), handle, guid),
                list@.len() <= k,
            decreases self.opens@.len() - k,
        {
            proof {
                let more = self.opens@.subrange(0, k + 1);
                assert(more.drop_last() =~= self.opens@.subrange(0, k as int));
                assert(more.last() == self.opens@[k as int]);
            }
            if self.opens[k].handle == handle && same_bytes(&self.opens[k].guid, &guid) {
                list.push(self.opens[k]);
            }
            k = k + 1;
        }
        assert(self.opens@.subrange(0, k as int) =~= self.opens@);
        let count: usize = list.len();
        if count > 0 && (!entries || room < count) {
            return (Status::BufferTooSmall, Some(count), Vec::new());
        }
        (Status::Success, Some(count), list)
    }

    /// `ProtocolsPerHandle`: the interfaces of a handle, in the order they were
    /// installed.
    pub fn protocols_per_handle(&self, handle: u64, out: bool) -> (list: Result<
        Vec<Installed>,
        Status,
    >)
        ensures
            match list {
                Ok(list) => out && self.has(handle) && list@ == on(self.protocols@, handle),
                Err(status) => (!out || !self.has(handle)) && status == Status::InvalidParameter,
            },
    {
        if !out || !self.is_handle(handle) {
            return Err(Status::InvalidParameter);
        }
        let mut list: Vec<Installed> = Vec::new();
        let mut k: usize = 0;
        assert(self.protocols@.subrange(0, 0) =~= Seq::<Installed>::empty());
        while k < self.protocols.len()
            invariant
                k <= self.protocols@.len(),
                list@ == on(self.protocols@.subrange(0, k as int), handle),
            decreases self.protocols@.len() - k,
        {
            proof {
                let more = self.protocols@.subrange(0, k + 1);
                assert(more.drop_last() =~= self.protocols@.subrange(0, k as int));
                assert(more.last() == self.protocols@[k as int]);
            }
            if self.protocols[k].handle == handle {
                list.push(self.protocols[k]);
            }
            k = k + 1;
        }
        assert(self.protocols@.subrange(0, k as int) =~= self.protocols@);
        Ok(list)
    }

    /// `RegisterProtocolNotify`: this firmware has no protocol-notification
    /// machinery, so it answers with the status an application can act on.
    pub fn register_protocol_notify(&self) -> (status: Status)
        ensures
            status == Status::Unsupported,
    {
        Status::Unsupported
    }

    /// `LocateDevicePath`: finds the handle whose device path is the longest prefix
    /// of a path, among those that carry a protocol. `paths` are the device paths
    /// of the handles, in order.
    pub fn locate_device_path(
        &self,
        guid: Option<Guid>,
        path: Option<&[u8]>,
        out: bool,
        paths: &Vec<Option<Vec<u8>>>,
    ) -> (handle: Result<u64, Status>)
        requires
            paths@.len() == self.count,
        ensures
            handle == (if guid is None || path is None || !out {
                Err::<u64, Status>(Status::InvalidParameter)
            } else {
                match longest(
                    handles_with(self.protocols@, self.count, guid->0),
                    paths@,
                    path->0@,
                ) {
                    Some((handle, _)) => Ok::<u64, Status>(handle),
                    None => Err::<u64, Status>(Status::NotFound),
                }
            }),
    {
        let guid: Guid = match guid {
            Some(guid) => guid,
            None => {
                return Err(Status::InvalidParameter);
            },
        };
        let path: &[u8] = match path {
            Some(path) => path,
            None => {
                return Err(Status::InvalidParameter);
            },
        };
        if !out {
            return Err(Status::InvalidParameter);
        }
        let candidates: Vec<u64> = self.handles_carrying(&guid);
        let mut best: Option<(u64, usize)> = None;
        let mut next: usize = 0;
        assert(candidates@.subrange(0, 0) =~= Seq::<u64>::empty());
        proof {
            lemma_handles_inside(self.protocols@, self.count, guid);
        }
        while next < candidates.len()
            invariant
                next <= candidates@.len(),
                paths@.len() == self.count,
                forall|i: int|
                    0 <= i < candidates@.len() ==> 1 <= #[trigger] candidates@[i] <= self.count,
                chosen(best) == longest(candidates@.subrange(0, next as int), paths@, path@),
            decreases candidates@.len() - next,
        {
            proof {
                let more = candidates@.subrange(0, next + 1);
                assert(more.drop_last() =~= candidates@.subrange(0, next as int));
                assert(more.last() == candidates@[next as int]);
            }
            let handle: u64 = candidates[next];
            let _size: usize = paths.len();
            let matched: Option<usize> = match &paths[(handle - 1) as usize] {
                Some(installed) => match_prefix(Some(installed.as_slice()), path),
                None => None,
            };
            match matched {
                Some(length) => {
                    let better: bool = match best {
                        Some((_, best_length)) => length > best_length,
                        None => true,
                    };
                    if better {
                        best = Some((handle, length));
                    }
                },
                None => {},
            }
            next = next + 1;
        }
        assert(candidates@.subrange(0, next as int) =~= candidates@);
        match best {
            Some((handle, _)) => Ok(handle),
            None => Err(Status::NotFound),
        }
    }
}

/// How much of a path a handle's device path matches.
pub open spec fn matched_by(handle: u64, paths: Seq<Option<Vec<u8>>>, path: Seq<u8>) -> Option<
    int,
> {
    match paths[handle - 1] {
        Some(installed) => matched_from(path, installed@, 0, MAX_NODES as nat),
        None => None,
    }
}

/// The first of the handles whose device paths match the most of a path, and how
/// much that is.
pub open spec fn longest(handles: Seq<u64>, paths: Seq<Option<Vec<u8>>>, path: Seq<u8>) -> Option<
    (u64, int),
>
    decreases handles.len(),
{
    if handles.len() == 0 {
        None
    } else {
        let before = longest(handles.drop_last(), paths, path);
        match matched_by(handles.last(), paths, path) {
            None => before,
            Some(length) => match before {
                Some((_, best)) => if length <= best {
                    before
                } else {
                    Some((handles.last(), length))
                },
                None => Some((handles.last(), length)),
            },
        }
    }
}

spec fn chosen(best: Option<(u64, usize)>) -> Option<(u64, int)> {
    match best {
        Some((handle, length)) => Some((handle, length as int)),
        None => None,
    }
}

proof fn lemma_handles_inside(p: Seq<Installed>, count: u64, guid: Guid)
    ensures
        forall|i: int|
            0 <= i < handles_with(p, count, guid).len() ==> 1 <= #[trigger] handles_with(
                p,
                count,
                guid,
            )[i] <= count,
    decreases count,
{
    if count > 0 {
        let fewer = handles_with(p, (count - 1) as u64, guid);
        lemma_handles_inside(p, (count - 1) as u64, guid);
        assert forall|i: int| 0 <= i < handles_with(p, count, guid).len() implies 1
            <= #[trigger] handles_with(p, count, guid)[i] <= count by {
            if i < fewer.len() {
                assert(handles_with(p, count, guid)[i] == fewer[i]);
            }
        }
    }
}

proof fn lemma_on(p: Seq<Installed>, handle: u64)
    ensures
        on(p, handle).len() <= p.len(),
    decreases p.len(),
{
    if p.len() > 0 {
        lemma_on(p.drop_last(), handle);
    }
}

/// A handle that is not there yet carries nothing.
pub proof fn lemma_nothing_on(p: Seq<Installed>, handle: u64, guid: Guid)
    requires
        forall|i: int| 0 <= i < p.len() ==> (#[trigger] p[i]).handle < handle,
    ensures
        on(p, handle).len() == 0,
        !carries(p, handle, guid),
    decreases p.len(),
{
    lemma_first_is(p, |i: Installed| is_on(i, handle, guid));
    if p.len() > 0 {
        assert(p[p.len() - 1].handle < handle);
        assert forall|i: int| 0 <= i < p.len() - 1 implies (#[trigger] p.drop_last()[i]).handle
            < handle by {
            assert(p[i].handle < handle);
        }
        lemma_nothing_on(p.drop_last(), handle, guid);
    }
}

/// What is on a handle depends on whose the interfaces are.
proof fn lemma_same_owners(a: Seq<Installed>, b: Seq<Installed>)
    requires
        a.len() == b.len(),
        forall|i: int| 0 <= i < a.len() ==> (#[trigger] a[i]).handle == b[i].handle,
    ensures
        forall|h: u64| (#[trigger] on(b, h)).len() == on(a, h).len(),
    decreases a.len(),
{
    if a.len() > 0 {
        let x = a.drop_last();
        let y = b.drop_last();
        assert forall|i: int| 0 <= i < x.len() implies (#[trigger] x[i]).handle == y[i].handle by {
            assert(a[i].handle == b[i].handle);
        }
        lemma_same_owners(x, y);
        assert(a[a.len() - 1].handle == b[a.len() - 1].handle);
        assert forall|h: u64| (#[trigger] on(b, h)).len() == on(a, h).len() by {
            assert(on(y, h).len() == on(x, h).len());
        }
    }
}

proof fn lemma_on_remove(p: Seq<Installed>, k: int, h: u64)
    requires
        0 <= k < p.len(),
    ensures
        on(p.remove(k), h).len() <= on(p, h).len(),
    decreases p.len(),
{
    let q = p.remove(k);
    if k == p.len() - 1 {
        assert(q =~= p.drop_last());
    } else {
        assert(q.drop_last() =~= p.drop_last().remove(k));
        assert(q.last() == p.last());
        lemma_on_remove(p.drop_last(), k, h);
    }
}

/// An interface that was installed is the one that is found, and what other
/// handles and other protocols carry does not change.
pub proof fn law_installed_is_found(
    p: Seq<Installed>,
    added: Installed,
    handle: u64,
    guid: Guid,
)
    requires
        !carries(p, added.handle, added.guid),
    ensures
        ({
            let q = p.push(added);
            &&& carries(q, added.handle, added.guid)
            &&& q[found(q, added.handle, added.guid)].interface == added.interface
            &&& !is_on(added, handle, guid) ==> carries(q, handle, guid) == carries(p, handle, guid)
            &&& carries(p, handle, guid) ==> q[found(q, handle, guid)] == p[found(p, handle, guid)]
        }),
{
    let q = p.push(added);
    let mine = |i: Installed| is_on(i, added.handle, added.guid);
    let theirs = |i: Installed| is_on(i, handle, guid);
    lemma_first_is(p, mine);
    lemma_first_is(p, theirs);
    assert forall|i: int| 0 <= i < p.len() implies !mine(#[trigger] q[i]) by {
        assert(!mine(p[i]));
    }
    assert(mine(q[p.len() as int]));
    lemma_first(q, mine, p.len() as int);
    let k = found(p, handle, guid);
    assert forall|i: int| 0 <= i < k implies !theirs(#[trigger] q[i]) by {
        assert(!theirs(p[i]));
    }
    if k < p.len() {
        assert(theirs(p[k]));
        lemma_first(q, theirs, k);
    } else if is_on(added, handle, guid) {
    } else {
        assert(!theirs(q[p.len() as int]));
        lemma_first(q, theirs, q.len() as int);
    }
}

/// An interface that was uninstalled is gone.
pub proof fn law_uninstalled_is_gone(p: Seq<Installed>, handle: u64, guid: Guid)
    requires
        carries(p, handle, guid),
        forall|i: int, j: int|
            0 <= i < j < p.len() ==> !is_on(
                #[trigger] p[j],
                (#[trigger] p[i]).handle,
                p[i].guid,
            ),
    ensures
        !carries(p.remove(found(p, handle, guid)), handle, guid),
{
    let hit = |i: Installed| is_on(i, handle, guid);
    lemma_first_is(p, hit);
    let k = found(p, handle, guid);
    let q = p.remove(k);
    assert(hit(p[k]));
    assert forall|i: int| 0 <= i < q.len() implies !hit(#[trigger] q[i]) by {
        if i < k {
            assert(!hit(p[i]));
        } else {
            assert(q[i] == p[i + 1]);
            assert(!is_on(p[i + 1], p[k].handle, p[k].guid));
        }
    }
    lemma_first(q, hit, q.len() as int);
}

/// The interfaces of a handle are exactly those installed on it, in order.
pub proof fn law_handle_carries_what_is_on_it(p: Seq<Installed>, handle: u64)
    ensures
        on(p, handle) == p.filter(|i: Installed| i.handle == handle),
    decreases p.len(),
{
    reveal(Seq::filter);
    if p.len() > 0 {
        law_handle_carries_what_is_on_it(p.drop_last(), handle);
    }
}

/// A search by protocol finds every handle that has it, each once and in order, and no
/// other.
pub proof fn law_search_finds_every_handle(p: Seq<Installed>, count: u64, guid: Guid)
    ensures
        forall|h: u64|
            #[trigger] handles_with(p, count, guid).contains(h) <==> 1 <= h <= count && exists|i: int|
                0 <= i < p.len() && (#[trigger] p[i]).handle == h && p[i].guid@ == guid@,
        forall|x: int, y: int|
            0 <= x < y < handles_with(p, count, guid).len() ==> #[trigger] handles_with(
                p,
                count,
                guid,
            )[x] < #[trigger] handles_with(p, count, guid)[y],
    decreases count,
{
    let all = handles_with(p, count, guid);
    if count > 0 {
        let less = (count - 1) as u64;
        law_search_finds_every_handle(p, less, guid);
        let before = handles_with(p, less, guid);
        let hit = |i: Installed| is_on(i, count, guid);
        lemma_first_is(p, hit);
        assert forall|h: u64| #[trigger] all.contains(h) <==> 1 <= h <= count && exists|i: int|
            0 <= i < p.len() && (#[trigger] p[i]).handle == h && p[i].guid@ == guid@ by {
            if all.contains(h) {
                let x = choose|x: int| 0 <= x < all.len() && all[x] == h;
                if x < before.len() {
                    assert(before[x] == h);
                    assert(before.contains(h));
                } else {
                    assert(hit(p[first(p, hit)]));
                }
            }
            if 1 <= h <= count && exists|i: int|
                0 <= i < p.len() && (#[trigger] p[i]).handle == h && p[i].guid@ == guid@ {
                let i = choose|i: int|
                    0 <= i < p.len() && (#[trigger] p[i]).handle == h && p[i].guid@ == guid@;
                if h < count {
                    assert(before.contains(h));
                    let x = choose|x: int| 0 <= x < before.len() && before[x] == h;
                    assert(all[x] == h);
                } else {
                    assert(hit(p[i]));
                    assert(all[all.len() - 1] == h);
                }
            }
        }
        assert forall|x: int, y: int| 0 <= x < y < all.len() implies #[trigger] all[x]
            < #[trigger] all[y] by {
            assert(all[x] == before[x]);
            if y < before.len() {
                assert(all[y] == before[y]);
            } else {
                assert(before.contains(before[x]));
            }
        }
    }
}

/// Who has a protocol open are exactly those that opened it, in order.
pub proof fn law_openers_are_those_that_opened(s: Seq<Open>, handle: u64, guid: Guid)
    ensures
        openers(s, handle, guid) == s.filter(
            |o: Open| o.handle == handle && o.guid@ == guid@,
        ),
    decreases s.len(),
{
    reveal(Seq::filter);
    if s.len() > 0 {
        law_openers_are_those_that_opened(s.drop_last(), handle, guid);
    }
}

/// The handle that is located for a device path is one whose own path matches it, none of
/// the others matches more of it, and none before it as much.
pub proof fn law_longest_match_is_located(
    handles: Seq<u64>,
    paths: Seq<Option<Vec<u8>>>,
    path: Seq<u8>,
)
    ensures
        match longest(handles, paths, path) {
            Some((handle, length)) => {
                &&& exists|k: int|
                    0 <= k < handles.len() && #[trigger] handles[k] == handle && matched_by(
                        handle,
                        paths,
                        path,
                    ) == Some(length) && forall|j: int|
                        0 <= j < k ==> (matched_by(#[trigger] handles[j], paths, path) matches Some(
                            other,
                        ) ==> other < length)
                &&& forall|j: int|
                    0 <= j < handles.len() ==> (matched_by(
                        #[trigger] handles[j],
                        paths,
                        path,
                    ) matches Some(other) ==> other <= length)
            },
            None => forall|j: int|
                0 <= j < handles.len() ==> matched_by(#[trigger] handles[j], paths, path) is None,
        },
    decreases handles.len(),
{
    if handles.len() > 0 {
        let front = handles.drop_last();
        let n = handles.len() - 1;
        law_longest_match_is_located(front, paths, path);
        assert(forall|j: int| 0 <= j < n ==> front[j] == #[trigger] handles[j]);
        match longest(handles, paths, path) {
            Some((handle, length)) => {
                if longest(front, paths, path) == Some((handle, length)) {
                    let k = choose|k: int|
                        0 <= k < front.len() && #[trigger] front[k] == handle && matched_by(
                            handle,
                            paths,
                            path,
                        ) == Some(length) && forall|j: int|
                            0 <= j < k ==> (matched_by(
                                #[trigger] front[j],
                                paths,
                                path,
                            ) matches Some(other) ==> other < length);
                    assert(handles[k] == handle);
                } else {
                    assert(handles[n] == handle);
                    assert forall|j: int| 0 <= j < n implies (matched_by(
                        #[trigger] handles[j],
                        paths,
                        path,
                    ) matches Some(other) ==> other < length) by {
                        assert(front[j] == handles[j]);
                    }
                }
            },
            None => {},
        }
    }
}

impl Database {
    /// What a search finds: all handles, or those that carry the protocol, each once and in
    /// order; nothing for any other search.
    pub proof fn law_search_is_by_its_type(&self, search_type: u32, guid: Option<Guid>, h: u64)
        ensures
            search_type == ALL_HANDLES ==> (self.searched(search_type, guid).contains(h)
                <==> self.has(h)) && self.searched(search_type, guid).len() == self.count,
            search_type == BY_PROTOCOL && guid is Some ==> (self.searched(
                search_type,
                guid,
            ).contains(h) <==> self.has(h) && exists|i: int|
                0 <= i < self.protocols@.len() && (#[trigger] self.protocols@[i]).handle == h
                    && self.protocols@[i].guid@ == guid->0@),
            search_type != ALL_HANDLES && (search_type != BY_PROTOCOL || guid is None)
                ==> self.searched(search_type, guid).len() == 0,
    {
        if search_type == ALL_HANDLES {
            let all = all_handles(self.count);
            if self.has(h) {
                assert(all[h - 1] == h);
            }
        } else if search_type == BY_PROTOCOL && guid is Some {
            law_search_finds_every_handle(self.protocols@, self.count, guid->0);
        }
    }
}

} // verus!
