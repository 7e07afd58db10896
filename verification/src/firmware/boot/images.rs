//! The images the firmware loaded.
//!
//! Images live in a small table: the firmware owns them, they outlive the
//! `StartImage` call, and nothing frees them - an image that returns is a boot that
//! failed, and the next candidate is tried.
use crate::firmware::loader::pe::{Loaded, PeError};
use crate::firmware::uefi::device_path::{end_node, file_path, write_file_path, END_NODE};
use crate::firmware::uefi::handles::{carries, on, Database, Installed, MAX_HANDLES};
use crate::firmware::uefi::services::{DEVICE_PATH_PROTOCOL_GUID, LOADED_IMAGE_PROTOCOL_GUID};
use crate::seqs::{first, lemma_first};
use crate::status::Status;
use crate::utf16::{encode, units_of};
use vstd::prelude::*;

verus! {

/// How many images the firmware can have in flight: the boot manager's own, plus
/// whatever an application loads.
pub const MAX_IMAGES: usize = 4;

/// `EFI_LOADED_IMAGE_PROTOCOL`'s revision.
pub const REVISION: u32 = 0x1000;

pub const LOADER_CODE: u32 = 1;

pub const LOADER_DATA: u32 = 2;

/// `EFI_LOADED_IMAGE_PROTOCOL`, with what its pointers lead to.
pub struct LoadedImage {
    pub revision: u32,
    pub parent_handle: u64,
    pub system_table: u64,
    pub device_handle: u64,
    /// Where the file path is, and the path itself.
    pub file_path: u64,
    pub path: Vec<u8>,
    /// Where the load options are, and the options themselves.
    pub load_options: u64,
    pub options: Vec<u8>,
    pub image_base: u64,
    pub image_size: u64,
    pub image_code_type: u32,
    pub image_data_type: u32,
}

/// One loaded image.
pub struct Image {
    pub handle: u64,
    pub entry: u64,
    /// Where the protocol is.
    pub protocol: u64,
    pub loaded: LoadedImage,
}

/// What the firmware hands every image.
#[derive(Clone, Copy, PartialEq, Eq, Structural, Debug)]
pub struct Firmware {
    pub image_handle: u64,
    pub system_table: u64,
}

/// Where the structures of an image go.
#[derive(Clone, Copy, PartialEq, Eq, Structural, Debug)]
pub struct Places {
    pub protocol: u64,
    pub device_path: u64,
}

/// Where the image of a handle is in the table, or how many there are.
pub open spec fn image_at(s: Seq<Image>, handle: u64) -> int {
    first(s, |i: Image| i.handle == handle)
}

/// Whether an image is one that was registered for what the loader made, with its
/// file path at `file_path`, its file on `device`, and its options at `load_options`.
pub open spec fn registers(
    image: Image,
    firmware: Firmware,
    handle: u64,
    loaded: Loaded,
    protocol: u64,
    device: u64,
    file_path: u64,
    path: Seq<u8>,
    load_options: u64,
    options: Seq<u8>,
) -> bool {
    &&& image.handle == handle
    &&& image.entry == loaded.entry
    &&& image.protocol == protocol
    &&& image.loaded.revision == REVISION
    &&& image.loaded.parent_handle == firmware.image_handle
    &&& image.loaded.system_table == firmware.system_table
    &&& image.loaded.device_handle == device
    &&& image.loaded.file_path == file_path
    &&& image.loaded.path@ == path
    &&& image.loaded.load_options == load_options
    &&& image.loaded.options@ == options
    &&& image.loaded.image_base == loaded.base
    &&& image.loaded.image_size == loaded.size
    &&& image.loaded.image_code_type == LOADER_CODE
    &&& image.loaded.image_data_type == LOADER_DATA
}

/// A loaded image as it is registered first: its path a bare terminator, which is a
/// valid file path of its own, and no options.
fn remember(firmware: Firmware, handle: u64, loaded: Loaded, places: Places) -> (image: Image)
    ensures
        registers(
            image,
            firmware,
            handle,
            loaded,
            places.protocol,
            0,
            places.device_path,
            END_NODE@,
            0,
            Seq::<u8>::empty(),
        ),
{
    Image {
        handle,
        entry: loaded.entry,
        protocol: places.protocol,
        loaded: LoadedImage {
            revision: REVISION,
            parent_handle: firmware.image_handle,
            system_table: firmware.system_table,
            device_handle: 0,
            file_path: places.device_path,
            path: end_node(),
            load_options: 0,
            options: Vec::new(),
            image_base: loaded.base,
            image_size: loaded.size,
            image_code_type: LOADER_CODE,
            image_data_type: LOADER_DATA,
        },
    }
}

/// How many bytes the file path of a name takes, and how many are asked for.
pub fn file_path_bytes(path: &str) -> (bytes: Option<u64>)
    ensures
        match bytes {
            Some(bytes) => bytes == (if 8 + 2 * units_of(path@).len() < 4096 {
                4096
            } else {
                8 + 2 * units_of(path@).len()
            }),
            None => 8 + 2 * units_of(path@).len() > u64::MAX,
        },
{
    let units: Vec<u16> = encode(path);
    let needed: u128 = units.len() as u128 * 2 + 8;
    if needed > u64::MAX as u128 {
        None
    } else if needed < 4096 {
        Some(4096)
    } else {
        Some(needed as u64)
    }
}

/// Points an image at its file, and at the volume it came from. `storage` is where the
/// path goes.
pub fn set_file(image: &mut LoadedImage, path: &str, device: u64, storage: u64)
    requires
        8 + 2 * units_of(path@).len() <= usize::MAX,
    ensures
        final(image).path@ == file_path(units_of(path@)),
        final(image).file_path == storage,
        final(image).device_handle == device,
        *final(image) == (LoadedImage {
            path: final(image).path,
            file_path: storage,
            device_handle: device,
            ..*old(image)
        }),
{
    let units: Vec<u16> = encode(path);
    let bytes: usize = 4 + units.len() * 2 + 4;
    match write_file_path(units.as_slice(), bytes) {
        Ok(written) => {
            image.path = written;
        },
        Err(_) => {},
    }
    image.file_path = storage;
    image.device_handle = device;
}

/// Gives an image its load options: the command line an operating system's EFI stub,
/// or an application, reads. Where there are none, nothing changes.
pub fn set_load_options(image: &mut LoadedImage, options: Vec<u8>, storage: u64)
    ensures
        final(image).options@ == (if options@.len() == 0 {
            old(image).options@
        } else {
            options@
        }),
        final(image).load_options == (if options@.len() == 0 {
            old(image).load_options
        } else {
            storage
        }),
        *final(image) == (LoadedImage {
            options: final(image).options,
            load_options: final(image).load_options,
            ..*old(image)
        }),
{
    if options.len() == 0 {
        return;
    }
    image.options = options;
    image.load_options = storage;
}

/// The images that were loaded.
pub struct Images {
    pub images: Vec<Image>,
}

impl Images {
    /// No more images are there than may be.
    pub open spec fn wf(&self) -> bool {
        self.images@.len() <= MAX_IMAGES
    }

    /// Prepares the image table.
    pub fn init() -> (images: Images)
        ensures
            images.wf(),
            images.images@ == Seq::<Image>::empty(),
    {
        Images { images: Vec::new() }
    }

    /// The image registered for `handle`, if there is one.
    fn image_for(&self, handle: u64) -> (k: Option<usize>)
        ensures
            match k {
                Some(k) => k == image_at(self.images@, handle) && k < self.images@.len(),
                None => image_at(self.images@, handle) >= self.images@.len(),
            },
    {
        let ghost hit = |i: Image| i.handle == handle;
        let mut k: usize = 0;
        while k < self.images.len()
            invariant
                k <= self.images@.len(),
                hit == (|i: Image| i.handle == handle),
                forall|i: int| 0 <= i < k ==> !hit(#[trigger] self.images@[i]),
            decreases self.images@.len() - k,
        {
            if self.images[k].handle == handle {
                proof {
                    lemma_first(self.images@, hit, k as int);
                }
                return Some(k);
            }
            k = k + 1;
        }
        proof {
            lemma_first(self.images@, hit, k as int);
        }
        None
    }

    /// What `LoadImage` refuses before it looks at the image: a call without a place
    /// for the handle, or without an image.
    pub fn refuses(image_handle: bool, source_buffer: bool, source_size: usize) -> (status: Option<
        Status,
    >)
        ensures
            status == (if !image_handle || !source_buffer || source_size == 0 {
                Some(Status::InvalidParameter)
            } else {
                None
            }),
    {
        if !image_handle || !source_buffer || source_size == 0 {
            return Some(Status::InvalidParameter);
        }
        None
    }

    /// `LoadImage`, once the loader has answered: the image's handle, which carries
    /// the loaded-image protocol and the file path.
    pub fn load_image(
        &mut self,
        database: &mut Database,
        firmware: Firmware,
        loaded: Result<Loaded, PeError>,
        places: Places,
    ) -> (handle: Result<u64, Status>)
        requires
            old(self).images@.len() < MAX_IMAGES,
            old(database).wf(),
            old(database).count < MAX_HANDLES,
        ensures
            final(self).wf(),
            final(database).wf(),
            final(database).opens@ == old(database).opens@,
            match handle {
                Ok(handle) => {
                    &&& loaded is Ok
                    &&& handle == old(database).count + 1
                    &&& final(database).count == handle
                    &&& final(database).protocols@ == old(database).protocols@.push(
                        Installed {
                            handle,
                            guid: LOADED_IMAGE_PROTOCOL_GUID,
                            interface: places.protocol,
                        },
                    ).push(
                        Installed {
                            handle,
                            guid: DEVICE_PATH_PROTOCOL_GUID,
                            interface: places.device_path,
                        },
                    )
                    &&& final(self).images@.len() == old(self).images@.len() + 1
                    &&& final(self).images@.drop_last() == old(self).images@
                    &&& registers(
                        final(self).images@.last(),
                        firmware,
                        handle,
                        loaded->Ok_0,
                        places.protocol,
                        0,
                        places.device_path,
                        END_NODE@,
                        0,
                        Seq::<u8>::empty(),
                    )
                },
                Err(status) => {
                    &&& loaded is Err
                    &&& status == Status::LoadError
                    &&& final(self).images@ == old(self).images@
                    &&& final(database).protocols@ == old(database).protocols@
                    &&& final(database).count == old(database).count
                },
            },
    {
        let loaded: Loaded = match loaded {
            Ok(loaded) => loaded,
            Err(_) => {
                return Err(Status::LoadError);
            },
        };
        let handle: u64 = publish(database, places.protocol, places.device_path);
        let image: Image = remember(firmware, handle, loaded, places);
        self.images.push(image);
        assert(self.images@.drop_last() =~= old(self).images@);
        Ok(handle)
    }

    /// Registers the image the boot manager is about to run: its file, the volume it
    /// came from, and its options. `file_path` and `load_options` are where the two
    /// go.
    pub fn run(
        &mut self,
        database: &mut Database,
        firmware: Firmware,
        loaded: Loaded,
        places: Places,
        path: &str,
        device: u64,
        file_path: u64,
        options: Vec<u8>,
        load_options: u64,
    ) -> (handle: u64)
        requires
            old(self).images@.len() < MAX_IMAGES,
            old(database).wf(),
            old(database).count < MAX_HANDLES,
            8 + 2 * units_of(path@).len() <= usize::MAX,
        ensures
            final(self).wf(),
            final(database).wf(),
            final(database).opens@ == old(database).opens@,
            handle == old(database).count + 1,
            final(database).count == handle,
            final(database).protocols@ == old(database).protocols@.push(
                Installed { handle, guid: LOADED_IMAGE_PROTOCOL_GUID, interface: places.protocol },
            ).push(
                Installed { handle, guid: DEVICE_PATH_PROTOCOL_GUID, interface: file_path },
            ),
            final(self).images@.len() == old(self).images@.len() + 1,
            final(self).images@.drop_last() == old(self).images@,
            registers(
                final(self).images@.last(),
                firmware,
                handle,
                loaded,
                places.protocol,
                device,
                file_path,
                crate::firmware::uefi::device_path::file_path(units_of(path@)),
                if options@.len() == 0 {
                    0
                } else {
                    load_options
                },
                options@,
            ),
    {
        let handle: u64 = publish(database, places.protocol, file_path);
        let mut image: Image = remember(firmware, handle, loaded, places);
        let mut protocol: LoadedImage = image.loaded;
        set_file(&mut protocol, path, device, file_path);
        set_load_options(&mut protocol, options, load_options);
        image.loaded = protocol;
        assert(image.loaded.options@ =~= options@);
        self.images.push(image);
        assert(self.images@.drop_last() =~= old(self).images@);
        handle
    }

    /// `StartImage`: where the image is entered.
    pub fn start_image(&self, handle: u64) -> (entry: Result<u64, Status>)
        ensures
            entry == (if image_at(self.images@, handle) < self.images@.len() {
                Ok::<u64, Status>(self.images@[image_at(self.images@, handle)].entry)
            } else {
                Err::<u64, Status>(Status::InvalidParameter)
            }),
    {
        match self.image_for(handle) {
            Some(k) => Ok(self.images[k].entry),
            None => Err(Status::InvalidParameter),
        }
    }

    /// `UnloadImage`: images are not reclaimed. An image that loaded another and wants
    /// the memory back would have to leave the firmware's tables pointing at it, so
    /// this firmware keeps them.
    pub fn unload_image(&self) -> (status: Status)
        ensures
            status == Status::Unsupported,
    {
        Status::Unsupported
    }
}

/// Puts the loaded-image protocol and a file path onto a fresh handle.
fn publish(database: &mut Database, protocol: u64, file_path: u64) -> (handle: u64)
    requires
        old(database).wf(),
        old(database).count < MAX_HANDLES,
    ensures
        final(database).wf(),
        final(database).opens@ == old(database).opens@,
        handle == old(database).count + 1,
        final(database).count == handle,
        final(database).protocols@ == old(database).protocols@.push(
            Installed { handle, guid: LOADED_IMAGE_PROTOCOL_GUID, interface: protocol },
        ).push(Installed { handle, guid: DEVICE_PATH_PROTOCOL_GUID, interface: file_path }),
{
    let ghost before = database.protocols@;
    let handle: u64 = database.install_new(&LOADED_IMAGE_PROTOCOL_GUID, protocol);
    proof {
        assert(LOADED_IMAGE_PROTOCOL_GUID@[0] != DEVICE_PATH_PROTOCOL_GUID@[0]);
        lemma_second_protocol(
            before,
            Installed { handle, guid: LOADED_IMAGE_PROTOCOL_GUID, interface: protocol },
            DEVICE_PATH_PROTOCOL_GUID,
        );
    }
    database.install_on(handle, &DEVICE_PATH_PROTOCOL_GUID, file_path);
    handle
}

/// A fresh handle with one protocol has room for another.
pub proof fn lemma_second_protocol(before: Seq<Installed>, added: Installed, guid: crate::status::Guid)
    requires
        forall|i: int| 0 <= i < before.len() ==> (#[trigger] before[i]).handle < added.handle,
        added.guid@ != guid@,
    ensures
        !carries(before.push(added), added.handle, guid),
        on(before.push(added), added.handle).len() == 1,
{
    crate::firmware::uefi::handles::lemma_nothing_on(before, added.handle, guid);
    let p = before.push(added);
    let hit = |i: Installed| crate::firmware::uefi::handles::is_on(i, added.handle, guid);
    crate::seqs::lemma_first_is(p, hit);
    assert(p.drop_last() =~= before);
    assert forall|i: int| 0 <= i < p.len() implies !hit(#[trigger] p[i]) by {
        if i < before.len() {
            assert(before[i].handle < added.handle);
        }
    }
    lemma_first(p, hit, p.len() as int);
}

/// An image that was loaded is the one that starts, and loading it does not change
/// where those before it start.
pub proof fn law_loaded_image_starts(s: Seq<Image>, image: Image, handle: u64)
    requires
        forall|i: int| 0 <= i < s.len() ==> (#[trigger] s[i]).handle != image.handle,
    ensures
        image_at(s.push(image), image.handle) == s.len(),
        image_at(s, handle) < s.len() ==> image_at(s.push(image), handle) == image_at(s, handle),
{
    let mine = |i: Image| i.handle == image.handle;
    let theirs = |i: Image| i.handle == handle;
    let t = s.push(image);
    assert forall|i: int| 0 <= i < s.len() implies !mine(#[trigger] t[i]) by {
        assert(s[i].handle != image.handle);
    }
    assert(mine(t[s.len() as int]));
    lemma_first(t, mine, s.len() as int);
    crate::seqs::lemma_first_is(s, theirs);
    let k = image_at(s, handle);
    if k < s.len() {
        assert(theirs(s[k]));
        assert forall|i: int| 0 <= i < k implies !theirs(#[trigger] t[i]) by {
            assert(!theirs(s[i]));
        }
        assert(theirs(t[k]));
        lemma_first(t, theirs, k);
    }
}

} // verus!
