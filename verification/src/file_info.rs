//! The information a file gives of itself.
use crate::bytes::{
    fill, le_at, le_bytes, lemma_le_bytes_len, lemma_le_value_of_bytes, lemma_widths, push_fill, push_le, push_units, put, put_slice, unit_bytes,
};
use crate::status::{Guid, Status};
use vstd::prelude::*;

verus! {

/// What stands before the name in `EFI_FILE_INFO`.
pub const FILE_INFO_SIZE: usize = 80;

/// `EFI_FILE_SYSTEM_INFO` without a label.
pub const SYSTEM_INFO_SIZE: usize = 40;

/// `EFI_FILE_INFO`'s identifying GUID.
pub const FILE_INFO_GUID: Guid = [
    0x92, 0x6e, 0x57, 0x09, 0x3f, 0x6d, 0xd2, 0x11, 0x8e, 0x39, 0x00, 0xa0, 0xc9, 0x69, 0x72, 0x3b,
];

/// `EFI_FILE_SYSTEM_INFO`'s identifying GUID.
pub const FILE_SYSTEM_INFO_GUID: Guid = [
    0x93, 0x6e, 0x57, 0x09, 0x3f, 0x6d, 0xd2, 0x11, 0x8e, 0x39, 0x00, 0xa0, 0xc9, 0x69, 0x72, 0x3b,
];

/// `EFI_FILE_SYSTEM_VOLUME_LABEL`'s identifying GUID.
pub const FILE_SYSTEM_VOLUME_LABEL_GUID: Guid = [
    0xd3, 0xd7, 0x47, 0xdb, 0x81, 0xfe, 0xd3, 0x11, 0x9a, 0x35, 0x00, 0x90, 0x27, 0x3f, 0xc1, 0x4d,
];

/// The time zone of a time that has none.
pub const UNSPECIFIED_TIMEZONE: u64 = 0x07ff;

/// The file can only be read.
pub const READ_ONLY: u64 = 1;

/// The file is a directory.
pub const DIRECTORY: u64 = 0x10;

/// The time of an entry that carries no timestamps: the specification's own
/// "unknown" value.
pub open spec fn no_time() -> Seq<u8> {
    fill(12, 0) + le_bytes(UNSPECIFIED_TIMEZONE as nat, 2) + fill(2, 0)
}

/// `EFI_FILE_INFO` of a file: its sizes, no times, its attribute, and its name with
/// a terminator.
pub open spec fn file_info(name: Seq<u16>, size: u64, attribute: u64) -> Seq<u8> {
    le_bytes((FILE_INFO_SIZE + (name.len() + 1) * 2) as nat, 8) + le_bytes(size as nat, 8)
        + le_bytes(size as nat, 8) + no_time() + no_time() + no_time() + le_bytes(
        attribute as nat,
        8,
    ) + unit_bytes(name) + fill(2, 0)
}

/// What a question for information is answered: the status, the size that is
/// written back, and the buffer.
#[verifier::ext_equal]
pub struct Answer {
    pub status: Status,
    pub size: usize,
    pub buffer: Seq<u8>,
}

/// The answer of an item of a size: the size is always written back; the item is,
/// where there is room for it and a buffer.
pub open spec fn answer(
    needed: int,
    size: usize,
    buffer: Seq<u8>,
    given: bool,
    written: Seq<u8>,
) -> Answer {
    Answer {
        status: if size < needed {
            Status::BufferTooSmall
        } else if !given {
            Status::InvalidParameter
        } else {
            Status::Success
        },
        size: if needed > usize::MAX {
            usize::MAX
        } else {
            needed as usize
        },
        buffer: if size < needed || !given {
            buffer
        } else {
            written
        },
    }
}

fn push_no_time(out: &mut Vec<u8>)
    ensures
        final(out)@ == old(out)@ + no_time(),
{
    push_fill(out, 12, 0);
    push_le(out, UNSPECIFIED_TIMEZONE, 2);
    push_fill(out, 2, 0);
    assert(out@ =~= old(out)@ + no_time());
}

pub proof fn lemma_info_len(name: Seq<u16>, size: u64, attribute: u64)
    ensures
        file_info(name, size, attribute).len() == FILE_INFO_SIZE + (name.len() + 1) * 2,
{
    lemma_le_bytes_len((FILE_INFO_SIZE + (name.len() + 1) * 2) as nat, 8);
    lemma_le_bytes_len(size as nat, 8);
    lemma_le_bytes_len(UNSPECIFIED_TIMEZONE as nat, 2);
    lemma_le_bytes_len(attribute as nat, 8);
}

/// `EFI_FILE_INFO` of a file.
pub fn write_file_info(name: &Vec<u16>, size: u64, attribute: u64) -> (info: Vec<u8>)
    requires
        FILE_INFO_SIZE + (name@.len() + 1) * 2 <= usize::MAX,
    ensures
        info@ == file_info(name@, size, attribute),
        info@.len() == FILE_INFO_SIZE + (name@.len() + 1) * 2,
{
    let mut info: Vec<u8> = Vec::new();
    push_le(&mut info, FILE_INFO_SIZE as u64 + (name.len() as u64 + 1) * 2, 8);
    assert(info@ =~= le_bytes((FILE_INFO_SIZE + (name@.len() + 1) * 2) as nat, 8));
    push_le(&mut info, size, 8);
    push_le(&mut info, size, 8);
    push_no_time(&mut info);
    push_no_time(&mut info);
    push_no_time(&mut info);
    push_le(&mut info, attribute, 8);
    push_units(&mut info, name);
    push_fill(&mut info, 2, 0);
    proof {
        lemma_info_len(name@, size, attribute);
    }
    info
}

/// Answers with an item.
pub fn answer_with(
    item: &[u8],
    size: &mut usize,
    buffer: &mut Vec<u8>,
    given: bool,
) -> (status: Status)
    requires
        given ==> *old(size) <= old(buffer)@.len(),
    ensures
        answer(
            item@.len() as int,
            *old(size),
            old(buffer)@,
            given,
            put(old(buffer)@, 0, item@),
        ) == (Answer { status, size: *final(size), buffer: final(buffer)@ }),
        final(buffer)@.len() == old(buffer)@.len(),
{
    let needed: usize = item.len();
    let capacity: usize = *size;
    *size = needed;
    if capacity < needed {
        return Status::BufferTooSmall;
    }
    if !given {
        return Status::InvalidParameter;
    }
    put_slice(buffer, 0, item);
    Status::Success
}

/// Answers with a file's information.
pub fn answer_with_file(
    name: &Vec<u16>,
    file_size: u64,
    attribute: u64,
    size: &mut usize,
    buffer: &mut Vec<u8>,
    given: bool,
) -> (status: Status)
    requires
        given ==> *old(size) <= old(buffer)@.len(),
    ensures
        answer(
            FILE_INFO_SIZE + (name@.len() + 1) * 2,
            *old(size),
            old(buffer)@,
            given,
            put(old(buffer)@, 0, file_info(name@, file_size, attribute)),
        ) == (Answer { status, size: *final(size), buffer: final(buffer)@ }),
        final(buffer)@.len() == old(buffer)@.len(),
{
    let needed: u128 = FILE_INFO_SIZE as u128 + (name.len() as u128 + 1) * 2;
    if needed > usize::MAX as u128 {
        *size = usize::MAX;
        return Status::BufferTooSmall;
    }
    let info: Vec<u8> = write_file_info(name, file_size, attribute);
    answer_with(&info, size, buffer, given)
}

/// The information of a file says how long it is, how large the file is, what it is, and its
/// name with a terminator, each where the specification has it.
pub proof fn law_file_info_is_laid_out(name: Seq<u16>, size: u64, attribute: u64)
    requires
        82 + 2 * name.len() <= u64::MAX,
    ensures
        ({
            let info = file_info(name, size, attribute);
            &&& info.len() == 82 + 2 * name.len()
            &&& le_at(info, 0, 8) == info.len()
            &&& le_at(info, 8, 8) == size
            &&& le_at(info, 16, 8) == size
            &&& le_at(info, 72, 8) == attribute
            &&& forall|i: int|
                0 <= i < name.len() ==> info[80 + 2 * i] == (#[trigger] name[i]) % 256 && info[81 + 2
                    * i] == name[i] / 256
            &&& info[80 + 2 * name.len() as int] == 0 && info[81 + 2 * name.len() as int] == 0
        }),
{
    let info = file_info(name, size, attribute);
    let whole = (FILE_INFO_SIZE + (name.len() + 1) * 2) as nat;
    lemma_widths();
    lemma_le_value_of_bytes(whole, 8);
    lemma_le_value_of_bytes(size as nat, 8);
    lemma_le_value_of_bytes(attribute as nat, 8);
    lemma_le_bytes_len(UNSPECIFIED_TIMEZONE as nat, 2);
    assert(info.subrange(0, 8) =~= le_bytes(whole, 8));
    assert(info.subrange(8, 16) =~= le_bytes(size as nat, 8));
    assert(info.subrange(16, 24) =~= le_bytes(size as nat, 8));
    assert(info.subrange(72, 80) =~= le_bytes(attribute as nat, 8));
    assert forall|i: int| 0 <= i < name.len() implies info[80 + 2 * i] == (#[trigger] name[i]) % 256
        && info[81 + 2 * i] == name[i] / 256 by {
        assert(info[80 + 2 * i] == unit_bytes(name)[2 * i]);
        assert(info[81 + 2 * i] == unit_bytes(name)[2 * i + 1]);
    }
}

} // verus!
