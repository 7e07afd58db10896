//! Runtime services: time, variables, reset.
//!
//! Time comes from the machine's PL031 real-time clock, converted from the
//! seconds-since-epoch count it keeps into the calendar fields the specification
//! uses. Reset and shutdown are PSCI calls, because that is the only way this
//! machine has to power off.
//!
//! `SetVirtualAddressMap` is the one service with a real decision in it: this
//! firmware does not relocate itself. If the map an operating system presents is
//! the identity map - virtual equals physical - the request is satisfied by doing
//! nothing. If it is anything else, the firmware says it is unsupported rather than
//! accepting a map it will not honour.
use crate::bytes::{get_u64, le_at};
use crate::firmware::arch::psci::{system_off, system_reset, Call, SYSTEM_OFF, SYSTEM_RESET};
use crate::firmware::platform::RTC_BASE;
use crate::firmware::uefi::calendar::{
    civil_from_epoch, epoch_from_civil, epoch_seconds, is_civil, law_seconds_name_one_time,
    lemma_not_before_epoch, Civil,
};
use crate::firmware::uefi::vars::{
    attributes_are_valid, holds, index_of, next_index, room_for, stored, used, NextName,
    Store, Variable, MAX_VARIABLE_SIZE, STORE_SIZE,
};
use crate::status::{Guid, Status};
use crate::utf16::{terminator, until_terminator};
use vstd::prelude::*;

verus! {

/// The PL031's data register.
pub const RTC_DR: u64 = 0x00;

/// The PL031's rate register.
pub const RTC_CDR: u64 = 0x04;

/// The time zone of a time that does not say.
pub const UNSPECIFIED_TIMEZONE: i16 = 0x07ff;

/// `EfiResetShutdown`.
pub const RESET_SHUTDOWN: u32 = 2;

/// The longest name a service reads, in units.
pub const MAX_NAME: usize = 4096;

/// Where the physical address is in a memory descriptor.
pub const PHYSICAL_AT: usize = 8;

/// Where the virtual address is in a memory descriptor.
pub const VIRTUAL_AT: usize = 16;

/// A time, as the services pass it.
#[derive(Clone, Copy, PartialEq, Eq, Structural, Debug)]
pub struct Time {
    pub year: u16,
    pub month: u8,
    pub day: u8,
    pub hour: u8,
    pub minute: u8,
    pub second: u8,
    pub nanosecond: u32,
    pub timezone: i16,
    pub daylight: u8,
}

/// What the clock can do.
#[derive(Clone, Copy, PartialEq, Eq, Structural, Debug)]
pub struct TimeCapabilities {
    pub resolution: u32,
    pub accuracy: u32,
    pub sets_to_zero: bool,
}

impl Time {
    /// The calendar fields of a time.
    pub open spec fn civil(self) -> Civil {
        Civil {
            year: self.year as i64,
            month: self.month as u32,
            day: self.day as u32,
            hour: self.hour as u32,
            minute: self.minute as u32,
            second: self.second as u32,
        }
    }
}

/// `GetTime`: `rtc` is the clock's count of seconds, or `None` when the machine has
/// no clock.
pub fn get_time(out: bool, capabilities: bool, rtc: Option<u32>) -> (answer: Result<
    (Time, Option<TimeCapabilities>),
    Status,
>)
    ensures
        match answer {
            Ok((time, able)) => {
                &&& out
                &&& is_civil(time.civil())
                &&& epoch_seconds(time.civil()) == (match rtc {
                    Some(seconds) => seconds as int,
                    None => 0,
                })
                &&& time.nanosecond == 0 && time.timezone == UNSPECIFIED_TIMEZONE && time.daylight
                    == 0
                &&& able == (if capabilities {
                    Some(
                        TimeCapabilities {
                            resolution: 1,
                            accuracy: 50_000_000,
                            sets_to_zero: false,
                        },
                    )
                } else {
                    None
                })
            },
            Err(status) => !out && status == Status::InvalidParameter,
        },
{
    if !out {
        return Err(Status::InvalidParameter);
    }
    let seconds: u32 = match rtc {
        Some(seconds) => seconds,
        None => 0,
    };
    let civil: Civil = civil_from_epoch(seconds as u64);
    let time: Time = Time {
        year: civil.year as u16,
        month: civil.month as u8,
        day: civil.day as u8,
        hour: civil.hour as u8,
        minute: civil.minute as u8,
        second: civil.second as u8,
        nanosecond: 0,
        timezone: UNSPECIFIED_TIMEZONE,
        daylight: 0,
    };
    let able: Option<TimeCapabilities> = if capabilities {
        // One second, the clock's own granularity; fifty parts per million, a
        // crystal's spec.
        Some(TimeCapabilities { resolution: 1, accuracy: 50_000_000, sets_to_zero: false })
    } else {
        None
    };
    assert(time.civil() == civil);
    Ok((time, able))
}

/// A register that is to be written, and with what.
#[derive(Clone, Copy, PartialEq, Eq, Structural, Debug)]
pub struct RtcWrite {
    pub address: u64,
    pub value: u32,
}

/// Whether a time is one that the clock can be set to.
pub open spec fn settable(time: Time) -> bool {
    1 <= time.month <= 12 && 1 <= time.day <= 31 && time.year >= 1970
}

/// `SetTime`: the writes that set the clock. The count starts in 1970, so a year
/// before that is not one the clock can be set to; it has 32 bits, so a time past its
/// end wraps.
pub fn set_time(time: Option<Time>) -> (writes: Result<(RtcWrite, RtcWrite), Status>)
    ensures
        writes == (if time is Some && settable(time->0) {
            Ok::<(RtcWrite, RtcWrite), Status>(
                (
                    RtcWrite {
                        address: RTC_BASE,
                        value: (epoch_seconds(time->0.civil()) % 0x1_0000_0000) as u32,
                    },
                    RtcWrite { address: (RTC_BASE + RTC_CDR) as u64, value: 0 },
                ),
            )
        } else {
            Err::<(RtcWrite, RtcWrite), Status>(Status::InvalidParameter)
        }),
{
    let time: Time = match time {
        Some(time) => time,
        None => {
            return Err(Status::InvalidParameter);
        },
    };
    if time.month < 1 || time.month > 12 || time.day < 1 || time.day > 31 || time.year < 1970 {
        return Err(Status::InvalidParameter);
    }
    let civil: Civil = Civil {
        year: time.year as i64,
        month: time.month as u32,
        day: time.day as u32,
        hour: time.hour as u32,
        minute: time.minute as u32,
        second: time.second as u32,
    };
    assert(civil == time.civil());
    proof {
        lemma_not_before_epoch(civil.year as int, civil.month as int, civil.day as int);
    }
    let seconds: u64 = epoch_from_civil(civil);
    // The rate is one: the counter ticks in seconds, which is what is read.
    Ok(
        (
            RtcWrite { address: RTC_BASE + RTC_DR, value: (seconds % 0x1_0000_0000) as u32 },
            RtcWrite { address: RTC_BASE + RTC_CDR, value: 0 },
        ),
    )
}

/// The time that is read right after one was set is the one that was set.
pub proof fn law_time_set_is_read(set: Time, read: Time)
    requires
        settable(set),
        is_civil(set.civil()),
        epoch_seconds(set.civil()) < 0x1_0000_0000,
        is_civil(read.civil()),
        epoch_seconds(read.civil()) == (epoch_seconds(set.civil()) % 0x1_0000_0000) as u32,
    ensures
        read.civil() == set.civil(),
{
    lemma_not_before_epoch(
        set.civil().year as int,
        set.civil().month as int,
        set.civil().day as int,
    );
    law_seconds_name_one_time(read.civil(), set.civil());
}

/// Whether a map of so many descriptors leaves every address where it is.
pub open spec fn is_identity(map: Seq<u8>, descriptor_size: nat, count: nat) -> bool {
    forall|i: int|
        0 <= i < count ==> le_at(map, i * descriptor_size + PHYSICAL_AT, 8) == #[trigger] le_at(
            map,
            i * descriptor_size + VIRTUAL_AT,
            8,
        )
}

/// `SetVirtualAddressMap`: accept an identity map, refuse any other.
///
/// The firmware's tables and code are linked where they run and are never relocated,
/// so the only map it can honour is one that leaves every runtime address where it
/// is. Anything else would silently break every pointer in the system table.
pub fn set_virtual_address_map(map: Option<&[u8]>, descriptor_size: usize) -> (status: Status)
    ensures
        status == (if map is None {
            Status::InvalidParameter
        } else if descriptor_size >= 24 && is_identity(
            map->0@,
            descriptor_size as nat,
            map->0@.len() / (descriptor_size as nat),
        ) {
            Status::Success
        } else {
            Status::Unsupported
        }),
{
    let bytes: &[u8] = match map {
        Some(bytes) => bytes,
        None => {
            return Status::InvalidParameter;
        },
    };
    if descriptor_size < 24 {
        return Status::Unsupported;
    }
    let count: usize = bytes.len() / descriptor_size;
    proof {
        assert(count * descriptor_size <= bytes@.len()) by (nonlinear_arith)
            requires
                count == bytes@.len() / (descriptor_size as nat),
                descriptor_size > 0,
        ;
    }
    let mut next: usize = 0;
    let mut at: usize = 0;
    while next < count
        invariant
            next <= count,
            at == next * descriptor_size,
            count * descriptor_size <= bytes@.len(),
            bytes@.len() <= usize::MAX,
            descriptor_size >= 24,
            map is Some,
            bytes@ == map->0@,
            count == bytes@.len() / (descriptor_size as nat),
            forall|i: int|
                0 <= i < next ==> le_at(bytes@, i * descriptor_size + PHYSICAL_AT, 8)
                    == #[trigger] le_at(bytes@, i * descriptor_size + VIRTUAL_AT, 8),
        decreases count - next,
    {
        proof {
            assert((next + 1) * descriptor_size <= count * descriptor_size) by (nonlinear_arith)
                requires
                    next + 1 <= count,
            ;
            assert((next + 1) * descriptor_size == next * descriptor_size + descriptor_size)
                by (nonlinear_arith);
        }
        let _size: usize = bytes.len();
        if get_u64(bytes, at + PHYSICAL_AT) != get_u64(bytes, at + VIRTUAL_AT) {
            assert(le_at(bytes@, next * descriptor_size + PHYSICAL_AT, 8) != le_at(
                bytes@,
                next * descriptor_size + VIRTUAL_AT,
                8,
            ));
            return Status::Unsupported;
        }
        at = at + descriptor_size;
        next = next + 1;
    }
    Status::Success
}

/// `ConvertPointer`: nothing to convert, because nothing moves. Refusing is the
/// honest answer.
pub fn convert_pointer() -> (status: Status)
    ensures
        status == Status::Unsupported,
{
    Status::Unsupported
}

/// What `GetVariable` answers: the attributes and the size where they are known, and
/// the value where it fits.
pub struct VariableAnswer {
    pub status: Status,
    pub attributes: Option<u32>,
    pub size: Option<usize>,
    pub data: Option<Vec<u8>>,
}

/// Whether a service was given a name it can read: terminated within the bound.
pub open spec fn readable(name: Option<&[u16]>) -> bool {
    name is Some && terminator(name->0@) < MAX_NAME && terminator(name->0@) < name->0@.len()
}

/// The name a service was given.
pub open spec fn name_of(name: Option<&[u16]>) -> Seq<u16> {
    name->0@.subrange(0, terminator(name->0@))
}

/// `GetVariable`: `capacity` is the size of the caller's buffer, if the caller said,
/// and `data` whether there is one.
pub fn get_variable(
    store: &Store,
    name: Option<&[u16]>,
    guid: Option<Guid>,
    capacity: Option<usize>,
    data: bool,
) -> (answer: VariableAnswer)
    requires
        store.wf(),
    ensures
        ({
            let v = store@[index_of(store@, name_of(name), guid->0@)];
            if !readable(name) || guid is None || capacity is None {
                &&& answer.status == Status::InvalidParameter
                &&& answer.attributes is None && answer.size is None && answer.data is None
            } else if !holds(store@, name_of(name), guid->0@) {
                &&& answer.status == Status::NotFound
                &&& answer.attributes is None && answer.size is None && answer.data is None
            } else {
                &&& answer.attributes == Some(v.attributes)
                &&& answer.size == Some(v.data.len() as usize)
                &&& if !data || capacity->0 < v.data.len() {
                    answer.status == Status::BufferTooSmall && answer.data is None
                } else {
                    answer.status == Status::Success && answer.data is Some && answer.data->0@
                        == v.data
                }
            }
        }),
{
    let invalid: VariableAnswer = VariableAnswer {
        status: Status::InvalidParameter,
        attributes: None,
        size: None,
        data: None,
    };
    let (units, guid, room): (&[u16], Guid, usize) = match (name, guid, capacity) {
        (Some(units), Some(guid), Some(room)) => (units, guid, room),
        _ => {
            return invalid;
        },
    };
    let text: Vec<u16> = match until_terminator(units, MAX_NAME) {
        Some(text) => text,
        None => {
            return invalid;
        },
    };
    match store.get(text.as_slice(), &guid) {
        Some((attributes, value)) => {
            let size: usize = value.len();
            if !data || room < size {
                return VariableAnswer {
                    status: Status::BufferTooSmall,
                    attributes: Some(attributes),
                    size: Some(size),
                    data: None,
                };
            }
            VariableAnswer {
                status: Status::Success,
                attributes: Some(attributes),
                size: Some(size),
                data: Some(value),
            }
        },
        None => VariableAnswer {
            status: Status::NotFound,
            attributes: None,
            size: None,
            data: None,
        },
    }
}

/// `SetVariable`: a variable whose attributes the store does not take is refused,
/// unless it is being deleted.
pub fn set_variable(
    store: &mut Store,
    name: Option<&[u16]>,
    guid: Option<Guid>,
    attributes: u32,
    data: &[u8],
) -> (status: Status)
    requires
        old(store).wf(),
    ensures
        final(store).wf(),
        ({
            let n = name_of(name);
            let g = guid->0@;
            let v = Variable { name: n, guid: g, attributes, data: data@ };
            let s = old(store)@;
            if !readable(name) || guid is None || (!(1 <= attributes <= 7) && data@.len() != 0)
                || n.len() == 0 {
                status == Status::InvalidParameter && final(store)@ == s
            } else if 2 * n.len() + data@.len() > MAX_VARIABLE_SIZE {
                status == Status::OutOfResources && final(store)@ == s
            } else if data@.len() == 0 {
                if holds(s, n, g) {
                    status == Status::Success && final(store)@ == s.remove(index_of(s, n, g))
                } else {
                    status == Status::NotFound && final(store)@ == s
                }
            } else if room_for(s, v) {
                status == Status::Success && final(store)@ == stored(s, v)
            } else {
                status == Status::OutOfResources && final(store)@ == s
            }
        }),
{
    let (units, guid): (&[u16], Guid) = match (name, guid) {
        (Some(units), Some(guid)) => (units, guid),
        _ => {
            return Status::InvalidParameter;
        },
    };
    let text: Vec<u16> = match until_terminator(units, MAX_NAME) {
        Some(text) => text,
        None => {
            return Status::InvalidParameter;
        },
    };
    proof {
        assert(1u32 | 2u32 | 4u32 == 7u32) by (bit_vector);
    }
    if !attributes_are_valid(attributes) && data.len() != 0 {
        return Status::InvalidParameter;
    }
    store.set(text.as_slice(), &guid, attributes, data)
}

/// `GetNextVariableName`.
pub fn get_next_variable_name(
    store: &Store,
    size: Option<usize>,
    name: Option<&[u16]>,
    guid: Option<Guid>,
) -> (answer: NextName)
    requires
        store.wf(),
    ensures
        ({
            let end = terminator(name->0@);
            let next = next_index(store@, name->0@.subrange(0, end), guid->0@);
            if size is None || name is None || guid is None || end >= name->0@.len() || end
                > MAX_VARIABLE_SIZE {
                answer is InvalidParameter
            } else if next >= store@.len() {
                answer is NotFound
            } else {
                let needed = 2 * (store@[next].name.len() + 1);
                match answer {
                    NextName::BufferTooSmall(bytes) => size->0 < needed && bytes == needed,
                    NextName::Found(found, found_guid, bytes) => size->0 >= needed && bytes
                        == needed && found@ == store@[next].name && found_guid@
                        == store@[next].guid,
                    _ => false,
                }
            }
        }),
{
    match (size, name, guid) {
        (Some(size), Some(name), Some(guid)) => store.next_name(size, name, &guid),
        _ => NextName::InvalidParameter,
    }
}

/// `QueryVariableInfo`: what the store holds, what is left of it, and the largest
/// variable it takes.
pub fn query_variable_info(store: &Store, out: bool) -> (info: Result<(u64, u64, u64), Status>)
    requires
        store.wf(),
    ensures
        match info {
            Ok(info) => out && info.0 == STORE_SIZE && info.1 == STORE_SIZE - used(store@) && info.2
                == MAX_VARIABLE_SIZE,
            Err(status) => !out && status == Status::InvalidParameter,
        },
{
    if !out {
        return Err(Status::InvalidParameter);
    }
    Ok(store.query_info())
}

/// `ResetSystem`: shutdown powers the machine off; everything else resets it.
pub fn reset_system(reset_type: u32) -> (call: Call)
    ensures
        call.function == (if reset_type == RESET_SHUTDOWN {
            SYSTEM_OFF
        } else {
            SYSTEM_RESET
        }),
        call.first == 0 && call.second == 0 && call.third == 0,
{
    if reset_type == RESET_SHUTDOWN {
        system_off()
    } else {
        system_reset()
    }
}

} // verus!
