//! Events, timers, and task priority levels.
//!
//! Timers are polled: an event's deadline is compared against the system counter
//! whenever something asks whether it is ready, which is what `WaitForEvent` does
//! in a loop anyway. Notifications run synchronously, at whatever priority the
//! signaler is at: the functions here say which one is to run.
use crate::bytes::same_bytes;
use crate::status::{Guid, Status};
use vstd::prelude::*;

verus! {

/// How many events may be created.
pub const MAX_EVENTS: u64 = 32;

pub const EVT_TIMER: u32 = 0x8000_0000;

pub const EVT_RUNTIME: u32 = 0x4000_0000;

pub const EVT_NOTIFY_WAIT: u32 = 0x0000_0100;

pub const EVT_NOTIFY_SIGNAL: u32 = 0x0000_0200;

pub const EVT_SIGNAL_EXIT_BOOT_SERVICES: u32 = 0x0000_0201;

pub const EVT_SIGNAL_VIRTUAL_ADDRESS_CHANGE: u32 = 0x6000_0202;

/// The group an event may register for that fires when boot services end.
pub const EVENT_GROUP_EXIT_BOOT_SERVICES: [u8; 16] = [
    0x55,
    0xf0,
    0xab,
    0x27,
    0xb8,
    0xb1,
    0x26,
    0x4c,
    0x80,
    0x48,
    0x74,
    0x8f,
    0x37,
    0xba,
    0xa2,
    0xdf,
];

pub const TPL_APPLICATION: usize = 4;

pub const TPL_CALLBACK: usize = 8;

pub const TPL_NOTIFY: usize = 16;

pub const TPL_HIGH_LEVEL: usize = 31;

pub const TIMER_CANCEL: u32 = 0;

pub const TIMER_PERIODIC: u32 = 1;

pub const TIMER_RELATIVE: u32 = 2;

/// The shortest time to a periodic timer's first deadline, in the timer's units.
pub const HUNDRED_NS: u64 = 100;

/// An event.
#[derive(Clone, Copy)]
pub struct EventEntry {
    pub used: bool,
    pub event_type: u32,
    /// The address of the notification function, if there is one.
    pub notify: Option<u64>,
    pub context: u64,
    pub group: Option<Guid>,
    pub signaled: bool,
    /// Whether a predicate decides readiness: for events the firmware polls rather
    /// than signals - console input, principally.
    pub polled: bool,
    pub timer_mode: u32,
    /// Deadline and period, in 100 ns units since the counter started.
    pub deadline: u64,
    pub period: u64,
}

/// A notification function that is to run.
#[derive(Clone, Copy, PartialEq, Eq, Structural, Debug)]
pub struct Notification {
    pub event: u64,
    pub function: u64,
    pub context: u64,
}

/// What one look at the events that are waited for comes to.
#[derive(Clone, Copy, PartialEq, Eq, Structural, Debug)]
pub enum Wait {
    /// The arguments are not acceptable.
    Refused,
    /// The event at this index is not one of ours.
    Unknown(usize),
    /// The event at this index is ready, and its notification is to run.
    Ready(usize, Option<Notification>),
    /// None is ready: look again.
    Spin,
}

/// A larger of two numbers.
pub open spec fn larger(a: int, b: int) -> int {
    if a > b {
        a
    } else {
        b
    }
}

/// A point in time; one past the end of the counter never comes.
pub open spec fn capped(t: int) -> u64 {
    if t > u64::MAX {
        u64::MAX
    } else {
        t as u64
    }
}

/// Whether a type is that of a timer.
pub open spec fn is_timer(event_type: u32) -> bool {
    event_type >= EVT_TIMER
}

/// Whether a type has the bit of an event whose notification runs on a wait.
pub open spec fn notifies_on_wait(event_type: u32) -> bool {
    (event_type / EVT_NOTIFY_WAIT) % 2 == 1
}

/// Whether an event is ready: signaled, or its predicate says so, or its deadline
/// has passed.
pub open spec fn ready_at(e: EventEntry, now: u64, predicate: bool) -> bool {
    e.signaled || (e.polled && predicate) || (is_timer(e.event_type) && e.timer_mode
        != TIMER_CANCEL && now >= e.deadline)
}

/// An event whose signaled state was consumed.
pub open spec fn consumed(e: EventEntry) -> EventEntry {
    if is_timer(e.event_type) && e.timer_mode == TIMER_PERIODIC {
        EventEntry { signaled: false, deadline: capped(e.deadline + e.period), ..e }
    } else if is_timer(e.event_type) && e.timer_mode == TIMER_RELATIVE {
        EventEntry { signaled: false, timer_mode: TIMER_CANCEL, ..e }
    } else {
        EventEntry { signaled: false, ..e }
    }
}

/// The notification of an event.
pub open spec fn notification(e: EventEntry, event: u64) -> Option<Notification> {
    match e.notify {
        Some(function) => Some(Notification { event, function, context: e.context }),
        None => None,
    }
}

/// An event as it is created.
pub open spec fn fresh(
    event_type: u32,
    notify: Option<u64>,
    context: u64,
    group: Option<Guid>,
    polled: bool,
) -> EventEntry {
    EventEntry {
        used: true,
        event_type,
        notify,
        context,
        group,
        signaled: false,
        polled,
        timer_mode: TIMER_CANCEL,
        deadline: 0,
        period: 0,
    }
}

/// Whether an event is registered for a group.
pub open spec fn is_in(e: EventEntry, group: Guid) -> bool {
    match e.group {
        Some(g) => e.used && g@ == group@,
        None => false,
    }
}

/// The first event from an index on that is registered for a group, or `until`.
pub open spec fn next_in(s: Seq<EventEntry>, group: Guid, from: int, until: int) -> int
    decreases until - from,
{
    if from >= until || from >= s.len() {
        until
    } else if is_in(s[from], group) {
        from
    } else {
        next_in(s, group, from + 1, until)
    }
}

/// The events of the firmware, and the current task priority level.
pub struct Events {
    pub entries: Vec<EventEntry>,
    /// Raised and restored by the application; notifications are dispatched
    /// immediately, so this is bookkeeping rather than a queue.
    pub tpl: usize,
}

impl Events {
    /// What the pool keeps to: no more events than there may be.
    pub open spec fn wf(&self) -> bool {
        self.entries@.len() <= MAX_EVENTS
    }

    /// Prepares the event pool.
    pub fn init() -> (events: Events)
        ensures
            events.wf(),
            events.entries@ == Seq::<EventEntry>::empty(),
            events.tpl == TPL_APPLICATION,
    {
        Events { entries: Vec::new(), tpl: TPL_APPLICATION }
    }

    /// Whether a handle is that of one of the events.
    pub open spec fn has(&self, event: u64) -> bool {
        1 <= event <= self.entries@.len() && self.entries@[event - 1].used
    }

    /// The pool's index for an event handle, if the handle is one of ours.
    fn entry_of(&self, event: u64) -> (k: Option<usize>)
        requires
            self.wf(),
        ensures
            match k {
                Some(k) => self.has(event) && k == event - 1,
                None => !self.has(event),
            },
    {
        if event == 0 || event > MAX_EVENTS {
            return None;
        }
        let k: usize = (event - 1) as usize;
        if k >= self.entries.len() {
            return None;
        }
        if self.entries[k].used {
            Some(k)
        } else {
            None
        }
    }

    fn create(
        &mut self,
        event_type: u32,
        notify: Option<u64>,
        context: u64,
        group: Option<Guid>,
        polled: bool,
    ) -> (event: Option<u64>)
        requires
            old(self).wf(),
        ensures
            final(self).wf(),
            final(self).tpl == old(self).tpl,
            match event {
                Some(event) => old(self).entries@.len() < MAX_EVENTS && event == old(self).entries@.len() + 1 && final(self).entries@ == old(self).entries@.push(
                    fresh(event_type, notify, context, group, polled),
                ),
                None => old(self).entries@.len() == MAX_EVENTS && final(self).entries@ == old(self).entries@,
            },
    {
        let index: usize = self.entries.len();
        if index as u64 >= MAX_EVENTS {
            return None;
        }
        self.entries.push(
            EventEntry {
                used: true,
                event_type,
                notify,
                context,
                group,
                signaled: false,
                polled,
                timer_mode: TIMER_CANCEL,
                deadline: 0,
                period: 0,
            },
        );
        Some(index as u64 + 1)
    }

    /// Creates an event whose readiness is decided by polling, which is how console
    /// input is exposed as an event without an interrupt path.
    pub fn create_polled(&mut self) -> (event: Option<u64>)
        requires
            old(self).wf(),
        ensures
            final(self).wf(),
            final(self).tpl == old(self).tpl,
            match event {
                Some(event) => old(self).entries@.len() < MAX_EVENTS && event == old(self).entries@.len() + 1 && final(self).entries@ == old(self).entries@.push(
                    fresh(EVT_NOTIFY_WAIT, None, 0, None, true),
                ),
                None => old(self).entries@.len() == MAX_EVENTS && final(self).entries@ == old(self).entries@,
            },
    {
        self.create(EVT_NOTIFY_WAIT, None, 0, None, true)
    }

    /// `RaiseTPL`: the level there was.
    pub fn raise_tpl(&mut self, new_tpl: usize) -> (was: usize)
        ensures
            was == old(self).tpl,
            final(self).tpl == new_tpl,
            final(self).entries@ == old(self).entries@,
    {
        let current: usize = self.tpl;
        self.tpl = new_tpl;
        current
    }

    /// `RestoreTPL`.
    pub fn restore_tpl(&mut self, new_tpl: usize)
        ensures
            final(self).tpl == new_tpl,
            final(self).entries@ == old(self).entries@,
    {
        self.tpl = new_tpl;
    }

    /// `CreateEvent`.
    pub fn create_event(
        &mut self,
        event_type: u32,
        notify: Option<u64>,
        context: u64,
        out: bool,
    ) -> (event: Result<u64, Status>)
        requires
            old(self).wf(),
        ensures
            final(self).wf(),
            final(self).tpl == old(self).tpl,
            ({
                let refused = !out || (!is_timer(event_type) && notify is None
                    && !notifies_on_wait(event_type));
                match event {
                    Ok(event) => !refused && old(self).entries@.len() < MAX_EVENTS && event == old(self).entries@.len() + 1 && final(self).entries@ == old(self).entries@.push(
                        fresh(event_type, notify, context, None, false),
                    ),
                    Err(status) => final(self).entries@ == old(self).entries@ && if refused {
                        status == Status::InvalidParameter
                    } else {
                        status == Status::OutOfResources && old(self).entries@.len() == MAX_EVENTS
                    },
                }
            }),
    {
        if !out {
            return Err(Status::InvalidParameter);
        }
        if event_type < EVT_TIMER && notify.is_none() && (event_type / EVT_NOTIFY_WAIT) % 2 != 1 {
            return Err(Status::InvalidParameter);
        }
        match self.create(event_type, notify, context, None, false) {
            Some(event) => Ok(event),
            None => Err(Status::OutOfResources),
        }
    }

    /// `CreateEventEx`: an event that may be one of a group.
    pub fn create_event_ex(
        &mut self,
        event_type: u32,
        notify: Option<u64>,
        context: u64,
        group: Option<Guid>,
        out: bool,
    ) -> (event: Result<u64, Status>)
        requires
            old(self).wf(),
        ensures
            final(self).wf(),
            final(self).tpl == old(self).tpl,
            match event {
                Ok(event) => out && old(self).entries@.len() < MAX_EVENTS && event == old(self).entries@.len() + 1 && final(self).entries@ == old(self).entries@.push(
                    fresh(event_type, notify, context, group, false),
                ),
                Err(status) => final(self).entries@ == old(self).entries@ && if !out {
                    status == Status::InvalidParameter
                } else {
                    status == Status::OutOfResources && old(self).entries@.len() == MAX_EVENTS
                },
            },
    {
        if !out {
            return Err(Status::InvalidParameter);
        }
        match self.create(event_type, notify, context, group, false) {
            Some(event) => Ok(event),
            None => Err(Status::OutOfResources),
        }
    }

    /// `SetTimer`: `now` is the system counter in 100 ns units.
    pub fn set_timer(&mut self, event: u64, timer_type: u32, trigger_time: u64, now: u64) -> (status:
        Status)
        requires
            old(self).wf(),
        ensures
            final(self).wf(),
            final(self).tpl == old(self).tpl,
            ({
                let k = event - 1;
                let e = old(self).entries@[k];
                if !old(self).has(event) || !is_timer(e.event_type) || timer_type
                    > TIMER_RELATIVE {
                    status == Status::InvalidParameter && final(self).entries@ == old(self).entries@
                } else if timer_type == TIMER_CANCEL {
                    status == Status::Success && final(self).entries@ == old(self).entries@.update(
                        k,
                        EventEntry { timer_mode: TIMER_CANCEL, ..e },
                    )
                } else {
                    status == Status::Success && final(self).entries@ == old(self).entries@.update(
                        k,
                        EventEntry {
                            timer_mode: timer_type,
                            period: trigger_time,
                            deadline: capped(
                                now + if timer_type == TIMER_PERIODIC {
                                    larger(trigger_time as int, HUNDRED_NS as int)
                                } else {
                                    trigger_time as int
                                },
                            ),
                            ..e
                        },
                    )
                }
            }),
    {
        let k: usize = match self.entry_of(event) {
            Some(k) => k,
            None => {
                return Status::InvalidParameter;
            },
        };
        let mut entry: EventEntry = self.entries[k];
        if entry.event_type < EVT_TIMER {
            return Status::InvalidParameter;
        }
        if timer_type == TIMER_CANCEL {
            entry.timer_mode = TIMER_CANCEL;
            self.entries.set(k, entry);
            return Status::Success;
        }
        if timer_type == TIMER_PERIODIC || timer_type == TIMER_RELATIVE {
            let mut wait: u64 = trigger_time;
            if timer_type == TIMER_PERIODIC && wait < HUNDRED_NS {
                wait = HUNDRED_NS;
            }
            entry.timer_mode = timer_type;
            entry.period = trigger_time;
            entry.deadline = now.saturating_add(wait);
            self.entries.set(k, entry);
            return Status::Success;
        }
        Status::InvalidParameter
    }

    /// `SignalEvent`: the status, and the notification that is to run.
    pub fn signal_event(&mut self, event: u64) -> (answer: (Status, Option<Notification>))
        requires
            old(self).wf(),
        ensures
            final(self).wf(),
            final(self).tpl == old(self).tpl,
            ({
                let k = event - 1;
                let e = old(self).entries@[k];
                if !old(self).has(event) {
                    answer == (Status::InvalidParameter, None::<Notification>) && final(self).entries@ == old(self).entries@
                } else {
                    answer == (Status::Success, notification(e, event)) && final(self).entries@
                        == old(self).entries@.update(k, EventEntry { signaled: true, ..e })
                }
            }),
    {
        let k: usize = match self.entry_of(event) {
            Some(k) => k,
            None => {
                return (Status::InvalidParameter, None);
            },
        };
        let mut entry: EventEntry = self.entries[k];
        entry.signaled = true;
        self.entries.set(k, entry);
        (Status::Success, notification_of(&entry, event))
    }

    /// Signals the next event registered for `group`, from the index `from` on and
    /// below `until`: its index, and the notification that is to run before the
    /// search goes on.
    ///
    /// Used at `ExitBootServices`, where the group's events are the last thing that
    /// can still use boot services.
    pub fn signal_group(&mut self, group: &Guid, from: usize, until: usize) -> (signaled: Option<
        (usize, Option<Notification>),
    >)
        requires
            old(self).wf(),
            until <= old(self).entries@.len(),
        ensures
            final(self).wf(),
            final(self).tpl == old(self).tpl,
            ({
                let s = old(self).entries@;
                let k = next_in(s, *group, from as int, until as int);
                if k == until {
                    signaled is None && final(self).entries@ == s
                } else {
                    &&& from <= k < until && is_in(s[k], *group)
                    &&& signaled == Some((k as usize, notification(s[k], (k + 1) as u64)))
                    &&& final(self).entries@ == s.update(k, EventEntry { signaled: true, ..s[k] })
                }
            }),
    {
        let mut index: usize = from;
        while index < until
            invariant
                until <= self.entries@.len(),
                *self == *old(self),
                self.wf(),
                from <= index,
                next_in(self.entries@, *group, from as int, until as int) == next_in(
                    self.entries@,
                    *group,
                    index as int,
                    until as int,
                ),
            decreases until - index,
        {
            let mut entry: EventEntry = self.entries[index];
            let matches_group: bool = match entry.group {
                Some(g) => same_bytes(&g, group),
                None => false,
            };
            if entry.used && matches_group {
                entry.signaled = true;
                self.entries.set(index, entry);
                return Some((index, notification_of(&entry, index as u64 + 1)));
            }
            index = index + 1;
        }
        None
    }

    /// `CloseEvent`.
    pub fn close_event(&mut self, event: u64) -> (status: Status)
        requires
            old(self).wf(),
        ensures
            final(self).wf(),
            final(self).tpl == old(self).tpl,
            ({
                let k = event - 1;
                let e = old(self).entries@[k];
                if !old(self).has(event) {
                    status == Status::InvalidParameter && final(self).entries@ == old(self).entries@
                } else {
                    status == Status::Success && final(self).entries@ == old(self).entries@.update(
                        k,
                        EventEntry { used: false, notify: None, ..e },
                    )
                }
            }),
    {
        let k: usize = match self.entry_of(event) {
            Some(k) => k,
            None => {
                return Status::InvalidParameter;
            },
        };
        let mut entry: EventEntry = self.entries[k];
        entry.used = false;
        entry.notify = None;
        self.entries.set(k, entry);
        Status::Success
    }

    /// `CheckEvent`: `predicate` is what the event's predicate says, if it has one.
    pub fn check_event(&mut self, event: u64, now: u64, predicate: bool) -> (status: Status)
        requires
            old(self).wf(),
        ensures
            final(self).wf(),
            final(self).tpl == old(self).tpl,
            ({
                let k = event - 1;
                let e = old(self).entries@[k];
                if !old(self).has(event) {
                    status == Status::InvalidParameter && final(self).entries@ == old(self).entries@
                } else if ready_at(e, now, predicate) {
                    status == Status::Success && final(self).entries@ == old(self).entries@.update(
                        k,
                        consumed(e),
                    )
                } else {
                    status == Status::NotReady && final(self).entries@ == old(self).entries@
                }
            }),
    {
        let k: usize = match self.entry_of(event) {
            Some(k) => k,
            None => {
                return Status::InvalidParameter;
            },
        };
        if is_ready(&self.entries[k], now, predicate) {
            let entry: EventEntry = consume(&self.entries[k]);
            self.entries.set(k, entry);
            Status::Success
        } else {
            Status::NotReady
        }
    }

    /// `WaitForEvent`, one look at the events: a null handle is reported first, then
    /// the first event that is not one of ours or that is ready. `predicates` are
    /// what the events' predicates say.
    pub fn wait_for_event(
        &mut self,
        events: Option<&[u64]>,
        index: bool,
        now: u64,
        predicates: &[bool],
    ) -> (wait: Wait)
        requires
            old(self).wf(),
            events is Some ==> predicates@.len() == events->0@.len(),
        ensures
            final(self).wf(),
            final(self).tpl == old(self).tpl,
            ({
                let e = events->0@;
                let null = first_null(e, 0);
                let k = first_stop(old(self).entries@, e, predicates@, now, 0);
                let it = old(self).entries@[e[k] - 1];
                if events is None || !index || e.len() == 0 {
                    wait == Wait::Refused && final(self).entries@ == old(self).entries@
                } else if null < e.len() {
                    wait == Wait::Unknown(null as usize) && final(self).entries@ == old(self).entries@
                } else if k >= e.len() {
                    wait == Wait::Spin && final(self).entries@ == old(self).entries@
                } else if !old(self).has(e[k]) {
                    wait == Wait::Unknown(k as usize) && final(self).entries@ == old(self).entries@
                } else {
                    wait == Wait::Ready(k as usize, notification(it, e[k])) && final(self).entries@
                        == old(self).entries@.update(e[k] - 1, consumed(it))
                }
            }),
    {
        let list: &[u64] = match events {
            Some(list) => list,
            None => {
                return Wait::Refused;
            },
        };
        if !index || list.len() == 0 {
            return Wait::Refused;
        }
        let mut position: usize = 0;
        while position < list.len()
            invariant
                position <= list@.len(),
                events is Some,
                list@ == events->0@,
                index,
                list@.len() > 0,
                *self == *old(self),
                self.wf(),
                first_null(list@, 0) == first_null(list@, position as int),
            decreases list@.len() - position,
        {
            if list[position] == 0 {
                return Wait::Unknown(position);
            }
            position = position + 1;
        }
        let ghost entries = self.entries@;
        let mut position: usize = 0;
        while position < list.len()
            invariant
                position <= list@.len(),
                events is Some,
                list@ == events->0@,
                list@.len() > 0,
                index,
                predicates@.len() == list@.len(),
                first_null(list@, 0) == list@.len(),
                *self == *old(self),
                entries == self.entries@,
                self.wf(),
                first_stop(entries, list@, predicates@, now, 0) == first_stop(
                    entries,
                    list@,
                    predicates@,
                    now,
                    position as int,
                ),
            decreases list@.len() - position,
        {
            let handle: u64 = list[position];
            match self.entry_of(handle) {
                Some(k) => {
                    if is_ready(&self.entries[k], now, predicates[position]) {
                        let entry: EventEntry = self.entries[k];
                        let after: EventEntry = consume(&entry);
                        self.entries.set(k, after);
                        return Wait::Ready(position, notification_of(&entry, handle));
                    }
                },
                None => {
                    return Wait::Unknown(position);
                },
            }
            position = position + 1;
        }
        Wait::Spin
    }

    /// How many events were created, for the boot log.
    pub fn live_events(&self) -> (count: usize)
        ensures
            count == self.entries@.len(),
    {
        self.entries.len()
    }
}

/// The first null handle from an index on, or how many handles there are.
pub open spec fn first_null(events: Seq<u64>, from: int) -> int
    decreases events.len() - from,
{
    if from >= events.len() {
        events.len() as int
    } else if events[from] == 0 {
        from
    } else {
        first_null(events, from + 1)
    }
}

/// The first event from an index on that is not one of ours or that is ready, or how
/// many events there are.
pub open spec fn first_stop(
    s: Seq<EventEntry>,
    events: Seq<u64>,
    predicates: Seq<bool>,
    now: u64,
    from: int,
) -> int
    decreases events.len() - from,
{
    if from >= events.len() {
        events.len() as int
    } else if !(1 <= events[from] <= s.len() && s[events[from] - 1].used) {
        from
    } else if ready_at(s[events[from] - 1], now, predicates[from]) {
        from
    } else {
        first_stop(s, events, predicates, now, from + 1)
    }
}

fn is_ready(entry: &EventEntry, now: u64, predicate: bool) -> (ready: bool)
    ensures
        ready == ready_at(*entry, now, predicate),
{
    if entry.signaled {
        return true;
    }
    if entry.polled && predicate {
        return true;
    }
    entry.event_type >= EVT_TIMER && entry.timer_mode != TIMER_CANCEL && now >= entry.deadline
}

fn consume(entry: &EventEntry) -> (after: EventEntry)
    ensures
        after == consumed(*entry),
{
    let mut after: EventEntry = *entry;
    after.signaled = false;
    if entry.event_type >= EVT_TIMER {
        if entry.timer_mode == TIMER_PERIODIC {
            after.deadline = entry.deadline.saturating_add(entry.period);
        } else if entry.timer_mode == TIMER_RELATIVE {
            after.timer_mode = TIMER_CANCEL;
        }
    }
    after
}

fn notification_of(entry: &EventEntry, event: u64) -> (to_run: Option<Notification>)
    ensures
        to_run == notification(*entry, event),
{
    match entry.notify {
        Some(function) => Some(Notification { event, function, context: entry.context }),
        None => None,
    }
}

/// Consuming an event that was signaled leaves it waiting, unless it is polled or a
/// timer whose next deadline has passed as well.
pub proof fn law_consumed_is_not_ready(e: EventEntry, now: u64, predicate: bool)
    requires
        !(e.polled && predicate),
        !(is_timer(e.event_type) && e.timer_mode == TIMER_PERIODIC && now >= capped(
            e.deadline + e.period,
        )),
        is_timer(e.event_type) ==> e.timer_mode <= TIMER_RELATIVE,
    ensures
        !ready_at(consumed(e), now, predicate),
{
}

/// A one-shot timer is ready from its deadline on, once, and not before.
pub proof fn law_relative_timer_fires_once(e: EventEntry, set: u64, wait: u64, now: u64)
    requires
        is_timer(e.event_type),
        !e.signaled,
        !e.polled,
        e.timer_mode == TIMER_RELATIVE,
        e.deadline == capped(set + wait),
        set + wait <= u64::MAX,
    ensures
        ready_at(e, now, false) <==> now >= set + wait,
        forall|later: u64| !#[trigger] ready_at(consumed(e), later, false),
{
}

/// The next event of a group is one of it, with none between.
pub proof fn law_next_of_the_group(s: Seq<EventEntry>, group: Guid, from: int, until: int)
    requires
        0 <= from <= until <= s.len(),
    ensures
        ({
            let k = next_in(s, group, from, until);
            &&& from <= k <= until
            &&& k < until ==> s[k].used && s[k].group is Some && s[k].group->0@ == group@
            &&& forall|i: int|
                from <= i < k ==> !((#[trigger] s[i]).used && s[i].group is Some && s[i].group->0@
                    == group@)
        }),
    decreases until - from,
{
    if from < until && !is_in(s[from], group) {
        law_next_of_the_group(s, group, from + 1, until);
    }
}

/// A wait ends at the first event that is ready, or is none of ours: every event before it
/// is ours and not ready.
pub proof fn law_wait_ends_at_the_first_that_is_ready(
    s: Seq<EventEntry>,
    events: Seq<u64>,
    predicates: Seq<bool>,
    now: u64,
    from: int,
)
    requires
        0 <= from <= events.len(),
    ensures
        ({
            let k = first_stop(s, events, predicates, now, from);
            let ours = |i: int| 1 <= events[i] <= s.len() && s[events[i] - 1].used;
            &&& from <= k <= events.len()
            &&& k < events.len() && ours(k) ==> ready_at(s[events[k] - 1], now, predicates[k])
            &&& forall|i: int|
                from <= i < k ==> 1 <= #[trigger] events[i] <= s.len() && s[events[i] - 1].used
                    && !ready_at(s[events[i] - 1], now, predicates[i])
        }),
    decreases events.len() - from,
{
    if from < events.len() && 1 <= events[from] <= s.len() && s[events[from] - 1].used && !ready_at(
        s[events[from] - 1],
        now,
        predicates[from],
    ) {
        law_wait_ends_at_the_first_that_is_ready(s, events, predicates, now, from + 1);
    }
}

/// The first null handle is one, with none before it.
pub proof fn law_first_null_is_the_first(events: Seq<u64>, from: int)
    requires
        0 <= from <= events.len(),
    ensures
        from <= first_null(events, from) <= events.len(),
        first_null(events, from) < events.len() ==> events[first_null(events, from)] == 0,
        forall|i: int| from <= i < first_null(events, from) ==> #[trigger] events[i] != 0,
    decreases events.len() - from,
{
    if from < events.len() && events[from] != 0 {
        law_first_null_is_the_first(events, from + 1);
    }
}

/// A periodic timer fires again one period after its last deadline, and stays set; an event
/// that is no timer is consumed by clearing it alone.
pub proof fn law_periodic_timer_fires_again(e: EventEntry, now: u64, predicate: bool)
    ensures
        is_timer(e.event_type) && e.timer_mode == TIMER_PERIODIC && e.deadline + e.period
            <= u64::MAX ==> {
            &&& consumed(e).timer_mode == TIMER_PERIODIC
            &&& consumed(e).deadline == e.deadline + e.period
            &&& now >= e.deadline + e.period ==> ready_at(consumed(e), now, predicate)
            &&& now < e.deadline + e.period && !e.polled ==> !ready_at(consumed(e), now, predicate)
        },
        !is_timer(e.event_type) ==> consumed(e) == (EventEntry { signaled: false, ..e }),
{
}

} // verus!
