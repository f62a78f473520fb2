//! A queue of events that are sent at once, with priority, or after a delay.

use crate::channel::{Channel, Outlet};
use crate::clock::{due_time, remaining, Clock};
use crate::inbox::{Entry, Inbox, Watch};
use crate::ledger::{Encounter, Ledger};
use crate::timers::{Choice, Timers, Turn};
use crossbeam::channel::Sender;
use std::time::Duration;
use vstd::prelude::*;

verus! {

/// How many turns of a receive watch all channels. A receive that has taken so many turns without
/// an event watches only for events that are sent at once or with priority, and for its alarm.
pub const TURNS: u64 = 0xffff_ffff_ffff_ffff;

/// A queue of events.
#[verifier::reject_recursive_types(E)]
pub struct EventQueue<E> {
    event_sender: EventSender<E>,
    inbox: Inbox<E>,
    timers: Timers<E>,
}

impl<E> EventQueue<E> {
    /// The sender that the queue keeps.
    pub closed spec fn own_sender(&self) -> EventSender<E> {
        self.event_sender
    }

    /// Where the events arrive that are sent at once.
    pub closed spec fn standard(&self) -> Channel<E> {
        self.inbox.standard()
    }

    /// Where the events arrive that are sent with priority.
    pub closed spec fn priority(&self) -> Channel<E> {
        self.inbox.priority()
    }

    /// Where timed events arrive, each with the reading of the clock at which it is due.
    pub closed spec fn delayed(&self) -> Channel<(u128, E)> {
        self.inbox.delayed()
    }

    /// The clock by which timed events are due.
    pub closed spec fn clock(&self) -> Clock {
        self.inbox.clock()
    }

    /// Whether `sender` sends to this queue: each of its channels leads to the mailbox of its
    /// kind, and both go by the same clock.
    pub open spec fn fed_by(&self, sender: EventSender<E>) -> bool {
        &&& self.standard().fed_by(sender.standard())
        &&& self.priority().fed_by(sender.priority())
        &&& self.delayed().fed_by(sender.delayed())
        &&& self.clock() == sender.clock()
    }

    /// Whether the queue is `before`, but for its accounts.
    pub open spec fn same_ends(&self, before: EventQueue<E>) -> bool {
        &&& self.own_sender() == before.own_sender()
        &&& self.standard() == before.standard()
        &&& self.priority() == before.priority()
        &&& self.delayed() == before.delayed()
        &&& self.clock() == before.clock()
    }

    /// Whether `met` is what the queue can meet in a wait for the timed event at `due`: the alarm
    /// is set to the instant at which that event is due, and what ends the wait can have been sent
    /// or is the message of the alarm.
    pub open spec fn waited(&self, due: Option<u128>, met: Encounter<E>) -> bool {
        &&& crate::channel::alarm_instant(met.alarm) == match due {
            Some(due) => self.clock().instant(due),
            None => None,
        }
        &&& met.woken matches Some(woken) ==> crate::channel::came_from(
            self.standard(),
            self.priority(),
            self.delayed(),
            met.alarm,
            woken,
        )
        &&& met.limit is None ==> met.woken is Some
        &&& met.woken matches Some(woken) ==> woken is Delayed ==> met.watches
    }

    /// Whether the limit of a wait is what is left of `timeout`, when the receive began at the
    /// reading `start` and the clock shows `now`.
    pub open spec fn limited(
        timeout: Option<Duration>,
        start: u128,
        now: u128,
        limit: Option<Duration>,
    ) -> bool {
        match timeout {
            Some(timeout) => limit matches Some(left) && crate::clock::duration_nanos(left)
                == crate::clock::time_left(crate::clock::duration_nanos(timeout), start, now),
            None => limit is None,
        }
    }

    /// Whether `turns[i]` is what the queue can meet in that turn of a receive that lasts no longer
    /// than `timeout`.
    pub open spec fn meets(
        &self,
        timeout: Option<Duration>,
        turns: Seq<Encounter<E>>,
        i: int,
    ) -> bool {
        let met = turns[i];
        &&& self.delayed().all_sent(met.arrivals@)
        &&& met.urgent matches Some(urgent) ==> self.priority().was_sent(urgent)
        &&& self@.before(turns, i).choice(met) matches Choice::Wait(due) ==> {
            &&& Self::limited(timeout, turns[0].now, met.now, met.limit)
            &&& met.watches == (i < TURNS)
            &&& self.waited(due, met)
        }
    }

    /// What a receive does that lasts no longer than `timeout`, given what the queue meets in its
    /// turns: it delivers `event` and leaves the queue `after`.
    pub open spec fn received(
        &self,
        timeout: Option<Duration>,
        turns: Seq<Encounter<E>>,
        event: Option<E>,
        after: EventQueue<E>,
    ) -> bool {
        &&& forall|i: int| 0 <= i < turns.len() ==> #[trigger] self.meets(timeout, turns, i)
        &&& self@.delivers(turns, event, after@)
        &&& after.same_ends(*self)
    }
}

impl<E> View for EventQueue<E> {
    type V = Ledger<E>;

    /// What has left the channels of the queue, what it has asked for, and the timed events that it
    /// holds back.
    closed spec fn view(&self) -> Ledger<E> {
        Ledger {
            standard: self.inbox@.standard,
            priority: self.inbox@.priority,
            delayed: self.inbox@.delayed,
            readings: self.inbox@.readings,
            log: self.inbox@.log,
            timed: self.timers@,
        }
    }
}

/// A queue holds timed events for finitely many readings of the clock, at least one for each.
pub proof fn lemma_queue_valid<E>(queue: EventQueue<E>)
    ensures
        crate::timers::filled(queue@.timed),
        queue@.timed.dom().finite(),
{
    crate::timers::lemma_timers_valid(queue.timers);
}

impl<E> EventQueue<E> where E: Send + 'static {
    /// Creates a new event queue for generic incoming events.
    pub fn new() -> (queue: EventQueue<E>)
        ensures
            queue@ == Ledger::<E>::empty(),
            call_ensures(std::time::Instant::now, (), queue.clock().epoch()),
            queue.fed_by(queue.own_sender()),
            queue.own_sender().readings() == Seq::<u128>::empty(),
    {
        let inbox: Inbox<E> = Inbox::new();
        EventQueue {
            event_sender: EventSender::new(
                inbox.standard_outlet(),
                inbox.delayed_outlet(),
                inbox.priority_outlet(),
                inbox.twin_watch(),
            ),
            inbox,
            timers: Timers::new(),
        }
    }

    /// Returns the internal sender reference to this queue.
    /// This reference can be safely cloned and shared to other threads
    /// in order to make several senders to the same queue.
    pub fn sender(&mut self) -> (sender: &mut EventSender<E>)
        ensures
            *sender == old(self).own_sender(),
            final(self).own_sender() == *final(sender),
            final(self).standard() == old(self).standard(),
            final(self).priority() == old(self).priority(),
            final(self).delayed() == old(self).delayed(),
            final(self)@ == old(self)@,
            final(self).clock() == old(self).clock(),
    {
        &mut self.event_sender
    }

    /// Takes over the timed events that have arrived since the last call.
    fn enque_timers(&mut self)
        ensures
            exists|arrivals: Vec<(u128, E)>| #[trigger]
                old(self).delayed().all_sent(arrivals@) && final(self)@ == (Ledger {
                    delayed: old(self)@.delayed + arrivals@,
                    log: old(self)@.log.push(Entry::Drained(arrivals@)),
                    timed: crate::timers::joined(old(self)@.timed, arrivals@),
                    ..old(self)@
                }),
            final(self).same_ends(*old(self)),
    {
        let arrivals = self.inbox.drain();
        let ghost all = arrivals;
        self.timers.join(arrivals);
        assert(old(self).delayed().all_sent(all@));
    }

    /// Waits for an event, but no longer than `timeout`. A timed event that arrives meanwhile makes
    /// the queue look again at what is due.
    fn attempt(&mut self, timeout: Option<Duration>) -> (event: Option<E>)
        ensures
            exists|turns: Seq<Encounter<E>>| #[trigger]
                old(self).received(timeout, turns, event, *final(self)),
            timeout is None ==> event is Some,
    {
        let ghost mut turns: Seq<Encounter<E>> = Seq::empty();
        let mut start: Option<u128> = None;
        let mut left: u64 = TURNS;
        loop
            invariant
                self.same_ends(*old(self)),
                self@ == old(self)@.after_all(turns),
                left == TURNS - turns.len(),
                start matches Some(reading) ==> 0 < turns.len() && reading == turns[0].now,
                start is None ==> turns.len() == 0,
                forall|i: int|
                    0 <= i < turns.len() ==> #[trigger] old(self).meets(timeout, turns, i),
                forall|i: int|
                    0 <= i < turns.len() ==> (#[trigger] old(self)@.before(turns, i)).awaited(
                        turns[i],
                    ),
                forall|i: int|
                    0 <= i < turns.len() ==> (#[trigger] old(self)@.before(turns, i)).turn(
                        turns[i],
                    ) is Again,
            decreases left,
        {
            let ghost before = *self;
            self.enque_timers();
            let ghost arrivals = choose|arrivals: Vec<(u128, E)>| #[trigger]
                before.delayed().all_sent(arrivals@) && self@ == (Ledger {
                    delayed: before@.delayed + arrivals@,
                    log: before@.log.push(Entry::Drained(arrivals@)),
                    timed: crate::timers::joined(before@.timed, arrivals@),
                    ..before@
                });
            let urgent = self.inbox.first();
            let now: u128 = self.inbox.read();
            let since: u128 = match start {
                Some(reading) => reading,
                None => now,
            };
            start = Some(since);
            let ghost first = urgent;
            let ghost timed = self.timers@;
            match self.timers.decide(urgent, now) {
                Choice::Deliver(event) => {
                    proof {
                        let met = Encounter {
                            arrivals,
                            urgent: first,
                            now,
                            limit: None,
                            alarm: arbitrary(),
                            watches: true,
                            woken: None,
                        };
                        lemma_turn(*old(self), timeout, turns, met);
                        assert(self@ =~= before@.after(met));
                        assert(old(self).received(timeout, turns.push(met), Some(event), *self));
                    }
                    return Some(event);
                },
                Choice::Wait(due) => {
                    let limit = match timeout {
                        Some(timeout) => Some(remaining(timeout, since, now)),
                        None => None,
                    };
                    let watches = 0 < left;
                    let alarm = self.inbox.alarm(due);
                    let woken = self.inbox.wait(watches, &alarm, limit);
                    let ghost met = Encounter {
                        arrivals,
                        urgent: first,
                        now,
                        limit,
                        alarm,
                        watches,
                        woken,
                    };
                    let turn = self.timers.settle(due, woken);
                    proof {
                        if let Some(earliest) = due {
                            assert(crate::timers::is_earliest(timed, earliest));
                        }
                        lemma_turn(*old(self), timeout, turns, met);
                        assert(self@ =~= before@.after(met));
                    }
                    match turn {
                        Turn::Over(event) => {
                            assert(old(self).received(timeout, turns.push(met), event, *self));
                            return event;
                        },
                        Turn::Again => {
                            proof {
                                turns = turns.push(met);
                            }
                            left = left - 1;
                        },
                    }
                },
            }
        }
    }

    /// Blocks the current thread until an event is received by this queue.
    pub fn receive(&mut self) -> (event: E)
        ensures
            exists|turns: Seq<Encounter<E>>| #[trigger]
                old(self).received(None, turns, Some(event), *final(self)),
    {
        self.attempt(None).unwrap()
    }

    /// Blocks the current thread until an event is received by this queue or timeout is exceeded.
    /// If timeout is reached a None is returned, otherwise the event is returned.
    pub fn receive_timeout(&mut self, timeout: Duration) -> (event: Option<E>)
        ensures
            exists|turns: Seq<Encounter<E>>| #[trigger]
                old(self).received(Some(timeout), turns, event, *final(self)),
    {
        self.attempt(Some(timeout))
    }
}

/// What a queue meets in one turn does not change what it met in the turns before.
proof fn lemma_turn<E>(
    queue: EventQueue<E>,
    timeout: Option<Duration>,
    turns: Seq<Encounter<E>>,
    met: Encounter<E>,
)
    ensures
        queue@.after_all(turns.push(met)) == queue@.after_all(turns).after(met),
        queue@.before(turns.push(met), turns.len() as int) == queue@.after_all(turns),
        forall|i: int|
            0 <= i <= turns.len() ==> #[trigger] queue@.before(turns.push(met), i)
                == queue@.before(turns, i),
        forall|i: int|
            0 <= i < turns.len() ==> #[trigger] queue.meets(timeout, turns.push(met), i)
                == queue.meets(timeout, turns, i),
{
    crate::ledger::lemma_one_more_turn(queue@, turns, met);
}

impl<E> Default for EventQueue<E> where E: Send + 'static {
    fn default() -> (queue: Self)
        ensures
            queue@ == Ledger::<E>::empty(),
            call_ensures(std::time::Instant::now, (), queue.clock().epoch()),
            queue.fed_by(queue.own_sender()),
            queue.own_sender().readings() == Seq::<u128>::empty(),
    {
        Self::new()
    }
}

/// Why an event could not be sent.
#[derive(Clone, Copy, PartialEq, Eq, Debug, Structural)]
pub enum Obstacle {
    /// The queue is gone.
    QueueGone,
    /// The event would be due beyond the last instant.
    DelayTooLong,
}

/// An event that could not be sent, and why.
#[derive(Debug)]
pub struct Unsent<E>(pub E, pub Obstacle);

impl<E> Unsent<E> {
    /// Says why the event could not be sent.
    pub fn reason(&self) -> (text: &'static str)
        ensures
            text@ == match self.1 {
                Obstacle::QueueGone =>
                    "The associated EventQueue must be alive for sending an event"@,
                Obstacle::DelayTooLong => "overflow when adding duration to instant"@,
            },
    {
        match self.1 {
            Obstacle::QueueGone => "The associated EventQueue must be alive for sending an event",
            Obstacle::DelayTooLong => "overflow when adding duration to instant",
        }
    }
}

/// A handle through which events are sent to a queue.
#[verifier::reject_recursive_types(E)]
pub struct EventSender<E> {
    sender: Outlet<E>,
    timer_sender: Outlet<(u128, E)>,
    priority_sender: Outlet<E>,
    watch: Watch<E>,
}

impl<E> EventSender<E> {
    /// The channel of the events that are sent at once.
    pub closed spec fn standard(&self) -> Sender<E> {
        self.sender.sender()
    }

    /// The channel of the events that are sent with priority.
    pub closed spec fn priority(&self) -> Sender<E> {
        self.priority_sender.sender()
    }

    /// The channel of timed events.
    pub closed spec fn delayed(&self) -> Sender<(u128, E)> {
        self.timer_sender.sender()
    }

    /// The clock by which timed events are due.
    pub closed spec fn clock(&self) -> Clock {
        self.watch.clock()
    }

    /// The readings of the clock that the sender has taken, in their order.
    pub closed spec fn readings(&self) -> Seq<u128> {
        self.watch@.readings
    }

    /// Whether each channel of this sender is a clone of that of the same kind of `other`, and both
    /// go by the same clock.
    pub open spec fn cloned_from(&self, other: EventSender<E>) -> bool {
        &&& crate::channel::twins(other.standard(), self.standard())
        &&& crate::channel::twins(other.priority(), self.priority())
        &&& crate::channel::twins(other.delayed(), self.delayed())
        &&& self.clock() == other.clock()
    }

    /// Whether `sent` is what comes of sending an event that is delayed by `duration` when the
    /// clock shows `now`. Where there is an instant at which the event is due, it goes into the
    /// channel of timed events, and comes back if the queue is gone. Where there is none, it is
    /// not sent.
    pub open spec fn posted(
        &self,
        now: u128,
        event: E,
        duration: Duration,
        sent: Result<(), Unsent<E>>,
    ) -> bool {
        let timed = timed_event(now, duration, event);
        if self.clock().instant(timed.0) is Some {
            &&& crate::channel::returned(self.delayed(), timed, back(timed, sent is Ok))
            &&& sent matches Err(unsent) ==> unsent == Unsent(event, Obstacle::QueueGone)
        } else {
            sent matches Err(unsent) && unsent == Unsent(event, Obstacle::DelayTooLong)
        }
    }

    /// What sending an event that is delayed by `duration` does, with the result `sent`, when it
    /// leaves the sender `after`: the clock is read once, the delay counts from that reading, and
    /// nothing of the sender changes but the account of its readings.
    pub open spec fn sent_with_timer(
        &self,
        event: E,
        duration: Duration,
        sent: Result<(), Unsent<E>>,
        after: EventSender<E>,
    ) -> bool {
        let now = after.readings().last();
        &&& after.readings() == self.readings().push(now)
        &&& self.posted(now, event, duration, sent)
        &&& after.standard() == self.standard()
        &&& after.priority() == self.priority()
        &&& after.delayed() == self.delayed()
        &&& after.clock() == self.clock()
    }
}

/// What comes back from a channel that takes `message`, or does not.
pub open spec fn back<T>(message: T, taken: bool) -> Option<T> {
    if taken {
        None
    } else {
        Some(message)
    }
}

/// What is sent for an event that is delayed by `duration` when the clock shows `now`: the reading
/// of the clock at which it is due, and the event.
pub open spec fn timed_event<E>(now: u128, duration: Duration, event: E) -> (u128, E) {
    (crate::clock::due_at(now, crate::clock::duration_nanos(duration)), event)
}

impl<E> EventSender<E> where E: Send + 'static {
    fn new(
        sender: Outlet<E>,
        timer_sender: Outlet<(u128, E)>,
        priority_sender: Outlet<E>,
        watch: Watch<E>,
    ) -> (handle: EventSender<E>)
        ensures
            handle.standard() == sender.sender(),
            handle.delayed() == timer_sender.sender(),
            handle.priority() == priority_sender.sender(),
            handle.clock() == watch.clock(),
            handle.readings() == watch@.readings,
    {
        EventSender { sender, timer_sender, priority_sender, watch }
    }

    /// Send instantly an event to the event queue.
    /// An event whose queue is gone is handed back.
    pub fn send(&self, event: E) -> (sent: Result<(), Unsent<E>>)
        ensures
            crate::channel::returned(self.standard(), event, back(event, sent is Ok)),
            sent matches Err(unsent) ==> unsent == Unsent(event, Obstacle::QueueGone),
    {
        match self.sender.deliver(event) {
            None => Ok(()),
            Some(event) => Err(Unsent(event, Obstacle::QueueGone)),
        }
    }

    /// Send instantly an event that would be process before any other event sent by the send()
    /// method. Successive calls to send_with_priority will maintain the order of arrival.
    /// An event whose queue is gone is handed back.
    pub fn send_with_priority(&self, event: E) -> (sent: Result<(), Unsent<E>>)
        ensures
            crate::channel::returned(self.priority(), event, back(event, sent is Ok)),
            sent matches Err(unsent) ==> unsent == Unsent(event, Obstacle::QueueGone),
    {
        match self.priority_sender.deliver(event) {
            None => Ok(()),
            Some(event) => Err(Unsent(event, Obstacle::QueueGone)),
        }
    }

    /// Send a timed event to the [EventQueue].
    /// The event only will be sent after the specific duration, never before.
    /// If the [EventSender] is dropped, the event will be generated as well.
    /// An event whose queue is gone, or that would be due beyond the last instant, is handed back.
    pub fn send_with_timer(&mut self, event: E, duration: Duration) -> (sent: Result<(), Unsent<E>>)
        ensures
            old(self).sent_with_timer(event, duration, sent, *final(self)),
    {
        let now: u128 = self.watch.read();
        let due: u128 = due_time(now, duration);
        if self.watch.instant_at(due).is_none() {
            return Err(Unsent(event, Obstacle::DelayTooLong));
        }
        match self.timer_sender.deliver((due, event)) {
            None => Ok(()),
            Some(timed) => Err(Unsent(timed.1, Obstacle::QueueGone)),
        }
    }
}

impl<E> Clone for EventSender<E> {
    fn clone(&self) -> (twin: Self)
        ensures
            twin.cloned_from(*self),
            twin.readings() == Seq::<u128>::empty(),
    {
        EventSender {
            sender: self.sender.clone(),
            timer_sender: self.timer_sender.clone(),
            priority_sender: self.priority_sender.clone(),
            watch: self.watch.twin(),
        }
    }
}

} // verus!
