//! The receiving ends of an event queue, with the account of every answer that they give.

use crate::channel::{Channel, Outlet, Woken};
use crate::clock::Clock;
use crossbeam::channel::{Receiver as Inlet, Select};
use std::time::{Duration, Instant};
use vstd::prelude::*;

verus! {

/// What has been asked for once, and the answer.
pub enum Entry<E> {
    /// All timed events that have arrived.
    Drained(Seq<(u128, E)>),
    /// The first event that was sent with priority.
    First(Option<E>),
    /// The time.
    Read(u128),
    /// What ends a wait.
    Waited {
        /// Whether the wait watches for timed events.
        watches: bool,
        alarm: Inlet<Instant>,
        limit: Option<Duration>,
        woken: Option<Woken<E>>,
    },
}

/// A clock together with the account of what has been read off it.
pub struct Watch<E> {
    clock: Clock,
    log: Ghost<Seq<Entry<E>>>,
}

impl<E> Watch<E> {
    /// The clock that is read.
    pub closed spec fn clock(&self) -> Clock {
        self.clock
    }

    /// What has been read off the clock, in its order.
    pub closed spec fn log(&self) -> Seq<Entry<E>> {
        self.log@
    }

    /// Makes another watch that reads the same clock.
    pub fn twin(&self) -> (watch: Watch<E>)
        ensures
            watch.clock() == self.clock(),
            watch.log() == Seq::<Entry<E>>::empty(),
    {
        Watch { clock: self.clock, log: Ghost(Seq::empty()) }
    }

    /// Returns the instant at which the clock shows `due`.
    pub fn instant_at(&self, due: u128) -> (instant: Option<Instant>)
        ensures
            instant == self.clock().instant(due),
    {
        self.clock.instant_at(due)
    }

    /// `Instant::elapsed` measures the time since the clock was started. It is entered in the
    /// account; nothing is claimed of its length.
    #[verifier::external_body]
    pub(crate) fn elapsed(&mut self) -> (passed: Duration)
        ensures
            final(self).clock() == old(self).clock(),
            final(self).log() == old(self).log().push(
                Entry::Read(crate::clock::duration_nanos(passed)),
            ),
    {
        self.clock.epoch.elapsed()
    }
}

/// The channels and the clock of an event queue. Every answer that they give is entered in one
/// account, which nothing else writes.
#[verifier::reject_recursive_types(E)]
pub struct Inbox<E> {
    standard: Channel<E>,
    delayed: Channel<(u128, E)>,
    priority: Channel<E>,
    clock: Clock,
    log: Ghost<Seq<Entry<E>>>,
}

impl<E> Inbox<E> {
    /// Where the events arrive that are sent at once.
    pub closed spec fn standard(&self) -> Channel<E> {
        self.standard
    }

    /// Where the events arrive that are sent with priority.
    pub closed spec fn priority(&self) -> Channel<E> {
        self.priority
    }

    /// Where timed events arrive, each with the reading of the clock at which it is due.
    pub closed spec fn delayed(&self) -> Channel<(u128, E)> {
        self.delayed
    }

    /// The clock by which timed events are due.
    pub closed spec fn clock(&self) -> Clock {
        self.clock
    }

    /// What has been asked for and answered, in its order.
    pub closed spec fn log(&self) -> Seq<Entry<E>> {
        self.log@
    }

    /// Whether each channel has both its sides.
    #[verifier::type_invariant]
    pub closed spec fn paired(self) -> bool {
        &&& self.standard.paired()
        &&& self.priority.paired()
        &&& self.delayed.paired()
    }

    /// Whether the inbox is `before`, but for its account.
    pub open spec fn same_ends(&self, before: Inbox<E>) -> bool {
        &&& self.standard() == before.standard()
        &&& self.priority() == before.priority()
        &&& self.delayed() == before.delayed()
        &&& self.clock() == before.clock()
    }

    /// Makes an inbox of empty channels, with a clock that starts at the present instant.
    pub fn new() -> (inbox: Inbox<E>)
        ensures
            call_ensures(Instant::now, (), inbox.clock().epoch()),
            inbox.log() == Seq::<Entry<E>>::empty(),
    {
        Inbox {
            standard: Channel::new(),
            delayed: Channel::new(),
            priority: Channel::new(),
            clock: Clock::start(),
            log: Ghost(Seq::empty()),
        }
    }

    /// Makes a handle through which events are sent at once.
    pub fn standard_outlet(&self) -> (outlet: Outlet<E>)
        ensures
            self.standard().fed_by(outlet.sender()),
    {
        self.standard.handle()
    }

    /// Makes a handle through which events are sent with priority.
    pub fn priority_outlet(&self) -> (outlet: Outlet<E>)
        ensures
            self.priority().fed_by(outlet.sender()),
    {
        self.priority.handle()
    }

    /// Makes a handle through which timed events are sent.
    pub fn delayed_outlet(&self) -> (outlet: Outlet<(u128, E)>)
        ensures
            self.delayed().fed_by(outlet.sender()),
    {
        self.delayed.handle()
    }

    /// Makes another watch that reads the clock.
    pub fn twin_watch(&self) -> (watch: Watch<E>)
        ensures
            watch.clock() == self.clock(),
            watch.log() == Seq::<Entry<E>>::empty(),
    {
        Watch { clock: self.clock, log: Ghost(Seq::empty()) }
    }

    /// Returns the instant at which the clock shows `due`.
    pub fn instant_at(&self, due: u128) -> (instant: Option<Instant>)
        ensures
            instant == self.clock().instant(due),
    {
        self.clock.instant_at(due)
    }

    /// `Instant::elapsed`, as above, of the clock of the inbox.
    #[verifier::external_body]
    pub(crate) fn elapsed(&mut self) -> (passed: Duration)
        ensures
            final(self).same_ends(*old(self)),
            final(self).log() == old(self).log().push(
                Entry::Read(crate::clock::duration_nanos(passed)),
            ),
    {
        self.clock.epoch.elapsed()
    }

    /// `Receiver::try_recv` takes the first message out of the channel of the events that are sent
    /// with priority, if there is one, and nothing else. What is taken out was put in through a
    /// sending side of the channel. Which messages are there is up to the threads that hold one, so
    /// no more is claimed of the answer, which is entered in the account.
    #[verifier::external_body]
    pub(crate) fn take(&mut self) -> (first: Option<E>)
        requires
            old(self).paired(),
        ensures
            first matches Some(event) ==> old(self).priority().was_sent(event),
            final(self).same_ends(*old(self)),
            final(self).log() == old(self).log().push(Entry::First(first)),
    {
        self.priority.receiver.try_recv().ok()
    }

    /// `Receiver::try_iter` takes the messages that are in the channel of timed events out of it, in
    /// the order in which they were sent, and nothing else. What is taken out was put in through a
    /// sending side of the channel. Which messages are there is up to the threads that hold one, so
    /// no more is claimed of the answer, which is entered in the account.
    #[verifier::external_body]
    pub(crate) fn take_all(&mut self) -> (arrivals: Vec<(u128, E)>)
        requires
            old(self).paired(),
        ensures
            old(self).delayed().all_sent(arrivals@),
            final(self).same_ends(*old(self)),
            final(self).log() == old(self).log().push(Entry::Drained(arrivals@)),
    {
        self.delayed.receiver.try_iter().collect()
    }

    /// `Select::select` blocks until one of the four channels has a message, and takes that message
    /// and nothing else. Where several have one, a selection by `Select::new_biased` takes from the
    /// first in the order of addition: events with priority, the alarm, events that are sent at
    /// once, timed events.
    /// The message of the alarm is the instant of that alarm. An inbox holds both sides of its
    /// channels and an alarm delivers at most one message, so none of the four is ever found
    /// disconnected.
    /// An event was put in through a sending side of its channel. Which events come, and when, is up
    /// to the threads that hold one, so no more is claimed of the answer, which is entered in the
    /// account.
    #[verifier::external_body]
    pub(crate) fn select(&mut self, alarm: &Inlet<Instant>) -> (woken: Woken<E>)
        requires
            old(self).paired(),
            crate::channel::is_alarm(*alarm),
        ensures
            crate::channel::came_from(
                old(self).standard(),
                old(self).priority(),
                old(self).delayed(),
                *alarm,
                woken,
            ),
            final(self).same_ends(*old(self)),
            final(self).log() == old(self).log().push(
                Entry::Waited { watches: true, alarm: *alarm, limit: None, woken: Some(woken) },
            ),
    {
        let mut select = Select::new_biased();
        let from_priority = select.recv(&self.priority.receiver);
        let from_alarm = select.recv(alarm);
        let from_standard = select.recv(&self.standard.receiver);
        select.recv(&self.delayed.receiver);
        let chosen = select.select();
        match chosen.index() {
            i if i == from_priority => Woken::Priority(chosen.recv(&self.priority.receiver).unwrap()),
            i if i == from_alarm => Woken::Alarm(chosen.recv(alarm).unwrap()),
            i if i == from_standard => Woken::Standard(chosen.recv(&self.standard.receiver).unwrap()),
            _ => Woken::Delayed(chosen.recv(&self.delayed.receiver).unwrap()),
        }
    }

    /// `Select::select_timeout` does what `Select::select` does, for no longer than `limit`. It
    /// returns nothing, and takes nothing, when that time has passed without a message in any of
    /// the four channels.
    #[verifier::external_body]
    pub(crate) fn select_timeout(
        &mut self,
        alarm: &Inlet<Instant>,
        limit: Duration,
    ) -> (woken: Option<Woken<E>>)
        requires
            old(self).paired(),
            crate::channel::is_alarm(*alarm),
        ensures
            woken matches Some(cause) ==> crate::channel::came_from(
                old(self).standard(),
                old(self).priority(),
                old(self).delayed(),
                *alarm,
                cause,
            ),
            final(self).same_ends(*old(self)),
            final(self).log() == old(self).log().push(
                Entry::Waited { watches: true, alarm: *alarm, limit: Some(limit), woken },
            ),
    {
        let mut select = Select::new_biased();
        let from_priority = select.recv(&self.priority.receiver);
        let from_alarm = select.recv(alarm);
        let from_standard = select.recv(&self.standard.receiver);
        select.recv(&self.delayed.receiver);
        let chosen = select.select_timeout(limit).ok()?;
        Some(match chosen.index() {
            i if i == from_priority => Woken::Priority(chosen.recv(&self.priority.receiver).unwrap()),
            i if i == from_alarm => Woken::Alarm(chosen.recv(alarm).unwrap()),
            i if i == from_standard => Woken::Standard(chosen.recv(&self.standard.receiver).unwrap()),
            _ => Woken::Delayed(chosen.recv(&self.delayed.receiver).unwrap()),
        })
    }

    /// `Select::select`, as above, over three channels: it does not watch for timed events.
    #[verifier::external_body]
    pub(crate) fn select_sent(&mut self, alarm: &Inlet<Instant>) -> (woken: Woken<E>)
        requires
            old(self).paired(),
            crate::channel::is_alarm(*alarm),
        ensures
            crate::channel::came_from(
                old(self).standard(),
                old(self).priority(),
                old(self).delayed(),
                *alarm,
                woken,
            ),
            !(woken is Delayed),
            final(self).same_ends(*old(self)),
            final(self).log() == old(self).log().push(
                Entry::Waited { watches: false, alarm: *alarm, limit: None, woken: Some(woken) },
            ),
    {
        let mut select = Select::new_biased();
        let from_priority = select.recv(&self.priority.receiver);
        let from_alarm = select.recv(alarm);
        select.recv(&self.standard.receiver);
        let chosen = select.select();
        match chosen.index() {
            i if i == from_priority => Woken::Priority(chosen.recv(&self.priority.receiver).unwrap()),
            i if i == from_alarm => Woken::Alarm(chosen.recv(alarm).unwrap()),
            _ => Woken::Standard(chosen.recv(&self.standard.receiver).unwrap()),
        }
    }

    /// `Select::select_timeout`, as above, over three channels: it does not watch for timed events.
    #[verifier::external_body]
    pub(crate) fn select_sent_timeout(
        &mut self,
        alarm: &Inlet<Instant>,
        limit: Duration,
    ) -> (woken: Option<Woken<E>>)
        requires
            old(self).paired(),
            crate::channel::is_alarm(*alarm),
        ensures
            woken matches Some(cause) ==> !(cause is Delayed) && crate::channel::came_from(
                old(self).standard(),
                old(self).priority(),
                old(self).delayed(),
                *alarm,
                cause,
            ),
            final(self).same_ends(*old(self)),
            final(self).log() == old(self).log().push(
                Entry::Waited { watches: false, alarm: *alarm, limit: Some(limit), woken },
            ),
    {
        let mut select = Select::new_biased();
        let from_priority = select.recv(&self.priority.receiver);
        let from_alarm = select.recv(alarm);
        select.recv(&self.standard.receiver);
        let chosen = select.select_timeout(limit).ok()?;
        Some(match chosen.index() {
            i if i == from_priority => Woken::Priority(chosen.recv(&self.priority.receiver).unwrap()),
            i if i == from_alarm => Woken::Alarm(chosen.recv(alarm).unwrap()),
            _ => Woken::Standard(chosen.recv(&self.standard.receiver).unwrap()),
        })
    }
}

} // verus!
