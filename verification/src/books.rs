//! What the account of an inbox says of each channel and of the clock.

use crate::channel::{alarm, Woken};
use crate::inbox::{Entry, Inbox, Watch};
use crossbeam::channel::Receiver as Inlet;
use std::time::{Duration, Instant};
use vstd::prelude::*;

verus! {

/// The message, if there is one, as a sequence.
pub open spec fn listed<T>(message: Option<T>) -> Seq<T> {
    match message {
        Some(message) => seq![message],
        None => Seq::empty(),
    }
}

/// What leaves the channel of the events that are sent at once, where `woken` ends a wait.
pub open spec fn standard_of<E>(woken: Option<Woken<E>>) -> Seq<E> {
    match woken {
        Some(Woken::Standard(event)) => seq![event],
        _ => Seq::empty(),
    }
}

/// What leaves the channel of the events that are sent with priority, where `woken` ends a wait.
pub open spec fn priority_of<E>(woken: Option<Woken<E>>) -> Seq<E> {
    match woken {
        Some(Woken::Priority(event)) => seq![event],
        _ => Seq::empty(),
    }
}

/// What leaves the channel of timed events, where `woken` ends a wait.
pub open spec fn delayed_of<E>(woken: Option<Woken<E>>) -> Seq<(u128, E)> {
    match woken {
        Some(Woken::Delayed(timed)) => seq![timed],
        _ => Seq::empty(),
    }
}

/// What has left each channel, in the order in which it left, the readings of the clock, and all
/// that has been asked for, in its order.
#[verifier::ext_equal]
pub struct Books<E> {
    pub standard: Seq<E>,
    pub priority: Seq<E>,
    pub delayed: Seq<(u128, E)>,
    pub readings: Seq<u128>,
    pub log: Seq<Entry<E>>,
}

impl<E> Books<E> {
    /// Nothing has been asked for.
    pub open spec fn empty() -> Books<E> {
        Books {
            standard: Seq::empty(),
            priority: Seq::empty(),
            delayed: Seq::empty(),
            readings: Seq::empty(),
            log: Seq::empty(),
        }
    }

    /// The books with one more entry.
    pub open spec fn with(self, entry: Entry<E>) -> Books<E> {
        let log = self.log.push(entry);
        match entry {
            Entry::Drained(arrivals) => Books { delayed: self.delayed + arrivals, log, ..self },
            Entry::First(urgent) => Books { priority: self.priority + listed(urgent), log, ..self },
            Entry::Read(now) => Books { readings: self.readings.push(now), log, ..self },
            Entry::Waited { woken, .. } => Books {
                standard: self.standard + standard_of(woken),
                priority: self.priority + priority_of(woken),
                delayed: self.delayed + delayed_of(woken),
                log,
                ..self
            },
        }
    }
}

/// The books that the entries of a log make, one after the other.
pub open spec fn books_of<E>(log: Seq<Entry<E>>) -> Books<E>
    decreases log.len(),
{
    if log.len() == 0 {
        Books::empty()
    } else {
        books_of(log.drop_last()).with(log.last())
    }
}

/// One more entry in the log is one more in the books.
pub proof fn lemma_one_more_entry<E>(log: Seq<Entry<E>>, entry: Entry<E>)
    ensures
        books_of(log.push(entry)) == books_of(log).with(entry),
{
    assert(log.push(entry).drop_last() =~= log);
}

impl<E> View for Inbox<E> {
    type V = Books<E>;

    open spec fn view(&self) -> Books<E> {
        books_of(self.log())
    }
}

impl<E> View for Watch<E> {
    type V = Books<E>;

    open spec fn view(&self) -> Books<E> {
        books_of(self.log())
    }
}

impl<E> Watch<E> {
    /// Reads the clock.
    pub fn read(&mut self) -> (now: u128)
        ensures
            final(self).clock() == old(self).clock(),
            final(self)@ == old(self)@.with(Entry::Read(now)),
    {
        let now: u128 = self.elapsed().as_nanos();
        proof {
            lemma_one_more_entry(old(self).log(), Entry::Read(now));
        }
        now
    }
}

impl<E> Inbox<E> {
    /// Takes out all timed events that have arrived, in the order in which they were sent.
    pub fn drain(&mut self) -> (arrivals: Vec<(u128, E)>)
        ensures
            old(self).delayed().all_sent(arrivals@),
            final(self).same_ends(*old(self)),
            final(self)@ == old(self)@.with(Entry::Drained(arrivals@)),
    {
        proof {
            use_type_invariant(&*self);
        }
        let arrivals = self.take_all();
        proof {
            lemma_one_more_entry(old(self).log(), Entry::Drained(arrivals@));
        }
        arrivals
    }

    /// Takes out the first event that was sent with priority, if there is one.
    pub fn first(&mut self) -> (urgent: Option<E>)
        ensures
            urgent matches Some(event) ==> old(self).priority().was_sent(event),
            final(self).same_ends(*old(self)),
            final(self)@ == old(self)@.with(Entry::First(urgent)),
    {
        proof {
            use_type_invariant(&*self);
        }
        let urgent = self.take();
        proof {
            lemma_one_more_entry(old(self).log(), Entry::First(urgent));
        }
        urgent
    }

    /// Reads the clock.
    pub fn read(&mut self) -> (now: u128)
        ensures
            final(self).same_ends(*old(self)),
            final(self)@ == old(self)@.with(Entry::Read(now)),
    {
        let now: u128 = self.elapsed().as_nanos();
        proof {
            lemma_one_more_entry(old(self).log(), Entry::Read(now));
        }
        now
    }

    /// Makes an alarm that goes off when the clock shows `due`, or never where there is no such
    /// instant.
    pub fn alarm(&self, due: Option<u128>) -> (alarm: Inlet<Instant>)
        ensures
            crate::channel::alarm_instant(alarm) == match due {
                Some(due) => self.clock().instant(due),
                None => None,
            },
            crate::channel::is_alarm(alarm),
    {
        match due {
            Some(due) => alarm(self.instant_at(due)),
            None => alarm(None),
        }
    }

    /// Blocks until an event comes or the alarm goes off, but no longer than `limit`. Timed events
    /// are watched for only where `watches` says so.
    pub fn wait(
        &mut self,
        watches: bool,
        alarm: &Inlet<Instant>,
        limit: Option<Duration>,
    ) -> (woken: Option<Woken<E>>)
        requires
            crate::channel::is_alarm(*alarm),
        ensures
            woken matches Some(cause) ==> crate::channel::came_from(
                old(self).standard(),
                old(self).priority(),
                old(self).delayed(),
                *alarm,
                cause,
            ),
            woken matches Some(cause) ==> cause is Delayed ==> watches,
            limit is None ==> woken is Some,
            final(self).same_ends(*old(self)),
            final(self)@ == old(self)@.with(
                Entry::Waited { watches, alarm: *alarm, limit, woken },
            ),
    {
        proof {
            use_type_invariant(&*self);
        }
        let woken = match limit {
            None => Some(
                if watches {
                    self.select(alarm)
                } else {
                    self.select_sent(alarm)
                },
            ),
            Some(limit) => if watches {
                self.select_timeout(alarm, limit)
            } else {
                self.select_sent_timeout(alarm, limit)
            },
        };
        proof {
            lemma_one_more_entry(
                old(self).log(),
                Entry::Waited { watches, alarm: *alarm, limit, woken },
            );
        }
        woken
    }
}

} // verus!
