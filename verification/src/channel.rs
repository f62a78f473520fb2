//! The channels through which events reach a queue.

use crossbeam::channel::{Receiver as Inlet, Sender};
use std::time::Instant;
use vstd::prelude::*;

verus! {

/// `crossbeam::channel::Sender`, the sending side of a channel.
#[verifier::external_type_specification]
#[verifier::external_body]
#[verifier::reject_recursive_types(T)]
pub struct ExSender<T>(crossbeam::channel::Sender<T>);

/// `crossbeam::channel::Receiver`, the receiving side of a channel.
#[verifier::external_type_specification]
#[verifier::external_body]
#[verifier::reject_recursive_types(T)]
pub struct ExReceiver<T>(Inlet<T>);

/// `crossbeam::channel::unbounded` makes a channel of unlimited capacity. Nothing is claimed of
/// the two sides.
pub assume_specification<T>[ crossbeam::channel::unbounded::<T> ]() -> (sides: (
    Sender<T>,
    Inlet<T>,
))
;

/// `Sender::clone` makes another sending side of the same channel. Nothing is claimed of it.
pub assume_specification<T>[ <Sender<T> as Clone>::clone ](sender: &Sender<T>) -> (twin: Sender<T>)
;

/// The instant at which an alarm channel delivers its message, if it ever delivers one. The
/// message is that instant.
pub uninterp spec fn alarm_instant(alarm: Inlet<Instant>) -> Option<Instant>;

/// What ended a wait for events.
#[derive(Debug, PartialEq, Eq)]
pub enum Woken<E> {
    /// An event that was sent without priority.
    Standard(E),
    /// An event that was sent with priority.
    Priority(E),
    /// A timed event, with the reading of the clock at which it is due.
    Delayed((u128, E)),
    /// The alarm, with the instant at which it went off.
    Alarm(Instant),
}

/// Both sides of one channel. Neither side leaves the pair, so the channel is never disconnected
/// while the pair lives.
#[verifier::reject_recursive_types(T)]
pub struct Channel<T> {
    sender: Sender<T>,
    pub(crate) receiver: Inlet<T>,
}

impl<T> Channel<T> {
    /// Whether the two sides belong together: they are a pair that `unbounded` can make.
    #[verifier::type_invariant]
    pub closed spec fn paired(self) -> bool {
        call_ensures(crossbeam::channel::unbounded::<T>, (), (self.sender, self.receiver))
    }

    /// Whether what `sender` sends goes into the channel: it is a clone of the sending side,
    /// directly or through other clones.
    pub closed spec fn fed_by(&self, sender: Sender<T>) -> bool {
        exists|generations: nat| #[trigger] descends(self.sender, sender, generations)
    }

    /// Whether `message` can have been sent: there is a sender that feeds the channel and through
    /// which the channel can take it.
    pub open spec fn was_sent(&self, message: T) -> bool {
        exists|sender: Sender<T>| #[trigger]
            self.fed_by(sender) && returned(sender, message, None)
    }

    /// Whether all the messages can have been sent.
    pub open spec fn all_sent(&self, messages: Seq<T>) -> bool {
        forall|i: int| 0 <= i < messages.len() ==> self.was_sent(#[trigger] messages[i])
    }

    /// Makes an empty channel.
    pub(crate) fn new() -> (channel: Channel<T>)
        ensures
            channel.paired(),
    {
        let (sender, receiver) = crossbeam::channel::unbounded::<T>();
        Channel { sender, receiver }
    }

    /// Makes a handle through which messages reach the channel.
    pub(crate) fn handle(&self) -> (outlet: Outlet<T>)
        ensures
            self.fed_by(outlet.sender()),
    {
        let sender = self.sender.clone();
        proof {
            use_type_invariant(self);
            reveal_with_fuel(descends, 2);
            assert(twins(self.sender, sender));
            assert(descends(self.sender, sender, 1));
            assert(self.fed_by(sender));
        }
        Outlet { sender }
    }
}

/// Whether `twin` is what `sender` can be cloned to, so that both send into the same channel.
pub open spec fn twins<T>(sender: Sender<T>, twin: Sender<T>) -> bool {
    call_ensures(<Sender<T> as Clone>::clone, (&sender,), twin)
}

/// Whether `sender` is a clone of `first` through so many generations of clones.
pub open spec fn descends<T>(first: Sender<T>, sender: Sender<T>, generations: nat) -> bool
    decreases generations,
{
    if generations == 0 {
        sender == first
    } else {
        exists|parent: Sender<T>| #[trigger]
            twins(parent, sender) && descends(first, parent, (generations - 1) as nat)
    }
}

/// A channel is fed by the clones of what it is fed by.
pub proof fn lemma_twin_feeds<T>(channel: Channel<T>, sender: Sender<T>, twin: Sender<T>)
    requires
        channel.fed_by(sender),
        twins(sender, twin),
    ensures
        channel.fed_by(twin),
{
    let generations = choose|generations: nat| #[trigger]
        descends(channel.sender, sender, generations);
    assert(descends(channel.sender, twin, generations + 1));
}

/// Whether `sender` belongs to a channel that `unbounded` makes, one of unlimited capacity.
pub open spec fn unlimited<T>(sender: Sender<T>) -> bool {
    exists|channel: Channel<T>| channel.paired() && #[trigger] channel.fed_by(sender)
}

/// The clones of a sender with a channel of unlimited capacity have one, too.
pub proof fn lemma_twin_unlimited<T>(sender: Sender<T>, twin: Sender<T>)
    requires
        unlimited(sender),
        twins(sender, twin),
    ensures
        unlimited(twin),
{
    let channel = choose|channel: Channel<T>|
        channel.paired() && #[trigger] channel.fed_by(sender);
    lemma_twin_feeds(channel, sender, twin);
}

/// Whether `back` can come back when `message` is put into the channel of `sender`: nothing where
/// the channel takes the message.
pub closed spec fn returned<T>(sender: Sender<T>, message: T, back: Option<T>) -> bool {
    call_ensures(put::<T>, (&sender, message), back)
}

/// Whether what woke a queue came out of one of the four channels: an event that can have been
/// sent into the channel of its kind, or the message of the alarm.
pub open spec fn came_from<E>(
    standard: Channel<E>,
    priority: Channel<E>,
    delayed: Channel<(u128, E)>,
    alarm: Inlet<Instant>,
    woken: Woken<E>,
) -> bool {
    match woken {
        Woken::Standard(event) => standard.was_sent(event),
        Woken::Priority(event) => priority.was_sent(event),
        Woken::Delayed(timed) => delayed.was_sent(timed),
        Woken::Alarm(instant) => alarm_instant(alarm) == Some(instant),
    }
}

/// Whether `alarm` is set to `deadline`: it is one that `at` makes for that instant, or `never`.
pub closed spec fn set_to(alarm: Inlet<Instant>, deadline: Option<Instant>) -> bool {
    match deadline {
        Some(instant) => call_ensures(at, (instant,), alarm),
        None => call_ensures(never, (), alarm),
    }
}

/// Whether the channel is an alarm.
pub open spec fn is_alarm(alarm: Inlet<Instant>) -> bool {
    exists|deadline: Option<Instant>| #[trigger] set_to(alarm, deadline)
}

/// `Sender::send` puts a message into a channel of unlimited capacity. It fails only when the
/// receiving side is gone, and then it hands the message back.
#[verifier::external_body]
fn put<T>(sender: &Sender<T>, message: T) -> (back: Option<T>)
    requires
        unlimited(*sender),
    ensures
        back is Some ==> back == Some(message),
{
    sender.send(message).err().map(|error| error.0)
}

/// `crossbeam::channel::at` makes a channel that delivers one message, at the given instant and
/// never before. The message is that instant.
#[verifier::external_body]
fn at(deadline: Instant) -> (alarm: Inlet<Instant>)
    ensures
        alarm_instant(alarm) == Some(deadline),
{
    crossbeam::channel::at(deadline)
}

/// `crossbeam::channel::never` makes a channel that delivers no message.
#[verifier::external_body]
fn never() -> (alarm: Inlet<Instant>)
    ensures
        alarm_instant(alarm) is None,
{
    crossbeam::channel::never()
}

/// A handle through which messages reach a channel.
#[verifier::reject_recursive_types(T)]
pub struct Outlet<T> {
    sender: Sender<T>,
}

impl<T> Outlet<T> {
    /// Whether the channel is one of unlimited capacity.
    #[verifier::type_invariant]
    pub closed spec fn endless(self) -> bool {
        unlimited(self.sender)
    }

    /// The sending side of the channel.
    pub closed spec fn sender(&self) -> Sender<T> {
        self.sender
    }

    /// Puts a message into the channel. A message that nobody can receive any more is handed back.
    pub fn deliver(&self, message: T) -> (back: Option<T>)
        ensures
            returned(self.sender(), message, back),
            back is Some ==> back == Some(message),
    {
        proof {
            use_type_invariant(self);
        }
        put(&self.sender, message)
    }
}

impl<T> Clone for Outlet<T> {
    fn clone(&self) -> (twin: Self)
        ensures
            twins(self.sender(), twin.sender()),
    {
        let sender = self.sender.clone();
        proof {
            use_type_invariant(self);
            lemma_twin_unlimited(self.sender, sender);
        }
        Outlet { sender }
    }
}

/// Makes an alarm that goes off at `deadline`, or never where there is none.
pub fn alarm(deadline: Option<Instant>) -> (alarm: Inlet<Instant>)
    ensures
        set_to(alarm, deadline),
        alarm_instant(alarm) == deadline,
{
    match deadline {
        Some(instant) => at(instant),
        None => never(),
    }
}

} // verus!
