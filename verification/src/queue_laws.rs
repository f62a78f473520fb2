//! What holds of every call on an event queue and its senders.

use crate::channel::{Outlet, Woken};
use crate::event_laws::Source;
use crate::events::{EventQueue, EventSender, Obstacle, Unsent};
use crate::inbox::{Entry, Inbox, Watch};
use crate::ledger::{Encounter, Ledger};
use crossbeam::channel::Receiver as Inlet;
use std::time::{Duration, Instant};
use vstd::prelude::*;

verus! {

/// The events that are held for one reading of the clock, the first to arrive first.
pub open spec fn at<E>(timed: Map<u128, Seq<E>>, due: u128) -> Seq<E> {
    if timed.contains_key(due) {
        timed[due]
    } else {
        Seq::empty()
    }
}

/// Whether `due` is the least reading under which there is an entry.
pub open spec fn is_least<E>(timed: Map<u128, Seq<E>>, due: u128) -> bool {
    &&& timed.contains_key(due)
    &&& forall|other: u128| other < due ==> !#[trigger] timed.contains_key(other)
}

/// The nanoseconds from which on a count is too long for a `Duration`.
pub open spec fn too_long() -> nat {
    0x1_0000_0000_0000_0000 * 1_000_000_000
}

/// The least reading is the earliest.
proof fn lemma_least<E>(timed: Map<u128, Seq<E>>, due: u128)
    requires
        timed.dom().finite(),
    ensures
        is_least(timed, due) <==> crate::timers::earliest(timed) == Some(due),
        is_least(timed, due) <==> crate::timers::is_earliest(timed, due),
{
    crate::timers::lemma_earliest(timed);
    if is_least(timed, due) {
        let found = crate::timers::earliest(timed)->Some_0;
        assert(timed.contains_key(found));
        assert(found <= due);
    }
}

/// A drained inbox hands out timed events, which leave their channel in that order. Nothing else
/// leaves, and the question is entered once.
pub proof fn law_inbox_drains<E>(inbox: &mut Inbox<E>, arrivals: Vec<(u128, E)>)
    requires
        call_ensures(Inbox::<E>::drain, (inbox,), arrivals),
    ensures
        final(inbox)@.delayed == old(inbox)@.delayed + arrivals@,
        final(inbox)@.standard == old(inbox)@.standard,
        final(inbox)@.priority == old(inbox)@.priority,
        final(inbox)@.readings == old(inbox)@.readings,
        final(inbox)@.log == old(inbox)@.log.push(Entry::Drained(arrivals@)),
        final(inbox).same_ends(*old(inbox)),
{
}

/// An inbox that is asked for its first event with priority hands out what leaves that channel, and
/// nothing else leaves. The question is entered once.
pub proof fn law_inbox_gives_the_first<E>(inbox: &mut Inbox<E>, urgent: Option<E>)
    requires
        call_ensures(Inbox::<E>::first, (inbox,), urgent),
    ensures
        urgent matches Some(event) ==> final(inbox)@.priority == old(inbox)@.priority.push(event),
        urgent is None ==> final(inbox)@.priority == old(inbox)@.priority,
        final(inbox)@.standard == old(inbox)@.standard,
        final(inbox)@.delayed == old(inbox)@.delayed,
        final(inbox)@.readings == old(inbox)@.readings,
        final(inbox)@.log == old(inbox)@.log.push(Entry::First(urgent)),
        final(inbox).same_ends(*old(inbox)),
{
    if let Some(event) = urgent {
        assert(final(inbox)@.priority =~= old(inbox)@.priority.push(event));
    } else {
        assert(final(inbox)@.priority =~= old(inbox)@.priority);
    }
}

/// A reading of the clock is entered once, and nothing leaves.
pub proof fn law_inbox_reads_the_clock<E>(inbox: &mut Inbox<E>, now: u128)
    requires
        call_ensures(Inbox::<E>::read, (inbox,), now),
    ensures
        final(inbox)@.readings == old(inbox)@.readings.push(now),
        final(inbox)@.standard == old(inbox)@.standard,
        final(inbox)@.priority == old(inbox)@.priority,
        final(inbox)@.delayed == old(inbox)@.delayed,
        final(inbox)@.log == old(inbox)@.log.push(Entry::Read(now)),
        final(inbox).same_ends(*old(inbox)),
{
}

/// A watch enters each reading once, and goes on with the same clock.
pub proof fn law_watch_reads_the_clock<E>(watch: &mut Watch<E>, now: u128)
    requires
        call_ensures(Watch::<E>::read, (watch,), now),
    ensures
        final(watch)@.readings == old(watch)@.readings.push(now),
        final(watch).clock() == old(watch).clock(),
{
}

/// The instant that a watch, an inbox or its alarm goes by is the one so long after the start of the
/// clock as the reading counts, wherever the count fits a `Duration`; there is none otherwise.
pub proof fn law_instants_of_readings<E>(
    watch: Watch<E>,
    inbox: Inbox<E>,
    due: u128,
    watched: Option<Instant>,
    found: Option<Instant>,
    alarm: Inlet<Instant>,
    silent: Inlet<Instant>,
)
    requires
        call_ensures(Watch::<E>::instant_at, (&watch, due), watched),
        call_ensures(Inbox::<E>::instant_at, (&inbox, due), found),
        call_ensures(Inbox::<E>::alarm, (&inbox, Some(due)), alarm),
        call_ensures(Inbox::<E>::alarm, (&inbox, None), silent),
    ensures
        due < too_long() ==> {
            &&& watched == crate::clock::instant_after(watch.clock().epoch(), due)
            &&& found == crate::clock::instant_after(inbox.clock().epoch(), due)
        },
        due >= too_long() ==> watched is None && found is None,
        crate::channel::alarm_instant(alarm) == found,
        crate::channel::alarm_instant(silent) is None,
{
}

/// What ends a wait is what leaves its channel, and nothing else leaves: an event that is sent at
/// once, one with priority, or a timed one where these are watched for. The alarm brings the instant
/// that it is set to. Without a limit something ends the wait. The question is entered once, as it
/// was asked.
pub proof fn law_inbox_waits<E>(
    inbox: &mut Inbox<E>,
    watches: bool,
    alarm: Inlet<Instant>,
    limit: Option<Duration>,
    event: E,
    due: u128,
    instant: Instant,
    woken: Option<Woken<E>>,
)
    requires
        call_ensures(Inbox::<E>::wait, (inbox, watches, &alarm, limit), woken),
    ensures
        ({
            let (before, after) = (old(inbox)@, final(inbox)@);
            &&& woken == Some(Woken::Standard(event)) ==> after.standard == before.standard.push(
                event,
            )
            &&& woken == Some(Woken::Priority(event)) ==> after.priority == before.priority.push(
                event,
            )
            &&& woken == Some(Woken::Delayed((due, event))) ==> after.delayed
                == before.delayed.push((due, event)) && watches
            &&& woken == Some(Woken::<E>::Alarm(instant)) ==> crate::channel::alarm_instant(alarm)
                == Some(instant)
            &&& woken is None ==> limit is Some
            &&& !(woken matches Some(Woken::Standard(_))) ==> after.standard == before.standard
            &&& !(woken matches Some(Woken::Priority(_))) ==> after.priority == before.priority
            &&& !(woken matches Some(Woken::Delayed(_))) ==> after.delayed == before.delayed
            &&& after.readings == before.readings
            &&& after.log == before.log.push(Entry::Waited { watches, alarm, limit, woken })
        }),
        final(inbox).same_ends(*old(inbox)),
        crate::channel::is_alarm(alarm) ==> call_requires(
            Inbox::<E>::wait,
            (inbox, watches, &alarm, limit),
        ),
{
    let (before, after) = (old(inbox)@, final(inbox)@);
    assert(before.standard + Seq::<E>::empty() =~= before.standard);
    assert(before.priority + Seq::<E>::empty() =~= before.priority);
    assert(before.delayed + Seq::<(u128, E)>::empty() =~= before.delayed);
    assert(before.standard + seq![event] =~= before.standard.push(event));
    assert(before.priority + seq![event] =~= before.priority.push(event));
    assert(before.delayed + seq![(due, event)] =~= before.delayed.push((due, event)));
}

/// A fresh queue has asked for nothing and holds nothing. Its own sender sends to it: each kind of
/// event into the channel of its kind, by the same clock.
pub proof fn law_fresh_queue<E: Send + 'static>(queue: EventQueue<E>, due: u128)
    requires
        call_ensures(EventQueue::<E>::new, (), queue) || call_ensures(
            <EventQueue<E> as Default>::default,
            (),
            queue,
        ),
    ensures
        queue@.standard.len() == 0,
        queue@.priority.len() == 0,
        queue@.delayed.len() == 0,
        queue@.readings.len() == 0,
        queue@.log.len() == 0,
        !queue@.timed.contains_key(due),
        queue.standard().fed_by(queue.own_sender().standard()),
        queue.priority().fed_by(queue.own_sender().priority()),
        queue.delayed().fed_by(queue.own_sender().delayed()),
        queue.clock() == queue.own_sender().clock(),
        queue.own_sender().readings().len() == 0,
        call_ensures(Instant::now, (), queue.clock().epoch()),
{
}

/// The sender that a queue lends is its own, and what becomes of it becomes of the own sender.
/// Nothing else of the queue changes.
pub proof fn law_own_sender_is_lent<E: Send + 'static>(
    queue: &mut EventQueue<E>,
    sender: &mut EventSender<E>,
)
    requires
        call_ensures(EventQueue::<E>::sender, (queue,), sender),
    ensures
        *old(sender) == old(queue).own_sender(),
        final(queue).own_sender() == *final(sender),
        final(queue)@ == old(queue)@,
        final(queue).standard() == old(queue).standard(),
        final(queue).priority() == old(queue).priority(),
        final(queue).delayed() == old(queue).delayed(),
        final(queue).clock() == old(queue).clock(),
{
}

/// The handles of an inbox lead into the channels of their kinds, and their clones into the same. A
/// message that such a handle delivers goes into its channel, or comes back as it was.
pub proof fn law_outlets<E>(
    inbox: Inbox<E>,
    standard: Outlet<E>,
    priority: Outlet<E>,
    delayed: Outlet<(u128, E)>,
    twin: Outlet<E>,
    message: E,
    back: Option<E>,
)
    requires
        call_ensures(Inbox::<E>::standard_outlet, (&inbox,), standard),
        call_ensures(Inbox::<E>::priority_outlet, (&inbox,), priority),
        call_ensures(Inbox::<E>::delayed_outlet, (&inbox,), delayed),
        call_ensures(<Outlet<E> as Clone>::clone, (&standard,), twin),
        call_ensures(Outlet::<E>::deliver, (&twin, message), back),
    ensures
        inbox.standard().fed_by(standard.sender()),
        inbox.priority().fed_by(priority.sender()),
        inbox.delayed().fed_by(delayed.sender()),
        inbox.standard().fed_by(twin.sender()),
        back matches Some(returned) ==> returned == message,
        crate::channel::returned(twin.sender(), message, back),
        call_requires(Outlet::<E>::deliver, (&twin, message)),
{
    crate::channel::lemma_twin_feeds(inbox.standard(), standard.sender(), twin.sender());
}

/// A fresh inbox has been asked for nothing, and all watches that are made from it go by its clock.
pub proof fn law_fresh_inbox<E>(inbox: Inbox<E>, watch: Watch<E>, twin: Watch<E>)
    requires
        call_ensures(Inbox::<E>::new, (), inbox),
        call_ensures(Inbox::<E>::twin_watch, (&inbox,), watch),
        call_ensures(Watch::<E>::twin, (&watch,), twin),
    ensures
        inbox@.log.len() == 0,
        inbox@.standard.len() == 0,
        inbox@.priority.len() == 0,
        inbox@.delayed.len() == 0,
        inbox@.readings.len() == 0,
        watch.clock() == inbox.clock(),
        twin.clock() == inbox.clock(),
        watch@.readings.len() == 0,
        twin@.readings.len() == 0,
{
}

/// An alarm goes off at its deadline, and never where there is none.
pub proof fn law_alarm(
    deadline: Option<Instant>,
    alarm: Inlet<Instant>,
)
    requires
        call_ensures(crate::channel::alarm, (deadline,), alarm),
    ensures
        crate::channel::alarm_instant(alarm) == deadline,
        crate::channel::is_alarm(alarm),
{
}

/// A clone of a sender sends to the queues that the sender sends to: each kind of event into the
/// channel of its kind, by the same clock.
pub proof fn law_clone_sends_alike<E>(
    queue: EventQueue<E>,
    sender: EventSender<E>,
    twin: EventSender<E>,
)
    requires
        call_ensures(<EventSender<E> as Clone>::clone, (&sender,), twin),
        queue.standard().fed_by(sender.standard()),
        queue.priority().fed_by(sender.priority()),
        queue.delayed().fed_by(sender.delayed()),
    ensures
        queue.standard().fed_by(twin.standard()),
        queue.priority().fed_by(twin.priority()),
        queue.delayed().fed_by(twin.delayed()),
        twin.clock() == sender.clock(),
{
    crate::channel::lemma_twin_feeds(queue.standard(), sender.standard(), twin.standard());
    crate::channel::lemma_twin_feeds(queue.priority(), sender.priority(), twin.priority());
    crate::channel::lemma_twin_feeds(queue.delayed(), sender.delayed(), twin.delayed());
}

/// An event that is sent goes into the channel of the events that are sent at once, or, with
/// priority, into that of the events with priority. Where the channel does not take it, it comes
/// back as it was, because the queue is gone. Every event can be sent.
pub proof fn law_sent_events_reach_their_channel<E: Send + 'static>(
    sender: EventSender<E>,
    event: E,
    sent: Result<(), Unsent<E>>,
    urgent: Result<(), Unsent<E>>,
)
    requires
        call_ensures(EventSender::<E>::send, (&sender, event), sent),
        call_ensures(EventSender::<E>::send_with_priority, (&sender, event), urgent),
    ensures
        sent is Ok ==> crate::channel::returned(sender.standard(), event, None),
        sent matches Err(unsent) ==> unsent.0 == event && unsent.1 == Obstacle::QueueGone
            && crate::channel::returned(sender.standard(), event, Some(event)),
        urgent is Ok ==> crate::channel::returned(sender.priority(), event, None),
        urgent matches Err(unsent) ==> unsent.0 == event && unsent.1 == Obstacle::QueueGone
            && crate::channel::returned(sender.priority(), event, Some(event)),
        call_requires(EventSender::<E>::send, (&sender, event)),
        call_requires(EventSender::<E>::send_with_priority, (&sender, event)),
{
}

/// A timed event is sent exactly where its reading and its delay together fit a `Duration` and there
/// is an instant so long after the start of the clock. Then it goes into the channel of timed events,
/// due at the sum of the reading, which is taken in the call, and the delay. Otherwise it comes back
/// as it was. Every event can be sent with every delay, and nothing else of the sender changes.
pub proof fn law_timed_events_reach_their_channel<E: Send + 'static>(
    sender: &mut EventSender<E>,
    event: E,
    delay: Duration,
    sent: Result<(), Unsent<E>>,
)
    requires
        call_ensures(EventSender::<E>::send_with_timer, (sender, event, delay), sent),
    ensures
        ({
            let now = final(sender).readings().last();
            let due = now + crate::clock::duration_nanos(delay);
            let possible = due < too_long() && crate::clock::instant_after(
                old(sender).clock().epoch(),
                due as u128,
            ) is Some;
            let channel = old(sender).delayed();
            &&& final(sender).readings() == old(sender).readings().push(now)
            &&& sent is Ok ==> possible && crate::channel::returned(
                channel,
                (due as u128, event),
                None,
            )
            &&& sent matches Err(unsent) ==> {
                &&& unsent.0 == event
                &&& unsent.1 == Obstacle::DelayTooLong <==> !possible
                &&& unsent.1 == Obstacle::QueueGone <==> possible
                &&& possible ==> crate::channel::returned(
                    channel,
                    (due as u128, event),
                    Some((due as u128, event)),
                )
            }
        }),
        final(sender).standard() == old(sender).standard(),
        final(sender).priority() == old(sender).priority(),
        final(sender).delayed() == old(sender).delayed(),
        final(sender).clock() == old(sender).clock(),
        call_requires(EventSender::<E>::send_with_timer, (sender, event, delay)),
{
    assert(u128::MAX > too_long());
}

/// The reason for which an event is not sent is told by its obstacle.
pub proof fn law_reasons<E>(event: E, gone: &'static str, late: &'static str)
    requires
        call_ensures(Unsent::<E>::reason, (&Unsent(event, Obstacle::QueueGone),), gone),
        call_ensures(Unsent::<E>::reason, (&Unsent(event, Obstacle::DelayTooLong),), late),
    ensures
        gone@ == "The associated EventQueue must be alive for sending an event"@,
        late@ == "overflow when adding duration to instant"@,
{
}

/// What a queue meets in the turns of a receive accounts for what the call returns and leaves. A
/// receive can always be asked for.
pub proof fn law_calls_have_turns<E: Send + 'static>(queue: &mut EventQueue<E>, event: E)
    requires
        call_ensures(EventQueue::<E>::receive, (queue,), event),
    ensures
        exists|turns: Seq<Encounter<E>>| #[trigger]
            old(queue).received(None, turns, Some(event), *final(queue)),
        call_requires(EventQueue::<E>::receive, (queue,)),
{
}

/// The same of a receive with a timeout.
pub proof fn law_calls_with_timeout_have_turns<E: Send + 'static>(
    queue: &mut EventQueue<E>,
    timeout: Duration,
    event: Option<E>,
)
    requires
        call_ensures(EventQueue::<E>::receive_timeout, (queue, timeout), event),
    ensures
        exists|turns: Seq<Encounter<E>>| #[trigger]
            old(queue).received(Some(timeout), turns, event, *final(queue)),
        call_requires(EventQueue::<E>::receive_timeout, (queue, timeout)),
{
}

/// Whether exactly the event left between the two accounts: from the end of what waited in the
/// channel of the events that are sent at once, or of those with priority, or as the first that was
/// held for the least reading. What arrived of timed events is held for its reading, behind what was
/// held before, and all else stays. No event stands for none having left.
pub open spec fn only_left<E>(before: Ledger<E>, after: Ledger<E>, event: Option<E>) -> bool {
    let arrived = after.delayed.skip(before.delayed.len() as int);
    let held = |due: u128| at(before.timed, due) + crate::event_laws::of_reading(arrived, due);
    &&& after.delayed == before.delayed + arrived
    &&& match event {
        None => {
            &&& after.standard == before.standard
            &&& after.priority == before.priority
            &&& forall|due: u128| #[trigger] at(after.timed, due) == held(due)
        },
        Some(event) => {
            ||| {
                &&& after.standard == before.standard.push(event)
                &&& after.priority == before.priority
                &&& forall|due: u128| #[trigger] at(after.timed, due) == held(due)
            }
            ||| {
                &&& after.standard == before.standard
                &&& after.priority == before.priority.push(event)
                &&& forall|due: u128| #[trigger] at(after.timed, due) == held(due)
            }
            ||| {
                &&& after.standard == before.standard
                &&& after.priority == before.priority
                &&& exists|least: u128|
                    {
                        &&& held(least) == seq![event] + #[trigger] at(after.timed, least)
                        &&& forall|due: u128|
                            due != least ==> #[trigger] at(after.timed, due) == held(due)
                        &&& forall|due: u128| due < least ==> #[trigger] held(due).len() == 0
                    }
            }
        },
    }
}

/// What a receive does takes exactly its event out of the queue.
proof fn lemma_only_left<E>(
    before: Ledger<E>,
    turns: Seq<Encounter<E>>,
    event: Option<E>,
    after: Ledger<E>,
)
    requires
        before.delivers(turns, event, after),
        crate::timers::filled(before.timed),
        before.timed.dom().finite(),
    ensures
        only_left(before, after, event),
{
    crate::event_laws::law_only_the_event_leaves(before, turns, event, after);
    let arrived = after.delayed.skip(before.delayed.len() as int);
    let held = |due: u128| at(before.timed, due) + crate::event_laws::of_reading(arrived, due);
    let all = crate::timers::joined(before.timed, arrived);
    crate::event_laws::lemma_joined_keeps(before.timed, arrived);
    assert forall|due: u128| at(all, due) == #[trigger] held(due) by {
        crate::event_laws::law_arrivals_join(before.timed, arrived, due);
    }
    if let Some(Source::Timed(least)) = before.source(turns) {
        assert(at(all, least) =~= seq![event->Some_0] + at(after.timed, least));
        assert forall|due: u128| due != least implies #[trigger] at(after.timed, due) == held(
            due,
        ) by {
            assert(at(after.timed, due) == at(all, due));
        }
        assert forall|due: u128| due < least implies #[trigger] held(due).len() == 0 by {
            assert(at(all, due) == held(due));
        }
        assert(held(least) == seq![event->Some_0] + at(after.timed, least));
    } else {
        assert forall|due: u128| #[trigger] at(after.timed, due) == held(due) by {
            assert(at(all, due) == held(due));
        }
    }
}

/// A receive takes exactly the event out of the queue that it returns, and no other event is lost,
/// reordered or made up. Its ends stay the same.
pub proof fn law_receive_takes_one_event<E: Send + 'static>(queue: &mut EventQueue<E>, event: E)
    requires
        call_ensures(EventQueue::<E>::receive, (queue,), event),
    ensures
        only_left(old(queue)@, final(queue)@, Some(event)),
        final(queue).standard() == old(queue).standard(),
        final(queue).priority() == old(queue).priority(),
        final(queue).delayed() == old(queue).delayed(),
        final(queue).clock() == old(queue).clock(),
        final(queue).own_sender() == old(queue).own_sender(),
{
    let turns = choose|turns: Seq<Encounter<E>>| #[trigger]
        old(queue).received(None, turns, Some(event), *final(queue));
    crate::events::lemma_queue_valid(*old(queue));
    lemma_only_left(old(queue)@, turns, Some(event), final(queue)@);
}

/// A receive with a timeout takes exactly the event out of the queue that it returns, and nothing
/// where it returns none. Its ends stay the same.
pub proof fn law_receive_timeout_takes_one_event<E: Send + 'static>(
    queue: &mut EventQueue<E>,
    timeout: Duration,
    event: Option<E>,
)
    requires
        call_ensures(EventQueue::<E>::receive_timeout, (queue, timeout), event),
    ensures
        only_left(old(queue)@, final(queue)@, event),
        final(queue).standard() == old(queue).standard(),
        final(queue).priority() == old(queue).priority(),
        final(queue).delayed() == old(queue).delayed(),
        final(queue).clock() == old(queue).clock(),
        final(queue).own_sender() == old(queue).own_sender(),
{
    let turns = choose|turns: Seq<Encounter<E>>| #[trigger]
        old(queue).received(Some(timeout), turns, event, *final(queue));
    crate::events::lemma_queue_valid(*old(queue));
    lemma_only_left(old(queue)@, turns, event, final(queue)@);
}

/// A receive with a timeout returns none only once the timeout has passed: the last thing that it
/// does is to wait until its limit runs out, and that limit and the time from its first reading of
/// the clock to its last are at least the timeout together. The clock does not go back.
pub proof fn law_timeout_is_waited_out<E: Send + 'static>(
    queue: &mut EventQueue<E>,
    timeout: Duration,
)
    requires
        call_ensures(EventQueue::<E>::receive_timeout, (queue, timeout), None),
        final(queue)@.readings[old(queue)@.readings.len() as int] <= final(queue)@.readings.last(),
    ensures
        old(queue)@.readings.len() < final(queue)@.readings.len(),
        old(queue)@.log.len() < final(queue)@.log.len(),
        final(queue)@.log.last() matches Entry::Waited { limit: Some(limit), woken: None, .. }
            && crate::clock::duration_nanos(limit) + (final(queue)@.readings.last() - final(
            queue
        )@.readings[old(queue)@.readings.len() as int]) >= crate::clock::duration_nanos(timeout),
{
    let turns = choose|turns: Seq<Encounter<E>>| #[trigger]
        old(queue).received(Some(timeout), turns, None, *final(queue));
    let n = turns.len() - 1;
    let (before, after) = (old(queue)@, final(queue)@);
    crate::event_laws::law_readings_are_fresh(before, turns, None, after);
    assert(old(queue).meets(Some(timeout), turns, n));
    assert(turns.take(n) =~= turns.drop_last());
    let last = before.before(turns, n);
    assert(after == last.after(turns.last()));
    assert(last.turn(turns.last()) == crate::timers::Turn::<E>::Over(None));
    crate::event_laws::law_nothing_only_when_time_runs_out(
        *old(queue),
        Some(timeout),
        turns,
        *final(queue),
    );
    assert(after.readings[before.readings.len() as int] == turns[0].now);
    assert(after.readings.last() == turns.last().now);
    lemma_log_grows(before, turns, n);
}

/// What has been asked for is never struck out.
proof fn lemma_log_grows<E>(ledger: Ledger<E>, turns: Seq<Encounter<E>>, n: int)
    requires
        0 <= n <= turns.len(),
    ensures
        ledger.log.len() <= ledger.before(turns, n).log.len(),
    decreases n,
{
    if n == 0 {
        assert(turns.take(0) =~= Seq::empty());
    } else {
        lemma_log_grows(ledger, turns, n - 1);
        assert(turns.take(n).drop_last() =~= turns.take(n - 1));
    }
}

/// What a queue does in each turn of a receive. It asks for the timed events that have arrived, for
/// the first event with priority and for the time, in this order, and then decides:
/// - An event with priority is delivered.
/// - Otherwise the first event of the least reading is delivered, if the clock has come to it.
/// - Otherwise the queue waits, with the alarm set to the instant of the least reading, and no longer
///   than what is left of the timeout. What ends the wait is delivered, the alarm brings the event of
///   that reading, a timed event is held, and the queue looks again.
pub proof fn law_turn_by_turn<E>(
    queue: EventQueue<E>,
    timeout: Option<Duration>,
    turns: Seq<Encounter<E>>,
    event: Option<E>,
    after: EventQueue<E>,
    i: int,
    least: u128,
)
    requires
        queue.received(timeout, turns, event, after),
        0 <= i < turns.len(),
    ensures
        queue@.before(turns, 0) == queue@,
        queue@.before(turns, turns.len() as int) == after@,
        ({
            let met = turns[i];
            let is_last = i == turns.len() - 1;
            let (before, next) = (queue@.before(turns, i), queue@.before(turns, i + 1));
            let held = before.timers(met);
            let due = is_least(held, least) && least <= met.now;
            let later = is_least(held, least) && met.now < least;
            let none = forall|other: u128| !#[trigger] held.contains_key(other);
            let looked = seq![
                Entry::Drained(met.arrivals@),
                Entry::First(met.urgent),
                Entry::Read(met.now),
            ];
            &&& at(held, least) == at(before.timed, least) + crate::event_laws::of_reading(
                met.arrivals@,
                least,
            )
            &&& next.readings == before.readings.push(met.now)
            &&& met.urgent matches Some(urgent) ==> {
                &&& is_last && event == Some(urgent)
                &&& next.log == before.log + looked
                &&& next.priority == before.priority.push(urgent)
                &&& next.standard == before.standard
                &&& next.delayed == before.delayed + met.arrivals@
                &&& next.timed == held
            }
            &&& met.urgent is None && due ==> {
                &&& is_last && event == Some(held[least][0])
                &&& next.log == before.log + looked
                &&& next.priority == before.priority
                &&& next.standard == before.standard
                &&& next.delayed == before.delayed + met.arrivals@
                &&& at(held, least) == seq![held[least][0]] + at(next.timed, least)
            }
            &&& met.urgent is None && (later || none) ==> {
                &&& next.log == before.log + looked.push(
                    Entry::Waited {
                        watches: i < 0xffff_ffff_ffff_ffff,
                        alarm: met.alarm,
                        limit: met.limit,
                        woken: met.woken,
                    },
                )
                &&& match met.woken {
                    Some(Woken::Delayed(timed)) => next.delayed == (before.delayed
                        + met.arrivals@).push(timed),
                    _ => next.delayed == before.delayed + met.arrivals@,
                }
                &&& none ==> crate::channel::alarm_instant(met.alarm) is None
                &&& later && least < too_long() ==> crate::channel::alarm_instant(met.alarm)
                    == crate::clock::instant_after(queue.clock().epoch(), least)
                &&& later && least >= too_long() ==> crate::channel::alarm_instant(
                    met.alarm,
                ) is None
                &&& timeout is None ==> met.limit is None
                &&& timeout matches Some(timeout) ==> {
                    let (start, whole) = (turns[0].now, crate::clock::duration_nanos(timeout));
                    &&& met.limit matches Some(limit)
                    &&& start <= met.now && met.now - start <= whole
                        ==> crate::clock::duration_nanos(limit) + (met.now - start) == whole
                    &&& start <= met.now && met.now - start >= whole
                        ==> crate::clock::duration_nanos(limit) == 0
                    &&& met.now < start ==> crate::clock::duration_nanos(limit) == whole
                }
                &&& match met.woken {
                    Some(Woken::Standard(sent)) => {
                        &&& is_last && event == Some(sent) && next.timed == held
                        &&& next.standard == before.standard.push(sent)
                        &&& next.priority == before.priority
                    },
                    Some(Woken::Priority(sent)) => {
                        &&& is_last && event == Some(sent) && next.timed == held
                        &&& next.standard == before.standard
                        &&& next.priority == before.priority.push(sent)
                    },
                    Some(Woken::Delayed(timed)) => {
                        &&& !is_last && i < 0xffff_ffff_ffff_ffff
                        &&& at(next.timed, timed.0) == at(held, timed.0).push(timed.1)
                        &&& timed.0 != least ==> at(next.timed, least) == at(held, least)
                        &&& next.standard == before.standard && next.priority == before.priority
                    },
                    Some(Woken::Alarm(instant)) => {
                        &&& later && is_last && event == Some(held[least][0])
                        &&& crate::clock::instant_after(queue.clock().epoch(), least) == Some(
                            instant,
                        )
                        &&& at(held, least) == seq![held[least][0]] + at(next.timed, least)
                        &&& next.standard == before.standard && next.priority == before.priority
                    },
                    None => {
                        &&& is_last && event is None && timeout is Some && next.timed == held
                        &&& next.standard == before.standard && next.priority == before.priority
                    },
                }
            }
        }),
{
    let met = turns[i];
    let (before, next) = (queue@.before(turns, i), queue@.before(turns, i + 1));
    let held = before.timers(met);
    crate::events::lemma_queue_valid(queue);
    assert(turns.take(0) =~= Seq::empty());
    assert(turns.take(turns.len() as int) =~= turns);
    assert(turns.take(i + 1).drop_last() =~= turns.take(i));
    assert(next == before.after(met));
    assert(queue.meets(timeout, turns, i));
    assert(before.awaited(met));
    assert forall|k: int| 0 <= k < i implies (#[trigger] queue@.before(turns, k)).turn(turns[k])
        is Again by {}
    crate::event_laws::lemma_turns_that_look_again(queue@, turns, i);
    crate::event_laws::lemma_joined_keeps(queue@.timed, queue@.arrived(before));
    crate::event_laws::lemma_joined_keeps(before.timed, met.arrivals@);
    crate::event_laws::law_arrivals_join(before.timed, met.arrivals@, least);
    lemma_least(held, least);
    crate::timers::lemma_earliest(held);
    assert(before.standard + Seq::<E>::empty() =~= before.standard);
    assert(before.priority + Seq::<E>::empty() + Seq::<E>::empty() =~= before.priority);
    let arrived = before.delayed + met.arrivals@;
    assert(arrived + Seq::<(u128, E)>::empty() =~= arrived);
    if let Some(urgent) = met.urgent {
        assert(next.priority =~= before.priority.push(urgent));
    } else {
        match met.woken {
            Some(Woken::Standard(sent)) => {
                assert(next.standard =~= before.standard.push(sent));
            },
            Some(Woken::Priority(sent)) => {
                assert(next.priority =~= before.priority.push(sent));
            },
            Some(Woken::Delayed(timed)) => {
                assert(arrived + seq![timed] =~= arrived.push(timed));
                assert(at(next.timed, timed.0) =~= at(held, timed.0).push(timed.1));
            },
            _ => {},
        }
    }
    if is_least(held, least) {
        assert(0 < held[least].len());
        let left = crate::timers::without_first(held, least);
        assert(at(held, least) =~= seq![held[least][0]] + at(left, least));
    }
    if i < turns.len() - 1 {
        assert(before.turn(met) is Again);
    } else {
        assert(before.turn(met) == crate::timers::Turn::Over(event));
    }
}

} // verus!
