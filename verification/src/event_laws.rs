//! What holds of an event queue as a whole.

use crate::channel::Woken;
use crate::events::{EventQueue, EventSender};
use crate::ledger::{Encounter, Ledger};
use crate::timers::{Choice, Turn};
use std::time::Duration;
use vstd::prelude::*;

verus! {

/// Where an event comes from that a queue delivers.
pub enum Source {
    /// The channel of the events that are sent at once.
    Standard,
    /// The channel of the events that are sent with priority.
    Priority,
    /// The timed events that are due at this reading of the clock.
    Timed(u128),
}

impl<E> Ledger<E> {
    /// Where the event of a receive of these turns comes from, if it delivers one.
    pub open spec fn source(self, turns: Seq<Encounter<E>>) -> Option<Source> {
        let met = turns.last();
        let timers = self.before(turns, turns.len() - 1).timers(met);
        match (met.urgent, crate::timers::earliest(timers), met.woken) {
            (Some(_), _, _) => Some(Source::Priority),
            (None, Some(due), _) if due <= met.now => Some(Source::Timed(due)),
            (None, Some(due), Some(Woken::Alarm(_))) => Some(Source::Timed(due)),
            (None, _, Some(Woken::Standard(_))) => Some(Source::Standard),
            (None, _, Some(Woken::Priority(_))) => Some(Source::Priority),
            _ => None,
        }
    }

    /// What has left the channel of the given source. Timed events have no channel of their own for
    /// each reading.
    pub open spec fn left_from(self, source: Source) -> Seq<E> {
        match source {
            Source::Standard => self.standard,
            Source::Priority => self.priority,
            Source::Timed(_) => Seq::empty(),
        }
    }

    /// The timed events that left their channel between these accounts and the later ones.
    pub open spec fn arrived(self, later: Ledger<E>) -> Seq<(u128, E)> {
        later.delayed.skip(self.delayed.len() as int)
    }
}

/// The events of `timed` that are due at the given reading of the clock, in their order.
pub open spec fn of_reading<E>(timed: Seq<(u128, E)>, due: u128) -> Seq<E>
    decreases timed.len(),
{
    if timed.len() == 0 {
        Seq::empty()
    } else {
        let earlier = of_reading(timed.drop_last(), due);
        if timed.last().0 == due {
            earlier.push(timed.last().1)
        } else {
            earlier
        }
    }
}

/// Events that join one group after the other join one after the other.
proof fn lemma_joined_twice<E>(
    timers: Map<u128, Seq<E>>,
    first: Seq<(u128, E)>,
    second: Seq<(u128, E)>,
)
    ensures
        crate::timers::joined(crate::timers::joined(timers, first), second)
            == crate::timers::joined(timers, first + second),
    decreases second.len(),
{
    if second.len() == 0 {
        assert(first + second =~= first);
    } else {
        lemma_joined_twice(timers, first, second.drop_last());
        assert((first + second).drop_last() =~= first + second.drop_last());
    }
}

/// Joining leaves an event for every reading of the clock that has an entry, and finitely many
/// readings.
pub proof fn lemma_joined_keeps<E>(timers: Map<u128, Seq<E>>, arrivals: Seq<(u128, E)>)
    ensures
        crate::timers::filled(timers) ==> crate::timers::filled(
            crate::timers::joined(timers, arrivals),
        ),
        timers.dom().finite() ==> crate::timers::joined(timers, arrivals).dom().finite(),
    decreases arrivals.len(),
{
    if 0 < arrivals.len() {
        lemma_joined_keeps(timers, arrivals.drop_last());
    }
}

/// Every timed event that arrives is held, after those that are due at the same reading of the
/// clock and before those that arrive later. Nothing else is held than before.
pub proof fn law_arrivals_join<E>(
    timers: Map<u128, Seq<E>>,
    arrivals: Seq<(u128, E)>,
    due: u128,
)
    ensures
        crate::timers::row(crate::timers::joined(timers, arrivals), due) == crate::timers::row(
            timers,
            due,
        ) + of_reading(arrivals, due),
    decreases arrivals.len(),
{
    if 0 < arrivals.len() {
        law_arrivals_join(timers, arrivals.drop_last(), due);
        assert(crate::timers::row(crate::timers::joined(timers, arrivals), due)
            =~= crate::timers::row(timers, due) + of_reading(arrivals, due));
    } else {
        assert(crate::timers::row(timers, due) + of_reading(arrivals, due) =~= crate::timers::row(
            timers,
            due,
        ));
    }
}

/// What the turns before the last do to the accounts: timed events are taken over, and that is all.
pub proof fn lemma_turns_that_look_again<E>(ledger: Ledger<E>, turns: Seq<Encounter<E>>, n: int)
    requires
        0 <= n <= turns.len(),
        forall|i: int|
            0 <= i < n ==> (#[trigger] ledger.before(turns, i)).turn(turns[i]) is Again,
    ensures
        ({
            let later = ledger.before(turns, n);
            &&& later.standard == ledger.standard
            &&& later.priority == ledger.priority
            &&& later.delayed == ledger.delayed + ledger.arrived(later)
            &&& later.timed == crate::timers::joined(ledger.timed, ledger.arrived(later))
        }),
    decreases n,
{
    let later = ledger.before(turns, n);
    if n == 0 {
        assert(turns.take(0) =~= Seq::empty());
        assert(ledger.arrived(later) =~= Seq::empty());
        assert(ledger.delayed + ledger.arrived(later) =~= ledger.delayed);
    } else {
        lemma_turns_that_look_again(ledger, turns, n - 1);
        let before = ledger.before(turns, n - 1);
        let met = turns[n - 1];
        assert(turns.take(n).drop_last() =~= turns.take(n - 1));
        assert(turns.take(n).last() == met);
        assert(later == before.after(met));
        assert(before.turn(met) is Again);
        assert(later.standard =~= ledger.standard);
        assert(later.priority =~= ledger.priority);
        let more = met.arrivals@ + crate::books::delayed_of(met.woken);
        assert(later.delayed =~= before.delayed + more);
        lemma_joined_turn(before, met, before.choice(met)->Wait_0);
        assert(ledger.arrived(later) =~= ledger.arrived(before) + more);
        assert(later.delayed =~= ledger.delayed + ledger.arrived(later));
        lemma_joined_twice(ledger.timed, ledger.arrived(before), more);
    }
}

/// The timed events after a wait that no alarm ended are those from before with all that arrived in
/// the turn.
proof fn lemma_joined_turn<E>(ledger: Ledger<E>, met: Encounter<E>, due: Option<u128>)
    requires
        met.woken matches Some(woken) ==> woken is Alarm ==> due is None,
    ensures
        crate::timers::left_by_wait(ledger.timers(met), due, met.woken) == crate::timers::joined(
            ledger.timed,
            met.arrivals@ + crate::books::delayed_of(met.woken),
        ),
{
    let last = crate::books::delayed_of(met.woken);
    lemma_joined_twice(ledger.timed, met.arrivals@, last);
    if let Some(Woken::Delayed(timed)) = met.woken {
        assert(last.drop_last() =~= Seq::empty());
        assert(crate::timers::joined(ledger.timers(met), last.drop_last()) == ledger.timers(met));
    }
}

/// A receive takes exactly the event out of the queue that it delivers, from the front of where the
/// event waited. All else stays: no other event leaves the channels of the events that are sent at
/// once and with priority, and what leaves that of timed events is held back. A receive that
/// delivers nothing loses nothing.
pub proof fn law_only_the_event_leaves<E>(
    ledger: Ledger<E>,
    turns: Seq<Encounter<E>>,
    event: Option<E>,
    after: Ledger<E>,
)
    requires
        ledger.delivers(turns, event, after),
    ensures
        after.delayed == ledger.delayed + ledger.arrived(after),
        ({
            let held = crate::timers::joined(ledger.timed, ledger.arrived(after));
            match ledger.source(turns) {
                Some(Source::Standard) => event matches Some(given) && after.standard
                    == ledger.standard.push(given) && after.priority == ledger.priority
                    && after.timed == held,
                Some(Source::Priority) => event matches Some(given) && after.standard
                    == ledger.standard && after.priority == ledger.priority.push(given)
                    && after.timed == held,
                Some(Source::Timed(due)) => event == Some(held[due][0]) && after.standard
                    == ledger.standard && after.priority == ledger.priority && after.timed
                    == crate::timers::without_first(held, due) && crate::timers::is_earliest(
                    held,
                    due,
                ),
                None => event is None && after.standard == ledger.standard && after.priority
                    == ledger.priority && after.timed == held,
            }
        }),
{
    let n = turns.len() - 1;
    let before = ledger.before(turns, n);
    let met = turns.last();
    lemma_turns_that_look_again(ledger, turns, n);
    assert(turns.take(n) =~= turns.drop_last());
    assert(after == before.after(met));
    assert(before.awaited(met));
    let more = met.arrivals@ + crate::books::delayed_of(met.woken);
    assert(after.delayed =~= before.delayed + more);
    assert(ledger.arrived(after) =~= ledger.arrived(before) + more);
    assert(after.delayed =~= ledger.delayed + ledger.arrived(after));
    lemma_joined_twice(ledger.timed, ledger.arrived(before), more);
    if before.choice(met) is Deliver || met.woken is Some && met.woken->Some_0 is Alarm {
        assert(more =~= met.arrivals@);
    } else {
        lemma_joined_turn(before, met, before.choice(met)->Wait_0);
    }
    if let Some(given) = event {
        assert(ledger.standard + seq![given] =~= ledger.standard.push(given));
        assert(ledger.priority + seq![given] =~= ledger.priority.push(given));
    }
    assert(before.standard + Seq::<E>::empty() =~= ledger.standard);
    assert(before.priority + Seq::<E>::empty() + Seq::<E>::empty() =~= ledger.priority);
    assert(after.priority =~= ledger.priority + (crate::books::listed(met.urgent)
        + crate::books::priority_of(met.woken)));
    if let Some(Source::Timed(due)) = ledger.source(turns) {
        assert(crate::timers::is_earliest(before.timers(met), due));
    }
    if met.urgent is Some || met.woken is Some && met.woken->Some_0 is Priority {
        assert(crate::books::listed(met.urgent) + crate::books::priority_of(met.woken) =~= seq![
            event->Some_0,
        ]);
    } else {
        assert(crate::books::listed(met.urgent) + crate::books::priority_of(met.woken)
            =~= Seq::<E>::empty());
    }
}

/// One receive: what the queue met in its turns, and the event that it delivered.
#[verifier::reject_recursive_types(E)]
pub struct Receipt<E> {
    pub turns: Seq<Encounter<E>>,
    pub event: Option<E>,
}

/// Whether the receives follow one another, with the accounts of the queue before the first and
/// after each of them.
pub open spec fn successive<E>(ledgers: Seq<Ledger<E>>, receipts: Seq<Receipt<E>>) -> bool {
    &&& ledgers.len() == receipts.len() + 1
    &&& forall|i: int|
        0 <= i < receipts.len() ==> ledgers[i].delivers(
            (#[trigger] receipts[i]).turns,
            receipts[i].event,
            ledgers[i + 1],
        )
}

/// The events from one source that the receives deliver, in the order of the receives.
pub open spec fn delivered_from<E>(
    ledgers: Seq<Ledger<E>>,
    receipts: Seq<Receipt<E>>,
    source: Source,
) -> Seq<E>
    decreases receipts.len(),
{
    if receipts.len() == 0 {
        Seq::empty()
    } else {
        let last = receipts.last();
        let earlier = delivered_from(ledgers.drop_last(), receipts.drop_last(), source);
        if ledgers[receipts.len() - 1].source(last.turns) == Some(source) {
            earlier + crate::books::listed(last.event)
        } else {
            earlier
        }
    }
}

/// The receives before the last follow one another, too.
proof fn lemma_successive<E>(ledgers: Seq<Ledger<E>>, receipts: Seq<Receipt<E>>)
    requires
        successive(ledgers, receipts),
        0 < receipts.len(),
    ensures
        successive(ledgers.drop_last(), receipts.drop_last()),
        ledgers.drop_last().last() == ledgers[receipts.len() - 1],
        ledgers.drop_last()[0] == ledgers[0],
        ledgers[receipts.len() - 1].delivers(
            receipts.last().turns,
            receipts.last().event,
            ledgers.last(),
        ),
{
    assert(receipts.last() == receipts[receipts.len() - 1]);
    let (less, fewer) = (ledgers.drop_last(), receipts.drop_last());
    assert forall|i: int| 0 <= i < fewer.len() implies less[i].delivers(
        (#[trigger] fewer[i]).turns,
        fewer[i].event,
        less[i + 1],
    ) by {
        assert(fewer[i] == receipts[i]);
    }
}

/// No event is lost, none comes twice and none comes from nowhere, whatever is sent meanwhile. Over
/// successive receives, the events that are delivered from a channel are those that leave it, in
/// the order in which they leave.
pub proof fn law_channels_are_delivered_in_order<E>(
    ledgers: Seq<Ledger<E>>,
    receipts: Seq<Receipt<E>>,
)
    requires
        successive(ledgers, receipts),
    ensures
        ledgers.last().standard == ledgers[0].standard + delivered_from(
            ledgers,
            receipts,
            Source::Standard,
        ),
        ledgers.last().priority == ledgers[0].priority + delivered_from(
            ledgers,
            receipts,
            Source::Priority,
        ),
    decreases receipts.len(),
{
    let standard = delivered_from(ledgers, receipts, Source::Standard);
    let priority = delivered_from(ledgers, receipts, Source::Priority);
    if 0 < receipts.len() {
        lemma_successive(ledgers, receipts);
        law_channels_are_delivered_in_order(ledgers.drop_last(), receipts.drop_last());
        let last = receipts.last();
        law_only_the_event_leaves(
            ledgers[receipts.len() - 1],
            last.turns,
            last.event,
            ledgers.last(),
        );
    }
    assert(ledgers.last().standard =~= ledgers[0].standard + standard);
    assert(ledgers.last().priority =~= ledgers[0].priority + priority);
}

/// Timed events are not lost either. Over successive receives, of the events that are due at one
/// reading of the clock, those that were held before and those that arrive are those that are
/// delivered and those that are still held, in that order.
pub proof fn law_timed_events_are_delivered_in_order<E>(
    ledgers: Seq<Ledger<E>>,
    receipts: Seq<Receipt<E>>,
    due: u128,
)
    requires
        successive(ledgers, receipts),
        crate::timers::filled(ledgers[0].timed),
    ensures
        ledgers.last().delayed == ledgers[0].delayed + ledgers[0].arrived(ledgers.last()),
        crate::timers::filled(ledgers.last().timed),
        crate::timers::row(ledgers[0].timed, due) + of_reading(
            ledgers[0].arrived(ledgers.last()),
            due,
        ) == delivered_from(ledgers, receipts, Source::Timed(due)) + crate::timers::row(
            ledgers.last().timed,
            due,
        ),
    decreases receipts.len(),
{
    let first = ledgers[0];
    let after = ledgers.last();
    let given = delivered_from(ledgers, receipts, Source::Timed(due));
    if receipts.len() == 0 {
        assert(first.arrived(after) =~= Seq::empty());
        assert(first.delayed + first.arrived(after) =~= first.delayed);
        assert(crate::timers::row(first.timed, due) + of_reading(first.arrived(after), due)
            =~= given + crate::timers::row(after.timed, due));
    } else {
        lemma_successive(ledgers, receipts);
        law_timed_events_are_delivered_in_order(ledgers.drop_last(), receipts.drop_last(), due);
        let before = ledgers[receipts.len() - 1];
        let last = receipts.last();
        law_only_the_event_leaves(before, last.turns, last.event, after);
        assert(first.arrived(after) =~= first.arrived(before) + before.arrived(after));
        assert(after.delayed =~= first.delayed + first.arrived(after));
        lemma_of_reading_both(first.arrived(before), before.arrived(after), due);
        law_arrivals_join(before.timed, before.arrived(after), due);
        lemma_joined_keeps(before.timed, before.arrived(after));
        let held = crate::timers::joined(before.timed, before.arrived(after));
        let earlier = delivered_from(ledgers.drop_last(), receipts.drop_last(), Source::Timed(due));
        let row = crate::timers::row(after.timed, due);
        if let Some(Source::Timed(other)) = before.source(last.turns) {
            lemma_without_first(held, other);
            if other == due {
                assert(crate::timers::row(held, due) =~= seq![held[due][0]] + row);
                assert(given == earlier + seq![held[due][0]]);
                assert(earlier + (seq![held[due][0]] + row) =~= given + row);
            } else {
                assert(crate::timers::row(held, due) == row);
                assert(given == earlier);
            }
        } else {
            assert(crate::timers::row(held, due) == row);
            assert(given == earlier);
        }
        assert(earlier + crate::timers::row(held, due) == given + row);
        assert(crate::timers::row(first.timed, due) + of_reading(first.arrived(after), due) =~= (
        crate::timers::row(first.timed, due) + of_reading(first.arrived(before), due)) + of_reading(
            before.arrived(after),
            due,
        ));
        assert((earlier + crate::timers::row(before.timed, due)) + of_reading(
            before.arrived(after),
            due,
        ) =~= earlier + crate::timers::row(held, due));
    }
}

/// Taking out the first of the events that are due at one reading of the clock leaves the others,
/// and those of the other readings.
proof fn lemma_without_first<E>(timers: Map<u128, Seq<E>>, due: u128)
    requires
        crate::timers::filled(timers),
        timers.contains_key(due),
    ensures
        crate::timers::filled(crate::timers::without_first(timers, due)),
        crate::timers::row(crate::timers::without_first(timers, due), due)
            == timers[due].drop_first(),
        forall|other: u128|
            other != due ==> #[trigger] crate::timers::row(
                crate::timers::without_first(timers, due),
                other,
            ) == crate::timers::row(timers, other),
{
    assert(crate::timers::row(crate::timers::without_first(timers, due), due)
        =~= timers[due].drop_first());
}

/// The events of one reading among two groups are those of the first and then those of the second.
proof fn lemma_of_reading_both<E>(first: Seq<(u128, E)>, second: Seq<(u128, E)>, due: u128)
    ensures
        of_reading(first + second, due) == of_reading(first, due) + of_reading(second, due),
    decreases second.len(),
{
    if second.len() == 0 {
        assert(first + second =~= first);
    } else {
        lemma_of_reading_both(first, second.drop_last(), due);
        assert((first + second).drop_last() =~= first + second.drop_last());
    }
    assert(of_reading(first + second, due) =~= of_reading(first, due) + of_reading(second, due));
}

/// What has left a channel only grows over successive receives.
proof fn lemma_accounts_grow<E>(
    ledgers: Seq<Ledger<E>>,
    receipts: Seq<Receipt<E>>,
    source: Source,
    i: int,
    j: int,
)
    requires
        successive(ledgers, receipts),
        0 <= i <= j < ledgers.len(),
    ensures
        ledgers[i].left_from(source).is_prefix_of(ledgers[j].left_from(source)),
    decreases j - i,
{
    if i < j {
        lemma_accounts_grow(ledgers, receipts, source, i, j - 1);
        let last = receipts[j - 1];
        law_only_the_event_leaves(ledgers[j - 1], last.turns, last.event, ledgers[j]);
    }
}

/// Each event that leaves a channel is delivered by the receive in which it leaves.
proof fn lemma_delivery<E>(
    ledgers: Seq<Ledger<E>>,
    receipts: Seq<Receipt<E>>,
    source: Source,
    k: int,
) -> (at: int)
    requires
        successive(ledgers, receipts),
        ledgers[0].left_from(source).len() <= k < ledgers.last().left_from(source).len(),
    ensures
        0 <= at < receipts.len(),
        ledgers[at].left_from(source).len() == k,
        ledgers[at + 1].left_from(source).len() == k + 1,
        ledgers[at].source(receipts[at].turns) == Some(source),
        receipts[at].event == Some(ledgers.last().left_from(source)[k]),
    decreases receipts.len(),
{
    let n = receipts.len() - 1;
    lemma_successive(ledgers, receipts);
    let last = receipts.last();
    law_only_the_event_leaves(ledgers[n], last.turns, last.event, ledgers.last());
    if k < ledgers[n].left_from(source).len() {
        let at = lemma_delivery(ledgers.drop_last(), receipts.drop_last(), source, k);
        assert(receipts.drop_last()[at] == receipts[at]);
        assert(ledgers.drop_last()[at + 1] == ledgers[at + 1]);
        at
    } else {
        n
    }
}

/// Events of one kind keep their order of arrival, however the kinds are interleaved and whatever
/// is sent meanwhile. Where `sent` is all that is sent into a channel, which hands out first what
/// was sent first, an event of it is delivered before every later one. The law gives the two
/// receives.
pub proof fn law_order_of_arrival<E>(
    ledgers: Seq<Ledger<E>>,
    receipts: Seq<Receipt<E>>,
    source: Source,
    sent: Seq<E>,
    i: int,
    j: int,
) -> (order: (int, int))
    requires
        successive(ledgers, receipts),
        ledgers.last().left_from(source).is_prefix_of(sent),
        ledgers[0].left_from(source).len() <= i < j < ledgers.last().left_from(source).len(),
    ensures
        0 <= order.0 < order.1 < receipts.len(),
        receipts[order.0].event == Some(sent[i]),
        receipts[order.1].event == Some(sent[j]),
        ledgers[order.0].source(receipts[order.0].turns) == Some(source),
        ledgers[order.1].source(receipts[order.1].turns) == Some(source),
{
    let first = lemma_delivery(ledgers, receipts, source, i);
    let second = lemma_delivery(ledgers, receipts, source, j);
    if second <= first {
        lemma_accounts_grow(ledgers, receipts, source, second, first);
    }
    (first, second)
}

/// The first element, if there is one.
pub open spec fn head<T>(items: Seq<T>) -> Option<T> {
    if items.len() == 0 {
        None
    } else {
        Some(items[0])
    }
}

/// The timed events that are due by `now`, with their readings: the earliest first, and those of
/// one reading in the order in which they arrived.
pub open spec fn due_in_order<E>(timers: Map<u128, Seq<E>>, now: u128) -> Seq<(u128, E)>
    decreases timers.dom().len(),
    when timers.dom().finite()
{
    match crate::timers::earliest(timers) {
        Some(due) if due <= now && timers.contains_key(due) => timers[due].map_values(
            |event: E| (due, event),
        ) + due_in_order(timers.remove(due), now),
        _ => Seq::empty(),
    }
}

/// The events of `timers` that are due by `now`, in that order.
pub open spec fn due_events<E>(timers: Map<u128, Seq<E>>, now: u128) -> Seq<E> {
    due_in_order(timers, now).map_values(|timed: (u128, E)| timed.1)
}

/// The events of one reading among events that are all of one reading.
proof fn lemma_of_one_reading<E>(events: Seq<E>, due: u128, other: u128)
    ensures
        of_reading(events.map_values(|event: E| (due, event)), other) == if due == other {
            events
        } else {
            Seq::empty()
        },
    decreases events.len(),
{
    let timed = events.map_values(|event: E| (due, event));
    if 0 < events.len() {
        lemma_of_one_reading(events.drop_last(), due, other);
        assert(timed.drop_last() =~= events.drop_last().map_values(|event: E| (due, event)));
        assert(events.drop_last().push(events.last()) =~= events);
    } else {
        assert(events =~= Seq::empty());
    }
}

/// The timed events that are due come in the order of their readings, those of one reading as they
/// arrived, each once, and no others.
pub proof fn law_due_in_order<E>(timers: Map<u128, Seq<E>>, now: u128, due: u128)
    requires
        timers.dom().finite(),
    ensures
        forall|i: int, j: int|
            0 <= i < j < due_in_order(timers, now).len() ==> due_in_order(timers, now)[i].0
                <= due_in_order(timers, now)[j].0,
        forall|i: int|
            0 <= i < due_in_order(timers, now).len() ==> timers.contains_key(
                (#[trigger] due_in_order(timers, now)[i]).0,
            ),
        of_reading(due_in_order(timers, now), due) == if due <= now {
            crate::timers::row(timers, due)
        } else {
            Seq::empty()
        },
    decreases timers.dom().len(),
{
    crate::timers::lemma_earliest(timers);
    let all = due_in_order(timers, now);
    match crate::timers::earliest(timers) {
        Some(first) if first <= now => {
            let rest = timers.remove(first);
            law_due_in_order(rest, now, due);
            let row = timers[first].map_values(|event: E| (first, event));
            let later = due_in_order(rest, now);
            assert(all == row + later);
            lemma_of_one_reading(timers[first], first, due);
            lemma_of_reading_both(row, later, due);
            assert(of_reading(row, due) + of_reading(later, due) =~= if due <= now {
                crate::timers::row(timers, due)
            } else {
                Seq::empty()
            });
            assert forall|i: int| 0 <= i < all.len() implies timers.contains_key(
                (#[trigger] all[i]).0,
            ) by {
                if row.len() <= i {
                    assert(all[i] == later[i - row.len()]);
                    assert(rest.contains_key(all[i].0));
                }
            }
            assert forall|i: int, j: int| 0 <= i < j < all.len() implies all[i].0 <= all[j].0 by {
                assert(timers.contains_key(all[j].0));
                if row.len() <= i {
                    assert(all[i] == later[i - row.len()]);
                    assert(all[j] == later[j - row.len()]);
                }
            }
        },
        _ => {
            assert(timers.contains_key(due) ==> now < due);
            assert(of_reading(all, due) =~= Seq::empty());
            assert(crate::timers::row(timers, due) =~= if timers.contains_key(due) {
                timers[due]
            } else {
                Seq::empty()
            });
        },
    }
}

/// After the first of the earliest events has left, the others come in the same order.
proof fn lemma_due_after_first<E>(timers: Map<u128, Seq<E>>, first: u128, now: u128)
    requires
        timers.dom().finite(),
        crate::timers::filled(timers),
        crate::timers::is_earliest(timers, first),
        first <= now,
    ensures
        due_events(timers, now) == seq![timers[first][0]] + due_events(
            crate::timers::without_first(timers, first),
            now,
        ),
{
    crate::timers::lemma_earliest(timers);
    let tag = |event: E| (first, event);
    let row = timers[first];
    let rest = timers.remove(first);
    let left = crate::timers::without_first(timers, first);
    assert(due_in_order(timers, now) == row.map_values(tag) + due_in_order(rest, now));
    if row.len() == 1 {
        assert(left == rest);
        assert(due_in_order(timers, now) =~= seq![(first, row[0])] + due_in_order(left, now));
    } else {
        crate::timers::lemma_earliest(left);
        assert forall|other: u128| #[trigger] left.contains_key(other) implies first <= other by {
            assert(timers.contains_key(other));
        }
        assert(crate::timers::is_earliest(left, first));
        assert(left.remove(first) =~= rest);
        assert(due_in_order(left, now) == row.drop_first().map_values(tag) + due_in_order(
            rest,
            now,
        ));
        assert(due_in_order(timers, now) =~= seq![(first, row[0])] + due_in_order(left, now));
    }
    assert(due_events(timers, now) =~= seq![row[0]] + due_events(left, now));
}

/// What is on its way to a queue at one moment: the events in its channels, the first to come
/// first, and the timed events by the reading of the clock at which they are due.
pub struct Backlog<E> {
    pub priority: Seq<E>,
    pub standard: Seq<E>,
    pub timers: Map<u128, Seq<E>>,
}

impl<E> Backlog<E> {
    /// The events in the order in which they come out of a queue at the reading `now`: first those
    /// sent with priority, as they were sent, then the timed events that are due, the earliest
    /// first, then those sent without priority, as they were sent.
    pub open spec fn in_order(self, now: u128) -> Seq<E> {
        self.priority + due_events(self.timers, now) + self.standard
    }
}

/// All that is sent into the channels of a queue, in the order in which it is sent.
pub struct Posted<E> {
    pub standard: Seq<E>,
    pub priority: Seq<E>,
    pub delayed: Seq<(u128, E)>,
}

impl<E> Posted<E> {
    /// Whether the channels have handed out first what was sent first: what has left each of them
    /// is the first part of what was sent into it.
    pub open spec fn covers(self, ledger: Ledger<E>) -> bool {
        &&& ledger.standard.is_prefix_of(self.standard)
        &&& ledger.priority.is_prefix_of(self.priority)
        &&& ledger.delayed.is_prefix_of(self.delayed)
    }

    /// What is still on its way to the queue.
    pub open spec fn backlog(self, ledger: Ledger<E>) -> Backlog<E> {
        Backlog {
            priority: self.priority.skip(ledger.priority.len() as int),
            standard: self.standard.skip(ledger.standard.len() as int),
            timers: crate::timers::joined(
                ledger.timed,
                self.delayed.skip(ledger.delayed.len() as int),
            ),
        }
    }

    /// Whether the channels answer in a turn as they do where all has been sent and nothing more is
    /// sent, and no timed event falls due while the queue waits with an event at hand: each channel
    /// gives what was sent first, and all of it where all is asked for.
    pub open spec fn answers(self, ledger: Ledger<E>, met: Encounter<E>) -> bool {
        &&& met.arrivals@ == self.delayed.skip(ledger.delayed.len() as int)
        &&& met.urgent == head(self.backlog(ledger).priority)
        &&& ledger.choice(met) is Wait ==> match head(self.backlog(ledger).standard) {
            Some(event) => met.woken == Some(Woken::<E>::Standard(event)),
            None => met.woken matches Some(woken) ==> woken is Alarm,
        }
    }
}

/// A receive takes the next event of what is on its way, and leaves the rest as it is: the first
/// event that was sent with priority; if there is none, the earliest timed event that is due; if
/// there is none either, the first event that was sent without priority. This is where nothing more
/// is sent, and where the same timed events are due at the reading `now` as in the receive.
pub proof fn law_receive_takes_next<E>(
    posted: Posted<E>,
    ledger: Ledger<E>,
    receipt: Receipt<E>,
    after: Ledger<E>,
    now: u128,
)
    requires
        ledger.delivers(receipt.turns, receipt.event, after),
        posted.covers(ledger),
        posted.answers(ledger, receipt.turns[0]),
        crate::timers::filled(ledger.timed),
        ledger.timed.dom().finite(),
        forall|due: u128| #[trigger]
            posted.backlog(ledger).timers.contains_key(due) ==> (due <= receipt.turns[0].now
                <==> due <= now),
        0 < posted.backlog(ledger).in_order(now).len(),
    ensures
        receipt.event == Some(posted.backlog(ledger).in_order(now)[0]),
        posted.covers(after),
        crate::timers::filled(after.timed),
        after.timed.dom().finite(),
        posted.backlog(after).in_order(now) == posted.backlog(ledger).in_order(now).drop_first(),
        forall|due: u128| #[trigger]
            posted.backlog(after).timers.contains_key(due) ==> posted.backlog(
                ledger,
            ).timers.contains_key(due),
{
    let turns = receipt.turns;
    let met = turns[0];
    let backlog = posted.backlog(ledger);
    let whole = backlog.in_order(now);
    let timers = backlog.timers;
    assert(turns.take(0) =~= Seq::empty());
    assert(ledger.before(turns, 0) == ledger);
    assert(ledger.awaited(met));
    assert(ledger.timers(met) == timers);
    lemma_joined_keeps(ledger.timed, met.arrivals@);
    crate::timers::lemma_earliest(timers);
    let due = due_events(timers, now);
    assert(ledger.delayed + met.arrivals@ =~= posted.delayed);
    if let Some(first) = crate::timers::earliest(timers) {
        assert(timers.contains_key(first));
        if first <= now {
            lemma_due_after_first(timers, first, now);
        }
    }
    if 0 < backlog.priority.len() {
        assert(whole[0] == backlog.priority[0]);
    } else if crate::timers::choice(timers, met.urgent, met.now) is Deliver {
        assert(whole[0] == due[0]);
    } else {
        assert(due =~= Seq::empty());
        assert(whole =~= backlog.standard);
    }
    assert(ledger.turn(met) == Turn::Over(Some(whole[0])));
    assert(turns.len() == 1) by {
        if 1 < turns.len() {
            assert(ledger.before(turns, 0).turn(turns[0]) is Again);
        }
    }
    assert(turns.drop_last() =~= Seq::empty());
    assert(after == ledger.after(met));
    let left = posted.backlog(after);
    assert(after.delayed =~= posted.delayed);
    assert(posted.delayed.skip(after.delayed.len() as int) =~= Seq::empty());
    assert(left.timers == after.timed);
    assert(posted.standard.skip(ledger.standard.len() as int).len() == posted.standard.len()
        - ledger.standard.len());
    if 0 < backlog.priority.len() {
        assert(after.priority =~= ledger.priority.push(backlog.priority[0]));
        assert(after.standard =~= ledger.standard);
        assert(left.priority =~= backlog.priority.drop_first());
    } else if crate::timers::choice(timers, met.urgent, met.now) is Deliver {
        let first = crate::timers::earliest(timers)->Some_0;
        lemma_without_first(timers, first);
        assert(after.priority =~= ledger.priority);
        assert(after.standard =~= ledger.standard);
    } else {
        assert(after.priority =~= ledger.priority);
        assert(after.standard =~= ledger.standard.push(backlog.standard[0]));
        assert(left.standard =~= backlog.standard.drop_first());
    }
    assert(left.in_order(now) =~= whole.drop_first());
}

/// Events come out of a queue in this order: first those sent with priority, as they were sent,
/// then the timed events that are due, the earliest first, then those sent without priority, as
/// they were sent. Each receive takes the next one, none is lost and none comes twice. This is
/// where nothing more is sent and, from the first receive to the last, the same timed events are
/// due.
pub proof fn law_order_of_events<E>(
    posted: Posted<E>,
    ledgers: Seq<Ledger<E>>,
    receipts: Seq<Receipt<E>>,
    now: u128,
)
    requires
        successive(ledgers, receipts),
        posted.covers(ledgers[0]),
        crate::timers::filled(ledgers[0].timed),
        ledgers[0].timed.dom().finite(),
        forall|i: int|
            0 <= i < receipts.len() ==> posted.answers(
                ledgers[i],
                (#[trigger] receipts[i]).turns[0],
            ),
        forall|i: int, due: u128|
            0 <= i < receipts.len() && #[trigger] posted.backlog(
                ledgers[0],
            ).timers.contains_key(due) ==> (due <= (#[trigger] receipts[i]).turns[0].now <==> due
                <= now),
        receipts.len() <= posted.backlog(ledgers[0]).in_order(now).len(),
    ensures
        forall|i: int|
            0 <= i < receipts.len() ==> (#[trigger] receipts[i]).event == Some(
                posted.backlog(ledgers[0]).in_order(now)[i],
            ),
        posted.backlog(ledgers.last()).in_order(now) == posted.backlog(ledgers[0]).in_order(
            now,
        ).skip(receipts.len() as int),
        posted.covers(ledgers.last()),
        crate::timers::filled(ledgers.last().timed),
        ledgers.last().timed.dom().finite(),
        forall|due: u128| #[trigger]
            posted.backlog(ledgers.last()).timers.contains_key(due) ==> posted.backlog(
                ledgers[0],
            ).timers.contains_key(due),
    decreases receipts.len(),
{
    let whole = posted.backlog(ledgers[0]).in_order(now);
    let n = receipts.len() - 1;
    if receipts.len() == 0 {
        assert(whole.skip(0) =~= whole);
    } else {
        lemma_successive(ledgers, receipts);
        let earlier = receipts.drop_last();
        assert forall|i: int| 0 <= i < earlier.len() implies posted.answers(
            ledgers.drop_last()[i],
            (#[trigger] earlier[i]).turns[0],
        ) by {
            assert(earlier[i] == receipts[i]);
        }
        assert forall|i: int, due: u128|
            0 <= i < earlier.len() && #[trigger] posted.backlog(
                ledgers.drop_last()[0],
            ).timers.contains_key(due) implies (due <= (#[trigger] earlier[i]).turns[0].now <==> due
            <= now) by {
            assert(earlier[i] == receipts[i]);
        }
        law_order_of_events(posted, ledgers.drop_last(), earlier, now);
        assert(receipts[n] == receipts.last());
        law_receive_takes_next(posted, ledgers[n], receipts[n], ledgers.last(), now);
        assert(whole.skip(n).drop_first() =~= whole.skip(n + 1));
        assert forall|i: int| 0 <= i < receipts.len() implies (#[trigger] receipts[i]).event
            == Some(whole[i]) by {
            if i < n {
                assert(earlier[i] == receipts[i]);
            }
        }
    }
}

/// Where nothing is on its way but timed events that are not due, a receive that no alarm wakes
/// delivers nothing.
pub proof fn law_nothing_left<E>(
    posted: Posted<E>,
    ledger: Ledger<E>,
    receipt: Receipt<E>,
    after: Ledger<E>,
)
    requires
        ledger.delivers(receipt.turns, receipt.event, after),
        posted.covers(ledger),
        posted.answers(ledger, receipt.turns[0]),
        receipt.turns[0].woken is None,
        crate::timers::filled(ledger.timed),
        ledger.timed.dom().finite(),
        posted.backlog(ledger).in_order(receipt.turns[0].now).len() == 0,
    ensures
        receipt.event is None,
{
    let turns = receipt.turns;
    let met = turns[0];
    let timers = posted.backlog(ledger).timers;
    assert(turns.take(0) =~= Seq::empty());
    assert(ledger.before(turns, 0) == ledger);
    lemma_joined_keeps(ledger.timed, met.arrivals@);
    crate::timers::lemma_earliest(timers);
    if let Some(first) = crate::timers::earliest(timers) {
        if first <= met.now {
            lemma_due_after_first(timers, first, met.now);
        }
    }
    assert(ledger.turn(met) == Turn::<E>::Over(None));
    if 1 < turns.len() {
        assert(ledger.before(turns, 0).turn(turns[0]) is Again);
    }
}

/// What is sent comes behind what was sent before it in the same way, and changes nothing else of
/// what is on its way. So an event that is sent with priority comes after all that were sent with
/// priority before it, and before all others.
pub proof fn law_sending_adds_one<E>(
    posted: Posted<E>,
    ledger: Ledger<E>,
    event: E,
    due: u128,
    now: u128,
)
    requires
        posted.covers(ledger),
    ensures
        ({
            let before = posted.backlog(ledger);
            let standard = Posted { standard: posted.standard.push(event), ..posted };
            let priority = Posted { priority: posted.priority.push(event), ..posted };
            let delayed = Posted { delayed: posted.delayed.push((due, event)), ..posted };
            &&& standard.covers(ledger)
            &&& standard.backlog(ledger) == (Backlog {
                standard: before.standard.push(event),
                ..before
            })
            &&& priority.covers(ledger)
            &&& priority.backlog(ledger) == (Backlog {
                priority: before.priority.push(event),
                ..before
            })
            &&& priority.backlog(ledger).in_order(now) == before.priority + seq![event]
                + due_events(before.timers, now) + before.standard
            &&& delayed.covers(ledger)
            &&& delayed.backlog(ledger) == (Backlog {
                timers: crate::timers::with(before.timers, (due, event)),
                ..before
            })
        }),
{
    let before = posted.backlog(ledger);
    assert(posted.standard.push(event).skip(ledger.standard.len() as int)
        =~= before.standard.push(event));
    assert(posted.priority.push(event).skip(ledger.priority.len() as int)
        =~= before.priority.push(event));
    assert(before.priority.push(event) =~= before.priority + seq![event]);
    let pending = posted.delayed.skip(ledger.delayed.len() as int);
    let more = posted.delayed.push((due, event)).skip(ledger.delayed.len() as int);
    assert(more =~= pending.push((due, event)));
    assert(more.drop_last() =~= pending);
}

/// Events that are sent with priority are delivered before all others, as they were sent, whatever
/// else is on its way or is sent meanwhile. Here `sent` is what was sent with priority before the
/// first receive, and every receive finds the first of it that is still on its way.
pub proof fn law_priority_first<E>(
    ledgers: Seq<Ledger<E>>,
    receipts: Seq<Receipt<E>>,
    sent: Seq<E>,
)
    requires
        successive(ledgers, receipts),
        ledgers[0].priority.is_prefix_of(sent),
        forall|i: int|
            0 <= i < receipts.len() && ledgers[i].priority.len() < sent.len()
                ==> (#[trigger] receipts[i]).turns[0].urgent == Some(
                sent[ledgers[i].priority.len() as int],
            ),
        receipts.len() <= sent.len() - ledgers[0].priority.len(),
    ensures
        forall|i: int|
            0 <= i < receipts.len() ==> (#[trigger] receipts[i]).event == Some(
                sent[ledgers[0].priority.len() + i],
            ),
        ledgers.last().priority == sent.take(
            (ledgers[0].priority.len() + receipts.len()) as int,
        ),
        ledgers.last().standard == ledgers[0].standard,
    decreases receipts.len(),
{
    let first = ledgers[0].priority.len() as int;
    let n = receipts.len() - 1;
    if receipts.len() == 0 {
        assert(ledgers[0].priority =~= sent.take(first));
    } else {
        lemma_successive(ledgers, receipts);
        let earlier = receipts.drop_last();
        assert forall|i: int|
            0 <= i < earlier.len() && ledgers.drop_last()[i].priority.len()
                < sent.len() implies (#[trigger] earlier[i]).turns[0].urgent == Some(
            sent[ledgers.drop_last()[i].priority.len() as int],
        ) by {
            assert(earlier[i] == receipts[i]);
        }
        law_priority_first(ledgers.drop_last(), earlier, sent);
        let last = receipts[n];
        assert(ledgers[n].priority.len() == first + n);
        lemma_urgent_is_delivered(ledgers[n], last, ledgers.last());
        assert(ledgers.last().priority =~= sent.take(first + n + 1));
        assert forall|i: int| 0 <= i < receipts.len() implies (#[trigger] receipts[i]).event
            == Some(sent[first + i]) by {
            if i < n {
                assert(earlier[i] == receipts[i]);
            }
        }
    }
}

/// A receive that finds an event with priority delivers it.
proof fn lemma_urgent_is_delivered<E>(ledger: Ledger<E>, receipt: Receipt<E>, after: Ledger<E>)
    requires
        ledger.delivers(receipt.turns, receipt.event, after),
        receipt.turns[0].urgent is Some,
    ensures
        receipt.event == receipt.turns[0].urgent,
        after.priority == ledger.priority.push(receipt.turns[0].urgent->Some_0),
        after.standard == ledger.standard,
{
    let turns = receipt.turns;
    assert(turns.take(0) =~= Seq::empty());
    assert(ledger.before(turns, 0) == ledger);
    if 1 < turns.len() {
        assert(ledger.before(turns, 0).turn(turns[0]) is Again);
    }
    law_only_the_event_leaves(ledger, turns, receipt.event, after);
}

/// A timed event that is due is delivered before any event that was sent without priority, the
/// earliest first and the first to arrive before the others of its reading.
pub proof fn law_due_before_standard<E>(ledger: Ledger<E>, met: Encounter<E>, due: u128)
    requires
        ledger.timers(met).dom().finite(),
        crate::timers::is_earliest(ledger.timers(met), due),
        due <= met.now,
        met.urgent is None,
    ensures
        ledger.turn(met) == Turn::Over(Some(ledger.timers(met)[due][0])),
        ledger.after(met).timed == crate::timers::without_first(ledger.timers(met), due),
{
    crate::timers::lemma_earliest(ledger.timers(met));
}

/// A waiting receive delivers the timed event that it waits for when the alarm goes off, and ends
/// with that. The alarm is set to the instant at which the event is due. Only the event leaves.
pub proof fn law_alarm_brings_the_timed_event<E>(
    queue: EventQueue<E>,
    timeout: Option<Duration>,
    turns: Seq<Encounter<E>>,
    event: Option<E>,
    after: EventQueue<E>,
    i: int,
    due: u128,
)
    requires
        queue.received(timeout, turns, event, after),
        0 <= i < turns.len(),
        queue@.before(turns, i).choice(turns[i]) == Choice::<E>::Wait(Some(due)),
        turns[i].woken matches Some(woken) && woken is Alarm,
    ensures
        i == turns.len() - 1,
        crate::channel::alarm_instant(turns[i].alarm) == queue.clock().instant(due),
        turns[i].woken == Some(
            Woken::<E>::Alarm(queue.clock().instant(due)->Some_0),
        ),
        queue.clock().instant(due) is Some,
        ({
            let held = crate::timers::joined(queue@.timed, queue@.arrived(after@));
            &&& held == queue@.before(turns, i).timers(turns[i])
            &&& crate::timers::is_earliest(held, due)
            &&& event == Some(held[due][0])
            &&& after@.timed == crate::timers::without_first(held, due)
            &&& after@.standard == queue@.standard
            &&& after@.priority == queue@.priority
        }),
{
    let before = queue@.before(turns, i);
    assert(queue.meets(timeout, turns, i));
    assert(before.turn(turns[i]) is Over);
    assert(i == turns.len() - 1);
    assert(crate::timers::is_earliest(before.timers(turns[i]), due));
    law_only_the_event_leaves(queue@, turns, event, after@);
    lemma_turns_that_look_again(queue@, turns, i);
    assert(turns.take(i) =~= turns.drop_last());
    assert(after@ == before.after(turns[i]));
    let more = turns[i].arrivals@;
    assert(queue@.arrived(after@) =~= queue@.arrived(before) + more);
    lemma_joined_twice(queue@.timed, queue@.arrived(before), more);
}

/// A receive that finds nothing at hand waits for the earliest timed event, and delivers it where
/// it falls due while the receive waits: where nothing more is sent, and the alarm ends the wait.
/// Only that event leaves.
pub proof fn law_receive_waits_for_the_earliest<E>(
    posted: Posted<E>,
    queue: EventQueue<E>,
    timeout: Option<Duration>,
    turns: Seq<Encounter<E>>,
    event: Option<E>,
    after: EventQueue<E>,
)
    requires
        queue.received(timeout, turns, event, after),
        posted.covers(queue@),
        posted.answers(queue@, turns[0]),
        posted.backlog(queue@).in_order(turns[0].now).len() == 0,
        turns[0].woken matches Some(woken) && woken is Alarm,
    ensures
        posted.covers(after@),
        ({
            let held = posted.backlog(queue@).timers;
            &&& crate::timers::earliest(held) matches Some(due) && event == Some(held[due][0])
                && posted.backlog(after@) == (Backlog {
                timers: crate::timers::without_first(held, due),
                ..posted.backlog(queue@)
            }) && turns[0].now < due && queue.clock().instant(due) == crate::channel::alarm_instant(
                turns[0].alarm,
            )
        }),
{
    let met = turns[0];
    let held = posted.backlog(queue@).timers;
    crate::events::lemma_queue_valid(queue);
    assert(turns.take(0) =~= Seq::empty());
    assert(queue@.before(turns, 0) == queue@);
    assert(queue@.awaited(met));
    assert(queue.meets(timeout, turns, 0));
    assert(queue@.timers(met) == held);
    let due = crate::timers::earliest(held)->Some_0;
    assert(queue@.choice(met) == Choice::<E>::Wait(Some(due)));
    law_alarm_brings_the_timed_event(queue, timeout, turns, event, after, 0, due);
    assert(turns.drop_last() =~= Seq::empty());
    assert(after@ == queue@.after(met));
    assert(after@.delayed =~= posted.delayed);
    assert(posted.delayed.skip(after@.delayed.len() as int) =~= Seq::empty());
    assert(posted.backlog(after@).timers == after@.timed);
}

/// A timed event that arrives while a queue waits is not overlooked. In the next turn the queue
/// holds it, and delivers an event or waits with the alarm set to an instant no later than that at
/// which the event is due.
pub proof fn law_timed_event_ends_a_wait<E>(
    queue: EventQueue<E>,
    timeout: Option<Duration>,
    turns: Seq<Encounter<E>>,
    event: Option<E>,
    after: EventQueue<E>,
    i: int,
    due: u128,
    timed: E,
)
    requires
        queue.received(timeout, turns, event, after),
        0 <= i < turns.len(),
        queue@.before(turns, i).choice(turns[i]) is Wait,
        turns[i].woken == Some(Woken::<E>::Delayed((due, timed))),
    ensures
        i + 1 < turns.len(),
        ({
            let held = queue@.before(turns, i + 1).timers(turns[i + 1]);
            &&& crate::timers::row(held, due).contains(timed)
            &&& match queue@.before(turns, i + 1).choice(turns[i + 1]) {
                Choice::Deliver(_) => true,
                Choice::Wait(next) => next matches Some(first) && first <= due
                    && crate::channel::alarm_instant(turns[i + 1].alarm) == queue.clock().instant(
                    first,
                ),
            }
        }),
{
    crate::events::lemma_queue_valid(queue);
    let before = queue@.before(turns, i);
    assert(before.turn(turns[i]) is Again);
    assert(i + 1 < turns.len());
    let later = queue@.before(turns, i + 1);
    assert(turns.take(i + 1).drop_last() =~= turns.take(i));
    assert(later == before.after(turns[i]));
    let row = crate::timers::row(later.timed, due);
    assert(row.last() == timed && row[row.len() - 1] == timed);
    let met = turns[i + 1];
    law_arrivals_join(later.timed, met.arrivals@, due);
    let held = later.timers(met);
    assert(crate::timers::row(held, due)[row.len() - 1] == timed);
    assert(held.contains_key(due));
    lemma_turns_that_look_again(queue@, turns, i + 1);
    lemma_joined_keeps(queue@.timed, queue@.arrived(later));
    lemma_joined_keeps(later.timed, met.arrivals@);
    crate::timers::lemma_earliest(held);
    assert(queue.meets(timeout, turns, i + 1));
}

/// A timed event that is sent while a receive without a timeout waits, with nothing else on its way
/// and nothing else sent, is what the receive delivers: when the clock shows the reading at which
/// the event is due, or at the alarm for the instant of that reading.
pub proof fn law_timed_event_sent_meanwhile_is_delivered<E>(
    queue: EventQueue<E>,
    turns: Seq<Encounter<E>>,
    event: Option<E>,
    after: EventQueue<E>,
    i: int,
    due: u128,
    timed: E,
)
    requires
        queue.received(None, turns, event, after),
        0 <= i < turns.len(),
        queue@.before(turns, i).timers(turns[i]) == Map::<u128, Seq<E>>::empty(),
        queue@.before(turns, i).choice(turns[i]) is Wait,
        turns[i].woken == Some(Woken::<E>::Delayed((due, timed))),
        i + 1 < turns.len() ==> {
            &&& turns[i + 1].arrivals@.len() == 0
            &&& turns[i + 1].urgent is None
            &&& turns[i + 1].woken matches Some(woken) ==> woken is Alarm
        },
    ensures
        turns.len() == i + 2,
        event == Some(timed),
        after@.timed == Map::<u128, Seq<E>>::empty(),
        due <= turns.last().now || turns.last().woken == Some(
            Woken::<E>::Alarm(queue.clock().instant(due)->Some_0),
        ) && queue.clock().instant(due) is Some,
{
    law_timed_event_ends_a_wait(queue, None, turns, event, after, i, due, timed);
    let before = queue@.before(turns, i);
    let later = queue@.before(turns, i + 1);
    let met = turns[i + 1];
    let empty = Map::<u128, Seq<E>>::empty();
    assert(turns.take(i + 1).drop_last() =~= turns.take(i));
    assert(later == before.after(turns[i]));
    let held = later.timers(met);
    assert(met.arrivals@ =~= Seq::empty());
    assert(held == crate::timers::with(empty, (due, timed)));
    assert(held[due] =~= seq![timed]);
    assert(crate::timers::is_earliest(held, due));
    assert(held.dom() =~= set![due]);
    crate::timers::lemma_earliest(held);
    assert(queue.meets(None, turns, i + 1));
    assert(later.turn(met) == Turn::Over(Some(timed)));
    assert(i + 1 == turns.len() - 1);
    assert(turns.take(i + 1) =~= turns.drop_last());
    assert(after@ == later.after(met));
    assert(after@.timed == crate::timers::without_first(held, due));
    assert(after@.timed =~= empty);
}

/// Each turn of a receive reads the clock once, and takes its reading for the present time.
pub proof fn law_readings_are_fresh<E>(
    ledger: Ledger<E>,
    turns: Seq<Encounter<E>>,
    event: Option<E>,
    after: Ledger<E>,
)
    requires
        ledger.delivers(turns, event, after),
    ensures
        after.readings == ledger.readings + turns.map_values(|met: Encounter<E>| met.now),
{
    lemma_readings(ledger, turns);
}

/// The readings after some turns are those from before with one more for each turn.
proof fn lemma_readings<E>(ledger: Ledger<E>, turns: Seq<Encounter<E>>)
    ensures
        ledger.after_all(turns).readings == ledger.readings + turns.map_values(
            |met: Encounter<E>| met.now,
        ),
    decreases turns.len(),
{
    let nows = turns.map_values(|met: Encounter<E>| met.now);
    if 0 < turns.len() {
        lemma_readings(ledger, turns.drop_last());
        assert(nows.drop_last() =~= turns.drop_last().map_values(|met: Encounter<E>| met.now));
    }
    assert(ledger.after_all(turns).readings =~= ledger.readings + nows);
}

/// A timed event is never delivered early. It is sent at a reading of the clock that is taken in
/// the sending call. When it is delivered, the last reading that the receive takes is no less than
/// that reading and the delay together, or the alarm has gone off for the instant that lies so long
/// after the start of the clock.
pub proof fn law_never_before<E>(
    sender: EventSender<E>,
    timed: E,
    delay: Duration,
    sent: Result<(), crate::events::Unsent<E>>,
    sender_after: EventSender<E>,
    queue: EventQueue<E>,
    timeout: Option<Duration>,
    turns: Seq<Encounter<E>>,
    event: Option<E>,
    after: EventQueue<E>,
)
    requires
        sender.sent_with_timer(timed, delay, sent, sender_after),
        sent is Ok,
        queue.clock() == sender.clock(),
        queue.received(timeout, turns, event, after),
        queue@.source(turns) == Some(
            Source::Timed(
                crate::events::timed_event(sender_after.readings().last(), delay, timed).0,
            ),
        ),
    ensures
        sender_after.readings() == sender.readings().push(sender_after.readings().last()),
        after@.readings.len() == queue@.readings.len() + turns.len(),
        0 < turns.len(),
        ({
            let due = sender_after.readings().last() + crate::clock::duration_nanos(delay);
            ||| due <= after@.readings.last()
            ||| {
                &&& due <= u128::MAX
                &&& crate::clock::instant_after(queue.clock().epoch(), due as u128) matches Some(
                    instant,
                ) && turns.last().woken == Some(Woken::<E>::Alarm(instant))
            }
        }),
{
    let n = turns.len() - 1;
    law_readings_are_fresh(queue@, turns, event, after@);
    assert(queue.meets(timeout, turns, n));
    let before = queue@.before(turns, n);
    assert(before.awaited(turns[n]));
    assert(u128::MAX / crate::clock::NANOS_PER_SEC > u64::MAX);
    assert(after@.readings.last() == turns.last().now);
}

/// A receive without a timeout always delivers an event. One with a timeout delivers none only when
/// nothing was due, it had to wait and its time ran out, and then no event is lost: nothing leaves
/// the channels of the events that are sent at once and with priority, and the timed events stay,
/// with those that arrived.
pub proof fn law_nothing_only_when_time_runs_out<E>(
    queue: EventQueue<E>,
    timeout: Option<Duration>,
    turns: Seq<Encounter<E>>,
    after: EventQueue<E>,
)
    requires
        queue.received(timeout, turns, None, after),
    ensures
        timeout is Some,
        turns.last().woken is None,
        turns.last().urgent is None,
        crate::timers::earliest(
            crate::timers::joined(queue@.timed, queue@.arrived(after@)),
        ) matches Some(due) ==> turns.last().now < due,
        after@.standard == queue@.standard,
        after@.priority == queue@.priority,
        after@.timed == crate::timers::joined(queue@.timed, queue@.arrived(after@)),
{
    let n = turns.len() - 1;
    assert(queue.meets(timeout, turns, n));
    law_only_the_event_leaves(queue@, turns, None, after@);
    let before = queue@.before(turns, n);
    assert(turns.take(n) =~= turns.drop_last());
    assert(after@ == before.after(turns.last()));
    assert(after@.timed == before.timers(turns.last()));
}

/// All timed events that leave their channel in the turns of a receive can have been sent into it.
proof fn lemma_arrived_was_sent<E>(
    queue: EventQueue<E>,
    timeout: Option<Duration>,
    turns: Seq<Encounter<E>>,
    n: int,
)
    requires
        0 <= n <= turns.len(),
        forall|i: int| 0 <= i < n ==> #[trigger] queue.meets(timeout, turns, i),
        forall|i: int| 0 <= i < n ==> (#[trigger] queue@.before(turns, i)).awaited(turns[i]),
    ensures
        queue@.delayed.len() <= queue@.before(turns, n).delayed.len(),
        queue.delayed().all_sent(queue@.arrived(queue@.before(turns, n))),
    decreases n,
{
    let later = queue@.before(turns, n);
    if n == 0 {
        assert(turns.take(0) =~= Seq::empty());
    } else {
        lemma_arrived_was_sent(queue, timeout, turns, n - 1);
        let before = queue@.before(turns, n - 1);
        let met = turns[n - 1];
        assert(turns.take(n).drop_last() =~= turns.take(n - 1));
        assert(later == before.after(met));
        assert(queue.meets(timeout, turns, n - 1));
        assert(before.awaited(met));
        let more = met.arrivals@ + crate::books::delayed_of(met.woken);
        assert(queue@.arrived(later) =~= queue@.arrived(before) + more);
        assert forall|i: int| 0 <= i < queue@.arrived(later).len() implies queue.delayed().was_sent(
            #[trigger] queue@.arrived(later)[i],
        ) by {
            let k = i - queue@.arrived(before).len();
            if k < 0 {
                assert(queue.delayed().was_sent(queue@.arrived(before)[i]));
            } else if k < met.arrivals@.len() {
                assert(queue.delayed().was_sent(met.arrivals@[k]));
            }
        }
    }
}

/// The events of one reading are among the timed events.
proof fn lemma_of_reading_origin<E>(timed: Seq<(u128, E)>, due: u128, event: E)
    requires
        of_reading(timed, due).contains(event),
    ensures
        timed.contains((due, event)),
    decreases timed.len(),
{
    if 0 < timed.len() {
        let earlier = of_reading(timed.drop_last(), due);
        if timed.last() == (due, event) {
            assert(timed[timed.len() - 1] == (due, event));
        } else {
            let all = of_reading(timed, due);
            let i = choose|i: int| 0 <= i < all.len() && all[i] == event;
            assert(earlier[i] == event);
            lemma_of_reading_origin(timed.drop_last(), due, event);
            let k = choose|k: int|
                0 <= k < timed.drop_last().len() && timed.drop_last()[k] == (due, event);
            assert(timed[k] == (due, event));
        }
    }
}

/// No event comes from nowhere: what a queue delivers is what last left the channel of the events
/// that are sent at once or with priority, and can have been sent into it, or it is a timed event
/// that the queue held before, or that left their channel in the course of the receive and can have
/// been sent into it.
pub proof fn law_no_event_from_nowhere<E>(
    queue: EventQueue<E>,
    timeout: Option<Duration>,
    turns: Seq<Encounter<E>>,
    event: E,
    after: EventQueue<E>,
)
    requires
        queue.received(timeout, turns, Some(event), after),
        crate::timers::filled(queue@.timed),
    ensures
        match queue@.source(turns) {
            Some(Source::Standard) => after@.standard == queue@.standard.push(event)
                && queue.standard().was_sent(event),
            Some(Source::Priority) => after@.priority == queue@.priority.push(event)
                && queue.priority().was_sent(event),
            Some(Source::Timed(due)) => crate::timers::row(queue@.timed, due).contains(event)
                || of_reading(queue@.arrived(after@), due).contains(event)
                && queue.delayed().was_sent((due, event)),
            None => false,
        },
{
    let n = turns.len() - 1;
    assert(queue.meets(timeout, turns, n));
    law_only_the_event_leaves(queue@, turns, Some(event), after@);
    if let Some(Source::Timed(due)) = queue@.source(turns) {
        let arrivals = queue@.arrived(after@);
        law_arrivals_join(queue@.timed, arrivals, due);
        lemma_joined_keeps(queue@.timed, arrivals);
        let old_row = crate::timers::row(queue@.timed, due);
        let new_row = of_reading(arrivals, due);
        assert((old_row + new_row)[0] == event);
        if 0 < old_row.len() {
            assert(old_row[0] == event);
        } else {
            assert(new_row[0] == event);
            lemma_of_reading_origin(arrivals, due, event);
            lemma_arrived_was_sent(queue, timeout, turns, turns.len() as int);
            assert(turns.take(turns.len() as int) =~= turns);
        }
    }
}

/// A clone of a sender sends to the same queue.
pub proof fn law_clones_feed_the_same_queue<E>(
    queue: EventQueue<E>,
    sender: EventSender<E>,
    twin: EventSender<E>,
)
    requires
        queue.fed_by(sender),
        twin.cloned_from(sender),
    ensures
        queue.fed_by(twin),
{
    crate::channel::lemma_twin_feeds(queue.standard(), sender.standard(), twin.standard());
    crate::channel::lemma_twin_feeds(queue.priority(), sender.priority(), twin.priority());
    crate::channel::lemma_twin_feeds(queue.delayed(), sender.delayed(), twin.delayed());
}

} // verus!
