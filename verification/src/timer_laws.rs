//! What holds of the timed events that a queue holds back.

use crate::channel::Woken;
use crate::timers::{Choice, Timers, Turn};
use vstd::prelude::*;

verus! {

/// The events that are held for one reading of the clock, the first to arrive first.
pub open spec fn held_at<E>(timers: Timers<E>, due: u128) -> Seq<E> {
    if timers@.contains_key(due) {
        timers@[due]
    } else {
        Seq::empty()
    }
}

/// Whether the two hold the same events for every reading of the clock but one.
pub open spec fn same_but_at<E>(before: Timers<E>, after: Timers<E>, due: u128) -> bool {
    forall|other: u128|
        other != due ==> {
            &&& #[trigger] after@.contains_key(other) <==> before@.contains_key(other)
            &&& before@.contains_key(other) ==> after@[other] == before@[other]
        }
}

/// Whether `due` is the least reading for which an event is held.
pub open spec fn is_least<E>(timers: Timers<E>, due: u128) -> bool {
    &&& timers@.contains_key(due)
    &&& forall|other: u128| other < due ==> !#[trigger] timers@.contains_key(other)
}

/// The least reading is the earliest.
proof fn lemma_least<E>(timers: Timers<E>, due: u128)
    requires
        is_least(timers, due),
    ensures
        crate::timers::earliest(timers@) == Some(due),
        0 < timers@[due].len(),
{
    crate::timers::lemma_timers_valid(timers);
    crate::timers::lemma_earliest(timers@);
    let found = crate::timers::earliest(timers@)->Some_0;
    assert(crate::timers::is_earliest(timers@, found));
    assert(timers@.contains_key(found));
    assert(found <= due);
}

/// Fresh timers hold nothing.
pub proof fn law_fresh_timers<E>(timers: Timers<E>, due: u128, next: Option<u128>)
    requires
        call_ensures(Timers::<E>::new, (), timers),
        call_ensures(Timers::<E>::next, (&timers,), next),
    ensures
        held_at(timers, due).len() == 0,
        next is None,
{
    crate::timers::lemma_timers_valid(timers);
    crate::timers::lemma_earliest(timers@);
}

/// An event that is added is held for its reading, behind those that were held for it before. What
/// is held for other readings stays.
pub proof fn law_added_event_is_held<E>(timers: &mut Timers<E>, due: u128, event: E)
    requires
        call_ensures(Timers::<E>::add, (timers, (due, event)), ()),
    ensures
        held_at(*final(timers), due) == held_at(*old(timers), due) + seq![event],
        final(timers)@.contains_key(due),
        same_but_at(*old(timers), *final(timers), due),
        call_requires(Timers::<E>::add, (timers, (due, event))),
{
    assert(held_at(*final(timers), due) =~= held_at(*old(timers), due) + seq![event]);
}

/// Of events that join, those of each reading are held behind those that were held for it before,
/// in the order in which they come, none left out.
pub proof fn law_joined_events_are_held<E>(
    timers: &mut Timers<E>,
    arrivals: Vec<(u128, E)>,
    due: u128,
)
    requires
        call_ensures(Timers::<E>::join, (timers, arrivals), ()),
    ensures
        held_at(*final(timers), due) == held_at(*old(timers), due) + crate::event_laws::of_reading(
            arrivals@,
            due,
        ),
        call_requires(Timers::<E>::join, (timers, arrivals)),
{
    crate::event_laws::law_arrivals_join(old(timers)@, arrivals@, due);
}

/// The next reading is the least for which an event is held, and there is one exactly where an
/// event is held.
pub proof fn law_next_is_the_least<E>(timers: Timers<E>, next: Option<u128>, other: u128)
    requires
        call_ensures(Timers::<E>::next, (&timers,), next),
    ensures
        next matches Some(due) ==> is_least(timers, due) && 0 < held_at(timers, due).len(),
        next is None ==> !timers@.contains_key(other),
{
    crate::timers::lemma_timers_valid(timers);
    crate::timers::lemma_earliest(timers@);
    if let Some(due) = next {
        assert(crate::timers::is_earliest(timers@, due));
        assert(is_least(timers, due));
    }
}

/// What is taken out for a reading is the first event that is held for it. The others stay, as does
/// what is held for other readings.
pub proof fn law_first_is_taken<E>(timers: &mut Timers<E>, due: u128, event: Option<E>)
    requires
        call_ensures(Timers::<E>::take, (timers, due), event),
    ensures
        event is None <==> held_at(*old(timers), due).len() == 0,
        event matches Some(taken) ==> held_at(*old(timers), due) == seq![taken] + held_at(
            *final(timers),
            due,
        ),
        event is None ==> held_at(*final(timers), due).len() == 0,
        same_but_at(*old(timers), *final(timers), due),
        call_requires(Timers::<E>::take, (timers, due)),
{
    crate::timers::lemma_timers_valid(*old(timers));
    if let Some(taken) = event {
        assert(held_at(*old(timers), due) =~= seq![taken] + held_at(*final(timers), due));
    }
}

/// An event is added and taken out again unchanged where none was held for its reading.
pub proof fn law_taken_as_added<E>(
    timers: &mut Timers<E>,
    later: &mut Timers<E>,
    due: u128,
    event: E,
    taken: Option<E>,
)
    requires
        call_ensures(Timers::<E>::add, (timers, (due, event)), ()),
        *old(later) == *final(timers),
        call_ensures(Timers::<E>::take, (later, due), taken),
        held_at(*old(timers), due).len() == 0,
    ensures
        taken == Some(event),
        held_at(*final(later), due).len() == 0,
        same_but_at(*old(timers), *final(later), due),
{
    law_added_event_is_held(timers, due, event);
    law_first_is_taken(later, due, taken);
    assert(same_but_at(*old(timers), *final(later), due)) by {
        assert forall|other: u128| other != due implies {
            &&& #[trigger] final(later)@.contains_key(other) <==> old(timers)@.contains_key(other)
            &&& old(timers)@.contains_key(other) ==> final(later)@[other] == old(timers)@[other]
        } by {
            assert(old(later)@.contains_key(other) <==> old(timers)@.contains_key(other));
        }
    }
}

/// An event with priority is delivered before all others, and no timed event leaves.
pub proof fn law_priority_is_decided_first<E>(
    timers: &mut Timers<E>,
    urgent: E,
    now: u128,
    made: Choice<E>,
)
    requires
        call_ensures(Timers::<E>::decide, (timers, Some(urgent), now), made),
    ensures
        made == Choice::Deliver(urgent),
        final(timers)@ == old(timers)@,
        call_requires(Timers::<E>::decide, (timers, Some(urgent), now)),
{
}

/// Without an event with priority, the first event of the least reading is delivered where the clock
/// has come to that reading, and leaves. Where it has not, the queue waits for that reading, or
/// without end where nothing is held, and nothing leaves.
pub proof fn law_due_event_is_decided<E>(
    timers: &mut Timers<E>,
    now: u128,
    made: Choice<E>,
    least: u128,
)
    requires
        call_ensures(Timers::<E>::decide, (timers, None, now), made),
    ensures
        is_least(*old(timers), least) && least <= now ==> {
            &&& made matches Choice::Deliver(event) && held_at(*old(timers), least) == seq![event]
                + held_at(*final(timers), least)
            &&& same_but_at(*old(timers), *final(timers), least)
        },
        is_least(*old(timers), least) && now < least ==> made == Choice::<E>::Wait(Some(least))
            && final(timers)@ == old(timers)@,
        (forall|other: u128| !#[trigger] old(timers)@.contains_key(other)) ==> made
            == Choice::<E>::Wait(None) && final(timers)@ == old(timers)@,
        call_requires(Timers::<E>::decide, (timers, None, now)),
{
    crate::timers::lemma_timers_valid(*old(timers));
    crate::timers::lemma_earliest(old(timers)@);
    if is_least(*old(timers), least) {
        lemma_least(*old(timers), least);
        if least <= now {
            assert(held_at(*old(timers), least) =~= seq![old(timers)@[least][0]] + held_at(
                *final(timers),
                least,
            ));
        }
    }
}

/// What is sent at once or with priority while the queue waits is delivered, and nothing is where
/// the time runs out. No timed event leaves.
pub proof fn law_sent_event_ends_a_wait<E>(
    timers: &mut Timers<E>,
    due: Option<u128>,
    event: E,
    woken: Option<Woken<E>>,
    turn: Turn<E>,
)
    requires
        call_ensures(Timers::<E>::settle, (timers, due, woken), turn),
    ensures
        woken == Some(Woken::Standard(event)) || woken == Some(Woken::Priority(event)) ==> turn
            == Turn::Over(Some(event)) && final(timers)@ == old(timers)@,
        woken is None ==> turn == Turn::<E>::Over(None) && final(timers)@ == old(timers)@,
        call_requires(Timers::<E>::settle, (timers, due, woken)),
{
}

/// At the alarm the first event that is held for the reading is delivered, and only it leaves.
pub proof fn law_alarm_ends_a_wait<E>(
    timers: &mut Timers<E>,
    due: u128,
    instant: std::time::Instant,
    turn: Turn<E>,
)
    requires
        call_ensures(
            Timers::<E>::settle,
            (timers, Some(due), Some(Woken::Alarm(instant))),
            turn,
        ),
        old(timers)@.contains_key(due),
    ensures
        turn matches Turn::Over(Some(event)) && held_at(*old(timers), due) == seq![event] + held_at(
            *final(timers),
            due,
        ),
        same_but_at(*old(timers), *final(timers), due),
{
    crate::timers::lemma_timers_valid(*old(timers));
    assert(held_at(*old(timers), due) =~= seq![old(timers)@[due][0]] + held_at(
        *final(timers),
        due,
    ));
}

/// A timed event that arrives while the queue waits is held for its reading, behind the others, and
/// the queue looks again.
pub proof fn law_arrival_is_held<E>(
    timers: &mut Timers<E>,
    waited: Option<u128>,
    due: u128,
    event: E,
    turn: Turn<E>,
)
    requires
        call_ensures(
            Timers::<E>::settle,
            (timers, waited, Some(Woken::Delayed((due, event)))),
            turn,
        ),
    ensures
        turn == Turn::<E>::Again,
        held_at(*final(timers), due) == held_at(*old(timers), due) + seq![event],
        same_but_at(*old(timers), *final(timers), due),
{
    assert(held_at(*final(timers), due) =~= held_at(*old(timers), due) + seq![event]);
}

} // verus!
