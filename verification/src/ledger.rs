//! What one receive of an event queue does to the accounts of the queue.

use crate::channel::Woken;
use crate::inbox::Entry;
use crate::timers::{Choice, Turn};
use crossbeam::channel::Receiver as Inlet;
use std::time::{Duration, Instant};
use vstd::prelude::*;

verus! {

/// What a queue meets in one turn of a receive.
#[verifier::reject_recursive_types(E)]
pub struct Encounter<E> {
    /// The timed events that have arrived since the last turn.
    pub arrivals: Vec<(u128, E)>,
    /// The first event that was sent with priority.
    pub urgent: Option<E>,
    /// The reading of the clock.
    pub now: u128,
    /// How long the queue waits at most, if it has to wait.
    pub limit: Option<Duration>,
    /// The alarm, if the queue has to wait.
    pub alarm: Inlet<Instant>,
    /// Whether the queue watches for timed events while it waits.
    pub watches: bool,
    /// What ends the wait. It is `None` where the time runs out, and where the queue does not wait.
    pub woken: Option<Woken<E>>,
}

/// The accounts of a queue: what has left each of its channels, in the order in which it left, the
/// readings of its clock, what the queue has asked for and been answered, in its order, and the
/// timed events that it holds back, by the reading of the clock at which they are due.
#[verifier::ext_equal]
pub struct Ledger<E> {
    pub standard: Seq<E>,
    pub priority: Seq<E>,
    pub delayed: Seq<(u128, E)>,
    pub readings: Seq<u128>,
    pub log: Seq<Entry<E>>,
    pub timed: Map<u128, Seq<E>>,
}

impl<E> Ledger<E> {
    /// Nothing has left the channels.
    pub open spec fn empty() -> Ledger<E> {
        Ledger {
            standard: Seq::empty(),
            priority: Seq::empty(),
            delayed: Seq::empty(),
            readings: Seq::empty(),
            log: Seq::empty(),
            timed: Map::empty(),
        }
    }

    /// The timed events once those that arrived have joined them.
    pub open spec fn timers(self, met: Encounter<E>) -> Map<u128, Seq<E>> {
        crate::timers::joined(self.timed, met.arrivals@)
    }

    /// What the queue does about what it met.
    pub open spec fn choice(self, met: Encounter<E>) -> Choice<E> {
        crate::timers::choice(self.timers(met), met.urgent, met.now)
    }

    /// How the turn ends.
    pub open spec fn turn(self, met: Encounter<E>) -> Turn<E> {
        match self.choice(met) {
            Choice::Deliver(event) => Turn::Over(Some(event)),
            Choice::Wait(due) => crate::timers::verdict(self.timers(met), due, met.woken),
        }
    }

    /// What the queue asks for in the turn, and what it is answered: the timed events that have
    /// arrived, then the first event with priority, then the time, and then, if it has to wait,
    /// what ends the wait. It asks for each once.
    pub open spec fn entries(self, met: Encounter<E>) -> Seq<Entry<E>> {
        let looked = seq![
            Entry::Drained(met.arrivals@),
            Entry::First(met.urgent),
            Entry::Read(met.now),
        ];
        if self.choice(met) is Wait {
            looked.push(
                Entry::Waited {
                    watches: met.watches,
                    alarm: met.alarm,
                    limit: met.limit,
                    woken: met.woken,
                },
            )
        } else {
            looked
        }
    }

    /// The accounts after the turn. From each channel leaves what the queue met, and nothing else.
    pub open spec fn after(self, met: Encounter<E>) -> Ledger<E> {
        Ledger {
            standard: self.standard + crate::books::standard_of(met.woken),
            priority: self.priority + crate::books::listed(met.urgent)
                + crate::books::priority_of(met.woken),
            delayed: self.delayed + met.arrivals@ + crate::books::delayed_of(met.woken),
            readings: self.readings.push(met.now),
            log: self.log + self.entries(met),
            timed: match self.choice(met) {
                Choice::Deliver(_) => crate::timers::left_by_choice(
                    self.timers(met),
                    met.urgent,
                    met.now,
                ),
                Choice::Wait(due) => crate::timers::left_by_wait(
                    self.timers(met),
                    due,
                    met.woken,
                ),
            },
        }
    }

    /// The accounts after the turns, one after the other.
    pub open spec fn after_all(self, turns: Seq<Encounter<E>>) -> Ledger<E>
        decreases turns.len(),
    {
        if turns.len() == 0 {
            self
        } else {
            self.after_all(turns.drop_last()).after(turns.last())
        }
    }

    /// The accounts before the given turn.
    pub open spec fn before(self, turns: Seq<Encounter<E>>, i: int) -> Ledger<E> {
        self.after_all(turns.take(i))
    }

    /// Whether a wait is ended only where there is one: a queue that delivers at once does not
    /// wait.
    pub open spec fn awaited(self, met: Encounter<E>) -> bool {
        self.choice(met) is Deliver ==> met.woken is None
    }

    /// Whether a receive of these turns delivers `event` and leaves the accounts `after`: the queue
    /// looks again after every turn but the last, and the last brings the event.
    pub open spec fn delivers(
        self,
        turns: Seq<Encounter<E>>,
        event: Option<E>,
        after: Ledger<E>,
    ) -> bool {
        &&& 0 < turns.len()
        &&& forall|i: int|
            0 <= i < turns.len() ==> (#[trigger] self.before(turns, i)).awaited(turns[i])
        &&& forall|i: int|
            0 <= i < turns.len() - 1 ==> (#[trigger] self.before(turns, i)).turn(turns[i])
                is Again
        &&& self.before(turns, turns.len() - 1).turn(turns.last()) == Turn::Over(event)
        &&& after == self.after_all(turns)
    }
}

/// One more turn leaves what came before it as it was.
pub proof fn lemma_one_more_turn<E>(
    ledger: Ledger<E>,
    turns: Seq<Encounter<E>>,
    met: Encounter<E>,
)
    ensures
        ledger.after_all(turns.push(met)) == ledger.after_all(turns).after(met),
        ledger.before(turns.push(met), turns.len() as int) == ledger.after_all(turns),
        forall|i: int|
            0 <= i <= turns.len() ==> #[trigger] ledger.before(turns.push(met), i)
                == ledger.before(turns, i),
{
    assert(turns.push(met).drop_last() =~= turns);
    assert forall|i: int| 0 <= i <= turns.len() implies #[trigger] ledger.before(
        turns.push(met),
        i,
    ) == ledger.before(turns, i) by {
        assert(turns.push(met).take(i) =~= turns.take(i));
    }
    assert(turns.take(turns.len() as int) =~= turns);
}

} // verus!
