//! The timed events that a queue holds back until they are due.

use crate::channel::Woken;
use std::collections::BTreeMap;
use vstd::prelude::*;
use vstd::std_specs::cmp::OrdSpec;
use vstd::std_specs::iter::IteratorSpec;

verus! {

broadcast use {vstd::std_specs::btree::group_btree_axioms, vstd::laws_cmp::group_laws_cmp};

/// The timed events that are due at one reading of the clock, in the order in which they arrived.
pub open spec fn row<E>(timers: Map<u128, Seq<E>>, due: u128) -> Seq<E> {
    if timers.contains_key(due) {
        timers[due]
    } else {
        Seq::empty()
    }
}

/// The timed events `timers` after one more has joined them. It comes after those that are due at
/// the same reading of the clock.
pub open spec fn with<E>(timers: Map<u128, Seq<E>>, timed: (u128, E)) -> Map<u128, Seq<E>> {
    timers.insert(timed.0, row(timers, timed.0).push(timed.1))
}

/// The timed events `timers` after those of `arrivals` have joined them, one after the other.
pub open spec fn joined<E>(timers: Map<u128, Seq<E>>, arrivals: Seq<(u128, E)>) -> Map<
    u128,
    Seq<E>,
>
    decreases arrivals.len(),
{
    if arrivals.len() == 0 {
        timers
    } else {
        with(joined(timers, arrivals.drop_last()), arrivals.last())
    }
}

/// The timed events that are left after the first of those that are due at `due` has left.
pub open spec fn without_first<E>(timers: Map<u128, Seq<E>>, due: u128) -> Map<u128, Seq<E>> {
    if row(timers, due).len() <= 1 {
        timers.remove(due)
    } else {
        timers.insert(due, timers[due].drop_first())
    }
}

/// Whether there is an event for every reading of the clock under which `timers` has an entry.
pub open spec fn filled<E>(timers: Map<u128, Seq<E>>) -> bool {
    forall|due: u128| #[trigger] timers.contains_key(due) ==> 0 < timers[due].len()
}

/// Whether `due` is the earliest reading of the clock at which one of `timers` is due.
pub open spec fn is_earliest<R>(timers: Map<u128, R>, due: u128) -> bool {
    &&& timers.contains_key(due)
    &&& forall|other: u128| #[trigger] timers.contains_key(other) ==> due <= other
}

/// The earliest reading of the clock at which one of `timers` is due, if there are any.
pub open spec fn earliest<R>(timers: Map<u128, R>) -> Option<u128> {
    if exists|due: u128| is_earliest(timers, due) {
        Some(choose|due: u128| is_earliest(timers, due))
    } else {
        None
    }
}

/// What a queue does next.
#[derive(Debug, PartialEq, Eq)]
pub enum Choice<E> {
    /// It delivers this event.
    Deliver(E),
    /// It waits for an event, at most until the given reading of the clock.
    Wait(Option<u128>),
}

/// What a queue does next that holds `timers`, has `urgent` as its first event with priority and
/// reads `now` off its clock: an event with priority comes first, then the first of the earliest
/// timed events, once it is due.
pub open spec fn choice<E>(timers: Map<u128, Seq<E>>, urgent: Option<E>, now: u128) -> Choice<E> {
    match (urgent, earliest(timers)) {
        (Some(event), _) => Choice::Deliver(event),
        (None, Some(due)) if due <= now => Choice::Deliver(timers[due][0]),
        (None, due) => Choice::Wait(due),
    }
}

/// The timed events that are left after that choice.
pub open spec fn left_by_choice<E>(
    timers: Map<u128, Seq<E>>,
    urgent: Option<E>,
    now: u128,
) -> Map<u128, Seq<E>> {
    match (urgent, earliest(timers)) {
        (None, Some(due)) if due <= now => without_first(timers, due),
        _ => timers,
    }
}

/// How a turn of a queue ends.
#[derive(Debug, PartialEq, Eq)]
pub enum Turn<E> {
    /// The queue has an event to deliver, or it has run out of time.
    Over(Option<E>),
    /// The queue has to look again.
    Again,
}

/// The first of the timed events that are due at one reading of the clock, if there is one.
pub open spec fn first_at<E>(timers: Map<u128, Seq<E>>, due: u128) -> Option<E> {
    if timers.contains_key(due) {
        Some(timers[due][0])
    } else {
        None
    }
}

/// How a turn ends in which the queue waited for the timed event at `due`. What was sent at once or
/// with priority is delivered, and the timed event when the alarm goes off. A timed event that
/// arrived makes the queue look again at what is due, as does an alarm that was set for nothing. A
/// wait that ran out of time (`None`) brings no event.
pub open spec fn verdict<E>(
    timers: Map<u128, Seq<E>>,
    due: Option<u128>,
    woken: Option<Woken<E>>,
) -> Turn<E> {
    match (woken, due) {
        (Some(Woken::Standard(event)), _) => Turn::Over(Some(event)),
        (Some(Woken::Priority(event)), _) => Turn::Over(Some(event)),
        (Some(Woken::Alarm(_)), Some(due)) => Turn::Over(first_at(timers, due)),
        (Some(_), _) => Turn::Again,
        (None, _) => Turn::Over(None),
    }
}

/// The timed events that are left after that wait.
pub open spec fn left_by_wait<E>(
    timers: Map<u128, Seq<E>>,
    due: Option<u128>,
    woken: Option<Woken<E>>,
) -> Map<u128, Seq<E>> {
    match (woken, due) {
        (Some(Woken::Delayed(timed)), _) => with(timers, timed),
        (Some(Woken::Alarm(_)), Some(due)) => without_first(timers, due),
        _ => timers,
    }
}

/// A map of timed events has at most one earliest reading, and has one unless it is empty.
pub proof fn lemma_earliest<R>(timers: Map<u128, R>)
    requires
        timers.dom().finite(),
    ensures
        earliest(timers) is None <==> timers.dom().is_empty(),
        earliest(timers) matches Some(due) ==> is_earliest(timers, due),
        forall|due: u128| #[trigger] is_earliest(timers, due) ==> earliest(timers) == Some(due),
    decreases timers.dom().len(),
{
    if !timers.dom().is_empty() {
        let some = timers.dom().choose();
        assert(timers.contains_key(some));
        let rest = timers.remove(some);
        lemma_earliest(rest);
        match earliest(rest) {
            None => {
                assert forall|other: u128| #[trigger] timers.contains_key(other) implies some
                    <= other by {
                    if other != some {
                        assert(rest.dom().contains(other));
                    }
                }
                assert(is_earliest(timers, some));
            },
            Some(least) => {
                assert(timers.contains_key(least));
                assert forall|other: u128| #[trigger] timers.contains_key(other) implies (if some
                    <= least {
                    some
                } else {
                    least
                }) <= other by {
                    if other != some {
                        assert(rest.contains_key(other));
                    }
                }
                assert(is_earliest(timers, if some <= least {
                    some
                } else {
                    least
                }));
            },
        }
    }
    assert forall|due: u128| #[trigger] is_earliest(timers, due) implies earliest(timers) == Some(
        due,
    ) by {
        let chosen = choose|other: u128| is_earliest(timers, other);
        assert(is_earliest(timers, chosen));
        assert(timers.contains_key(chosen));
    }
}

/// The timed events that are due at one reading of the clock. There is at least one.
pub struct Row<E> {
    first: E,
    later: Vec<E>,
}

impl<E> View for Row<E> {
    type V = Seq<E>;

    closed spec fn view(&self) -> Seq<E> {
        seq![self.first] + self.later@
    }
}

impl<E> Row<E> {
    /// Makes a row of one event.
    fn new(event: E) -> (row: Row<E>)
        ensures
            row@ == seq![event],
    {
        let row = Row { first: event, later: Vec::new() };
        assert(row@ =~= seq![event]);
        row
    }

    /// Adds an event behind the others.
    fn push(self, event: E) -> (row: Row<E>)
        ensures
            row@ == self@.push(event),
    {
        let mut later = self.later;
        later.push(event);
        let row = Row { first: self.first, later };
        assert(row@ =~= self@.push(event));
        row
    }

    /// Takes out the first event, and returns it with what is left.
    fn split(self) -> (parts: (E, Option<Row<E>>))
        ensures
            parts.0 == self@[0],
            match parts.1 {
                Some(rest) => 1 < self@.len() && rest@ == self@.drop_first(),
                None => self@.len() == 1,
            },
    {
        let mut later = self.later;
        if later.len() == 0 {
            (self.first, None)
        } else {
            let second = later.remove(0);
            let rest = Row { first: second, later };
            assert(rest@ =~= self@.drop_first());
            (self.first, Some(rest))
        }
    }
}

/// Timed events, by the reading of the clock at which each is due.
pub struct Timers<E> {
    rows: BTreeMap<u128, Row<E>>,
}

impl<E> View for Timers<E> {
    type V = Map<u128, Seq<E>>;

    closed spec fn view(&self) -> Map<u128, Seq<E>> {
        self.rows@.map_values(|row: Row<E>| row@)
    }
}

/// Timers have finitely many entries, and an event for every reading of the clock under which they
/// have one.
pub proof fn lemma_timers_valid<E>(timers: Timers<E>)
    ensures
        filled(timers@),
        timers@.dom().finite(),
{
    assert(timers@.dom() =~= timers.rows@.dom());
}

impl<E> Timers<E> {
    /// Holds no timed event.
    pub fn new() -> (timers: Timers<E>)
        ensures
            timers@ == Map::<u128, Seq<E>>::empty(),
    {
        let timers = Timers { rows: BTreeMap::new() };
        assert(timers@ =~= Map::<u128, Seq<E>>::empty());
        timers
    }

    /// Adds a timed event. It comes after those that are due at the same reading of the clock.
    pub fn add(&mut self, timed: (u128, E))
        ensures
            final(self)@ == with(old(self)@, timed),
    {
        let ghost before = self@;
        let (due, event) = timed;
        let row = match self.rows.remove(&due) {
            Some(row) => row.push(event),
            None => Row::new(event),
        };
        self.rows.insert(due, row);
        assert(row@ =~= crate::timers::row(before, due).push(event));
        assert(self@ =~= with(before, timed));
    }

    /// Adds timed events, one after the other.
    pub fn join(&mut self, arrivals: Vec<(u128, E)>)
        ensures
            final(self)@ == joined(old(self)@, arrivals@),
    {
        let ghost before = self@;
        let ghost all = arrivals@;
        assert(all.take(0) =~= Seq::empty());
        for arrival in rest: arrivals
            invariant
                rest.seq() == all,
                self@ == joined(before, all.take(rest.index() as int)),
        {
            let ghost i = rest.index() as int;
            self.add(arrival);
            assert(all.take(i + 1).drop_last() =~= all.take(i));
        }
        assert(all.take(all.len() as int) =~= all);
    }

    /// Returns the earliest reading of the clock at which an event is due.
    pub fn next(&self) -> (due: Option<u128>)
        ensures
            due == earliest(self@),
    {
        assert(self@.dom() =~= self.rows@.dom());
        proof {
            lemma_earliest(self@);
        }
        let in_order = self.rows.iter();
        let ghost all = vstd::std_specs::btree::into_iter(in_order);
        assert(all == IteratorSpec::remaining(&in_order).unref());
        let ghost keys = all.map_values(|entry: (u128, Row<E>)| entry.0);
        assert(IteratorSpec::remaining(&in_order).map_values(|entry: (&u128, &Row<E>)| *entry.0)
            =~= keys);
        proof {
            if 0 < all.len() {
                assert(self.rows@.contains_key(all[0].0));
                assert forall|other: u128| #[trigger] self@.contains_key(other) implies all[0].0
                    <= other by {
                    assert(self.rows@.kv_pairs().contains((other, self.rows@[other])));
                    let j = choose|j: int|
                        0 <= j < all.len() && all[j] == (other, self.rows@[other]);
                    assert(keys[0] == all[0].0 && keys[j] == other);
                    if 0 < j {
                        assert(keys[0].cmp_spec(&keys[j]) is Less);
                    }
                }
            }
        }
        for entry in entries: in_order
            invariant
                entries.index() == 0,
                entries.seq().unref() == all,
                all.len() == self@.dom().len(),
                self@.dom().finite(),
                0 < all.len() ==> is_earliest(self@, all[0].0),
                forall|due: u128| #[trigger]
                    is_earliest(self@, due) ==> earliest(self@) == Some(due),
        {
            return Some(*entry.0);
        }
        None
    }

    /// Takes out the first of the events that are due at the given reading of the clock.
    pub fn take(&mut self, due: u128) -> (event: Option<E>)
        ensures
            final(self)@ == without_first(old(self)@, due),
            event == first_at(old(self)@, due),
    {
        let ghost before = self@;
        match self.rows.remove(&due) {
            Some(row) => {
                assert(row@ == before[due]);
                let (event, rest) = row.split();
                if let Some(rest) = rest {
                    self.rows.insert(due, rest);
                }
                assert(self@ =~= without_first(before, due));
                Some(event)
            },
            None => {
                assert(self@ =~= without_first(before, due));
                None
            },
        }
    }

    /// Decides what to do next, with `urgent` as the first event that was sent with priority and
    /// `now` as the reading of the clock. A timed event that is delivered leaves.
    pub fn decide(&mut self, urgent: Option<E>, now: u128) -> (made: Choice<E>)
        ensures
            made == choice(old(self)@, urgent, now),
            final(self)@ == left_by_choice(old(self)@, urgent, now),
    {
        assert(self@.dom() =~= self.rows@.dom());
        proof {
            lemma_earliest(self@);
        }
        if let Some(event) = urgent {
            return Choice::Deliver(event);
        }
        match self.next() {
            None => Choice::Wait(None),
            Some(due) => {
                if due <= now {
                    match self.take(due) {
                        Some(event) => Choice::Deliver(event),
                        None => Choice::Wait(None),
                    }
                } else {
                    Choice::Wait(Some(due))
                }
            },
        }
    }

    /// Returns how a turn ends in which the queue waited for the timed event at `due`, given what
    /// woke the queue, or nothing where the wait ran out of time. A timed event that arrived joins
    /// the others, and one that is delivered leaves.
    pub fn settle(
        &mut self,
        due: Option<u128>,
        woken: Option<Woken<E>>,
    ) -> (turn: Turn<E>)
        ensures
            turn == verdict(old(self)@, due, woken),
            final(self)@ == left_by_wait(old(self)@, due, woken),
    {
        match (woken, due) {
            (Some(Woken::Standard(event)), _) => Turn::Over(Some(event)),
            (Some(Woken::Priority(event)), _) => Turn::Over(Some(event)),
            (Some(Woken::Alarm(_)), Some(due)) => Turn::Over(self.take(due)),
            (Some(Woken::Alarm(_)), None) => Turn::Again,
            (Some(Woken::Delayed(timed)), _) => {
                self.add(timed);
                Turn::Again
            },
            (None, _) => Turn::Over(None),
        }
    }
}

} // verus!
