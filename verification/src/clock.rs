//! The clock of an event queue: nanoseconds counted from the instant at which the queue was made.

use std::time::{Duration, Instant};
use vstd::prelude::*;

verus! {

/// `std::time::Instant`, carried through as an opaque value.
#[verifier::external_type_specification]
#[verifier::external_body]
pub struct ExInstant(std::time::Instant);

/// Nanoseconds in one second.
pub const NANOS_PER_SEC: u128 = 1_000_000_000;

/// What `Duration::as_nanos` returns: the length of a duration in nanoseconds.
pub uninterp spec fn duration_nanos(duration: Duration) -> u128;

/// What `Instant::checked_add` returns for a duration of the given length: the instant that lies
/// so many nanoseconds after `start`, if there is one.
pub uninterp spec fn instant_after(start: Instant, nanos: u128) -> Option<Instant>;

/// `Instant::now` reads the monotonic clock; nothing is claimed of the reading.
pub assume_specification[ std::time::Instant::now ]() -> (instant: Instant)
;

/// `Instant::checked_add` adds a duration to an instant. The result depends on the instant and on
/// the length of the duration alone.
pub assume_specification[ std::time::Instant::checked_add ](
    instant: &Instant,
    duration: Duration,
) -> (sum: Option<Instant>)
    ensures
        sum == instant_after(*instant, duration_nanos(duration)),
;

/// `Duration::as_nanos` gives the length of a duration in nanoseconds, which is what
/// `duration_nanos` names.
pub assume_specification[ std::time::Duration::as_nanos ](duration: &Duration) -> (nanos: u128)
    ensures
        nanos == duration_nanos(*duration),
;

/// `Duration::as_secs` gives the number of whole seconds of a duration.
pub assume_specification[ std::time::Duration::as_secs ](duration: &Duration) -> (secs: u64)
    ensures
        secs == duration_nanos(*duration) / 1_000_000_000,
;

/// `Duration::new` makes the duration of so many whole seconds and additional nanoseconds. With
/// less than a second of additional nanoseconds there is no carry, and so no overflow.
pub assume_specification[ std::time::Duration::new ](secs: u64, nanos: u32) -> (duration: Duration)
    requires
        nanos < 1_000_000_000,
    ensures
        duration_nanos(duration) == secs * 1_000_000_000 + nanos,
;

/// A clock that counts nanoseconds from the instant at which it was started.
#[derive(Clone, Copy)]
pub struct Clock {
    pub(crate) epoch: Instant,
}

impl Clock {
    /// The instant at which the count starts.
    pub closed spec fn epoch(&self) -> Instant {
        self.epoch
    }

    /// The instant at which the clock shows `due`. There is none for counts beyond what a
    /// `Duration` or an `Instant` can hold.
    pub open spec fn instant(&self, due: u128) -> Option<Instant> {
        if due / NANOS_PER_SEC <= u64::MAX {
            instant_after(self.epoch(), due)
        } else {
            None
        }
    }

    /// Starts a clock at the present instant.
    pub(crate) fn start() -> (clock: Clock)
        ensures
            call_ensures(Instant::now, (), clock.epoch()),
    {
        Clock { epoch: Instant::now() }
    }

    /// Returns the instant at which the clock shows `due`.
    pub(crate) fn instant_at(&self, due: u128) -> (instant: Option<Instant>)
        ensures
            instant == self.instant(due),
    {
        let secs: u128 = due / NANOS_PER_SEC;
        let nanos: u128 = due % NANOS_PER_SEC;
        if secs <= u64::MAX as u128 {
            let duration = Duration::new(secs as u64, nanos as u32);
            self.epoch.checked_add(duration)
        } else {
            None
        }
    }
}

/// The reading of the clock at which a timed event is due, when the clock shows `now` and the
/// event is to come `nanos` later. The count stops at its largest value.
pub open spec fn due_at(now: u128, nanos: u128) -> u128 {
    if now + nanos <= u128::MAX {
        (now + nanos) as u128
    } else {
        u128::MAX
    }
}

/// What is left of `limit` nanoseconds when the clock shows `now` and they began at `start`.
pub open spec fn time_left(limit: u128, start: u128, now: u128) -> u128 {
    if now <= start {
        limit
    } else if now - start <= limit {
        (limit - (now - start)) as u128
    } else {
        0
    }
}

/// Returns what is left of `timeout` when the clock shows `now` and the time began at `start`.
pub fn remaining(timeout: Duration, start: u128, now: u128) -> (left: Duration)
    ensures
        duration_nanos(left) == time_left(duration_nanos(timeout), start, now),
        now <= start ==> left == timeout,
{
    if now <= start {
        return timeout;
    }
    let passed: u128 = now - start;
    let limit: u128 = timeout.as_nanos();
    let left: u128 = if passed <= limit {
        limit - passed
    } else {
        0
    };
    let most: u64 = timeout.as_secs();
    let secs: u128 = left / NANOS_PER_SEC;
    let nanos: u128 = left % NANOS_PER_SEC;
    assert(secs <= most);
    Duration::new(secs as u64, nanos as u32)
}

/// Returns the reading of the clock at which an event is due that is sent at the reading `now`
/// and delayed by `duration`.
pub fn due_time(now: u128, duration: Duration) -> (due: u128)
    ensures
        due == due_at(now, duration_nanos(duration)),
{
    let nanos: u128 = duration.as_nanos();
    if nanos <= u128::MAX - now {
        now + nanos
    } else {
        u128::MAX
    }
}

/// A delayed event is due exactly its delay after the reading at which it is sent, wherever the
/// count goes so far.
pub proof fn law_due_after_the_delay(now: u128, duration: Duration, due: u128)
    requires
        call_ensures(due_time, (now, duration), due),
    ensures
        now + duration_nanos(duration) <= u128::MAX ==> due == now + duration_nanos(duration),
        now + duration_nanos(duration) > u128::MAX ==> due == u128::MAX,
        call_requires(due_time, (now, duration)),
{
}

/// Two delays that follow one another are as long as both together.
pub proof fn law_delays_add_up(
    now: u128,
    first: Duration,
    second: Duration,
    between: u128,
    due: u128,
)
    requires
        call_ensures(due_time, (now, first), between),
        call_ensures(due_time, (between, second), due),
        now + duration_nanos(first) + duration_nanos(second) <= u128::MAX,
    ensures
        due == now + duration_nanos(first) + duration_nanos(second),
{
}

/// There is an instant for a reading of the clock exactly where the count fits a `Duration` and the
/// instant so long after the start of the clock can be told, and it is that instant.
pub proof fn law_instant_of_a_reading(clock: Clock, due: u128)
    ensures
        due < 0x1_0000_0000_0000_0000 * 1_000_000_000 ==> clock.instant(due) == instant_after(
            clock.epoch(),
            due,
        ),
        due >= 0x1_0000_0000_0000_0000 * 1_000_000_000 ==> clock.instant(due) is None,
{
}

/// What is left of a timeout and what has passed of it make up the timeout, as long as no more than
/// the timeout has passed. Nothing is left only once the timeout has passed.
pub proof fn law_time_left_and_passed(timeout: Duration, start: u128, now: u128, left: Duration)
    requires
        call_ensures(remaining, (timeout, start, now), left),
    ensures
        start <= now && now - start <= duration_nanos(timeout) ==> duration_nanos(left) + (now
            - start) == duration_nanos(timeout),
        start <= now && duration_nanos(left) == 0 ==> now - start >= duration_nanos(timeout),
        start <= now && now - start >= duration_nanos(timeout) ==> duration_nanos(left) == 0,
        now <= start ==> left == timeout,
        call_requires(remaining, (timeout, start, now)),
{
}

} // verus!
