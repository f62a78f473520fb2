use message_io::channel::{alarm, Woken};
use message_io::clock::{due_time, remaining};
use message_io::inbox::Inbox;
use message_io::timers::{Choice, Timers, Turn};
use std::time::{Duration, Instant};

fn sample() -> Timers<&'static str> {
    let mut timers = Timers::new();
    timers.join(vec![(30, "third"), (10, "first"), (20, "second")]);
    timers
}

#[test]
fn earliest_timer_is_next() {
    let mut timers = sample();
    assert_eq!(timers.next(), Some(10));
    assert_eq!(timers.take(10), Some("first"));
    assert_eq!(timers.next(), Some(20));
    assert_eq!(timers.take(10), None);
    assert_eq!(timers.take(30), Some("third"));
    assert_eq!(timers.take(20), Some("second"));
    assert_eq!(timers.next(), None);
}

#[test]
fn timers_of_one_reading_keep_their_order() {
    let mut timers = sample();
    timers.join(vec![(20, "other"), (40, "fourth"), (40, "fifth")]);
    timers.add((20, "another"));
    assert_eq!(timers.take(20), Some("second"));
    assert_eq!(timers.take(40), Some("fourth"));
    assert_eq!(timers.take(20), Some("other"));
    assert_eq!(timers.take(20), Some("another"));
    assert_eq!(timers.take(20), None);
    assert_eq!(timers.decide(None, 50), Choice::Deliver("first"));
    assert_eq!(timers.decide(None, 50), Choice::Deliver("third"));
    assert_eq!(timers.decide(None, 50), Choice::Deliver("fifth"));
    assert_eq!(timers.next(), None);
}

#[test]
fn priority_goes_before_due_timers() {
    let mut timers = sample();
    assert_eq!(timers.decide(Some("urgent"), 100), Choice::Deliver("urgent"));
    assert_eq!(timers.next(), Some(10));
}

#[test]
fn due_timers_are_delivered_in_order() {
    let mut timers = sample();
    assert_eq!(timers.decide(None, 9), Choice::Wait(Some(10)));
    assert_eq!(timers.decide(None, 10), Choice::Deliver("first"));
    assert_eq!(timers.decide(None, 30), Choice::Deliver("second"));
    assert_eq!(timers.decide(None, 30), Choice::Deliver("third"));
    assert_eq!(timers.decide(None, 30), Choice::Wait(None));
}

#[test]
fn wait_ends_with_what_woke_the_queue() {
    let mut timers = sample();
    let due = timers.next();
    assert_eq!(timers.settle(due, Some(Woken::Standard("event"))), Turn::Over(Some("event")));
    assert_eq!(timers.settle(due, Some(Woken::Priority("urgent"))), Turn::Over(Some("urgent")));
    assert_eq!(timers.settle(due, None), Turn::Over(None));
    assert_eq!(timers.next(), Some(10));
    let rung = Some(Woken::Alarm(Instant::now()));
    assert_eq!(timers.settle(due, rung), Turn::Over(Some("first")));
    assert_eq!(timers.next(), Some(20));
    let due = timers.next();
    assert_eq!(timers.settle(due, Some(Woken::Delayed((5, "early")))), Turn::Again);
    assert_eq!(timers.next(), Some(5));
    assert_eq!(timers.take(5), Some("early"));
}

#[test]
fn time_that_is_left() {
    let second = Duration::from_secs(1);
    assert_eq!(remaining(second, 7, 7), second);
    assert_eq!(remaining(second, 7, 3), second);
    assert_eq!(remaining(second, 7, 250_000_007), Duration::from_millis(750));
    assert_eq!(remaining(second, 7, 1_000_000_007), Duration::ZERO);
    assert_eq!(remaining(second, 7, u128::MAX), Duration::ZERO);
    assert_eq!(remaining(Duration::MAX, 0, 999_999_999), Duration::from_secs(u64::MAX));
}

#[test]
fn due_time_adds_the_delay() {
    assert_eq!(due_time(5, Duration::from_nanos(7)), 12);
    assert_eq!(due_time(1, Duration::new(2, 3)), 2_000_000_004);
    assert_eq!(due_time(u128::MAX - 1, Duration::from_nanos(2)), u128::MAX);
}

#[test]
fn clock_finds_the_instant_of_a_reading() {
    let mut clock = Inbox::<u8>::new().twin_watch();
    let start = clock.instant_at(0).unwrap();
    assert!(start <= Instant::now());
    let later = clock.instant_at(1_500_000_000).unwrap();
    assert_eq!(later.duration_since(start), Duration::from_millis(1500));
    assert_eq!(clock.instant_at(u128::MAX), None);
    let mut twin = clock.twin();
    assert_eq!(twin.instant_at(7), clock.instant_at(7));
    let first = clock.read();
    let second = twin.read();
    assert!(first <= second);
    assert!(second <= clock.read());
}

#[test]
fn inbox_keeps_the_order_of_messages() {
    let mut inbox: Inbox<char> = Inbox::new();
    let to_priority = inbox.priority_outlet();
    let to_delayed = inbox.delayed_outlet();
    assert_eq!(inbox.drain(), vec![]);
    assert_eq!(inbox.first(), None);
    assert_eq!(to_delayed.deliver((2, 'a')), None);
    assert_eq!(to_delayed.clone().deliver((1, 'b')), None);
    assert_eq!(to_priority.deliver('p'), None);
    assert_eq!(to_priority.deliver('q'), None);
    assert_eq!(inbox.drain(), vec![(2, 'a'), (1, 'b')]);
    assert_eq!(inbox.drain(), vec![]);
    assert_eq!(inbox.first(), Some('p'));
    assert_eq!(inbox.first(), Some('q'));
    assert_eq!(inbox.first(), None);
    assert!(inbox.read() <= inbox.read());
    drop(inbox);
    assert_eq!(to_priority.deliver('r'), Some('r'));
}

#[test]
fn wait_tells_the_channels_apart() {
    let mut inbox: Inbox<char> = Inbox::new();
    let silent = inbox.alarm(None);
    let short = Some(Duration::from_millis(10));
    for watches in [true, false] {
        for limit in [None, short] {
            let deadline = Instant::now();
            let rung = alarm(Some(deadline));
            assert_eq!(inbox.wait(watches, &rung, limit), Some(Woken::Alarm(deadline)));
            inbox.standard_outlet().deliver('s');
            assert_eq!(inbox.wait(watches, &silent, limit), Some(Woken::Standard('s')));
            inbox.priority_outlet().deliver('p');
            assert_eq!(inbox.wait(watches, &silent, limit), Some(Woken::Priority('p')));
        }
        assert_eq!(inbox.wait(watches, &silent, short), None);
    }
    for limit in [None, short] {
        inbox.delayed_outlet().deliver((3, 'd'));
        assert_eq!(inbox.wait(false, &silent, short), None);
        assert_eq!(inbox.wait(true, &silent, limit), Some(Woken::Delayed((3, 'd'))));
    }
}

#[test]
fn wait_takes_first_what_comes_first() {
    let mut inbox: Inbox<char> = Inbox::new();
    for limit in [None, Some(Duration::from_millis(10))] {
        for _ in 0..20 {
            let deadline = Instant::now();
            let rung = alarm(Some(deadline));
            inbox.delayed_outlet().deliver((3, 'd'));
            inbox.standard_outlet().deliver('s');
            inbox.priority_outlet().deliver('p');
            assert_eq!(inbox.wait(true, &rung, limit), Some(Woken::Priority('p')));
            assert_eq!(inbox.wait(true, &rung, limit), Some(Woken::Alarm(deadline)));
            assert_eq!(inbox.wait(true, &rung, limit), Some(Woken::Standard('s')));
            assert_eq!(inbox.wait(true, &rung, limit), Some(Woken::Delayed((3, 'd'))));
            inbox.standard_outlet().deliver('s');
            inbox.priority_outlet().deliver('p');
            assert_eq!(inbox.wait(false, &rung, limit), Some(Woken::Priority('p')));
            assert_eq!(inbox.wait(false, &rung, limit), Some(Woken::Standard('s')));
        }
    }
}

#[test]
fn alarm_of_the_clock_goes_off() {
    let mut inbox: Inbox<char> = Inbox::new();
    let rung = inbox.alarm(Some(0));
    match inbox.wait(true, &rung, None) {
        Some(Woken::Alarm(instant)) => assert!(instant <= Instant::now()),
        other => panic!("{:?} came before the alarm", other),
    }
}
