use crossbeam::channel::after;
use crossbeam::thread::scope;
use message_io::events::{EventQueue, Obstacle, Unsent};
use std::time::{Duration, Instant};

// This high delay is for ensure to works CI machines that offers really slow resources.
// For a standard execution, a value of 1ms is enough for the 99% of cases.
const DELAY: u64 = 2000; //ms

fn zero_ms() -> Duration {
    Duration::from_millis(0)
}

fn timer_time() -> Duration {
    Duration::from_millis(100)
}

fn timeout() -> Duration {
    timer_time() * 2 + Duration::from_millis(DELAY)
}

fn sleep(duration: Duration) {
    after(duration).recv().unwrap();
}

#[test]
fn waiting_timer_event() {
    let mut queue = EventQueue::new();
    queue.sender().send_with_timer("Timed", timer_time()).unwrap();
    assert_eq!(queue.receive_timeout(timeout()).unwrap(), "Timed");
}

#[test]
fn standard_events_order() {
    let mut queue = EventQueue::new();
    queue.sender().send("first").unwrap();
    queue.sender().send("second").unwrap();
    assert_eq!(queue.receive_timeout(zero_ms()).unwrap(), "first");
    assert_eq!(queue.receive_timeout(zero_ms()).unwrap(), "second");
}

#[test]
fn priority_events_order() {
    let mut queue = EventQueue::new();
    queue.sender().send("standard").unwrap();
    queue.sender().send_with_priority("priority_first").unwrap();
    queue.sender().send_with_priority("priority_second").unwrap();
    assert_eq!(queue.receive_timeout(zero_ms()).unwrap(), "priority_first");
    assert_eq!(queue.receive_timeout(zero_ms()).unwrap(), "priority_second");
    assert_eq!(queue.receive_timeout(zero_ms()).unwrap(), "standard");
}

#[test]
fn timer_events_order() {
    let mut queue = EventQueue::new();
    queue.sender().send_with_timer("timed_last", timer_time() * 2).unwrap();
    queue.sender().send_with_timer("timed_short", timer_time()).unwrap();

    sleep(timeout());
    // The timed event has been received at this point

    assert_eq!(queue.receive_timeout(zero_ms()).unwrap(), "timed_short");
    assert_eq!(queue.receive_timeout(zero_ms()).unwrap(), "timed_last");
}

#[test]
fn default_and_timer_events_order() {
    let mut queue = EventQueue::new();
    queue.sender().send_with_timer("timed", timer_time()).unwrap();
    queue.sender().send("standard_first").unwrap();
    queue.sender().send("standard_second").unwrap();

    sleep(timeout());
    // The timed event has been received at this point

    assert_eq!(queue.receive_timeout(zero_ms()).unwrap(), "timed");
    assert_eq!(queue.receive_timeout(zero_ms()).unwrap(), "standard_first");
    assert_eq!(queue.receive_timeout(zero_ms()).unwrap(), "standard_second");
}

#[test]
fn priority_and_timer_events_order() {
    let mut queue = EventQueue::new();
    queue.sender().send_with_timer("timed", timer_time()).unwrap();
    queue.sender().send_with_priority("priority").unwrap();

    sleep(timeout());
    // The timed event has been received at this point

    assert_eq!(queue.receive_timeout(zero_ms()).unwrap(), "priority");
    assert_eq!(queue.receive_timeout(zero_ms()).unwrap(), "timed");
}

#[test]
fn receive_takes_every_kind_of_event() {
    let mut queue: EventQueue<&'static str> = EventQueue::default();
    queue.sender().send("standard").unwrap();
    assert_eq!(queue.receive(), "standard");
    queue.sender().send_with_priority("priority").unwrap();
    assert_eq!(queue.receive(), "priority");
    queue.sender().send_with_timer("now", zero_ms()).unwrap();
    assert_eq!(queue.receive(), "now");
    queue.sender().send_with_timer("soon", timer_time()).unwrap();
    assert_eq!(queue.receive(), "soon");
}

#[test]
fn standard_events_come_before_timers_that_are_not_due() {
    let mut queue = EventQueue::new();
    queue.sender().send_with_timer("timed", timer_time()).unwrap();
    queue.sender().send("standard").unwrap();
    assert_eq!(queue.receive(), "standard");
    assert_eq!(queue.receive(), "timed");
}

#[test]
fn timers_do_not_come_early() {
    let mut queue = EventQueue::new();
    let start = Instant::now();
    queue.sender().send_with_timer("timed", timer_time()).unwrap();
    assert_eq!(queue.receive_timeout(zero_ms()), None);
    assert_eq!(queue.receive(), "timed");
    assert!(start.elapsed() >= timer_time());
}

#[test]
fn receive_timeout_gives_up() {
    let mut queue: EventQueue<u8> = EventQueue::new();
    let start = Instant::now();
    assert_eq!(queue.receive_timeout(timer_time()), None);
    assert!(start.elapsed() >= timer_time());
}

#[test]
fn timeout_before_the_next_timer() {
    let mut queue = EventQueue::new();
    queue.sender().send_with_timer(1, timer_time() * 100).unwrap();
    assert_eq!(queue.receive_timeout(timer_time()), None);
    queue.sender().send(2).unwrap();
    assert_eq!(queue.receive_timeout(timer_time()), Some(2));
}

#[test]
fn endless_delays_are_refused() {
    let mut queue = EventQueue::new();
    let unsent = queue.sender().send_with_timer(1, Duration::MAX).unwrap_err();
    assert_eq!((unsent.0, unsent.1), (1, Obstacle::DelayTooLong));
    assert_eq!(unsent.reason(), "overflow when adding duration to instant");
    assert_eq!(queue.receive_timeout(zero_ms()), None);
}

#[test]
fn endless_timeouts() {
    let mut queue = EventQueue::new();
    queue.sender().send(2).unwrap();
    assert_eq!(queue.receive_timeout(Duration::MAX), Some(2));
    queue.sender().send_with_timer(3, timer_time()).unwrap();
    assert_eq!(queue.receive_timeout(Duration::MAX), Some(3));
}

#[test]
fn timer_that_is_sent_while_the_queue_waits() {
    let mut queue = EventQueue::new();
    let mut twin = queue.sender().clone();
    let start = Instant::now();
    scope(|threads| {
        threads.spawn(move |_| {
            sleep(timer_time());
            twin.send_with_timer("timed", timer_time()).unwrap();
        });
        assert_eq!(queue.receive(), "timed");
    })
    .unwrap();
    assert!(start.elapsed() >= timer_time() * 2);
}

#[test]
fn timer_that_is_sent_while_the_queue_waits_for_a_time() {
    let mut queue = EventQueue::new();
    let mut twin = queue.sender().clone();
    let start = Instant::now();
    scope(|threads| {
        threads.spawn(move |_| {
            sleep(timer_time());
            twin.send_with_timer("late", timer_time() * 100).unwrap();
            twin.send_with_timer("timed", timer_time()).unwrap();
        });
        assert_eq!(queue.receive_timeout(timeout()), Some("timed"));
        assert_eq!(queue.receive_timeout(timer_time()), None);
    })
    .unwrap();
    assert!(start.elapsed() >= timer_time() * 3);
    assert!(start.elapsed() < timer_time() * 90);
}

#[test]
fn timeout_goes_on_when_a_timer_arrives() {
    let mut queue = EventQueue::new();
    let mut twin = queue.sender().clone();
    let start = Instant::now();
    scope(|threads| {
        threads.spawn(move |_| {
            sleep(timer_time());
            twin.send_with_timer("late", timer_time() * 100).unwrap();
        });
        assert_eq!(queue.receive_timeout(timer_time() * 5), None);
    })
    .unwrap();
    assert!(start.elapsed() >= timer_time() * 5);
    assert!(start.elapsed() < timer_time() * 60);
}

#[test]
fn nothing_is_lost_when_the_time_runs_out() {
    let mut queue = EventQueue::new();
    queue.sender().send_with_timer("timed", timer_time() * 3).unwrap();
    assert_eq!(queue.receive_timeout(timer_time()), None);
    queue.sender().send("first").unwrap();
    queue.sender().send("second").unwrap();
    queue.sender().send_with_priority("priority").unwrap();
    assert_eq!(queue.receive_timeout(zero_ms()), Some("priority"));
    assert_eq!(queue.receive_timeout(zero_ms()), Some("first"));
    assert_eq!(queue.receive_timeout(zero_ms()), Some("second"));
    assert_eq!(queue.receive(), "timed");
    assert_eq!(queue.receive_timeout(zero_ms()), None);
}

#[test]
fn clones_send_to_the_same_queue() {
    let mut queue = EventQueue::new();
    let mut twin = queue.sender().clone();
    twin.send("standard").unwrap();
    twin.send_with_timer("timed", zero_ms()).unwrap();
    twin.clone().send_with_priority("priority").unwrap();
    assert_eq!(queue.receive(), "priority");
    assert_eq!(queue.receive(), "timed");
    assert_eq!(queue.receive(), "standard");
}

#[test]
fn timers_outlive_their_sender() {
    let mut queue = EventQueue::new();
    let mut twin = queue.sender().clone();
    twin.send_with_timer("timed", timer_time()).unwrap();
    drop(twin);
    assert_eq!(queue.receive_timeout(timeout()), Some("timed"));
}

#[test]
fn events_for_a_queue_that_is_gone_come_back() {
    let mut queue = EventQueue::new();
    let mut twin = queue.sender().clone();
    assert!(twin.send("alive").is_ok());
    drop(queue);
    match twin.send("standard") {
        Err(Unsent(event, obstacle)) => {
            assert_eq!((event, obstacle), ("standard", Obstacle::QueueGone))
        }
        Ok(()) => panic!("there is nobody to receive the event"),
    }
    assert_eq!(twin.send_with_priority("priority").unwrap_err().0, "priority");
    let unsent = twin.send_with_timer("timed", timer_time()).unwrap_err();
    assert_eq!(unsent.0, "timed");
    assert_eq!(
        unsent.reason(),
        "The associated EventQueue must be alive for sending an event"
    );
}
