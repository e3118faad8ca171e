use snare::addr::{IpAddr, Ipv4Addr};
use snare::clock::{SleepStep, TimeRate};
use snare::state::{clock, virtual_sleep, TestState};
use snare::thread::{sleep, Harness, ThreadId};
use snare::time::{Duration, Instant, SystemTime};
use snare::{
    add_ip_addr, advance_time, pause_time, resume_time, set_time_rate, set_time_value, time_rate,
    time_value, Now,
};

fn at(millis: u64) -> Now {
    Now {
        mono: Instant::from_epoch(Duration::from_millis(5_000 + millis)),
        wall: SystemTime::from_unix_epoch(Duration::from_millis(1_700_000_001_000 + millis)),
    }
}

fn instant(st: &TestState, now: Now) -> Instant {
    Instant::now(clock(st), now.mono)
}

fn elapsed(st: &TestState, since: Instant, now: Now) -> Duration {
    since.elapsed(clock(st), now.mono)
}

#[test]
fn default_rate_tracks_real_time() {
    let st = TestState::new(at(0));
    assert_eq!((time_rate(&st).num(), time_rate(&st).den()), (1, 1));
    let start = instant(&st, at(3));
    let passed = elapsed(&st, start, at(23));
    assert!(passed >= Duration::from_millis(15));
    assert_eq!(passed, Duration::from_millis(20));
}

#[test]
fn pausing_freezes_now() {
    let mut st = TestState::new(at(0));
    pause_time(&mut st, at(1));
    assert_eq!(time_rate(&st).num(), 0);
    let a = instant(&st, at(2));
    let b = instant(&st, at(22));
    assert_eq!(a, b, "a paused clock must not advance across real sleeps");
    assert_eq!(elapsed(&st, a, at(40)), Duration::zero());
}

#[test]
fn advance_works_while_paused() {
    let mut st = TestState::new(at(0));
    pause_time(&mut st, at(0));
    let a = instant(&st, at(1));
    advance_time(&mut st, Duration::from_secs(30));
    let b = instant(&st, at(2));
    assert_eq!(b.duration_since(a), Duration::from_secs(30));
    assert_eq!(instant(&st, at(12)), b);
}

#[test]
fn set_value_jumps_the_clock() {
    let mut st = TestState::new(at(0));
    pause_time(&mut st, at(0));
    set_time_value(&mut st, at(1), Duration::from_secs(1_000));
    assert_eq!(time_value(&st, at(2)), Duration::from_secs(1_000));
    let now = instant(&st, at(3));
    assert_eq!(elapsed(&st, now, at(4)), Duration::zero());
}

#[test]
fn high_rate_runs_fast() {
    let mut st = TestState::new(at(0));
    set_time_rate(&mut st, at(0), TimeRate::new(1000, 1).unwrap());
    let start = instant(&st, at(0));
    let passed = elapsed(&st, start, at(20));
    assert!(passed >= Duration::from_secs(5));
    assert_eq!(passed, Duration::from_secs(20));
}

#[test]
fn rate_survives_reanchoring_without_going_backwards() {
    let mut st = TestState::new(at(0));
    pause_time(&mut st, at(0));
    set_time_value(&mut st, at(0), Duration::from_secs(100));
    let before = instant(&st, at(1));
    resume_time(&mut st, at(2));
    pause_time(&mut st, at(7));
    let after = instant(&st, at(8));
    assert!(after >= before, "changing the rate must never move the clock backwards");
    assert!(after.duration_since(before) < Duration::from_secs(1));
    assert_eq!(after.duration_since(before), Duration::from_millis(5));
}

#[test]
fn a_negative_rate_is_no_rate() {
    assert!(TimeRate::new(-1, 1).is_none());
    assert!(TimeRate::new(1, 0).is_none());
    assert!(TimeRate::new(0, 1).is_some());
}

#[test]
fn system_time_tracks_the_same_clock() {
    let mut st = TestState::new(at(0));
    pause_time(&mut st, at(0));
    let wall = SystemTime::now(clock(&st), at(1).mono);
    let since_epoch = wall.duration_since(SystemTime::unix_epoch()).unwrap();
    assert!(since_epoch > Duration::from_secs(1_700_000_000));
    advance_time(&mut st, Duration::from_secs(60));
    let later = SystemTime::now(clock(&st), at(2).mono);
    assert_eq!(later.duration_since(wall).unwrap(), Duration::from_secs(60));
    assert_eq!(wall.duration_since(later).unwrap_err().duration(), Duration::from_secs(60));
}

#[test]
fn sleep_blocks_on_the_virtual_clock_while_paused() {
    let mut st = TestState::new(at(0));
    pause_time(&mut st, at(0));
    set_time_value(&mut st, at(0), Duration::from_secs(100));
    let virt_start = instant(&st, at(0));

    let (target, step) = sleep(&st, at(0), Duration::from_secs(5));
    assert_eq!(step, SleepStep::UntilNotified);
    assert_eq!(virtual_sleep(&st, at(30), target), SleepStep::UntilNotified);
    advance_time(&mut st, Duration::from_secs(5));
    assert_eq!(virtual_sleep(&st, at(30), target), SleepStep::Over);
    assert_eq!(elapsed(&st, virt_start, at(30)), Duration::from_secs(5));
}

#[test]
fn sleep_returns_fast_under_a_high_rate() {
    let mut st = TestState::new(at(0));
    set_time_rate(&mut st, at(0), TimeRate::new(1000, 1).unwrap());
    let virt_start = instant(&st, at(0));
    let (target, step) = sleep(&st, at(0), Duration::from_secs(10));
    assert_eq!(step, SleepStep::For(Duration::from_millis(10)));
    assert_eq!(virtual_sleep(&st, at(10), target), SleepStep::Over);
    assert!(elapsed(&st, virt_start, at(10)) >= Duration::from_secs(10));
}

#[test]
fn a_sleep_of_no_length_is_over_at_once() {
    let mut st = TestState::new(at(0));
    pause_time(&mut st, at(0));
    let (_, step) = sleep(&st, at(5), Duration::zero());
    assert_eq!(step, SleepStep::Over);
}

#[test]
fn clock_is_shared_across_the_thread_chain() {
    let mut harness = Harness::isolated();
    harness.register_test(ThreadId(1), at(0), None, None);
    harness.register_thread_child_of(ThreadId(2), ThreadId(1));
    let parent = harness.hierarchy().resolve(ThreadId(1));
    let child = harness.hierarchy().resolve(ThreadId(2));

    let st = harness.network(parent);
    pause_time(st, at(0));
    set_time_value(st, at(0), Duration::from_secs(500));

    let st = harness.network(child);
    assert_eq!(time_value(st, at(1)), Duration::from_secs(500));
    advance_time(st, Duration::from_secs(10));

    assert_eq!(time_value(harness.network(parent), at(2)), Duration::from_secs(510));
}

#[test]
fn unregistered_threads_share_one_clock() {
    let mut harness = Harness::shared(at(0));
    let slot = |harness: &Harness, id: u64| match harness.lookup(ThreadId(id), at(0).mono) {
        snare::thread::Lookup::Found(key) => key,
        other => panic!("expected a network, got {:?}", other),
    };
    let main = slot(&harness, 1);
    let other = slot(&harness, 2);
    assert_eq!(main, other);

    let st = harness.network(main);
    pause_time(st, at(0));
    set_time_value(st, at(0), Duration::from_secs(1_000));
    let st = harness.network(other);
    let seen = time_value(st, at(1));
    advance_time(st, Duration::from_secs(1));
    assert_eq!(seen, Duration::from_secs(1_000));
    assert_eq!(time_value(harness.network(main), at(2)), Duration::from_secs(1_001));
}

#[test]
fn unregistered_threads_share_one_network() {
    let ip = IpAddr::V4(Ipv4Addr::new(9, 9, 9, 9));
    let mut harness = Harness::shared(at(0));
    let key = match harness.lookup(ThreadId(7), at(0).mono) {
        snare::thread::Lookup::Found(key) => key,
        other => panic!("expected a network, got {:?}", other),
    };
    add_ip_addr(harness.network(key), ip);
    let key = match harness.lookup(ThreadId(8), at(0).mono) {
        snare::thread::Lookup::Found(key) => key,
        other => panic!("expected a network, got {:?}", other),
    };
    let addr = snare::addr::SocketAddr::new(ip, 5000);
    snare::net::UdpSocket::bind(harness.network(key), &[addr])
        .expect("bind must see shared valid-IP set");
}
