use snare::addr::{IpAddr, Ipv4Addr, SocketAddr};
use snare::error::{Error, ErrorKind};
use snare::mio::{Events, Interest, Iter, Poll, PollStep, Registry, Token, Waker};
use snare::net::{TcpListener, TcpStream, UdpSocket};
use snare::shim_std_tcp::{ReadStep, WriteStep};
use snare::mio_shim::RegistryView;
use snare::state::{send_udp_from_test, StateView, TestState};
use snare::time::{Duration, Instant, SystemTime};
use snare::{quiesce, set_udp_policy, Now, UdpPolicy};

fn local(port: u16) -> SocketAddr {
    SocketAddr::new(IpAddr::V4(Ipv4Addr::new(127, 0, 0, 1)), port)
}

fn at(millis: u64) -> Now {
    Now {
        mono: Instant::from_epoch(Duration::from_millis(1_000 + millis)),
        wall: SystemTime::from_unix_epoch(Duration::from_millis(1_700_000_000_000 + millis)),
    }
}

fn connect(st: &mut TestState, addr: SocketAddr) -> TcpStream {
    match TcpStream::connect(st, at(0), vec![addr]) {
        Ok(stream) => stream,
        Err(e) => panic!("connect failed: {:?}", e),
    }
}

/// Looks at every source once, at a time at which no time has passed yet.
fn look(poll: &mut Poll, st: &mut TestState, now: Now, events: &mut Events) -> Instant {
    match poll.poll(st, now, events, Some(Duration::from_millis(10))) {
        PollStep::Wait(deadline, span) => {
            assert_eq!(span, Duration::from_millis(10));
            deadline
        }
        PollStep::Done => panic!("there was time"),
    }
}

#[test]
fn waker_emits_event() {
    let mut st = TestState::new(at(0));
    let mut poll = Poll::new().unwrap();
    let waker = Waker::new(poll.registry(), Token(7)).unwrap();
    let mut events = Events::with_capacity(4);

    waker.wake(poll.registry(), &mut st).unwrap();
    let deadline = look(&mut poll, &mut st, at(0), &mut events);
    assert_eq!(poll.poll_again(&mut st, at(0), &mut events, deadline), PollStep::Done);

    let evt = *events.iter().next().unwrap();
    assert!(evt.token() == Token(7) && evt.is_readable() && evt.is_writable());
    look(&mut poll, &mut st, at(0), &mut events);
    assert!(events.is_empty());
}

#[test]
fn listener_readable_on_connect() {
    let mut st = TestState::new(at(0));
    let mut poll = Poll::new().unwrap();
    let mut events = Events::with_capacity(4);
    let mut listener = TcpListener::bind(&mut st, &[local(0)]).unwrap();
    let addr = listener.local_addr().unwrap();
    poll.registry().register(&mut st, &mut listener, Token(1), Interest::readable()).unwrap();

    let _client = connect(&mut st, addr);
    look(&mut poll, &mut st, at(0), &mut events);
    let evt = *events.iter().next().unwrap();
    assert!(evt.token() == Token(1) && evt.is_readable());

    listener.set_nonblocking(&mut st, true).unwrap();
    assert!(listener.accept(&mut st).unwrap().is_some());
}

#[test]
fn stream_readable_after_peer_write() {
    let mut st = TestState::new(at(0));
    let mut poll = Poll::new().unwrap();
    let mut events = Events::with_capacity(4);
    let listener = TcpListener::bind(&mut st, &[local(0)]).unwrap();
    let addr = listener.local_addr().unwrap();
    let client = connect(&mut st, addr);
    listener.set_nonblocking(&mut st, true).unwrap();
    let (mut server, _) = listener.accept(&mut st).unwrap().unwrap();
    poll.registry().register(&mut st, &mut server, Token(2), Interest::readable()).unwrap();

    let deadline = look(&mut poll, &mut st, at(0), &mut events);
    assert!(events.is_empty());
    assert!(matches!(client.write(&mut st, at(1), b"ping"), Ok(WriteStep::Done(4))));
    assert!(matches!(
        poll.poll_again(&mut st, at(1), &mut events, deadline),
        PollStep::Wait(_, _)
    ));
    assert_eq!(poll.poll_again(&mut st, at(1), &mut events, deadline), PollStep::Done);
    let evt = *events.iter().next().unwrap();
    assert!(evt.token() == Token(2) && evt.is_readable());
}

#[test]
fn events_into_iterator_for_ref_works() {
    let mut st = TestState::new(at(0));
    let mut poll = Poll::new().unwrap();
    let mut events = Events::with_capacity(4);
    let timeout = Some(Duration::from_millis(1));
    let deadline = match poll.poll(&mut st, at(0), &mut events, timeout) {
        PollStep::Wait(deadline, span) => {
            assert_eq!(span, Duration::from_millis(1));
            deadline
        }
        PollStep::Done => panic!("expected to wait"),
    };
    assert_eq!(poll.poll_again(&mut st, at(1), &mut events, deadline), PollStep::Done);
    let mut count = 0;
    let mut iter = events.iter();
    while iter.next().is_some() {
        count += 1;
    }
    assert_eq!(count, 0);
}

#[test]
fn room_for_events_outlasts_a_poll() {
    let mut st = TestState::new(at(0));
    let mut poll = Poll::new().unwrap();
    let mut events = Events::with_capacity(64);
    assert!(events.capacity() >= 64);
    poll.poll(&mut st, at(0), &mut events, Some(Duration::from_millis(1)));
    events.clear();
    assert!(events.capacity() >= 64);
}

#[test]
fn events_iter_returns_named_iter_type() {
    let events = Events::with_capacity(4);
    assert!(events.capacity() >= 4);
    assert!(events.is_empty());
    let it: Iter<'_> = events.iter();
    assert_eq!(it.size_hint(), (0, Some(0)));
    assert_eq!(it.count(), 0);
}

#[test]
fn sources_can_be_reregistered_and_removed() {
    let mut st = TestState::new(at(0));
    let mut poll = Poll::new().unwrap();
    let mut events = Events::with_capacity(4);
    let mut socket = UdpSocket::bind(&mut st, &[local(0)]).unwrap();
    let addr = socket.local_addr().unwrap();
    poll.registry().register(&mut st, &mut socket, Token(99), Interest::readable()).unwrap();
    look(&mut poll, &mut st, at(0), &mut events);
    assert!(events.is_empty());
    poll.registry()
        .reregister(&mut st, at(0), &mut socket, Token(98), Interest::writable())
        .unwrap();
    look(&mut poll, &mut st, at(0), &mut events);
    let evt = *events.iter().next().unwrap();
    assert!(evt.token() == Token(98) && evt.is_writable() && !evt.is_readable());
    poll.registry().deregister(&mut st, at(0), &mut socket).unwrap();
    snare::state::send_udp_from_test(&mut st, at(0), local(1), addr, vec![1]);
    look(&mut poll, &mut st, at(0), &mut events);
    assert!(events.is_empty());
}

struct Stub;

impl snare::mio::Source for Stub {
    fn can_register(&self, _s: StateView) -> bool {
        true
    }

    fn can_reregister(&self, _r: RegistryView, _s: StateView, _now: Now) -> bool {
        true
    }

    fn can_deregister(&self, _s: StateView) -> bool {
        true
    }

    fn registers(
        _before: Stub,
        _after: Stub,
        _r: RegistryView,
        _r2: RegistryView,
        _s: StateView,
        _s2: StateView,
        _t: Token,
        _i: Interest,
        _result: Result<(), Error>,
    ) -> bool {
        true
    }

    fn reregisters(
        _before: Stub,
        _after: Stub,
        _r: RegistryView,
        _r2: RegistryView,
        _s: StateView,
        _s2: StateView,
        _now: Now,
        _t: Token,
        _i: Interest,
        _result: Result<(), Error>,
    ) -> bool {
        true
    }

    fn deregisters(
        _before: Stub,
        _after: Stub,
        _r: RegistryView,
        _r2: RegistryView,
        _s: StateView,
        _s2: StateView,
        _now: Now,
        _result: Result<(), Error>,
    ) -> bool {
        true
    }

    fn register(
        &mut self,
        _r: &mut Registry,
        _st: &mut TestState,
        _t: Token,
        _i: Interest,
    ) -> Result<(), Error> {
        Ok(())
    }

    fn reregister(
        &mut self,
        _r: &mut Registry,
        _st: &mut TestState,
        _now: Now,
        _t: Token,
        _i: Interest,
    ) -> Result<(), Error> {
        Ok(())
    }

    fn deregister(
        &mut self,
        _r: &mut Registry,
        _st: &mut TestState,
        _now: Now,
    ) -> Result<(), Error> {
        Ok(())
    }
}

#[test]
fn source_trait_requires_explicit_reregister() {
    let mut st = TestState::new(at(0));
    let mut poll = Poll::new().unwrap();
    let mut s = Stub;
    poll.registry().register(&mut st, &mut s, Token(99), Interest::readable()).unwrap();
    poll.registry().reregister(&mut st, at(0), &mut s, Token(99), Interest::writable()).unwrap();
    poll.registry().deregister(&mut st, at(0), &mut s).unwrap();
}

#[test]
fn test_udp_nonblocking_recv() {
    let mut st = TestState::new(at(0));
    let socket = UdpSocket::bind(&mut st, &[local(0)]).unwrap();
    socket.set_nonblocking(&mut st, true).unwrap();
    let mut buf = [0u8; 4];
    let err = socket.recv_from(&mut st, at(0), &mut buf).unwrap_err();
    assert_eq!(err.kind(), ErrorKind::WouldBlock);
}

#[test]
fn test_tcp_accept_nonblocking() {
    let mut st = TestState::new(at(0));
    let listener = TcpListener::bind(&mut st, &[local(0)]).unwrap();
    listener.set_nonblocking(&mut st, true).unwrap();
    let err = match listener.accept(&mut st) {
        Ok(_) => panic!("expected nonblocking accept to fail"),
        Err(err) => err,
    };
    assert_eq!(err.kind(), ErrorKind::WouldBlock);
}

#[test]
fn a_closed_peer_shows_as_read_closed() {
    let mut st = TestState::new(at(0));
    let mut poll = Poll::new().unwrap();
    let mut events = Events::with_capacity(4);
    let listener = TcpListener::bind(&mut st, &[local(0)]).unwrap();
    let addr = listener.local_addr().unwrap();
    let client = connect(&mut st, addr);
    let (server, _) = listener.accept(&mut st).unwrap().unwrap();
    let mut server = TcpStream::from_std(server, &mut st);
    poll.registry().register(&mut st, &mut server, Token(5), Interest::readable()).unwrap();
    client.close(&mut st, at(1));
    look(&mut poll, &mut st, at(1), &mut events);
    let evt = *events.iter().next().unwrap();
    assert!(evt.is_read_closed() && !evt.is_readable());
}

#[test]
fn streams_of_one_listener_are_told_apart() {
    let mut st = TestState::new(at(0));
    let mut poll = Poll::new().unwrap();
    let mut events = Events::with_capacity(4);
    let listener = TcpListener::bind(&mut st, &[local(0)]).unwrap();
    let addr = listener.local_addr().unwrap();
    let _quiet = connect(&mut st, addr);
    let busy = connect(&mut st, addr);
    let (mut older, _) = listener.accept(&mut st).unwrap().unwrap();
    let (mut younger, _) = listener.accept(&mut st).unwrap().unwrap();
    poll.registry().register(&mut st, &mut older, Token(1), Interest::readable()).unwrap();
    poll.registry().register(&mut st, &mut younger, Token(2), Interest::readable()).unwrap();
    busy.write(&mut st, at(0), b"hi").unwrap();
    look(&mut poll, &mut st, at(0), &mut events);
    let mut iter = events.iter();
    let event = iter.next().unwrap();
    assert!(event.token() == Token(2) && event.is_readable());
    assert!(iter.next().is_none());

    poll.registry().deregister(&mut st, at(0), &mut older).unwrap();
    look(&mut poll, &mut st, at(0), &mut events);
    assert_eq!(events.iter().next().unwrap().token(), Token(2));
}

#[test]
fn a_poll_sleeps_until_the_next_arrival() {
    let mut st = TestState::new(at(0));
    let mut poll = Poll::new().unwrap();
    let mut events = Events::with_capacity(4);
    let mut socket = UdpSocket::bind(&mut st, &[local(5_200)]).unwrap();
    poll.registry().register(&mut st, &mut socket, Token(3), Interest::readable()).unwrap();
    let policy = UdpPolicy { inbound_latency: Duration::from_millis(4), ..UdpPolicy::default() };
    set_udp_policy(&mut st, local(5_200), policy);
    send_udp_from_test(&mut st, at(0), local(9), local(5_200), b"late".to_vec());
    let timeout = Some(Duration::from_millis(10));
    let deadline = match poll.poll(&mut st, at(0), &mut events, timeout) {
        PollStep::Wait(deadline, span) => {
            assert_eq!(span, Duration::from_millis(4));
            deadline
        }
        PollStep::Done => panic!("nothing has arrived"),
    };
    assert!(events.is_empty());
    poll.poll_again(&mut st, at(4), &mut events, deadline);
    assert_eq!(events.iter().next().unwrap().token(), Token(3));

    quiesce(&mut st, at(5), local(5_200), Duration::from_millis(2));
    match poll.poll(&mut st, at(5), &mut events, timeout) {
        PollStep::Wait(_, span) => assert_eq!(span, Duration::from_millis(2)),
        PollStep::Done => panic!("readiness is hidden"),
    }
    assert!(events.is_empty());
}

#[test]
fn a_closed_poller_gives_its_streams_up() {
    let mut st = TestState::new(at(0));
    let mut poll = Poll::new().unwrap();
    let listener = TcpListener::bind(&mut st, &[local(0)]).unwrap();
    let addr = listener.local_addr().unwrap();
    let mut client = connect(&mut st, addr);
    let (server, _) = listener.accept(&mut st).unwrap().unwrap();
    poll.registry().register(&mut st, &mut client, Token(1), Interest::readable()).unwrap();
    client.close(&mut st, at(1));
    let mut buf = [0u8; 4];
    assert_eq!(server.read(&mut st, at(1), &mut buf).unwrap(), ReadStep::Wait(None));
    poll.close(&mut st, at(2));
    assert_eq!(server.read(&mut st, at(2), &mut buf).unwrap(), ReadStep::Done(0));
    assert!(server.is_live(&st));
    assert!(listener.is_live(&st));
}
