use snare::addr::{IpAddr, Ipv4Addr, SocketAddr};
use snare::error::{Error, ErrorKind};
use snare::net::{Shutdown, TcpListener, TcpStream};
use snare::shim_std_tcp::{after_wait, before_wait, ReadStep, WaitStep, WriteStep};
use snare::state::{
    close_socket_from_test, earliest_pending_release, has_ephemeral_port, is_ip_addr_valid,
    is_port_available, raise_tcp_socket_error_from_test, reserve_ephemeral_addr, TestState,
};
use snare::time::{Duration, Instant, SystemTime};
use snare::{
    add_ip_addr, recorded_events, reset_tcp, set_tcp_inbound_latency, set_tcp_recv_window, Now,
    RecordedEvent, SocketType,
};

fn local(port: u16) -> SocketAddr {
    SocketAddr::new(IpAddr::V4(Ipv4Addr::new(127, 0, 0, 1)), port)
}

fn at(millis: u64) -> Now {
    Now {
        mono: Instant::from_epoch(Duration::from_millis(1_000 + millis)),
        wall: SystemTime::from_unix_epoch(Duration::from_millis(1_700_000_000_000 + millis)),
    }
}

fn connect(st: &mut TestState, addr: SocketAddr) -> TcpStream {
    match TcpStream::connect(st, at(0), vec![addr]) {
        Ok(stream) => stream,
        Err(e) => panic!("connect failed: {:?}", e),
    }
}

/// A connection: the listener, the client's end and the server's.
fn pair(st: &mut TestState) -> (TcpListener, TcpStream, TcpStream) {
    let listener = TcpListener::bind(st, &[local(0)]).unwrap();
    let addr = listener.local_addr().unwrap();
    let client = connect(st, addr);
    let (server, peer) = listener.accept(st).unwrap().unwrap();
    assert_eq!(peer, client.local_addr(st).unwrap());
    assert_eq!(server.peer_addr(st).unwrap(), peer);
    assert_eq!(client.peer_addr(st).unwrap(), server.local_addr(st).unwrap());
    (listener, client, server)
}

fn write(st: &mut TestState, now: Now, stream: &TcpStream, data: &[u8]) -> usize {
    match stream.write(st, now, data).unwrap() {
        WriteStep::Done(n) => n,
        WriteStep::Wait(_) => panic!("write waits"),
    }
}

fn read(st: &mut TestState, now: Now, stream: &TcpStream, len: usize) -> Vec<u8> {
    let mut buf = vec![0u8; len];
    match stream.read(st, now, &mut buf).unwrap() {
        ReadStep::Done(n) => buf[..n].to_vec(),
        ReadStep::Wait(_) => panic!("read waits"),
    }
}

#[test]
fn bytes_arrive_in_order_in_both_directions() {
    let mut st = TestState::new(at(0));
    let (_listener, client, server) = pair(&mut st);
    write(&mut st, at(0), &client, b"hello ");
    write(&mut st, at(0), &client, b"world");
    assert_eq!(read(&mut st, at(0), &server, 8), b"hello wo");
    assert_eq!(read(&mut st, at(0), &server, 8), b"rld");
    write(&mut st, at(0), &server, b"back");
    let mut buf = [0u8; 2];
    assert_eq!(client.peek(&mut st, at(0), &mut buf).unwrap(), ReadStep::Done(2));
    assert_eq!(&buf, b"ba");
    assert_eq!(read(&mut st, at(0), &client, 16), b"back");
}

#[test]
fn latency_keeps_the_order() {
    let mut st = TestState::new(at(0));
    let (_listener, client, server) = pair(&mut st);
    let addr = server.local_addr(&mut st).unwrap();
    set_tcp_inbound_latency(&mut st, addr, Duration::from_millis(10));
    write(&mut st, at(0), &client, b"one");
    write(&mut st, at(5), &client, b"two");
    assert_eq!(earliest_pending_release(&st), Some(at(10).mono));
    server.set_nonblocking(&mut st, true).unwrap();
    let mut buf = [0u8; 8];
    assert_eq!(
        server.read(&mut st, at(9), &mut buf).unwrap_err().kind(),
        ErrorKind::WouldBlock
    );
    assert_eq!(read(&mut st, at(10), &server, 8), b"one");
    assert_eq!(earliest_pending_release(&st), Some(at(15).mono));
    assert_eq!(read(&mut st, at(15), &server, 8), b"two");
    assert_eq!(earliest_pending_release(&st), None);
}

#[test]
fn a_full_window_takes_no_more() {
    let mut st = TestState::new(at(0));
    let (_listener, client, server) = pair(&mut st);
    let addr = server.local_addr(&mut st).unwrap();
    set_tcp_recv_window(&mut st, addr, Some(4));
    assert_eq!(write(&mut st, at(0), &client, b"abcd"), 4);
    let writing = match client.write(&mut st, at(0), b"ef").unwrap() {
        WriteStep::Wait(writing) => writing,
        WriteStep::Done(_) => panic!("the window is full"),
    };
    assert_eq!(read(&mut st, at(1), &server, 1), b"a");
    assert!(matches!(writing.retry(&mut st, at(1), b"ef"), Ok(WriteStep::Wait(_))));
    assert_eq!(read(&mut st, at(1), &server, 2), b"bc");
    assert!(matches!(writing.retry(&mut st, at(1), b"ef"), Ok(WriteStep::Done(2))));
    assert_eq!(read(&mut st, at(1), &server, 8), b"def");

    client.set_nonblocking(&mut st, true).unwrap();
    write(&mut st, at(1), &client, b"ghij");
    assert_eq!(
        client.write(&mut st, at(1), b"k").unwrap_err().kind(),
        ErrorKind::WouldBlock
    );
}

#[test]
fn a_dropped_stream_ends_the_other() {
    let mut st = TestState::new(at(0));
    let (_listener, client, server) = pair(&mut st);
    write(&mut st, at(0), &client, b"bye");
    client.close(&mut st, at(1));
    assert_eq!(read(&mut st, at(1), &server, 8), b"bye");
    assert_eq!(read(&mut st, at(1), &server, 8), b"");
    assert!(server.write(&mut st, at(1), b"x").is_err());
}

#[test]
fn a_cloned_stream_stays_open() {
    let mut st = TestState::new(at(0));
    let (_listener, client, server) = pair(&mut st);
    let clone = client.try_clone(&mut st).unwrap();
    client.close(&mut st, at(1));
    write(&mut st, at(1), &clone, b"still here");
    assert_eq!(read(&mut st, at(1), &server, 16), b"still here");
    clone.close(&mut st, at(2));
    assert_eq!(read(&mut st, at(2), &server, 16), b"");
}

#[test]
fn shutting_down_a_half_leaves_the_other() {
    let mut st = TestState::new(at(0));
    let (_listener, client, server) = pair(&mut st);
    client.shutdown(&mut st, Shutdown::Write).unwrap();
    assert_eq!(
        client.write(&mut st, at(0), b"x").unwrap_err().kind(),
        ErrorKind::BrokenPipe
    );
    assert_eq!(read(&mut st, at(0), &server, 4), b"");
    write(&mut st, at(0), &server, b"ok");
    assert_eq!(read(&mut st, at(0), &client, 4), b"ok");
}

#[test]
fn a_reset_shows_once_and_clears() {
    let mut st = TestState::new(at(0));
    let (_listener, client, server) = pair(&mut st);
    write(&mut st, at(0), &server, b"lost?");
    let addr = client.local_addr(&mut st).unwrap();
    reset_tcp(&mut st, at(1), addr);
    assert_eq!(
        client.write(&mut st, at(1), b"x").unwrap_err().kind(),
        ErrorKind::ConnectionReset
    );
    let mut buf = [0u8; 8];
    let again = client.read(&mut st, at(1), &mut buf);
    assert!(!matches!(&again, Err(e) if e.kind() == ErrorKind::ConnectionReset));
    assert!(recorded_events(&st)
        .iter()
        .any(|e| matches!(e.event, RecordedEvent::TcpResetFromTest { .. })));
}

#[test]
fn an_injected_error_is_taken_once() {
    let mut st = TestState::new(at(0));
    let (_listener, client, _server) = pair(&mut st);
    let addr = client.local_addr(&mut st).unwrap();
    let error = Error::new(ErrorKind::HostUnreachable, "gone");
    raise_tcp_socket_error_from_test(&mut st, at(1), addr, error);
    let taken = client.take_error(&mut st).unwrap().unwrap();
    assert_eq!(taken.kind(), ErrorKind::HostUnreachable);
    assert_eq!(taken.message, "gone");
    assert!(client.take_error(&mut st).unwrap().is_none());
}

#[test]
fn a_closed_socket_ends_gracefully() {
    let mut st = TestState::new(at(0));
    let (_listener, client, server) = pair(&mut st);
    let addr = client.local_addr(&mut st).unwrap();
    write(&mut st, at(0), &server, b"last");
    close_socket_from_test(&mut st, at(1), addr, SocketType::Tcp);
    assert_eq!(read(&mut st, at(1), &client, 8), b"last");
    assert_eq!(read(&mut st, at(1), &client, 8), b"");
    assert!(recorded_events(&st)
        .iter()
        .any(|e| matches!(e.event, RecordedEvent::TcpCloseFromTest { .. })));
}

#[test]
fn options_are_kept() {
    let mut st = TestState::new(at(0));
    let (_listener, client, _server) = pair(&mut st);
    client.set_nodelay(&mut st, true).unwrap();
    client.set_ttl(&mut st, 9).unwrap();
    client.set_linger(&mut st, Some(Duration::from_secs(2))).unwrap();
    client.set_read_timeout(&mut st, Some(Duration::from_secs(1))).unwrap();
    client.set_write_timeout(&mut st, Some(Duration::from_millis(1))).unwrap();
    assert!(client.nodelay(&mut st).unwrap());
    assert_eq!(client.ttl(&mut st).unwrap(), 9);
    assert_eq!(client.linger(&mut st).unwrap(), Some(Duration::from_secs(2)));
    assert_eq!(client.read_timeout(&mut st).unwrap(), Some(Duration::from_secs(1)));
    assert_eq!(client.write_timeout(&mut st).unwrap(), Some(Duration::from_millis(1)));
    let refused = client.set_read_timeout(&mut st, Some(Duration::zero())).unwrap_err();
    assert_eq!(refused.kind(), ErrorKind::InvalidInput);
    let refused = client.set_write_timeout(&mut st, Some(Duration::zero())).unwrap_err();
    assert_eq!(refused.kind(), ErrorKind::InvalidInput);
    let mut buf = [0u8; 4];
    assert_eq!(
        client.read(&mut st, at(0), &mut buf).unwrap(),
        ReadStep::Wait(Some(Duration::from_secs(1)))
    );
}

#[test]
fn a_wait_ends_at_its_deadline() {
    let st = TestState::new(at(0));
    let mut deadline = None;
    let timeout = Some(Duration::from_millis(30));
    assert_eq!(
        before_wait(&st, at(0), timeout, &mut deadline).unwrap(),
        WaitStep::For(Duration::from_millis(30))
    );
    assert_eq!(deadline, Some(at(30).mono));
    assert!(after_wait(at(10), true, deadline).is_ok());
    assert_eq!(
        before_wait(&st, at(10), timeout, &mut deadline).unwrap(),
        WaitStep::For(Duration::from_millis(20))
    );
    let late = after_wait(at(30), false, deadline).unwrap_err();
    assert_eq!(late.kind(), ErrorKind::WouldBlock);
}

#[test]
fn a_port_is_bound_once() {
    let mut st = TestState::new(at(0));
    let listener = TcpListener::bind(&mut st, &[local(7_000)]).unwrap();
    assert!(!is_port_available(&st, 7_000));
    let taken = TcpListener::bind(&mut st, &[local(7_000)]).unwrap_err();
    assert_eq!(taken.kind(), ErrorKind::AddrNotAvailable);
    let second = TcpListener::bind(&mut st, &[local(7_000), local(7_001)]).unwrap();
    assert_eq!(second.local_addr().unwrap(), local(7_001));
    listener.close(&mut st);
    assert!(TcpStream::connect(&mut st, at(0), vec![local(7_000)]).is_err());
}

#[test]
fn only_valid_addresses_can_be_bound() {
    let mut st = TestState::new(at(0));
    let ip = IpAddr::V4(Ipv4Addr::new(10, 0, 0, 7));
    assert!(!is_ip_addr_valid(&st, ip));
    assert!(TcpListener::bind(&mut st, &[SocketAddr::new(ip, 80)]).is_err());
    add_ip_addr(&mut st, ip);
    assert!(TcpListener::bind(&mut st, &[SocketAddr::new(ip, 80)]).is_ok());
    assert!(TcpListener::bind(&mut st, &[]).is_err());
}

#[test]
fn ephemeral_ports_differ() {
    let mut st = TestState::new(at(0));
    let ip = IpAddr::V4(Ipv4Addr::new(127, 0, 0, 1));
    let mut seen = Vec::new();
    for _ in 0..50 {
        assert!(has_ephemeral_port(&st));
        let addr = reserve_ephemeral_addr(&mut st, ip);
        assert!(!seen.contains(&addr));
        assert!(addr.port() >= 40_000);
        seen.push(addr);
    }
}

#[test]
fn incoming_yields_connections_in_order() {
    let mut st = TestState::new(at(0));
    let listener = TcpListener::bind(&mut st, &[local(0)]).unwrap();
    let addr = listener.local_addr().unwrap();
    let first = connect(&mut st, addr);
    let second = connect(&mut st, addr);
    let mut incoming = listener.incoming();
    for client in [&first, &second] {
        let server = incoming.next(&mut st).unwrap().unwrap();
        assert_eq!(server.peer_addr(&mut st).unwrap(), client.local_addr(&mut st).unwrap());
    }
    assert!(incoming.next(&mut st).unwrap().is_none());
}

#[test]
fn concurrent_connect_and_drop_does_not_panic() {
    let ip = IpAddr::V4(Ipv4Addr::new(9, 9, 9, 10));
    let addr = SocketAddr::new(ip, 41_000);
    // Four clients of fifty rounds and one server, their steps interleaved in
    // every order that a small generator comes up with.
    for seed in 1u64..=5 {
        let mut st = TestState::new(at(0));
        add_ip_addr(&mut st, ip);
        let listener = TcpListener::bind(&mut st, &[addr]).unwrap();
        listener.set_nonblocking(&mut st, true).unwrap();
        let mut clients: Vec<Option<TcpStream>> = vec![None, None, None, None];
        let mut rounds = [0usize; 4];
        let mut server: Option<TcpStream> = None;
        let mut accepted = 0;
        let mut x = seed;
        let mut buf = [0u8; 1];
        while accepted < 200 {
            x = snare::rng::next(x).0;
            let who = (x % 5) as usize;
            let act = (x >> 8) % 3;
            if who == 4 {
                match server.take() {
                    Some(s) if act == 0 => {
                        let _ = s.read(&mut st, at(0), &mut buf);
                        server = Some(s);
                    }
                    Some(s) if act == 1 => {
                        let _ = s.write(&mut st, at(0), b"y");
                        server = Some(s);
                    }
                    Some(s) => s.close(&mut st, at(0)),
                    None => {
                        if let Ok(Some((s, _))) = listener.accept(&mut st) {
                            accepted += 1;
                            server = Some(s);
                        }
                    }
                }
            } else {
                match clients[who].take() {
                    Some(s) if act == 0 => {
                        let _ = s.write(&mut st, at(0), b"x");
                        clients[who] = Some(s);
                    }
                    Some(s) if act == 1 => {
                        let _ = s.read(&mut st, at(0), &mut buf);
                        clients[who] = Some(s);
                    }
                    Some(s) => s.close(&mut st, at(0)),
                    None if rounds[who] < 50 => {
                        rounds[who] += 1;
                        clients[who] = Some(connect(&mut st, addr));
                    }
                    None => {}
                }
            }
        }
        assert_eq!(accepted, 200);
        assert_eq!(rounds, [50, 50, 50, 50]);
    }
}

#[test]
fn a_new_stream_has_its_first_options() {
    let mut st = TestState::new(at(0));
    let listener = TcpListener::bind(&mut st, &[local(0)]).unwrap();
    let addr = listener.local_addr().unwrap();
    let client = connect(&mut st, addr);
    client.write(&mut st, at(0), b"early").unwrap();
    let (server, _) = listener.accept(&mut st).unwrap().unwrap();
    for stream in [&client, &server] {
        assert_eq!(stream.ttl(&mut st).unwrap(), 64);
        assert!(!stream.nodelay(&mut st).unwrap());
        assert_eq!(stream.read_timeout(&mut st).unwrap(), None);
        assert_eq!(stream.write_timeout(&mut st).unwrap(), None);
        assert_eq!(stream.linger(&mut st).unwrap(), None);
    }
    let clone = server.try_clone(&mut st).unwrap();
    server.set_ttl(&mut st, 7).unwrap();
    assert_eq!(clone.ttl(&mut st).unwrap(), 7);
    assert_eq!(client.ttl(&mut st).unwrap(), 64);
}

#[test]
fn the_earliest_arrival_is_that_of_any_chunk() {
    let mut st = TestState::new(at(0));
    let (_listener, client, server) = pair(&mut st);
    let addr = client.local_addr(&mut st).unwrap();
    set_tcp_inbound_latency(&mut st, addr, Duration::from_millis(30));
    server.write(&mut st, at(0), b"slow").unwrap();
    set_tcp_inbound_latency(&mut st, addr, Duration::from_millis(10));
    server.write(&mut st, at(0), b"fast").unwrap();
    assert_eq!(earliest_pending_release(&st), Some(at(10).mono));
    let mut buf = [0u8; 8];
    assert_eq!(client.read(&mut st, at(10), &mut buf).unwrap(), ReadStep::Wait(None));
    assert_eq!(client.read(&mut st, at(30), &mut buf).unwrap(), ReadStep::Done(8));
    assert_eq!(&buf, b"slowfast");
}
