use event_listener::Listener;
use snare::addr::{IpAddr, Ipv4Addr, SocketAddr};
use snare::error::{Error, ErrorKind};
use snare::net::UdpSocket;
use snare::shim_std_udp::{before_recv_wait, RecvStep};
use snare::shim_std_tcp::{after_wait, WaitStep};
use snare::signal::Signal;
use snare::state::{
    earliest_pending_release, has_pending_udp_packet, pop_latest_packet,
    raise_udp_socket_error_from_test, release_pending_for_udp, send_udp_from_test, TestState,
};
use snare::time::{Duration, Instant, SystemTime};
use snare::{set_udp_policy, Now, UdpPolicy};

fn local(port: u16) -> SocketAddr {
    SocketAddr::new(IpAddr::V4(Ipv4Addr::new(127, 0, 0, 1)), port)
}

fn at(millis: u64) -> Now {
    Now {
        mono: Instant::from_epoch(Duration::from_millis(1_000 + millis)),
        wall: SystemTime::from_unix_epoch(Duration::from_millis(1_700_000_000_000 + millis)),
    }
}

#[test]
fn packets_are_picked_up_in_order() {
    let mut st = TestState::new(at(0));
    let socket = UdpSocket::bind(&mut st, &[local(5_001)]).unwrap();
    socket.send_to(&mut st, at(0), b"a", &[local(1)]).unwrap();
    socket.send_to(&mut st, at(0), b"x", &[local(2)]).unwrap();
    socket.send_to(&mut st, at(0), b"b", &[local(1)]).unwrap();
    assert!(has_pending_udp_packet(&st, local(1)));
    let first = pop_latest_packet(&mut st, local(1)).unwrap();
    assert_eq!((first.data, first.source, first.dest), (b"a".to_vec(), local(5_001), local(1)));
    assert_eq!(pop_latest_packet(&mut st, local(1)).unwrap().data, b"b");
    assert!(pop_latest_packet(&mut st, local(1)).is_none());
    assert!(has_pending_udp_packet(&st, local(2)));
}

#[test]
fn a_packet_is_cut_to_the_buffer() {
    let mut st = TestState::new(at(0));
    let socket = UdpSocket::bind(&mut st, &[local(5_002)]).unwrap();
    send_udp_from_test(&mut st, at(0), local(9), local(5_002), b"abcdef".to_vec());
    send_udp_from_test(&mut st, at(0), local(9), local(5_002), b"g".to_vec());
    let mut buf = [0u8; 4];
    assert_eq!(socket.peek_from(&mut st, at(1), &mut buf).unwrap(), RecvStep::Done(4, local(9)));
    assert_eq!(socket.recv_from(&mut st, at(1), &mut buf).unwrap(), RecvStep::Done(4, local(9)));
    assert_eq!(&buf, b"abcd");
    assert_eq!(socket.recv_from(&mut st, at(1), &mut buf).unwrap(), RecvStep::Done(1, local(9)));
    assert_eq!(&buf, b"gbcd");
    assert!(matches!(socket.recv_from(&mut st, at(1), &mut buf), Ok(RecvStep::Wait(_, None))));
}

#[test]
fn a_connected_socket_hears_its_peer_alone() {
    let mut st = TestState::new(at(0));
    let socket = UdpSocket::bind(&mut st, &[local(5_003)]).unwrap();
    let mut buf = [0u8; 4];
    assert_eq!(socket.peer_addr(&st).unwrap_err().kind(), ErrorKind::NotConnected);
    assert_eq!(socket.recv(&mut st, at(1), &mut buf).unwrap_err().kind(), ErrorKind::NotConnected);
    assert_eq!(socket.send(&mut st, at(0), b"x").unwrap_err().kind(), ErrorKind::NotConnected);
    socket.connect(&mut st, &[local(7)]).unwrap();
    assert_eq!(socket.peer_addr(&st).unwrap(), local(7));
    send_udp_from_test(&mut st, at(0), local(8), local(5_003), b"8".to_vec());
    send_udp_from_test(&mut st, at(0), local(7), local(5_003), b"7".to_vec());
    assert_eq!(socket.peek(&mut st, at(1), &mut buf).unwrap(), RecvStep::Done(1, local(7)));
    assert_eq!(socket.recv(&mut st, at(1), &mut buf).unwrap(), RecvStep::Done(1, local(7)));
    assert_eq!(buf[0], b'7');
    socket.set_nonblocking(&mut st, true).unwrap();
    assert_eq!(socket.recv(&mut st, at(1), &mut buf).unwrap_err().kind(), ErrorKind::WouldBlock);
    assert_eq!(socket.recv_from(&mut st, at(1), &mut buf).unwrap(), RecvStep::Done(1, local(8)));
    assert_eq!(socket.send(&mut st, at(0), b"hey").unwrap(), 3);
    assert_eq!(pop_latest_packet(&mut st, local(7)).unwrap().data, b"hey");
    assert!(socket.connect(&mut st, &[]).is_err());
}

#[test]
fn a_delayed_packet_arrives_in_time() {
    let mut st = TestState::new(at(0));
    let socket = UdpSocket::bind(&mut st, &[local(5_004)]).unwrap();
    socket.set_nonblocking(&mut st, true).unwrap();
    let policy = UdpPolicy { inbound_latency: Duration::from_millis(20), ..UdpPolicy::default() };
    set_udp_policy(&mut st, local(5_004), policy);
    send_udp_from_test(&mut st, at(0), local(9), local(5_004), b"late".to_vec());
    let mut buf = [0u8; 8];
    assert_eq!(earliest_pending_release(&st), Some(at(20).mono));
    assert!(socket.recv_from(&mut st, at(19), &mut buf).is_err());
    assert_eq!(socket.recv_from(&mut st, at(20), &mut buf).unwrap(), RecvStep::Done(4, local(9)));
    assert_eq!(&buf[..4], b"late");
    assert_eq!(earliest_pending_release(&st), None);
}

#[test]
fn a_blocking_receive_waits_for_the_arrival() {
    let mut st = TestState::new(at(0));
    let addr = local(5_009);
    let socket = UdpSocket::bind(&mut st, &[addr]).unwrap();
    let policy = UdpPolicy { inbound_latency: Duration::from_millis(20), ..UdpPolicy::default() };
    set_udp_policy(&mut st, addr, policy);
    send_udp_from_test(&mut st, at(0), local(9), addr, b"late".to_vec());
    let mut buf = [0u8; 8];
    let receiving = match socket.recv_from(&mut st, at(5), &mut buf).unwrap() {
        RecvStep::Wait(receiving, None) => receiving,
        _ => panic!("nothing has arrived"),
    };
    let mut deadline = None;
    assert_eq!(
        before_recv_wait(&st, at(5), addr, None, &mut deadline).unwrap(),
        WaitStep::For(Duration::from_millis(15))
    );
    assert!(after_wait(at(20), false, deadline).is_ok());
    assert_eq!(receiving.resume(&mut st, at(20), &mut buf).unwrap(), RecvStep::Done(4, local(9)));
}

#[test]
fn a_packet_with_less_delay_overtakes() {
    let mut st = TestState::new(at(0));
    let addr = local(5_010);
    let socket = UdpSocket::bind(&mut st, &[addr]).unwrap();
    socket.set_nonblocking(&mut st, true).unwrap();
    for (millis, byte) in [(30, b'c'), (10, b'a'), (20, b'b'), (10, b'A')] {
        let inbound_latency = Duration::from_millis(millis);
        set_udp_policy(&mut st, addr, UdpPolicy { inbound_latency, ..UdpPolicy::default() });
        send_udp_from_test(&mut st, at(0), local(9), addr, vec![byte]);
    }
    assert_eq!(earliest_pending_release(&st), Some(at(10).mono));
    assert!(!release_pending_for_udp(&mut st, at(9), addr));
    assert!(release_pending_for_udp(&mut st, at(20), addr));
    assert_eq!(earliest_pending_release(&st), Some(at(30).mono));
    let mut buf = [0u8; 1];
    let mut seen = Vec::new();
    while socket.recv_from(&mut st, at(30), &mut buf).is_ok() {
        seen.push(buf[0]);
    }
    assert_eq!(seen, b"aAbc");
}

#[test]
fn jitter_delays_within_its_bound() {
    let mut st = TestState::new(at(0));
    snare::seed_rng(&mut st, 7);
    let socket = UdpSocket::bind(&mut st, &[local(5_005)]).unwrap();
    socket.set_nonblocking(&mut st, true).unwrap();
    let policy = UdpPolicy {
        inbound_latency: Duration::from_millis(10),
        reorder_jitter: Duration::from_millis(5),
        ..UdpPolicy::default()
    };
    set_udp_policy(&mut st, local(5_005), policy);
    for i in 0..20u8 {
        send_udp_from_test(&mut st, at(0), local(9), local(5_005), vec![i]);
    }
    let mut buf = [0u8; 1];
    assert!(socket.recv_from(&mut st, at(9), &mut buf).is_err());
    let mut seen = Vec::new();
    while socket.recv_from(&mut st, at(15), &mut buf).is_ok() {
        seen.push(buf[0]);
    }
    let sent: Vec<u8> = (0..20).collect();
    assert_ne!(seen, sent, "jitter reorders");
    seen.sort();
    assert_eq!(seen, sent, "and loses nothing");
}

#[test]
fn socket_options_are_independent() {
    let mut st = TestState::new(at(0));
    let socket = UdpSocket::bind(&mut st, &[local(5_006)]).unwrap();
    assert_eq!(socket.ttl(&st).unwrap(), 64);
    assert_eq!(socket.multicast_ttl_v4(&st).unwrap(), 1);
    assert!(!socket.broadcast(&st).unwrap());
    socket.set_ttl(&mut st, 5).unwrap();
    socket.set_multicast_ttl_v4(&mut st, 6).unwrap();
    socket.set_broadcast(&mut st, true).unwrap();
    socket.set_multicast_loop_v4(&mut st, true).unwrap();
    socket.set_multicast_loop_v6(&mut st, true).unwrap();
    socket.set_read_timeout(&mut st, Some(Duration::from_millis(3))).unwrap();
    socket.set_write_timeout(&mut st, Some(Duration::from_millis(4))).unwrap();
    assert_eq!(socket.ttl(&st).unwrap(), 5);
    assert_eq!(socket.multicast_ttl_v4(&st).unwrap(), 6);
    assert!(socket.broadcast(&st).unwrap());
    assert!(socket.multicast_loop_v4(&st).unwrap());
    assert!(socket.multicast_loop_v6(&st).unwrap());
    assert_eq!(socket.read_timeout(&st).unwrap(), Some(Duration::from_millis(3)));
    assert_eq!(socket.write_timeout(&st).unwrap(), Some(Duration::from_millis(4)));
    socket.set_broadcast(&mut st, false).unwrap();
    assert!(!socket.broadcast(&st).unwrap());
    assert!(socket.multicast_loop_v4(&st).unwrap());
    let refused = socket.set_read_timeout(&mut st, Some(Duration::zero())).unwrap_err();
    assert_eq!(refused.kind(), ErrorKind::InvalidInput);
    socket.set_read_timeout(&mut st, None).unwrap();
    assert_eq!(socket.read_timeout(&st).unwrap(), None);
}

#[test]
fn a_receive_times_out() {
    let mut st = TestState::new(at(0));
    let addr = local(5_008);
    UdpSocket::bind(&mut st, &[addr]).unwrap();
    let mut deadline = None;
    let timeout = Some(Duration::from_millis(8));
    assert_eq!(
        before_recv_wait(&st, at(0), addr, timeout, &mut deadline).unwrap(),
        WaitStep::For(Duration::from_millis(8))
    );
    assert_eq!(
        before_recv_wait(&st, at(5), addr, timeout, &mut deadline).unwrap(),
        WaitStep::For(Duration::from_millis(3))
    );
    assert_eq!(
        before_recv_wait(&st, at(8), addr, timeout, &mut deadline).unwrap_err().kind(),
        ErrorKind::WouldBlock
    );
    assert!(after_wait(at(8), true, deadline).is_ok());
    assert_eq!(after_wait(at(8), false, deadline).unwrap_err().kind(), ErrorKind::WouldBlock);
    let mut none = None;
    assert_eq!(
        before_recv_wait(&st, at(0), addr, None, &mut none).unwrap(),
        WaitStep::Forever
    );
}

#[test]
fn a_waiting_receive_resumes() {
    let mut st = TestState::new(at(0));
    let socket = UdpSocket::bind(&mut st, &[local(5_007)]).unwrap();
    let mut buf = [0u8; 4];
    let receiving = match socket.recv_from(&mut st, at(1), &mut buf).unwrap() {
        RecvStep::Wait(receiving, _) => receiving,
        RecvStep::Done(_, _) => panic!("nothing was sent"),
    };
    send_udp_from_test(&mut st, at(1), local(9), local(5_007), b"now".to_vec());
    assert_eq!(receiving.resume(&mut st, at(1), &mut buf).unwrap(), RecvStep::Done(3, local(9)));
    assert_eq!(&buf[..3], b"now");
}

#[test]
fn an_injected_error_is_taken() {
    let mut st = TestState::new(at(0));
    let socket = UdpSocket::bind(&mut st, &[local(5_008)]).unwrap();
    let error = Error::new(ErrorKind::NetworkDown, "down");
    raise_udp_socket_error_from_test(&mut st, at(0), local(5_008), error);
    assert_eq!(socket.take_error(&mut st).unwrap().unwrap().kind(), ErrorKind::NetworkDown);
    assert!(socket.take_error(&mut st).unwrap().is_none());
}

#[test]
fn binding_is_refused_where_it_must_be() {
    let mut st = TestState::new(at(0));
    UdpSocket::bind(&mut st, &[local(5_009)]).unwrap();
    assert!(UdpSocket::bind(&mut st, &[local(5_009)]).is_err());
    assert!(UdpSocket::bind(&mut st, &[]).is_err());
    let strange = SocketAddr::new(IpAddr::V4(Ipv4Addr::new(8, 8, 8, 8)), 53);
    assert!(UdpSocket::bind(&mut st, &[strange]).is_err());
    assert!(UdpSocket::bind(&mut st, &[strange, local(5_010)]).is_ok());
}

#[test]
fn the_generator_is_xorshift() {
    let (state, number) = snare::rng::next(1);
    assert_eq!(state, 0x4082_2041);
    assert_eq!(number, 0x4082_2041);
    let (state, number) = snare::rng::next(state);
    assert_eq!(state, 0x1000_4106_0c01_1441);
    assert_eq!(number, 0x1000_4106 ^ 0x0c01_1441);
    assert_eq!(snare::rng::seeded_state(0), 0xa5a5_a5a5_a5a5_a5a5);
    assert_eq!(snare::rng::seeded_state(9), 9);
}

#[test]
fn a_listener_is_woken_by_its_own_signal() {
    let mut signal = Signal::new();
    let mut other = Signal::new();
    let short = std::time::Duration::from_millis(20);
    let missed = signal.listen();
    other.raise();
    assert!(missed.wait_timeout(short).is_none());
    let woken = signal.listen();
    assert!(!woken.same_event(&other.listen()));
    assert!(woken.same_event(&signal.listen()));
    signal.raise();
    assert!(woken.wait_timeout(short).is_some());
}

#[test]
fn a_change_wakes_those_who_listen_to_the_network() {
    let mut st = TestState::new(at(0));
    let mut other = TestState::new(at(0));
    let short = std::time::Duration::from_millis(20);
    let missed = st.listen();
    UdpSocket::bind(&mut other, &[local(5_101)]).unwrap();
    assert!(missed.wait_timeout(short).is_none());
    let woken = st.listen();
    UdpSocket::bind(&mut st, &[local(5_101)]).unwrap();
    assert!(woken.wait_timeout(short).is_some());
}

#[test]
fn a_raised_error_keeps_its_kind() {
    let mut st = TestState::new(at(0));
    let addr = local(5_102);
    let socket = UdpSocket::bind(&mut st, &[addr]).unwrap();
    let error = Error::new(ErrorKind::ResourceBusy, "busy");
    raise_udp_socket_error_from_test(&mut st, at(1), addr, error);
    let taken = socket.take_error(&mut st).unwrap().unwrap();
    assert_eq!(taken.kind(), ErrorKind::ResourceBusy);
    assert_eq!(taken.message, "busy");
}
