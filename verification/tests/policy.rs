use snare::addr::{IpAddr, Ipv4Addr, SocketAddr};
use snare::error::ErrorKind;
use snare::net::{TcpListener, TcpStream, UdpSocket};
use snare::rng::Probability;
use snare::shim_std_tcp::{needs_port, ReadStep, WriteStep};
use snare::shim_std_udp::RecvStep;
use snare::state::{send_udp_from_test, TestState};
use snare::time::{Duration, Instant, SystemTime};
use snare::{
    clear_recorded_events, connect_tester, inject_tcp_from_test, peek_local_addr_for_peer,
    quiesce_with_mode, recorded_events, reset_tcp, seed_rng, set_listener_behavior,
    set_tcp_inbound_latency, set_tcp_recv_window, set_udp_policy, ListenerBehavior, NetTester, Now,
    Packetable, QuiesceMode, RecordedEvent, SocketType, UdpPolicy,
};

fn local(port: u16) -> SocketAddr {
    SocketAddr::new(IpAddr::V4(Ipv4Addr::new(127, 0, 0, 1)), port)
}

fn at(millis: u64) -> Now {
    Now {
        mono: Instant::from_epoch(Duration::from_millis(1_000 + millis)),
        wall: SystemTime::from_unix_epoch(Duration::from_millis(1_700_000_000_000 + millis)),
    }
}

fn connect(st: &mut TestState, now: Now, addr: SocketAddr) -> TcpStream {
    match TcpStream::connect(st, now, vec![addr]) {
        Ok(stream) => stream,
        Err(e) => panic!("connect failed: {:?}", e),
    }
}

#[derive(Clone, Debug)]
struct EchoPkt(Vec<u8>);

impl Packetable for EchoPkt {
    const CAN_BE_FLATTENED: bool = false;
    const SOCKET_TYPE: SocketType = SocketType::Tcp;

    fn encode(&self) -> Vec<u8> {
        let mut out = (self.0.len() as u16).to_le_bytes().to_vec();
        out.extend_from_slice(&self.0);
        out
    }

    fn decode(data: &[u8]) -> Option<(Self, usize)> {
        if data.len() < 2 {
            return None;
        }
        let len = u16::from_le_bytes([data[0], data[1]]) as usize;
        if data.len() < 2 + len {
            return None;
        }
        Some((EchoPkt(data[2..2 + len].to_vec()), 2 + len))
    }
}

#[test]
fn reset_tcp_surfaces_econnreset_on_next_read() {
    let mut st = TestState::new(at(0));
    let _tester: NetTester<EchoPkt> = connect_tester(&mut st, local(19_400));
    let stream = connect(&mut st, at(0), local(19_400));
    let addr = stream.local_addr(&mut st).unwrap();

    reset_tcp(&mut st, at(1), addr);

    let mut buf = [0u8; 16];
    match stream.read(&mut st, at(2), &mut buf) {
        Err(e) if e.kind() == ErrorKind::ConnectionReset => {}
        other => panic!("expected ECONNRESET, got {:?}", other),
    }
}

#[test]
fn refusing_listener_returns_econnrefused() {
    let mut st = TestState::new(at(0));
    let addr = local(19_401);
    let _tester: NetTester<EchoPkt> = connect_tester(&mut st, addr);
    set_listener_behavior(&mut st, addr, ListenerBehavior::Refusing);

    match TcpStream::connect(&mut st, at(0), vec![addr]) {
        Err(e) if e.kind() == ErrorKind::ConnectionRefused => {}
        _ => panic!("expected ConnectionRefused"),
    }

    set_listener_behavior(&mut st, addr, ListenerBehavior::Accepting);
    assert!(
        TcpStream::connect(&mut st, at(0), vec![addr]).is_ok(),
        "expected success after re-enabling"
    );
}

#[test]
fn delaying_listener_rejects_until_its_time() {
    let mut st = TestState::new(at(0));
    let listener = TcpListener::bind(&mut st, &[local(19_411)]).unwrap();
    listener.set_nonblocking(&mut st, true).unwrap();
    let addr = listener.local_addr().unwrap();
    set_listener_behavior(&mut st, addr, ListenerBehavior::DelayingUntil(at(50).mono));

    let early = TcpStream::connect(&mut st, at(49), vec![addr]).unwrap_err();
    assert_eq!(early.kind(), ErrorKind::TimedOut);
    assert!(!needs_port(&st, at(49), &vec![addr]));
    assert_eq!(listener.accept(&mut st).unwrap_err().kind(), ErrorKind::WouldBlock);

    assert!(needs_port(&st, at(50), &vec![addr]));
    let client = connect(&mut st, at(50), addr);
    let (server, peer) = listener.accept(&mut st).unwrap().unwrap();
    assert_eq!(peer, client.local_addr(&mut st).unwrap());
    assert_eq!(server.ttl(&mut st).unwrap(), 64);
}

#[test]
fn connecting_where_nobody_listens_is_refused() {
    let mut st = TestState::new(at(0));
    let refused = TcpStream::connect(&mut st, at(0), vec![local(19_412)]).unwrap_err();
    assert_eq!(refused.kind(), ErrorKind::ConnectionRefused);
}

#[test]
fn outbound_only_quiesce_blocks_writes_but_not_reads() {
    let mut st = TestState::new(at(0));
    let addr = local(19_402);
    let _tester: NetTester<EchoPkt> = connect_tester(&mut st, addr);
    let stream = connect(&mut st, at(0), addr);
    let client = stream.local_addr(&mut st).unwrap();

    inject_tcp_from_test(&mut st, at(40), addr, client, EchoPkt(b"tick40".to_vec()).encode());
    let mut buf = [0u8; 32];
    match stream.read(&mut st, at(80), &mut buf).unwrap() {
        ReadStep::Done(n) => assert!(n > 0),
        ReadStep::Wait(_) => panic!("expected data"),
    }

    quiesce_with_mode(
        &mut st,
        at(80),
        client,
        Duration::from_millis(300),
        QuiesceMode::OutboundOnly,
    );
    inject_tcp_from_test(&mut st, at(120), addr, client, EchoPkt(b"tick120".to_vec()).encode());
    match stream.read(&mut st, at(160), &mut buf) {
        Ok(ReadStep::Done(n)) => assert_eq!(n, 9),
        other => panic!("inbound read should not be blocked: {:?}", other),
    }
}

#[test]
fn tcp_inbound_latency_delays_first_read_by_configured_duration() {
    let mut st = TestState::new(at(0));
    let addr = local(19_403);
    let _tester: NetTester<EchoPkt> = connect_tester(&mut st, addr);
    let stream = connect(&mut st, at(0), addr);
    let client = stream.local_addr(&mut st).unwrap();
    set_tcp_inbound_latency(&mut st, client, Duration::from_millis(150));
    match stream.write(&mut st, at(0), &EchoPkt(b"go".to_vec()).encode()).unwrap() {
        WriteStep::Done(n) => assert_eq!(n, 4),
        WriteStep::Wait(_) => panic!("expected to write"),
    }
    inject_tcp_from_test(&mut st, at(0), addr, client, EchoPkt(b"ack".to_vec()).encode());

    let mut buf = [0u8; 64];
    assert_eq!(stream.read(&mut st, at(149), &mut buf).unwrap(), ReadStep::Wait(None));
    assert_eq!(stream.read(&mut st, at(150), &mut buf).unwrap(), ReadStep::Done(5));
    assert_eq!(&buf[..5], &[3, 0, b'a', b'c', b'k']);
}

#[test]
fn tcp_recv_window_backpressures_send_from_test() {
    let mut st = TestState::new(at(0));
    clear_recorded_events(&mut st);
    let addr = local(19_404);
    let _tester: NetTester<EchoPkt> = connect_tester(&mut st, addr);
    let stream = connect(&mut st, at(0), addr);
    let client = stream.local_addr(&mut st).unwrap();
    set_tcp_recv_window(&mut st, client, Some(8));

    for byte in 1u8..=16u8 {
        inject_tcp_from_test(&mut st, at(0), addr, client, EchoPkt(vec![byte]).encode());
    }

    let log = recorded_events(&st);
    let send_count = log
        .iter()
        .filter(|e| matches!(e.event, RecordedEvent::TcpSendFromTest { .. }))
        .count();
    assert!(
        send_count > 0 && send_count <= 4,
        "expected partial accept due to recv-window; got {} sends recorded",
        send_count
    );
    assert_eq!(send_count, 2);
    stream.close(&mut st, at(0));
}

#[test]
fn udp_policy_drops_packets_at_configured_rate() {
    let mut st = TestState::new(at(0));
    seed_rng(&mut st, 0xfeedface_cafebabe);
    let tester = local(19_405);
    let socket = UdpSocket::bind(&mut st, &[local(0)]).unwrap();
    let client = socket.local_addr().unwrap();
    let three_quarters = Probability::from_parts(3 << 30).unwrap();
    set_udp_policy(&mut st, client, UdpPolicy { loss_rate: three_quarters, ..UdpPolicy::default() });
    socket.set_nonblocking(&mut st, true).unwrap();

    let mut received = 0usize;
    let mut buf = [0u8; 16];
    for seq in 1u32..=100 {
        send_udp_from_test(&mut st, at(20 * seq as u64), tester, client, seq.to_le_bytes().to_vec());
        loop {
            match socket.recv_from(&mut st, at(20 * seq as u64), &mut buf) {
                Ok(RecvStep::Done(n, from)) => {
                    assert_eq!(n, 4);
                    assert_eq!(from, tester);
                    assert_eq!(&buf[..4], &seq.to_le_bytes());
                    received += 1;
                }
                Ok(RecvStep::Wait(_, _)) => panic!("must not wait"),
                Err(e) => {
                    assert_eq!(e.kind(), ErrorKind::WouldBlock);
                    break;
                }
            }
        }
    }

    let log = recorded_events(&st);
    let total_attempts =
        log.iter().filter(|e| matches!(e.event, RecordedEvent::UdpSendFromTest { .. })).count();
    let dropped = log
        .iter()
        .filter(|e| matches!(e.event, RecordedEvent::UdpSendFromTest { dropped: true, .. }))
        .count();
    assert!(total_attempts >= 4, "tester barely sent anything: {}", total_attempts);
    let drop_ratio = dropped as f32 / total_attempts as f32;
    assert!(drop_ratio > 0.4 && drop_ratio < 0.95, "drop ratio {} out of range", drop_ratio);
    assert_eq!(received + dropped, 100);
}

#[test]
fn udp_send_above_mtu_returns_invalid_input() {
    let mut st = TestState::new(at(0));
    let socket = UdpSocket::bind(&mut st, &[local(0)]).unwrap();
    let client = socket.local_addr().unwrap();
    set_udp_policy(&mut st, client, UdpPolicy { mtu: Some(64), ..UdpPolicy::default() });
    let dst = local(19_406);
    let big = vec![0u8; 128];
    let res = socket.send_to(&mut st, at(0), &big, &[dst]);
    assert!(
        matches!(&res, Err(e) if e.kind() == ErrorKind::InvalidInput),
        "expected InvalidInput for over-MTU send, got {:?}",
        res
    );
    let small = vec![0u8; 32];
    let res = socket.send_to(&mut st, at(0), &small, &[dst]);
    assert!(res.is_ok(), "small send should succeed: {:?}", res);
}

#[test]
fn udp_send_queue_full_returns_wouldblock() {
    let mut st = TestState::new(at(0));
    let socket = UdpSocket::bind(&mut st, &[local(0)]).unwrap();
    let client = socket.local_addr().unwrap();
    set_udp_policy(&mut st, client, UdpPolicy { send_queue_depth: Some(2), ..UdpPolicy::default() });
    let dst = local(19_407);
    socket.send_to(&mut st, at(0), b"a", &[dst]).unwrap();
    socket.send_to(&mut st, at(0), b"b", &[dst]).unwrap();
    let res = socket.send_to(&mut st, at(0), b"c", &[dst]);
    assert!(
        matches!(&res, Err(e) if e.kind() == ErrorKind::WouldBlock),
        "expected WouldBlock when send queue full, got {:?}",
        res
    );
}

#[test]
fn recording_log_captures_send_close_quiesce() {
    let mut st = TestState::new(at(0));
    clear_recorded_events(&mut st);
    let addr = local(19_408);
    let _tester: NetTester<EchoPkt> = connect_tester(&mut st, addr);
    let stream = connect(&mut st, at(0), addr);
    let client = stream.local_addr(&mut st).unwrap();

    inject_tcp_from_test(&mut st, at(1), addr, client, EchoPkt(b"pong".to_vec()).encode());
    quiesce_with_mode(&mut st, at(2), client, Duration::from_millis(50), QuiesceMode::Both);

    let log = recorded_events(&st);
    assert!(
        log.iter().any(|e| matches!(e.event, RecordedEvent::TcpSendFromTest { .. })),
        "expected at least one TcpSendFromTest event in log: {:?}",
        log
    );
    assert!(
        log.iter().any(|e| matches!(e.event, RecordedEvent::Quiesce { .. })),
        "expected at least one Quiesce event in log: {:?}",
        log
    );
    for win in log.windows(2) {
        assert!(win[1].at >= win[0].at);
    }
    stream.close(&mut st, at(3));
}

#[test]
fn peek_local_addr_for_peer_returns_sut_side_addr() {
    let mut st = TestState::new(at(0));
    let addr = local(19_409);
    let _tester: NetTester<EchoPkt> = connect_tester(&mut st, addr);
    assert_eq!(peek_local_addr_for_peer(&st, addr), None);
    let stream = connect(&mut st, at(0), addr);
    let client = stream.local_addr(&mut st).unwrap();
    assert_eq!(
        peek_local_addr_for_peer(&st, addr),
        Some(client),
        "peek_local_addr_for_peer should match the SUT's local addr"
    );
}

#[test]
fn seeded_losses_repeat() {
    let run = |seed: u64, start: u64| -> Vec<bool> {
        let mut st = TestState::new(at(0));
        seed_rng(&mut st, seed);
        let socket = UdpSocket::bind(&mut st, &[local(4_100)]).unwrap();
        let client = socket.local_addr().unwrap();
        let half = Probability::from_parts(1 << 31).unwrap();
        set_udp_policy(&mut st, client, UdpPolicy { loss_rate: half, ..UdpPolicy::default() });
        for i in 0..64u64 {
            send_udp_from_test(&mut st, at(start + 7 * i), local(1), client, vec![i as u8]);
        }
        recorded_events(&st)
            .iter()
            .map(|e| matches!(e.event, RecordedEvent::UdpSendFromTest { dropped: true, .. }))
            .collect()
    };
    assert_eq!(run(42, 0), run(42, 5_000));
    assert_ne!(run(42, 0), run(43, 0));
}

#[test]
fn certain_loss_and_certain_duplication() {
    let mut st = TestState::new(at(0));
    let socket = UdpSocket::bind(&mut st, &[local(4_200)]).unwrap();
    let client = socket.local_addr().unwrap();
    socket.set_nonblocking(&mut st, true).unwrap();
    let mut buf = [0u8; 4];

    let policy = UdpPolicy { loss_rate: Probability::always(), ..UdpPolicy::default() };
    set_udp_policy(&mut st, client, policy);
    send_udp_from_test(&mut st, at(1), local(1), client, vec![1]);
    assert_eq!(
        socket.recv_from(&mut st, at(2), &mut buf).unwrap_err().kind(),
        ErrorKind::WouldBlock
    );

    let policy = UdpPolicy { duplicate_rate: Probability::always(), ..UdpPolicy::default() };
    set_udp_policy(&mut st, client, policy);
    send_udp_from_test(&mut st, at(2), local(1), client, vec![2]);
    assert_eq!(socket.recv_from(&mut st, at(2), &mut buf).unwrap(), RecvStep::Done(1, local(1)));
    assert_eq!(buf[0], 2);
    assert_eq!(socket.recv_from(&mut st, at(2), &mut buf).unwrap(), RecvStep::Done(1, local(1)));
    assert!(socket.recv_from(&mut st, at(2), &mut buf).is_err());
}
