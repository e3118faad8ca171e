use bincode::de::Decoder;
use bincode::enc::Encoder;
use bincode::error::{DecodeError, EncodeError};
use snare::addr::{IpAddr, Ipv4Addr, SocketAddr};
use snare::conn::Packet;
use snare::error::{Error, ErrorKind};
use snare::mio::{Events, Interest, Poll, PollStep, Token};
use snare::net::{TcpStream, UdpSocket};
use snare::shim_std_tcp::{ReadStep, WriteStep};
use snare::shim_std_udp::RecvStep;
use snare::state::{
    close_socket_from_test, pop_latest_packet, send_udp_from_test, TestState,
};
use snare::thread::{Harness, Lookup, ThreadExt, ThreadId};
use snare::time::{Duration, Instant, SystemTime};
use snare::{
    clear_recorded_events, connect_tester, quiesce, recorded_events, set_tcp_inbound_latency, FeedEvent, FeedStep, FinishStep,
    NetTester, Now, Packetable, QuiesceMode, RecordedEvent, RunEvent, RunLoop, RunStep, SocketType,
    TesterAction, TimerState,
};

fn local(port: u16) -> SocketAddr {
    SocketAddr::new(IpAddr::V4(Ipv4Addr::new(127, 0, 0, 1)), port)
}

fn at(nanos: u64) -> Now {
    Now {
        mono: Instant::from_epoch(Duration::from_nanos(1_000_000_000 + nanos)),
        wall: SystemTime::from_unix_epoch(Duration::from_secs(1_700_000_000)),
    }
}

fn ms(n: u64) -> u64 {
    n * 1_000_000
}

/// A tester with its handlers, recurring actions and conditions.
struct Tester<'a, P: Packetable> {
    core: NetTester<P>,
    handlers: Vec<Box<dyn FnMut(P, SocketAddr) -> (Option<P>, Option<TesterAction<P>>) + 'a>>,
    cycles: Vec<Box<dyn FnMut(Now) -> Option<TesterAction<P>> + 'a>>,
    conditions: Vec<Box<dyn FnMut(Now) -> bool + 'a>>,
}

impl<'a, P: Packetable> Tester<'a, P> {
    fn new(st: &mut TestState, addr: SocketAddr) -> Self {
        Tester {
            core: connect_tester(st, addr),
            handlers: Vec::new(),
            cycles: Vec::new(),
            conditions: Vec::new(),
        }
    }

    fn test(mut self, mut f: impl FnMut(P, SocketAddr) -> Option<P> + 'a) -> Self {
        self.core = self.core.with_handler();
        self.handlers.push(Box::new(move |p, src| (f(p, src), None)));
        self
    }

    fn action(mut self, mut f: impl FnMut(P, SocketAddr) -> TesterAction<P> + 'a) -> Self {
        self.core = self.core.with_handler();
        self.handlers.push(Box::new(move |p: P, src| (Some(p.clone()), Some(f(p, src)))));
        self
    }

    fn cyclic(
        mut self,
        now: Now,
        delta: Duration,
        f: impl FnMut(Now) -> Option<TesterAction<P>> + 'a,
    ) -> Self {
        self.core = self.core.with_cycle(now, delta);
        self.cycles.push(Box::new(f));
        self
    }

    fn until(mut self, f: impl FnMut(Now) -> bool + 'a) -> Self {
        self.core = self.core.with_condition();
        self.conditions.push(Box::new(f));
        self
    }

    fn until_elapsed(self, dur: Duration) -> Self {
        let mut timer = TimerState::default();
        self.until(move |now| timer.poll_elapsed(now) >= dur)
    }
}

trait Runnable {
    fn place(&self) -> (SocketAddr, SocketType);
    fn run_due_cycles(&mut self, st: &mut TestState, now: Now);
    fn feed(&mut self, st: &mut TestState, now: Now, data: &[u8], src: SocketAddr) -> Option<usize>;
    fn is_finished(&mut self, st: &TestState, now: Now) -> bool;
    fn soonest(&self, now: Now) -> Option<Duration>;
}

impl<'a, P: Packetable> Runnable for Tester<'a, P> {
    fn place(&self) -> (SocketAddr, SocketType) {
        (self.core.get_addr(), self.core.get_socket_type())
    }

    fn run_due_cycles(&mut self, st: &mut TestState, now: Now) {
        let mut from = 0;
        while let Some(i) = self.core.next_due_cycle(now, from) {
            if let Some(action) = (self.cycles[i])(now) {
                self.core.enact_action(st, now, action);
            }
            self.core.cycle_ran(now, i);
            from = i + 1;
        }
    }

    fn feed(&mut self, st: &mut TestState, now: Now, data: &[u8], src: SocketAddr) -> Option<usize> {
        let mut feed = self.core.test();
        let mut event = FeedEvent::Begin;
        loop {
            event = match feed.step(data, event) {
                FeedStep::Handle(i, pkt) => {
                    let (next, action) = (self.handlers[i])(pkt, src);
                    if let Some(action) = action {
                        self.core.enact_action(st, now, action);
                    }
                    FeedEvent::Handled(next)
                }
                FeedStep::RunCycles => {
                    self.run_due_cycles(st, now);
                    FeedEvent::CyclesRun
                }
                FeedStep::Done(used) => return used,
            };
        }
    }

    fn is_finished(&mut self, st: &TestState, now: Now) -> bool {
        let mut asked = 0;
        let mut met = false;
        loop {
            match self.core.finish_step(st, asked, met) {
                FinishStep::Ask(i) => {
                    met = (self.conditions[i])(now);
                    asked = i + 1;
                }
                FinishStep::Known(finished) => return finished,
            }
        }
    }

    fn soonest(&self, now: Now) -> Option<Duration> {
        self.core.duration_till_soonest_cycle(now)
    }
}

/// Runs testers from the time `start` on. Where they wait, `idle` gets to act
/// and the time passes. The result is the time at the end.
fn run(
    st: &mut TestState,
    start: u64,
    testers: &mut [&mut dyn Runnable],
    idle: &mut dyn FnMut(&mut TestState, Now),
) -> u64 {
    let places = testers.iter().map(|t| t.place()).collect();
    let mut run = RunLoop::new(places).expect("overlapping testers");
    let mut nanos = start;
    let mut event = RunEvent::Begin;
    loop {
        let now = at(nanos);
        event = match run.step(st, now, event) {
            RunStep::RunCycles(i) => {
                testers[i].run_due_cycles(st, now);
                RunEvent::CyclesRun
            }
            RunStep::Test(i, data, src) => {
                RunEvent::Tested(testers[i].feed(st, now, &data, src))
            }
            RunStep::AskFinished(i) => RunEvent::Finished(testers[i].is_finished(st, now)),
            RunStep::AskSoonest(i) => RunEvent::Soonest(testers[i].soonest(now)),
            RunStep::Continue => RunEvent::Begin,
            RunStep::Wait(span) => {
                idle(st, now);
                nanos += span.as_nanos() as u64;
                RunEvent::Begin
            }
            RunStep::Over => return nanos,
        };
    }
}

fn connect(st: &mut TestState, now: Now, addr: SocketAddr) -> TcpStream {
    match TcpStream::connect(st, now, vec![addr]) {
        Ok(stream) => stream,
        Err(e) => panic!("connect failed: {:?}", e),
    }
}

fn write_all(st: &mut TestState, now: Now, stream: &TcpStream, data: &[u8]) {
    match stream.write(st, now, data).unwrap() {
        WriteStep::Done(n) => assert_eq!(n, data.len()),
        WriteStep::Wait(_) => panic!("write waits"),
    }
}

// ----- Counting packets -----

#[derive(Clone, Debug)]
struct TcpTestPacket {
    data_size: u32,
    data: Vec<u8>,
}

#[derive(Clone, Debug)]
struct UdpTestPacket {
    data_size: u32,
    data: Vec<u8>,
}

impl TcpTestPacket {
    fn new(data: &'static [u8]) -> Self {
        Self { data_size: data.len() as u32, data: data.to_vec() }
    }
}

impl UdpTestPacket {
    fn new(data: &'static [u8]) -> Self {
        Self { data_size: data.len() as u32, data: data.to_vec() }
    }
}

impl bincode::Encode for TcpTestPacket {
    fn encode<E: Encoder>(&self, encoder: &mut E) -> Result<(), EncodeError> {
        bincode::Encode::encode(&self.data_size, encoder)?;
        bincode::Encode::encode(&self.data, encoder)
    }
}

impl<Context> bincode::Decode<Context> for TcpTestPacket {
    fn decode<D: Decoder<Context = Context>>(decoder: &mut D) -> Result<Self, DecodeError> {
        Ok(Self {
            data_size: bincode::Decode::decode(decoder)?,
            data: bincode::Decode::decode(decoder)?,
        })
    }
}

impl bincode::Encode for UdpTestPacket {
    fn encode<E: Encoder>(&self, encoder: &mut E) -> Result<(), EncodeError> {
        bincode::Encode::encode(&self.data_size, encoder)?;
        bincode::Encode::encode(&self.data, encoder)
    }
}

impl<Context> bincode::Decode<Context> for UdpTestPacket {
    fn decode<D: Decoder<Context = Context>>(decoder: &mut D) -> Result<Self, DecodeError> {
        Ok(Self {
            data_size: bincode::Decode::decode(decoder)?,
            data: bincode::Decode::decode(decoder)?,
        })
    }
}

impl Packetable for TcpTestPacket {
    const CAN_BE_FLATTENED: bool = false;
    const SOCKET_TYPE: SocketType = SocketType::Tcp;

    fn encode(&self) -> Vec<u8> {
        bincode::encode_to_vec(self, bincode::config::standard()).unwrap()
    }

    fn decode(data: &[u8]) -> Option<(Self, usize)> {
        bincode::decode_from_slice(data, bincode::config::standard()).ok()
    }
}

impl Packetable for UdpTestPacket {
    const CAN_BE_FLATTENED: bool = false;
    const SOCKET_TYPE: SocketType = SocketType::Udp;

    fn encode(&self) -> Vec<u8> {
        bincode::encode_to_vec(self, bincode::config::standard()).unwrap()
    }

    fn decode(data: &[u8]) -> Option<(Self, usize)> {
        bincode::decode_from_slice(data, bincode::config::standard()).ok()
    }
}

#[test]
fn test_encode_decode_tcp_packet() {
    let original = TcpTestPacket { data_size: 5, data: vec![1, 2, 3, 4, 5] };
    let encoded = Packetable::encode(&original);
    let (decoded, size) = <TcpTestPacket as Packetable>::decode(&encoded).unwrap();
    assert_eq!(size, encoded.len());
    assert_eq!(original.data_size, decoded.data_size);
    assert_eq!(original.data.len(), decoded.data.len());
    for (o, d) in original.data.iter().zip(decoded.data.iter()) {
        assert_eq!(o, d);
    }
    assert_eq!(original.flatten().len(), 1);
}

#[test]
fn a_packet_that_is_not_split_comes_back() {
    let packet = UdpTestPacket { data_size: 2, data: vec![7, 8] };
    let parts = packet.flatten();
    assert_eq!(parts.len(), 1);
    assert_eq!((parts[0].data_size, parts[0].data.clone()), (2, vec![7, 8]));
}

#[test]
fn test_encode_decode_udp_packet() {
    let original = UdpTestPacket { data_size: 5, data: vec![1, 2, 3, 4, 5] };
    let encoded = Packetable::encode(&original);
    let (decoded, size) = <UdpTestPacket as Packetable>::decode(&encoded).unwrap();
    assert_eq!(size, encoded.len());
    assert_eq!(original.data_size, decoded.data_size);
    assert_eq!(original.data.len(), decoded.data.len());
    for (o, d) in original.data.iter().zip(decoded.data.iter()) {
        assert_eq!(o, d);
    }
}

#[test]
fn test_tcp_packet_count() {
    let packets_to_send = vec![
        TcpTestPacket::new(&[1, 2, 3]),
        TcpTestPacket::new(&[4, 5, 6, 7]),
        TcpTestPacket::new(&[8, 9]),
        TcpTestPacket::new(&[10]),
        TcpTestPacket::new(&[11, 12, 13, 14, 15]),
        TcpTestPacket::new(&[16, 17, 18, 19, 20, 21]),
        TcpTestPacket::new(&[22, 23, 24, 25, 26, 27, 28]),
        TcpTestPacket::new(&[29, 30, 31, 32, 33, 34, 35, 36]),
        TcpTestPacket::new(&[37, 38, 39, 40, 41, 42, 43, 44, 45]),
        TcpTestPacket::new(&[46, 47, 48, 49, 50, 51, 52, 53, 54, 55, 56]),
    ];
    let expected = packets_to_send.len();
    let mut st = TestState::new(at(0));
    let addr = local(4000);
    let mut count = 0usize;
    {
        let mut tester = Tester::<TcpTestPacket>::new(&mut st, addr).test(|p, _| {
            count += 1;
            Some(p)
        });
        let stream = connect(&mut st, at(0), addr);
        for p in &packets_to_send {
            write_all(&mut st, at(0), &stream, &Packetable::encode(p));
        }
        run(&mut st, 0, &mut [&mut tester], &mut |_, _| {});
    }
    assert_eq!(count, expected);
}

#[test]
fn test_udp_packet_count() {
    let packets_to_send = vec![
        UdpTestPacket::new(&[1, 2, 3]),
        UdpTestPacket::new(&[4, 5, 6, 7]),
        UdpTestPacket::new(&[8, 9]),
        UdpTestPacket::new(&[10]),
        UdpTestPacket::new(&[11, 12, 13, 14, 15]),
        UdpTestPacket::new(&[16, 17, 18, 19, 20, 21]),
        UdpTestPacket::new(&[22, 23, 24, 25, 26, 27, 28]),
        UdpTestPacket::new(&[29, 30, 31, 32, 33, 34, 35, 36]),
        UdpTestPacket::new(&[37, 38, 39, 40, 41, 42, 43, 44, 45]),
        UdpTestPacket::new(&[46, 47, 48, 49, 50, 51, 52, 53, 54, 55, 56]),
    ];
    let expected = packets_to_send.len();
    let mut st = TestState::new(at(0));
    let addr = local(4000);
    let mut count = 0usize;
    {
        let mut tester = Tester::<UdpTestPacket>::new(&mut st, addr)
            .test(|p, _| {
                count += 1;
                Some(p)
            })
            .until_elapsed(Duration::from_secs(2));
        let socket = UdpSocket::bind(&mut st, &[local(4001)]).unwrap();
        for p in &packets_to_send {
            socket.send_to(&mut st, at(0), &Packetable::encode(p), &[addr]).unwrap();
        }
        let end = run(&mut st, 0, &mut [&mut tester], &mut |_, _| {});
        assert!(end >= ms(2_000));
    }
    assert_eq!(count, expected);
}

#[test]
fn a_partial_packet_waits_for_the_rest() {
    let mut st = TestState::new(at(0));
    let addr = local(4000);
    let mut seen: Vec<Vec<u8>> = Vec::new();
    {
        let mut tester = Tester::<TcpTestPacket>::new(&mut st, addr)
            .test(|p, _| {
                seen.push(p.data.clone());
                Some(p)
            })
            .until_elapsed(Duration::from_millis(100));
        let stream = connect(&mut st, at(0), addr);
        let bytes = Packetable::encode(&TcpTestPacket::new(&[7, 8, 9]));
        write_all(&mut st, at(0), &stream, &bytes[..2]);
        let mut rest = Some(bytes[2..].to_vec());
        run(&mut st, 0, &mut [&mut tester], &mut |st, now| {
            if let Some(rest) = rest.take() {
                write_all(st, now, &stream, &rest);
            }
        });
    }
    assert_eq!(seen, vec![vec![7, 8, 9]]);
}

#[test]
fn every_client_of_a_tester_is_heard() {
    let mut st = TestState::new(at(0));
    let addr = local(4000);
    let mut seen: Vec<(Vec<u8>, SocketAddr)> = Vec::new();
    let peer = {
        let mut tester = Tester::<TcpTestPacket>::new(&mut st, addr)
            .test(|p, src| {
                seen.push((p.data.clone(), src));
                Some(p)
            })
            .until_elapsed(Duration::from_millis(100));
        let first = connect(&mut st, at(0), addr);
        let second = connect(&mut st, at(0), addr);
        let bytes = Packetable::encode(&TcpTestPacket::new(&[7, 8, 9]));
        write_all(&mut st, at(0), &first, &bytes[..2]);
        write_all(&mut st, at(0), &second, &bytes);
        run(&mut st, 0, &mut [&mut tester], &mut |_, _| {});
        second.local_addr(&mut st).unwrap()
    };
    assert_eq!(seen, vec![(vec![7, 8, 9], peer)]);
}

#[test]
fn the_log_is_oldest_first() {
    let mut st = TestState::new(at(0));
    assert!(recorded_events(&st).is_empty());
    let addr = local(4500);
    UdpSocket::bind(&mut st, &[addr]).unwrap();
    send_udp_from_test(&mut st, at(ms(1)), local(9), addr, vec![1]);
    quiesce(&mut st, at(ms(1)), addr, Duration::from_millis(5));
    let earlier = recorded_events(&st);
    assert_eq!(earlier, recorded_events(&st));
    close_socket_from_test(&mut st, at(ms(3)), addr, SocketType::Udp);
    let log = recorded_events(&st);
    assert_eq!(log.len(), 3);
    assert_eq!(&log[..2], &earlier[..]);
    assert!(log.windows(2).all(|pair| pair[0].at <= pair[1].at));
    clear_recorded_events(&mut st);
    assert!(recorded_events(&st).is_empty());
}

#[test]
fn bytes_reach_a_tester_over_a_slow_link() {
    let mut st = TestState::new(at(0));
    let addr = local(4000);
    let mut seen = 0;
    let end = {
        let mut tester = Tester::<TcpTestPacket>::new(&mut st, addr)
            .test(|p, _| {
                seen += 1;
                Some(p)
            })
            .until_elapsed(Duration::from_millis(50));
        set_tcp_inbound_latency(&mut st, addr, Duration::from_millis(30));
        let stream = connect(&mut st, at(0), addr);
        let bytes = Packetable::encode(&TcpTestPacket::new(&[1]));
        write_all(&mut st, at(0), &stream, &bytes);
        run(&mut st, 0, &mut [&mut tester], &mut |_, _| {})
    };
    assert!(end >= ms(50));
    assert_eq!(seen, 1);
}

// ----- Recurring actions -----

#[derive(Clone, Debug)]
struct DummyPacket(Vec<u8>);

impl Packetable for DummyPacket {
    const CAN_BE_FLATTENED: bool = false;
    const SOCKET_TYPE: SocketType = SocketType::Udp;

    fn encode(&self) -> Vec<u8> {
        self.0.clone()
    }

    fn decode(data: &[u8]) -> Option<(Self, usize)> {
        Some((Self(data.to_vec()), data.len()))
    }
}

#[test]
fn send_packet_every_8_ms() {
    let mut st = TestState::new(at(0));
    let mut deltas: Vec<Duration> = Vec::new();
    {
        let mut last: Option<Instant> = None;
        let mut tester = Tester::<DummyPacket>::new(&mut st, local(4300))
            .cyclic(at(0), Duration::from_millis(8), |now| {
                if let Some(previous) = last.replace(now.mono) {
                    deltas.push(now.mono.saturating_duration_since(previous));
                }
                Some(TesterAction::Multiple(Vec::new()))
            })
            .until_elapsed(Duration::from_millis(60));
        run(&mut st, 0, &mut [&mut tester], &mut |_, _| {});
    }
    assert!(deltas.len() >= 3, "expected multiple cycles, got {}", deltas.len());
    for delta in deltas {
        assert!(delta > Duration::from_millis(0));
        assert!(delta <= Duration::from_millis(80));
        assert_eq!(delta, Duration::from_millis(8));
    }
}

#[test]
fn stateless_cycles_fire() {
    let mut st = TestState::new(at(0));
    let mut count = 0;
    {
        let mut tester = Tester::<DummyPacket>::new(&mut st, local(4301))
            .cyclic(at(0), Duration::from_millis(5), |_| {
                count += 1;
                Some(TesterAction::Multiple(Vec::new()))
            })
            .until_elapsed(Duration::from_millis(30));
        run(&mut st, 0, &mut [&mut tester], &mut |_, _| {});
    }
    assert!(count >= 3, "expected at least 3 cycles, got {}", count);
}

#[test]
fn the_soonest_cycle_is_named() {
    let mut st = TestState::new(at(0));
    let tester: NetTester<DummyPacket> = connect_tester(&mut st, local(4302));
    assert_eq!(tester.duration_till_soonest_cycle(at(0)), None);
    let mut tester = tester
        .with_cycle(at(0), Duration::from_millis(9))
        .with_cycle(at(ms(2)), Duration::from_millis(4));
    assert_eq!(tester.duration_till_soonest_cycle(at(ms(3))), Some(Duration::from_millis(3)));
    assert_eq!(tester.duration_till_soonest_cycle(at(ms(7))), Some(Duration::zero()));
    assert_eq!(tester.next_due_cycle(at(ms(3)), 0), None);
    assert_eq!(tester.next_due_cycle(at(ms(7)), 0), Some(1));
    tester.cycle_ran(at(ms(7)), 1);
    assert_eq!(tester.next_due_cycle(at(ms(7)), 0), None);
    assert_eq!(tester.next_due_cycle(at(ms(9)), 0), Some(0));
    assert_eq!(tester.next_due_cycle(at(ms(9)), 1), None);
}

#[test]
fn a_run_waits_ten_milliseconds_by_default() {
    let mut st = TestState::new(at(0));
    let mut run = RunLoop::new(vec![(local(4303), SocketType::Udp)]).unwrap();
    assert!(matches!(run.step(&mut st, at(0), RunEvent::Begin), RunStep::RunCycles(0)));
    assert!(matches!(run.step(&mut st, at(0), RunEvent::CyclesRun), RunStep::AskFinished(0)));
    assert!(matches!(run.step(&mut st, at(0), RunEvent::Finished(false)), RunStep::AskSoonest(0)));
    match run.step(&mut st, at(0), RunEvent::Soonest(None)) {
        RunStep::Wait(span) => assert_eq!(span, Duration::from_millis(10)),
        other => panic!("expected to wait, got {:?}", other),
    }
}

#[test]
fn a_run_does_not_sleep_through_an_arrival() {
    let mut st = TestState::new(at(0));
    let socket = UdpSocket::bind(&mut st, &[local(4304)]).unwrap();
    let addr = socket.local_addr().unwrap();
    let policy = snare::UdpPolicy {
        inbound_latency: Duration::from_millis(4),
        ..snare::UdpPolicy::default()
    };
    snare::set_udp_policy(&mut st, addr, policy);
    snare::state::send_udp_from_test(&mut st, at(0), local(1), addr, vec![1]);
    let mut run = RunLoop::new(vec![(local(4305), SocketType::Udp)]).unwrap();
    run.step(&mut st, at(ms(1)), RunEvent::Begin);
    run.step(&mut st, at(ms(1)), RunEvent::CyclesRun);
    run.step(&mut st, at(ms(1)), RunEvent::Finished(false));
    match run.step(&mut st, at(ms(1)), RunEvent::Soonest(Some(Duration::from_secs(1)))) {
        RunStep::Wait(span) => assert_eq!(span, Duration::from_millis(3)),
        other => panic!("expected to wait, got {:?}", other),
    }
}

#[test]
fn overlapping_testers_are_detected() {
    assert!(RunLoop::new(vec![(local(1), SocketType::Udp), (local(1), SocketType::Tcp)]).is_some());
    assert!(RunLoop::new(vec![
        (local(1), SocketType::Udp),
        (local(2), SocketType::Udp),
        (local(1), SocketType::Udp),
    ])
    .is_none());
}

#[test]
fn a_timer_starts_when_it_is_first_asked() {
    let mut timer = TimerState::default();
    assert_eq!(timer.poll_elapsed(at(ms(5))), Duration::zero());
    assert_eq!(timer.poll_elapsed(at(ms(12))), Duration::from_millis(7));
}

// ----- Responses -----

#[derive(Clone, Debug)]
struct BytePacket(Vec<u8>);

impl Packetable for BytePacket {
    const CAN_BE_FLATTENED: bool = false;
    const SOCKET_TYPE: SocketType = SocketType::Udp;

    fn encode(&self) -> Vec<u8> {
        self.0.clone()
    }

    fn decode(data: &[u8]) -> Option<(Self, usize)> {
        if data.is_empty() {
            None
        } else {
            Some((Self(data.to_vec()), data.len()))
        }
    }
}

fn check_response(request: Vec<u8>, expected: Vec<u8>, tester_addr: SocketAddr, client_addr: SocketAddr) {
    let mut st = TestState::new(at(0));
    let socket = UdpSocket::bind(&mut st, &[client_addr]).unwrap();
    socket.send_to(&mut st, at(0), &request, &[tester_addr]).unwrap();
    let sent = std::cell::Cell::new(0usize);
    let mut last_response: Vec<u8> = Vec::new();
    {
        let mut tester = Tester::<BytePacket>::new(&mut st, tester_addr)
            .action(|packet, src| {
                let response = match packet.0.first().copied() {
                    Some(0x01) => vec![0xA1],
                    Some(0x02) => vec![0xA2, 0x00],
                    Some(0x03) => vec![0xA3, 0x01, 0x02],
                    _ => vec![0xFF],
                };
                sent.set(sent.get() + 1);
                last_response = response.clone();
                TesterAction::Send(src, BytePacket(response))
            })
            .until(|_| sent.get() >= 1)
            .until_elapsed(Duration::from_secs(5));
        run(&mut st, 0, &mut [&mut tester], &mut |_, _| {});
    }
    assert_eq!(last_response, expected);
    let mut buf = [0u8; 8];
    let got = socket.recv_from(&mut st, at(5_000), &mut buf).unwrap();
    assert_eq!(got, RecvStep::Done(expected.len(), tester_addr));
    assert_eq!(&buf[..expected.len()], &expected[..]);
}

#[test]
fn responds_with_correct_payload_single_packet() {
    check_response(vec![0x01, 0x10], vec![0xA1], local(4400), local(4401));
}

#[test]
fn responds_with_correct_payload_alt_packet() {
    check_response(vec![0x03, 0x99], vec![0xA3, 0x01, 0x02], local(4410), local(4411));
}

#[test]
fn a_handler_can_stop_a_packet() {
    let mut st = TestState::new(at(0));
    let socket = UdpSocket::bind(&mut st, &[local(4421)]).unwrap();
    for byte in 0u8..4 {
        socket.send_to(&mut st, at(0), &[byte], &[local(4420)]).unwrap();
    }
    let mut passed: Vec<u8> = Vec::new();
    {
        let mut tester = Tester::<BytePacket>::new(&mut st, local(4420))
            .test(|p, _| if p.0[0] % 2 == 0 { None } else { Some(p) })
            .test(|p, _| {
                passed.push(p.0[0]);
                Some(p)
            });
        run(&mut st, 0, &mut [&mut tester], &mut |_, _| {});
    }
    assert_eq!(passed, vec![1, 3]);
}

#[test]
fn every_action_is_done_to_the_network() {
    let mut st = TestState::new(at(0));
    let tester: NetTester<BytePacket> = connect_tester(&mut st, local(4430));
    let socket = UdpSocket::bind(&mut st, &[local(4431)]).unwrap();
    socket.set_nonblocking(&mut st, true).unwrap();
    let addr = socket.local_addr().unwrap();
    let actions = TesterAction::Multiple(vec![
        TesterAction::Send(addr, BytePacket(vec![9])),
        TesterAction::Multiple(vec![TesterAction::Quiesce(addr, Duration::from_millis(5))]),
        TesterAction::QuiesceWithMode(addr, Duration::from_millis(6), QuiesceMode::InboundOnly),
        TesterAction::RaiseSocketError(addr, Error::new(ErrorKind::Other, "boom")),
        TesterAction::CloseSocket(addr),
    ]);
    tester.enact_action(&mut st, at(ms(1)), actions);
    let kinds: Vec<RecordedEvent> = recorded_events(&st).iter().map(|e| e.event).collect();
    assert_eq!(kinds.len(), 5);
    assert!(matches!(kinds[0], RecordedEvent::UdpSendFromTest { len: 1, dropped: false, .. }));
    assert!(matches!(kinds[1], RecordedEvent::Quiesce { mode: QuiesceMode::Both, .. }));
    assert!(matches!(kinds[2], RecordedEvent::Quiesce { mode: QuiesceMode::InboundOnly, .. }));
    assert!(matches!(kinds[3], RecordedEvent::SocketErrorFromTest { kind: ErrorKind::Other, .. }));
    assert!(matches!(kinds[4], RecordedEvent::UdpCloseFromTest { .. }));
    let mut buf = [0u8; 4];
    let err = socket.recv_from(&mut st, at(5_000), &mut buf).unwrap_err();
    assert_eq!(err.kind(), ErrorKind::BrokenPipe);
}

// ----- Polling beside a tester -----

#[derive(Clone)]
struct Ping;

impl Packetable for Ping {
    const CAN_BE_FLATTENED: bool = false;
    const SOCKET_TYPE: SocketType = SocketType::Udp;

    fn encode(&self) -> Vec<u8> {
        b"ping".to_vec()
    }

    fn decode(data: &[u8]) -> Option<(Self, usize)> {
        if data.len() >= 4 {
            Some((Ping, 4))
        } else {
            None
        }
    }
}

#[test]
fn udp_cyclic_send_recv_count() {
    let listener = local(21000);
    let mut st = TestState::new(at(0));
    let socket = UdpSocket::bind(&mut st, &[listener]).unwrap();
    let clone = socket.try_clone().unwrap();
    let mut socket = UdpSocket::from_std(clone, &mut st);
    let mut poll = Poll::new().unwrap();
    let mut events = Events::with_capacity(16);
    poll.registry().register(&mut st, &mut socket, Token(1), Interest::readable()).unwrap();
    let mut received = 0;
    let mut sent = 0;
    let mut drain = |st: &mut TestState, now: Now| {
        let mut buf = [0u8; 64];
        let timeout = Some(Duration::from_millis(5));
        assert!(matches!(poll.poll(st, now, &mut events, timeout), PollStep::Wait(_, _)));
        let mut readable = false;
        let mut iter = events.iter();
        while let Some(event) = iter.next() {
            readable = readable || (event.token() == Token(1) && event.is_readable());
        }
        if readable {
            loop {
                match socket.recv_from(st, now, &mut buf) {
                    Ok(RecvStep::Done(_, _)) => received += 1,
                    Ok(RecvStep::Wait(_, _)) => panic!("must not wait"),
                    Err(e) => {
                        assert_eq!(e.kind(), ErrorKind::WouldBlock);
                        break;
                    }
                }
            }
        }
    };
    {
        let mut tester = Tester::<Ping>::new(&mut st, local(21001))
            .cyclic(at(0), Duration::from_millis(2), |_| {
                sent += 12;
                let sends = (0..12).map(|_| TesterAction::Send(listener, Ping)).collect();
                Some(TesterAction::Multiple(sends))
            })
            .until_elapsed(Duration::from_millis(100));
        let end = run(&mut st, 0, &mut [&mut tester], &mut drain);
        drain(&mut st, at(end));
    }
    assert!(sent >= 12 * 40);
    assert_eq!(received, sent, "Expected {} packets received, got {}", sent, received);
}

#[derive(Clone, Debug)]
struct TcpEchoPacket(Vec<u8>);

impl Packetable for TcpEchoPacket {
    const CAN_BE_FLATTENED: bool = false;
    const SOCKET_TYPE: SocketType = SocketType::Tcp;

    fn encode(&self) -> Vec<u8> {
        let len = self.0.len() as u32;
        let mut buf = len.to_le_bytes().to_vec();
        buf.extend_from_slice(&self.0);
        buf
    }

    fn decode(data: &[u8]) -> Option<(Self, usize)> {
        if data.len() < 4 {
            return None;
        }
        let len = u32::from_le_bytes(data[..4].try_into().unwrap()) as usize;
        if data.len() < 4 + len {
            return None;
        }
        Some((TcpEchoPacket(data[4..4 + len].to_vec()), 4 + len))
    }
}

#[test]
fn tcp_echo_with_mio_poll() {
    const PACKET_COUNT: usize = 5;
    let addr = local(22000);
    let mut st = TestState::new(at(0));
    let echoed = std::cell::Cell::new(0usize);
    let tester = Tester::<TcpEchoPacket>::new(&mut st, addr).action(|pkt, src| {
        echoed.set(echoed.get() + 1);
        TesterAction::Send(src, pkt)
    });
    let std_stream = connect(&mut st, at(0), addr);
    let clone = std_stream.try_clone(&mut st).unwrap();
    let mut stream = TcpStream::from_std(clone, &mut st);
    let mut poll = Poll::new().unwrap();
    let mut events = Events::with_capacity(16);
    poll.registry().register(&mut st, &mut stream, Token(1), Interest::both()).unwrap();
    for i in 0..PACKET_COUNT {
        let pkt = TcpEchoPacket(vec![i as u8; i + 1]);
        write_all(&mut st, at(0), &stream, &pkt.encode());
    }
    let mut tester = tester
        .until(|_| echoed.get() >= PACKET_COUNT)
        .until_elapsed(Duration::from_secs(5));
    let end = run(&mut st, 0, &mut [&mut tester], &mut |_, _| {});
    assert_eq!(echoed.get(), PACKET_COUNT);

    let timeout = Some(Duration::from_millis(50));
    poll.poll(&mut st, at(end), &mut events, timeout);
    let event = *events.iter().next().unwrap();
    assert!(event.token() == Token(1) && event.is_readable());
    let mut received: Vec<Vec<u8>> = Vec::new();
    let mut recv_buf: Vec<u8> = Vec::new();
    let mut buf = [0u8; 256];
    loop {
        match stream.read(&mut st, at(end), &mut buf) {
            Ok(ReadStep::Done(n)) => recv_buf.extend_from_slice(&buf[..n]),
            Ok(ReadStep::Wait(_)) => panic!("must not wait"),
            Err(e) => {
                assert_eq!(e.kind(), ErrorKind::WouldBlock);
                break;
            }
        }
    }
    while let Some((pkt, used)) = TcpEchoPacket::decode(&recv_buf) {
        received.push(pkt.0);
        recv_buf.drain(..used);
    }
    assert_eq!(received.len(), PACKET_COUNT);
    for (i, data) in received.iter().enumerate() {
        assert_eq!(data, &vec![i as u8; i + 1]);
    }
}

// ----- Quiesce -----

#[derive(Clone, Debug)]
struct EchoPacket(Vec<u8>);

impl Packetable for EchoPacket {
    const CAN_BE_FLATTENED: bool = false;
    const SOCKET_TYPE: SocketType = SocketType::Tcp;

    fn encode(&self) -> Vec<u8> {
        let mut bytes = (self.0.len() as u16).to_le_bytes().to_vec();
        bytes.extend_from_slice(&self.0);
        bytes
    }

    fn decode(data: &[u8]) -> Option<(Self, usize)> {
        if data.len() < 2 {
            return None;
        }
        let len = u16::from_le_bytes([data[0], data[1]]) as usize;
        if data.len() < 2 + len {
            return None;
        }
        Some((EchoPacket(data[2..2 + len].to_vec()), 2 + len))
    }
}

#[test]
fn quiesce_suppresses_mio_readiness() {
    let addr = local(19_201);
    let window = Duration::from_millis(400);
    let mut st = TestState::new(at(0));
    let mut tester = Tester::<EchoPacket>::new(&mut st, addr).action(|pkt, src| {
        match pkt.0.as_slice() {
            b"probe" => TesterAction::Send(src, EchoPacket(b"ack".to_vec())),
            b"trigger" => TesterAction::Multiple(vec![
                TesterAction::Send(src, EchoPacket(b"during".to_vec())),
                TesterAction::Quiesce(src, window),
            ]),
            _ => TesterAction::Send(src, EchoPacket(pkt.0)),
        }
    });
    let connected = connect(&mut st, at(0), addr);
    let mut stream = TcpStream::from_std(connected, &mut st);
    let mut poll = Poll::new().unwrap();
    let mut events = Events::with_capacity(8);
    poll.registry().register(&mut st, &mut stream, Token(1), Interest::readable()).unwrap();
    let mut buf = [0u8; 64];

    write_all(&mut st, at(0), &stream, &EchoPacket(b"probe".to_vec()).encode());
    run(&mut st, 0, &mut [&mut tester], &mut |_, _| {});
    let timeout = Some(Duration::from_millis(50));
    poll.poll(&mut st, at(0), &mut events, timeout);
    assert!(events.iter().next().unwrap().is_readable());
    assert_eq!(stream.read(&mut st, at(0), &mut buf).unwrap(), ReadStep::Done(5));

    write_all(&mut st, at(0), &stream, &EchoPacket(b"trigger".to_vec()).encode());
    run(&mut st, 0, &mut [&mut tester], &mut |_, _| {});
    for millis in [50, 90, 130, 170, 210, 250, 299, 399] {
        let step = poll.poll(&mut st, at(ms(millis)), &mut events, timeout);
        assert!(matches!(step, PollStep::Wait(_, _)));
        assert_eq!(events.iter().count(), 0);
    }
    poll.poll(&mut st, at(ms(400)), &mut events, timeout);
    assert!(events.iter().next().unwrap().is_readable());
    assert_eq!(stream.read(&mut st, at(ms(400)), &mut buf).unwrap(), ReadStep::Done(8));
    assert_eq!(&buf[2..8], b"during");
}

#[test]
fn inbound_only_quiesce_lets_writes_drain() {
    let addr = local(19_410);
    let mut st = TestState::new(at(0));
    let mut tester = Tester::<EchoPacket>::new(&mut st, addr)
        .action(|_, src| TesterAction::Send(src, EchoPacket(b"ack".to_vec())));
    let connected = connect(&mut st, at(0), addr);
    let mut stream = TcpStream::from_std(connected, &mut st);
    let mut poll = Poll::new().unwrap();
    let mut events = Events::with_capacity(8);
    poll.registry().register(&mut st, &mut stream, Token(1), Interest::both()).unwrap();
    let client = stream.local_addr(&mut st).unwrap();
    snare::quiesce_with_mode(
        &mut st,
        at(0),
        client,
        Duration::from_millis(400),
        QuiesceMode::InboundOnly,
    );
    write_all(&mut st, at(0), &stream, &EchoPacket(b"hello".to_vec()).encode());
    run(&mut st, 0, &mut [&mut tester], &mut |_, _| {});

    let mut saw_writable = false;
    let mut saw_readable = false;
    for millis in [0, 40, 80, 120, 160, 200] {
        let timeout = Some(Duration::from_millis(40));
        poll.poll(&mut st, at(ms(millis)), &mut events, timeout);
        let mut iter = events.iter();
        while let Some(evt) = iter.next() {
            saw_writable = saw_writable || evt.is_writable();
            saw_readable = saw_readable || evt.is_readable();
        }
    }
    assert!(saw_writable, "SUT should see WRITABLE during InboundOnly quiesce");
    assert!(!saw_readable, "SUT must NOT see READABLE during InboundOnly quiesce");
}

// ----- Threads -----

fn key_of(harness: &Harness, id: u64) -> ThreadId {
    match harness.lookup(ThreadId(id), at(0).mono) {
        Lookup::Found(key) => key,
        other => panic!("thread {} has no test: {:?}", id, other),
    }
}

/// Packets that threads send, picked up at `tester`.
fn picked_up(harness: &mut Harness, test: u64, tester: SocketAddr) -> Vec<Packet> {
    let key = key_of(harness, test);
    let st = harness.network(key);
    let mut packets = Vec::new();
    while let Some(packet) = pop_latest_packet(st, tester) {
        packets.push(packet);
    }
    packets
}

fn send_from(harness: &mut Harness, thread: u64, from: SocketAddr, to: SocketAddr, data: &[&[u8]]) {
    let key = key_of(harness, thread);
    let st = harness.network(key);
    let socket = UdpSocket::bind(st, &[from]).unwrap();
    for packet in data {
        socket.send_to(st, at(0), packet, &[to]).unwrap();
    }
}

#[test]
fn many_concurrent_child_threads_sending_udp() {
    let tester = local(5000);
    let thread_count = 32u64;
    let mut harness = Harness::isolated();
    harness.register_test(ThreadId(1), at(0), None, None);
    for i in 0..thread_count {
        ThreadId(100 + i).register_as_child(&mut harness, ThreadId(1));
        let data: Vec<Vec<u8>> = (0..4u8).map(|j| vec![i as u8, j]).collect();
        let data: Vec<&[u8]> = data.iter().map(|d| d.as_slice()).collect();
        send_from(&mut harness, 100 + i, local(5100 + i as u16), tester, &data);
    }
    assert_eq!(picked_up(&mut harness, 1, tester).len(), 128);
}

#[test]
fn grandchild_thread_inherits_test_context() {
    let tester = local(5200);
    let mut harness = Harness::isolated();
    harness.register_test(ThreadId(1), at(0), None, None);
    harness.register_child_thread(ThreadId(2), ThreadId(1));
    harness.register_child_thread(ThreadId(3), ThreadId(2));
    let data: [&[u8]; 5] = [&[0], &[1], &[2], &[3], &[4]];
    send_from(&mut harness, 3, local(5201), tester, &data);
    let packets = picked_up(&mut harness, 1, tester);
    assert_eq!(packets.len(), 5);
    for (i, packet) in packets.iter().enumerate() {
        assert_eq!(packet.data, vec![i as u8]);
        assert_eq!(packet.source, local(5201));
    }
}

#[test]
fn deep_thread_hierarchy() {
    let tester = local(5300);
    let mut harness = Harness::isolated();
    harness.register_test(ThreadId(1), at(0), None, None);
    for id in 2..5u64 {
        harness.register_child_thread(ThreadId(id), ThreadId(id - 1));
    }
    send_from(&mut harness, 4, local(5301), tester, &[&[42]]);
    let packets = picked_up(&mut harness, 1, tester);
    assert_eq!(packets.len(), 1);
    assert_eq!(packets[0].data, vec![42]);
}

#[test]
fn concurrent_registration_contention() {
    let tester = local(5400);
    let mut harness = Harness::isolated();
    harness.register_test(ThreadId(1), at(0), None, None);
    for i in 0..64u64 {
        harness.register_child_thread(ThreadId(10 + i), ThreadId(1));
    }
    for i in 0..64u64 {
        send_from(&mut harness, 10 + i, local(5500 + i as u16), tester, &[&[i as u8]]);
    }
    assert_eq!(picked_up(&mut harness, 1, tester).len(), 64);
}

#[test]
fn all_thread_ext_variants() {
    let tester = local(5600);
    let mut harness = Harness::isolated();
    harness.register_test(ThreadId(1), at(0), None, None);
    assert_eq!(ThreadId(2).register_as_child(&mut harness, ThreadId(1)), ThreadId(2));
    harness.register_child_thread(ThreadId(3), ThreadId(1));
    harness.register_thread_child_of(ThreadId(4), ThreadId(1));
    send_from(&mut harness, 2, local(5601), tester, &[&[1]]);
    send_from(&mut harness, 3, local(5602), tester, &[&[2]]);
    send_from(&mut harness, 4, local(5603), tester, &[&[3]]);
    assert_eq!(picked_up(&mut harness, 1, tester).len(), 3);
}

#[test]
fn late_registration_within_grace_period() {
    let tester = local(5700);
    let mut harness = Harness::isolated();
    harness.register_test(ThreadId(1), at(0), None, None);
    let grace = match harness.lookup(ThreadId(2), at(0).mono) {
        Lookup::Wait(grace, poll) => {
            assert_eq!(poll, Duration::from_millis(2));
            grace
        }
        other => panic!("expected to wait, got {:?}", other),
    };
    assert!(matches!(
        harness.hierarchy().lookup_again(grace, at(ms(2)).mono),
        Lookup::Wait(_, _)
    ));
    harness.register_child_thread(ThreadId(2), ThreadId(1));
    assert!(matches!(
        harness.hierarchy().lookup_again(grace, at(ms(10)).mono),
        Lookup::Found(ThreadId(1))
    ));
    send_from(&mut harness, 2, local(5701), tester, &[&[99]]);
    assert_eq!(picked_up(&mut harness, 1, tester).len(), 1);
}

#[test]
fn a_thread_that_is_never_registered_goes_missing() {
    let mut harness = Harness::isolated();
    harness.register_test(ThreadId(1), at(0), None, None);
    let grace = match harness.lookup(ThreadId(2), at(0).mono) {
        Lookup::Wait(grace, _) => grace,
        other => panic!("expected to wait, got {:?}", other),
    };
    assert!(matches!(
        harness.hierarchy().lookup_again(grace, at(ms(1_999)).mono),
        Lookup::Wait(_, _)
    ));
    assert!(matches!(
        harness.hierarchy().lookup_again(grace, at(ms(2_000)).mono),
        Lookup::Missing
    ));
}

#[test]
fn high_volume_concurrent_sends() {
    let tester = local(5800);
    let mut harness = Harness::isolated();
    harness.register_test(ThreadId(1), at(0), None, None);
    for i in 0..8u64 {
        harness.register_child_thread(ThreadId(10 + i), ThreadId(1));
        let data: Vec<Vec<u8>> = (0..50u8).map(|j| vec![i as u8, j]).collect();
        let data: Vec<&[u8]> = data.iter().map(|d| d.as_slice()).collect();
        send_from(&mut harness, 10 + i, local(5900 + i as u16), tester, &data);
    }
    assert_eq!(picked_up(&mut harness, 1, tester).len(), 400);
}

#[test]
fn snare_thread_spawn_auto_registers_child() {
    let tester = local(5800);
    let mut harness = Harness::isolated();
    harness.register_test(ThreadId(1), at(0), None, None);
    harness.register_thread_child_of(ThreadId(2), ThreadId(1));
    send_from(&mut harness, 2, local(5801), tester, &[&[1u8]]);
    assert_eq!(picked_up(&mut harness, 1, tester).len(), 1);
}

#[test]
fn snare_thread_nested_spawn_chains_registration() {
    let tester = local(5804);
    let mut harness = Harness::isolated();
    harness.register_test(ThreadId(1), at(0), None, None);
    harness.register_thread_child_of(ThreadId(2), ThreadId(1));
    harness.register_thread_child_of(ThreadId(3), ThreadId(2));
    send_from(&mut harness, 3, local(5805), tester, &[&[3u8]]);
    assert_eq!(picked_up(&mut harness, 1, tester).len(), 1);
    assert!(harness.hierarchy().descends_from(ThreadId(3), ThreadId(1)));
    assert!(!harness.hierarchy().descends_from(ThreadId(1), ThreadId(3)));
}

#[test]
fn tests_do_not_see_each_other() {
    let mut harness = Harness::isolated();
    harness.register_test(ThreadId(1), at(0), None, None);
    harness.register_test(ThreadId(2), at(0), None, None);
    send_from(&mut harness, 1, local(6001), local(6000), &[&[1]]);
    assert_eq!(picked_up(&mut harness, 2, local(6000)).len(), 0);
    assert_eq!(picked_up(&mut harness, 1, local(6000)).len(), 1);
    send_from(&mut harness, 2, local(6001), local(6000), &[&[2]]);
    assert_eq!(picked_up(&mut harness, 2, local(6000)).len(), 1);
    harness.register_test(ThreadId(2), at(0), None, None);
    send_from(&mut harness, 2, local(6001), local(6000), &[&[3]]);
}
