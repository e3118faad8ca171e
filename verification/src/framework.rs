//! Testers: what plays the other side of the wire.
//!
//! A [`NetTester`] sits at an address and decides: which bytes make up a
//! packet, which of its handlers sees it next, which of its cyclic actions are
//! due, and when it is done. What the handlers, actions and conditions do is up
//! to whoever runs it; a [`RunLoop`](crate::run::RunLoop) tells in which order to run
//! them.

use crate::addr::SocketAddr;
use crate::error::Error;
use crate::policy::{ListenerBehavior, QuiesceMode, UdpPolicy};
use crate::state::{
    add_tcp_listener_state, close_socket_from_test, first_sender, has_data_at, has_pending_tcp_data,
    has_pending_udp_packet, quiesce, quiesce_with_mode, raise_tcp_socket_error_from_test,
    raise_udp_socket_error_from_test, reset_tcp_from_test, send_tcp_from_test, send_udp_from_test,
    set_listener_behavior, set_tcp_inbound_latency, set_tcp_recv_window, set_udp_policy, sooner,
    Now, StateView, TestState,
};
use crate::time::{elapsed_between, Duration, Instant};
use crate::SocketType;
use core::marker::PhantomData;
use vstd::prelude::*;
use vstd::slice::slice_subrange;

verus! {

/// A type that can be encoded to network bytes and decoded from them.
pub trait Packetable: Clone + Send + Sync + 'static {
    /// Whether [`flatten`](Self::flatten) makes several packets of one.
    const CAN_BE_FLATTENED: bool;

    /// The transport.
    const SOCKET_TYPE: SocketType;

    /// Turns the packet into bytes.
    fn encode(&self) -> Vec<u8>;

    /// Turns the front of `data` into a packet, and says how many bytes that
    /// took; `None` as long as `data` holds no complete packet.
    fn decode(data: &[u8]) -> Option<(Self, usize)>;

    /// Splits a packet. One that cannot be split stays as it is.
    fn flatten(&self) -> (r: Vec<Self>)
        default_ensures
            r@.len() == 1,
            cloned(*self, r@[0]),
    {
        vec![self.clone()]
    }
}

/// What a tester can keep as its state.
pub trait StateKey: Default + Send + Sync + 'static {

}

impl<T: Default + Send + Sync + 'static> StateKey for T {

}

/// The time since a tester first asked for it.
#[derive(Clone, Copy, Debug)]
pub struct TimerState {
    start_instant: Option<Instant>,
}

impl Default for TimerState {
    fn default() -> (r: TimerState)
        ensures
            r.start() is None,
    {
        TimerState { start_instant: None }
    }
}

impl TimerState {
    /// When it was first asked for.
    pub closed spec fn start(&self) -> Option<Instant> {
        self.start_instant
    }

    /// The time since the first call, which yields zero.
    pub fn poll_elapsed(&mut self, now: Now) -> (r: Duration)
        ensures
            match old(self).start() {
                Some(start) => r@ == elapsed_between(start@, now.mono@) && final(self).start()
                    == Some(start),
                None => r@ == 0 && final(self).start() == Some(now.mono),
            },
    {
        match self.start_instant {
            Some(start) => now.mono.duration_since(start),
            None => {
                self.start_instant = Some(now.mono);
                Duration::zero()
            },
        }
    }
}

// ----- Actions -----

/// What a tester can do to the network.
pub enum TesterAction<T: Packetable> {
    /// Send a packet to an address.
    Send(SocketAddr, T),
    /// Give the socket at an address an error to report.
    RaiseSocketError(SocketAddr, Error),
    /// Close the socket at an address.
    CloseSocket(SocketAddr),
    /// Do several things in order.
    Multiple(Vec<TesterAction<T>>),
    /// Suppress readiness at an address, in both directions.
    Quiesce(SocketAddr, Duration),
    /// Suppress readiness at an address in the given direction(s).
    QuiesceWithMode(SocketAddr, Duration, QuiesceMode),
    /// Reset the connection at an address.
    ResetTcp(SocketAddr),
    /// Set how a listener responds to new connections.
    SetListenerBehavior(SocketAddr, ListenerBehavior),
    /// Delay the bytes that come in at an address. Those that are on their way
    /// are not affected.
    SetTcpInboundLatency(SocketAddr, Duration),
    /// Cap the bytes that wait to be read at an address.
    SetTcpRecvWindow(SocketAddr, Option<usize>),
    /// Set the policy of the UDP socket at an address.
    SetUdpPolicy(SocketAddr, UdpPolicy),
}

impl StateView {
    /// Encoded bytes have been sent by a tester.
    pub open spec fn with_sent(
        self,
        kind: SocketType,
        now: Now,
        from: SocketAddr,
        to: SocketAddr,
        data: Seq<u8>,
    ) -> StateView {
        match kind {
            SocketType::Udp => self.with_udp_sent(now, from, to, data),
            SocketType::Tcp => self.with_tcp_sent(now, from, to, data),
        }
    }
}

/// `n` steps lead from `s` to `t` through `states`.
pub open spec fn leads(states: Seq<StateView>, s: StateView, t: StateView, n: nat) -> bool {
    &&& states.len() == n + 1
    &&& states[0] == s
    &&& states[n as int] == t
}

/// `t` is what `s` can become when a tester at `from` does `a`. How a packet is
/// encoded is up to its type; everything else is determined.
pub open spec fn enacts<P: Packetable>(
    a: TesterAction<P>,
    from: SocketAddr,
    now: Now,
    s: StateView,
    t: StateView,
) -> bool
    decreases a,
{
    match a {
        TesterAction::Send(to, pkt) => exists|bytes: Vec<u8>| #[trigger]
            call_ensures(P::encode, (&pkt,), bytes) && t == s.with_sent(
                P::SOCKET_TYPE,
                now,
                from,
                to,
                bytes@,
            ),
        TesterAction::RaiseSocketError(addr, e) => t == match P::SOCKET_TYPE {
            SocketType::Udp => s.with_udp_error(now, addr, e@),
            SocketType::Tcp => s.with_tcp_error(now, addr, e@),
        },
        TesterAction::CloseSocket(addr) => t == s.with_closed(now, addr, P::SOCKET_TYPE),
        TesterAction::Multiple(actions) => exists|states: Seq<StateView>| #[trigger]
            leads(states, s, t, actions@.len()) && forall|i: int|
                #![trigger states[i]]
                0 <= i < actions@.len() ==> enacts(
                    actions@[i],
                    from,
                    now,
                    states[i],
                    states[i + 1],
                ),
        TesterAction::Quiesce(addr, dur) => t == s.quiesced(
            now,
            addr,
            now.mono.later(dur),
            QuiesceMode::Both,
        ),
        TesterAction::QuiesceWithMode(addr, dur, mode) => t == s.quiesced(
            now,
            addr,
            now.mono.later(dur),
            mode,
        ),
        TesterAction::ResetTcp(addr) => t == s.with_reset(now, addr),
        TesterAction::SetListenerBehavior(addr, behavior) => t == (StateView {
            behaviors: s.behaviors.insert(addr, behavior),
            ..s
        }),
        TesterAction::SetTcpInboundLatency(addr, dur) => t == (StateView {
            tcp_policies: s.tcp_policies.insert(
                addr,
                crate::policy::TcpPolicy { inbound_latency: dur, ..s.tcp_policy(addr) },
            ),
            ..s
        }),
        TesterAction::SetTcpRecvWindow(addr, window) => t == (StateView {
            tcp_policies: s.tcp_policies.insert(
                addr,
                crate::policy::TcpPolicy { recv_window: window, ..s.tcp_policy(addr) },
            ),
            ..s
        }),
        TesterAction::SetUdpPolicy(addr, policy) => t == (StateView {
            udp_policies: s.udp_policies.insert(addr, policy),
            ..s
        }),
    }
}

/// Does `action` to the network, as a tester at `from` does.
pub fn enact<P: Packetable>(
    st: &mut TestState,
    now: Now,
    from: SocketAddr,
    action: &TesterAction<P>,
)
    requires
        old(st)@.wf(),
    ensures
        enacts(*action, from, now, old(st)@, final(st)@),
        final(st)@.wf(),
    decreases action,
{
    match action {
        TesterAction::Send(to, pkt) => {
            let bytes: Vec<u8> = pkt.encode();
            let ghost encoded = bytes;
            match P::SOCKET_TYPE {
                SocketType::Udp => send_udp_from_test(st, now, from, *to, bytes),
                SocketType::Tcp => send_tcp_from_test(st, now, from, *to, bytes),
            }
            assert(call_ensures(P::encode, (pkt,), encoded));
        },
        TesterAction::RaiseSocketError(addr, e) => {
            let error = Error::new(e.kind, e.message.as_str());
            match P::SOCKET_TYPE {
                SocketType::Udp => raise_udp_socket_error_from_test(st, now, *addr, error),
                SocketType::Tcp => raise_tcp_socket_error_from_test(st, now, *addr, error),
            }
        },
        TesterAction::CloseSocket(addr) => close_socket_from_test(
            st,
            now,
            *addr,
            P::SOCKET_TYPE,
        ),
        TesterAction::Multiple(actions) => {
            let ghost mut states = seq![st@];
            let mut i: usize = 0;
            while i < actions.len()
                invariant
                    i <= actions@.len(),
                    st@.wf(),
                    leads(states, old(st)@, st@, i as nat),
                    forall|j: int|
                        #![trigger states[j]]
                        0 <= j < i ==> enacts(
                            actions@[j],
                            from,
                            now,
                            states[j],
                            states[j + 1],
                        ),
                    *action == TesterAction::Multiple(*actions),
                decreases actions@.len() - i,
            {
                let ghost before = states;
                assert(decreases_to!(*action => action->Multiple_0));
                assert(decreases_to!(*actions => actions@));
                assert(decreases_to!(actions@ => actions@[i as int]));
                enact(st, now, from, &actions[i]);
                proof {
                    states = states.push(st@);
                    assert forall|j: int| #![trigger states[j]] 0 <= j < i + 1 implies enacts(
                        actions@[j],
                        from,
                        now,
                        states[j],
                        states[j + 1],
                    ) by {
                        assert(states[j] == before[j]);
                        if j < i {
                            assert(states[j + 1] == before[j + 1]);
                        }
                    }
                }
                i += 1;
            }
            assert(leads(states, old(st)@, st@, actions@.len()));
        },
        TesterAction::Quiesce(addr, dur) => quiesce(st, now, *addr, *dur),
        TesterAction::QuiesceWithMode(addr, dur, mode) => quiesce_with_mode(
            st,
            now,
            *addr,
            *dur,
            *mode,
        ),
        TesterAction::ResetTcp(addr) => reset_tcp_from_test(st, now, *addr),
        TesterAction::SetListenerBehavior(addr, behavior) => set_listener_behavior(
            st,
            *addr,
            *behavior,
        ),
        TesterAction::SetTcpInboundLatency(addr, dur) => set_tcp_inbound_latency(st, *addr, *dur),
        TesterAction::SetTcpRecvWindow(addr, window) => set_tcp_recv_window(st, *addr, *window),
        TesterAction::SetUdpPolicy(addr, policy) => set_udp_policy(st, *addr, *policy),
    }
}

// ----- One tester -----

/// An action that recurs: how far its runs are apart, and when it last ran.
#[derive(Clone, Copy, Debug)]
pub struct Cycle {
    pub delta: Duration,
    pub last_run: Instant,
}

impl Cycle {
    /// Whether it is time to run it.
    pub open spec fn is_due(self, now: nat) -> bool {
        self.last_run.later(self.delta)@ <= now
    }

    /// The time until then.
    pub open spec fn remaining(self, now: nat) -> nat {
        elapsed_between(now, self.last_run.later(self.delta)@)
    }
}

/// The first cycle, at or behind `from`, that is due.
pub open spec fn first_due(cycles: Seq<Cycle>, now: nat, from: int) -> Option<int>
    decreases cycles.len() - from,
{
    if from < 0 || from >= cycles.len() {
        None
    } else if cycles[from].is_due(now) {
        Some(from)
    } else {
        first_due(cycles, now, from + 1)
    }
}

/// The time until the first of the first `n` cycles is due.
pub open spec fn soonest(cycles: Seq<Cycle>, now: nat, n: int) -> Option<nat>
    decreases n,
{
    if n <= 0 {
        None
    } else {
        sooner(soonest(cycles, now, n - 1), Some(cycles[n - 1].remaining(now)))
    }
}

/// What makes up a tester.
pub struct TesterView {
    pub addr: SocketAddr,
    pub handlers: nat,
    pub cycles: Seq<Cycle>,
    pub conditions: nat,
}

/// What a tester that has no conditions goes by: nothing waits for it.
pub open spec fn is_idle(s: StateView, addr: SocketAddr, kind: SocketType) -> bool {
    match kind {
        SocketType::Udp => first_sender(s.udp, addr, 0) is None,
        SocketType::Tcp => !has_data_at(s.tcp, addr),
    }
}

/// How a tester gets to know whether it is finished.
#[derive(Clone, Copy, Debug, PartialEq, Eq, Structural)]
pub enum FinishStep {
    /// Evaluate the condition with this number.
    Ask(usize),
    /// It is known.
    Known(bool),
}

/// A tester at one address. It knows how many packet handlers, recurring actions
/// and finish conditions there are and which of them is to run; they are run
/// elsewhere.
pub struct NetTester<P: Packetable> {
    phantom: PhantomData<P>,
    addr: SocketAddr,
    handlers: usize,
    cycles: Vec<Cycle>,
    conditions: usize,
}

impl<P: Packetable> NetTester<P> {
    pub closed spec fn view(&self) -> TesterView {
        TesterView {
            addr: self.addr,
            handlers: self.handlers as nat,
            cycles: self.cycles@,
            conditions: self.conditions as nat,
        }
    }

    /// Adds a packet handler behind those that there are. Its number is that of
    /// the handlers before it.
    pub fn with_handler(self) -> (r: NetTester<P>)
        requires
            self@.handlers < usize::MAX,
        ensures
            r@ == (TesterView { handlers: self@.handlers + 1, ..self@ }),
    {
        NetTester { handlers: self.handlers + 1, ..self }
    }

    /// Adds an action that recurs every `delta`, for the first time `delta` from
    /// now.
    pub fn with_cycle(self, now: Now, delta: Duration) -> (r: NetTester<P>)
        ensures
            r@ == (TesterView {
                cycles: self@.cycles.push(Cycle { delta, last_run: now.mono }),
                ..self@
            }),
    {
        let mut cycles = self.cycles;
        cycles.push(Cycle { delta, last_run: now.mono });
        NetTester { cycles, ..self }
    }

    /// Adds a finish condition.
    pub fn with_condition(self) -> (r: NetTester<P>)
        requires
            self@.conditions < usize::MAX,
        ensures
            r@ == (TesterView { conditions: self@.conditions + 1, ..self@ }),
    {
        NetTester { conditions: self.conditions + 1, ..self }
    }

    pub fn get_addr(&self) -> (r: SocketAddr)
        ensures
            r == self@.addr,
    {
        self.addr
    }

    pub fn get_socket_type(&self) -> (r: SocketType)
        ensures
            r == P::SOCKET_TYPE,
    {
        P::SOCKET_TYPE
    }

    /// Does what a handler or a recurring action asks for.
    pub fn enact_action(&self, st: &mut TestState, now: Now, action: TesterAction<P>)
        requires
            old(st)@.wf(),
        ensures
            enacts(action, self@.addr, now, old(st)@, final(st)@),
            final(st)@.wf(),
    {
        enact(st, now, self.addr, &action);
    }

    /// The time until a recurring action is due: nothing if one is, `None` if
    /// there is none.
    pub fn duration_till_soonest_cycle(&self, now: Now) -> (r: Option<Duration>)
        ensures
            match r {
                Some(d) => soonest(self@.cycles, now.mono@, self@.cycles.len() as int) == Some(d@),
                None => self@.cycles.len() == 0,
            },
    {
        let mut min_delta: Option<Duration> = None;
        let mut i: usize = 0;
        while i < self.cycles.len()
            invariant
                i <= self.cycles@.len(),
                min_delta is None ==> i == 0,
                soonest(self.cycles@, now.mono@, i as int) == match min_delta {
                    Some(d) => Some(d@),
                    None => None,
                },
            decreases self.cycles@.len() - i,
        {
            let cycle = self.cycles[i];
            let next_run = cycle.last_run.saturating_add(cycle.delta);
            let till_next = next_run.saturating_duration_since(now.mono);
            min_delta = match min_delta {
                Some(current) => if till_next < current {
                    Some(till_next)
                } else {
                    Some(current)
                },
                None => Some(till_next),
            };
            i += 1;
        }
        min_delta
    }

    /// The number of the first recurring action, at or behind `from`, that is
    /// due.
    pub fn next_due_cycle(&self, now: Now, from: usize) -> (r: Option<usize>)
        ensures
            match r {
                Some(i) => first_due(self@.cycles, now.mono@, from as int) == Some(i as int),
                None => first_due(self@.cycles, now.mono@, from as int) is None,
            },
    {
        let mut i: usize = from;
        while i < self.cycles.len()
            invariant
                first_due(self.cycles@, now.mono@, from as int) == first_due(
                    self.cycles@,
                    now.mono@,
                    i as int,
                ),
            decreases self.cycles@.len() - i,
        {
            let cycle = self.cycles[i];
            if cycle.last_run.saturating_add(cycle.delta) <= now.mono {
                return Some(i);
            }
            i += 1;
        }
        None
    }

    /// A recurring action has been run; `now` is when its round began.
    pub fn cycle_ran(&mut self, now: Now, i: usize)
        requires
            i < old(self)@.cycles.len(),
        ensures
            final(self)@ == (TesterView {
                cycles: old(self)@.cycles.update(
                    i as int,
                    Cycle { last_run: now.mono, ..old(self)@.cycles[i as int] },
                ),
                ..old(self)@
            }),
    {
        let delta = self.cycles[i].delta;
        self.cycles.set(i, Cycle { delta, last_run: now.mono });
    }

    /// Whether the tester is finished: `asked` says how many conditions have been
    /// evaluated, `met` whether one of them held. Any one is enough. Without any,
    /// the tester is finished when nothing waits for it.
    pub fn finish_step(&self, st: &TestState, asked: usize, met: bool) -> (r: FinishStep)
        ensures
            r == if self@.conditions == 0 {
                FinishStep::Known(is_idle(st@, self@.addr, P::SOCKET_TYPE))
            } else if met {
                FinishStep::Known(true)
            } else if asked < self@.conditions {
                FinishStep::Ask(asked)
            } else {
                FinishStep::Known(false)
            },
    {
        if self.conditions == 0 {
            let pending = match P::SOCKET_TYPE {
                SocketType::Udp => has_pending_udp_packet(st, self.addr),
                SocketType::Tcp => has_pending_tcp_data(st, self.addr),
            };
            FinishStep::Known(!pending)
        } else if met {
            FinishStep::Known(true)
        } else if asked < self.conditions {
            FinishStep::Ask(asked)
        } else {
            FinishStep::Known(false)
        }
    }

    /// Begins to feed bytes to the tester.
    pub fn test(&self) -> (r: Feed<P>)
        ensures
            r@ == (FeedView { offset: 0, stage: FeedStage::Start }),
            r.handlers() == self@.handlers,
            r.handlers() <= usize::MAX,
    {
        Feed { phantom: PhantomData, handlers: self.handlers, offset: 0, stage: FeedStage::Start }
    }
}

/// A tester at `addr`. For TCP, one can connect to it from here on.
pub fn connect_tester<P: Packetable>(st: &mut TestState, addr: SocketAddr) -> (r: NetTester<P>)
    requires
        old(st)@.wf(),
    ensures
        r@ == (TesterView { addr, handlers: 0, cycles: Seq::empty(), conditions: 0 }),
        final(st)@ == match P::SOCKET_TYPE {
            SocketType::Udp => old(st)@,
            SocketType::Tcp => old(st)@.with_listening(addr),
        },
        final(st)@.wf(),
{
    match P::SOCKET_TYPE {
        SocketType::Udp => {},
        SocketType::Tcp => add_tcp_listener_state(st, addr),
    }
    NetTester { phantom: PhantomData, addr, handlers: 0, cycles: Vec::new(), conditions: 0 }
}

/// Feeding bytes to a tester: where it stands.
#[derive(Clone, Copy, Debug, PartialEq, Eq, Structural)]
pub enum FeedStage {
    Start,
    /// A packet is with the handler of this number.
    Handling(usize),
    /// The recurring actions are being run.
    Cycling,
    Over,
}

/// Feeding bytes to a tester: what has happened.
pub enum FeedEvent<P: Packetable> {
    Begin,
    /// The handler has returned: the packet for the next one, if there is to be
    /// one.
    Handled(Option<P>),
    /// The recurring actions that were due have been run.
    CyclesRun,
}

/// Feeding bytes to a tester: what to do.
pub enum FeedStep<P: Packetable> {
    /// Hand a packet to the handler of this number.
    Handle(usize, P),
    /// Run the recurring actions that are due.
    RunCycles,
    /// All packets have been handled. For TCP: this many bytes made them up.
    Done(Option<usize>),
}

pub struct FeedView {
    pub offset: nat,
    pub stage: FeedStage,
}

/// `r` is what decoding `data` can yield.
pub open spec fn decodes<P: Packetable>(data: Seq<u8>, r: Option<(P, usize)>) -> bool {
    exists|d: &[u8]| d@ == data && #[trigger] call_ensures(P::decode, (d,), r)
}

/// The number of bytes used up, which does not outgrow what can be counted.
pub open spec fn used_up(offset: nat, read: usize) -> nat {
    if offset + read <= usize::MAX {
        offset + read as nat
    } else {
        usize::MAX as nat
    }
}

/// What comes behind a packet that was decoded: its first handler, or the
/// recurring actions if there is no handler.
pub open spec fn first_handled<P: Packetable>(
    handlers: nat,
    offset: nat,
    pkt: P,
    g: FeedView,
    step: FeedStep<P>,
) -> bool {
    if handlers > 0 {
        g == (FeedView { offset, stage: FeedStage::Handling(0) }) && step == FeedStep::Handle(
            0,
            pkt,
        )
    } else {
        g == (FeedView { offset, stage: FeedStage::Cycling }) && step == FeedStep::<P>::RunCycles
    }
}

/// What comes next where the bytes behind `offset` have not been decoded. A
/// datagram is one packet. A stream is decoded as long as it holds a packet.
pub open spec fn decoding<P: Packetable>(
    handlers: nat,
    data: Seq<u8>,
    offset: nat,
    g: FeedView,
    step: FeedStep<P>,
) -> bool {
    match P::SOCKET_TYPE {
        SocketType::Udp => exists|r: Option<(P, usize)>| #[trigger]
            decodes(data, r) && match r {
                Some((pkt, _)) => first_handled(handlers, offset, pkt, g, step),
                None => g == (FeedView { offset, stage: FeedStage::Over }) && step == FeedStep::<
                    P,
                >::Done(None),
            },
        SocketType::Tcp => if offset < data.len() {
            exists|r: Option<(P, usize)>| #[trigger]
                decodes(data.skip(offset as int), r) && match r {
                    Some((pkt, read)) => first_handled(
                        handlers,
                        used_up(offset, read),
                        pkt,
                        g,
                        step,
                    ),
                    None => g == (FeedView { offset, stage: FeedStage::Over }) && step
                        == FeedStep::<P>::Done(Some(offset as usize)),
                }
        } else {
            g == (FeedView { offset, stage: FeedStage::Over }) && step == FeedStep::<P>::Done(
                Some(offset as usize),
            )
        },
    }
}

impl FeedView {
    /// Whether `event` can happen here.
    pub open spec fn expects<P: Packetable>(self, handlers: nat, event: FeedEvent<P>) -> bool {
        match (self.stage, event) {
            (FeedStage::Start, FeedEvent::Begin) => true,
            (FeedStage::Handling(i), FeedEvent::Handled(_)) => i < handlers,
            (FeedStage::Cycling, FeedEvent::CyclesRun) => true,
            _ => false,
        }
    }

    /// `g` and `step` are what can follow `event`. A packet goes from handler to
    /// handler until one stops it; then the recurring actions are run; then comes
    /// the next packet.
    pub open spec fn follows<P: Packetable>(
        self,
        handlers: nat,
        data: Seq<u8>,
        event: FeedEvent<P>,
        g: FeedView,
        step: FeedStep<P>,
    ) -> bool {
        match (self.stage, event) {
            (FeedStage::Start, FeedEvent::Begin) => decoding(handlers, data, self.offset, g, step),
            (FeedStage::Handling(i), FeedEvent::Handled(Some(pkt))) if i + 1 < handlers => {
                &&& g == (FeedView { stage: FeedStage::Handling((i + 1) as usize), ..self })
                &&& step == FeedStep::Handle((i + 1) as usize, pkt)
            },
            (FeedStage::Handling(_), FeedEvent::Handled(_)) => {
                &&& g == (FeedView { stage: FeedStage::Cycling, ..self })
                &&& step == FeedStep::<P>::RunCycles
            },
            (FeedStage::Cycling, FeedEvent::CyclesRun) => match P::SOCKET_TYPE {
                SocketType::Udp => {
                    &&& g == (FeedView { stage: FeedStage::Over, ..self })
                    &&& step == FeedStep::<P>::Done(None)
                },
                SocketType::Tcp => decoding(handlers, data, self.offset, g, step),
            },
            _ => false,
        }
    }
}

/// Bytes on their way through a tester's handlers.
pub struct Feed<P: Packetable> {
    phantom: PhantomData<P>,
    handlers: usize,
    offset: usize,
    stage: FeedStage,
}

impl<P: Packetable> Feed<P> {
    pub closed spec fn view(&self) -> FeedView {
        FeedView { offset: self.offset as nat, stage: self.stage }
    }

    /// How many handlers the tester has.
    pub closed spec fn handlers(&self) -> nat {
        self.handlers as nat
    }

    fn decode(&mut self, data: &[u8]) -> (r: FeedStep<P>)
        ensures
            decoding(old(self).handlers(), data@, old(self)@.offset, final(self)@, r),
            final(self).handlers() == old(self).handlers(),
    {
        let decoded: Option<(P, usize)> = match P::SOCKET_TYPE {
            SocketType::Udp => {
                let r = P::decode(data);
                assert(decodes(data@, r));
                r
            },
            SocketType::Tcp => {
                if self.offset >= data.len() {
                    self.stage = FeedStage::Over;
                    return FeedStep::Done(Some(self.offset));
                }
                let rest = slice_subrange(data, self.offset, data.len());
                let r = P::decode(rest);
                assert(rest@ =~= data@.skip(self.offset as int));
                assert(decodes(data@.skip(self.offset as int), r));
                r
            },
        };
        match decoded {
            Some((pkt, read)) => {
                match P::SOCKET_TYPE {
                    SocketType::Udp => {},
                    SocketType::Tcp => {
                        self.offset = if read <= usize::MAX - self.offset {
                            self.offset + read
                        } else {
                            usize::MAX
                        };
                    },
                }
                if self.handlers > 0 {
                    self.stage = FeedStage::Handling(0);
                    FeedStep::Handle(0, pkt)
                } else {
                    self.stage = FeedStage::Cycling;
                    FeedStep::RunCycles
                }
            },
            None => {
                self.stage = FeedStage::Over;
                match P::SOCKET_TYPE {
                    SocketType::Udp => FeedStep::Done(None),
                    SocketType::Tcp => FeedStep::Done(Some(self.offset)),
                }
            },
        }
    }

    /// What to do next. `data` is the same on every call.
    pub fn step(&mut self, data: &[u8], event: FeedEvent<P>) -> (r: FeedStep<P>)
        requires
            old(self)@.expects(old(self).handlers(), event),
        ensures
            old(self)@.follows(old(self).handlers(), data@, event, final(self)@, r),
            final(self).handlers() == old(self).handlers(),
    {
        match event {
            FeedEvent::Begin => self.decode(data),
            FeedEvent::Handled(pkt) => {
                let i: usize = match self.stage {
                    FeedStage::Handling(i) => i,
                    _ => 0,
                };
                match pkt {
                    Some(pkt) if i + 1 < self.handlers => {
                        self.stage = FeedStage::Handling(i + 1);
                        FeedStep::Handle(i + 1, pkt)
                    },
                    _ => {
                        self.stage = FeedStage::Cycling;
                        FeedStep::RunCycles
                    },
                }
            },
            FeedEvent::CyclesRun => match P::SOCKET_TYPE {
                SocketType::Udp => {
                    self.stage = FeedStage::Over;
                    FeedStep::Done(None)
                },
                SocketType::Tcp => self.decode(data),
            },
        }
    }
}

} // verus!
