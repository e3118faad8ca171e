//! What holds of every tester.

use crate::addr::SocketAddr;
use crate::framework::{
    decodes, enacts, first_due, is_idle, leads, soonest, Cycle, FeedEvent, FeedStage, FeedStep,
    FeedView, FinishStep, NetTester, Packetable, TesterAction, TimerState,
};
use crate::log_laws::{lemma_one_entry_in_order, logs_at_most_one};
use crate::record::{all_by, in_order, RecordedEntry};
use crate::policy::{ListenerBehavior, QuiesceMode, UdpPolicy};
use crate::state::{Now, StateView, TestState};
use crate::time::{Duration, Instant, MAX_NANOS};
use crate::SocketType;
use vstd::prelude::*;

verus! {

/// What a test does is logged in the order in which it happens, and nothing that
/// is in the log is lost or changed by it.
pub proof fn law_actions_are_logged_in_order<P: Packetable>(
    action: TesterAction<P>,
    from: SocketAddr,
    now: Now,
    s: StateView,
    t: StateView,
)
    requires
        enacts(action, from, now, s, t),
        in_order(s.log),
        all_by(s.log, now.mono@),
    ensures
        in_order(t.log),
        all_by(t.log, now.mono@),
        s.log.is_prefix_of(t.log),
    decreases action,
{
    match action {
        TesterAction::Multiple(actions) => {
            let states = choose|states: Seq<StateView>| #[trigger]
                leads(states, s, t, actions@.len()) && forall|i: int|
                    #![trigger states[i]]
                    0 <= i < actions@.len() ==> enacts(
                        actions@[i],
                        from,
                        now,
                        states[i],
                        states[i + 1],
                    );
            lemma_run_in_order(action, states, from, now, s, t, actions@.len());
        },
        _ => {
            assert(logs_at_most_one(s.log, t.log, now.mono)) by {
                assert(forall|e: RecordedEntry| #[trigger] s.log.push(e).drop_last() =~= s.log);
            }
            lemma_one_entry_in_order(s.log, t.log, now.mono);
        },
    }
}

proof fn lemma_run_in_order<P: Packetable>(
    action: TesterAction<P>,
    states: Seq<StateView>,
    from: SocketAddr,
    now: Now,
    s: StateView,
    t: StateView,
    n: nat,
)
    requires
        action is Multiple,
        n <= action->Multiple_0@.len(),
        leads(states, s, t, action->Multiple_0@.len()),
        forall|i: int|
            #![trigger states[i]]
            0 <= i < action->Multiple_0@.len() ==> enacts(
                action->Multiple_0@[i],
                from,
                now,
                states[i],
                states[i + 1],
            ),
        in_order(s.log),
        all_by(s.log, now.mono@),
    ensures
        in_order(states[n as int].log),
        all_by(states[n as int].log, now.mono@),
        s.log.is_prefix_of(states[n as int].log),
    decreases action, n,
{
    if n > 0 {
        lemma_run_in_order(action, states, from, now, s, t, (n - 1) as nat);
        let actions = action->Multiple_0;
        assert(decreases_to!(action => action->Multiple_0));
        assert(decreases_to!(actions => actions@));
        assert(decreases_to!(actions@ => actions@[n - 1]));
        law_actions_are_logged_in_order(
            actions@[n - 1],
            from,
            now,
            states[n - 1],
            states[n as int],
        );
    } else {
        assert(s.log =~= s.log.subrange(0, s.log.len() as int));
    }
}

/// A recurring action that has run is not due again before its interval has
/// passed, and is due from then on.
pub proof fn law_cycle_keeps_its_interval(delta: Duration, ran: Instant, now: nat)
    ensures
        (Cycle { delta, last_run: ran }).is_due(now) <==> now >= ran.later(delta)@,
{
}

/// A tester says that nothing is left to wait for exactly when one of its
/// recurring actions is due; otherwise it names the shortest wait.
pub proof fn law_soonest_is_due_or_next(cycles: Seq<Cycle>, now: nat, n: int)
    requires
        0 < n <= cycles.len(),
    ensures
        soonest(cycles, now, n) is Some,
        soonest(cycles, now, n) == Some(0nat) <==> exists|i: int|
            0 <= i < n && (#[trigger] cycles[i]).is_due(now),
        forall|i: int|
            0 <= i < n ==> soonest(cycles, now, n)->0 <= (#[trigger] cycles[i]).remaining(now),
        exists|i: int|
            0 <= i < n && soonest(cycles, now, n)->0 == (#[trigger] cycles[i]).remaining(now),
    decreases n,
{
    assert(cycles[n - 1].is_due(now) <==> cycles[n - 1].remaining(now) == 0);
    if n > 1 {
        law_soonest_is_due_or_next(cycles, now, n - 1);
        let w = choose|i: int|
            0 <= i < n - 1 && soonest(cycles, now, n - 1)->0 == (#[trigger] cycles[i]).remaining(
                now,
            );
        assert(cycles[w].remaining(now) == soonest(cycles, now, n - 1)->0);
    } else {
        assert(soonest(cycles, now, 0) is None);
    }
}

proof fn lemma_first_due(cycles: Seq<Cycle>, now: nat, from: int)
    requires
        0 <= from,
    ensures
        match first_due(cycles, now, from) {
            Some(i) => from <= i < cycles.len() && cycles[i].is_due(now) && forall|j: int|
                from <= j < i ==> !(#[trigger] cycles[j]).is_due(now),
            None => forall|j: int|
                from <= j < cycles.len() ==> !(#[trigger] cycles[j]).is_due(now),
        },
    decreases cycles.len() - from,
{
    if from < cycles.len() && !cycles[from].is_due(now) {
        lemma_first_due(cycles, now, from + 1);
    }
}

/// Of the recurring actions none that is due is passed over.
pub proof fn law_no_due_cycle_is_passed_over(cycles: Seq<Cycle>, now: nat, from: int, i: int)
    requires
        0 <= from <= i < cycles.len(),
        cycles[i].is_due(now),
    ensures
        first_due(cycles, now, from) is Some,
        from <= first_due(cycles, now, from)->0 <= i,
        cycles[first_due(cycles, now, from)->0].is_due(now),
{
    lemma_first_due(cycles, now, from);
}

// ----- What an action does -----

/// Settings that a tester makes are those that it asks for, at the address that
/// it names, and nothing else changes with them.
pub proof fn law_settings_take_effect<P: Packetable>(
    from: SocketAddr,
    addr: SocketAddr,
    now: Now,
    s: StateView,
    t: StateView,
    behavior: ListenerBehavior,
    latency: Duration,
    window: Option<usize>,
    policy: UdpPolicy,
)
    ensures
        enacts(TesterAction::<P>::SetListenerBehavior(addr, behavior), from, now, s, t) ==> {
            &&& t.behavior(addr) == behavior
            &&& forall|a: SocketAddr| a != addr ==> #[trigger] t.behavior(a) == s.behavior(a)
            &&& t.tcp == s.tcp && t.udp == s.udp && t.listeners == s.listeners
        },
        enacts(TesterAction::<P>::SetTcpInboundLatency(addr, latency), from, now, s, t) ==> {
            &&& t.tcp_policy(addr).inbound_latency == latency
            &&& t.tcp_policy(addr).recv_window == s.tcp_policy(addr).recv_window
            &&& forall|a: SocketAddr| a != addr ==> #[trigger] t.tcp_policy(a) == s.tcp_policy(a)
            &&& t.tcp == s.tcp && t.udp == s.udp && t.listeners == s.listeners
        },
        enacts(TesterAction::<P>::SetTcpRecvWindow(addr, window), from, now, s, t) ==> {
            &&& t.tcp_policy(addr).recv_window == window
            &&& t.tcp_policy(addr).inbound_latency == s.tcp_policy(addr).inbound_latency
            &&& forall|a: SocketAddr| a != addr ==> #[trigger] t.tcp_policy(a) == s.tcp_policy(a)
            &&& t.tcp == s.tcp && t.udp == s.udp && t.listeners == s.listeners
        },
        enacts(TesterAction::<P>::SetUdpPolicy(addr, policy), from, now, s, t) ==> {
            &&& t.udp_policy(addr) == policy
            &&& forall|a: SocketAddr| a != addr ==> #[trigger] t.udp_policy(a) == s.udp_policy(a)
            &&& t.tcp == s.tcp && t.udp == s.udp && t.listeners == s.listeners
        },
{
}

/// A tester that asks for quiet gets it from then on for as long as it asks, in
/// both directions or in those that it names.
pub proof fn law_quiet_lasts_as_long_as_asked<P: Packetable>(
    from: SocketAddr,
    addr: SocketAddr,
    now: Now,
    s: StateView,
    t: StateView,
    dur: Duration,
    mode: QuiesceMode,
    later: nat,
)
    requires
        now.mono@ + dur@ <= MAX_NANOS,
    ensures
        enacts(TesterAction::<P>::Quiesce(addr, dur), from, now, s, t) ==> {
            &&& t.deaf(later, addr) <==> later < now.mono@ + dur@
            &&& t.mute(later, addr) <==> later < now.mono@ + dur@
            &&& t.tcp == s.tcp && t.udp == s.udp
        },
        enacts(TesterAction::<P>::QuiesceWithMode(addr, dur, mode), from, now, s, t) ==> {
            &&& t.deaf(later, addr) <==> later < now.mono@ + dur@ && mode
                != QuiesceMode::OutboundOnly
            &&& t.mute(later, addr) <==> later < now.mono@ + dur@ && mode
                != QuiesceMode::InboundOnly
            &&& t.tcp == s.tcp && t.udp == s.udp
        },
{
    Instant::lemma_of(now.mono@ + dur@);
}

/// What a tester sends is what its packet encodes to, from the tester's address,
/// by its transport.
pub proof fn law_tester_sends_what_its_packet_encodes_to<P: Packetable>(
    from: SocketAddr,
    to: SocketAddr,
    pkt: P,
    now: Now,
    s: StateView,
    t: StateView,
)
    requires
        enacts(TesterAction::Send(to, pkt), from, now, s, t),
    ensures
        exists|bytes: Vec<u8>| #[trigger]
            call_ensures(P::encode, (&pkt,), bytes) && t == match P::SOCKET_TYPE {
                SocketType::Tcp => s.with_tcp_sent(now, from, to, bytes@),
                SocketType::Udp => s.with_udp_sent(now, from, to, bytes@),
            },
{
}

/// A tester breaks sockets of its own transport, at the address that it names.
pub proof fn law_tester_breaks_its_own_kind<P: Packetable>(
    from: SocketAddr,
    addr: SocketAddr,
    now: Now,
    s: StateView,
    t: StateView,
    e: crate::error::Error,
)
    ensures
        enacts(TesterAction::<P>::CloseSocket(addr), from, now, s, t) ==> t == s.with_closed(
            now,
            addr,
            P::SOCKET_TYPE,
        ),
        enacts(TesterAction::<P>::ResetTcp(addr), from, now, s, t) ==> t == s.with_reset(now, addr),
        enacts(TesterAction::<P>::RaiseSocketError(addr, e), from, now, s, t) ==> match P::SOCKET_TYPE {
            SocketType::Tcp => t == s.with_tcp_error(now, addr, e@) && t.udp == s.udp,
            SocketType::Udp => t == s.with_udp_error(now, addr, e@) && t.tcp == s.tcp,
        },
{
}

/// Several actions are done in their order: none is nothing, and one more behind
/// others is done where they have led.
pub proof fn law_several_actions_are_done_in_order<P: Packetable>(
    several: Vec<TesterAction<P>>,
    more: Vec<TesterAction<P>>,
    last: TesterAction<P>,
    from: SocketAddr,
    now: Now,
    s: StateView,
    t: StateView,
)
    requires
        more@ == several@.push(last),
    ensures
        several@.len() == 0 ==> (enacts(TesterAction::Multiple(several), from, now, s, t) <==> t == s),
        enacts(TesterAction::Multiple(more), from, now, s, t) <==> exists|mid: StateView| #[trigger]
            enacts(TesterAction::Multiple(several), from, now, s, mid) && enacts(
                last,
                from,
                now,
                mid,
                t,
            ),
{
    if several@.len() == 0 {
        lemma_no_actions(several, from, now, s, t);
    }
    if enacts(TesterAction::Multiple(more), from, now, s, t) {
        lemma_last_action_apart(several, more, last, from, now, s, t);
    }
    if exists|mid: StateView| #[trigger]
        enacts(TesterAction::Multiple(several), from, now, s, mid) && enacts(
            last,
            from,
            now,
            mid,
            t,
        ) {
        let mid = choose|mid: StateView| #[trigger]
            enacts(TesterAction::Multiple(several), from, now, s, mid) && enacts(
                last,
                from,
                now,
                mid,
                t,
            );
        lemma_last_action_joined(several, more, last, from, now, s, mid, t);
    }
}

proof fn lemma_no_actions<P: Packetable>(
    several: Vec<TesterAction<P>>,
    from: SocketAddr,
    now: Now,
    s: StateView,
    t: StateView,
)
    requires
        several@.len() == 0,
    ensures
        enacts(TesterAction::Multiple(several), from, now, s, t) <==> t == s,
{
    if t == s {
        lemma_led(TesterAction::Multiple(several), from, now, s, t, seq![s]);
    }
}

proof fn lemma_last_action_apart<P: Packetable>(
    several: Vec<TesterAction<P>>,
    more: Vec<TesterAction<P>>,
    last: TesterAction<P>,
    from: SocketAddr,
    now: Now,
    s: StateView,
    t: StateView,
)
    requires
        more@ == several@.push(last),
        enacts(TesterAction::Multiple(more), from, now, s, t),
    ensures
        exists|mid: StateView| #[trigger]
            enacts(TesterAction::Multiple(several), from, now, s, mid) && enacts(
                last,
                from,
                now,
                mid,
                t,
            ),
{
    let n = several@.len() as int;
    let states = choose|states: Seq<StateView>| #[trigger]
        leads(states, s, t, more@.len()) && forall|i: int|
            #![trigger states[i]]
            0 <= i < more@.len() ==> enacts(more@[i], from, now, states[i], states[i + 1]);
    let front = states.take(n + 1);
    let mid = states[n];
    assert(more@[n] == last);
    assert(states[n + 1] == t);
    assert(leads(front, s, mid, several@.len()));
    assert forall|i: int|
        #![trigger front[i]]
        0 <= i < several@.len() implies enacts(several@[i], from, now, front[i], front[i + 1]) by {
        assert(front[i] == states[i]);
        assert(front[i + 1] == states[i + 1]);
        assert(more@[i] == several@[i]);
    }
    lemma_led(TesterAction::Multiple(several), from, now, s, mid, front);
}

/// What leads from one state to another step by step enacts all of the steps.
proof fn lemma_led<P: Packetable>(
    action: TesterAction<P>,
    from: SocketAddr,
    now: Now,
    s: StateView,
    t: StateView,
    states: Seq<StateView>,
)
    requires
        action is Multiple,
        leads(states, s, t, action->Multiple_0@.len()),
        forall|i: int|
            #![trigger states[i]]
            0 <= i < action->Multiple_0@.len() ==> enacts(
                action->Multiple_0@[i],
                from,
                now,
                states[i],
                states[i + 1],
            ),
    ensures
        enacts(action, from, now, s, t),
{
}

proof fn lemma_last_action_joined<P: Packetable>(
    several: Vec<TesterAction<P>>,
    more: Vec<TesterAction<P>>,
    last: TesterAction<P>,
    from: SocketAddr,
    now: Now,
    s: StateView,
    mid: StateView,
    t: StateView,
)
    requires
        more@ == several@.push(last),
        enacts(TesterAction::Multiple(several), from, now, s, mid),
        enacts(last, from, now, mid, t),
    ensures
        enacts(TesterAction::Multiple(more), from, now, s, t),
{
    let n = several@.len() as int;
    let front = choose|states: Seq<StateView>| #[trigger]
        leads(states, s, mid, several@.len()) && forall|i: int|
            #![trigger states[i]]
            0 <= i < several@.len() ==> enacts(several@[i], from, now, states[i], states[i + 1]);
    let states = front.push(t);
    assert(leads(states, s, t, more@.len()));
    assert forall|i: int|
        #![trigger states[i]]
        0 <= i < more@.len() implies enacts(more@[i], from, now, states[i], states[i + 1]) by {
        if i < n {
            assert(states[i] == front[i]);
            assert(states[i + 1] == front[i + 1]);
            assert(more@[i] == several@[i]);
        } else {
            assert(states[i] == mid);
        }
    }
    lemma_led(TesterAction::Multiple(more), from, now, s, t, states);
}

// ----- How a packet passes through a tester -----

/// What a handler passes on goes to the next handler, as the handler left it, and
/// behind the last one the recurring actions are run. What a handler keeps goes
/// no further.
pub proof fn law_packet_passes_every_handler<P: Packetable>(
    f: FeedView,
    handlers: nat,
    data: Seq<u8>,
    pkt: Option<P>,
    g: FeedView,
    step: FeedStep<P>,
)
    requires
        f.stage is Handling,
        f.stage->Handling_0 < handlers,
        handlers <= usize::MAX,
        f.follows(handlers, data, FeedEvent::Handled(pkt), g, step),
    ensures
        pkt is Some && f.stage->Handling_0 + 1 < handlers ==> step == FeedStep::Handle(
            (f.stage->Handling_0 + 1) as usize,
            pkt->0,
        ),
        pkt is None || f.stage->Handling_0 + 1 == handlers ==> step is RunCycles && g.stage
            is Cycling,
        g.offset == f.offset,
{
}

/// A datagram is one packet, which is decoded from all of it and goes to the first
/// handler; behind it there is no other. One that cannot be decoded goes nowhere.
pub proof fn law_datagram_is_one_packet<P: Packetable>(
    f: FeedView,
    handlers: nat,
    data: Seq<u8>,
    g: FeedView,
    step: FeedStep<P>,
)
    requires
        P::SOCKET_TYPE == SocketType::Udp,
    ensures
        f.stage is Start && f.follows(handlers, data, FeedEvent::Begin, g, step) ==> {
            ||| exists|p: P, n: usize| #[trigger]
                decodes(data, Some((p, n))) && (handlers > 0 ==> step == FeedStep::Handle(0, p)) && (
                handlers == 0 ==> step is RunCycles)
            ||| decodes::<P>(data, None) && step == FeedStep::<P>::Done(None)
        },
        f.stage is Cycling && f.follows(handlers, data, FeedEvent::CyclesRun, g, step) ==> step
            == FeedStep::<P>::Done(None) && g.stage is Over,
{
    if f.stage is Start && f.follows(handlers, data, FeedEvent::Begin, g, step) {
        let r = choose|r: Option<(P, usize)>| #[trigger]
            decodes(data, r) && match r {
                Some((pkt, _)) => crate::framework::first_handled(handlers, f.offset, pkt, g, step),
                None => g == (FeedView { offset: f.offset, stage: FeedStage::Over }) && step
                    == FeedStep::<P>::Done(None),
            };
        if r is Some {
            let (p, n) = r->0;
            assert(decodes(data, Some((p, n))));
        }
    }
}

/// A stream is decoded packet by packet, each from where the one before it ended,
/// until it holds no whole packet or nothing; then the tester says how many bytes
/// the packets were made of.
pub proof fn law_stream_is_decoded_packet_by_packet<P: Packetable>(
    f: FeedView,
    handlers: nat,
    data: Seq<u8>,
    event: FeedEvent<P>,
    g: FeedView,
    step: FeedStep<P>,
)
    requires
        P::SOCKET_TYPE == SocketType::Tcp,
        (f.stage is Start && event is Begin) || (f.stage is Cycling && event is CyclesRun),
        f.follows(handlers, data, event, g, step),
        f.offset <= usize::MAX,
    ensures
        f.offset >= data.len() ==> step == FeedStep::<P>::Done(Some(f.offset as usize)),
        f.offset < data.len() ==> {
            ||| exists|p: P, n: usize|
                {
                    &&& #[trigger] decodes(data.skip(f.offset as int), Some((p, n)))
                    &&& f.offset + n <= usize::MAX ==> g.offset == f.offset + n
                    &&& handlers > 0 ==> step == FeedStep::Handle(0, p)
                    &&& handlers == 0 ==> step is RunCycles
                }
            ||| decodes::<P>(data.skip(f.offset as int), None) && step == FeedStep::<P>::Done(
                Some(f.offset as usize),
            )
        },
{
    if f.offset < data.len() {
        let rest = data.skip(f.offset as int);
        let r = choose|r: Option<(P, usize)>| #[trigger]
            decodes(rest, r) && match r {
                Some((pkt, read)) => crate::framework::first_handled(
                    handlers,
                    crate::framework::used_up(f.offset, read),
                    pkt,
                    g,
                    step,
                ),
                None => g == (FeedView { offset: f.offset, stage: FeedStage::Over }) && step
                    == FeedStep::<P>::Done(Some(f.offset as usize)),
            };
        if r is Some {
            let (p, n) = r->0;
            assert(decodes(rest, Some((p, n))));
        }
    }
}

// ----- What a tester knows -----

/// A tester that was just made has no handlers, actions or conditions. With TCP
/// a listener is bound to its address, so that one can connect to it; with UDP
/// nothing is.
pub proof fn law_new_tester_can_be_reached<P: Packetable>(
    st: &mut TestState,
    addr: SocketAddr,
    r: NetTester<P>,
)
    requires
        call_ensures(crate::framework::connect_tester::<P>, (st, addr), r),
    ensures
        r@.addr == addr,
        r@.handlers == 0 && r@.conditions == 0 && r@.cycles.len() == 0,
        P::SOCKET_TYPE == SocketType::Udp ==> final(st)@ == old(st)@,
        P::SOCKET_TYPE == SocketType::Tcp ==> final(st)@.has_listener(addr)
            && final(st)@.ports.contains(addr.port_part()),
{
    let s = old(st)@;
    crate::state::lemma_found_listener(s.listeners, addr, 0);
    let t = s.with_listening(addr);
    match s.find_listener(addr) {
        Some(i) => {
            assert(t.listeners[i].addr == addr);
        },
        None => {
            assert(t.listeners[s.listeners.len() as int].addr == addr);
        },
    }
}

/// Handlers, actions and conditions add up; an action that was added is not due
/// before its interval has passed, nor one that has just run.
pub proof fn law_tester_is_built_up<P: Packetable>(
    a: NetTester<P>,
    b: NetTester<P>,
    c: NetTester<P>,
    d: NetTester<P>,
    now: Now,
    delta: Duration,
    later: nat,
)
    requires
        call_ensures(NetTester::<P>::with_handler, (a,), b),
        call_ensures(NetTester::<P>::with_cycle, (b, now, delta), c),
        call_ensures(NetTester::<P>::with_condition, (c,), d),
        now.mono@ + delta@ <= MAX_NANOS,
    ensures
        d@.addr == a@.addr,
        d@.handlers == a@.handlers + 1,
        d@.conditions == a@.conditions + 1,
        d@.cycles.len() == a@.cycles.len() + 1,
        d@.cycles.take(a@.cycles.len() as int) == a@.cycles,
        d@.cycles.last().is_due(later) <==> later >= now.mono@ + delta@,
{
    Instant::lemma_of(now.mono@ + delta@);
    assert(d@.cycles.take(a@.cycles.len() as int) =~= a@.cycles);
}

/// An action that has run is due again when its interval has passed, and others
/// are due as they were.
pub proof fn law_action_recurs<P: Packetable>(
    a: &mut NetTester<P>,
    now: Now,
    i: usize,
    later: nat,
)
    requires
        i < old(a)@.cycles.len(),
        call_ensures(NetTester::<P>::cycle_ran, (a, now, i), ()),
        now.mono@ + old(a)@.cycles[i as int].delta@ <= MAX_NANOS,
    ensures
        final(a)@.cycles.len() == old(a)@.cycles.len(),
        final(a)@.cycles[i as int].is_due(later) <==> later >= now.mono@
            + old(a)@.cycles[i as int].delta@,
        final(a)@.cycles[i as int].delta == old(a)@.cycles[i as int].delta,
        forall|j: int|
            0 <= j < old(a)@.cycles.len() && j != i ==> #[trigger] final(a)@.cycles[j]
                == old(a)@.cycles[j],
        final(a)@.handlers == old(a)@.handlers && final(a)@.conditions == old(a)@.conditions,
{
    Instant::lemma_of(now.mono@ + old(a)@.cycles[i as int].delta@);
}

/// A tester with conditions is finished when one of them holds, and each is asked
/// in turn until one does; a tester without is finished when nothing waits for
/// it that could be fed at once.
pub proof fn law_tester_finishes_by_its_conditions<P: Packetable>(
    a: NetTester<P>,
    st: &TestState,
    asked: usize,
    met: bool,
    r: FinishStep,
)
    requires
        call_ensures(NetTester::<P>::finish_step, (&a, st, asked, met), r),
    ensures
        a@.conditions > 0 && met ==> r == FinishStep::Known(true),
        a@.conditions > 0 && !met && asked < a@.conditions ==> r == FinishStep::Ask(asked),
        a@.conditions > 0 && !met && asked >= a@.conditions ==> r == FinishStep::Known(false),
        a@.conditions == 0 ==> r is Known,
        a@.conditions == 0 && P::SOCKET_TYPE == SocketType::Udp ==> (r->Known_0 <==> forall|
            u: int,
            p: int,
        |
            !#[trigger] crate::run_laws::packet_waits(st@, u, p, a@.addr)),
        a@.conditions == 0 && P::SOCKET_TYPE == SocketType::Tcp ==> (r->Known_0 <==> forall|k: int|
            0 <= k < st@.tcp.len() && (#[trigger] st@.tcp[k]) is Some && st@.tcp[k]->0.local_addr
                == a@.addr ==> st@.tcp[k]->0.incoming.len() == 0),
{
    crate::run_laws::lemma_first_sender(st@, a@.addr, 0);
    assert(is_idle(st@, a@.addr, P::SOCKET_TYPE) == is_idle(st@, a@.addr, P::SOCKET_TYPE));
}

/// A timer counts from when it was first asked.
pub proof fn law_timer_counts_from_the_first_call(
    fresh: TimerState,
    a: &mut TimerState,
    b: &mut TimerState,
    now: Now,
    later: Now,
    r: Duration,
    q: Duration,
)
    requires
        call_ensures(TimerState::default, (), fresh),
        *old(a) == fresh,
        call_ensures(TimerState::poll_elapsed, (a, now), r),
        *final(a) == *old(b),
        call_ensures(TimerState::poll_elapsed, (b, later), q),
        now.mono@ <= later.mono@,
    ensures
        r@ == 0,
        q@ == later.mono@ - now.mono@,
{
}

} // verus!
