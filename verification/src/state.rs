//! The network of one test: its sockets, its link policies, its clock, its log.
//!
//! Everything that the socket shims, the poller and the testers do is done to a
//! [`TestState`], one step at a time. A step never waits: where an operation has
//! to, it says so, and its caller waits for the state's signal and comes back.

use crate::addr::{IpAddr, Ipv4Addr, Ipv6Addr, SocketAddr};
use crate::bell::listens_to;
use crate::clock::{Clock, ClockView, SleepStep, TimeRate};
use crate::conn::{
    lemma_soonest, soonest, ChunkView, ListenerView, Packet, PacketView, TcpConnection,
    TcpListenerState, TcpView, UdpConnection, UdpView,
};
use crate::error::{err, Error, ErrorKind, ErrorView};
use crate::pcapng::{PcapView, PcapWriter};
use crate::policy::{
    default_tcp_policy, default_udp_policy, ListenerBehavior, QuiesceEntry, QuiesceMode, TcpPolicy,
    UdpPolicy,
};
use crate::record::{RecordedEntry, RecordedEvent};
use crate::rng::{next, output, seeded, seeded_state, share, step, Probability};
use crate::signal::Signal;
use crate::table::Table;
use crate::SocketType;
use crate::time::{elapsed_between, Duration, Instant, MAX_NANOS, SystemTime};
use std::collections::HashSet;
use vstd::prelude::*;

verus! {

broadcast use vstd::std_specs::hash::group_hash_axioms;

/// One reading of the real clocks.
#[derive(Clone, Copy, Debug)]
pub struct Now {
    /// The monotonic clock, whose epoch is one moment for the whole process.
    pub mono: Instant,
    /// The wall clock.
    pub wall: SystemTime,
}

impl Now {
    /// Microseconds since the Unix epoch.
    pub open spec fn micros(self) -> nat {
        self.wall@ / 1_000
    }
}

// ----- The model -----

/// What a test's network holds. A connection's end is known by its place in
/// `tcp`, which is empty once that end is gone.
pub struct StateView {
    pub tcp: Seq<Option<TcpView>>,
    pub listeners: Seq<ListenerView>,
    pub udp: Seq<UdpView>,
    pub ports: Set<u16>,
    pub ips: Set<IpAddr>,
    pub next_port: u16,
    pub quiesce: Map<SocketAddr, QuiesceEntry>,
    pub tcp_policies: Map<SocketAddr, TcpPolicy>,
    pub udp_policies: Map<SocketAddr, UdpPolicy>,
    pub behaviors: Map<SocketAddr, ListenerBehavior>,
    pub log: Seq<RecordedEntry>,
    pub rng: Option<u64>,
    pub capture: Option<PcapView>,
    pub test_name: Option<Seq<char>>,
    pub clock: ClockView,
    /// How often those who wait have been woken.
    pub wakes: nat,
    /// What they listen to.
    pub bell: event_listener::Event<()>,
}

/// Which end of a TCP connection is meant.
#[derive(Clone, Copy, Debug, PartialEq, Eq, Structural)]
pub enum Which {
    /// The one at a local address.
    At(SocketAddr),
    /// The one at a local address with a given peer.
    Between(SocketAddr, SocketAddr),
    /// The one with a given peer, unless it was closed by the test.
    Towards(SocketAddr),
}

impl Which {
    pub open spec fn is(self, c: TcpView) -> bool {
        match self {
            Which::At(addr) => c.local_addr == addr,
            Which::Between(local, peer) => c.local_addr == local && c.peer_addr == peer,
            Which::Towards(peer) => c.peer_addr == peer && !c.destroyed,
        }
    }

    fn meant(&self, c: &TcpConnection) -> (r: bool)
        ensures
            r == self.is(c@),
    {
        match *self {
            Which::At(addr) => c.local_addr == addr,
            Which::Between(local, peer) => c.local_addr == local && c.peer_addr == peer,
            Which::Towards(peer) => c.peer_addr == peer && !c.is_destroyed,
        }
    }
}

/// The oldest end that is meant, at or behind `from`.
pub open spec fn first_tcp(tcp: Seq<Option<TcpView>>, which: Which, from: int) -> Option<int>
    decreases tcp.len() - from,
{
    if from < 0 || from >= tcp.len() {
        None
    } else if tcp[from] is Some && which.is(tcp[from]->0) {
        Some(from)
    } else {
        first_tcp(tcp, which, from + 1)
    }
}

pub proof fn lemma_first_tcp(tcp: Seq<Option<TcpView>>, which: Which, from: int)
    requires
        first_tcp(tcp, which, from) is Some,
    ensures
        ({
            let i = first_tcp(tcp, which, from)->0;
            0 <= from <= i < tcp.len() && tcp[i] is Some && which.is(tcp[i]->0)
        }),
    decreases tcp.len() - from,
{
    if 0 <= from < tcp.len() && !(tcp[from] is Some && which.is(tcp[from]->0)) {
        lemma_first_tcp(tcp, which, from + 1);
    }
}

/// The socket bound at `addr`, at or behind `from`.
pub open spec fn first_udp(udp: Seq<UdpView>, addr: SocketAddr, from: int) -> Option<int>
    decreases udp.len() - from,
{
    if from < 0 || from >= udp.len() {
        None
    } else if udp[from].addr == addr {
        Some(from)
    } else {
        first_udp(udp, addr, from + 1)
    }
}

/// The listener bound at `addr`, at or behind `from`.
pub open spec fn first_listener(
    listeners: Seq<ListenerView>,
    addr: SocketAddr,
    from: int,
) -> Option<int>
    decreases listeners.len() - from,
{
    if from < 0 || from >= listeners.len() {
        None
    } else if listeners[from].addr == addr {
        Some(from)
    } else {
        first_listener(listeners, addr, from + 1)
    }
}

/// The listener on every address of `port`, at or behind `from`.
pub open spec fn first_wildcard(listeners: Seq<ListenerView>, port: u16, from: int) -> Option<int>
    decreases listeners.len() - from,
{
    if from < 0 || from >= listeners.len() {
        None
    } else if listeners[from].addr.port_part() == port
        && listeners[from].addr.ip_part().unspecified() {
        Some(from)
    } else {
        first_wildcard(listeners, port, from + 1)
    }
}

/// The addresses that can be bound from the start: `0.0.0.0`, `127.0.0.1`,
/// `::1` and `::`.
pub open spec fn default_ips() -> Set<IpAddr> {
    set![
        IpAddr::V4(Ipv4Addr { bits: 0 }),
        IpAddr::V4(Ipv4Addr { bits: 0x7f00_0001 }),
        IpAddr::V6(Ipv6Addr { bits: 1 }),
        IpAddr::V6(Ipv6Addr { bits: 0 }),
    ]
}

/// The first and the last ephemeral port.
pub const FIRST_EPHEMERAL: u16 = 40_000;

pub const LAST_EPHEMERAL: u16 = 65_535;

/// Some ephemeral port is free.
pub open spec fn has_free_port(ports: Set<u16>) -> bool {
    exists|p: u16| FIRST_EPHEMERAL <= p <= LAST_EPHEMERAL && !#[trigger] ports.contains(p)
}

/// The `k`-th ephemeral port from `next` on, counting round.
pub open spec fn nth_port(next: u16, k: int) -> u16 {
    (40_000 + ((if next == 0 {
        0int
    } else {
        next - 40_000
    }) + k) % 25_536) as u16
}

/// The first free ephemeral port from the `k`-th on, counting round.
pub open spec fn free_port(ports: Set<u16>, next: u16, k: int) -> u16
    decreases 25_536 - k,
{
    if k < 25_536 && ports.contains(nth_port(next, k)) {
        free_port(ports, next, k + 1)
    } else {
        nth_port(next, k)
    }
}

/// Each end of a connection knows the other, as long as both exist.
#[verifier::opaque]
pub open spec fn linked(tcp: Seq<Option<TcpView>>) -> bool {
    forall|i: int|
        0 <= i < tcp.len() && (#[trigger] tcp[i]) is Some && tcp[i]->0.peer is Some ==> {
            let p = tcp[i]->0.peer->0 as int;
            &&& p < tcp.len()
            &&& p != i
            &&& tcp[p] is Some
            &&& tcp[p]->0.peer is Some
            &&& tcp[p]->0.peer->0 == i
            &&& tcp[p]->0.local_addr == tcp[i]->0.peer_addr
            &&& tcp[p]->0.peer_addr == tcp[i]->0.local_addr
        }
}

/// Every end has a handle.
#[verifier::opaque]
pub open spec fn held(tcp: Seq<Option<TcpView>>) -> bool {
    forall|i: int| 0 <= i < tcp.len() && (#[trigger] tcp[i]) is Some ==> tcp[i]->0.refs >= 1
}

/// `id` waits to be accepted.
pub open spec fn awaits(listeners: Seq<ListenerView>, id: usize) -> bool {
    exists|l: int, k: int|
        0 <= l < listeners.len() && 0 <= k < listeners[l].pending.len()
            && #[trigger] listeners[l].pending[k] == id
}

/// What waits to be accepted exists, nobody has touched it, and it waits in one
/// place only.
#[verifier::opaque]
pub open spec fn queues_ok(listeners: Seq<ListenerView>, tcp: Seq<Option<TcpView>>) -> bool {
    &&& forall|l: int, k: int|
        0 <= l < listeners.len() && 0 <= k < listeners[l].pending.len() ==> {
            let id = #[trigger] listeners[l].pending[k];
            id < tcp.len() && tcp[id as int] is Some && tcp[id as int]->0.is_as_made()
        }
    &&& forall|l: int, k: int, m: int, n: int|
        0 <= l < listeners.len() && 0 <= k < listeners[l].pending.len() && 0 <= m < listeners.len()
            && 0 <= n < listeners[m].pending.len() && #[trigger] listeners[l].pending[k]
            == #[trigger] listeners[m].pending[n] ==> l == m && k == n
}

/// No two listeners share an address, and each has a handle.
#[verifier::opaque]
pub open spec fn listeners_ok(listeners: Seq<ListenerView>) -> bool {
    &&& forall|l: int, m: int|
        0 <= l < m < listeners.len() ==> (#[trigger] listeners[l]).addr != (
        #[trigger] listeners[m]).addr
    &&& forall|l: int| 0 <= l < listeners.len() ==> (#[trigger] listeners[l]).refs >= 1
}

/// Whatever a handle could stand for in `s`, but for `gone`, it can stand for in
/// `t`.
pub open spec fn keeps_handles(s: StateView, t: StateView, gone: Option<usize>) -> bool {
    forall|h: usize|
        #![trigger s.usable(h)]
        #![trigger t.usable(h)]
        s.usable(h) && gone != Some(h) ==> t.usable(h)
}

impl StateView {
    /// A listener is bound at `addr`.
    pub open spec fn has_listener(self, addr: SocketAddr) -> bool {
        exists|i: int| 0 <= i < self.listeners.len() && (#[trigger] self.listeners[i]).addr == addr
    }

    /// A UDP socket is bound at `addr`.
    pub open spec fn has_udp(self, addr: SocketAddr) -> bool {
        exists|i: int| 0 <= i < self.udp.len() && (#[trigger] self.udp[i]).addr == addr
    }

    /// What holds of every network.
    pub open spec fn wf(self) -> bool {
        &&& linked(self.tcp)
        &&& held(self.tcp)
        &&& listeners_ok(self.listeners)
        &&& queues_ok(self.listeners, self.tcp)
        &&& self.next_port == 0 || self.next_port >= FIRST_EPHEMERAL
        &&& self.clock.den > 0
    }

    /// Whether it is this network that wakes `listener`.
    pub open spec fn is_heard_by(self, listener: event_listener::EventListener<()>) -> bool {
        listens_to(listener, self.bell)
    }

    /// The network of a test that has just begun, and that wakes those who listen
    /// to `bell`.
    pub open spec fn fresh(now: Now, bell: event_listener::Event<()>) -> StateView {
        StateView {
            tcp: Seq::empty(),
            listeners: Seq::empty(),
            udp: Seq::empty(),
            ports: Set::empty(),
            ips: default_ips(),
            next_port: FIRST_EPHEMERAL,
            quiesce: Map::empty(),
            tcp_policies: Map::empty(),
            udp_policies: Map::empty(),
            behaviors: Map::empty(),
            log: Seq::empty(),
            rng: None,
            capture: None,
            test_name: None,
            clock: ClockView {
                num: 1,
                den: 1,
                anchor_real: now.mono@,
                anchor_virtual: 0,
                wall_base: now.wall@,
            },
            wakes: 0,
            bell,
        }
    }

    /// Those who wait have been woken.
    pub open spec fn woken(self) -> StateView {
        StateView { wakes: self.wakes + 1, ..self }
    }

    /// `event` has been logged.
    pub open spec fn recorded(self, now: Now, event: RecordedEvent) -> StateView {
        StateView { log: self.log.push(RecordedEntry { at: now.mono, event }), ..self }
    }

    /// The end `id` exists.
    pub open spec fn live(self, id: usize) -> bool {
        id < self.tcp.len() && self.tcp[id as int] is Some
    }

    /// The end `id`.
    pub open spec fn conn(self, id: usize) -> TcpView {
        self.tcp[id as int]->0
    }

    pub open spec fn with_conn(self, id: usize, c: TcpView) -> StateView {
        StateView { tcp: self.tcp.update(id as int, Some(c)), ..self }
    }

    pub open spec fn with_udp(self, i: int, u: UdpView) -> StateView {
        StateView { udp: self.udp.update(i, u), ..self }
    }

    pub open spec fn with_listener(self, i: int, l: ListenerView) -> StateView {
        StateView { listeners: self.listeners.update(i, l), ..self }
    }

    /// A handle can stand for the end `id`: it exists and is not still waiting
    /// to be accepted.
    pub open spec fn usable(self, id: usize) -> bool {
        self.live(id) && !awaits(self.listeners, id)
    }

    /// The end that is meant.
    pub open spec fn find_tcp(self, which: Which) -> Option<int> {
        first_tcp(self.tcp, which, 0)
    }

    /// The socket bound at `addr`.
    pub open spec fn find_udp(self, addr: SocketAddr) -> Option<int> {
        first_udp(self.udp, addr, 0)
    }

    /// The listener bound at `addr`.
    pub open spec fn find_listener(self, addr: SocketAddr) -> Option<int> {
        first_listener(self.listeners, addr, 0)
    }

    /// The listener that a connection to `target` goes to: the one at that
    /// address, or else one on every address of that port.
    pub open spec fn listener_for(self, target: SocketAddr) -> Option<int> {
        match self.find_listener(target) {
            Some(i) => Some(i),
            None => first_wildcard(self.listeners, target.port_part(), 0),
        }
    }

    pub open spec fn tcp_policy(self, addr: SocketAddr) -> TcpPolicy {
        if self.tcp_policies.dom().contains(addr) {
            self.tcp_policies[addr]
        } else {
            default_tcp_policy()
        }
    }

    pub open spec fn udp_policy(self, addr: SocketAddr) -> UdpPolicy {
        if self.udp_policies.dom().contains(addr) {
            self.udp_policies[addr]
        } else {
            default_udp_policy()
        }
    }

    pub open spec fn behavior(self, addr: SocketAddr) -> ListenerBehavior {
        if self.behaviors.dom().contains(addr) {
            self.behaviors[addr]
        } else {
            ListenerBehavior::Accepting
        }
    }

    pub open spec fn captured_open(self, now: Now, client: SocketAddr, server: SocketAddr) -> StateView {
        match self.capture {
            Some(w) => StateView { capture: Some(w.opened(client, server, now.micros())), ..self },
            None => self,
        }
    }

    pub open spec fn captured_data(
        self,
        now: Now,
        src: SocketAddr,
        dst: SocketAddr,
        data: Seq<u8>,
    ) -> StateView {
        match self.capture {
            Some(w) => StateView { capture: Some(w.with_data(src, dst, data, now.micros())), ..self },
            None => self,
        }
    }

    pub open spec fn captured_fin(self, now: Now, src: SocketAddr, dst: SocketAddr) -> StateView {
        match self.capture {
            Some(w) => StateView { capture: Some(w.with_fin(src, dst, now.micros())), ..self },
            None => self,
        }
    }

    pub open spec fn captured_rst(self, now: Now, src: SocketAddr, dst: SocketAddr) -> StateView {
        match self.capture {
            Some(w) => StateView { capture: Some(w.with_rst(src, dst, now.micros())), ..self },
            None => self,
        }
    }

    pub open spec fn captured_datagram(
        self,
        now: Now,
        src: SocketAddr,
        dst: SocketAddr,
        data: Seq<u8>,
    ) -> StateView {
        match self.capture {
            Some(w) => StateView {
                capture: Some(w.with_datagram(src, dst, data, now.micros())),
                ..self
            },
            None => self,
        }
    }
}

/// Changing what an end holds leaves the network in order, as long as it keeps
/// its other end, its addresses and a handle, and, where it waits to be
/// accepted, its options.
pub proof fn lemma_conn_changed(s: StateView, id: usize, c: TcpView)
    requires
        s.wf(),
        s.live(id),
        c.peer == s.conn(id).peer,
        c.local_addr == s.conn(id).local_addr,
        c.peer_addr == s.conn(id).peer_addr,
        c.refs >= 1,
        c.is_set_as(s.conn(id)) || !awaits(s.listeners, id),
    ensures
        s.with_conn(id, c).wf(),
{
    reveal(linked);
    reveal(held);
    reveal(queues_ok);
    let t = s.with_conn(id, c);
    assert forall|i: int| 0 <= i < s.tcp.len() implies {
        &&& (#[trigger] t.tcp[i]) is Some == s.tcp[i] is Some
        &&& t.tcp[i]->0.peer == s.tcp[i]->0.peer
        &&& t.tcp[i]->0.local_addr == s.tcp[i]->0.local_addr
        &&& t.tcp[i]->0.peer_addr == s.tcp[i]->0.peer_addr
    } by {}
}

/// The other end of an end exists and knows it.
pub proof fn lemma_peer(s: StateView, id: usize)
    requires
        s.wf(),
        s.live(id),
    ensures
        s.conn(id).refs >= 1,
        s.conn(id).peer is Some ==> {
            let p = s.conn(id).peer->0;
            &&& p != id
            &&& s.live(p)
            &&& s.conn(p).peer == Some(id)
            &&& s.conn(p).local_addr == s.conn(id).peer_addr
            &&& s.conn(p).peer_addr == s.conn(id).local_addr
        },
{
    reveal(linked);
    reveal(held);
    assert(s.tcp[id as int] is Some);
}

/// Every listener has a handle.
pub proof fn lemma_listener_held(s: StateView, i: int)
    requires
        s.wf(),
        0 <= i < s.listeners.len(),
    ensures
        s.listeners[i].refs >= 1,
{
    reveal(listeners_ok);
}

/// Changing a listener leaves the network in order, as long as it keeps its
/// address, its queue and a handle.
pub proof fn lemma_listener_changed(s: StateView, i: int, l: ListenerView)
    requires
        s.wf(),
        0 <= i < s.listeners.len(),
        l.addr == s.listeners[i].addr,
        l.pending == s.listeners[i].pending,
        l.refs >= 1,
    ensures
        s.with_listener(i, l).wf(),
        forall|id: usize| #[trigger] awaits(s.with_listener(i, l).listeners, id) == awaits(s.listeners, id),
{
    reveal(queues_ok);
    reveal(listeners_ok);
    let t = s.with_listener(i, l);
    assert forall|m: int| 0 <= m < s.listeners.len() implies {
        &&& (#[trigger] t.listeners[m]).pending == s.listeners[m].pending
        &&& t.listeners[m].addr == s.listeners[m].addr
    } by {}
    assert forall|id: usize| #[trigger] awaits(t.listeners, id) == awaits(s.listeners, id) by {
        if awaits(s.listeners, id) {
            let (m, k) = choose|m: int, k: int|
                0 <= m < s.listeners.len() && 0 <= k < s.listeners[m].pending.len()
                    && #[trigger] s.listeners[m].pending[k] == id;
            assert(t.listeners[m].pending[k] == id);
        }
        if awaits(t.listeners, id) {
            let (m, k) = choose|m: int, k: int|
                0 <= m < t.listeners.len() && 0 <= k < t.listeners[m].pending.len()
                    && #[trigger] t.listeners[m].pending[k] == id;
            assert(s.listeners[m].pending[k] == id);
        }
    }
}

// ----- The state -----

/// The network of one test.
pub struct TestState {
    tcp: Vec<Option<TcpConnection>>,
    listeners: Vec<TcpListenerState>,
    udp: Vec<UdpConnection>,
    ports: HashSet<u16>,
    ips: Table<IpAddr, ()>,
    next_port: u16,
    quiesce: Table<SocketAddr, QuiesceEntry>,
    tcp_policies: Table<SocketAddr, TcpPolicy>,
    udp_policies: Table<SocketAddr, UdpPolicy>,
    behaviors: Table<SocketAddr, ListenerBehavior>,
    log: Vec<RecordedEntry>,
    rng: Option<u64>,
    capture: Option<PcapWriter>,
    test_name: Option<String>,
    clock: Clock,
    signal: Signal,
}

pub open spec fn tcp_slot(c: Option<TcpConnection>) -> Option<TcpView> {
    match c {
        Some(c) => Some(c@),
        None => None,
    }
}

impl TestState {
    pub closed spec fn view(&self) -> StateView {
        StateView {
            tcp: self.tcp@.map_values(|c: Option<TcpConnection>| tcp_slot(c)),
            listeners: self.listeners@.map_values(|l: TcpListenerState| l@),
            udp: self.udp@.map_values(|u: UdpConnection| u@),
            ports: self.ports@,
            ips: self.ips@.dom(),
            next_port: self.next_port,
            quiesce: self.quiesce@,
            tcp_policies: self.tcp_policies@,
            udp_policies: self.udp_policies@,
            behaviors: self.behaviors@,
            log: self.log@,
            rng: self.rng,
            capture: match self.capture {
                Some(w) => Some(w@),
                None => None,
            },
            test_name: match self.test_name {
                Some(n) => Some(n@),
                None => None,
            },
            clock: self.clock@,
            wakes: self.signal@,
            bell: self.signal.event(),
        }
    }

    /// The network of a test that begins at `now`.
    pub fn new(now: Now) -> (r: TestState)
        ensures
            r@ == StateView::fresh(now, r@.bell),
            r@.wf(),
    {
        let mut ips: Table<IpAddr, ()> = Table::new();
        ips.insert(IpAddr::V4(Ipv4Addr { bits: 0 }), ());
        ips.insert(IpAddr::V4(Ipv4Addr { bits: 0x7f00_0001 }), ());
        ips.insert(IpAddr::V6(Ipv6Addr { bits: 1 }), ());
        ips.insert(IpAddr::V6(Ipv6Addr { bits: 0 }), ());
        assert(ips@.dom() =~= default_ips());
        proof {
            reveal(linked);
            reveal(held);
            reveal(queues_ok);
            reveal(listeners_ok);
        }
        let r = TestState {
            tcp: Vec::new(),
            listeners: Vec::new(),
            udp: Vec::new(),
            ports: HashSet::new(),
            ips,
            next_port: FIRST_EPHEMERAL,
            quiesce: Table::new(),
            tcp_policies: Table::new(),
            udp_policies: Table::new(),
            behaviors: Table::new(),
            log: Vec::new(),
            rng: None,
            capture: None,
            test_name: None,
            clock: Clock::new(now.mono, now.wall),
            signal: Signal::new(),
        };
        assert(r@.tcp =~= Seq::empty());
        assert(r@.listeners =~= Seq::empty());
        assert(r@.udp =~= Seq::empty());
        r
    }

    /// A listener that the next change wakes.
    pub fn listen(&self) -> (r: event_listener::EventListener<()>)
        ensures
            self@.is_heard_by(r),
    {
        self.signal.listen()
    }

    /// The end `id`, to be read.
    pub fn tcp_connection(&self, id: usize) -> (r: &TcpConnection)
        requires
            self@.live(id),
        ensures
            r@ == self@.conn(id),
    {
        assert(tcp_slot(self.tcp@[id as int]) == self@.tcp[id as int]);
        match &self.tcp[id] {
            Some(c) => c,
            None => vstd::pervasive::unreached(),
        }
    }

    /// Whether the end `id` exists.
    pub fn is_live(&self, id: usize) -> (r: bool)
        ensures
            r == self@.live(id),
    {
        if id < self.tcp.len() {
            assert(tcp_slot(self.tcp@[id as int]) == self@.tcp[id as int]);
            self.tcp[id].is_some()
        } else {
            false
        }
    }

    /// The end `id`, to be changed. Those who wait are woken.
    pub fn with_tcp_connection(&mut self, id: usize) -> (r: &mut TcpConnection)
        requires
            old(self)@.live(id),
        ensures
            r@ == old(self)@.conn(id),
            final(self)@.tcp == old(self)@.tcp.update(id as int, Some(final(r)@)),
            final(self)@ == (StateView { tcp: final(self)@.tcp, ..old(self)@ }).woken(),
            old(self)@.wf() && final(r)@.peer == r@.peer && final(r)@.local_addr == r@.local_addr
                && final(r)@.peer_addr == r@.peer_addr && (final(r)@.refs >= 1 || final(r)@.refs
                == r@.refs) && (final(r)@.is_set_as(r@) || !awaits(old(self)@.listeners, id))
                ==> (StateView {
                tcp: old(self)@.tcp.update(id as int, Some(final(r)@)),
                ..old(self)@
            }).wf(),
    {
        proof {
            let s = old(self)@;
            assert forall|c: TcpView|
                s.wf() && c.peer == s.conn(id).peer && c.local_addr == s.conn(id).local_addr
                    && c.peer_addr == s.conn(id).peer_addr && (c.refs >= 1 || c.refs == s.conn(
                    id,
                ).refs) && (c.is_set_as(s.conn(id)) || !awaits(s.listeners, id)) implies (StateView {
                tcp: #[trigger] s.tcp.update(id as int, Some(c)),
                ..s
            }).wf() by {
                lemma_peer(s, id);
                lemma_conn_changed(s, id, c);
            }
        }
        self.signal.raise();
        assert(tcp_slot(self.tcp@[id as int]) == old(self)@.tcp[id as int]);
        let r = match &mut self.tcp[id] {
            Some(c) => c,
            None => vstd::pervasive::unreached(),
        };
        r
    }

    /// The socket in place `i`, to be read.
    pub fn udp_connection(&self, i: usize) -> (r: &UdpConnection)
        requires
            i < self@.udp.len(),
        ensures
            r@ == self@.udp[i as int],
    {
        &self.udp[i]
    }

    /// The socket in place `i`, to be changed. Those who wait are woken.
    pub fn with_udp_connection(&mut self, i: usize) -> (r: &mut UdpConnection)
        requires
            i < old(self)@.udp.len(),
        ensures
            r@ == old(self)@.udp[i as int],
            final(self)@.udp == old(self)@.udp.update(i as int, final(r)@),
            final(self)@ == (StateView { udp: final(self)@.udp, ..old(self)@ }).woken(),
    {
        self.signal.raise();
        &mut self.udp[i]
    }

    /// The socket in place `i`, to be changed without waking anyone.
    pub fn udp_connection_mut(&mut self, i: usize) -> (r: &mut UdpConnection)
        requires
            i < old(self)@.udp.len(),
        ensures
            r@ == old(self)@.udp[i as int],
            final(self)@.udp == old(self)@.udp.update(i as int, final(r)@),
            final(self)@ == (StateView { udp: final(self)@.udp, ..old(self)@ }),
    {
        &mut self.udp[i]
    }

    /// The place of the socket bound at `addr`.
    pub fn udp_place(&self, addr: SocketAddr) -> (r: usize)
        requires
            self@.has_udp(addr),
        ensures
            self@.find_udp(addr) == Some(r as int),
            r < self@.udp.len(),
            self@.udp[r as int].addr == addr,
    {
        match self.find_udp(addr) {
            Some(i) => i,
            None => {
                proof {
                    lemma_no_udp(self@.udp, addr, 0);
                }
                vstd::pervasive::unreached()
            },
        }
    }

    /// The listener in place `i`, to be read.
    pub fn tcp_listener(&self, i: usize) -> (r: &TcpListenerState)
        requires
            i < self@.listeners.len(),
        ensures
            r@ == self@.listeners[i as int],
    {
        &self.listeners[i]
    }

    /// The listener in place `i`, to be changed.
    pub fn with_tcp_listener_state(&mut self, i: usize) -> (r: &mut TcpListenerState)
        requires
            i < old(self)@.listeners.len(),
        ensures
            r@ == old(self)@.listeners[i as int],
            final(self)@.listeners == old(self)@.listeners.update(i as int, final(r)@),
            final(self)@ == (StateView { listeners: final(self)@.listeners, ..old(self)@ }),
            old(self)@.wf() && final(r)@.addr == r@.addr && final(r)@.pending == r@.pending
                && final(r)@.refs >= 1 ==> (StateView {
                listeners: old(self)@.listeners.update(i as int, final(r)@),
                ..old(self)@
            }).wf(),
    {
        proof {
            let s = old(self)@;
            assert forall|l: ListenerView|
                s.wf() && l.addr == s.listeners[i as int].addr && l.pending
                    == s.listeners[i as int].pending && l.refs
                    >= 1 implies (StateView {
                listeners: #[trigger] s.listeners.update(i as int, l),
                ..s
            }).wf() by {
                lemma_listener_changed(s, i as int, l);
            }
        }
        &mut self.listeners[i]
    }

    /// The oldest end that is meant.
    pub fn find_tcp(&self, which: Which) -> (r: Option<usize>)
        ensures
            match r {
                Some(i) => self@.find_tcp(which) == Some(i as int) && self@.live(i) && which.is(
                    self@.conn(i),
                ),
                None => self@.find_tcp(which) is None,
            },
    {
        self.find_tcp_from(which, 0)
    }

    /// The oldest end that is meant, at or behind `from`.
    pub fn find_tcp_from(&self, which: Which, from: usize) -> (r: Option<usize>)
        ensures
            match r {
                Some(i) => first_tcp(self@.tcp, which, from as int) == Some(i as int) && self@.live(i)
                    && which.is(self@.conn(i)) && from <= i < usize::MAX,
                None => first_tcp(self@.tcp, which, from as int) is None,
            },
    {
        let mut i: usize = from;
        while i < self.tcp.len()
            invariant
                from <= i,
                first_tcp(self@.tcp, which, from as int) == first_tcp(self@.tcp, which, i as int),
            decreases self.tcp@.len() - i,
        {
            assert(tcp_slot(self.tcp@[i as int]) == self@.tcp[i as int]);
            match &self.tcp[i] {
                Some(c) => {
                    if which.meant(c) {
                        return Some(i);
                    }
                },
                None => {},
            }
            i += 1;
        }
        None
    }

    /// The socket bound at `addr`.
    pub fn find_udp(&self, addr: SocketAddr) -> (r: Option<usize>)
        ensures
            match r {
                Some(i) => self@.find_udp(addr) == Some(i as int) && i < self@.udp.len()
                    && self@.udp[i as int].addr == addr,
                None => self@.find_udp(addr) is None,
            },
    {
        let mut i: usize = 0;
        while i < self.udp.len()
            invariant
                i <= self.udp@.len(),
                self@.find_udp(addr) == first_udp(self@.udp, addr, i as int),
            decreases self.udp@.len() - i,
        {
            assert(self.udp@[i as int]@ == self@.udp[i as int]);
            if self.udp[i].bound_addr == addr {
                return Some(i);
            }
            i += 1;
        }
        None
    }

    /// The listener bound at `addr`.
    pub fn find_listener(&self, addr: SocketAddr) -> (r: Option<usize>)
        ensures
            match r {
                Some(i) => self@.find_listener(addr) == Some(i as int) && i < self@.listeners.len()
                    && self@.listeners[i as int].addr == addr,
                None => self@.find_listener(addr) is None,
            },
    {
        let mut i: usize = 0;
        while i < self.listeners.len()
            invariant
                i <= self.listeners@.len(),
                self@.find_listener(addr) == first_listener(self@.listeners, addr, i as int),
            decreases self.listeners@.len() - i,
        {
            assert(self.listeners@[i as int]@ == self@.listeners[i as int]);
            if self.listeners[i].bound_addr == addr {
                return Some(i);
            }
            i += 1;
        }
        None
    }

    /// The listener that a connection to `target` goes to.
    pub fn find_tcp_listener(&self, target: SocketAddr) -> (r: Option<usize>)
        ensures
            match r {
                Some(i) => self@.listener_for(target) == Some(i as int) && i
                    < self@.listeners.len(),
                None => self@.listener_for(target) is None,
            },
    {
        match self.find_listener(target) {
            Some(i) => return Some(i),
            None => {},
        }
        let port: u16 = target.port();
        let mut i: usize = 0;
        while i < self.listeners.len()
            invariant
                i <= self.listeners@.len(),
                port == target.port_part(),
                self@.find_listener(target) is None,
                self@.listener_for(target) == first_wildcard(self@.listeners, port, i as int),
            decreases self.listeners@.len() - i,
        {
            assert(self.listeners@[i as int]@ == self@.listeners[i as int]);
            let addr = self.listeners[i].bound_addr;
            if addr.port() == port && addr.ip().is_unspecified() {
                return Some(i);
            }
            i += 1;
        }
        None
    }
}

// ----- Ports and addresses -----

/// Whether nothing holds `port`.
pub fn is_port_available(st: &TestState, port: u16) -> (r: bool)
    ensures
        r == !st@.ports.contains(port),
{
    !st.ports.contains(&port)
}

/// Makes `ip` an address that sockets can be bound to and connect to, beside
/// `0.0.0.0`, `127.0.0.1`, `::` and `::1`.
pub fn add_ip_addr(st: &mut TestState, ip: IpAddr)
    ensures
        final(st)@ == (StateView { ips: old(st)@.ips.insert(ip), ..old(st)@ }),
{
    st.ips.insert(ip, ());
    assert(st@.ips =~= old(st)@.ips.insert(ip));
}

/// Whether sockets can be bound to `ip`.
pub fn is_ip_addr_valid(st: &TestState, ip: IpAddr) -> (r: bool)
    ensures
        r == st@.ips.contains(ip),
{
    st.ips.get(&ip).is_some()
}

impl StateView {
    /// The port that the next ephemeral address gets.
    pub open spec fn fresh_port(self) -> u16 {
        free_port(self.ports, self.next_port, 0)
    }

    /// That port has been given out.
    pub open spec fn with_port_reserved(self) -> StateView {
        StateView {
            ports: self.ports.insert(self.fresh_port()),
            next_port: self.fresh_port().wrapping_add(1),
            ..self
        }
    }
}

/// The port given out is ephemeral and was free.
proof fn lemma_free_port(ports: Set<u16>, next: u16, k: int)
    requires
        next == 0 || next >= FIRST_EPHEMERAL,
        0 <= k <= 25_536,
        has_free_port(ports),
        forall|j: int| 0 <= j < k ==> ports.contains(#[trigger] nth_port(next, j)),
    ensures
        k < 25_536,
        FIRST_EPHEMERAL <= free_port(ports, next, k) <= LAST_EPHEMERAL,
        !ports.contains(free_port(ports, next, k)),
    decreases 25_536 - k,
{
    let p = choose|p: u16| FIRST_EPHEMERAL <= p <= LAST_EPHEMERAL && !#[trigger] ports.contains(p);
    let start = if next == 0 {
        0int
    } else {
        next - 40_000
    };
    let j = (p - 40_000 - start) % 25_536;
    assert((start + j) % 25_536 == p - 40_000);
    assert(nth_port(next, j) == p);
    if ports.contains(nth_port(next, k)) {
        lemma_free_port(ports, next, k + 1);
    }
}

/// An ephemeral address is unlike every address in use: its port was free.
pub proof fn law_ephemeral_port_was_free(s: StateView)
    requires
        s.wf(),
        has_free_port(s.ports),
    ensures
        !s.ports.contains(s.fresh_port()),
        s.with_port_reserved().ports.contains(s.fresh_port()),
        FIRST_EPHEMERAL <= s.fresh_port() <= LAST_EPHEMERAL,
        s.with_port_reserved().wf(),
{
    lemma_free_port(s.ports, s.next_port, 0);
}

/// Whether some ephemeral port is free.
pub fn has_ephemeral_port(st: &TestState) -> (r: bool)
    ensures
        r == has_free_port(st@.ports),
{
    let mut p: u16 = FIRST_EPHEMERAL;
    loop
        invariant
            FIRST_EPHEMERAL <= p <= LAST_EPHEMERAL,
            forall|q: u16| FIRST_EPHEMERAL <= q < p ==> #[trigger] st@.ports.contains(q),
        decreases LAST_EPHEMERAL - p,
    {
        if !st.ports.contains(&p) {
            assert(!st@.ports.contains(p));
            return true;
        }
        if p == LAST_EPHEMERAL {
            return false;
        }
        p += 1;
    }
}

/// An address at `ip` whose port nothing holds, and which is held from now on.
pub fn reserve_ephemeral_addr(st: &mut TestState, ip: IpAddr) -> (r: SocketAddr)
    requires
        old(st)@.wf(),
        has_free_port(old(st)@.ports),
    ensures
        r == SocketAddr::of(ip, old(st)@.fresh_port()),
        final(st)@ == old(st)@.with_port_reserved(),
        final(st)@.wf(),
{
    let ghost next = st@.next_port;
    let ghost ports = st@.ports;
    let mut port: u16 = if st.next_port == 0 {
        FIRST_EPHEMERAL
    } else {
        st.next_port
    };
    let ghost mut k: int = 0;
    proof {
        lemma_free_port(ports, next, 0);
    }
    while st.ports.contains(&port)
        invariant
            st@ == old(st)@,
            ports == st@.ports,
            next == st@.next_port,
            next == 0 || next >= FIRST_EPHEMERAL,
            has_free_port(ports),
            0 <= k < 25_536,
            port == nth_port(next, k),
            free_port(ports, next, 0) == free_port(ports, next, k),
            forall|j: int| 0 <= j < k ==> ports.contains(#[trigger] nth_port(next, j)),
        decreases 25_536 - k,
    {
        port = if port == LAST_EPHEMERAL {
            FIRST_EPHEMERAL
        } else {
            port + 1
        };
        proof {
            lemma_free_port(ports, next, k + 1);
            k = k + 1;
        }
    }
    st.ports.insert(port);
    st.next_port = port.wrapping_add(1);
    SocketAddr::new(ip, port)
}

// ----- Waking -----

/// Wakes those who wait.
pub fn trigger_event(st: &mut TestState)
    ensures
        final(st)@ == old(st)@.woken(),
{
    st.signal.raise();
}

// ----- The log -----

/// Logs `event`.
pub fn record(st: &mut TestState, now: Now, event: RecordedEvent)
    ensures
        final(st)@ == old(st)@.recorded(now, event),
{
    st.log.push(RecordedEntry { at: now.mono, event });
}

/// A copy of the log, oldest entry first.
pub fn recorded_events(st: &TestState) -> (r: Vec<RecordedEntry>)
    ensures
        r@ == st@.log,
{
    let mut out: Vec<RecordedEntry> = Vec::new();
    while out.len() < st.log.len()
        invariant
            out@.len() <= st.log@.len(),
            out@ == st.log@.take(out@.len() as int),
        decreases st.log@.len() - out@.len(),
    {
        out.push(st.log[out.len()]);
        assert(out@ =~= st.log@.take(out@.len() as int));
    }
    assert(st.log@.take(st.log@.len() as int) =~= st.log@);
    out
}

/// Empties the log, so that it tells of one phase of a test only.
pub fn clear_recorded_events(st: &mut TestState)
    ensures
        final(st)@ == (StateView { log: Seq::empty(), ..old(st)@ }),
{
    st.log.clear();
}

// ----- Quiescence -----

impl StateView {
    /// Windows that have closed are forgotten.
    pub open spec fn pruned(self, now: nat) -> StateView {
        StateView {
            quiesce: Map::new(
                |a: SocketAddr| self.quiesce.dom().contains(a) && self.quiesce[a].until@ > now,
                |a: SocketAddr| self.quiesce[a],
            ),
            ..self
        }
    }

    /// The window that is open for `addr`.
    pub open spec fn window(self, now: nat, addr: SocketAddr) -> Option<QuiesceEntry> {
        if self.quiesce.dom().contains(addr) && self.quiesce[addr].until@ > now {
            Some(self.quiesce[addr])
        } else {
            None
        }
    }

    pub open spec fn deaf(self, now: nat, addr: SocketAddr) -> bool {
        match self.window(now, addr) {
            Some(w) => w.mode == QuiesceMode::Both || w.mode == QuiesceMode::InboundOnly,
            None => false,
        }
    }

    pub open spec fn mute(self, now: nat, addr: SocketAddr) -> bool {
        match self.window(now, addr) {
            Some(w) => w.mode == QuiesceMode::Both || w.mode == QuiesceMode::OutboundOnly,
            None => false,
        }
    }

    /// Readiness at `addr` is suppressed until `until`.
    pub open spec fn quiesced(
        self,
        now: Now,
        addr: SocketAddr,
        until: Instant,
        mode: QuiesceMode,
    ) -> StateView {
        StateView { quiesce: self.quiesce.insert(addr, QuiesceEntry { until, mode }), ..self }.recorded(
            now,
            RecordedEvent::Quiesce {
                addr,
                dur: Duration::of(elapsed_between(now.mono@, until@)),
                mode,
            },
        )
    }
}

/// Suppresses readiness at `addr` until `until`.
pub fn set_quiesce(st: &mut TestState, now: Now, addr: SocketAddr, until: Instant, mode: QuiesceMode)
    ensures
        final(st)@ == old(st)@.quiesced(now, addr, until, mode),
{
    st.quiesce.insert(addr, QuiesceEntry { until, mode });
    let dur = until.saturating_duration_since(now.mono);
    proof {
        use_type_invariant(&dur);
        Duration::lemma_of(dur@);
        Duration::lemma_ext(dur, Duration::of(elapsed_between(now.mono@, until@)));
    }
    record(st, now, RecordedEvent::Quiesce { addr, dur, mode });
}

/// Suppresses readiness at `addr` in both directions for `dur`. Bytes still
/// arrive, and wakers still wake.
pub fn quiesce(st: &mut TestState, now: Now, addr: SocketAddr, dur: Duration)
    ensures
        final(st)@ == old(st)@.quiesced(now, addr, now.mono.later(dur), QuiesceMode::Both),
{
    set_quiesce(st, now, addr, now.mono.saturating_add(dur), QuiesceMode::Both);
}

/// [`quiesce`] in the direction(s) of `mode`.
pub fn quiesce_with_mode(
    st: &mut TestState,
    now: Now,
    addr: SocketAddr,
    dur: Duration,
    mode: QuiesceMode,
)
    ensures
        final(st)@ == old(st)@.quiesced(now, addr, now.mono.later(dur), mode),
{
    set_quiesce(st, now, addr, now.mono.saturating_add(dur), mode);
}

/// The window that is open for `addr`. Windows that have closed are forgotten.
pub fn quiesce_entry(st: &mut TestState, now: Now, addr: SocketAddr) -> (r: Option<QuiesceEntry>)
    ensures
        final(st)@ == old(st)@.pruned(now.mono@),
        r == old(st)@.window(now.mono@, addr),
{
    let ghost at = now.mono@;
    let mut kept: Table<SocketAddr, QuiesceEntry> = Table::new();
    let n: usize = st.quiesce.len();
    let mut i: usize = 0;
    let ghost entries = st.quiesce.listed();
    proof {
        use_type_invariant(&st.quiesce);
        st.quiesce.lemma_listed();
    }
    while i < n
        invariant
            i <= n,
            n == entries.len(),
            entries == st.quiesce.listed(),
            crate::table::distinct_keys(entries),
            at == now.mono@,
            forall|a: SocketAddr| #[trigger]
                kept@.dom().contains(a) <==> exists|j: int|
                    0 <= j < i && (#[trigger] entries[j]).0 == a && entries[j].1.until@ > at,
            forall|j: int|
                0 <= j < i && (#[trigger] entries[j]).1.until@ > at ==> kept@[entries[j].0]
                    == entries[j].1,
        decreases n - i,
    {
        let (a, entry) = st.quiesce.nth(i);
        let ghost before = kept@;
        if entry.until > now.mono {
            kept.insert(a, entry);
        }
        assert forall|b: SocketAddr| #[trigger] kept@.dom().contains(b) <==> exists|j: int|
            0 <= j < i + 1 && (#[trigger] entries[j]).0 == b && entries[j].1.until@ > at by {
            if before.dom().contains(b) {
                let j = choose|j: int|
                    0 <= j < i && (#[trigger] entries[j]).0 == b && entries[j].1.until@ > at;
                assert(0 <= j < i + 1);
            }
            if b == a && entries[i as int].1.until@ > at {
                assert(entries[i as int].0 == b);
            }
        }
        i += 1;
    }
    proof {
        let want = old(st)@.pruned(at).quiesce;
        assert forall|a: SocketAddr| #[trigger] kept@.dom().contains(a) == want.dom().contains(
            a,
        ) by {
            if crate::table::has_key(entries, a) {
                let j = choose|j: int| 0 <= j < entries.len() && (#[trigger] entries[j]).0 == a;
                crate::table::lemma_value_at(entries, j);
            }
            if kept@.dom().contains(a) {
                let j = choose|j: int|
                    0 <= j < n && (#[trigger] entries[j]).0 == a && entries[j].1.until@ > at;
                crate::table::lemma_value_at(entries, j);
            }
        }
        assert forall|a: SocketAddr| #[trigger] kept@.dom().contains(a) implies kept@[a]
            == want[a] by {
            let j = choose|j: int|
                0 <= j < n && (#[trigger] entries[j]).0 == a && entries[j].1.until@ > at;
            crate::table::lemma_value_at(entries, j);
        }
        assert(kept@ =~= want);
    }
    let r = kept.get(&addr);
    st.quiesce = kept;
    r
}

/// Whether readability at `addr` is suppressed.
pub fn is_quiesced_inbound(st: &mut TestState, now: Now, addr: SocketAddr) -> (r: bool)
    ensures
        final(st)@ == old(st)@.pruned(now.mono@),
        r == old(st)@.deaf(now.mono@, addr),
{
    match quiesce_entry(st, now, addr) {
        Some(w) => w.mode == QuiesceMode::Both || w.mode == QuiesceMode::InboundOnly,
        None => false,
    }
}

/// Whether writability at `addr` is suppressed.
pub fn is_quiesced_outbound(st: &mut TestState, now: Now, addr: SocketAddr) -> (r: bool)
    ensures
        final(st)@ == old(st)@.pruned(now.mono@),
        r == old(st)@.mute(now.mono@, addr),
{
    match quiesce_entry(st, now, addr) {
        Some(w) => w.mode == QuiesceMode::Both || w.mode == QuiesceMode::OutboundOnly,
        None => false,
    }
}

// ----- Policies -----

/// Delays all bytes that come in at `addr` by `latency`.
pub fn set_tcp_inbound_latency(st: &mut TestState, addr: SocketAddr, latency: Duration)
    ensures
        final(st)@ == (StateView {
            tcp_policies: old(st)@.tcp_policies.insert(
                addr,
                TcpPolicy { inbound_latency: latency, ..old(st)@.tcp_policy(addr) },
            ),
            ..old(st)@
        }),
{
    let mut policy = tcp_policy(st, addr);
    policy.inbound_latency = latency;
    st.tcp_policies.insert(addr, policy);
}

/// Caps the bytes that wait to be read at `addr`; `None` removes the cap.
pub fn set_tcp_recv_window(st: &mut TestState, addr: SocketAddr, window: Option<usize>)
    ensures
        final(st)@ == (StateView {
            tcp_policies: old(st)@.tcp_policies.insert(
                addr,
                TcpPolicy { recv_window: window, ..old(st)@.tcp_policy(addr) },
            ),
            ..old(st)@
        }),
{
    let mut policy = tcp_policy(st, addr);
    policy.recv_window = window;
    st.tcp_policies.insert(addr, policy);
}

/// The policy of the link into `addr`.
pub fn tcp_policy(st: &TestState, addr: SocketAddr) -> (r: TcpPolicy)
    ensures
        r == st@.tcp_policy(addr),
{
    match st.tcp_policies.get(&addr) {
        Some(policy) => policy,
        None => TcpPolicy::default(),
    }
}

/// Sets the policy of the socket bound at `addr`.
pub fn set_udp_policy(st: &mut TestState, addr: SocketAddr, policy: UdpPolicy)
    ensures
        final(st)@ == (StateView {
            udp_policies: old(st)@.udp_policies.insert(addr, policy),
            ..old(st)@
        }),
{
    st.udp_policies.insert(addr, policy);
}

/// The policy of the socket bound at `addr`.
pub fn udp_policy(st: &TestState, addr: SocketAddr) -> (r: UdpPolicy)
    ensures
        r == st@.udp_policy(addr),
{
    match st.udp_policies.get(&addr) {
        Some(policy) => policy,
        None => UdpPolicy::default(),
    }
}

/// Sets how the listener bound at `addr` responds to new connections.
pub fn set_listener_behavior(st: &mut TestState, addr: SocketAddr, behavior: ListenerBehavior)
    ensures
        final(st)@ == (StateView {
            behaviors: old(st)@.behaviors.insert(addr, behavior),
            ..old(st)@
        }),
{
    st.behaviors.insert(addr, behavior);
}

/// How the listener bound at `addr` responds to new connections.
pub fn listener_behavior(st: &TestState, addr: SocketAddr) -> (r: ListenerBehavior)
    ensures
        r == st@.behavior(addr),
{
    match st.behaviors.get(&addr) {
        Some(behavior) => behavior,
        None => ListenerBehavior::Accepting,
    }
}

/// The local address of the connection whose peer is `peer_addr`.
pub fn peek_local_addr_for_peer(st: &TestState, peer_addr: SocketAddr) -> (r: Option<SocketAddr>)
    ensures
        r == match st@.find_tcp(Which::Towards(peer_addr)) {
            Some(i) => Some(st@.conn(i as usize).local_addr),
            None => None,
        },
{
    match st.find_tcp(Which::Towards(peer_addr)) {
        Some(i) => Some(st.tcp_connection(i).local_addr),
        None => None,
    }
}

// ----- Random numbers -----

impl StateView {
    /// The generator's state before the next draw. One that was never seeded
    /// starts from the real clock.
    pub open spec fn rng_state(self, now: Now) -> u64 {
        match self.rng {
            Some(x) => x,
            None => seeded((now.mono@ % 0x1_0000_0000_0000_0000) as u64),
        }
    }

    /// A number has been drawn.
    pub open spec fn drawn(self, now: Now) -> StateView {
        StateView { rng: Some(step(seeded(self.rng_state(now)))), ..self }
    }

    /// The number that is drawn.
    pub open spec fn draw(self, now: Now) -> u32 {
        output(step(seeded(self.rng_state(now))))
    }

    /// It has been decided whether something of probability `p` happens. What
    /// never happens takes no draw.
    pub open spec fn decided(self, now: Now, p: Probability) -> StateView {
        if p.parts() == 0 {
            self
        } else {
            self.drawn(now)
        }
    }

    /// Whether it happens.
    pub open spec fn decision(self, now: Now, p: Probability) -> bool {
        p.parts() > 0 && self.draw(now) < p.parts()
    }
}

fn next_rand(st: &mut TestState, now: Now) -> (r: u32)
    ensures
        final(st)@ == old(st)@.drawn(now),
        r == old(st)@.draw(now),
{
    let x: u64 = match st.rng {
        Some(x) => x,
        None => {
            let nanos: u64 = (now.mono.since_epoch().as_nanos() % 0x1_0000_0000_0000_0000) as u64;
            seeded_state(nanos)
        },
    };
    let (y, number) = next(x);
    st.rng = Some(y);
    number
}

fn decide(st: &mut TestState, now: Now, p: Probability) -> (r: bool)
    ensures
        final(st)@ == old(st)@.decided(now, p),
        r == old(st)@.decision(now, p),
{
    if p.is_zero() {
        false
    } else {
        p.hit(next_rand(st, now))
    }
}

/// Seeds the random numbers behind loss, duplication and jitter, so that a test
/// runs the same way every time.
pub fn seed_rng(st: &mut TestState, seed: u64)
    ensures
        final(st)@ == (StateView { rng: Some(seeded(seed)), ..old(st)@ }),
{
    st.rng = Some(seeded_state(seed));
}

// ----- Capture -----

fn pcap_tcp_open(st: &mut TestState, now: Now, client: SocketAddr, server: SocketAddr)
    ensures
        final(st)@ == old(st)@.captured_open(now, client, server),
{
    match &mut st.capture {
        Some(w) => w.tcp_open(client, server, now.wall),
        None => {},
    }
}

/// Adds bytes that `src` sent to the capture.
pub fn pcap_tcp_data(st: &mut TestState, now: Now, src: SocketAddr, dst: SocketAddr, data: &[u8])
    ensures
        final(st)@ == old(st)@.captured_data(now, src, dst, data@),
{
    match &mut st.capture {
        Some(w) => w.tcp_data(src, dst, data, now.wall),
        None => {},
    }
}

fn pcap_tcp_fin(st: &mut TestState, now: Now, src: SocketAddr, dst: SocketAddr)
    ensures
        final(st)@ == old(st)@.captured_fin(now, src, dst),
{
    match &mut st.capture {
        Some(w) => w.tcp_fin(src, dst, now.wall),
        None => {},
    }
}

fn pcap_tcp_rst(st: &mut TestState, now: Now, src: SocketAddr, dst: SocketAddr)
    ensures
        final(st)@ == old(st)@.captured_rst(now, src, dst),
{
    match &mut st.capture {
        Some(w) => w.tcp_rst(src, dst, now.wall),
        None => {},
    }
}

fn pcap_udp(st: &mut TestState, now: Now, src: SocketAddr, dst: SocketAddr, data: &[u8])
    ensures
        final(st)@ == old(st)@.captured_datagram(now, src, dst, data@),
{
    match &mut st.capture {
        Some(w) => w.udp_datagram(src, dst, data, now.wall),
        None => {},
    }
}

/// Notes the test's name. Where the comma-separated list `forced` names the
/// test, the result is the name of the file to capture to.
pub fn pcap_init_for_test(st: &mut TestState, name: Option<String>, forced: Option<&str>) -> (r:
    Option<String>)
    ensures
        final(st)@ == (StateView {
            test_name: match name {
                Some(n) => Some(n@),
                None => None,
            },
            ..old(st)@
        }),
        match r {
            Some(file) => name is Some && forced is Some && crate::pcapng::names(
                forced->0@,
                name->0@,
            ) && file@ == crate::pcapng::capture_name(name->0@),
            None => name is None || forced is None || !crate::pcapng::names(forced->0@, name->0@),
        },
{
    let file: Option<String> = match (&name, forced) {
        (Some(n), Some(list)) => {
            if crate::pcapng::env_force_match(list, n.as_str()) {
                Some(crate::pcapng::capture_file_name(n.as_str()))
            } else {
                None
            }
        },
        _ => None,
    };
    st.test_name = name;
    file
}

/// The name of the file that [`enable_pcapng`] needs: none if a capture runs,
/// or if neither the test nor the calling thread has a name.
pub fn pcap_file_to_open(st: &TestState, thread_name: Option<&str>) -> (r: Option<String>)
    ensures
        match r {
            Some(file) => st@.capture is None && match st@.test_name {
                Some(n) => file@ == crate::pcapng::capture_name(n),
                None => thread_name is Some && file@ == crate::pcapng::capture_name(
                    thread_name->0@,
                ),
            },
            None => st@.capture is Some || (st@.test_name is None && thread_name is None),
        },
{
    if st.capture.is_some() {
        return None;
    }
    match &st.test_name {
        Some(n) => Some(crate::pcapng::capture_file_name(n.as_str())),
        None => match thread_name {
            Some(n) => Some(crate::pcapng::capture_file_name(n)),
            None => None,
        },
    }
}

/// Begins to capture, if the file to capture to could be opened. A capture that
/// runs goes on.
pub fn enable_pcapng(st: &mut TestState, opened: bool)
    ensures
        final(st)@ == if opened && old(st)@.capture is None {
            StateView { capture: Some(PcapView::fresh()), ..old(st)@ }
        } else {
            old(st)@
        },
{
    if opened && st.capture.is_none() {
        st.capture = Some(PcapWriter::create());
    }
}

/// The bytes of the capture that are still to be written to its file.
pub fn take_capture(st: &mut TestState) -> (r: Vec<u8>)
    ensures
        match old(st)@.capture {
            Some(w) => r@ == w.written.skip(w.handed as int) && final(st)@ == (StateView {
                capture: Some(PcapView { handed: w.written.len(), ..w }),
                ..old(st)@
            }),
            None => r@.len() == 0 && final(st)@ == old(st)@,
        },
{
    match &mut st.capture {
        Some(w) => w.take_output(),
        None => Vec::new(),
    }
}

// ----- TCP connections -----

impl StateView {
    /// A new end exists.
    pub open spec fn with_new_conn(
        self,
        local_addr: SocketAddr,
        peer_addr: SocketAddr,
        owns_port: bool,
    ) -> StateView {
        StateView {
            tcp: self.tcp.push(Some(TcpView::fresh(local_addr, peer_addr, owns_port))),
            ports: if owns_port {
                self.ports.insert(local_addr.port_part())
            } else {
                self.ports
            },
            ..self
        }
    }

    /// The end `id` is gone, and so is its hold on its port.
    pub open spec fn without_conn(self, id: usize) -> StateView {
        StateView {
            tcp: self.tcp.update(id as int, None),
            ports: if self.conn(id).owns_port {
                self.ports.remove(self.conn(id).local_addr.port_part())
            } else {
                self.ports
            },
            ..self
        }
    }

    /// The end `id` knows that the other end is gone.
    pub open spec fn with_peer_dropped(self, id: usize) -> StateView {
        self.with_conn(
            id,
            TcpView {
                peer: None,
                read_shutdown: true,
                error: Some(err(ErrorKind::ConnectionReset, "peer disconnected"@)),
                ..self.conn(id)
            },
        ).woken()
    }

    /// One handle of the end `id` was dropped. With the last one the end goes,
    /// and the other end learns of it.
    pub open spec fn with_stream_dropped(self, now: Now, id: usize) -> StateView {
        let c = self.conn(id);
        if c.refs > 1 {
            self.with_conn(id, TcpView { refs: (c.refs - 1) as usize, ..c }).woken()
        } else {
            match c.peer {
                Some(p) => self.without_conn(id).with_peer_dropped(p).captured_fin(
                    now,
                    c.local_addr,
                    c.peer_addr,
                ),
                None => self.without_conn(id).woken(),
            }
        }
    }

    /// The end `id`, which nobody accepted, is gone, and the other end knows.
    pub open spec fn with_unaccepted_dropped(self, id: usize) -> StateView {
        match self.conn(id).peer {
            Some(p) => self.without_conn(id).with_peer_dropped(p),
            None => self.without_conn(id),
        }
    }

    /// So are all of `ids`.
    pub open spec fn with_all_unaccepted_dropped(self, ids: Seq<usize>) -> StateView
        decreases ids.len(),
    {
        if ids.len() == 0 {
            self
        } else {
            self.with_unaccepted_dropped(ids[0]).with_all_unaccepted_dropped(ids.drop_first())
        }
    }

    /// A listener is bound at `addr`, in place of one that was.
    pub open spec fn with_listening(self, addr: SocketAddr) -> StateView {
        StateView {
            listeners: match self.find_listener(addr) {
                Some(i) => self.listeners.update(i, ListenerView::fresh(addr)),
                None => self.listeners.push(ListenerView::fresh(addr)),
            },
            ports: self.ports.insert(addr.port_part()),
            ..self
        }
    }

    /// One handle of the listener at `addr` was dropped. With the last one the
    /// listener goes, and so does every connection that waits to be accepted.
    pub open spec fn with_listener_dropped(self, addr: SocketAddr) -> StateView {
        match self.find_listener(addr) {
            None => self,
            Some(i) => {
                let l = self.listeners[i];
                if l.refs > 1 {
                    self.with_listener(i, ListenerView { refs: (l.refs - 1) as usize, ..l })
                } else {
                    StateView {
                        listeners: self.listeners.remove(i),
                        ports: self.ports.remove(addr.port_part()),
                        ..self
                    }.with_all_unaccepted_dropped(l.pending)
                }
            },
        }
    }

    /// Where a client's end of a connection to `target` sits.
    pub open spec fn client_ip(self, target: SocketAddr) -> IpAddr {
        if self.ips.contains(target.ip_part()) {
            target.ip_part()
        } else {
            crate::addr::loopback_like(target.ip_part())
        }
    }

    /// The client's address of a connection to `target`.
    pub open spec fn client_addr(self, target: SocketAddr) -> SocketAddr {
        SocketAddr::of(self.client_ip(target), self.fresh_port())
    }

    /// The server's address of a connection to `target` through the listener
    /// in place `i`.
    pub open spec fn server_addr(self, target: SocketAddr, i: int) -> SocketAddr {
        let l = self.listeners[i].addr;
        SocketAddr::of(
            if l.ip_part().unspecified() {
                target.ip_part()
            } else {
                l.ip_part()
            },
            l.port_part(),
        )
    }

    /// A connection to `target` stands; its server's end waits to be accepted
    /// by the listener in place `i`.
    pub open spec fn with_connection(self, now: Now, target: SocketAddr, i: int) -> StateView {
        let client = self.client_addr(target);
        let server = self.server_addr(target, i);
        let cid = self.tcp.len() as usize;
        let sid = (self.tcp.len() + 1) as usize;
        let l = self.listeners[i];
        StateView {
            tcp: self.tcp.push(
                Some(TcpView { peer: Some(sid), ..TcpView::fresh(client, server, true) }),
            ).push(Some(TcpView { peer: Some(cid), ..TcpView::fresh(server, client, false) })),
            listeners: self.listeners.update(
                i,
                ListenerView { pending: l.pending.push(sid), ..l },
            ),
            ..self.with_port_reserved()
        }.captured_open(now, client, server).woken()
    }
}

/// Removing an end that is in no queue, and telling its other end, leaves the
/// network in order.
proof fn lemma_unlink(s: StateView, id: usize)
    requires
        s.wf(),
        s.usable(id),
    ensures
        s.with_unaccepted_dropped(id).wf(),
        s.conn(id).peer is Some ==> s.live(s.conn(id).peer->0) && s.conn(id).peer->0 != id,
        keeps_handles(s, s.with_unaccepted_dropped(id), Some(id)),
{
    reveal(linked);
    reveal(held);
    reveal(queues_ok);
    reveal(listeners_ok);
    let t = s.with_unaccepted_dropped(id);
    assert(s.tcp[id as int] is Some);
    assert forall|i: int|
        0 <= i < t.tcp.len() && (#[trigger] t.tcp[i]) is Some && t.tcp[i]->0.peer is Some implies ({
        let p = t.tcp[i]->0.peer->0 as int;
        &&& p < t.tcp.len()
        &&& p != i
        &&& t.tcp[p] is Some
        &&& t.tcp[p]->0.peer is Some
        &&& t.tcp[p]->0.peer->0 == i
        &&& t.tcp[p]->0.local_addr == t.tcp[i]->0.peer_addr
        &&& t.tcp[p]->0.peer_addr == t.tcp[i]->0.local_addr
    }) by {
        assert(s.tcp[i] is Some && s.tcp[i]->0.peer == t.tcp[i]->0.peer);
        let p = s.tcp[i]->0.peer->0 as int;
        assert(s.tcp[p]->0.peer->0 == i);
        if p == id {
            assert(s.conn(id).peer->0 == i);
        }
    }
    assert forall|l: int, k: int|
        0 <= l < t.listeners.len() && 0 <= k < t.listeners[l].pending.len() implies ({
        let w = #[trigger] t.listeners[l].pending[k];
        w < t.tcp.len() && t.tcp[w as int] is Some
    }) by {
        let w = s.listeners[l].pending[k];
        assert(w != id) by {
            assert(!awaits(s.listeners, id));
        }
    }
}

impl TestState {
    /// Adds an end.
    fn add_tcp_connection(&mut self, local_addr: SocketAddr, peer_addr: SocketAddr, owns_port: bool)
        -> (r: usize)
        ensures
            r == old(self)@.tcp.len(),
            final(self)@ == old(self)@.with_new_conn(local_addr, peer_addr, owns_port),
    {
        if owns_port {
            self.ports.insert(local_addr.port());
        }
        let id: usize = self.tcp.len();
        let c = TcpConnection::new(local_addr, peer_addr, owns_port);
        self.tcp.push(Some(c));
        assert(self@.tcp =~= old(self)@.tcp.push(Some(c@)));
        id
    }

    /// Tells the end `id` that `peer` is its other end.
    fn set_peer(&mut self, id: usize, peer: usize)
        requires
            old(self)@.live(id),
        ensures
            final(self)@ == old(self)@.with_conn(
                id,
                TcpView { peer: Some(peer), ..old(self)@.conn(id) },
            ),
    {
        assert(tcp_slot(self.tcp@[id as int]) == self@.tcp[id as int]);
        match &mut self.tcp[id] {
            Some(c) => {
                c.peer_stream_id = Some(peer);
            },
            None => {},
        }
        assert(self@.tcp =~= old(self)@.tcp.update(
            id as int,
            Some(TcpView { peer: Some(peer), ..old(self)@.conn(id) }),
        ));
    }

    /// Queues the end `id` with the listener in place `i`, and wakes those who
    /// wait.
    fn assign_tcp_stream_to_listener(&mut self, i: usize, id: usize)
        requires
            i < old(self)@.listeners.len(),
        ensures
            ({
                let l = old(self)@.listeners[i as int];
                final(self)@ == old(self)@.with_listener(
                    i as int,
                    ListenerView { pending: l.pending.push(id), ..l },
                ).woken()
            }),
    {
        let ghost l = self@.listeners[i as int];
        self.listeners[i].pending_streams.push_back(id);
        self.signal.raise();
        assert(self@.listeners =~= old(self)@.listeners.update(
            i as int,
            ListenerView { pending: l.pending.push(id), ..l },
        ));
    }

    /// Removes an end.
    fn remove_tcp_connection(&mut self, id: usize)
        requires
            old(self)@.live(id),
        ensures
            final(self)@ == old(self)@.without_conn(id),
    {
        assert(tcp_slot(self.tcp@[id as int]) == self@.tcp[id as int]);
        let gone: Option<TcpConnection> = self.tcp[id].take();
        assert(self@.tcp =~= old(self)@.tcp.update(id as int, None));
        match gone {
            Some(c) => {
                if c.owns_port {
                    self.ports.remove(&c.local_addr.port());
                }
            },
            None => {},
        }
    }
}

/// Tells the end `id` that the other end is gone.
fn notify_peer_dropped(st: &mut TestState, id: usize)
    requires
        old(st)@.live(id),
    ensures
        final(st)@ == old(st)@.with_peer_dropped(id),
{
    let error = Error::new(ErrorKind::ConnectionReset, "peer disconnected");
    let c = st.with_tcp_connection(id);
    c.peer_stream_id = None;
    c.read_shutdown = true;
    c.external_error = Some(error);
}

/// Lets the end `id` know that nothing more will come from the other end.
pub fn mark_peer_read_shutdown(st: &mut TestState, id: usize)
    requires
        old(st)@.live(id),
    ensures
        final(st)@ == old(st)@.with_conn(
            id,
            TcpView { read_shutdown: true, ..old(st)@.conn(id) },
        ).woken(),
        old(st)@.wf() ==> final(st)@.wf(),
{
    let c = st.with_tcp_connection(id);
    c.read_shutdown = true;
}

/// Drops one handle of the end `id`.
pub fn release_stream(st: &mut TestState, now: Now, id: usize)
    requires
        old(st)@.wf(),
        old(st)@.usable(id),
    ensures
        final(st)@ == old(st)@.with_stream_dropped(now, id),
        final(st)@.wf(),
        keeps_handles(old(st)@, final(st)@, Some(id)),
        old(st)@.conn(id).refs > 1 ==> final(st)@.usable(id),
{
    let ghost before = st@;
    proof {
        lemma_unlink(before, id);
        lemma_peer(before, id);
    }
    let c = st.tcp_connection(id);
    let peer = c.peer_stream_id;
    let local_addr = c.local_addr;
    let peer_addr = c.peer_addr;
    if c.ref_count > 1 {
        let left: usize = c.ref_count - 1;
        let c = st.with_tcp_connection(id);
        c.ref_count = left;
        return ;
    }
    st.remove_tcp_connection(id);
    match peer {
        Some(p) => {
            notify_peer_dropped(st, p);
            pcap_tcp_fin(st, now, local_addr, peer_addr);
        },
        None => st.signal.raise(),
    }
}

// ----- TCP listeners -----

/// Binds a listener at `addr`, in place of one that was.
pub fn add_tcp_listener_state(st: &mut TestState, addr: SocketAddr)
    requires
        old(st)@.wf(),
    ensures
        final(st)@ == old(st)@.with_listening(addr),
        final(st)@.wf(),
        final(st)@.has_listener(addr),
        keeps_handles(old(st)@, final(st)@, None),
{
    st.ports.insert(addr.port());
    let l = TcpListenerState::new(addr);
    match st.find_listener(addr) {
        Some(i) => {
            st.listeners.set(i, l);
            assert(st@.listeners =~= old(st)@.listeners.update(i as int, l@));
        },
        None => {
            st.listeners.push(l);
            assert(st@.listeners =~= old(st)@.listeners.push(l@));
            proof {
                lemma_no_listener(old(st)@.listeners, addr, 0);
            }
        },
    }
    proof {
        reveal(queues_ok);
        reveal(listeners_ok);
        let s = old(st)@.listeners;
        let t = st@.listeners;
        assert forall|l: int, k: int|
            0 <= l < t.len() && 0 <= k < t[l].pending.len() implies l < s.len()
            && #[trigger] t[l].pending[k] == s[l].pending[k] && k < s[l].pending.len() by {}
        let i = match old(st)@.find_listener(addr) {
            Some(i) => i,
            None => s.len() as int,
        };
        assert(t[i].addr == addr);
    }
}

/// A listener that is found is one.
pub proof fn lemma_found_listener(listeners: Seq<ListenerView>, addr: SocketAddr, from: int)
    requires
        0 <= from,
    ensures
        first_listener(listeners, addr, from) matches Some(i) ==> from <= i < listeners.len()
            && listeners[i].addr == addr,
    decreases listeners.len() - from,
{
    if from < listeners.len() {
        lemma_found_listener(listeners, addr, from + 1);
    }
}

/// Where no listener is found, there is none.
pub proof fn lemma_no_listener(listeners: Seq<ListenerView>, addr: SocketAddr, from: int)
    requires
        0 <= from <= listeners.len(),
        first_listener(listeners, addr, from) is None,
    ensures
        forall|l: int| from <= l < listeners.len() ==> (#[trigger] listeners[l]).addr != addr,
    decreases listeners.len() - from,
{
    if from < listeners.len() {
        lemma_no_listener(listeners, addr, from + 1);
    }
}

/// Where no socket is found, there is none.
pub proof fn lemma_no_udp(udp: Seq<UdpView>, addr: SocketAddr, from: int)
    requires
        0 <= from <= udp.len(),
        first_udp(udp, addr, from) is None,
    ensures
        forall|i: int| from <= i < udp.len() ==> (#[trigger] udp[i]).addr != addr,
    decreases udp.len() - from,
{
    if from < udp.len() {
        lemma_no_udp(udp, addr, from + 1);
    }
}

/// What waits in `ids` waits nowhere else, and is there once.
spec fn unqueued(s: StateView, ids: Seq<usize>) -> bool {
    &&& forall|k: int| 0 <= k < ids.len() ==> #[trigger] s.usable(ids[k])
    &&& forall|k: int, n: int| 0 <= k < n < ids.len() ==> #[trigger] ids[k] != #[trigger] ids[n]
}

/// Dropping one of several ends leaves the others as they are.
proof fn lemma_unqueued_step(s: StateView, ids: Seq<usize>)
    requires
        s.wf(),
        ids.len() > 0,
        unqueued(s, ids),
    ensures
        s.with_unaccepted_dropped(ids[0]).wf(),
        unqueued(s.with_unaccepted_dropped(ids[0]), ids.drop_first()),
        keeps_handles(s, s.with_unaccepted_dropped(ids[0]), Some(ids[0])),
{
    let id = ids[0];
    let t = s.with_unaccepted_dropped(id);
    assert(s.usable(ids[0]));
    lemma_unlink(s, id);
    assert forall|k: int| 0 <= k < ids.drop_first().len() implies #[trigger] t.usable(
        ids.drop_first()[k],
    ) by {
        assert(s.usable(ids[k + 1]));
        assert(ids[0] != ids[k + 1]);
    }
}

/// Removing a listener takes what it has queued out of every queue.
proof fn lemma_remove_listener(s: StateView, i: int, addr: SocketAddr)
    requires
        s.wf(),
        0 <= i < s.listeners.len(),
    ensures
        ({
            let t = StateView {
                listeners: s.listeners.remove(i),
                ports: s.ports.remove(addr.port_part()),
                ..s
            };
            &&& t.wf()
            &&& unqueued(t, s.listeners[i].pending)
            &&& keeps_handles(s, t, None)
        }),
{
    reveal(queues_ok);
    reveal(listeners_ok);
    let t = StateView {
        listeners: s.listeners.remove(i),
        ports: s.ports.remove(addr.port_part()),
        ..s
    };
    let ids = s.listeners[i].pending;
    let place = |l: int|
        if l < i {
            l
        } else {
            l + 1
        };
    assert forall|l: int| 0 <= l < t.listeners.len() implies #[trigger] t.listeners[l]
        == s.listeners[place(l)] by {}
    assert forall|l: int, k: int|
        0 <= l < t.listeners.len() && 0 <= k < t.listeners[l].pending.len() implies ({
        let w = #[trigger] t.listeners[l].pending[k];
        w < t.tcp.len() && t.tcp[w as int] is Some
    }) by {
        assert(s.listeners[place(l)].pending[k] == t.listeners[l].pending[k]);
    }
    assert forall|l: int, k: int, m: int, n: int|
        0 <= l < t.listeners.len() && 0 <= k < t.listeners[l].pending.len() && 0 <= m
            < t.listeners.len() && 0 <= n < t.listeners[m].pending.len()
            && #[trigger] t.listeners[l].pending[k]
            == #[trigger] t.listeners[m].pending[n] implies l == m && k == n by {
        assert(s.listeners[place(l)].pending[k] == s.listeners[place(m)].pending[n]);
    }
    assert forall|k: int| 0 <= k < ids.len() implies #[trigger] t.usable(ids[k]) by {
        assert(s.listeners[i].pending[k] == ids[k]);
        if awaits(t.listeners, ids[k]) {
            let (l, n) = choose|l: int, n: int|
                0 <= l < t.listeners.len() && 0 <= n < t.listeners[l].pending.len()
                    && #[trigger] t.listeners[l].pending[n] == ids[k];
            assert(s.listeners[place(l)].pending[n] == s.listeners[i].pending[k]);
        }
    }
    assert forall|k: int, n: int| 0 <= k < n < ids.len() implies #[trigger] ids[k]
        != #[trigger] ids[n] by {
        assert(s.listeners[i].pending[k] == ids[k]);
        assert(s.listeners[i].pending[n] == ids[n]);
    }
    assert forall|h: usize| s.usable(h) implies #[trigger] t.usable(h) by {
        if awaits(t.listeners, h) {
            let (l, n) = choose|l: int, n: int|
                0 <= l < t.listeners.len() && 0 <= n < t.listeners[l].pending.len()
                    && #[trigger] t.listeners[l].pending[n] == h;
            assert(s.listeners[place(l)].pending[n] == h);
        }
    }
    assert(t.wf());
}

/// Removes an end that nobody accepted.
fn cleanup_unaccepted_stream(st: &mut TestState, id: usize)
    requires
        old(st)@.wf(),
        old(st)@.usable(id),
    ensures
        final(st)@ == old(st)@.with_unaccepted_dropped(id),
        final(st)@.wf(),
        keeps_handles(old(st)@, final(st)@, Some(id)),
{
    proof {
        lemma_unlink(st@, id);
    }
    let peer = st.tcp_connection(id).peer_stream_id;
    st.remove_tcp_connection(id);
    match peer {
        Some(p) => notify_peer_dropped(st, p),
        None => {},
    }
}

/// Drops one handle of the listener at `addr`.
pub fn remove_tcp_listener_state(st: &mut TestState, addr: SocketAddr)
    requires
        old(st)@.wf(),
    ensures
        final(st)@ == old(st)@.with_listener_dropped(addr),
        final(st)@.wf(),
        keeps_handles(old(st)@, final(st)@, None),
{
    let i: usize = match st.find_listener(addr) {
        Some(i) => i,
        None => return ,
    };
    assert(st@.listeners[i as int].refs >= 1) by {
        reveal(listeners_ok);
    }
    if st.tcp_listener(i).ref_count > 1 {
        let l = st.with_tcp_listener_state(i);
        l.ref_count = l.ref_count - 1;
        return ;
    }
    proof {
        lemma_remove_listener(st@, i as int, addr);
    }
    let gone: TcpListenerState = st.listeners.remove(i);
    assert(st@.listeners =~= old(st)@.listeners.remove(i as int));
    st.ports.remove(&addr.port());
    let ghost all = gone.pending_streams@;
    let ghost start = st@;
    let ghost end = start.with_all_unaccepted_dropped(all);
    let mut k: usize = 0;
    assert(all.skip(0) =~= all);
    while k < gone.pending_streams.len()
        invariant
            k <= gone.pending_streams@.len(),
            all == gone.pending_streams@,
            st@.wf(),
            unqueued(st@, all.skip(k as int)),
            forall|h: usize|
                old(st)@.usable(h) && !all.contains(h) ==> #[trigger] st@.usable(h),
            st@.with_all_unaccepted_dropped(all.skip(k as int)) == end,
        decreases gone.pending_streams@.len() - k,
    {
        let ghost left = all.skip(k as int);
        proof {
            lemma_unqueued_step(st@, left);
            assert(st@.usable(left[0]));
            assert(left.drop_first() =~= all.skip(k + 1));
        }
        cleanup_unaccepted_stream(st, gone.pending_streams[k]);
        k += 1;
    }
    assert(all.skip(k as int) =~= Seq::<usize>::empty());
    assert forall|h: usize| old(st)@.usable(h) implies !all.contains(h) by {
        if all.contains(h) {
            let n = choose|n: int| 0 <= n < all.len() && all[n] == h;
            assert(old(st)@.listeners[i as int].pending[n] == h);
        }
    }
}

proof fn lemma_all_dropped_listeners(s: StateView, ids: Seq<usize>)
    ensures
        s.with_all_unaccepted_dropped(ids).listeners == s.listeners,
    decreases ids.len(),
{
    if ids.len() > 0 {
        lemma_all_dropped_listeners(s.with_unaccepted_dropped(ids[0]), ids.drop_first());
    }
}

/// Dropping a listener queues nothing.
pub proof fn lemma_dropped_listener_queues(s: StateView, addr: SocketAddr, id: usize)
    requires
        s.find_listener(addr) is Some ==> 0 <= s.find_listener(addr)->0 < s.listeners.len(),
        awaits(s.with_listener_dropped(addr).listeners, id),
    ensures
        awaits(s.listeners, id),
{
    if s.find_listener(addr) is Some {
        let i = s.find_listener(addr)->0;
        let l = s.listeners[i];
        let t = s.with_listener_dropped(addr).listeners;
        let (m, k) = choose|m: int, k: int|
            0 <= m < t.len() && 0 <= k < t[m].pending.len() && #[trigger] t[m].pending[k] == id;
        if l.refs > 1 {
            assert(s.listeners[m].pending[k] == id);
        } else {
            let r = StateView {
                listeners: s.listeners.remove(i),
                ports: s.ports.remove(addr.port_part()),
                ..s
            };
            lemma_all_dropped_listeners(r, l.pending);
            let n = if m < i {
                m
            } else {
                m + 1
            };
            assert(s.listeners[n].pending[k] == id);
        }
    }
}

/// Takes out another handle of the listener at `addr`.
pub fn clone_tcp_listener_state(st: &mut TestState, addr: SocketAddr)
    requires
        old(st)@.wf(),
        old(st)@.has_listener(addr),
        old(st)@.listeners[old(st)@.find_listener(addr)->0].refs < usize::MAX,
    ensures
        ({
            let i = old(st)@.find_listener(addr)->0;
            let l = old(st)@.listeners[i];
            final(st)@ == old(st)@.with_listener(
                i,
                ListenerView { refs: (l.refs + 1) as usize, ..l },
            )
        }),
        final(st)@.wf(),
        keeps_handles(old(st)@, final(st)@, None),
{
    match st.find_listener(addr) {
        Some(i) => {
            let l = st.with_tcp_listener_state(i);
            l.ref_count = l.ref_count + 1;
            proof {
                lemma_listener_changed(old(st)@, i as int, st@.listeners[i as int]);
            }
        },
        None => {
            proof {
                lemma_no_listener(st@.listeners, addr, 0);
            }
        },
    }
}

/// Where a client's end of a connection to `target` sits.
fn preferred_client_ip(st: &TestState, target: SocketAddr) -> (r: IpAddr)
    ensures
        r == st@.client_ip(target),
{
    if is_ip_addr_valid(st, target.ip()) {
        target.ip()
    } else {
        match target {
            SocketAddr::V4(_) => IpAddr::V4(Ipv4Addr { bits: 0x7f00_0001 }),
            SocketAddr::V6(_) => IpAddr::V6(Ipv6Addr { bits: 1 }),
        }
    }
}

/// A new connection leaves the network in order.
proof fn lemma_connection(s: StateView, now: Now, target: SocketAddr, i: int)
    requires
        s.wf(),
        has_free_port(s.ports),
        0 <= i < s.listeners.len(),
        s.tcp.len() + 1 <= usize::MAX,
    ensures
        s.with_connection(now, target, i).wf(),
        s.with_connection(now, target, i).usable(s.tcp.len() as usize),
        keeps_handles(s, s.with_connection(now, target, i), None),
{
    reveal(linked);
    reveal(held);
    reveal(queues_ok);
    reveal(listeners_ok);
    let t = s.with_connection(now, target, i);
    let cid = s.tcp.len();
    let sid = s.tcp.len() + 1;
    lemma_free_port(s.ports, s.next_port, 0);
    assert(t.tcp.len() == s.tcp.len() + 2);
    assert(t.tcp[cid as int]->0.peer == Some(sid as usize));
    assert(t.tcp[sid as int]->0.peer == Some(cid as usize));
    assert forall|j: int| 0 <= j < s.tcp.len() implies #[trigger] t.tcp[j] == s.tcp[j] by {}
    assert forall|l: int, k: int|
        0 <= l < t.listeners.len() && 0 <= k < t.listeners[l].pending.len() implies ({
        let w = #[trigger] t.listeners[l].pending[k];
        if k < s.listeners[l].pending.len() {
            w == s.listeners[l].pending[k] && w < s.tcp.len() && t.tcp[w as int] is Some
        } else {
            l == i && w == sid && k == s.listeners[l].pending.len()
        }
    }) by {
        if k < s.listeners[l].pending.len() {
            assert(s.listeners[l].pending[k] == t.listeners[l].pending[k]);
        }
    }
    assert(linked(t.tcp));
    assert forall|h: usize| s.usable(h) implies #[trigger] t.usable(h) by {
        if awaits(t.listeners, h) {
            let (l, n) = choose|l: int, n: int|
                0 <= l < t.listeners.len() && 0 <= n < t.listeners[l].pending.len()
                    && #[trigger] t.listeners[l].pending[n] == h;
            if n < s.listeners[l].pending.len() {
                assert(s.listeners[l].pending[n] == h);
            }
        }
    }
    assert(queues_ok(t.listeners, t.tcp)) by {
        assert forall|l: int, k: int, m: int, n: int|
            0 <= l < t.listeners.len() && 0 <= k < t.listeners[l].pending.len() && 0 <= m
                < t.listeners.len() && 0 <= n < t.listeners[m].pending.len()
                && #[trigger] t.listeners[l].pending[k]
                == #[trigger] t.listeners[m].pending[n] implies l == m && k == n by {
            if k < s.listeners[l].pending.len() && n < s.listeners[m].pending.len() {
                assert(s.listeners[l].pending[k] == s.listeners[m].pending[n]);
            }
        }
    }
}

/// Connects to `target` through the listener in place `i`. Yields the client's
/// end.
pub fn establish(st: &mut TestState, now: Now, target: SocketAddr, i: usize) -> (r: usize)
    requires
        old(st)@.wf(),
        has_free_port(old(st)@.ports),
        i < old(st)@.listeners.len(),
    ensures
        r == old(st)@.tcp.len(),
        final(st)@ == old(st)@.with_connection(now, target, i as int),
        final(st)@.wf(),
        final(st)@.usable(r),
        keeps_handles(old(st)@, final(st)@, None),
{
    let ghost s = st@;
    let listener_addr = st.tcp_listener(i).bound_addr;
    let client_ip = preferred_client_ip(st, target);
    let local_addr = reserve_ephemeral_addr(st, client_ip);
    let server_ip = if listener_addr.ip().is_unspecified() {
        target.ip()
    } else {
        listener_addr.ip()
    };
    let server_addr = SocketAddr::new(server_ip, listener_addr.port());
    let client_stream: usize = st.add_tcp_connection(local_addr, server_addr, true);
    let server_stream: usize = st.add_tcp_connection(server_addr, local_addr, false);
    st.set_peer(client_stream, server_stream);
    st.set_peer(server_stream, client_stream);
    st.assign_tcp_stream_to_listener(i, server_stream);
    pcap_tcp_open(st, now, local_addr, server_addr);
    proof {
        lemma_connection(s, now, target, i as int);
        let t = s.with_connection(now, target, i as int);
        assert(st@.ports =~= t.ports);
        assert(st@.tcp =~= t.tcp);
    }
    client_stream
}

// ----- What a test sends -----

impl StateView {
    /// The link into `addr` takes `len` more bytes into the end `c`.
    pub open spec fn has_room(self, addr: SocketAddr, c: TcpView, len: nat) -> bool {
        match self.tcp_policy(addr).recv_window {
            Some(window) => c.queued() + len <= window,
            None => true,
        }
    }

    /// The test has sent `data`. Where no connection takes it, or no room is
    /// left in its window, it is lost.
    pub open spec fn with_tcp_sent(
        self,
        now: Now,
        from: SocketAddr,
        to: SocketAddr,
        data: Seq<u8>,
    ) -> StateView {
        match self.find_tcp(Which::Between(to, from)) {
            None => self,
            Some(i) => {
                let id = i as usize;
                let c = self.conn(id);
                if self.has_room(to, c, data.len()) {
                    self.with_conn(
                        id,
                        c.with_sent(now.mono, self.tcp_policy(to).inbound_latency, data),
                    ).woken().recorded(
                        now,
                        RecordedEvent::TcpSendFromTest { from, to, len: data.len() as usize },
                    ).captured_data(now, from, to, data)
                } else {
                    self
                }
            },
        }
    }

    /// How long a packet to `addr` is under way.
    pub open spec fn udp_delay(self, now: Now, addr: SocketAddr) -> Duration {
        let policy = self.udp_policy(addr);
        let jitter = if policy.reorder_jitter@ == 0 {
            0
        } else {
            share(policy.reorder_jitter@, self.draw(now))
        };
        Duration::of(crate::clock::capped(policy.inbound_latency@ + jitter))
    }

    /// That has been decided.
    pub open spec fn with_udp_delay_drawn(self, now: Now, addr: SocketAddr) -> StateView {
        if self.udp_policy(addr).reorder_jitter@ == 0 {
            self
        } else {
            self.drawn(now)
        }
    }

    /// `packet` has been sent to the socket in place `i`, once or twice.
    pub open spec fn with_packet_delivered(
        self,
        now: Now,
        i: int,
        packet: PacketView,
        delay: Duration,
        duplicated: bool,
    ) -> StateView {
        let once = self.udp[i].with_sent(now.mono, delay, packet);
        let u = if duplicated {
            once.with_sent(now.mono, delay, packet)
        } else {
            once
        };
        let s = self.with_udp(i, u).woken().recorded(
            now,
            RecordedEvent::UdpSendFromTest {
                from: packet.source,
                to: packet.dest,
                len: packet.data.len() as usize,
                dropped: false,
                duplicated,
            },
        ).captured_datagram(now, packet.source, packet.dest, packet.data);
        if duplicated {
            s.captured_datagram(now, packet.source, packet.dest, packet.data)
        } else {
            s
        }
    }

    /// The test has sent a packet. One that is too long, or that is lost by
    /// chance, is logged as dropped; one to an address at which no socket is
    /// bound vanishes.
    pub open spec fn with_udp_sent(
        self,
        now: Now,
        from: SocketAddr,
        to: SocketAddr,
        data: Seq<u8>,
    ) -> StateView {
        let policy = self.udp_policy(to);
        let dropped = RecordedEvent::UdpSendFromTest {
            from,
            to,
            len: data.len() as usize,
            dropped: true,
            duplicated: false,
        };
        if policy.mtu is Some && data.len() > policy.mtu->0 {
            self.recorded(now, dropped)
        } else if self.decision(now, policy.loss_rate) {
            self.decided(now, policy.loss_rate).recorded(now, dropped)
        } else {
            let s1 = self.decided(now, policy.loss_rate);
            let delay = s1.udp_delay(now, to);
            let s2 = s1.with_udp_delay_drawn(now, to);
            let duplicated = s2.decision(now, policy.duplicate_rate);
            let s3 = s2.decided(now, policy.duplicate_rate);
            match s3.find_udp(to) {
                None => s3,
                Some(i) => s3.with_packet_delivered(
                    now,
                    i,
                    PacketView { data, dest: to, source: from },
                    delay,
                    duplicated,
                ),
            }
        }
    }
}

/// Sends `data` to the connection at `to` as if `from` had sent it, by the
/// policy of the link. Where the connection is gone, nothing happens.
pub fn inject_tcp_from_test(
    st: &mut TestState,
    now: Now,
    from_addr: SocketAddr,
    to_addr: SocketAddr,
    data: Vec<u8>,
)
    requires
        old(st)@.wf(),
    ensures
        final(st)@ == old(st)@.with_tcp_sent(now, from_addr, to_addr, data@),
        final(st)@.wf(),
{
    send_tcp_from_test(st, now, from_addr, to_addr, data);
}

/// [`inject_tcp_from_test`], for testers.
pub fn send_tcp_from_test(
    st: &mut TestState,
    now: Now,
    from_addr: SocketAddr,
    to_addr: SocketAddr,
    data: Vec<u8>,
)
    requires
        old(st)@.wf(),
    ensures
        final(st)@ == old(st)@.with_tcp_sent(now, from_addr, to_addr, data@),
        final(st)@.wf(),
{
    let policy = tcp_policy(st, to_addr);
    let len: usize = data.len();
    let id: usize = match st.find_tcp(Which::Between(to_addr, from_addr)) {
        Some(id) => id,
        None => return ,
    };
    match policy.recv_window {
        Some(window) => {
            let queued: u128 = st.tcp_connection(id).queued();
            if queued + len as u128 > window as u128 {
                return ;
            }
        },
        None => {},
    }
    proof {
        lemma_peer(st@, id);
    }
    let conn = st.with_tcp_connection(id);
    conn.deliver(now.mono, policy.inbound_latency, data.as_slice());
    record(st, now, RecordedEvent::TcpSendFromTest { from: from_addr, to: to_addr, len });
    pcap_tcp_data(st, now, from_addr, to_addr, data.as_slice());
}

/// How long a packet to `addr` is under way.
fn draw_udp_delay(st: &mut TestState, now: Now, addr: SocketAddr) -> (r: Duration)
    ensures
        r == old(st)@.udp_delay(now, addr),
        final(st)@ == old(st)@.with_udp_delay_drawn(now, addr),
{
    let policy = udp_policy(st, addr);
    let jitter: Duration = if policy.reorder_jitter.is_zero() {
        Duration::zero()
    } else {
        let drawn: u32 = next_rand(st, now);
        let span: u128 = policy.reorder_jitter.as_nanos();
        assert(span * drawn <= MAX_NANOS * 0xffff_ffff) by (nonlinear_arith)
            requires
                0 <= span <= MAX_NANOS,
                0 <= drawn <= 0xffff_ffff,
        ;
        let nanos: u128 = (span * drawn as u128) / 0xffff_ffff;
        proof {
            crate::rng::law_share_is_within(span as nat, drawn);
        }
        match Duration::try_from_nanos(nanos) {
            Some(d) => d,
            None => Duration::longest(),
        }
    };
    let r = policy.inbound_latency.saturating_add(jitter);
    proof {
        use_type_invariant(&r);
        Duration::lemma_of(r@);
        Duration::lemma_ext(r, old(st)@.udp_delay(now, addr));
    }
    r
}

/// Sends a packet to the socket at `to_addr` as if `from_addr` had sent it, by
/// the policy of that socket.
pub fn send_udp_from_test(
    st: &mut TestState,
    now: Now,
    from_addr: SocketAddr,
    to_addr: SocketAddr,
    data: Vec<u8>,
)
    requires
        old(st)@.wf(),
    ensures
        final(st)@ == old(st)@.with_udp_sent(now, from_addr, to_addr, data@),
        final(st)@.wf(),
{
    let policy = udp_policy(st, to_addr);
    let len: usize = data.len();
    let lost = RecordedEvent::UdpSendFromTest {
        from: from_addr,
        to: to_addr,
        len,
        dropped: true,
        duplicated: false,
    };
    let too_long = match policy.mtu {
        Some(mtu) => len > mtu,
        None => false,
    };
    if too_long {
        record(st, now, lost);
        return ;
    }
    if decide(st, now, policy.loss_rate) {
        record(st, now, lost);
        return ;
    }
    let delay = draw_udp_delay(st, now, to_addr);
    let duplicated = decide(st, now, policy.duplicate_rate);
    let i: usize = match st.find_udp(to_addr) {
        Some(i) => i,
        None => return ,
    };
    let copy = Packet {
        data: crate::bytes::copy_of(data.as_slice()),
        dest: to_addr,
        source: from_addr,
    };
    let conn = st.with_udp_connection(i);
    conn.deliver(now.mono, delay, copy);
    if duplicated {
        let again = Packet {
            data: crate::bytes::copy_of(data.as_slice()),
            dest: to_addr,
            source: from_addr,
        };
        conn.deliver(now.mono, delay, again);
    }
    record(
        st,
        now,
        RecordedEvent::UdpSendFromTest {
            from: from_addr,
            to: to_addr,
            len,
            dropped: false,
            duplicated,
        },
    );
    pcap_udp(st, now, from_addr, to_addr, data.as_slice());
    if duplicated {
        pcap_udp(st, now, from_addr, to_addr, data.as_slice());
    }
}

// ----- What is on its way -----

/// The sooner of two times, where there are any.
pub open spec fn sooner(a: Option<nat>, b: Option<nat>) -> Option<nat> {
    match (a, b) {
        (Some(x), Some(y)) => Some(
            if y < x {
                y
            } else {
                x
            },
        ),
        (Some(x), None) => Some(x),
        (None, y) => y,
    }
}

/// The earliest time at which one of the first `n` chunks arrives.
pub open spec fn first_chunk(q: Seq<ChunkView>, n: int) -> Option<nat>
    decreases n,
{
    if n <= 0 {
        None
    } else {
        sooner(first_chunk(q, n - 1), Some(q[n - 1].at@))
    }
}

/// The earliest time at which bytes arrive at an end.
pub open spec fn next_chunk(c: Option<TcpView>) -> Option<nat> {
    match c {
        Some(c) => first_chunk(c.pending, c.pending.len() as int),
        None => None,
    }
}

/// When the next bytes arrive at any of the first `n` ends.
pub open spec fn earliest_tcp(tcp: Seq<Option<TcpView>>, n: int) -> Option<nat>
    decreases n,
{
    if n <= 0 {
        None
    } else {
        sooner(earliest_tcp(tcp, n - 1), next_chunk(tcp[n - 1]))
    }
}

/// When the next packet arrives at any of the first `n` sockets.
pub open spec fn earliest_udp(udp: Seq<UdpView>, n: int) -> Option<nat>
    decreases n,
{
    if n <= 0 {
        None
    } else {
        sooner(earliest_udp(udp, n - 1), udp[n - 1].next_time())
    }
}

impl StateView {
    /// When the next thing that is on its way arrives.
    pub open spec fn earliest(self) -> Option<nat> {
        sooner(
            earliest_tcp(self.tcp, self.tcp.len() as int),
            earliest_udp(self.udp, self.udp.len() as int),
        )
    }

    /// Bytes for the end `id` that have arrived can be read.
    pub open spec fn with_tcp_released(self, now: nat, id: usize) -> StateView {
        if self.live(id) && self.conn(id).due(now) {
            self.with_conn(id, self.conn(id).released(now)).woken()
        } else {
            self
        }
    }

    /// Packets for the socket at `addr` that have arrived can be received.
    pub open spec fn with_udp_released(self, now: nat, addr: SocketAddr) -> StateView {
        match self.find_udp(addr) {
            Some(i) => if self.udp[i].due(now) {
                self.with_udp(i, self.udp[i].released(now)).woken()
            } else {
                self
            },
            None => self,
        }
    }
}

/// Whether something that is on its way arrives at `t`: a chunk at some end or
/// a packet at some socket.
pub open spec fn arrives_at(s: StateView, t: nat) -> bool {
    ||| exists|i: int, j: int| #[trigger] chunk_at(s, i, j, t)
    ||| exists|i: int, j: int| #[trigger] packet_at(s, i, j, t)
}

/// Whether the `j`-th chunk on its way to the `i`-th end arrives at `t`.
pub open spec fn chunk_at(s: StateView, i: int, j: int, t: nat) -> bool {
    &&& 0 <= i < s.tcp.len()
    &&& s.tcp[i] is Some
    &&& 0 <= j < s.tcp[i]->0.pending.len()
    &&& s.tcp[i]->0.pending[j].at@ == t
}

/// Whether the `j`-th packet on its way to the `i`-th socket arrives at `t`.
pub open spec fn packet_at(s: StateView, i: int, j: int, t: nat) -> bool {
    &&& 0 <= i < s.udp.len()
    &&& 0 <= j < s.udp[i].pending.len()
    &&& s.udp[i].pending[j].at@ == t
}

proof fn lemma_first_chunk(q: Seq<ChunkView>, n: int)
    requires
        0 <= n <= q.len(),
    ensures
        n > 0 ==> first_chunk(q, n) is Some,
        forall|j: int| 0 <= j < n ==> first_chunk(q, n)->0 <= (#[trigger] q[j]).at@,
        first_chunk(q, n) is Some ==> exists|j: int|
            0 <= j < n && (#[trigger] q[j]).at@ == first_chunk(q, n)->0,
    decreases n,
{
    if n > 0 {
        lemma_first_chunk(q, n - 1);
        if q[n - 1].at@ != first_chunk(q, n)->0 {
            let j = choose|j: int|
                0 <= j < n - 1 && (#[trigger] q[j]).at@ == first_chunk(q, n - 1)->0;
            assert(q[j].at@ == first_chunk(q, n)->0);
        }
    }
}

proof fn lemma_earliest_tcp(tcp: Seq<Option<TcpView>>, n: int)
    requires
        0 <= n <= tcp.len(),
    ensures
        forall|i: int|
            0 <= i < n && next_chunk(#[trigger] tcp[i]) is Some ==> earliest_tcp(tcp, n) is Some
                && earliest_tcp(tcp, n)->0 <= next_chunk(tcp[i])->0,
        earliest_tcp(tcp, n) is Some ==> exists|i: int|
            0 <= i < n && next_chunk(#[trigger] tcp[i]) == earliest_tcp(tcp, n),
    decreases n,
{
    if n > 0 {
        lemma_earliest_tcp(tcp, n - 1);
        if earliest_tcp(tcp, n) is Some && next_chunk(tcp[n - 1]) != earliest_tcp(tcp, n) {
            let i = choose|i: int|
                0 <= i < n - 1 && next_chunk(#[trigger] tcp[i]) == earliest_tcp(tcp, n - 1);
            assert(next_chunk(tcp[i]) == earliest_tcp(tcp, n));
        }
    }
}

proof fn lemma_earliest_udp(udp: Seq<UdpView>, n: int)
    requires
        0 <= n <= udp.len(),
    ensures
        forall|i: int|
            0 <= i < n && (#[trigger] udp[i]).next_time() is Some ==> earliest_udp(udp, n) is Some
                && earliest_udp(udp, n)->0 <= udp[i].next_time()->0,
        earliest_udp(udp, n) is Some ==> exists|i: int|
            0 <= i < n && (#[trigger] udp[i]).next_time() == earliest_udp(udp, n),
    decreases n,
{
    if n > 0 {
        lemma_earliest_udp(udp, n - 1);
        if earliest_udp(udp, n) is Some && udp[n - 1].next_time() != earliest_udp(udp, n) {
            let i = choose|i: int|
                0 <= i < n - 1 && (#[trigger] udp[i]).next_time() == earliest_udp(udp, n - 1);
            assert(udp[i].next_time() == earliest_udp(udp, n));
        }
    }
}

/// Someone who waits no longer than until the earliest arrival misses none: of
/// all that is on its way to any end or socket nothing arrives before it, and
/// something does then.
pub proof fn law_earliest_is_next_arrival(s: StateView)
    ensures
        forall|t: nat| #[trigger] arrives_at(s, t) ==> s.earliest() is Some && s.earliest()->0 <= t,
        s.earliest() is Some ==> arrives_at(s, s.earliest()->0),
{
    lemma_earliest_tcp(s.tcp, s.tcp.len() as int);
    lemma_earliest_udp(s.udp, s.udp.len() as int);
    assert forall|t: nat| #[trigger] arrives_at(s, t) implies s.earliest() is Some
        && s.earliest()->0 <= t by {
        if exists|i: int, j: int| #[trigger] chunk_at(s, i, j, t) {
            let (i, j) = choose|i: int, j: int| #[trigger] chunk_at(s, i, j, t);
            let q = s.tcp[i]->0.pending;
            lemma_first_chunk(q, q.len() as int);
            assert(next_chunk(s.tcp[i]) is Some);
        } else {
            let (i, j) = choose|i: int, j: int| #[trigger] packet_at(s, i, j, t);
            let q = s.udp[i].pending;
            lemma_soonest(q, q.len() as int);
            assert(s.udp[i].next_time() is Some);
        }
    }
    if s.earliest() is Some {
        let t = s.earliest()->0;
        let from_tcp = earliest_tcp(s.tcp, s.tcp.len() as int);
        if from_tcp == Some(t) {
            let i = choose|i: int| 0 <= i < s.tcp.len() && next_chunk(#[trigger] s.tcp[i]) == from_tcp;
            let q = s.tcp[i]->0.pending;
            lemma_first_chunk(q, q.len() as int);
            let j = choose|j: int|
                0 <= j < q.len() && (#[trigger] q[j]).at@ == first_chunk(q, q.len() as int)->0;
            assert(chunk_at(s, i, j, t));
        } else {
            let i = choose|i: int|
                0 <= i < s.udp.len() && (#[trigger] s.udp[i]).next_time() == Some(t);
            let q = s.udp[i].pending;
            lemma_soonest(q, q.len() as int);
            assert(packet_at(s, i, soonest(q, q.len() as int), t));
        }
    }
}

/// The sooner of two times, where there are any.
fn sooner_of(a: Option<Instant>, b: Instant) -> (r: Instant)
    ensures
        sooner(
            match a {
                Some(a) => Some(a@),
                None => None,
            },
            Some(b@),
        ) == Some(r@),
{
    match a {
        Some(a) => if b < a {
            b
        } else {
            a
        },
        None => b,
    }
}

/// A time, where there is one.
pub open spec fn opt_time(t: Option<Instant>) -> Option<nat> {
    match t {
        Some(t) => Some(t@),
        None => None,
    }
}

/// The earliest time at which a chunk on its way to `c` arrives, or `before` if
/// that is earlier.
fn sooner_chunk(c: &TcpConnection, before: Option<Instant>) -> (r: Option<Instant>)
    ensures
        opt_time(r) == sooner(opt_time(before), next_chunk(Some(c@))),
{
    let mut earliest: Option<Instant> = before;
    let mut j: usize = 0;
    while j < c.pending_inbound.len()
        invariant
            j <= c.pending_inbound@.len(),
            opt_time(earliest) == sooner(opt_time(before), first_chunk(c@.pending, j as int)),
        decreases c.pending_inbound@.len() - j,
    {
        assert(c@.pending[j as int] == c.pending_inbound@[j as int]@);
        earliest = Some(sooner_of(earliest, c.pending_inbound[j].at));
        j += 1;
    }
    earliest
}

/// When the next thing that is on its way arrives: the earliest of all times at
/// which a chunk or a packet does.
pub fn earliest_pending_release(st: &TestState) -> (r: Option<Instant>)
    ensures
        opt_time(r) == st@.earliest(),
        match r {
            Some(t) => arrives_at(st@, t@) && forall|d: nat| #[trigger]
                arrives_at(st@, d) ==> t@ <= d,
            None => forall|d: nat| !#[trigger] arrives_at(st@, d),
        },
{
    proof {
        law_earliest_is_next_arrival(st@);
    }
    let mut earliest: Option<Instant> = None;
    let mut i: usize = 0;
    while i < st.tcp.len()
        invariant
            i <= st.tcp@.len(),
            opt_time(earliest) == earliest_tcp(st@.tcp, i as int),
        decreases st.tcp@.len() - i,
    {
        assert(tcp_slot(st.tcp@[i as int]) == st@.tcp[i as int]);
        match &st.tcp[i] {
            Some(c) => {
                earliest = sooner_chunk(c, earliest);
            },
            None => {},
        }
        i += 1;
    }
    let ghost from_tcp = earliest_tcp(st@.tcp, st@.tcp.len() as int);
    let mut j: usize = 0;
    while j < st.udp.len()
        invariant
            j <= st.udp@.len(),
            opt_time(earliest) == sooner(from_tcp, earliest_udp(st@.udp, j as int)),
        decreases st.udp@.len() - j,
    {
        assert(st.udp@[j as int]@ == st@.udp[j as int]);
        match st.udp[j].next_time() {
            Some(t) => {
                earliest = Some(sooner_of(earliest, t));
            },
            None => {},
        }
        j += 1;
    }
    earliest
}

/// Lets bytes be read through the end `id` that have arrived. Tells whether
/// there were any.
pub fn release_pending_for_tcp(st: &mut TestState, now: Now, id: usize) -> (r: bool)
    requires
        old(st)@.wf(),
    ensures
        final(st)@ == old(st)@.with_tcp_released(now.mono@, id),
        final(st)@.wf(),
        r == (old(st)@.live(id) && old(st)@.conn(id).due(now.mono@)),
{
    if !st.is_live(id) {
        return false;
    }
    let c = st.tcp_connection(id);
    let due = c.pending_inbound.len() > 0 && c.pending_inbound[0].at <= now.mono;
    assert(due == st@.conn(id).due(now.mono@));
    if due {
        proof {
            lemma_released_keeps(st@.conn(id), now.mono@);
            lemma_peer(st@, id);
        }
        let c = st.with_tcp_connection(id);
        c.release(now.mono);
    }
    due
}

/// Releasing bytes changes nothing but where they are.
pub proof fn lemma_released_keeps(c: TcpView, now: nat)
    ensures
        c.released(now) == (TcpView {
            incoming: c.released(now).incoming,
            pending: c.released(now).pending,
            ..c
        }),
        c.released(now).queued() == c.queued(),
    decreases c.pending.len(),
{
    if c.due(now) {
        let d = TcpView {
            incoming: c.incoming + c.pending[0].data,
            pending: c.pending.drop_first(),
            ..c
        };
        lemma_released_keeps(d, now);
        lemma_chunk_bytes_front(c.pending);
    }
}

/// Releasing packets changes nothing but where they are.
pub proof fn lemma_udp_released_keeps(u: UdpView, now: nat)
    ensures
        u.released(now) == (UdpView {
            to_local: u.released(now).to_local,
            pending: u.released(now).pending,
            ..u
        }),
    decreases u.pending.len(),
{
    if u.due(now) {
        lemma_soonest(u.pending, u.pending.len() as int);
        lemma_udp_released_keeps(u.with_next_arrived(), now);
    }
}

proof fn lemma_chunk_bytes_front(chunks: Seq<crate::conn::ChunkView>)
    requires
        chunks.len() > 0,
    ensures
        crate::conn::chunk_bytes(chunks) == chunks[0].data.len() + crate::conn::chunk_bytes(
            chunks.drop_first(),
        ),
    decreases chunks.len(),
{
    if chunks.len() > 1 {
        lemma_chunk_bytes_front(chunks.drop_last());
        assert(chunks.drop_first().drop_last() =~= chunks.drop_last().drop_first());
        assert(chunks.drop_first().last() == chunks.last());
        assert(chunks.drop_last()[0] == chunks[0]);
    } else {
        assert(chunks.drop_first() =~= Seq::empty());
        assert(chunks.drop_last() =~= Seq::empty());
    }
}

/// Lets packets be received at `addr` that have arrived. Tells whether there
/// were any.
pub fn release_pending_for_udp(st: &mut TestState, now: Now, addr: SocketAddr) -> (r: bool)
    requires
        old(st)@.wf(),
    ensures
        final(st)@ == old(st)@.with_udp_released(now.mono@, addr),
        final(st)@.wf(),
        r == (old(st)@.find_udp(addr) is Some && old(st)@.udp[old(st)@.find_udp(addr)->0].due(
            now.mono@,
        )),
{
    match st.find_udp(addr) {
        Some(i) => {
            let u = st.udp_connection(i);
            let due = match u.next_time() {
                Some(t) => t <= now.mono,
                None => false,
            };
            if due {
                let u = st.with_udp_connection(i);
                u.release(now.mono);
            }
            due
        },
        None => false,
    }
}

// ----- What a test breaks -----

impl StateView {
    /// The connection at `addr` has been reset by its peer.
    pub open spec fn with_reset(self, now: Now, addr: SocketAddr) -> StateView {
        match self.find_tcp(Which::At(addr)) {
            None => self,
            Some(i) => {
                let c = self.conn(i as usize);
                self.with_conn(
                    i as usize,
                    TcpView {
                        reset_pending: true,
                        read_shutdown: true,
                        error: Some(
                            err(ErrorKind::ConnectionReset, "connection reset by peer"@),
                        ),
                        ..c
                    },
                ).woken().recorded(now, RecordedEvent::TcpResetFromTest { addr }).captured_rst(
                    now,
                    c.peer_addr,
                    addr,
                )
            },
        }
    }

    /// The connection at `addr` has an error to report.
    pub open spec fn with_tcp_error(self, now: Now, addr: SocketAddr, e: ErrorView) -> StateView {
        match self.find_tcp(Which::At(addr)) {
            None => self,
            Some(i) => self.with_conn(
                i as usize,
                TcpView { error: Some(e), ..self.conn(i as usize) },
            ).woken().recorded(now, RecordedEvent::SocketErrorFromTest { addr, kind: e.kind }),
        }
    }

    /// The socket at `addr` has an error to report.
    pub open spec fn with_udp_error(self, now: Now, addr: SocketAddr, e: ErrorView) -> StateView {
        match self.find_udp(addr) {
            None => self,
            Some(i) => self.with_udp(i, UdpView { error: Some(e), ..self.udp[i] }).woken().recorded(
                now,
                RecordedEvent::SocketErrorFromTest { addr, kind: e.kind },
            ),
        }
    }

    /// The socket at `addr` has been closed.
    pub open spec fn with_closed(self, now: Now, addr: SocketAddr, kind: SocketType) -> StateView {
        match kind {
            SocketType::Udp => match self.find_udp(addr) {
                None => self,
                Some(i) => self.with_udp(i, UdpView { destroyed: true, ..self.udp[i] }).woken().recorded(
                    now,
                    RecordedEvent::UdpCloseFromTest { addr },
                ),
            },
            SocketType::Tcp => match self.find_tcp(Which::At(addr)) {
                None => self,
                Some(i) => self.with_conn(
                    i as usize,
                    TcpView { destroyed: true, ..self.conn(i as usize) },
                ).woken().recorded(now, RecordedEvent::TcpCloseFromTest { addr }),
            },
        }
    }
}

/// Resets the connection at `addr` as its peer would: the next read or write
/// fails with `ConnectionReset`.
pub fn reset_tcp(st: &mut TestState, now: Now, addr: SocketAddr)
    requires
        old(st)@.wf(),
    ensures
        final(st)@ == old(st)@.with_reset(now, addr),
        final(st)@.wf(),
{
    reset_tcp_from_test(st, now, addr);
}

/// [`reset_tcp`], for testers.
pub fn reset_tcp_from_test(st: &mut TestState, now: Now, addr: SocketAddr)
    requires
        old(st)@.wf(),
    ensures
        final(st)@ == old(st)@.with_reset(now, addr),
        final(st)@.wf(),
{
    match st.find_tcp(Which::At(addr)) {
        Some(id) => {
            let error = Error::new(ErrorKind::ConnectionReset, "connection reset by peer");
            let peer_addr = st.tcp_connection(id).peer_addr;
            proof {
                lemma_peer(st@, id);
            }
            let conn = st.with_tcp_connection(id);
            conn.reset_pending = true;
            conn.read_shutdown = true;
            conn.external_error = Some(error);
            record(st, now, RecordedEvent::TcpResetFromTest { addr });
            pcap_tcp_rst(st, now, peer_addr, addr);
        },
        None => {},
    }
}

/// Gives the socket at `addr` an error to report. Where no socket is bound,
/// nothing happens.
pub fn raise_udp_socket_error_from_test(
    st: &mut TestState,
    now: Now,
    addr: SocketAddr,
    error: Error,
)
    requires
        old(st)@.wf(),
    ensures
        final(st)@ == old(st)@.with_udp_error(now, addr, error@),
        final(st)@.wf(),
{
    match st.find_udp(addr) {
        Some(i) => {
            let kind = error.kind();
            let conn = st.with_udp_connection(i);
            conn.external_error = Some(error);
            record(st, now, RecordedEvent::SocketErrorFromTest { addr, kind });
        },
        None => {},
    }
}

/// Gives the connection at `addr` an error to report. Where there is none,
/// nothing happens.
pub fn raise_tcp_socket_error_from_test(
    st: &mut TestState,
    now: Now,
    addr: SocketAddr,
    error: Error,
)
    requires
        old(st)@.wf(),
    ensures
        final(st)@ == old(st)@.with_tcp_error(now, addr, error@),
        final(st)@.wf(),
{
    match st.find_tcp(Which::At(addr)) {
        Some(id) => {
            let kind = error.kind();
            proof {
                lemma_peer(st@, id);
            }
            let conn = st.with_tcp_connection(id);
            conn.external_error = Some(error);
            record(st, now, RecordedEvent::SocketErrorFromTest { addr, kind });
        },
        None => {},
    }
}

/// Closes the socket at `addr`. Where there is none, nothing happens.
pub fn close_socket_from_test(st: &mut TestState, now: Now, addr: SocketAddr, kind: SocketType)
    requires
        old(st)@.wf(),
    ensures
        final(st)@ == old(st)@.with_closed(now, addr, kind),
        final(st)@.wf(),
{
    match kind {
        SocketType::Udp => match st.find_udp(addr) {
            Some(i) => {
                let conn = st.with_udp_connection(i);
                conn.is_destroyed = true;
                record(st, now, RecordedEvent::UdpCloseFromTest { addr });
            },
            None => {},
        },
        SocketType::Tcp => match st.find_tcp(Which::At(addr)) {
            Some(id) => {
                proof {
                    lemma_peer(st@, id);
                }
                let conn = st.with_tcp_connection(id);
                conn.is_destroyed = true;
                record(st, now, RecordedEvent::TcpCloseFromTest { addr });
            },
            None => {},
        },
    }
}

// ----- UDP sockets -----

impl StateView {
    /// A socket is bound at `addr`.
    pub open spec fn with_udp_bound(self, addr: SocketAddr) -> StateView {
        StateView {
            udp: self.udp.push(UdpView::fresh(addr)),
            ports: self.ports.insert(addr.port_part()),
            ..self
        }.woken()
    }

    /// What keeps the socket at `addr` from sending `len` bytes.
    pub open spec fn udp_send_error(self, addr: SocketAddr, len: nat) -> Option<ErrorView> {
        let policy = self.udp_policy(addr);
        if policy.mtu is Some && len > policy.mtu->0 {
            Some(err(ErrorKind::InvalidInput, "datagram exceeds configured MTU"@))
        } else if self.find_udp(addr) is None {
            Some(err(ErrorKind::NotConnected, "no such UDP socket"@))
        } else if policy.send_queue_depth is Some
            && self.udp[self.find_udp(addr)->0].from_local.len() >= policy.send_queue_depth->0 {
            Some(err(ErrorKind::WouldBlock, "UDP send queue full"@))
        } else {
            None
        }
    }

    /// The socket at `addr` has sent `packet`.
    pub open spec fn with_udp_queued(self, now: Now, addr: SocketAddr, packet: PacketView) -> StateView {
        let i = self.find_udp(addr)->0;
        let u = self.udp[i];
        self.with_udp(i, UdpView { from_local: u.from_local.push(packet), ..u }).woken().captured_datagram(
            now,
            packet.source,
            packet.dest,
            packet.data,
        )
    }
}

/// Binds a socket at `addr`.
pub fn add_udp_connection(st: &mut TestState, addr: SocketAddr)
    requires
        old(st)@.wf(),
    ensures
        final(st)@ == old(st)@.with_udp_bound(addr),
        final(st)@.wf(),
        final(st)@.has_udp(addr),
{
    st.ports.insert(addr.port());
    let u = UdpConnection::new(addr);
    st.udp.push(u);
    assert(st@.udp =~= old(st)@.udp.push(u@));
    assert(st@.udp.last().addr == addr);
    st.signal.raise();
}

/// Sends a packet from the socket at `bound_addr`: it waits there until someone
/// picks it up.
pub fn enqueue_udp_outbound(st: &mut TestState, now: Now, bound_addr: SocketAddr, pkt: Packet) -> (r:
    Result<(), Error>)
    requires
        old(st)@.wf(),
    ensures
        match r {
            Ok(_) => old(st)@.udp_send_error(bound_addr, pkt@.data.len()) is None && final(st)@
                == old(st)@.with_udp_queued(now, bound_addr, pkt@),
            Err(e) => old(st)@.udp_send_error(bound_addr, pkt@.data.len()) == Some(e@)
                && final(st)@ == old(st)@,
        },
        final(st)@.wf(),
{
    let policy = udp_policy(st, bound_addr);
    match policy.mtu {
        Some(mtu) => {
            if pkt.data.len() > mtu {
                return Err(Error::new(ErrorKind::InvalidInput, "datagram exceeds configured MTU"));
            }
        },
        None => {},
    }
    let i: usize = match st.find_udp(bound_addr) {
        Some(i) => i,
        None => return Err(Error::new(ErrorKind::NotConnected, "no such UDP socket")),
    };
    match policy.send_queue_depth {
        Some(cap) => {
            if st.udp_connection(i).from_local.len() >= cap {
                return Err(Error::new(ErrorKind::WouldBlock, "UDP send queue full"));
            }
        },
        None => {},
    }
    let data = crate::bytes::copy_of(pkt.data.as_slice());
    let source = pkt.source;
    let dest = pkt.dest;
    let conn = st.with_udp_connection(i);
    let ghost before = conn@;
    conn.from_local.push_back(pkt);
    assert(conn@ =~= (UdpView { from_local: before.from_local.push(pkt@), ..before }));
    pcap_udp(st, now, source, dest, data.as_slice());
    Ok(())
}

/// The first socket, at or behind `from`, that has sent a packet to `dest`.
pub open spec fn first_sender(udp: Seq<UdpView>, dest: SocketAddr, from: int) -> Option<int>
    decreases udp.len() - from,
{
    if from < 0 || from >= udp.len() {
        None
    } else if crate::conn::first_to(udp[from].from_local, dest, 0) is Some {
        Some(from)
    } else {
        first_sender(udp, dest, from + 1)
    }
}

/// Picks up the oldest packet to `addr` of the first socket that has sent one.
pub fn pop_latest_packet(st: &mut TestState, addr: SocketAddr) -> (r: Option<Packet>)
    requires
        old(st)@.wf(),
    ensures
        match first_sender(old(st)@.udp, addr, 0) {
            None => r is None && final(st)@ == old(st)@,
            Some(i) => {
                let u = old(st)@.udp[i];
                let k = crate::conn::first_to(u.from_local, addr, 0)->0;
                &&& r is Some
                &&& r->0@ == u.from_local[k]
                &&& final(st)@ == old(st)@.with_udp(
                    i,
                    UdpView { from_local: u.from_local.remove(k), ..u },
                )
            },
        },
        final(st)@.wf(),
{
    let mut i: usize = 0;
    while i < st.udp.len()
        invariant
            i <= st.udp@.len(),
            st@ == old(st)@,
            st@.wf(),
            first_sender(st@.udp, addr, 0) == first_sender(st@.udp, addr, i as int),
        decreases st.udp@.len() - i,
    {
        assert(st.udp@[i as int]@ == st@.udp[i as int]);
        match st.udp[i].position_to(addr) {
            Some(k) => {
                let ghost u = st@.udp[i as int];
                let r = st.udp[i].from_local.remove(k);
                assert(st@.udp =~= old(st)@.udp.update(
                    i as int,
                    UdpView { from_local: u.from_local.remove(k as int), ..u },
                )) by {
                    assert(st@.udp[i as int].from_local =~= u.from_local.remove(k as int));
                }
                return r;
            },
            None => {},
        }
        i += 1;
    }
    None
}

/// Whether some packet to `addr` has not been picked up.
pub fn has_pending_udp_packet(st: &TestState, addr: SocketAddr) -> (r: bool)
    ensures
        r == (first_sender(st@.udp, addr, 0) is Some),
{
    let mut i: usize = 0;
    while i < st.udp.len()
        invariant
            i <= st.udp@.len(),
            first_sender(st@.udp, addr, 0) == first_sender(st@.udp, addr, i as int),
        decreases st.udp@.len() - i,
    {
        assert(st.udp@[i as int]@ == st@.udp[i as int]);
        if st.udp[i].position_to(addr).is_some() {
            return true;
        }
        i += 1;
    }
    false
}

// ----- Readiness -----

/// What a poller sees of a listener.
#[derive(Clone, Copy, Debug, PartialEq, Eq, Structural)]
pub struct TcpListenerStatus {
    pub pending: bool,
    pub error: bool,
    pub closed: bool,
}

/// What a poller sees of a connection.
#[derive(Clone, Copy, Debug, PartialEq, Eq, Structural)]
pub struct TcpStreamStatus {
    pub readable: bool,
    pub writable: bool,
    pub error: bool,
    pub read_closed: bool,
    pub write_closed: bool,
}

/// What a poller sees of a UDP socket.
#[derive(Clone, Copy, Debug, PartialEq, Eq, Structural)]
pub struct UdpSocketStatus {
    pub readable: bool,
    pub writable: bool,
    pub error: bool,
    pub closed: bool,
}

impl StateView {
    /// What a poller sees of the listener at `addr`.
    pub open spec fn listener_status(self, addr: SocketAddr) -> Option<TcpListenerStatus> {
        match self.find_listener(addr) {
            Some(i) => {
                let l = self.listeners[i];
                Some(
                    TcpListenerStatus {
                        pending: l.pending.len() > 0,
                        error: l.error is Some,
                        closed: l.closed,
                    },
                )
            },
            None => None,
        }
    }

    /// What a poller sees of the end `id`. Bytes that wait are readable, unless
    /// a quiesce window hides them; an end whose other end exists is writable,
    /// unless it was shut down or a window hides it.
    pub open spec fn stream_status(self, now: nat, id: usize) -> Option<TcpStreamStatus> {
        if self.live(id) {
            let c = self.conn(id);
            let write_closed = c.write_shutdown || c.destroyed;
            Some(
                TcpStreamStatus {
                    readable: c.incoming.len() > 0 && !self.deaf(now, c.local_addr),
                    writable: !write_closed && c.peer is Some && !self.mute(now, c.local_addr),
                    error: c.error is Some,
                    read_closed: c.read_shutdown || c.peer is None || c.destroyed,
                    write_closed,
                },
            )
        } else {
            None
        }
    }

    /// What a poller sees of the UDP socket at `addr`.
    pub open spec fn socket_status(self, now: nat, addr: SocketAddr) -> Option<UdpSocketStatus> {
        match self.find_udp(addr) {
            Some(i) => {
                let u = self.udp[i];
                Some(
                    UdpSocketStatus {
                        readable: u.to_local.len() > 0 && !self.deaf(now, addr),
                        writable: !u.destroyed && !self.mute(now, addr),
                        error: u.error is Some,
                        closed: u.destroyed,
                    },
                )
            },
            None => None,
        }
    }

    /// The state after a poller has looked at the end `id`: what has arrived can
    /// be read, and windows that have closed are forgotten.
    pub open spec fn with_stream_looked_at(self, now: nat, id: usize) -> StateView {
        if self.live(id) {
            self.with_tcp_released(now, id).pruned(now)
        } else {
            self
        }
    }

    /// The state after a poller has looked at the UDP socket at `addr`.
    pub open spec fn with_socket_looked_at(self, now: nat, addr: SocketAddr) -> StateView {
        self.with_udp_released(now, addr).pruned(now)
    }
}

impl StateView {
    /// When the window that is open for `addr` closes.
    pub open spec fn window_end(self, now: nat, addr: SocketAddr) -> Option<nat> {
        match self.window(now, addr) {
            Some(w) => Some(w.until@),
            None => None,
        }
    }

    /// When a poller sees something else of the end `id` by the passing of time
    /// alone: bytes arrive, or a window closes.
    pub open spec fn stream_change(self, now: nat, id: usize) -> Option<nat> {
        if self.live(id) {
            sooner(self.conn(id).next_time(), self.window_end(now, self.conn(id).local_addr))
        } else {
            None
        }
    }

    /// The same of the UDP socket at `addr`.
    pub open spec fn socket_change(self, now: nat, addr: SocketAddr) -> Option<nat> {
        match self.find_udp(addr) {
            Some(i) => sooner(self.udp[i].next_time(), self.window_end(now, addr)),
            None => None,
        }
    }
}

/// The sooner of a time and the end of the window that is open for `addr`.
fn sooner_window_end(st: &TestState, now: Now, addr: SocketAddr, t: Option<Instant>) -> (r: Option<
    Instant,
>)
    ensures
        opt_time(r) == sooner(opt_time(t), st@.window_end(now.mono@, addr)),
{
    match st.quiesce.get(&addr) {
        Some(w) => if w.until > now.mono {
            Some(sooner_of(t, w.until))
        } else {
            t
        },
        None => t,
    }
}

/// When a poller sees something else of the end `id` by the passing of time
/// alone.
pub fn next_stream_change(st: &TestState, now: Now, id: usize) -> (r: Option<Instant>)
    ensures
        opt_time(r) == st@.stream_change(now.mono@, id),
{
    if !st.is_live(id) {
        return None;
    }
    let c = st.tcp_connection(id);
    let t = if c.pending_inbound.len() > 0 {
        assert(c@.pending[0] == c.pending_inbound@[0]@);
        Some(c.pending_inbound[0].at)
    } else {
        None
    };
    sooner_window_end(st, now, c.local_addr, t)
}

/// When a poller sees something else of the UDP socket at `addr` by the passing
/// of time alone.
pub fn next_socket_change(st: &TestState, now: Now, addr: SocketAddr) -> (r: Option<Instant>)
    ensures
        opt_time(r) == st@.socket_change(now.mono@, addr),
{
    match st.find_udp(addr) {
        Some(i) => sooner_window_end(st, now, addr, st.udp_connection(i).next_time()),
        None => None,
    }
}

/// The sooner of two times, where there are any.
pub fn soonest_of(a: Option<Instant>, b: Option<Instant>) -> (r: Option<Instant>)
    ensures
        opt_time(r) == sooner(opt_time(a), opt_time(b)),
{
    match b {
        Some(b) => Some(sooner_of(a, b)),
        None => a,
    }
}

/// What a poller sees of the listener at `addr`.
pub fn tcp_listener_status(st: &TestState, addr: SocketAddr) -> (r: Option<TcpListenerStatus>)
    ensures
        r == st@.listener_status(addr),
{
    match st.find_listener(addr) {
        Some(i) => {
            let l = st.tcp_listener(i);
            Some(
                TcpListenerStatus {
                    pending: l.pending_streams.len() > 0,
                    error: l.error.is_some(),
                    closed: l.is_closed,
                },
            )
        },
        None => None,
    }
}

/// What a poller sees of the end `id`.
pub fn tcp_stream_status(st: &mut TestState, now: Now, id: usize) -> (r: Option<TcpStreamStatus>)
    requires
        old(st)@.wf(),
    ensures
        final(st)@ == old(st)@.with_stream_looked_at(now.mono@, id),
        final(st)@.wf(),
        r == final(st)@.stream_status(now.mono@, id),
{
    if !st.is_live(id) {
        return None;
    }
    proof {
        lemma_released_keeps(st@.conn(id), now.mono@);
    }
    release_pending_for_tcp(st, now, id);
    let ghost released = st@;
    let addr = st.tcp_connection(id).local_addr;
    let inbound_quiesced = is_quiesced_inbound(st, now, addr);
    let outbound_quiesced = is_quiesced_outbound(st, now, addr);
    assert(st@.quiesce =~= released.pruned(now.mono@).quiesce);
    let c = st.tcp_connection(id);
    let read_closed = c.read_shutdown || c.peer_stream_id.is_none() || c.is_destroyed;
    let write_closed = c.write_shutdown || c.is_destroyed;
    Some(
        TcpStreamStatus {
            readable: c.incoming.len() > 0 && !inbound_quiesced,
            writable: !write_closed && c.peer_stream_id.is_some() && !outbound_quiesced,
            error: c.external_error.is_some(),
            read_closed,
            write_closed,
        },
    )
}

/// What a poller sees of the UDP socket at `addr`.
pub fn udp_socket_status(st: &mut TestState, now: Now, addr: SocketAddr) -> (r: Option<
    UdpSocketStatus,
>)
    requires
        old(st)@.wf(),
    ensures
        final(st)@ == old(st)@.with_socket_looked_at(now.mono@, addr),
        final(st)@.wf(),
        r == final(st)@.socket_status(now.mono@, addr),
{
    release_pending_for_udp(st, now, addr);
    let ghost released = st@;
    let inbound_quiesced = is_quiesced_inbound(st, now, addr);
    let outbound_quiesced = is_quiesced_outbound(st, now, addr);
    assert(st@.quiesce =~= released.pruned(now.mono@).quiesce);
    match st.find_udp(addr) {
        Some(i) => {
            let u = st.udp_connection(i);
            Some(
                UdpSocketStatus {
                    readable: u.to_local.len() > 0 && !inbound_quiesced,
                    writable: !u.is_destroyed && !outbound_quiesced,
                    error: u.external_error.is_some(),
                    closed: u.is_destroyed,
                },
            )
        },
        None => None,
    }
}

// ----- The test's side of a connection -----

/// Whether some end at `addr` has bytes to be read.
pub open spec fn has_data_at(tcp: Seq<Option<TcpView>>, addr: SocketAddr) -> bool {
    exists|i: int|
        0 <= i < tcp.len() && (#[trigger] tcp[i]) is Some && tcp[i]->0.local_addr == addr
            && tcp[i]->0.incoming.len() > 0
}

impl StateView {
    /// The first `amount` bytes that wait at the end `id` have been used up.
    pub open spec fn with_consumed(self, id: usize, amount: nat) -> StateView {
        if self.live(id) {
            let c = self.conn(id);
            self.with_conn(
                id,
                TcpView {
                    incoming: if amount < c.incoming.len() {
                        c.incoming.skip(amount as int)
                    } else {
                        Seq::empty()
                    },
                    ..c
                },
            )
        } else {
            self
        }
    }
}

/// Whether some end at `addr` has bytes to be read.
pub fn has_pending_tcp_data(st: &TestState, addr: SocketAddr) -> (r: bool)
    ensures
        r == has_data_at(st@.tcp, addr),
{
    let mut i: usize = 0;
    while i < st.tcp.len()
        invariant
            i <= st.tcp@.len(),
            forall|j: int|
                0 <= j < i ==> !((#[trigger] st@.tcp[j]) is Some && st@.tcp[j]->0.local_addr == addr
                    && st@.tcp[j]->0.incoming.len() > 0),
        decreases st.tcp@.len() - i,
    {
        assert(tcp_slot(st.tcp@[i as int]) == st@.tcp[i as int]);
        match &st.tcp[i] {
            Some(c) => {
                if c.local_addr == addr && c.incoming.len() > 0 {
                    assert(st@.tcp[i as int] is Some);
                    return true;
                }
            },
            None => {},
        }
        i += 1;
    }
    false
}

/// The peer's address of the end `id`.
pub fn tcp_connection_peer_addr(st: &TestState, id: usize) -> (r: SocketAddr)
    requires
        st@.live(id),
    ensures
        r == st@.conn(id).peer_addr,
{
    st.tcp_connection(id).peer_addr
}

/// A copy of the bytes that wait at the end `id`.
pub fn peek_tcp_stream_data(st: &TestState, id: usize) -> (r: Vec<u8>)
    requires
        st@.live(id),
    ensures
        r@ == st@.conn(id).incoming,
{
    let c = st.tcp_connection(id);
    let r = c.look(c.incoming.len());
    assert(r@ =~= c@.incoming);
    r
}

/// Uses up the first `amount` bytes that wait at the end `id`.
pub fn consume_tcp_stream_data(st: &mut TestState, id: usize, amount: usize)
    requires
        old(st)@.wf(),
    ensures
        final(st)@ == old(st)@.with_consumed(id, amount as nat),
        final(st)@.wf(),
{
    if !st.is_live(id) {
        return ;
    }
    assert(tcp_slot(st.tcp@[id as int]) == st@.tcp[id as int]);
    match &mut st.tcp[id] {
        Some(c) => {
            let ghost before = c@;
            let used = c.take(amount);
            assert(c@.incoming =~= if amount < before.incoming.len() {
                before.incoming.skip(amount as int)
            } else {
                Seq::empty()
            });
        },
        None => {},
    }
    assert(st@.tcp =~= old(st)@.with_consumed(id, amount as nat).tcp);
    proof {
        lemma_peer(old(st)@, id);
        lemma_conn_changed(old(st)@, id, st@.conn(id));
    }
}

// ----- The clock -----

/// Runs the virtual clock at another rate from now on: zero pauses it, more
/// than one makes it run fast.
pub fn set_time_rate(st: &mut TestState, now: Now, rate: TimeRate)
    requires
        old(st)@.wf(),
    ensures
        final(st)@ == (StateView {
            clock: old(st)@.clock.with_rate(now.mono@, rate.numerator(), rate.denominator()),
            ..old(st)@
        }).woken(),
        final(st)@.wf(),
{
    proof {
        use_type_invariant(&rate);
    }
    st.clock.set_rate(now.mono, rate);
    st.signal.raise();
}

/// Stops the virtual clock.
pub fn pause_time(st: &mut TestState, now: Now)
    requires
        old(st)@.wf(),
    ensures
        final(st)@ == (StateView {
            clock: old(st)@.clock.with_rate(now.mono@, 0, 1),
            ..old(st)@
        }).woken(),
        final(st)@.wf(),
{
    set_time_rate(st, now, TimeRate::paused());
}

/// Lets the virtual clock run in real time.
pub fn resume_time(st: &mut TestState, now: Now)
    requires
        old(st)@.wf(),
    ensures
        final(st)@ == (StateView {
            clock: old(st)@.clock.with_rate(now.mono@, 1, 1),
            ..old(st)@
        }).woken(),
        final(st)@.wf(),
{
    set_time_rate(st, now, TimeRate::real_time());
}

/// Pushes the virtual clock forward, whether or not it runs.
pub fn advance_time(st: &mut TestState, by: Duration)
    requires
        old(st)@.wf(),
    ensures
        final(st)@ == (StateView { clock: old(st)@.clock.advanced(by@), ..old(st)@ }).woken(),
        final(st)@.wf(),
{
    st.clock.advance(by);
    st.signal.raise();
}

/// Sets the virtual clock.
pub fn set_time_value(st: &mut TestState, now: Now, value: Duration)
    requires
        old(st)@.wf(),
    ensures
        final(st)@ == (StateView {
            clock: old(st)@.clock.set_to(now.mono@, value@),
            ..old(st)@
        }).woken(),
        final(st)@.wf(),
{
    st.clock.set_value(now.mono, value);
    st.signal.raise();
}

/// The rate at which the virtual clock runs.
pub fn time_rate(st: &TestState) -> (r: TimeRate)
    ensures
        r.numerator() == st@.clock.num,
        r.denominator() == st@.clock.den,
{
    st.clock.rate()
}

/// What the virtual clock reads.
pub fn time_value(st: &TestState, now: Now) -> (r: Duration)
    ensures
        r@ == st@.clock.mono(now.mono@),
{
    clock_mono_now(st, now)
}

/// What the virtual monotonic clock reads.
pub fn clock_mono_now(st: &TestState, now: Now) -> (r: Duration)
    ensures
        r@ == st@.clock.mono(now.mono@),
{
    st.clock.mono_now(now.mono)
}

/// What the virtual wall clock reads.
pub fn clock_wall_now(st: &TestState, now: Now) -> (r: SystemTime)
    ensures
        r@ == st@.clock.wall(now.mono@),
{
    st.clock.wall_now(now.mono)
}

/// The test's virtual clock.
pub fn clock(st: &TestState) -> (r: &Clock)
    ensures
        r@ == st@.clock,
{
    &st.clock
}

/// What someone who sleeps until the virtual clock reads `target` does next.
pub fn virtual_sleep(st: &TestState, now: Now, target: Duration) -> (r: SleepStep)
    ensures
        r@ == st@.clock.sleep(now.mono@, target@),
{
    st.clock.sleep_step(now.mono, target)
}

} // verus!
