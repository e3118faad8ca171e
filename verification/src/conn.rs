//! The sockets of a test's network: what each of them holds.

use crate::addr::SocketAddr;
use crate::error::{opt_error, Error, ErrorView};
use crate::time::{Duration, Instant};
use std::collections::VecDeque;
use vstd::prelude::*;

verus! {

// ----- TCP -----

/// Bytes on their way, and when they arrive.
#[derive(Debug)]
pub struct Chunk {
    pub at: Instant,
    pub data: Vec<u8>,
}

pub struct ChunkView {
    pub at: Instant,
    pub data: Seq<u8>,
}

impl Chunk {
    pub open spec fn view(&self) -> ChunkView {
        ChunkView { at: self.at, data: self.data@ }
    }
}

/// One end of a TCP connection.
#[derive(Debug)]
pub struct TcpConnection {
    pub local_addr: SocketAddr,
    pub peer_addr: SocketAddr,
    /// Bytes that can be read.
    pub incoming: VecDeque<u8>,
    /// Bytes that are still on their way.
    pub pending_inbound: VecDeque<Chunk>,
    pub read_shutdown: bool,
    pub write_shutdown: bool,
    pub external_error: Option<Error>,
    /// The other end, while it exists.
    pub peer_stream_id: Option<usize>,
    pub nonblocking: bool,
    pub nodelay: bool,
    pub ttl: u32,
    pub linger: Option<Duration>,
    pub read_timeout: Option<Duration>,
    pub write_timeout: Option<Duration>,
    /// How many handles share this end.
    pub ref_count: usize,
    /// Whether the local port is given back when this end goes.
    pub owns_port: bool,
    pub is_destroyed: bool,
    /// The next read or write fails with a connection reset.
    pub reset_pending: bool,
}

#[verifier::ext_equal]
pub struct TcpView {
    pub local_addr: SocketAddr,
    pub peer_addr: SocketAddr,
    pub incoming: Seq<u8>,
    pub pending: Seq<ChunkView>,
    pub read_shutdown: bool,
    pub write_shutdown: bool,
    pub error: Option<ErrorView>,
    pub peer: Option<usize>,
    pub nonblocking: bool,
    pub nodelay: bool,
    pub ttl: u32,
    pub linger: Option<Duration>,
    pub read_timeout: Option<Duration>,
    pub write_timeout: Option<Duration>,
    pub refs: usize,
    pub owns_port: bool,
    pub destroyed: bool,
    pub reset_pending: bool,
}

/// How many bytes a run of chunks holds.
pub open spec fn chunk_bytes(chunks: Seq<ChunkView>) -> nat
    decreases chunks.len(),
{
    if chunks.len() == 0 {
        0
    } else {
        chunk_bytes(chunks.drop_last()) + chunks.last().data.len()
    }
}

impl TcpView {
    /// A connection's end as it comes into being.
    pub open spec fn fresh(local_addr: SocketAddr, peer_addr: SocketAddr, owns_port: bool) -> TcpView {
        TcpView {
            local_addr,
            peer_addr,
            incoming: Seq::empty(),
            pending: Seq::empty(),
            read_shutdown: false,
            write_shutdown: false,
            error: None,
            peer: None,
            nonblocking: false,
            nodelay: false,
            ttl: 64,
            linger: None,
            read_timeout: None,
            write_timeout: None,
            refs: 1,
            owns_port,
            destroyed: false,
            reset_pending: false,
        }
    }

    /// The end has the one handle and the options that it came into being with.
    pub open spec fn is_as_made(self) -> bool {
        &&& self.refs == 1
        &&& !self.nonblocking
        &&& !self.nodelay
        &&& self.ttl == 64
        &&& self.linger is None
        &&& self.read_timeout is None
        &&& self.write_timeout is None
        &&& !self.write_shutdown
    }

    /// The end has the handles and the options of `c`.
    pub open spec fn is_set_as(self, c: TcpView) -> bool {
        &&& self.refs == c.refs
        &&& self.nonblocking == c.nonblocking
        &&& self.nodelay == c.nodelay
        &&& self.ttl == c.ttl
        &&& self.linger == c.linger
        &&& self.read_timeout == c.read_timeout
        &&& self.write_timeout == c.write_timeout
        &&& self.write_shutdown == c.write_shutdown
    }

    /// How many bytes wait to be read or are on their way.
    pub open spec fn queued(self) -> nat {
        self.incoming.len() + chunk_bytes(self.pending)
    }

    /// When more bytes become readable: at the earliest when the chunk at the
    /// head of the queue arrives.
    pub open spec fn next_time(self) -> Option<nat> {
        if self.pending.len() > 0 {
            Some(self.pending[0].at@)
        } else {
            None
        }
    }

    /// The end after the chunks at the head of the queue that have arrived by
    /// `now` have become readable. A chunk that has not arrived holds up those
    /// behind it.
    pub open spec fn released(self, now: nat) -> TcpView
        decreases self.pending.len(),
    {
        if self.pending.len() > 0 && self.pending[0].at@ <= now {
            TcpView {
                incoming: self.incoming + self.pending[0].data,
                pending: self.pending.drop_first(),
                ..self
            }.released(now)
        } else {
            self
        }
    }

    /// Whether some chunk becomes readable at `now`.
    pub open spec fn due(self, now: nat) -> bool {
        self.pending.len() > 0 && self.pending[0].at@ <= now
    }

    /// The end after `data` was sent to it at `now` over a link with latency
    /// `latency`.
    pub open spec fn with_sent(self, now: Instant, latency: Duration, data: Seq<u8>) -> TcpView {
        if latency@ == 0 {
            TcpView { incoming: self.incoming + data, ..self }
        } else {
            TcpView {
                pending: self.pending.push(ChunkView { at: now.later(latency), data }),
                ..self
            }
        }
    }
}

/// Appends a run of bytes to a queue.
pub fn extend(q: &mut VecDeque<u8>, data: &[u8])
    ensures
        final(q)@ == old(q)@ + data@,
{
    let mut i: usize = 0;
    while i < data.len()
        invariant
            i <= data@.len(),
            q@ == old(q)@ + data@.take(i as int),
        decreases data@.len() - i,
    {
        q.push_back(data[i]);
        i += 1;
        assert(data@.take(i as int) =~= data@.take(i - 1).push(data@[i - 1]));
    }
    assert(data@.take(i as int) =~= data@);
}

impl TcpConnection {
    pub open spec fn view(&self) -> TcpView {
        TcpView {
            local_addr: self.local_addr,
            peer_addr: self.peer_addr,
            incoming: self.incoming@,
            pending: self.pending_inbound@.map_values(|c: Chunk| c@),
            read_shutdown: self.read_shutdown,
            write_shutdown: self.write_shutdown,
            error: opt_error(self.external_error),
            peer: self.peer_stream_id,
            nonblocking: self.nonblocking,
            nodelay: self.nodelay,
            ttl: self.ttl,
            linger: self.linger,
            read_timeout: self.read_timeout,
            write_timeout: self.write_timeout,
            refs: self.ref_count,
            owns_port: self.owns_port,
            destroyed: self.is_destroyed,
            reset_pending: self.reset_pending,
        }
    }

    pub fn new(local_addr: SocketAddr, peer_addr: SocketAddr, owns_port: bool) -> (r: TcpConnection)
        ensures
            r@ == TcpView::fresh(local_addr, peer_addr, owns_port),
    {
        TcpConnection {
            local_addr,
            peer_addr,
            incoming: VecDeque::new(),
            pending_inbound: VecDeque::new(),
            read_shutdown: false,
            write_shutdown: false,
            external_error: None,
            peer_stream_id: None,
            nonblocking: false,
            nodelay: false,
            ttl: 64,
            linger: None,
            read_timeout: None,
            write_timeout: None,
            ref_count: 1,
            owns_port,
            is_destroyed: false,
            reset_pending: false,
        }
    }

    /// How many bytes wait to be read or are on their way.
    pub fn queued(&self) -> (r: u128)
        ensures
            r == self@.queued(),
            r <= 0x1_0000_0000_0000_0000 * 0xffff_ffff_ffff_ffff,
    {
        let n: usize = self.pending_inbound.len();
        let mut total: u128 = 0;
        let mut i: usize = 0;
        let ghost chunks = self@.pending;
        while i < n
            invariant
                i <= n,
                n == self.pending_inbound@.len(),
                chunks == self.pending_inbound@.map_values(|c: Chunk| c@),
                total == chunk_bytes(chunks.take(i as int)),
                total <= i * 0xffff_ffff_ffff_ffff,
            decreases n - i,
        {
            assert(total + 0xffff_ffff_ffff_ffff <= (i + 1) * 0xffff_ffff_ffff_ffff);
            assert((i + 1) * 0xffff_ffff_ffff_ffff <= 0xffff_ffff_ffff_ffff * 0xffff_ffff_ffff_ffff)
                by (nonlinear_arith)
                requires
                    i + 1 <= 0xffff_ffff_ffff_ffff,
            ;
            assert(chunks.take(i + 1).drop_last() =~= chunks.take(i as int));
            assert(chunks.take(i + 1).last() == self.pending_inbound@[i as int]@);
            total = total + self.pending_inbound[i].data.len() as u128;
            i += 1;
        }
        assert(chunks.take(n as int) =~= chunks);
        assert(n * 0xffff_ffff_ffff_ffff <= 0xffff_ffff_ffff_ffff * 0xffff_ffff_ffff_ffff)
            by (nonlinear_arith)
            requires
                n <= 0xffff_ffff_ffff_ffff,
        ;
        total + self.incoming.len() as u128
    }

    /// Makes the bytes readable that have arrived by `now`. Tells whether there
    /// were any chunks to release.
    pub fn release(&mut self, now: Instant) -> (r: bool)
        ensures
            final(self)@ == old(self)@.released(now@),
            r == old(self)@.due(now@),
    {
        let ghost start = self@;
        let mut released = false;
        while self.pending_inbound.len() > 0 && self.pending_inbound[0].at <= now
            invariant
                self@.released(now@) == start.released(now@),
                released || self@ == start,
                released ==> start.due(now@),
            decreases self.pending_inbound@.len(),
        {
            let ghost before = self@;
            match self.pending_inbound.pop_front() {
                Some(chunk) => {
                    extend(&mut self.incoming, chunk.data.as_slice());
                    assert(self@.pending =~= before.pending.drop_first());
                    assert(self@ == (TcpView {
                        incoming: before.incoming + before.pending[0].data,
                        pending: before.pending.drop_first(),
                        ..before
                    }));
                },
                None => {},
            }
            released = true;
        }
        released
    }

    /// Queues `data` that was sent at `now` over a link with latency `latency`.
    pub fn deliver(&mut self, now: Instant, latency: Duration, data: &[u8])
        ensures
            final(self)@ == old(self)@.with_sent(now, latency, data@),
    {
        if latency.is_zero() {
            extend(&mut self.incoming, data);
        } else {
            let at = now.saturating_add(latency);
            let chunk = Chunk { at, data: crate::bytes::copy_of(data) };
            self.pending_inbound.push_back(chunk);
            assert(self@.pending =~= old(self)@.pending.push(chunk@));
        }
    }

    /// Takes up to `len` bytes off the queue.
    pub fn take(&mut self, len: usize) -> (r: Vec<u8>)
        ensures
            ({
                let n = if len < old(self)@.incoming.len() {
                    len as int
                } else {
                    old(self)@.incoming.len() as int
                };
                &&& r@ == old(self)@.incoming.take(n)
                &&& final(self)@ == (TcpView {
                    incoming: old(self)@.incoming.skip(n),
                    ..old(self)@
                })
            }),
    {
        let ghost all = self@.incoming;
        let mut out: Vec<u8> = Vec::new();
        while out.len() < len && self.incoming.len() > 0
            invariant
                out@.len() <= len,
                out@.len() <= all.len(),
                out@ == all.take(out@.len() as int),
                self@ == (TcpView { incoming: all.skip(out@.len() as int), ..old(self)@ }),
            decreases self.incoming@.len(),
        {
            match self.incoming.pop_front() {
                Some(byte) => {
                    out.push(byte);
                    assert(out@ =~= all.take(out@.len() as int));
                    assert(self@.incoming =~= all.skip(out@.len() as int));
                },
                None => {},
            }
        }
        out
    }

    /// Copies up to `len` bytes from the head of the queue.
    pub fn look(&self, len: usize) -> (r: Vec<u8>)
        ensures
            r@ == self@.incoming.take(
                if len < self@.incoming.len() {
                    len as int
                } else {
                    self@.incoming.len() as int
                },
            ),
    {
        let mut out: Vec<u8> = Vec::new();
        while out.len() < len && out.len() < self.incoming.len()
            invariant
                out@.len() <= len,
                out@.len() <= self@.incoming.len(),
                out@ == self@.incoming.take(out@.len() as int),
            decreases self@.incoming.len() - out@.len(),
        {
            out.push(self.incoming[out.len()]);
            assert(out@ =~= self@.incoming.take(out@.len() as int));
        }
        out
    }
}

// ----- Listeners -----

/// A TCP listener.
#[derive(Debug)]
pub struct TcpListenerState {
    pub bound_addr: SocketAddr,
    /// Connections that wait to be accepted.
    pub pending_streams: VecDeque<usize>,
    pub nonblocking: bool,
    pub error: Option<Error>,
    pub is_closed: bool,
    /// How many handles share this listener.
    pub ref_count: usize,
}

#[verifier::ext_equal]
pub struct ListenerView {
    pub addr: SocketAddr,
    pub pending: Seq<usize>,
    pub nonblocking: bool,
    pub error: Option<ErrorView>,
    pub closed: bool,
    pub refs: usize,
}

impl ListenerView {
    pub open spec fn fresh(addr: SocketAddr) -> ListenerView {
        ListenerView {
            addr,
            pending: Seq::empty(),
            nonblocking: false,
            error: None,
            closed: false,
            refs: 1,
        }
    }
}

impl TcpListenerState {
    pub open spec fn view(&self) -> ListenerView {
        ListenerView {
            addr: self.bound_addr,
            pending: self.pending_streams@,
            nonblocking: self.nonblocking,
            error: opt_error(self.error),
            closed: self.is_closed,
            refs: self.ref_count,
        }
    }

    pub fn new(addr: SocketAddr) -> (r: TcpListenerState)
        ensures
            r@ == ListenerView::fresh(addr),
    {
        TcpListenerState {
            bound_addr: addr,
            pending_streams: VecDeque::new(),
            nonblocking: false,
            error: None,
            is_closed: false,
            ref_count: 1,
        }
    }
}

// ----- UDP -----

/// A datagram.
#[derive(Debug)]
pub struct Packet {
    pub data: Vec<u8>,
    pub dest: SocketAddr,
    pub source: SocketAddr,
}

pub struct PacketView {
    pub data: Seq<u8>,
    pub dest: SocketAddr,
    pub source: SocketAddr,
}

impl Packet {
    pub open spec fn view(&self) -> PacketView {
        PacketView { data: self.data@, dest: self.dest, source: self.source }
    }
}

/// A datagram on its way, and when it arrives.
#[derive(Debug)]
pub struct DelayedPacket {
    pub at: Instant,
    pub packet: Packet,
}

pub struct DelayedView {
    pub at: Instant,
    pub packet: PacketView,
}

impl DelayedPacket {
    pub open spec fn view(&self) -> DelayedView {
        DelayedView { at: self.at, packet: self.packet@ }
    }
}

/// An option of a UDP socket.
#[derive(Clone, Copy, Debug, PartialEq, Eq, Structural)]
pub enum UdpConfigs {
    ReadTimeout(Duration),
    WriteTimeout(Duration),
    Broadcast,
    Ipv4MulticastLoop,
    Ipv6MulticastLoop,
    IpMulticastTtl(u32),
    IpTtl(u32),
    NonBlocking,
}

/// A UDP socket.
#[derive(Debug)]
pub struct UdpConnection {
    pub bound_addr: SocketAddr,
    /// Datagrams that were sent and that nobody has picked up yet.
    pub from_local: VecDeque<Packet>,
    /// Datagrams that can be received.
    pub to_local: VecDeque<Packet>,
    /// Datagrams that are still on their way.
    pub pending_inbound: VecDeque<DelayedPacket>,
    pub external_error: Option<Error>,
    pub is_destroyed: bool,
    /// The address that the socket is connected to.
    pub remote_addr: Option<SocketAddr>,
    pub configs: Vec<UdpConfigs>,
}

#[verifier::ext_equal]
pub struct UdpView {
    pub addr: SocketAddr,
    pub from_local: Seq<PacketView>,
    pub to_local: Seq<PacketView>,
    pub pending: Seq<DelayedView>,
    pub error: Option<ErrorView>,
    pub destroyed: bool,
    pub remote: Option<SocketAddr>,
    pub configs: Seq<UdpConfigs>,
}

/// The first packet that is to go to `dest`, at or behind `from`.
pub open spec fn first_to(q: Seq<PacketView>, dest: SocketAddr, from: int) -> Option<int>
    decreases q.len() - from,
{
    if from < 0 || from >= q.len() {
        None
    } else if q[from].dest == dest {
        Some(from)
    } else {
        first_to(q, dest, from + 1)
    }
}

/// The first packet that came from `source`, at or behind `from`.
pub open spec fn first_of(q: Seq<PacketView>, source: SocketAddr, from: int) -> Option<int>
    decreases q.len() - from,
{
    if from < 0 || from >= q.len() {
        None
    } else if q[from].source == source {
        Some(from)
    } else {
        first_of(q, source, from + 1)
    }
}

/// Which of the first `n` packets under way arrives first. Of several that
/// arrive together, the one that was sent first.
pub open spec fn soonest(q: Seq<DelayedView>, n: int) -> int
    decreases n,
{
    if n <= 1 {
        0
    } else {
        let k = soonest(q, n - 1);
        if q[n - 1].at@ < q[k].at@ {
            n - 1
        } else {
            k
        }
    }
}

pub proof fn lemma_soonest(q: Seq<DelayedView>, n: int)
    requires
        1 <= n <= q.len(),
    ensures
        0 <= soonest(q, n) < n,
        forall|i: int| 0 <= i < n ==> q[soonest(q, n)].at@ <= (#[trigger] q[i]).at@,
        forall|i: int| 0 <= i < soonest(q, n) ==> q[soonest(q, n)].at@ < (#[trigger] q[i]).at@,
    decreases n,
{
    if n > 1 {
        lemma_soonest(q, n - 1);
    }
}

impl UdpView {
    pub open spec fn fresh(addr: SocketAddr) -> UdpView {
        UdpView {
            addr,
            from_local: Seq::empty(),
            to_local: Seq::empty(),
            pending: Seq::empty(),
            error: None,
            destroyed: false,
            remote: None,
            configs: Seq::empty(),
        }
    }

    /// The packet that arrives next can be received.
    pub open spec fn with_next_arrived(self) -> UdpView {
        let k = soonest(self.pending, self.pending.len() as int);
        UdpView {
            to_local: self.to_local.push(self.pending[k].packet),
            pending: self.pending.remove(k),
            ..self
        }
    }

    /// The socket after all packets that have arrived by `now` can be received,
    /// in the order in which they arrived.
    pub open spec fn released(self, now: nat) -> UdpView
        decreases self.pending.len(),
    {
        if self.due(now) {
            proof {
                lemma_soonest(self.pending, self.pending.len() as int);
            }
            self.with_next_arrived().released(now)
        } else {
            self
        }
    }

    /// When the next packet under way arrives.
    pub open spec fn next_time(self) -> Option<nat> {
        let n = self.pending.len() as int;
        if n > 0 {
            Some(self.pending[soonest(self.pending, n)].at@)
        } else {
            None
        }
    }

    /// Whether some packet has arrived by `now`.
    pub open spec fn due(self, now: nat) -> bool {
        let n = self.pending.len() as int;
        n > 0 && self.pending[soonest(self.pending, n)].at@ <= now
    }

    /// The socket after `packet` was sent to it with a delay.
    pub open spec fn with_sent(self, now: Instant, delay: Duration, packet: PacketView) -> UdpView {
        if delay@ == 0 {
            UdpView { to_local: self.to_local.push(packet), ..self }
        } else {
            UdpView { pending: self.pending.push(DelayedView { at: now.later(delay), packet }), ..self }
        }
    }
}

impl UdpConnection {
    pub open spec fn view(&self) -> UdpView {
        UdpView {
            addr: self.bound_addr,
            from_local: self.from_local@.map_values(|p: Packet| p@),
            to_local: self.to_local@.map_values(|p: Packet| p@),
            pending: self.pending_inbound@.map_values(|p: DelayedPacket| p@),
            error: opt_error(self.external_error),
            destroyed: self.is_destroyed,
            remote: self.remote_addr,
            configs: self.configs@,
        }
    }

    pub fn new(addr: SocketAddr) -> (r: UdpConnection)
        ensures
            r@ == UdpView::fresh(addr),
    {
        UdpConnection {
            bound_addr: addr,
            from_local: VecDeque::new(),
            to_local: VecDeque::new(),
            pending_inbound: VecDeque::new(),
            external_error: None,
            is_destroyed: false,
            remote_addr: None,
            configs: Vec::new(),
        }
    }

    /// Which packet under way arrives next.
    fn next_arrival(&self) -> (r: usize)
        requires
            self.pending_inbound@.len() > 0,
        ensures
            r == soonest(self@.pending, self@.pending.len() as int),
            r < self.pending_inbound@.len(),
    {
        let mut k: usize = 0;
        let mut i: usize = 1;
        while i < self.pending_inbound.len()
            invariant
                1 <= i <= self.pending_inbound@.len(),
                k < i,
                k == soonest(self@.pending, i as int),
            decreases self.pending_inbound@.len() - i,
        {
            assert(self@.pending[i as int] == self.pending_inbound@[i as int]@);
            assert(self@.pending[k as int] == self.pending_inbound@[k as int]@);
            if self.pending_inbound[i].at < self.pending_inbound[k].at {
                k = i;
            }
            i += 1;
        }
        k
    }

    /// When the next packet under way arrives.
    pub fn next_time(&self) -> (r: Option<Instant>)
        ensures
            match r {
                Some(t) => self@.next_time() == Some(t@),
                None => self@.next_time() is None,
            },
    {
        if self.pending_inbound.len() == 0 {
            return None;
        }
        let k: usize = self.next_arrival();
        assert(self@.pending[k as int] == self.pending_inbound@[k as int]@);
        Some(self.pending_inbound[k].at)
    }

    /// Makes the packets receivable that have arrived by `now`. Tells whether
    /// there were any.
    pub fn release(&mut self, now: Instant) -> (r: bool)
        ensures
            final(self)@ == old(self)@.released(now@),
            r == old(self)@.due(now@),
    {
        let ghost start = self@;
        let mut released = false;
        while self.pending_inbound.len() > 0
            invariant_except_break
                self@.released(now@) == start.released(now@),
                released || self@ == start,
                released ==> start.due(now@),
            ensures
                self@ == start.released(now@),
                released == start.due(now@),
            decreases self.pending_inbound@.len(),
        {
            let k: usize = self.next_arrival();
            let ghost before = self@;
            assert(before.pending[k as int] == self.pending_inbound@[k as int]@);
            if self.pending_inbound[k].at > now {
                break;
            }
            match self.pending_inbound.remove(k) {
                Some(delayed) => {
                    self.to_local.push_back(delayed.packet);
                    assert(self@.to_local =~= before.with_next_arrived().to_local);
                    assert(self@.pending =~= before.with_next_arrived().pending);
                    assert(self@ =~= before.with_next_arrived());
                },
                None => {},
            }
            released = true;
        }
        released
    }

    /// Queues a packet that was sent at `now` with a delay.
    pub fn deliver(&mut self, now: Instant, delay: Duration, packet: Packet)
        ensures
            final(self)@ == old(self)@.with_sent(now, delay, packet@),
    {
        if delay.is_zero() {
            self.to_local.push_back(packet);
            assert(self@.to_local =~= old(self)@.to_local.push(packet@));
        } else {
            let delayed = DelayedPacket { at: now.saturating_add(delay), packet };
            self.pending_inbound.push_back(delayed);
            assert(self@.pending =~= old(self)@.pending.push(delayed@));
        }
    }

    /// Where the first packet to `dest` stands in the send queue.
    pub fn position_to(&self, dest: SocketAddr) -> (r: Option<usize>)
        ensures
            match r {
                Some(i) => i < self.from_local@.len() && first_to(self@.from_local, dest, 0)
                    == Some(i as int),
                None => first_to(self@.from_local, dest, 0) is None,
            },
    {
        let mut i: usize = 0;
        while i < self.from_local.len()
            invariant
                i <= self.from_local@.len(),
                first_to(self@.from_local, dest, 0) == first_to(self@.from_local, dest, i as int),
            decreases self.from_local@.len() - i,
        {
            assert(self@.from_local[i as int] == self.from_local@[i as int]@);
            if self.from_local[i].dest == dest {
                return Some(i);
            }
            i += 1;
        }
        None
    }

    /// Where the first packet from `source` stands in the receive queue.
    pub fn position_of(&self, source: SocketAddr) -> (r: Option<usize>)
        ensures
            match r {
                Some(i) => i < self.to_local@.len() && first_of(self@.to_local, source, 0) == Some(
                    i as int,
                ),
                None => first_of(self@.to_local, source, 0) is None,
            },
    {
        let mut i: usize = 0;
        while i < self.to_local.len()
            invariant
                i <= self.to_local@.len(),
                first_of(self@.to_local, source, 0) == first_of(self@.to_local, source, i as int),
            decreases self.to_local@.len() - i,
        {
            assert(self@.to_local[i as int] == self.to_local@[i as int]@);
            if self.to_local[i].source == source {
                return Some(i);
            }
            i += 1;
        }
        None
    }
}

} // verus!
