//! What reading, writing and closing come to, call by call.

use crate::addr::SocketAddr;
use crate::conn::TcpView;
use crate::error::{Error, ErrorKind, ErrorView};
use crate::record::RecordedEvent;
use crate::shim_std_tcp::{
    read_effect, read_into, read_outcome, read_state, wait_step, wait_target, write_begin,
    write_outcome, writes, Lingering, ReadStep, WaitStep, WriteStep, Writing,
};
use crate::state::{first_tcp, lemma_peer, Now, StateView, Which};
use crate::stream_laws::content;
use crate::time::{Duration, Instant, MAX_NANOS};
use crate::SocketType;
use vstd::prelude::*;

verus! {

// ----- Which end is meant -----

/// The oldest end that is meant is found where there is one.
pub proof fn law_oldest_end_is_found(tcp: Seq<Option<TcpView>>, which: Which, from: int)
    requires
        0 <= from,
    ensures
        match first_tcp(tcp, which, from) {
            Some(k) => {
                &&& from <= k < tcp.len()
                &&& tcp[k] is Some && is_meant(which, tcp[k]->0)
                &&& forall|j: int|
                    from <= j < k ==> !((#[trigger] tcp[j]) is Some && is_meant(which, tcp[j]->0))
            },
            None => forall|j: int|
                from <= j < tcp.len() ==> !((#[trigger] tcp[j]) is Some && is_meant(
                    which,
                    tcp[j]->0,
                )),
        },
    decreases tcp.len() - from,
{
    if from < tcp.len() {
        law_oldest_end_is_found(tcp, which, from + 1);
    }
}

/// An end is meant by where it is, by where it and its peer are, or, as long as
/// it has not been closed, by where its peer is.
pub open spec fn is_meant(which: Which, c: TcpView) -> bool {
    match which {
        Which::At(addr) => c.local_addr == addr,
        Which::Between(local, peer) => c.local_addr == local && c.peer_addr == peer,
        Which::Towards(peer) => c.peer_addr == peer && !c.destroyed,
    }
}

// ----- Reading -----

/// Reading gives the bytes that wait, as many as fit, in their order and at the
/// front of the buffer; the rest of the buffer stays. A read takes them from the
/// front of the queue, and a look leaves them.
pub proof fn law_read_gives_what_waits(c: TcpView, buf: Seq<u8>)
    requires
        !c.reset_pending,
        c.incoming.len() > 0,
        0 < buf.len() <= usize::MAX,
    ensures
        ({
            let n = if buf.len() < c.incoming.len() {
                buf.len() as int
            } else {
                c.incoming.len() as int
            };
            let got = read_into(c, buf);
            &&& read_outcome(c, buf.len()) == Ok::<ReadStep, ErrorView>(ReadStep::Done(n as usize))
            &&& n > 0
            &&& got.len() == buf.len()
            &&& got.take(n) == c.incoming.take(n)
            &&& got.skip(n) == buf.skip(n)
            &&& read_effect(c, buf.len(), true) == (TcpView { incoming: c.incoming.skip(n), ..c })
            &&& read_effect(c, buf.len(), false) == c
        }),
{
    let n = if buf.len() < c.incoming.len() {
        buf.len() as int
    } else {
        c.incoming.len() as int
    };
    let got = read_into(c, buf);
    assert(got.take(n) =~= c.incoming.take(n));
    assert(got.skip(n) =~= buf.skip(n));
}

/// Where nothing waits, reading finds the end of the stream if nothing more can
/// come, because the end was shut down or closed or its peer is gone. Otherwise
/// an end that may not block says that there is nothing, and any other waits for
/// as long as its timeout says. The buffer stays as it was.
pub proof fn law_read_of_nothing(c: TcpView, buf: Seq<u8>)
    requires
        !c.reset_pending,
        c.incoming.len() == 0,
        buf.len() > 0,
    ensures
        ({
            let ended = c.read_shutdown || c.peer is None || c.destroyed;
            let r = read_outcome(c, buf.len());
            &&& ended ==> r == Ok::<ReadStep, ErrorView>(ReadStep::Done(0))
            &&& !ended && c.nonblocking ==> r is Err && r->Err_0.kind == ErrorKind::WouldBlock
            &&& !ended && !c.nonblocking ==> r == Ok::<ReadStep, ErrorView>(
                ReadStep::Wait(c.read_timeout),
            )
            &&& read_into(c, buf) == buf
            &&& read_effect(c, buf.len(), true) == c
            &&& read_effect(c, buf.len(), false) == c
        }),
{
}

/// A reset comes before everything else and is told once; what waits stays.
pub proof fn law_reset_is_read_first(c: TcpView, buf: Seq<u8>, consume: bool)
    requires
        c.reset_pending,
        buf.len() > 0,
    ensures
        read_outcome(c, buf.len()) is Err,
        read_outcome(c, buf.len())->Err_0.kind == ErrorKind::ConnectionReset,
        read_into(c, buf) == buf,
        read_effect(c, buf.len(), consume) == (TcpView { reset_pending: false, ..c }),
{
}

/// Reading into no buffer at all succeeds, and nothing happens.
pub proof fn law_empty_read_does_nothing(
    s: StateView,
    now: Now,
    id: usize,
    c: TcpView,
    consume: bool,
)
    ensures
        read_outcome(c, 0) == Ok::<ReadStep, ErrorView>(ReadStep::Done(0)),
        read_into(c, Seq::empty()) == Seq::<u8>::empty(),
        read_state(s, now, id, 0, consume) == s,
{
}

/// A read concerns the end that it is made through and no other, and what has
/// arrived there by then counts.
pub proof fn law_read_concerns_one_end(
    s: StateView,
    now: Now,
    id: usize,
    len: nat,
    consume: bool,
)
    requires
        s.live(id),
        len > 0,
    ensures
        ({
            let t = read_state(s, now, id, len, consume);
            &&& t.conn(id) == read_effect(s.conn(id).released(now.mono@), len, consume)
            &&& t.tcp.len() == s.tcp.len()
            &&& forall|k: int| 0 <= k < s.tcp.len() && k != id ==> #[trigger] t.tcp[k] == s.tcp[k]
            &&& t.udp == s.udp && t.listeners == s.listeners && t.log == s.log
            &&& t.capture == s.capture
        }),
{
}

// ----- Writing -----

/// The window of who is written to has room for `len` more bytes.
pub open spec fn window_has_room(s: StateView, p: usize, len: nat) -> bool {
    let at = s.conn(p).local_addr;
    s.tcp_policies.dom().contains(at) && s.tcp_policies[at].recv_window is Some ==> s.conn(
        p,
    ).queued() + len <= s.tcp_policies[at].recv_window->0
}

/// `d` is `c` with `data` behind all that it was sent, or, where the link has
/// become so fast that the bytes are there already, behind all that can be read.
pub open spec fn went_behind(c: TcpView, d: TcpView, data: Seq<u8>) -> bool {
    &&& c.pending.len() == 0 || d.incoming == c.incoming ==> content(d) == content(c) + data
    &&& d.incoming != c.incoming ==> d.incoming == c.incoming + data && d.pending == c.pending
    &&& d.queued() == c.queued() + data.len()
}

proof fn lemma_went_behind(c: TcpView, now: Instant, latency: Duration, data: Seq<u8>)
    ensures
        went_behind(c, c.with_sent(now, latency, data), data),
{
    let d = c.with_sent(now, latency, data);
    if latency@ > 0 || c.pending.len() == 0 {
        crate::stream_laws::law_sent_bytes_queue_up(c, now, latency, data);
    }
    if latency@ == 0 && d.incoming == c.incoming {
        assert(data.len() == 0) by {
            assert(d.incoming.len() == c.incoming.len() + data.len());
        }
        assert(content(d) + data =~= content(d));
    }
    crate::stream_laws::lemma_sent_bytes_count(c, now, latency, data);
}

/// A write goes to the peer whole or not at all. It is taken where the end is
/// not reset and its writing not shut down, where it has a peer that still reads,
/// and where the peer's window has room; then the bytes stand behind all that
/// the peer was sent. Where there is no room, an end that may not block says so
/// and any other waits. Otherwise the write fails by what stands in its way.
pub proof fn law_write_is_taken_whole(
    s: StateView,
    now: Now,
    id: usize,
    data: Seq<u8>,
    r: Result<WriteStep, Error>,
    t: StateView,
)
    requires
        s.wf(),
        s.live(id),
        0 < data.len() <= usize::MAX,
        writes(s, now, id, data, r, t),
    ensures
        ({
            let c = s.conn(id);
            let p = c.peer->0;
            let open = !c.reset_pending && !c.write_shutdown && c.peer is Some && !s.conn(
                p,
            ).read_shutdown;
            let room = window_has_room(s, p, data.len());
            &&& (r is Ok && r->Ok_0 is Done) <==> open && room
            &&& r matches Ok(WriteStep::Done(n)) ==> {
                &&& n == data.len()
                &&& t.live(p)
                &&& went_behind(s.conn(p), t.conn(p), data)
                &&& t.conn(p).local_addr == s.conn(p).local_addr
                &&& t.conn(p).peer == s.conn(p).peer
                &&& t.conn(p).read_shutdown == s.conn(p).read_shutdown
                &&& forall|k: int|
                    0 <= k < s.tcp.len() && k != p ==> #[trigger] t.tcp[k] == s.tcp[k]
            }
            &&& (r is Ok && r->Ok_0 is Wait) <==> open && !room && !c.nonblocking
            &&& r matches Ok(WriteStep::Wait(w)) ==> w.peer_id == p && w.write_timeout
                == c.write_timeout && t.tcp == s.tcp
            &&& r is Err ==> r->Err_0@.kind == if c.reset_pending {
                ErrorKind::ConnectionReset
            } else if c.write_shutdown {
                ErrorKind::BrokenPipe
            } else if c.peer is None {
                ErrorKind::NotConnected
            } else if s.conn(p).read_shutdown {
                ErrorKind::BrokenPipe
            } else {
                ErrorKind::WouldBlock
            }
            &&& r is Err && !c.reset_pending ==> t.tcp == s.tcp
            &&& r is Err && c.reset_pending ==> t.conn(id) == (TcpView {
                reset_pending: false,
                ..c
            })
            &&& t.udp == s.udp && t.listeners == s.listeners && t.log == s.log
        }),
{
    lemma_peer(s, id);
    if write_begin(s, id) is Ok {
        let p = s.conn(id).peer->0;
        let w = write_begin(s, id)->Ok_0;
        if write_outcome(s, w, data) matches Ok(WriteStep::Done(_)) {
            lemma_went_behind(s.conn(p), now.mono, w.policy.inbound_latency, data);
        }
    }
}

/// Writing nothing succeeds, and nothing happens.
pub proof fn law_empty_write_does_nothing(
    s: StateView,
    now: Now,
    id: usize,
    r: Result<WriteStep, Error>,
    t: StateView,
)
    requires
        writes(s, now, id, Seq::empty(), r, t),
    ensures
        r == Ok::<WriteStep, Error>(WriteStep::Done(0)),
        t == s,
{
}

/// Written bytes can be read at once over a link that takes no time, and behind
/// what was sent before them; over any other they are under way for as long as
/// the policy of the peer's address says.
pub proof fn law_written_bytes_take_the_links_time(
    s: StateView,
    now: Now,
    id: usize,
    data: Seq<u8>,
    r: Result<WriteStep, Error>,
    t: StateView,
)
    requires
        s.wf(),
        s.live(id),
        data.len() > 0,
        writes(s, now, id, data, r, t),
        r matches Ok(WriteStep::Done(_)),
    ensures
        ({
            let p = s.conn(id).peer->0;
            let (c, d) = (s.conn(p), t.conn(p));
            let latency = if s.tcp_policies.dom().contains(c.local_addr) {
                s.tcp_policies[c.local_addr].inbound_latency@
            } else {
                0
            };
            &&& latency == 0 ==> d.incoming == c.incoming + data && d.pending == c.pending
            &&& latency > 0 ==> {
                &&& d.incoming == c.incoming
                &&& d.pending.len() == c.pending.len() + 1
                &&& d.pending.take(c.pending.len() as int) == c.pending
                &&& d.pending.last().data == data
                &&& now.mono@ + latency <= MAX_NANOS ==> d.pending.last().at@ == now.mono@
                    + latency
            }
        }),
{
    lemma_peer(s, id);
    let p = s.conn(id).peer->0;
    let c = s.conn(p);
    let d = t.conn(p);
    Duration::lemma_of(0);
    let w = write_begin(s, id)->Ok_0;
    if w.policy.inbound_latency@ > 0 {
        assert(d.pending.take(c.pending.len() as int) =~= c.pending);
        if now.mono@ + w.policy.inbound_latency@ <= MAX_NANOS {
            Instant::lemma_of(now.mono@ + w.policy.inbound_latency@);
        }
    }
}

/// What is sent in a test's name reaches the oldest end that is where it is sent
/// to and has the sender for its peer, behind what was sent to it before, and is
/// logged. Where the window has no room for all of it, or no such end exists,
/// nothing happens.
pub proof fn law_test_bytes_reach_their_end(
    s: StateView,
    now: Now,
    from: SocketAddr,
    to: SocketAddr,
    data: Seq<u8>,
)
    requires
        s.tcp.len() <= usize::MAX,
    ensures
        ({
            let t = s.with_tcp_sent(now, from, to, data);
            match s.find_tcp(Which::Between(to, from)) {
                Some(k) => {
                    let id = k as usize;
                    &&& s.live(id) && s.conn(id).local_addr == to && s.conn(id).peer_addr == from
                    &&& window_has_room(s, id, data.len()) ==> {
                        &&& went_behind(s.conn(id), t.conn(id), data)
                        &&& t.conn(id).peer == s.conn(id).peer
                        &&& t.tcp.len() == s.tcp.len()
                        &&& forall|j: int|
                            0 <= j < s.tcp.len() && j != id ==> #[trigger] t.tcp[j] == s.tcp[j]
                        &&& t.log.len() == s.log.len() + 1
                        &&& t.log.last().at == now.mono
                        &&& t.log.last().event == (RecordedEvent::TcpSendFromTest {
                            from,
                            to,
                            len: data.len() as usize,
                        })
                        &&& t.udp == s.udp && t.listeners == s.listeners
                    }
                    &&& !window_has_room(s, id, data.len()) ==> t == s
                },
                None => t == s,
            }
        }),
{
    law_oldest_end_is_found(s.tcp, Which::Between(to, from), 0);
    if s.find_tcp(Which::Between(to, from)) is Some {
        let id = s.find_tcp(Which::Between(to, from))->0 as usize;
        lemma_went_behind(s.conn(id), now.mono, s.tcp_policy(to).inbound_latency, data);
    }
}

// ----- Closing -----

/// One of several handles of an end can go without anyone noticing. With the
/// last one the end goes, and its port if it had one to itself; its peer keeps
/// what it was sent, can write to nobody and has an error to report. Nobody else
/// notices.
pub proof fn law_dropped_end_is_gone(s: StateView, now: Now, id: usize)
    requires
        s.wf(),
        s.live(id),
    ensures
        ({
            let c = s.conn(id);
            let t = s.with_stream_dropped(now, id);
            &&& t.tcp.len() == s.tcp.len()
            &&& c.refs > 1 ==> {
                &&& t.conn(id) == (TcpView { refs: (c.refs - 1) as usize, ..c })
                &&& t.live(id)
                &&& t.ports == s.ports
                &&& t.capture == s.capture
                &&& forall|k: int| 0 <= k < s.tcp.len() && k != id ==> #[trigger] t.tcp[k] == s.tcp[k]
            }
            &&& c.refs == 1 ==> {
                &&& !t.live(id)
                &&& t.ports == if c.owns_port {
                    s.ports.remove(c.local_addr.port_part())
                } else {
                    s.ports
                }
                &&& forall|k: int|
                    0 <= k < s.tcp.len() && k != id && c.peer != Some(k as usize) ==> #[trigger] t.tcp[k]
                        == s.tcp[k]
                &&& c.peer matches Some(p) ==> {
                    &&& t.live(p)
                    &&& t.conn(p) == (TcpView {
                        peer: None,
                        read_shutdown: true,
                        error: t.conn(p).error,
                        ..s.conn(p)
                    })
                    &&& t.conn(p).error is Some && t.conn(p).error->0.kind
                        == ErrorKind::ConnectionReset
                }
            }
            &&& t.listeners == s.listeners && t.udp == s.udp && t.log == s.log
        }),
{
    lemma_peer(s, id);
}

/// An end that is to linger waits until its peer has read all that it was sent,
/// is gone, or time is up, and never beyond that.
pub proof fn law_linger_ends(w: Lingering, s: StateView, now: Now)
    ensures
        w.left(s, now) is Some <==> s.live(w.peer_id) && s.conn(w.peer_id).queued() > 0
            && now.mono@ < w.deadline@,
        w.left(s, now) matches Some(n) ==> now.mono@ + n == w.deadline@,
{
}

// ----- What a test breaks -----

/// A reset concerns the oldest end at its address: it has a reset and an error
/// to report and reads no further than what it was sent. It is logged. Where
/// there is no end, nothing happens.
pub proof fn law_reset_concerns_the_end_at_its_address(s: StateView, now: Now, addr: SocketAddr)
    requires
        s.tcp.len() <= usize::MAX,
    ensures
        ({
            let t = s.with_reset(now, addr);
            match s.find_tcp(Which::At(addr)) {
                Some(k) => {
                    &&& 0 <= k < s.tcp.len() && s.tcp[k] is Some && s.tcp[k]->0.local_addr == addr
                    &&& t.tcp[k] is Some
                    &&& t.tcp[k]->0 == (TcpView {
                        reset_pending: true,
                        read_shutdown: true,
                        error: t.tcp[k]->0.error,
                        ..s.tcp[k]->0
                    })
                    &&& t.tcp[k]->0.error is Some && t.tcp[k]->0.error->0.kind
                        == ErrorKind::ConnectionReset
                    &&& forall|j: int| 0 <= j < s.tcp.len() && j != k ==> #[trigger] t.tcp[j] == s.tcp[j]
                    &&& t.log.len() == s.log.len() + 1
                    &&& t.log.last().event == (RecordedEvent::TcpResetFromTest { addr })
                    &&& t.log.last().at == now.mono
                    &&& t.udp == s.udp && t.listeners == s.listeners
                },
                None => t == s,
            }
        }),
{
    law_oldest_end_is_found(s.tcp, Which::At(addr), 0);
}

/// An error that a test raises is what the end or the socket at its address has
/// to report from then on, and is logged; nothing else about it changes.
pub proof fn law_raised_error_is_reported(s: StateView, now: Now, addr: SocketAddr, e: ErrorView)
    requires
        s.tcp.len() <= usize::MAX,
    ensures
        s.find_tcp(Which::At(addr)) matches Some(k) ==> {
            let t = s.with_tcp_error(now, addr, e);
            &&& t.tcp == s.tcp.update(k, Some(TcpView { error: Some(e), ..s.tcp[k]->0 }))
            &&& t.log.len() == s.log.len() + 1
            &&& t.log.last().event == (RecordedEvent::SocketErrorFromTest { addr, kind: e.kind })
            &&& t.udp == s.udp
        },
        s.find_tcp(Which::At(addr)) is None ==> s.with_tcp_error(now, addr, e) == s,
        s.find_udp(addr) matches Some(i) ==> {
            let t = s.with_udp_error(now, addr, e);
            &&& t.udp == s.udp.update(i, crate::conn::UdpView { error: Some(e), ..s.udp[i] })
            &&& t.log.len() == s.log.len() + 1
            &&& t.log.last().event == (RecordedEvent::SocketErrorFromTest { addr, kind: e.kind })
            &&& t.tcp == s.tcp
        },
        s.find_udp(addr) is None ==> s.with_udp_error(now, addr, e) == s,
{
    law_oldest_end_is_found(s.tcp, Which::At(addr), 0);
}

/// A socket that a test closes is marked so, and what waits there stays; it is
/// logged. A close of one kind of socket leaves the other kind alone.
pub proof fn law_close_concerns_its_kind(
    s: StateView,
    now: Now,
    addr: SocketAddr,
    kind: SocketType,
)
    requires
        s.tcp.len() <= usize::MAX,
    ensures
        ({
            let t = s.with_closed(now, addr, kind);
            match kind {
                SocketType::Tcp => {
                    &&& t.udp == s.udp
                    &&& s.find_tcp(Which::At(addr)) is None ==> t == s
                    &&& s.find_tcp(Which::At(addr)) matches Some(k) ==> {
                        &&& t.tcp == s.tcp.update(
                            k,
                            Some(TcpView { destroyed: true, ..s.tcp[k]->0 }),
                        )
                        &&& t.log.last().event == (RecordedEvent::TcpCloseFromTest { addr })
                        &&& t.log.len() == s.log.len() + 1
                    }
                },
                SocketType::Udp => {
                    &&& t.tcp == s.tcp
                    &&& s.find_udp(addr) is None ==> t == s
                    &&& s.find_udp(addr) matches Some(i) ==> {
                        &&& t.udp == s.udp.update(
                            i,
                            crate::conn::UdpView { destroyed: true, ..s.udp[i] },
                        )
                        &&& t.log.last().event == (RecordedEvent::UdpCloseFromTest { addr })
                        &&& t.log.len() == s.log.len() + 1
                    }
                },
            }
        }),
{
    law_oldest_end_is_found(s.tcp, Which::At(addr), 0);
}

// ----- Waiting -----

/// An operation with a timeout waits for that long in all, counted from its first
/// wait, and then fails; one without waits for as long as it takes. No wait goes
/// beyond the next arrival, or beyond the time at which it has to fail.
pub proof fn law_wait_is_bounded(
    arrival: Option<nat>,
    now: Now,
    timeout: Option<Duration>,
    deadline: Option<Instant>,
)
    ensures
        ({
            let target = wait_target(now, timeout, deadline);
            let r = wait_step(arrival, now, timeout, deadline);
            &&& timeout is None ==> target is None
            &&& timeout is Some && deadline is Some ==> target == deadline
            &&& timeout is Some && deadline is None && now.mono@ + timeout->0@ <= MAX_NANOS ==> target
                is Some && target->0@ == now.mono@ + timeout->0@
            &&& r is Err <==> target is Some && target->0@ <= now.mono@
            &&& r is Err ==> r->Err_0.kind == ErrorKind::WouldBlock
            &&& r matches Ok(WaitStep::Forever) ==> target is None && arrival is None
            &&& r matches Ok(WaitStep::Skip) ==> target is None && arrival is Some && arrival->0
                <= now.mono@
            &&& target is None && arrival is None ==> r == Ok::<WaitStep, ErrorView>(
                WaitStep::Forever,
            )
        }),
        wait_step(arrival, now, timeout, deadline) matches Ok(WaitStep::For(d)) ==> ({
            let target = wait_target(now, timeout, deadline);
            let over = if target is Some && target->0@ <= MAX_NANOS {
                true
            } else {
                arrival is Some && arrival->0 <= MAX_NANOS && target is None
            };
            over ==> {
                &&& target is Some ==> now.mono@ + d@ <= target->0@
                &&& arrival is Some && arrival->0 > now.mono@ ==> now.mono@ + d@ <= arrival->0
                &&& now.mono@ + d@ == if arrival is Some && arrival->0 > now.mono@ && (target
                    is None || arrival->0 < target->0@) {
                    arrival->0
                } else if arrival is Some && arrival->0 <= now.mono@ {
                    now.mono@
                } else {
                    target->0@
                }
            }
        }),
{
    let target = wait_target(now, timeout, deadline);
    if timeout is Some && deadline is None && now.mono@ + timeout->0@ <= MAX_NANOS {
        Instant::lemma_of(now.mono@ + timeout->0@);
    }
    if target is Some && target->0@ <= MAX_NANOS && now.mono@ < target->0@ {
        let left = (target->0@ - now.mono@) as nat;
        Duration::lemma_of(left);
        if arrival is Some && arrival->0 > now.mono@ && arrival->0 - now.mono@ < left {
            Duration::lemma_of((arrival->0 - now.mono@) as nat);
        }
        Duration::lemma_of(0);
    }
    if target is None && arrival is Some && arrival->0 <= MAX_NANOS && arrival->0 > now.mono@ {
        Duration::lemma_of((arrival->0 - now.mono@) as nat);
    }
}

} // verus!
