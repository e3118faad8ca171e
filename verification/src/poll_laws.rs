//! What a poller reports.

use crate::addr::SocketAddr;
use crate::conn::{TcpView, UdpView};
use crate::mio_shim::{
    first_entry, first_stream_entry, lemma_listener_events_extend, lemma_socket_events_extend,
    lemma_stream_events_extend, listener_events, listener_registered, poll_deadline, polls, scanned,
    socket_events, socket_registered, stream_events, stream_registered, waker_events, EntryView,
    Event, Interest, PollStep, RegistryView, Source, Token, WakerState,
};
use crate::error::Error;
use crate::net::{TcpListener, TcpStream, UdpSocket};
use crate::policy::QuiesceMode;
use crate::state::{
    first_udp, lemma_found_listener, lemma_no_listener, lemma_released_keeps,
    lemma_udp_released_keeps, Now, StateView,
};
use crate::time::{Duration, Instant};
use vstd::prelude::*;

verus! {

// ----- What is ready -----

/// A window that hides what comes in is open for `addr`.
pub open spec fn hides_input(s: StateView, now: nat, addr: SocketAddr) -> bool {
    s.quiesce.dom().contains(addr) && now < s.quiesce[addr].until@ && s.quiesce[addr].mode
        != QuiesceMode::OutboundOnly
}

/// A window that hides that something can go out is open for `addr`.
pub open spec fn hides_output(s: StateView, now: nat, addr: SocketAddr) -> bool {
    s.quiesce.dom().contains(addr) && now < s.quiesce[addr].until@ && s.quiesce[addr].mode
        != QuiesceMode::InboundOnly
}

/// All that has arrived by `now` has been released.
pub proof fn lemma_released_is_settled(c: TcpView, now: nat)
    ensures
        !c.released(now).due(now),
        c.released(now).released(now) == c.released(now),
        !c.due(now) ==> c.released(now) == c,
    decreases c.pending.len(),
{
    if c.due(now) {
        let d = TcpView {
            incoming: c.incoming + c.pending[0].data,
            pending: c.pending.drop_first(),
            ..c
        };
        lemma_released_is_settled(d, now);
    }
}

/// All packets that have arrived by `now` have been released.
pub proof fn lemma_udp_released_is_settled(u: UdpView, now: nat)
    ensures
        !u.released(now).due(now),
        u.released(now).released(now) == u.released(now),
        !u.due(now) ==> u.released(now) == u,
    decreases u.pending.len(),
{
    if u.due(now) {
        crate::conn::lemma_soonest(u.pending, u.pending.len() as int);
        lemma_udp_released_is_settled(u.with_next_arrived(), now);
    }
}

/// `t` is `s`, but for what has arrived by `now` having been released at some
/// ends, and windows that have closed having been forgotten.
spec fn looked_at(s: StateView, t: StateView, now: nat) -> bool {
    &&& t.tcp.len() == s.tcp.len()
    &&& forall|id: usize|
        #![trigger t.live(id)]
        t.live(id) == s.live(id) && (s.live(id) ==> t.conn(id).released(now) == s.conn(
            id,
        ).released(now))
    &&& forall|a: SocketAddr| #[trigger]
        t.window(now, a) == s.window(now, a)
    &&& t.listeners == s.listeners
}

proof fn lemma_look_at_stream(s: StateView, t: StateView, now: nat, id: usize)
    requires
        looked_at(s, t, now),
        t.udp == s.udp,
    ensures
        looked_at(s, t.with_stream_looked_at(now, id), now),
        t.with_stream_looked_at(now, id).udp == s.udp,
        s.live(id) ==> t.with_stream_looked_at(now, id).conn(id) == s.conn(id).released(now),
{
    assert(t.live(id) == s.live(id));
    if t.live(id) {
        let u = t.with_stream_looked_at(now, id);
        lemma_released_is_settled(t.conn(id), now);
        lemma_released_is_settled(s.conn(id), now);
        assert(u.conn(id) == t.conn(id).released(now));
        assert forall|k: usize|
            #![trigger u.live(k)]
            u.live(k) == s.live(k) && (s.live(k) ==> u.conn(k).released(now) == s.conn(
                k,
            ).released(now)) by {
            assert(t.live(k) == s.live(k));
        }
        assert forall|a: SocketAddr| #[trigger] u.window(now, a) == s.window(now, a) by {
            assert(t.window(now, a) == s.window(now, a));
        }
    }
}

proof fn lemma_streams_looked_at(
    s: StateView,
    now: nat,
    entries: Seq<EntryView<usize>>,
    n: int,
    events: Seq<Event>,
)
    requires
        n <= entries.len(),
    ensures
        looked_at(s, stream_events(s, now, entries, n, events).0, now),
        stream_events(s, now, entries, n, events).0.udp == s.udp,
    decreases n,
{
    if n > 0 {
        lemma_streams_looked_at(s, now, entries, n - 1, events);
        lemma_look_at_stream(
            s,
            stream_events(s, now, entries, n - 1, events).0,
            now,
            entries[n - 1].src,
        );
    }
}

/// `e` says what is so of the end `c`, as far as `interest` goes.
pub open spec fn tells_of_stream(
    e: Event,
    token: Token,
    interest: Interest,
    s: StateView,
    now: nat,
    c: TcpView,
) -> bool {
    &&& e.token == token
    &&& e.is_readable <==> interest.readable && c.incoming.len() > 0 && !hides_input(
        s,
        now,
        c.local_addr,
    )
    &&& e.is_writable <==> interest.writable && c.peer is Some && !c.write_shutdown && !c.destroyed
        && !hides_output(s, now, c.local_addr)
    &&& e.is_error <==> c.error is Some
    &&& e.is_read_closed <==> interest.readable && (c.read_shutdown || c.peer is None
        || c.destroyed)
    &&& e.is_write_closed <==> interest.writable && (c.write_shutdown || c.destroyed)
    &&& !e.is_priority
    &&& !e.is_aio
    &&& !e.is_lio
}

/// Something is ready at the end `c` that it is watched for, or it has failed
/// or ended.
pub open spec fn stream_is_ready(interest: Interest, s: StateView, now: nat, c: TcpView) -> bool {
    ||| interest.readable && c.incoming.len() > 0 && !hides_input(s, now, c.local_addr)
    ||| interest.writable && c.peer is Some && !c.write_shutdown && !c.destroyed && !hides_output(
        s,
        now,
        c.local_addr,
    )
    ||| c.error is Some
    ||| interest.readable && (c.read_shutdown || c.peer is None || c.destroyed)
    ||| interest.writable && (c.write_shutdown || c.destroyed)
}

proof fn lemma_stream_event(
    s: StateView,
    now: nat,
    entries: Seq<EntryView<usize>>,
    n: int,
    events: Seq<Event>,
    k: int,
) -> (j: int)
    requires
        0 <= k < n <= entries.len(),
        s.live(entries[k].src),
        stream_is_ready(entries[k].interest, s, now, s.conn(entries[k].src).released(now)),
    ensures
        events.len() <= j < stream_events(s, now, entries, n, events).1.len(),
        tells_of_stream(
            stream_events(s, now, entries, n, events).1[j],
            entries[k].token,
            entries[k].interest,
            s,
            now,
            s.conn(entries[k].src).released(now),
        ),
    decreases n,
{
    let (t, before) = stream_events(s, now, entries, n - 1, events);
    lemma_streams_looked_at(s, now, entries, n - 1, events);
    lemma_stream_events_extend(s, now, entries, n - 1, events);
    if k < n - 1 {
        lemma_stream_event(s, now, entries, n - 1, events, k)
    } else {
        let id = entries[k].src;
        lemma_look_at_stream(s, t, now, id);
        let u = t.with_stream_looked_at(now, id);
        let c = s.conn(id).released(now);
        lemma_released_keeps(s.conn(id), now);
        assert(u.live(id));
        assert(u.conn(id) == c);
        assert(u.window(now, c.local_addr) == s.window(now, c.local_addr));
        before.len() as int
    }
}

/// A look at the sources reports every stream at which something is ready that
/// it is watched for, or which has failed or ended. It does so by the stream's
/// own token, whatever else is watched or ready, and says of each direction what
/// is so: bytes that have arrived by then can be read, an end that has a peer
/// and is not closed for writing can be written to, and only a window that is
/// open for that direction hides it.
pub proof fn law_every_ready_stream_is_reported(
    r: RegistryView,
    s: StateView,
    now: nat,
    k: int,
) -> (j: int)
    requires
        0 <= k < r.streams.len(),
        s.live(r.streams[k].src),
        stream_is_ready(r.streams[k].interest, s, now, s.conn(r.streams[k].src).released(now)),
    ensures
        0 <= j < scanned(r, s, now).1.len(),
        tells_of_stream(
            scanned(r, s, now).1[j],
            r.streams[k].token,
            r.streams[k].interest,
            s,
            now,
            s.conn(r.streams[k].src).released(now),
        ),
{
    let e1 = listener_events(s, r.listeners, r.listeners.len() as int, waker_events(r));
    let n = r.streams.len() as int;
    let (s2, e2) = stream_events(s, now, r.streams, n, e1);
    lemma_socket_events_extend(s2, now, r.sockets, r.sockets.len() as int, e2);
    let j = lemma_stream_event(s, now, r.streams, n, e1, k);
    let all = scanned(r, s, now).1;
    assert(all.subrange(0, e2.len() as int)[j] == all[j]);
    j
}

/// A stream that can be written to is reported as such to a poller that watches
/// it for that, also while it has bytes to be read.
pub proof fn law_writable_stream_is_reported(r: RegistryView, s: StateView, now: nat, k: int)
    requires
        0 <= k < r.streams.len(),
        r.streams[k].interest.writable,
        s.live(r.streams[k].src),
        s.conn(r.streams[k].src).peer is Some,
        !s.conn(r.streams[k].src).write_shutdown,
        !s.conn(r.streams[k].src).destroyed,
        !hides_output(s, now, s.conn(r.streams[k].src).local_addr),
    ensures
        exists|j: int|
            0 <= j < scanned(r, s, now).1.len() && (#[trigger] scanned(r, s, now).1[j]).token
                == r.streams[k].token && scanned(r, s, now).1[j].is_writable,
{
    lemma_released_keeps(s.conn(r.streams[k].src), now);
    let j = law_every_ready_stream_is_reported(r, s, now, k);
    assert(scanned(r, s, now).1[j].is_writable);
}

/// A stream that has bytes to be read is reported as such to a poller that
/// watches it for that, also while it can be written to.
pub proof fn law_readable_stream_is_reported(r: RegistryView, s: StateView, now: nat, k: int)
    requires
        0 <= k < r.streams.len(),
        r.streams[k].interest.readable,
        s.live(r.streams[k].src),
        s.conn(r.streams[k].src).released(now).incoming.len() > 0,
        !hides_input(s, now, s.conn(r.streams[k].src).local_addr),
    ensures
        exists|j: int|
            0 <= j < scanned(r, s, now).1.len() && (#[trigger] scanned(r, s, now).1[j]).token
                == r.streams[k].token && scanned(r, s, now).1[j].is_readable,
{
    lemma_released_keeps(s.conn(r.streams[k].src), now);
    let j = law_every_ready_stream_is_reported(r, s, now, k);
    assert(scanned(r, s, now).1[j].is_readable);
}

/// `e` says what is so of the listener `l`. A listener can be read from when a
/// connection waits; it can never be written to.
pub open spec fn tells_of_listener(
    e: Event,
    token: Token,
    interest: Interest,
    l: crate::conn::ListenerView,
) -> bool {
    &&& e.token == token
    &&& e.is_readable <==> interest.readable && l.pending.len() > 0
    &&& !e.is_writable
    &&& e.is_error <==> l.error is Some
    &&& e.is_read_closed <==> interest.readable && l.closed
    &&& !e.is_write_closed
    &&& !e.is_priority
    &&& !e.is_aio
    &&& !e.is_lio
}

proof fn lemma_listener_event(
    s: StateView,
    entries: Seq<EntryView<SocketAddr>>,
    n: int,
    events: Seq<Event>,
    k: int,
    i: int,
) -> (j: int)
    requires
        0 <= k < n <= entries.len(),
        s.find_listener(entries[k].src) == Some(i),
        (entries[k].interest.readable && (s.listeners[i].pending.len() > 0
            || s.listeners[i].closed)) || s.listeners[i].error is Some,
    ensures
        events.len() <= j < listener_events(s, entries, n, events).len(),
        tells_of_listener(
            listener_events(s, entries, n, events)[j],
            entries[k].token,
            entries[k].interest,
            s.listeners[i],
        ),
    decreases n,
{
    lemma_listener_events_extend(s, entries, n - 1, events);
    if k < n - 1 {
        lemma_listener_event(s, entries, n - 1, events, k, i)
    } else {
        listener_events(s, entries, n - 1, events).len() as int
    }
}

/// A look at the sources reports every listener at which a connection waits,
/// by its token, to a poller that watches it for reading; and one that has
/// failed or was closed.
pub proof fn law_every_ready_listener_is_reported(
    r: RegistryView,
    s: StateView,
    now: nat,
    k: int,
    i: int,
) -> (j: int)
    requires
        s.wf(),
        0 <= k < r.listeners.len(),
        0 <= i < s.listeners.len(),
        s.listeners[i].addr == r.listeners[k].src,
        (r.listeners[k].interest.readable && (s.listeners[i].pending.len() > 0
            || s.listeners[i].closed)) || s.listeners[i].error is Some,
    ensures
        0 <= j < scanned(r, s, now).1.len(),
        tells_of_listener(
            scanned(r, s, now).1[j],
            r.listeners[k].token,
            r.listeners[k].interest,
            s.listeners[i],
        ),
{
    reveal(crate::state::listeners_ok);
    let addr = r.listeners[k].src;
    lemma_found_listener(s.listeners, addr, 0);
    if s.find_listener(addr) is None {
        lemma_no_listener(s.listeners, addr, 0);
    }
    let f = s.find_listener(addr)->0;
    if f < i {
        assert(s.listeners[f].addr != s.listeners[i].addr);
    } else if i < f {
        assert(s.listeners[i].addr != s.listeners[f].addr);
    }
    let m = r.listeners.len() as int;
    let e1 = listener_events(s, r.listeners, m, waker_events(r));
    let j = lemma_listener_event(s, r.listeners, m, waker_events(r), k, i);
    let n = r.streams.len() as int;
    let (s2, e2) = stream_events(s, now, r.streams, n, e1);
    lemma_stream_events_extend(s, now, r.streams, n, e1);
    lemma_socket_events_extend(s2, now, r.sockets, r.sockets.len() as int, e2);
    let all = scanned(r, s, now).1;
    assert(e2.subrange(0, e1.len() as int)[j] == e2[j]);
    assert(all.subrange(0, e2.len() as int)[j] == all[j]);
    j
}

/// `e` says what is so of the UDP socket `u`.
pub open spec fn tells_of_socket(
    e: Event,
    token: Token,
    interest: Interest,
    s: StateView,
    now: nat,
    u: UdpView,
) -> bool {
    &&& e.token == token
    &&& e.is_readable <==> interest.readable && u.to_local.len() > 0 && !hides_input(
        s,
        now,
        u.addr,
    )
    &&& e.is_writable <==> interest.writable && !u.destroyed && !hides_output(s, now, u.addr)
    &&& e.is_error <==> u.error is Some
    &&& e.is_read_closed <==> interest.readable && u.destroyed
    &&& e.is_write_closed <==> interest.writable && u.destroyed
    &&& !e.is_priority
    &&& !e.is_aio
    &&& !e.is_lio
}

/// Something is ready at the socket `u` that it is watched for, or it has failed
/// or was closed.
pub open spec fn socket_is_ready(interest: Interest, s: StateView, now: nat, u: UdpView) -> bool {
    ||| interest.readable && u.to_local.len() > 0 && !hides_input(s, now, u.addr)
    ||| interest.writable && !u.destroyed && !hides_output(s, now, u.addr)
    ||| u.error is Some
    ||| (interest.readable || interest.writable) && u.destroyed
}

/// Sockets at the same addresses are found in the same places.
pub proof fn lemma_same_socket(a: Seq<UdpView>, b: Seq<UdpView>, addr: SocketAddr, from: int)
    requires
        a.len() == b.len(),
        0 <= from,
        forall|i: int| 0 <= i < a.len() ==> (#[trigger] a[i]).addr == b[i].addr,
    ensures
        first_udp(a, addr, from) == first_udp(b, addr, from),
        first_udp(a, addr, from) matches Some(i) ==> from <= i < a.len() && a[i].addr == addr,
    decreases a.len() - from,
{
    if from < a.len() {
        assert(a[from].addr == b[from].addr);
        lemma_same_socket(a, b, addr, from + 1);
    }
}

/// `t` is `s`, but for what has arrived by `now` having been released at some
/// sockets.
spec fn sockets_looked_at(s: StateView, t: StateView, now: nat) -> bool {
    &&& t.udp.len() == s.udp.len()
    &&& forall|i: int|
        0 <= i < s.udp.len() ==> {
            &&& (#[trigger] t.udp[i]).addr == s.udp[i].addr
            &&& t.udp[i].released(now) == s.udp[i].released(now)
        }
    &&& forall|a: SocketAddr| #[trigger] t.window(now, a) == s.window(now, a)
}

proof fn lemma_look_at_socket(s: StateView, t: StateView, now: nat, addr: SocketAddr)
    requires
        sockets_looked_at(s, t, now),
    ensures
        sockets_looked_at(s, t.with_socket_looked_at(now, addr), now),
        t.with_socket_looked_at(now, addr).find_udp(addr) == s.find_udp(addr),
        s.find_udp(addr) matches Some(i) ==> 0 <= i < s.udp.len() && t.with_socket_looked_at(
            now,
            addr,
        ).udp[i] == s.udp[i].released(now),
{
    let u = t.with_socket_looked_at(now, addr);
    lemma_same_socket(t.udp, s.udp, addr, 0);
    if t.find_udp(addr) is Some {
        let i = t.find_udp(addr)->0;
        lemma_udp_released_is_settled(t.udp[i], now);
        lemma_udp_released_is_settled(s.udp[i], now);
        lemma_udp_released_keeps(t.udp[i], now);
        assert(u.udp[i] == t.udp[i].released(now));
        assert forall|m: int| 0 <= m < s.udp.len() implies {
            &&& (#[trigger] u.udp[m]).addr == s.udp[m].addr
            &&& u.udp[m].released(now) == s.udp[m].released(now)
        } by {
            assert(t.udp[m].addr == s.udp[m].addr);
        }
    } else {
        assert(u.udp == t.udp);
    }
    lemma_same_socket(s.udp, u.udp, addr, 0);
    assert forall|a: SocketAddr| #[trigger] u.window(now, a) == s.window(now, a) by {
        assert(t.window(now, a) == s.window(now, a));
    }
}

proof fn lemma_sockets_looked_at(
    s: StateView,
    now: nat,
    entries: Seq<EntryView<SocketAddr>>,
    n: int,
    events: Seq<Event>,
)
    requires
        n <= entries.len(),
    ensures
        sockets_looked_at(s, socket_events(s, now, entries, n, events).0, now),
    decreases n,
{
    if n > 0 {
        lemma_sockets_looked_at(s, now, entries, n - 1, events);
        lemma_look_at_socket(
            s,
            socket_events(s, now, entries, n - 1, events).0,
            now,
            entries[n - 1].src,
        );
    }
}

proof fn lemma_socket_event(
    s: StateView,
    now: nat,
    entries: Seq<EntryView<SocketAddr>>,
    n: int,
    events: Seq<Event>,
    k: int,
    i: int,
) -> (j: int)
    requires
        0 <= k < n <= entries.len(),
        s.find_udp(entries[k].src) == Some(i),
        socket_is_ready(entries[k].interest, s, now, s.udp[i].released(now)),
    ensures
        events.len() <= j < socket_events(s, now, entries, n, events).1.len(),
        tells_of_socket(
            socket_events(s, now, entries, n, events).1[j],
            entries[k].token,
            entries[k].interest,
            s,
            now,
            s.udp[i].released(now),
        ),
    decreases n,
{
    let (t, before) = socket_events(s, now, entries, n - 1, events);
    lemma_sockets_looked_at(s, now, entries, n - 1, events);
    lemma_socket_events_extend(s, now, entries, n - 1, events);
    if k < n - 1 {
        lemma_socket_event(s, now, entries, n - 1, events, k, i)
    } else {
        let addr = entries[k].src;
        lemma_look_at_socket(s, t, now, addr);
        lemma_same_socket(s.udp, s.udp, addr, 0);
        lemma_udp_released_keeps(s.udp[i], now);
        let u = t.with_socket_looked_at(now, addr);
        assert(u.window(now, addr) == s.window(now, addr));
        before.len() as int
    }
}

/// A look at the sources reports every UDP socket at which something is ready
/// that it is watched for, or which has failed or was closed, by its own token
/// and with what is so of each direction.
pub proof fn law_every_ready_socket_is_reported(
    r: RegistryView,
    s: StateView,
    now: nat,
    k: int,
    i: int,
) -> (j: int)
    requires
        0 <= k < r.sockets.len(),
        s.find_udp(r.sockets[k].src) == Some(i),
        socket_is_ready(r.sockets[k].interest, s, now, s.udp[i].released(now)),
    ensures
        0 <= j < scanned(r, s, now).1.len(),
        tells_of_socket(
            scanned(r, s, now).1[j],
            r.sockets[k].token,
            r.sockets[k].interest,
            s,
            now,
            s.udp[i].released(now),
        ),
{
    let e1 = listener_events(s, r.listeners, r.listeners.len() as int, waker_events(r));
    let n = r.streams.len() as int;
    let (s2, e2) = stream_events(s, now, r.streams, n, e1);
    lemma_streams_looked_at(s, now, r.streams, n, e1);
    lemma_same_socket(s.udp, s.udp, r.sockets[k].src, 0);
    lemma_udp_released_keeps(s.udp[i], now);
    assert(s2.udp == s.udp);
    let addr = r.sockets[k].src;
    assert(s2.window(now, addr) == s.window(now, addr));
    lemma_socket_event(s2, now, r.sockets, r.sockets.len() as int, e2, k, i)
}

/// A waker that was woken is reported first, as readable and writable and as
/// nothing else.
pub proof fn law_woken_waker_comes_first(r: RegistryView, s: StateView, now: nat)
    ensures
        r.waker_state == WakerState::Woken ==> ({
            let e = scanned(r, s, now).1[0];
            &&& scanned(r, s, now).1.len() > 0
            &&& e.token == r.waker_token
            &&& e.is_readable
            &&& e.is_writable
            &&& !e.is_error
            &&& !e.is_read_closed
            &&& !e.is_write_closed
        }),
        r.waker_state != WakerState::Woken && r.listeners.len() == 0 && r.streams.len() == 0
            && r.sockets.len() == 0 ==> scanned(r, s, now).1.len() == 0,
{
    if r.waker_state == WakerState::Woken {
        crate::mio_shim::law_waker_is_reported(r, s, now);
    }
}

/// Each source is reported once at most.
pub proof fn law_no_source_is_reported_twice(r: RegistryView, s: StateView, now: nat)
    ensures
        scanned(r, s, now).1.len() <= 1 + r.listeners.len() + r.streams.len() + r.sockets.len(),
{
    let e0 = waker_events(r);
    lemma_listener_count(s, r.listeners, r.listeners.len() as int, e0);
    let e1 = listener_events(s, r.listeners, r.listeners.len() as int, e0);
    lemma_stream_count(s, now, r.streams, r.streams.len() as int, e1);
    let (s2, e2) = stream_events(s, now, r.streams, r.streams.len() as int, e1);
    lemma_socket_count(s2, now, r.sockets, r.sockets.len() as int, e2);
}

proof fn lemma_listener_count(
    s: StateView,
    entries: Seq<EntryView<SocketAddr>>,
    n: int,
    events: Seq<Event>,
)
    requires
        0 <= n,
    ensures
        listener_events(s, entries, n, events).len() <= events.len() + n,
    decreases n,
{
    if n > 0 {
        lemma_listener_count(s, entries, n - 1, events);
    }
}

proof fn lemma_stream_count(
    s: StateView,
    now: nat,
    entries: Seq<EntryView<usize>>,
    n: int,
    events: Seq<Event>,
)
    requires
        0 <= n,
    ensures
        stream_events(s, now, entries, n, events).1.len() <= events.len() + n,
    decreases n,
{
    if n > 0 {
        lemma_stream_count(s, now, entries, n - 1, events);
    }
}

proof fn lemma_socket_count(
    s: StateView,
    now: nat,
    entries: Seq<EntryView<SocketAddr>>,
    n: int,
    events: Seq<Event>,
)
    requires
        0 <= n,
    ensures
        socket_events(s, now, entries, n, events).1.len() <= events.len() + n,
    decreases n,
{
    if n > 0 {
        lemma_socket_count(s, now, entries, n - 1, events);
    }
}

// ----- How long a poll lasts -----

/// A poll ends with the first look that finds something, or when its time is
/// up; until then it never waits beyond that, and a waker that was reported is
/// not reported again.
pub proof fn law_poll_ends_on_time(
    r: RegistryView,
    r2: RegistryView,
    s: StateView,
    s2: StateView,
    now: Now,
    deadline: Instant,
    events: Seq<Event>,
    found: Seq<Event>,
    step: PollStep,
)
    requires
        polls(r, r2, s, s2, now, deadline, events, found, step),
    ensures
        step == PollStep::Done <==> now.mono@ >= deadline@ || events.len() > 0,
        step == PollStep::Done ==> found == events && r2 == r && s2 == s,
        step matches PollStep::Wait(until, d) ==> until == deadline && now.mono@ + d@ <= deadline@
            && r2.waker_state == WakerState::Idle && r2.streams == r.streams && r2.listeners
            == r.listeners && r2.sockets == r.sockets && r2.waker_token == r.waker_token,
{
}

/// A poll with a timeout lasts for that long, and one without for a thousand
/// minutes.
pub proof fn law_poll_lasts_as_long_as_asked(now: Now, timeout: Option<Duration>)
    ensures
        timeout is Some && now.mono@ + timeout->0@ <= crate::time::MAX_NANOS ==> poll_deadline(
            now,
            timeout,
        )@ == now.mono@ + timeout->0@,
        timeout is None && now.mono@ + 60_000_000_000_000 <= crate::time::MAX_NANOS
            ==> poll_deadline(now, timeout)@ == now.mono@ + 1000 * 60 * 1_000_000_000,
{
    Duration::lemma_of(60_000_000_000_000);
    let d = match timeout {
        Some(d) => d,
        None => Duration::of(60_000_000_000_000),
    };
    if now.mono@ + d@ <= crate::time::MAX_NANOS {
        Instant::lemma_of(now.mono@ + d@);
    }
}

// ----- What is watched -----

/// A source that is registered is watched from then on, under its token and for
/// what was asked for, beside all that was watched before.
pub proof fn law_registered_source_is_watched(
    r: RegistryView,
    addr: SocketAddr,
    id: usize,
    token: Token,
    interest: Interest,
)
    ensures
        ({
            let t = r.with_stream(id, token, interest);
            let n = r.streams.len() as int;
            &&& t.streams.len() == n + 1
            &&& t.streams[n].src == id && t.streams[n].token == token && t.streams[n].interest
                == interest
            &&& t.streams.take(n) == r.streams
            &&& t.listeners == r.listeners && t.sockets == r.sockets
            &&& t.waker_state == r.waker_state && t.waker_token == r.waker_token
        }),
        ({
            let t = r.with_listener(addr, token, interest);
            let n = r.listeners.len() as int;
            &&& t.listeners.len() == n + 1
            &&& t.listeners[n].src == addr && t.listeners[n].token == token
                && t.listeners[n].interest == interest
            &&& t.listeners.take(n) == r.listeners
            &&& t.streams == r.streams && t.sockets == r.sockets
            &&& t.waker_state == r.waker_state && t.waker_token == r.waker_token
        }),
        ({
            let t = r.with_socket(addr, token, interest);
            let n = r.sockets.len() as int;
            &&& t.sockets.len() == n + 1
            &&& t.sockets[n].src == addr && t.sockets[n].token == token && t.sockets[n].interest
                == interest
            &&& t.sockets.take(n) == r.sockets
            &&& t.streams == r.streams && t.listeners == r.listeners
            &&& t.waker_state == r.waker_state && t.waker_token == r.waker_token
        }),
{
    assert(r.with_stream(id, token, interest).streams.take(r.streams.len() as int) =~= r.streams);
    assert(r.with_listener(addr, token, interest).listeners.take(r.listeners.len() as int)
        =~= r.listeners);
    assert(r.with_socket(addr, token, interest).sockets.take(r.sockets.len() as int) =~= r.sockets);
}

proof fn lemma_first_entry(entries: Seq<EntryView<SocketAddr>>, addr: SocketAddr, from: int)
    requires
        0 <= from,
    ensures
        match first_entry(entries, addr, from) {
            Some(k) => from <= k < entries.len() && entries[k].src == addr && forall|j: int|
                from <= j < k ==> (#[trigger] entries[j]).src != addr,
            None => forall|j: int|
                from <= j < entries.len() ==> (#[trigger] entries[j]).src != addr,
        },
    decreases entries.len() - from,
{
    if from < entries.len() {
        lemma_first_entry(entries, addr, from + 1);
    }
}

proof fn lemma_first_stream_entry(entries: Seq<EntryView<usize>>, id: usize, from: int)
    requires
        0 <= from,
    ensures
        match first_stream_entry(entries, id, from) {
            Some(k) => from <= k < entries.len() && entries[k].src == id && forall|j: int|
                from <= j < k ==> (#[trigger] entries[j]).src != id,
            None => forall|j: int| from <= j < entries.len() ==> (#[trigger] entries[j]).src != id,
        },
    decreases entries.len() - from,
{
    if from < entries.len() {
        lemma_first_stream_entry(entries, id, from + 1);
    }
}

/// A source that was registered once and is given up is watched no more; what
/// else is watched stays, in its order.
pub proof fn law_deregistered_stream_is_forgotten(r: RegistryView, id: usize, k: int)
    requires
        0 <= k < r.streams.len(),
        forall|j: int| 0 <= j < r.streams.len() ==> ((#[trigger] r.streams[j]).src == id <==> j == k),
    ensures
        r.without_stream(id).streams == r.streams.take(k) + r.streams.skip(k + 1),
        forall|j: int|
            0 <= j < r.without_stream(id).streams.len() ==> (#[trigger] r.without_stream(
                id,
            ).streams[j]).src != id,
        r.without_stream(id).listeners == r.listeners,
        r.without_stream(id).sockets == r.sockets,
{
    lemma_first_stream_entry(r.streams, id, 0);
    let t = r.without_stream(id);
    assert(r.streams[k].src == id);
    assert(t.streams =~= r.streams.take(k) + r.streams.skip(k + 1));
    assert forall|j: int| 0 <= j < t.streams.len() implies (#[trigger] t.streams[j]).src != id by {
        assert(t.streams[j] == if j < k {
            r.streams[j]
        } else {
            r.streams[j + 1]
        });
    }
}

/// The same of a listener.
pub proof fn law_deregistered_listener_is_forgotten(r: RegistryView, addr: SocketAddr, k: int)
    requires
        0 <= k < r.listeners.len(),
        forall|j: int|
            0 <= j < r.listeners.len() ==> ((#[trigger] r.listeners[j]).src == addr <==> j == k),
    ensures
        r.without_listener(addr).listeners == r.listeners.take(k) + r.listeners.skip(k + 1),
        forall|j: int|
            0 <= j < r.without_listener(addr).listeners.len() ==> (#[trigger] r.without_listener(
                addr,
            ).listeners[j]).src != addr,
        r.without_listener(addr).streams == r.streams,
        r.without_listener(addr).sockets == r.sockets,
{
    lemma_first_entry(r.listeners, addr, 0);
    let t = r.without_listener(addr);
    assert(r.listeners[k].src == addr);
    assert(t.listeners =~= r.listeners.take(k) + r.listeners.skip(k + 1));
    assert forall|j: int| 0 <= j < t.listeners.len() implies (#[trigger] t.listeners[j]).src
        != addr by {
        assert(t.listeners[j] == if j < k {
            r.listeners[j]
        } else {
            r.listeners[j + 1]
        });
    }
}

/// The same of a UDP socket.
pub proof fn law_deregistered_socket_is_forgotten(r: RegistryView, addr: SocketAddr, k: int)
    requires
        0 <= k < r.sockets.len(),
        forall|j: int|
            0 <= j < r.sockets.len() ==> ((#[trigger] r.sockets[j]).src == addr <==> j == k),
    ensures
        r.without_socket(addr).sockets == r.sockets.take(k) + r.sockets.skip(k + 1),
        forall|j: int|
            0 <= j < r.without_socket(addr).sockets.len() ==> (#[trigger] r.without_socket(
                addr,
            ).sockets[j]).src != addr,
        r.without_socket(addr).streams == r.streams,
        r.without_socket(addr).listeners == r.listeners,
{
    lemma_first_entry(r.sockets, addr, 0);
    let t = r.without_socket(addr);
    assert(r.sockets[k].src == addr);
    assert(t.sockets =~= r.sockets.take(k) + r.sockets.skip(k + 1));
    assert forall|j: int| 0 <= j < t.sockets.len() implies (#[trigger] t.sockets[j]).src != addr by {
        assert(t.sockets[j] == if j < k {
            r.sockets[j]
        } else {
            r.sockets[j + 1]
        });
    }
}

/// What is watched is held: a stream or listener that is registered has one
/// handle more, so that it outlives the one that it was registered by. A stream
/// or socket that is registered no longer blocks. Nothing else about it changes.
pub proof fn law_registered_source_is_held(s: StateView, id: usize, addr: SocketAddr)
    ensures
        s.live(id) && s.conn(id).refs < usize::MAX ==> ({
            let (c, d) = (s.conn(id), stream_registered(s, id).conn(id));
            &&& d.refs == c.refs + 1
            &&& d.nonblocking
            &&& d.incoming == c.incoming && d.pending == c.pending && d.peer == c.peer
            &&& d.local_addr == c.local_addr && d.read_shutdown == c.read_shutdown
            &&& d.write_shutdown == c.write_shutdown && d.error == c.error
            &&& forall|k: int|
                0 <= k < s.tcp.len() && k != id ==> #[trigger] stream_registered(s, id).tcp[k]
                    == s.tcp[k]
        }),
        s.find_listener(addr) matches Some(i) ==> (s.listeners[i].refs < usize::MAX ==> ({
            let (l, m) = (s.listeners[i], listener_registered(s, addr).listeners[i]);
            &&& m.refs == l.refs + 1
            &&& m.pending == l.pending && m.addr == l.addr && m.closed == l.closed
            &&& m.nonblocking == l.nonblocking
        })),
        s.find_udp(addr) matches Some(i) ==> ({
            let (u, v) = (s.udp[i], socket_registered(s, addr).udp[i]);
            &&& v.nonblocking()
            &&& v.addr == u.addr && v.to_local == u.to_local && v.from_local == u.from_local
            &&& v.remote == u.remote && v.error == u.error && v.destroyed == u.destroyed
        }),
{
    lemma_found_listener(s.listeners, addr, 0);
    lemma_same_socket(s.udp, s.udp, addr, 0);
    if s.find_udp(addr) is Some {
        let c = crate::conn::UdpConfigs::NonBlocking;
        crate::shim_std_udp::law_options_are_independent(
            s.udp[s.find_udp(addr)->0].configs,
            c,
            c,
        );
    }
}

/// A stream that is registered is watched as was asked, beside what is watched
/// already; one that is registered anew is watched in the new way alone; one
/// that is given up is not watched. What else is watched stays.
pub proof fn law_stream_is_watched_as_asked(
    a: TcpStream,
    b: TcpStream,
    r: RegistryView,
    r2: RegistryView,
    s: StateView,
    s2: StateView,
    now: Now,
    token: Token,
    interest: Interest,
    result: Result<(), Error>,
    k: int,
)
    requires
        0 <= k < r.streams.len(),
        forall|j: int|
            0 <= j < r.streams.len() ==> ((#[trigger] r.streams[j]).src == a.id() <==> j == k),
    ensures
        TcpStream::registers(a, b, r, r2, s, s2, token, interest, result) ==> {
            &&& result is Ok && b.id() == a.id()
            &&& r2.streams == r.streams + seq![EntryView { src: a.id(), token, interest }]
            &&& r2.listeners == r.listeners && r2.sockets == r.sockets
        },
        TcpStream::reregisters(a, b, r, r2, s, s2, now, token, interest, result) ==> {
            &&& result is Ok && b.id() == a.id()
            &&& r2.streams == r.streams.take(k) + r.streams.skip(k + 1) + seq![
                EntryView { src: a.id(), token, interest },
            ]
            &&& r2.listeners == r.listeners && r2.sockets == r.sockets
        },
        TcpStream::deregisters(a, b, r, r2, s, s2, now, result) ==> {
            &&& result is Ok && b.id() == a.id()
            &&& r2.streams == r.streams.take(k) + r.streams.skip(k + 1)
            &&& r2.listeners == r.listeners && r2.sockets == r.sockets
            &&& s2 == s.with_stream_dropped(now, a.id())
        },
{
    law_deregistered_stream_is_forgotten(r, a.id(), k);
    lemma_first_stream_entry(r.streams, a.id(), 0);
    let e = EntryView { src: a.id(), token, interest };
    let rest = r.without_stream(a.id()).streams;
    assert(r.streams.push(e) =~= r.streams + seq![e]);
    assert(rest.push(e) =~= rest + seq![e]);
}

/// The same of a listener.
pub proof fn law_listener_is_watched_as_asked(
    a: TcpListener,
    b: TcpListener,
    r: RegistryView,
    r2: RegistryView,
    s: StateView,
    s2: StateView,
    now: Now,
    token: Token,
    interest: Interest,
    result: Result<(), Error>,
    k: int,
)
    requires
        0 <= k < r.listeners.len(),
        forall|j: int|
            0 <= j < r.listeners.len() ==> ((#[trigger] r.listeners[j]).src == a.addr() <==> j == k),
    ensures
        TcpListener::registers(a, b, r, r2, s, s2, token, interest, result) ==> {
            &&& result is Ok && b.addr() == a.addr()
            &&& r2.listeners == r.listeners + seq![EntryView { src: a.addr(), token, interest }]
            &&& r2.streams == r.streams && r2.sockets == r.sockets
        },
        TcpListener::reregisters(a, b, r, r2, s, s2, now, token, interest, result) ==> {
            &&& result is Ok && b.addr() == a.addr()
            &&& r2.listeners == r.listeners.take(k) + r.listeners.skip(k + 1) + seq![
                EntryView { src: a.addr(), token, interest },
            ]
            &&& r2.streams == r.streams && r2.sockets == r.sockets
        },
        TcpListener::deregisters(a, b, r, r2, s, s2, now, result) ==> {
            &&& result is Ok && b.addr() == a.addr()
            &&& r2.listeners == r.listeners.take(k) + r.listeners.skip(k + 1)
            &&& r2.streams == r.streams && r2.sockets == r.sockets
            &&& s2 == s.with_listener_dropped(a.addr())
        },
{
    law_deregistered_listener_is_forgotten(r, a.addr(), k);
    lemma_first_entry(r.listeners, a.addr(), 0);
    let e = EntryView { src: a.addr(), token, interest };
    let rest = r.without_listener(a.addr()).listeners;
    assert(r.listeners.push(e) =~= r.listeners + seq![e]);
    assert(rest.push(e) =~= rest + seq![e]);
}

/// The same of a UDP socket.
pub proof fn law_socket_is_watched_as_asked(
    a: UdpSocket,
    b: UdpSocket,
    r: RegistryView,
    r2: RegistryView,
    s: StateView,
    s2: StateView,
    now: Now,
    token: Token,
    interest: Interest,
    result: Result<(), Error>,
    k: int,
)
    requires
        0 <= k < r.sockets.len(),
        forall|j: int|
            0 <= j < r.sockets.len() ==> ((#[trigger] r.sockets[j]).src == a.addr() <==> j == k),
    ensures
        UdpSocket::registers(a, b, r, r2, s, s2, token, interest, result) ==> {
            &&& result is Ok && b.addr() == a.addr()
            &&& r2.sockets == r.sockets + seq![EntryView { src: a.addr(), token, interest }]
            &&& r2.streams == r.streams && r2.listeners == r.listeners
        },
        UdpSocket::reregisters(a, b, r, r2, s, s2, now, token, interest, result) ==> {
            &&& result is Ok && b.addr() == a.addr()
            &&& r2.sockets == r.sockets.take(k) + r.sockets.skip(k + 1) + seq![
                EntryView { src: a.addr(), token, interest },
            ]
            &&& r2.streams == r.streams && r2.listeners == r.listeners
        },
        UdpSocket::deregisters(a, b, r, r2, s, s2, now, result) ==> {
            &&& result is Ok && b.addr() == a.addr()
            &&& r2.sockets == r.sockets.take(k) + r.sockets.skip(k + 1)
            &&& r2.streams == r.streams && r2.listeners == r.listeners
            &&& s2 == s
        },
{
    law_deregistered_socket_is_forgotten(r, a.addr(), k);
    lemma_first_entry(r.sockets, a.addr(), 0);
    let e = EntryView { src: a.addr(), token, interest };
    let rest = r.without_socket(a.addr()).sockets;
    assert(r.sockets.push(e) =~= r.sockets + seq![e]);
    assert(rest.push(e) =~= rest + seq![e]);
}

// ----- Giving up -----

/// A poller that is given up gives up one handle of each stream that it watches,
/// and no other handle; streams that others hold go on.
pub proof fn law_closed_poller_gives_up_its_streams(
    s: StateView,
    now: Now,
    entries: Seq<EntryView<usize>>,
    n: int,
)
    requires
        0 <= n <= entries.len(),
        forall|k: int| 0 <= k < entries.len() ==> s.live((#[trigger] entries[k]).src) && s.conn(
            entries[k].src,
        ).refs > 1,
        forall|j: int, k: int|
            0 <= j < k < entries.len() ==> (#[trigger] entries[j]).src != (#[trigger] entries[k]).src,
    ensures
        ({
            let t = crate::mio_shim::streams_closed(s, now, entries, n);
            &&& t.tcp.len() == s.tcp.len()
            &&& forall|k: int|
                0 <= k < n ==> {
                    let id = (#[trigger] entries[k]).src;
                    t.live(id) && t.conn(id) == (TcpView {
                        refs: (s.conn(id).refs - 1) as usize,
                        ..s.conn(id)
                    })
                }
            &&& forall|id: usize|
                id < s.tcp.len() && (forall|k: int| 0 <= k < n ==> (#[trigger] entries[k]).src != id)
                    ==> #[trigger] t.tcp[id as int] == s.tcp[id as int]
            &&& t.listeners == s.listeners && t.udp == s.udp && t.ports == s.ports
        }),
    decreases n,
{
    if n > 0 {
        law_closed_poller_gives_up_its_streams(s, now, entries, n - 1);
        let u = crate::mio_shim::streams_closed(s, now, entries, n - 1);
        let t = crate::mio_shim::streams_closed(s, now, entries, n);
        let id = entries[n - 1].src;
        assert(s.live(id));
        assert(u.tcp[id as int] == s.tcp[id as int]);
        assert forall|k: int| 0 <= k < n implies ({
            let i = (#[trigger] entries[k]).src;
            t.live(i) && t.conn(i) == (TcpView {
                refs: (s.conn(i).refs - 1) as usize,
                ..s.conn(i)
            })
        }) by {
            if k < n - 1 {
                assert(entries[k].src != entries[n - 1].src);
            }
        }
        assert forall|i: usize|
            i < s.tcp.len() && (forall|k: int| 0 <= k < n ==> (#[trigger] entries[k]).src != i)
                implies #[trigger] t.tcp[i as int] == s.tcp[i as int] by {
            assert(entries[n - 1].src != i);
            assert(u.tcp[i as int] == s.tcp[i as int]);
        }
    }
}

/// The same of listeners.
pub proof fn law_closed_poller_gives_up_its_listeners(
    s: StateView,
    entries: Seq<EntryView<SocketAddr>>,
    n: int,
)
    requires
        0 <= n <= entries.len(),
        forall|k: int|
            0 <= k < entries.len() ==> s.find_listener((#[trigger] entries[k]).src) is Some
                && s.listeners[s.find_listener(entries[k].src)->0].refs > 1,
        forall|j: int, k: int|
            0 <= j < k < entries.len() ==> (#[trigger] entries[j]).src != (#[trigger] entries[k]).src,
    ensures
        ({
            let t = crate::mio_shim::listeners_closed(s, entries, n);
            &&& t.listeners.len() == s.listeners.len()
            &&& forall|i: int|
                0 <= i < s.listeners.len() ==> (#[trigger] t.listeners[i]).addr
                    == s.listeners[i].addr && t.listeners[i].pending == s.listeners[i].pending
            &&& forall|k: int|
                0 <= k < n ==> {
                    let i = s.find_listener((#[trigger] entries[k]).src)->0;
                    t.listeners[i].refs == s.listeners[i].refs - 1
                }
            &&& forall|i: int|
                0 <= i < s.listeners.len() && (forall|k: int|
                    0 <= k < n ==> (#[trigger] entries[k]).src != s.listeners[i].addr)
                    ==> #[trigger] t.listeners[i] == s.listeners[i]
            &&& t.tcp == s.tcp && t.udp == s.udp && t.ports == s.ports
        }),
    decreases n,
{
    if n > 0 {
        law_closed_poller_gives_up_its_listeners(s, entries, n - 1);
        let u = crate::mio_shim::listeners_closed(s, entries, n - 1);
        let t = crate::mio_shim::listeners_closed(s, entries, n);
        let addr = entries[n - 1].src;
        crate::connect_laws::lemma_same_place(u.listeners, s.listeners, addr, 0);
        lemma_found_listener(s.listeners, addr, 0);
        let i = s.find_listener(addr)->0;
        assert(u.listeners[i] == s.listeners[i]);
        assert(t.listeners =~= u.listeners.update(
            i,
            crate::conn::ListenerView {
                refs: (s.listeners[i].refs - 1) as usize,
                ..s.listeners[i]
            },
        ));
        assert forall|k: int| 0 <= k < n implies ({
            let m = s.find_listener((#[trigger] entries[k]).src)->0;
            t.listeners[m].refs == s.listeners[m].refs - 1
        }) by {
            if k < n - 1 {
                lemma_found_listener(s.listeners, entries[k].src, 0);
                assert(entries[k].src != entries[n - 1].src);
            }
        }
        assert forall|m: int|
            0 <= m < s.listeners.len() && (forall|k: int|
                0 <= k < n ==> (#[trigger] entries[k]).src != s.listeners[m].addr)
                implies #[trigger] t.listeners[m] == s.listeners[m] by {
            assert(entries[n - 1].src != s.listeners[m].addr);
            assert(u.listeners[m] == s.listeners[m]);
        }
    }
}

// ----- How long a poll waits -----

proof fn lemma_streams_change_is_one(
    s: StateView,
    now: nat,
    entries: Seq<EntryView<usize>>,
    n: int,
)
    requires
        0 <= n <= entries.len(),
    ensures
        crate::mio_shim::streams_change(s, now, entries, n) matches Some(at) ==> exists|k: int|
            0 <= k < n && s.stream_change(now, (#[trigger] entries[k]).src) == Some(at),
    decreases n,
{
    if n > 0 {
        lemma_streams_change_is_one(s, now, entries, n - 1);
        let last = s.stream_change(now, entries[n - 1].src);
        if crate::mio_shim::streams_change(s, now, entries, n) is Some {
            let at = crate::mio_shim::streams_change(s, now, entries, n)->0;
            if last == Some(at) {
                assert(s.stream_change(now, entries[n - 1].src) == Some(at));
            }
        }
    }
}

proof fn lemma_sockets_change_is_one(
    s: StateView,
    now: nat,
    entries: Seq<EntryView<SocketAddr>>,
    n: int,
)
    requires
        0 <= n <= entries.len(),
    ensures
        crate::mio_shim::sockets_change(s, now, entries, n) matches Some(at) ==> exists|k: int|
            0 <= k < n && s.socket_change(now, (#[trigger] entries[k]).src) == Some(at),
    decreases n,
{
    if n > 0 {
        lemma_sockets_change_is_one(s, now, entries, n - 1);
        let last = s.socket_change(now, entries[n - 1].src);
        if crate::mio_shim::sockets_change(s, now, entries, n) is Some {
            let at = crate::mio_shim::sockets_change(s, now, entries, n)->0;
            if last == Some(at) {
                assert(s.socket_change(now, entries[n - 1].src) == Some(at));
            }
        }
    }
}

/// What becomes different about a stream or a socket by time alone is that
/// something which is under way to it arrives, or that its window closes,
/// whichever comes first.
pub proof fn law_change_is_an_arrival_or_a_windows_end(
    s: StateView,
    now: nat,
    id: usize,
    addr: SocketAddr,
)
    ensures
        s.live(id) ==> ({
            let c = s.conn(id);
            let q = s.quiesce;
            let window = q.dom().contains(c.local_addr) && now < q[c.local_addr].until@;
            match s.stream_change(now, id) {
                Some(at) => {
                    &&& c.pending.len() > 0 ==> at <= c.pending[0].at@
                    &&& window ==> at <= q[c.local_addr].until@
                    &&& (c.pending.len() > 0 && at == c.pending[0].at@) || (window && at
                        == q[c.local_addr].until@)
                },
                None => c.pending.len() == 0 && !window,
            }
        }),
        !s.live(id) ==> s.stream_change(now, id) is None,
        s.find_udp(addr) matches Some(i) ==> ({
            let u = s.udp[i];
            let window = s.quiesce.dom().contains(addr) && now < s.quiesce[addr].until@;
            match s.socket_change(now, addr) {
                Some(at) => {
                    &&& forall|k: int| 0 <= k < u.pending.len() ==> at <= (#[trigger] u.pending[k]).at@
                    &&& window ==> at <= s.quiesce[addr].until@
                    &&& (exists|k: int|
                        0 <= k < u.pending.len() && at == (#[trigger] u.pending[k]).at@) || (window
                        && at == s.quiesce[addr].until@)
                },
                None => u.pending.len() == 0 && !window,
            }
        }),
{
    if s.find_udp(addr) is Some {
        let u = s.udp[s.find_udp(addr)->0];
        if u.pending.len() > 0 {
            crate::conn::lemma_soonest(u.pending, u.pending.len() as int);
        }
    }
}

/// A poller that goes to wait waits until its time is up, and is only cut short
/// by the time of a change at something that it watches.
pub proof fn law_poll_waits_as_long_as_it_can(
    r: RegistryView,
    r2: RegistryView,
    s: StateView,
    s2: StateView,
    now: Now,
    deadline: Instant,
    found: Seq<Event>,
    step: PollStep,
)
    requires
        polls(r, r2, s, s2, now, deadline, Seq::empty(), found, step),
        now.mono@ < deadline@,
    ensures
        step is Wait,
        ({
            let d = step->Wait_1@;
            ||| now.mono@ + d == deadline@
            ||| exists|k: int|
                0 <= k < r.streams.len() && s2.stream_change(
                    now.mono@,
                    (#[trigger] r.streams[k]).src,
                ) is Some && crate::time::elapsed_between(
                    now.mono@,
                    s2.stream_change(now.mono@, r.streams[k].src)->0,
                ) == d
            ||| exists|k: int|
                0 <= k < r.sockets.len() && s2.socket_change(
                    now.mono@,
                    (#[trigger] r.sockets[k]).src,
                ) is Some && crate::time::elapsed_between(
                    now.mono@,
                    s2.socket_change(now.mono@, r.sockets[k].src)->0,
                ) == d
        }),
{
    lemma_streams_change_is_one(s2, now.mono@, r.streams, r.streams.len() as int);
    lemma_sockets_change_is_one(s2, now.mono@, r.sockets, r.sockets.len() as int);
}

} // verus!
