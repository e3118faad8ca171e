//! How calls relate: what one call gives back of another.
//!
//! Each law takes the networks before and after each of its calls; one call
//! follows another where it finds the network as the other left it.

use crate::addr::{IpAddr, SocketAddr};
use crate::error::{Error, ErrorKind};
use crate::mio_shim::{Interest, Registry, Token, Waker, WakerState};
use crate::policy::{ListenerBehavior, QuiesceMode, TcpPolicy, UdpPolicy};
use crate::record::{RecordedEntry, RecordedEvent};
use crate::shim_std_tcp::{ReadStep, ShimStdTcpListener, ShimStdTcpStream, Shutdown, WriteStep};
use crate::shim_std_udp::{law_options_are_independent, RecvStep, ShimStdUdpSocket};
use crate::conn::UdpConfigs;
use crate::state::{Now, StateView, TestState};
use crate::time::Duration;
use vstd::prelude::*;

verus! {

// ----- Options of a stream -----

/// A time to live that was set is read back through every handle of that end, and no
/// other end has it from there.
pub proof fn law_ttl_is_read_back(
    a: ShimStdTcpStream,
    b: ShimStdTcpStream,
    st: &mut TestState,
    u: &mut TestState,
    value: u32,
    r: Result<(), Error>,
    q: Result<u32, Error>,
)
    requires
        old(st)@.usable(a.id()),
        old(st)@.usable(b.id()),
        call_ensures(ShimStdTcpStream::set_ttl, (&a, st, value), r),
        final(st)@ == old(u)@,
        call_ensures(ShimStdTcpStream::ttl, (&b, u), q),
    ensures
        r is Ok,
        q is Ok,
        a.id() == b.id() ==> q->Ok_0 == value,
        a.id() != b.id() ==> q->Ok_0 == old(st)@.conn(b.id()).ttl,
        final(u)@.tcp == final(st)@.tcp,
        final(st)@.conn(a.id()).incoming == old(st)@.conn(a.id()).incoming,
        final(st)@.conn(a.id()).peer == old(st)@.conn(a.id()).peer,
{
}

/// A wish not to delay that was set is read back through every handle of that end, and no
/// other end has it from there.
pub proof fn law_nodelay_is_read_back(
    a: ShimStdTcpStream,
    b: ShimStdTcpStream,
    st: &mut TestState,
    u: &mut TestState,
    value: bool,
    r: Result<(), Error>,
    q: Result<bool, Error>,
)
    requires
        old(st)@.usable(a.id()),
        old(st)@.usable(b.id()),
        call_ensures(ShimStdTcpStream::set_nodelay, (&a, st, value), r),
        final(st)@ == old(u)@,
        call_ensures(ShimStdTcpStream::nodelay, (&b, u), q),
    ensures
        r is Ok,
        q is Ok,
        a.id() == b.id() ==> q->Ok_0 == value,
        a.id() != b.id() ==> q->Ok_0 == old(st)@.conn(b.id()).nodelay,
        final(u)@.tcp == final(st)@.tcp,
        final(st)@.conn(a.id()).incoming == old(st)@.conn(a.id()).incoming,
        final(st)@.conn(a.id()).peer == old(st)@.conn(a.id()).peer,
{
}

/// A time to linger, which cannot be zero, that was set is read back through every handle of that end, and no
/// other end has it from there.
pub proof fn law_linger_is_read_back(
    a: ShimStdTcpStream,
    b: ShimStdTcpStream,
    st: &mut TestState,
    u: &mut TestState,
    value: Option<Duration>,
    r: Result<(), Error>,
    q: Result<Option<Duration>, Error>,
)
    requires
        old(st)@.usable(a.id()),
        old(st)@.usable(b.id()),
        call_ensures(ShimStdTcpStream::set_linger, (&a, st, value), r),
        final(st)@ == old(u)@,
        call_ensures(ShimStdTcpStream::linger, (&b, u), q),
    ensures
        r is Err <==> value is Some && value->0@ == 0,
        r is Err ==> r->Err_0@.kind == ErrorKind::InvalidInput,
        q is Ok,
        r is Ok && a.id() == b.id() ==> q->Ok_0 == value,
        r is Err || a.id() != b.id() ==> q->Ok_0 == old(st)@.conn(b.id()).linger,
        final(u)@.tcp == final(st)@.tcp,
        final(st)@.conn(a.id()).incoming == old(st)@.conn(a.id()).incoming,
        final(st)@.conn(a.id()).peer == old(st)@.conn(a.id()).peer,
{
}

/// A timeout for reading, which cannot be zero, that was set is read back through every handle of that end, and no
/// other end has it from there.
pub proof fn law_read_timeout_is_read_back(
    a: ShimStdTcpStream,
    b: ShimStdTcpStream,
    st: &mut TestState,
    u: &mut TestState,
    value: Option<Duration>,
    r: Result<(), Error>,
    q: Result<Option<Duration>, Error>,
)
    requires
        old(st)@.usable(a.id()),
        old(st)@.usable(b.id()),
        call_ensures(ShimStdTcpStream::set_read_timeout, (&a, st, value), r),
        final(st)@ == old(u)@,
        call_ensures(ShimStdTcpStream::read_timeout, (&b, u), q),
    ensures
        r is Err <==> value is Some && value->0@ == 0,
        r is Err ==> r->Err_0@.kind == ErrorKind::InvalidInput,
        q is Ok,
        r is Ok && a.id() == b.id() ==> q->Ok_0 == value,
        r is Err || a.id() != b.id() ==> q->Ok_0 == old(st)@.conn(b.id()).read_timeout,
        final(u)@.tcp == final(st)@.tcp,
        final(st)@.conn(a.id()).incoming == old(st)@.conn(a.id()).incoming,
        final(st)@.conn(a.id()).peer == old(st)@.conn(a.id()).peer,
{
}

/// A timeout for writing, which cannot be zero, that was set is read back through every handle of that end, and no
/// other end has it from there.
pub proof fn law_write_timeout_is_read_back(
    a: ShimStdTcpStream,
    b: ShimStdTcpStream,
    st: &mut TestState,
    u: &mut TestState,
    value: Option<Duration>,
    r: Result<(), Error>,
    q: Result<Option<Duration>, Error>,
)
    requires
        old(st)@.usable(a.id()),
        old(st)@.usable(b.id()),
        call_ensures(ShimStdTcpStream::set_write_timeout, (&a, st, value), r),
        final(st)@ == old(u)@,
        call_ensures(ShimStdTcpStream::write_timeout, (&b, u), q),
    ensures
        r is Err <==> value is Some && value->0@ == 0,
        r is Err ==> r->Err_0@.kind == ErrorKind::InvalidInput,
        q is Ok,
        r is Ok && a.id() == b.id() ==> q->Ok_0 == value,
        r is Err || a.id() != b.id() ==> q->Ok_0 == old(st)@.conn(b.id()).write_timeout,
        final(u)@.tcp == final(st)@.tcp,
        final(st)@.conn(a.id()).incoming == old(st)@.conn(a.id()).incoming,
        final(st)@.conn(a.id()).peer == old(st)@.conn(a.id()).peer,
{
}

/// A stream that is told not to block says that there is nothing to be read, and
/// one that may block waits for as long as it was told to; which of the two is
/// what it was told last.
pub proof fn law_blocking_is_as_set(
    a: ShimStdTcpStream,
    st: &mut TestState,
    u: &mut TestState,
    now: Now,
    nonblocking: bool,
    buf: &mut [u8],
    r: Result<(), Error>,
    q: Result<ReadStep, Error>,
)
    requires
        old(st)@.usable(a.id()),
        call_ensures(ShimStdTcpStream::set_nonblocking, (&a, st, nonblocking), r),
        final(st)@ == old(u)@,
        call_ensures(ShimStdTcpStream::read, (&a, u, now, buf), q),
        old(buf)@.len() > 0,
        old(st)@.conn(a.id()).incoming.len() == 0,
        old(st)@.conn(a.id()).pending.len() == 0,
        !old(st)@.conn(a.id()).reset_pending,
        !old(st)@.conn(a.id()).read_shutdown,
        !old(st)@.conn(a.id()).destroyed,
        old(st)@.conn(a.id()).peer is Some,
    ensures
        r is Ok,
        nonblocking ==> q is Err && q->Err_0@.kind == ErrorKind::WouldBlock,
        !nonblocking ==> q == Ok::<ReadStep, Error>(
            ReadStep::Wait(old(st)@.conn(a.id()).read_timeout),
        ),
        final(buf)@ == old(buf)@,
{
}

/// The error that an end has to report is reported once.
pub proof fn law_error_is_taken_once(
    a: ShimStdTcpStream,
    st: &mut TestState,
    u: &mut TestState,
    r: Result<Option<Error>, Error>,
    q: Result<Option<Error>, Error>,
)
    requires
        old(st)@.usable(a.id()),
        call_ensures(ShimStdTcpStream::take_error, (&a, st), r),
        final(st)@ == old(u)@,
        call_ensures(ShimStdTcpStream::take_error, (&a, u), q),
    ensures
        r is Ok,
        q is Ok,
        r->Ok_0 is Some <==> old(st)@.conn(a.id()).error is Some,
        r->Ok_0 matches Some(e) ==> old(st)@.conn(a.id()).error == Some(e@),
        q->Ok_0 is None,
        final(u)@.conn(a.id()).incoming == old(st)@.conn(a.id()).incoming,
{
}

/// A handle that was cloned keeps the end when the other one goes, and is as good
/// as it; the end goes with the last of them.
pub proof fn law_clone_keeps_the_end(
    a: ShimStdTcpStream,
    st: &mut TestState,
    u: &mut TestState,
    v: &mut TestState,
    now: Now,
    r: Result<ShimStdTcpStream, Error>,
)
    requires
        old(st)@.wf(),
        old(st)@.usable(a.id()),
        old(st)@.conn(a.id()).refs == 1,
        call_ensures(ShimStdTcpStream::try_clone, (&a, st), r),
        final(st)@ == old(u)@,
        call_ensures(ShimStdTcpStream::close, (a, u, now), ()),
        final(u)@ == old(v)@,
        r is Ok ==> call_ensures(ShimStdTcpStream::close, (r->Ok_0, v, now), ()),
    ensures
        r is Ok,
        r->Ok_0.id() == a.id(),
        final(u)@.live(a.id()),
        final(u)@.conn(a.id()) == old(st)@.conn(a.id()),
        !final(v)@.live(a.id()),
{
    crate::state::lemma_peer(old(st)@, a.id());
}

/// A stream says where it is and where its peer is, and asking changes nothing
/// about it.
pub proof fn law_addresses_of_both_ends_mirror(
    a: ShimStdTcpStream,
    b: ShimStdTcpStream,
    st: &mut TestState,
    u: &mut TestState,
    r: Result<SocketAddr, Error>,
    q: Result<SocketAddr, Error>,
)
    requires
        old(st)@.wf(),
        old(st)@.usable(a.id()),
        old(st)@.conn(a.id()).peer == Some(b.id()),
        call_ensures(ShimStdTcpStream::local_addr, (&a, st), r),
        final(st)@ == old(u)@,
        call_ensures(ShimStdTcpStream::peer_addr, (&b, u), q),
    ensures
        r is Ok,
        q is Ok,
        q->Ok_0 == r->Ok_0,
        final(u)@.tcp == old(st)@.tcp,
{
    crate::state::lemma_peer(old(st)@, a.id());
}

/// What is looked at stays and is then read; what is read is gone.
pub proof fn law_look_then_read(
    a: ShimStdTcpStream,
    st: &mut TestState,
    u: &mut TestState,
    now: Now,
    buf: &mut [u8],
    again: &mut [u8],
    r: Result<ReadStep, Error>,
    q: Result<ReadStep, Error>,
)
    requires
        old(st)@.usable(a.id()),
        call_ensures(ShimStdTcpStream::peek, (&a, st, now, buf), r),
        final(st)@ == old(u)@,
        call_ensures(ShimStdTcpStream::read, (&a, u, now, again), q),
        old(again)@ == old(buf)@,
        0 < old(buf)@.len() <= usize::MAX,
        !old(st)@.conn(a.id()).reset_pending,
        old(st)@.conn(a.id()).incoming.len() > 0,
        !old(st)@.conn(a.id()).due(now.mono@),
    ensures
        r is Ok,
        q == r,
        final(again)@ == final(buf)@,
        final(st)@.conn(a.id()).incoming == old(st)@.conn(a.id()).incoming,
        r->Ok_0 is Done,
        r->Ok_0->Done_0 > 0,
        final(u)@.conn(a.id()).incoming == old(st)@.conn(a.id()).incoming.skip(
            r->Ok_0->Done_0 as int,
        ),
        final(buf)@.take(r->Ok_0->Done_0 as int) == old(st)@.conn(a.id()).incoming.take(
            r->Ok_0->Done_0 as int,
        ),
{
    let c = old(st)@.conn(a.id());
    crate::poll_laws::lemma_released_is_settled(c, now.mono@);
    crate::exchange_laws::law_read_gives_what_waits(c, old(buf)@);
}

/// After a shutdown of its writing, or of both halves, an end cannot write; its
/// peer, if it has read all, finds the end of the stream. After one of its
/// reading, or of both, its peer cannot write to it.
pub proof fn law_shutdown_is_noticed(
    a: ShimStdTcpStream,
    b: ShimStdTcpStream,
    st: &mut TestState,
    u: &mut TestState,
    v: &mut TestState,
    w: &mut TestState,
    now: Now,
    how: Shutdown,
    data: &[u8],
    buf: &mut [u8],
    r: Result<(), Error>,
    own: Result<WriteStep, Error>,
    other: Result<WriteStep, Error>,
    read: Result<ReadStep, Error>,
)
    requires
        old(st)@.wf(),
        old(st)@.usable(a.id()),
        old(st)@.conn(a.id()).peer == Some(b.id()),
        !old(st)@.conn(a.id()).reset_pending,
        !old(st)@.conn(b.id()).reset_pending,
        call_ensures(ShimStdTcpStream::shutdown, (&a, st, how), r),
        final(st)@ == old(u)@,
        call_ensures(ShimStdTcpStream::write, (&a, u, now, data), own),
        final(st)@ == old(v)@,
        call_ensures(ShimStdTcpStream::write, (&b, v, now, data), other),
        final(st)@ == old(w)@,
        call_ensures(ShimStdTcpStream::read, (&b, w, now, buf), read),
        0 < data@.len() <= usize::MAX,
        old(buf)@.len() > 0,
        old(st)@.conn(b.id()).incoming.len() == 0,
        old(st)@.conn(b.id()).pending.len() == 0,
    ensures
        r is Ok,
        how != Shutdown::Read ==> own is Err && own->Err_0@.kind == ErrorKind::BrokenPipe,
        how != Shutdown::Read ==> read == Ok::<ReadStep, Error>(ReadStep::Done(0)),
        how != Shutdown::Write ==> other is Err && other->Err_0@.kind == ErrorKind::BrokenPipe,
{
    let s = old(st)@;
    crate::state::lemma_peer(s, a.id());
    crate::state::lemma_peer(s, b.id());
    crate::exchange_laws::law_write_is_taken_whole(
        final(st)@,
        now,
        a.id(),
        data@,
        own,
        final(u)@,
    );
    crate::exchange_laws::law_write_is_taken_whole(
        final(st)@,
        now,
        b.id(),
        data@,
        other,
        final(v)@,
    );
    crate::exchange_laws::law_read_of_nothing(final(st)@.conn(b.id()), old(buf)@);
}

/// What one end writes the other reads: over a link that takes no time, one read
/// of a big enough buffer gives all that one write was given, and nothing else,
/// where nothing was waiting before.
pub proof fn law_written_bytes_are_read(
    a: ShimStdTcpStream,
    b: ShimStdTcpStream,
    st: &mut TestState,
    u: &mut TestState,
    now: Now,
    later: Now,
    data: &[u8],
    buf: &mut [u8],
    r: Result<WriteStep, Error>,
    q: Result<ReadStep, Error>,
)
    requires
        old(st)@.wf(),
        old(st)@.usable(a.id()),
        old(st)@.conn(a.id()).peer == Some(b.id()),
        call_ensures(ShimStdTcpStream::write, (&a, st, now, data), r),
        r matches Ok(WriteStep::Done(_)),
        final(st)@ == old(u)@,
        call_ensures(ShimStdTcpStream::read, (&b, u, later, buf), q),
        0 < data@.len() <= old(buf)@.len() <= usize::MAX,
        !old(st)@.conn(b.id()).reset_pending,
        old(st)@.conn(b.id()).incoming.len() == 0,
        old(st)@.conn(b.id()).pending.len() == 0,
        old(st)@.tcp_policy(old(st)@.conn(b.id()).local_addr).inbound_latency@ == 0,
    ensures
        r == Ok::<WriteStep, Error>(WriteStep::Done(data@.len() as usize)),
        q == Ok::<ReadStep, Error>(ReadStep::Done(data@.len() as usize)),
        final(buf)@.take(data@.len() as int) == data@,
        final(u)@.conn(b.id()).incoming.len() == 0,
{
    let s = old(st)@;
    crate::state::lemma_peer(s, a.id());
    crate::exchange_laws::law_write_is_taken_whole(s, now, a.id(), data@, r, final(st)@);
    crate::exchange_laws::law_written_bytes_take_the_links_time(
        s,
        now,
        a.id(),
        data@,
        r,
        final(st)@,
    );
    Duration::lemma_of(0);
    let d = final(st)@.conn(b.id());
    assert(s.conn(b.id()).incoming + data@ =~= data@);
    crate::exchange_laws::law_read_gives_what_waits(d, old(buf)@);
    assert(data@.take(data@.len() as int) =~= data@);
}

// ----- Listening and connecting -----

/// Who connects to an address at which a listener was bound, and who then
/// accepts, hold the two ends of one connection.
pub proof fn law_bind_connect_accept(
    st: &mut TestState,
    u: &mut TestState,
    v: &mut TestState,
    now: Now,
    addrs: &[SocketAddr],
    targets: Vec<SocketAddr>,
    l: Result<ShimStdTcpListener, Error>,
    c: Result<ShimStdTcpStream, Error>,
    s: Result<Option<(ShimStdTcpStream, SocketAddr)>, Error>,
)
    requires
        old(st)@.wf(),
        old(st)@.listeners.len() == 0,
        old(st)@.behaviors.dom() == Set::<SocketAddr>::empty(),
        addrs@.len() == 1,
        addrs@[0].port_part() != 0,
        crate::connect_laws::can_bind(old(st)@, addrs@[0]),
        old(st)@.tcp.len() + 1 <= usize::MAX,
        crate::state::has_free_port(old(st)@.ports.insert(addrs@[0].port_part())),
        call_ensures(ShimStdTcpListener::bind, (st, addrs), l),
        final(st)@ == old(u)@,
        targets@ == addrs@,
        call_ensures(ShimStdTcpStream::connect, (u, now, targets), c),
        final(u)@ == old(v)@,
        l is Ok ==> call_ensures(ShimStdTcpListener::accept, (&l->Ok_0, v), s),
    ensures
        l is Ok,
        l->Ok_0.addr() == addrs@[0],
        c is Ok,
        s is Ok,
        s->Ok_0 is Some,
        ({
            let (stream, peer) = s->Ok_0->Some_0;
            let t = final(v)@;
            &&& t.live(c->Ok_0.id()) && t.live(stream.id())
            &&& t.conn(c->Ok_0.id()).peer == Some(stream.id())
            &&& t.conn(stream.id()).peer == Some(c->Ok_0.id())
            &&& peer == t.conn(c->Ok_0.id()).local_addr
            &&& t.conn(c->Ok_0.id()).peer_addr.ip_part() == addrs@[0].ip_part()
            &&& t.conn(c->Ok_0.id()).peer_addr.port_part() == addrs@[0].port_part()
        }),
{
    let s0 = old(st)@;
    let addr = addrs@[0];
    crate::connect_laws::law_first_bindable_address_is_bound(s0, addrs@);
    crate::connect_laws::law_bound_listener_is_there(s0, addr);
    let s1 = final(st)@;
    assert(targets@ =~= seq![addr]);
    crate::connect_laws::law_listener_that_hears_is_found(s1, addr);
    crate::connect_laws::law_heard_connection_is_made(s1, now, addr, 0, c, final(u)@);
    reveal_with_fuel(crate::shim_std_tcp::attempts, 2);
    assert(final(u)@ == s1.with_connection(now, addr, 0));
    crate::connect_laws::law_new_connection_is_a_fresh_pair(s1, now, addr, 0);
    crate::state::lemma_found_listener(final(u)@.listeners, addr, 0);
    crate::connect_laws::law_longest_waiting_is_accepted(final(u)@, addr);
    crate::shim_std_tcp::lemma_accept(final(u)@, 0);
}


/// A listener that is told not to block says that nobody waits, and one that may
/// block goes on waiting.
pub proof fn law_listener_blocks_as_set(
    l: ShimStdTcpListener,
    st: &mut TestState,
    u: &mut TestState,
    nonblocking: bool,
    r: Result<(), Error>,
    q: Result<Option<(ShimStdTcpStream, SocketAddr)>, Error>,
)
    requires
        old(st)@.wf(),
        old(st)@.has_listener(l.addr()),
        old(st)@.listeners[old(st)@.find_listener(l.addr())->0].pending.len() == 0,
        !old(st)@.listeners[old(st)@.find_listener(l.addr())->0].closed,
        call_ensures(ShimStdTcpListener::set_nonblocking, (&l, st, nonblocking), r),
        final(st)@ == old(u)@,
        call_ensures(ShimStdTcpListener::accept, (&l, u), q),
    ensures
        r is Ok,
        nonblocking ==> q is Err && q->Err_0@.kind == ErrorKind::WouldBlock,
        !nonblocking ==> q is Ok && q->Ok_0 is None,
        final(st)@.tcp == old(st)@.tcp,
{
    lemma_listener_kept(l, old(st)@, old(st)@);
    lemma_listener_kept(l, old(st)@, final(st)@);
}

/// The listener at an address is the same one after something about it changed.
proof fn lemma_listener_kept(l: ShimStdTcpListener, s: StateView, t: StateView)
    requires
        s.has_listener(l.addr()),
        t.listeners.len() == s.listeners.len(),
        forall|j: int|
            0 <= j < s.listeners.len() ==> (#[trigger] t.listeners[j]).addr == s.listeners[j].addr,
    ensures
        t.find_listener(l.addr()) == s.find_listener(l.addr()),
        s.find_listener(l.addr()) is Some,
        0 <= s.find_listener(l.addr())->0 < s.listeners.len(),
        t.has_listener(l.addr()),
{
    crate::state::lemma_found_listener(s.listeners, l.addr(), 0);
    if s.find_listener(l.addr()) is None {
        crate::state::lemma_no_listener(s.listeners, l.addr(), 0);
    }
    crate::connect_laws::lemma_same_place(t.listeners, s.listeners, l.addr(), 0);
    let i = s.find_listener(l.addr())->0;
    assert(t.listeners[i].addr == l.addr());
}

/// The error that a listener has to report is reported once.
pub proof fn law_listener_error_is_taken_once(
    l: ShimStdTcpListener,
    st: &mut TestState,
    u: &mut TestState,
    r: Result<Option<Error>, Error>,
    q: Result<Option<Error>, Error>,
)
    requires
        old(st)@.wf(),
        old(st)@.has_listener(l.addr()),
        call_ensures(ShimStdTcpListener::take_error, (&l, st), r),
        final(st)@ == old(u)@,
        call_ensures(ShimStdTcpListener::take_error, (&l, u), q),
    ensures
        r is Ok,
        q is Ok,
        r->Ok_0 is Some <==> old(st)@.listeners[old(st)@.find_listener(l.addr())->0].error is Some,
        q->Ok_0 is None,
{
    crate::state::lemma_found_listener(old(st)@.listeners, l.addr(), 0);
    if old(st)@.find_listener(l.addr()) is None {
        crate::state::lemma_no_listener(old(st)@.listeners, l.addr(), 0);
    }
    lemma_listener_kept(l, old(st)@, final(st)@);
}

/// A listener whose handle was cloned is still there when the other handle goes.
pub proof fn law_clone_keeps_the_listener(
    l: ShimStdTcpListener,
    st: &mut TestState,
    u: &mut TestState,
    r: Result<ShimStdTcpListener, Error>,
)
    requires
        old(st)@.wf(),
        old(st)@.has_listener(l.addr()),
        old(st)@.listeners[old(st)@.find_listener(l.addr())->0].refs < usize::MAX,
        call_ensures(ShimStdTcpListener::try_clone, (&l, st), r),
        final(st)@ == old(u)@,
        call_ensures(ShimStdTcpListener::close, (l, u), ()),
    ensures
        r is Ok,
        r->Ok_0.addr() == l.addr(),
        final(u)@.listeners == old(st)@.listeners,
        final(u)@.tcp == old(st)@.tcp,
        final(u)@.ports == old(st)@.ports,
{
    let s = old(st)@;
    crate::state::lemma_found_listener(s.listeners, l.addr(), 0);
    if s.find_listener(l.addr()) is None {
        crate::state::lemma_no_listener(s.listeners, l.addr(), 0);
    }
    let i = s.find_listener(l.addr())->0;
    crate::state::lemma_listener_held(s, i);
    lemma_listener_kept(l, s, final(st)@);
    assert(final(u)@.listeners =~= s.listeners);
}

/// A connection within no time at all cannot be asked for, and one within some
/// time is made as any other.
pub proof fn law_connect_within_a_time(
    st: &mut TestState,
    u: &mut TestState,
    now: Now,
    addr: SocketAddr,
    targets: Vec<SocketAddr>,
    timeout: Duration,
    r: Result<ShimStdTcpStream, Error>,
    q: Result<ShimStdTcpStream, Error>,
)
    requires
        old(st)@ == old(u)@,
        targets@ == seq![addr],
        call_ensures(ShimStdTcpStream::connect_timeout, (st, now, &addr, timeout), r),
        call_ensures(ShimStdTcpStream::connect, (u, now, targets), q),
    ensures
        timeout@ == 0 ==> r is Err && r->Err_0@.kind == ErrorKind::InvalidInput && final(st)@
            == old(st)@,
        timeout@ > 0 ==> (r is Ok <==> q is Ok) && final(st)@ == final(u)@,
        timeout@ > 0 && r is Ok ==> r->Ok_0.id() == q->Ok_0.id(),
        timeout@ > 0 && r is Err ==> r->Err_0@ == q->Err_0@,
{
}

// ----- Options of a UDP socket -----

proof fn lemma_socket_kept(s: StateView, t: StateView, addr: SocketAddr)
    requires
        s.has_udp(addr),
        t.udp.len() == s.udp.len(),
        forall|j: int| 0 <= j < s.udp.len() ==> (#[trigger] t.udp[j]).addr == s.udp[j].addr,
    ensures
        t.find_udp(addr) == s.find_udp(addr),
        s.find_udp(addr) is Some,
        0 <= s.find_udp(addr)->0 < s.udp.len(),
        s.udp[s.find_udp(addr)->0].addr == addr,
        t.has_udp(addr),
{
    crate::poll_laws::lemma_same_socket(t.udp, s.udp, addr, 0);
    crate::poll_laws::lemma_same_socket(s.udp, s.udp, addr, 0);
    if s.find_udp(addr) is None {
        crate::state::lemma_no_udp(s.udp, addr, 0);
    }
    let i = s.find_udp(addr)->0;
    assert(t.udp[i].addr == addr);
}

/// What was set is found under whatever is like it.
proof fn lemma_option_alike(configs: Seq<UdpConfigs>, c: UdpConfigs, d: UdpConfigs)
    requires
        c.alike(d),
    ensures
        crate::shim_std_udp::option_like(crate::shim_std_udp::with_option(configs, c), d) == Some(c),
        crate::shim_std_udp::option_like(crate::shim_std_udp::without(configs, d), d) is None,
{
    law_options_are_independent(configs, c, c);
    law_options_are_independent(configs, d, d);
    lemma_option_from_alike(crate::shim_std_udp::with_option(configs, c), c, d, 0);
}

proof fn lemma_option_from_alike(configs: Seq<UdpConfigs>, c: UdpConfigs, d: UdpConfigs, from: int)
    requires
        c.alike(d),
        0 <= from,
    ensures
        crate::shim_std_udp::option_from(configs, c, from) == crate::shim_std_udp::option_from(
            configs,
            d,
            from,
        ),
    decreases configs.len() - from,
{
    if from < configs.len() {
        assert(configs[from].alike(c) == configs[from].alike(d));
        lemma_option_from_alike(configs, c, d, from + 1);
    }
}

/// A timeout for receiving, which cannot be zero, is read back as it was set, through every handle of that socket.
pub proof fn law_udp_read_timeout_is_read_back(
    a: ShimStdUdpSocket,
    b: ShimStdUdpSocket,
    st: &mut TestState,
    u: &TestState,
    value: Option<Duration>,
    r: Result<(), Error>,
    q: Result<Option<Duration>, Error>,
)
    requires
        old(st)@.has_udp(a.addr()),
        a.addr() == b.addr(),
        call_ensures(ShimStdUdpSocket::set_read_timeout, (&a, st, value), r),
        final(st)@ == u@,
        call_ensures(ShimStdUdpSocket::read_timeout, (&b, u), q),
    ensures
        r is Err <==> value is Some && value->0@ == 0,
        r is Err ==> r->Err_0@.kind == ErrorKind::InvalidInput && final(st)@ == old(st)@,
        r is Ok ==> q == Ok::<Option<Duration>, Error>(value),
{
    let s = old(st)@;
    lemma_socket_kept(s, s, a.addr());
    lemma_socket_kept(s, final(st)@, a.addr());
    let i = s.find_udp(a.addr())->0;
    let c = match value {
        Some(d) => UdpConfigs::ReadTimeout(d),
        None => UdpConfigs::ReadTimeout(Duration::of(0)),
    };
    lemma_option_alike(s.udp[i].configs, c, UdpConfigs::ReadTimeout(Duration::of(0)));
}

/// A timeout for sending, which cannot be zero, is read back as it was set, through every handle of that socket.
pub proof fn law_udp_write_timeout_is_read_back(
    a: ShimStdUdpSocket,
    b: ShimStdUdpSocket,
    st: &mut TestState,
    u: &TestState,
    value: Option<Duration>,
    r: Result<(), Error>,
    q: Result<Option<Duration>, Error>,
)
    requires
        old(st)@.has_udp(a.addr()),
        a.addr() == b.addr(),
        call_ensures(ShimStdUdpSocket::set_write_timeout, (&a, st, value), r),
        final(st)@ == u@,
        call_ensures(ShimStdUdpSocket::write_timeout, (&b, u), q),
    ensures
        r is Err <==> value is Some && value->0@ == 0,
        r is Err ==> r->Err_0@.kind == ErrorKind::InvalidInput && final(st)@ == old(st)@,
        r is Ok ==> q == Ok::<Option<Duration>, Error>(value),
{
    let s = old(st)@;
    lemma_socket_kept(s, s, a.addr());
    lemma_socket_kept(s, final(st)@, a.addr());
    let i = s.find_udp(a.addr())->0;
    let c = match value {
        Some(d) => UdpConfigs::WriteTimeout(d),
        None => UdpConfigs::WriteTimeout(Duration::of(0)),
    };
    lemma_option_alike(s.udp[i].configs, c, UdpConfigs::WriteTimeout(Duration::of(0)));
}

/// Whether to broadcast is read back as it was set, through every handle of that socket.
pub proof fn law_udp_broadcast_is_read_back(
    a: ShimStdUdpSocket,
    b: ShimStdUdpSocket,
    st: &mut TestState,
    u: &TestState,
    value: bool,
    r: Result<(), Error>,
    q: Result<bool, Error>,
)
    requires
        old(st)@.has_udp(a.addr()),
        a.addr() == b.addr(),
        call_ensures(ShimStdUdpSocket::set_broadcast, (&a, st, value), r),
        final(st)@ == u@,
        call_ensures(ShimStdUdpSocket::broadcast, (&b, u), q),
    ensures
        r is Ok,
        q == Ok::<bool, Error>(value),
{
    let s = old(st)@;
    lemma_socket_kept(s, s, a.addr());
    lemma_socket_kept(s, final(st)@, a.addr());
    let i = s.find_udp(a.addr())->0;
    law_options_are_independent(s.udp[i].configs, UdpConfigs::Broadcast, UdpConfigs::Broadcast);
}

/// Whether IPv4 multicast loops back is read back as it was set, through every handle of that socket.
pub proof fn law_udp_multicast_loop_v4_is_read_back(
    a: ShimStdUdpSocket,
    b: ShimStdUdpSocket,
    st: &mut TestState,
    u: &TestState,
    value: bool,
    r: Result<(), Error>,
    q: Result<bool, Error>,
)
    requires
        old(st)@.has_udp(a.addr()),
        a.addr() == b.addr(),
        call_ensures(ShimStdUdpSocket::set_multicast_loop_v4, (&a, st, value), r),
        final(st)@ == u@,
        call_ensures(ShimStdUdpSocket::multicast_loop_v4, (&b, u), q),
    ensures
        r is Ok,
        q == Ok::<bool, Error>(value),
{
    let s = old(st)@;
    lemma_socket_kept(s, s, a.addr());
    lemma_socket_kept(s, final(st)@, a.addr());
    let i = s.find_udp(a.addr())->0;
    law_options_are_independent(s.udp[i].configs, UdpConfigs::Ipv4MulticastLoop, UdpConfigs::Ipv4MulticastLoop);
}

/// Whether IPv6 multicast loops back is read back as it was set, through every handle of that socket.
pub proof fn law_udp_multicast_loop_v6_is_read_back(
    a: ShimStdUdpSocket,
    b: ShimStdUdpSocket,
    st: &mut TestState,
    u: &TestState,
    value: bool,
    r: Result<(), Error>,
    q: Result<bool, Error>,
)
    requires
        old(st)@.has_udp(a.addr()),
        a.addr() == b.addr(),
        call_ensures(ShimStdUdpSocket::set_multicast_loop_v6, (&a, st, value), r),
        final(st)@ == u@,
        call_ensures(ShimStdUdpSocket::multicast_loop_v6, (&b, u), q),
    ensures
        r is Ok,
        q == Ok::<bool, Error>(value),
{
    let s = old(st)@;
    lemma_socket_kept(s, s, a.addr());
    lemma_socket_kept(s, final(st)@, a.addr());
    let i = s.find_udp(a.addr())->0;
    law_options_are_independent(s.udp[i].configs, UdpConfigs::Ipv6MulticastLoop, UdpConfigs::Ipv6MulticastLoop);
}

/// The time to live of multicast packets is read back as it was set, through every handle of that socket.
pub proof fn law_udp_multicast_ttl_v4_is_read_back(
    a: ShimStdUdpSocket,
    b: ShimStdUdpSocket,
    st: &mut TestState,
    u: &TestState,
    value: u32,
    r: Result<(), Error>,
    q: Result<u32, Error>,
)
    requires
        old(st)@.has_udp(a.addr()),
        a.addr() == b.addr(),
        call_ensures(ShimStdUdpSocket::set_multicast_ttl_v4, (&a, st, value), r),
        final(st)@ == u@,
        call_ensures(ShimStdUdpSocket::multicast_ttl_v4, (&b, u), q),
    ensures
        r is Ok,
        q == Ok::<u32, Error>(value),
{
    let s = old(st)@;
    lemma_socket_kept(s, s, a.addr());
    lemma_socket_kept(s, final(st)@, a.addr());
    let i = s.find_udp(a.addr())->0;
    lemma_option_alike(s.udp[i].configs, UdpConfigs::IpMulticastTtl(value), UdpConfigs::IpMulticastTtl(0));
}

/// The time to live is read back as it was set, through every handle of that socket.
pub proof fn law_udp_ttl_is_read_back(
    a: ShimStdUdpSocket,
    b: ShimStdUdpSocket,
    st: &mut TestState,
    u: &TestState,
    value: u32,
    r: Result<(), Error>,
    q: Result<u32, Error>,
)
    requires
        old(st)@.has_udp(a.addr()),
        a.addr() == b.addr(),
        call_ensures(ShimStdUdpSocket::set_ttl, (&a, st, value), r),
        final(st)@ == u@,
        call_ensures(ShimStdUdpSocket::ttl, (&b, u), q),
    ensures
        r is Ok,
        q == Ok::<u32, Error>(value),
{
    let s = old(st)@;
    lemma_socket_kept(s, s, a.addr());
    lemma_socket_kept(s, final(st)@, a.addr());
    let i = s.find_udp(a.addr())->0;
    lemma_option_alike(s.udp[i].configs, UdpConfigs::IpTtl(value), UdpConfigs::IpTtl(0));
}

/// A socket that is told not to block says that there is nothing, and one that
/// may block waits.
pub proof fn law_udp_blocking_is_as_set(
    a: ShimStdUdpSocket,
    st: &mut TestState,
    u: &mut TestState,
    now: Now,
    nonblocking: bool,
    buf: &mut [u8],
    r: Result<(), Error>,
    q: Result<RecvStep, Error>,
)
    requires
        old(st)@.has_udp(a.addr()),
        a.socket(old(st)@).to_local.len() == 0,
        a.socket(old(st)@).pending.len() == 0,
        !a.socket(old(st)@).destroyed,
        call_ensures(ShimStdUdpSocket::set_nonblocking, (&a, st, nonblocking), r),
        final(st)@ == old(u)@,
        call_ensures(ShimStdUdpSocket::recv_from, (&a, u, now, buf), q),
    ensures
        r is Ok,
        nonblocking ==> q is Err && q->Err_0@.kind == ErrorKind::WouldBlock,
        !nonblocking ==> q is Ok && q->Ok_0 is Wait,
        final(buf)@ == old(buf)@,
{
    let s = old(st)@;
    lemma_socket_kept(s, s, a.addr());
    lemma_socket_kept(s, final(st)@, a.addr());
    let i = s.find_udp(a.addr())->0;
    law_options_are_independent(s.udp[i].configs, UdpConfigs::NonBlocking, UdpConfigs::NonBlocking);
    let v = final(st)@.udp[i];
    assert(v.released(now.mono@) == v);
}

/// A socket that was connected says to whom, and sends there what it is given no
/// address for: the packet waits, whole, for whoever is there.
pub proof fn law_connected_socket_sends_to_its_peer(
    a: ShimStdUdpSocket,
    st: &mut TestState,
    u: &mut TestState,
    now: Now,
    addrs: &[SocketAddr],
    data: &[u8],
    r: Result<(), Error>,
    p: Result<SocketAddr, Error>,
    q: Result<usize, Error>,
    v: &TestState,
)
    requires
        old(st)@.has_udp(a.addr()),
        call_ensures(ShimStdUdpSocket::connect, (&a, st, addrs), r),
        final(st)@ == old(u)@,
        final(st)@ == v@,
        call_ensures(ShimStdUdpSocket::peer_addr, (&a, v), p),
        call_ensures(ShimStdUdpSocket::send, (&a, u, now, data), q),
        data@.len() <= usize::MAX,
    ensures
        r is Ok <==> addrs@.len() > 0,
        r is Err ==> r->Err_0@.kind == ErrorKind::InvalidInput && final(st)@ == old(st)@,
        r is Ok ==> p == Ok::<SocketAddr, Error>(addrs@[0]),
        r is Ok && q is Ok ==> {
            let i = old(st)@.find_udp(a.addr())->0;
            let sent = final(u)@.udp[i].from_local;
            &&& q->Ok_0 == data@.len()
            &&& sent.len() == old(st)@.udp[i].from_local.len() + 1
            &&& sent.last().data == data@
            &&& sent.last().dest == addrs@[0]
            &&& sent.last().source == a.addr()
        },
        r is Err && old(st)@.udp[old(st)@.find_udp(a.addr())->0].remote is None ==> p is Err && q
            is Err && q->Err_0@.kind == ErrorKind::NotConnected,
{
    let s = old(st)@;
    lemma_socket_kept(s, s, a.addr());
    lemma_socket_kept(s, final(st)@, a.addr());
}

/// The error that a socket has to report is reported once.
pub proof fn law_udp_error_is_taken_once(
    a: ShimStdUdpSocket,
    st: &mut TestState,
    u: &mut TestState,
    r: Result<Option<Error>, Error>,
    q: Result<Option<Error>, Error>,
)
    requires
        old(st)@.has_udp(a.addr()),
        call_ensures(ShimStdUdpSocket::take_error, (&a, st), r),
        final(st)@ == old(u)@,
        call_ensures(ShimStdUdpSocket::take_error, (&a, u), q),
    ensures
        r is Ok,
        q is Ok,
        r->Ok_0 is Some <==> a.socket(old(st)@).error is Some,
        q->Ok_0 is None,
{
    let s = old(st)@;
    lemma_socket_kept(s, s, a.addr());
    lemma_socket_kept(s, final(st)@, a.addr());
}

/// A packet that one socket sends to an address is what is picked up there, where
/// no other waits for it.
pub proof fn law_sent_packet_is_picked_up(
    a: ShimStdUdpSocket,
    st: &mut TestState,
    u: &mut TestState,
    now: Now,
    data: &[u8],
    addrs: &[SocketAddr],
    r: Result<usize, Error>,
    q: Option<crate::conn::Packet>,
)
    requires
        old(st)@.has_udp(a.addr()),
        addrs@.len() > 0,
        call_ensures(ShimStdUdpSocket::send_to, (&a, st, now, data, addrs), r),
        r is Ok,
        final(st)@ == old(u)@,
        call_ensures(crate::state::pop_latest_packet, (u, addrs@[0]), q),
        forall|v: int, p: int| !#[trigger] crate::run_laws::packet_waits(old(st)@, v, p, addrs@[0]),
        data@.len() <= usize::MAX,
    ensures
        q is Some,
        q->0@.data == data@,
        q->0@.source == a.addr(),
        q->0@.dest == addrs@[0],
        final(u)@.udp == old(st)@.udp,
{
    let s = old(st)@;
    let t = final(st)@;
    lemma_socket_kept(s, s, a.addr());
    let i = s.find_udp(a.addr())->0;
    crate::datagram_laws::law_socket_sends_behind_what_it_sent(s, now, a.addr(), addrs@, data@, i);
    let n = s.udp[i].from_local.len() as int;
    crate::run_laws::lemma_first_sender(t, addrs@[0], 0);
    assert(crate::run_laws::packet_waits(t, i, n, addrs@[0]));
    assert forall|v: int, p: int|
        #[trigger] crate::run_laws::packet_waits(t, v, p, addrs@[0]) implies v == i && p == n by {
        if v != i || p < n {
            assert(crate::run_laws::packet_waits(s, v, p, addrs@[0]));
        }
    }
    assert(t.udp[i].from_local.remove(n) =~= s.udp[i].from_local);
    assert(final(u)@.udp =~= s.udp);
}

// ----- Settings of the network -----

/// How a listener is to behave is read back, and nothing is set for any other
/// address; where nothing was set, it accepts.
pub proof fn law_behavior_is_read_back(
    st: &mut TestState,
    u: &TestState,
    addr: SocketAddr,
    other: SocketAddr,
    behavior: ListenerBehavior,
    q: ListenerBehavior,
)
    requires
        call_ensures(crate::state::set_listener_behavior, (st, addr, behavior), ()),
        final(st)@ == u@,
        call_ensures(crate::state::listener_behavior, (u, other), q),
    ensures
        other == addr ==> q == behavior,
        other != addr && old(st)@.behaviors.dom().contains(other) ==> q
            == old(st)@.behaviors[other],
        other != addr && !old(st)@.behaviors.dom().contains(other) ==> q
            == ListenerBehavior::Accepting,
        final(st)@.tcp == old(st)@.tcp && final(st)@.listeners == old(st)@.listeners,
{
}

/// The latency of a link is read back, with its window as it was; that of any
/// other link stays.
pub proof fn law_latency_is_read_back(
    st: &mut TestState,
    u: &TestState,
    v: &TestState,
    addr: SocketAddr,
    other: SocketAddr,
    latency: Duration,
    before: TcpPolicy,
    q: TcpPolicy,
)
    requires
        old(st)@ == v@,
        call_ensures(crate::state::tcp_policy, (v, other), before),
        call_ensures(crate::state::set_tcp_inbound_latency, (st, addr, latency), ()),
        final(st)@ == u@,
        call_ensures(crate::state::tcp_policy, (u, other), q),
    ensures
        q.recv_window == before.recv_window,
        other == addr ==> q.inbound_latency == latency,
        other != addr ==> q == before,
        !old(st)@.tcp_policies.dom().contains(other) ==> before.recv_window is None
            && before.inbound_latency@ == 0,
        final(st)@.tcp == old(st)@.tcp && final(st)@.listeners == old(st)@.listeners,
        final(st)@.udp_policies == old(st)@.udp_policies,
{
    Duration::lemma_of(0);
}

/// The window of a link is read back, with its latency as it was; that of any
/// other link stays.
pub proof fn law_window_is_read_back(
    st: &mut TestState,
    u: &TestState,
    v: &TestState,
    addr: SocketAddr,
    other: SocketAddr,
    window: Option<usize>,
    before: TcpPolicy,
    q: TcpPolicy,
)
    requires
        old(st)@ == v@,
        call_ensures(crate::state::tcp_policy, (v, other), before),
        call_ensures(crate::state::set_tcp_recv_window, (st, addr, window), ()),
        final(st)@ == u@,
        call_ensures(crate::state::tcp_policy, (u, other), q),
    ensures
        q.inbound_latency == before.inbound_latency,
        other == addr ==> q.recv_window == window,
        other != addr ==> q == before,
        final(st)@.tcp == old(st)@.tcp && final(st)@.listeners == old(st)@.listeners,
        final(st)@.udp_policies == old(st)@.udp_policies,
{
}

/// The policy of a UDP socket is read back, and that of any other stays; where
/// none was set, nothing is lost, doubled, delayed or bounded.
pub proof fn law_udp_policy_is_read_back(
    st: &mut TestState,
    u: &TestState,
    v: &TestState,
    addr: SocketAddr,
    other: SocketAddr,
    policy: UdpPolicy,
    before: UdpPolicy,
    q: UdpPolicy,
)
    requires
        old(st)@ == v@,
        call_ensures(crate::state::udp_policy, (v, other), before),
        call_ensures(crate::state::set_udp_policy, (st, addr, policy), ()),
        final(st)@ == u@,
        call_ensures(crate::state::udp_policy, (u, other), q),
    ensures
        other == addr ==> q == policy,
        other != addr ==> q == before,
        !old(st)@.udp_policies.dom().contains(other) ==> {
            &&& before.loss_rate.parts() == 0
            &&& before.duplicate_rate.parts() == 0
            &&& before.inbound_latency@ == 0
            &&& before.reorder_jitter@ == 0
            &&& before.send_queue_depth is None
            &&& before.mtu is None
        },
        final(st)@.udp == old(st)@.udp && final(st)@.tcp_policies == old(st)@.tcp_policies,
{
    Duration::lemma_of(0);
    crate::rng::Probability::lemma_of(0);
}

/// An address that was added is valid from then on, and no other became so.
pub proof fn law_added_address_is_valid(
    st: &mut TestState,
    u: &TestState,
    ip: IpAddr,
    other: IpAddr,
    q: bool,
)
    requires
        call_ensures(crate::state::add_ip_addr, (st, ip), ()),
        final(st)@ == u@,
        call_ensures(crate::state::is_ip_addr_valid, (u, other), q),
    ensures
        q <==> other == ip || old(st)@.ips.contains(other),
        final(st)@.ports == old(st)@.ports && final(st)@.tcp == old(st)@.tcp,
{
}

/// In a new network the unspecified addresses and the loopback addresses are
/// valid, of both families, and no others; every port is free, nothing is there,
/// nothing is set, and its clock begins at nothing and runs in real time.
pub proof fn law_new_network_is_empty(
    now: Now,
    st: TestState,
    ip: IpAddr,
    port: u16,
    valid: bool,
    free: bool,
)
    requires
        call_ensures(TestState::new, (now,), st),
        call_ensures(crate::state::is_ip_addr_valid, (&st, ip), valid),
        call_ensures(crate::state::is_port_available, (&st, port), free),
    ensures
        valid <==> match ip {
            IpAddr::V4(a) => a.bits == 0 || a.bits == 127 * 0x100_0000 + 1,
            IpAddr::V6(a) => a.bits == 0 || a.bits == 1,
        },
        free,
        st@.tcp.len() == 0 && st@.listeners.len() == 0 && st@.udp.len() == 0,
        st@.log.len() == 0 && st@.capture is None && st@.rng is None && st@.test_name is None,
        st@.next_port == 40_000,
        forall|a: SocketAddr| #[trigger]
            st@.behavior(a) == ListenerBehavior::Accepting && !st@.deaf(0, a) && !st@.mute(0, a),
        st@.clock.mono(now.mono@) == 0,
        st@.clock.num == 1 && st@.clock.den == 1,
{
}

/// What a window hides is what it was opened for, at its address and until its
/// time.
pub proof fn law_window_hides_its_directions(
    st: &mut TestState,
    u: &mut TestState,
    v: &mut TestState,
    now: Now,
    later: Now,
    addr: SocketAddr,
    other: SocketAddr,
    dur: Duration,
    mode: QuiesceMode,
    input: bool,
    output: bool,
)
    requires
        call_ensures(crate::state::quiesce_with_mode, (st, now, addr, dur, mode), ()),
        final(st)@ == old(u)@,
        final(st)@ == old(v)@,
        call_ensures(crate::state::is_quiesced_inbound, (u, later, other), input),
        call_ensures(crate::state::is_quiesced_outbound, (v, later, other), output),
        now.mono@ + dur@ <= crate::time::MAX_NANOS,
        old(st)@.quiesce.dom() == Set::<SocketAddr>::empty(),
    ensures
        input <==> other == addr && later.mono@ < now.mono@ + dur@ && mode
            != QuiesceMode::OutboundOnly,
        output <==> other == addr && later.mono@ < now.mono@ + dur@ && mode
            != QuiesceMode::InboundOnly,
        final(st)@.tcp == old(st)@.tcp && final(st)@.udp == old(st)@.udp,
        final(st)@.log.len() == old(st)@.log.len() + 1,
        final(st)@.log.last().event == (RecordedEvent::Quiesce {
            addr,
            dur: Duration::of(dur@),
            mode,
        }),
{
    crate::time::Instant::lemma_of(now.mono@ + dur@);
}

/// A window that is opened without more said hides both directions.
pub proof fn law_plain_window_hides_both(
    st: &mut TestState,
    u: &mut TestState,
    now: Now,
    addr: SocketAddr,
    dur: Duration,
)
    requires
        old(st)@ == old(u)@,
        call_ensures(crate::state::quiesce, (st, now, addr, dur), ()),
        call_ensures(
            crate::state::quiesce_with_mode,
            (u, now, addr, dur, QuiesceMode::Both),
            (),
        ),
    ensures
        final(st)@ == final(u)@,
{
}

/// An event that is recorded is the last one that is found, with its time;
/// clearing leaves none.
pub proof fn law_recorded_event_is_found(
    st: &mut TestState,
    u: &TestState,
    v: &mut TestState,
    w: &TestState,
    now: Now,
    event: RecordedEvent,
    r: Vec<RecordedEntry>,
    q: Vec<RecordedEntry>,
)
    requires
        call_ensures(crate::state::record, (st, now, event), ()),
        final(st)@ == u@,
        call_ensures(crate::state::recorded_events, (u,), r),
        final(st)@ == old(v)@,
        call_ensures(crate::state::clear_recorded_events, (v,), ()),
        final(v)@ == w@,
        call_ensures(crate::state::recorded_events, (w,), q),
    ensures
        r@.len() == old(st)@.log.len() + 1,
        r@.take(old(st)@.log.len() as int) == old(st)@.log,
        r@.last().event == event,
        r@.last().at == now.mono,
        q@.len() == 0,
        final(v)@.tcp == old(st)@.tcp && final(v)@.udp == old(st)@.udp,
{
    assert(r@.take(old(st)@.log.len() as int) =~= old(st)@.log);
}

/// Who has a connection to an address is found by it, as long as nobody has
/// closed it: the oldest such connection's own address is given.
pub proof fn law_local_address_is_found(st: &TestState, peer: SocketAddr, r: Option<SocketAddr>)
    requires
        st@.tcp.len() <= usize::MAX,
        call_ensures(crate::state::peek_local_addr_for_peer, (st, peer), r),
    ensures
        r is None <==> forall|k: int|
            0 <= k < st@.tcp.len() && (#[trigger] st@.tcp[k]) is Some ==> st@.tcp[k]->0.peer_addr
                != peer || st@.tcp[k]->0.destroyed,
        r matches Some(local) ==> exists|k: int|
            {
                &&& 0 <= k < st@.tcp.len()
                &&& (#[trigger] st@.tcp[k]) is Some
                &&& st@.tcp[k]->0.peer_addr == peer
                &&& !st@.tcp[k]->0.destroyed
                &&& st@.tcp[k]->0.local_addr == local
                &&& forall|j: int|
                    0 <= j < k && (#[trigger] st@.tcp[j]) is Some ==> st@.tcp[j]->0.peer_addr
                        != peer || st@.tcp[j]->0.destroyed
            },
{
    crate::exchange_laws::law_oldest_end_is_found(
        st@.tcp,
        crate::state::Which::Towards(peer),
        0,
    );
}

/// Two networks that are seeded alike draw alike, whatever they drew before and
/// whatever time it is.
pub proof fn law_seed_fixes_what_is_drawn(
    st: &mut TestState,
    u: &mut TestState,
    seed: u64,
    now: Now,
    later: Now,
)
    requires
        call_ensures(crate::state::seed_rng, (st, seed), ()),
        call_ensures(crate::state::seed_rng, (u, seed), ()),
    ensures
        final(st)@.rng == final(u)@.rng,
        final(st)@.rng is Some && final(st)@.rng->0 != 0,
        seed != 0 ==> final(st)@.rng == Some(seed),
        final(st)@.draw(now) == final(u)@.draw(later),
        final(st)@.tcp == old(st)@.tcp && final(st)@.udp == old(st)@.udp,
{
}

// ----- Time -----

/// Time that is paused stands; time that goes on moves as real time does from
/// where it stood.
pub proof fn law_time_is_paused_and_resumed(
    st: &mut TestState,
    u: &mut TestState,
    v: &TestState,
    w: &TestState,
    at: Now,
    then: Now,
    later: Now,
    stood: Duration,
    went: Duration,
)
    requires
        old(st)@.wf(),
        call_ensures(crate::state::pause_time, (st, at), ()),
        final(st)@ == v@,
        call_ensures(crate::state::time_value, (v, then), stood),
        final(st)@ == old(u)@,
        call_ensures(crate::state::resume_time, (u, then), ()),
        final(u)@ == w@,
        call_ensures(crate::state::time_value, (w, later), went),
        then.mono@ <= later.mono@,
        stood@ + (later.mono@ - then.mono@) <= crate::time::MAX_NANOS,
    ensures
        stood@ == old(st)@.clock.mono(at.mono@),
        went@ == stood@ + (later.mono@ - then.mono@),
        final(u)@.tcp == old(st)@.tcp && final(u)@.udp == old(st)@.udp,
{
    let c = old(st)@.clock;
    let p = final(st)@.clock;
    crate::clock::law_rate_change_is_seamless(c, at.mono@, 0, 1, at.mono@);
    crate::clock::law_paused_clock_is_frozen(p, at.mono@, then.mono@);
    let span = (later.mono@ - then.mono@) as nat;
    assert(crate::clock::scaled(span, 1, 1) == span) by (nonlinear_arith)
        requires
            crate::clock::scaled(span, 1, 1) == (span * 1) / 1,
    ;
}

/// Time that is advanced is later by that much at once, whatever its rate, and
/// time that is set reads what it was set to.
pub proof fn law_time_is_moved(
    st: &mut TestState,
    u: &TestState,
    v: &TestState,
    w: &mut TestState,
    x: &TestState,
    now: Now,
    by: Duration,
    value: Duration,
    before: Duration,
    after: Duration,
    set: Duration,
)
    requires
        old(st)@.wf(),
        old(st)@.clock.anchor_virtual <= crate::time::MAX_NANOS,
        value@ <= crate::time::MAX_NANOS,
        old(st)@ == u@,
        call_ensures(crate::state::time_value, (u, now), before),
        call_ensures(crate::state::advance_time, (st, by), ()),
        final(st)@ == v@,
        call_ensures(crate::state::time_value, (v, now), after),
        final(st)@ == old(w)@,
        call_ensures(crate::state::set_time_value, (w, now, value), ()),
        final(w)@ == x@,
        call_ensures(crate::state::time_value, (x, now), set),
        before@ + by@ <= crate::time::MAX_NANOS,
    ensures
        after@ == before@ + by@,
        set@ == value@,
        final(w)@.clock.num == old(st)@.clock.num && final(w)@.clock.den == old(st)@.clock.den,
{
    crate::clock::law_advance_adds(old(st)@.clock, by@, now.mono@);
    crate::clock::law_set_value_is_read_back(final(st)@.clock, now.mono@, value@);
}

/// The rate of time is read back, and a change of it moves no reading.
pub proof fn law_rate_is_read_back(
    st: &mut TestState,
    u: &TestState,
    now: Now,
    rate: crate::clock::TimeRate,
    q: crate::clock::TimeRate,
    reading: Duration,
)
    requires
        old(st)@.wf(),
        rate.denominator() > 0,
        call_ensures(crate::state::set_time_rate, (st, now, rate), ()),
        final(st)@ == u@,
        call_ensures(crate::state::time_rate, (u,), q),
        call_ensures(crate::state::time_value, (u, now), reading),
    ensures
        q.numerator() == rate.numerator(),
        q.denominator() == rate.denominator(),
        reading@ == old(st)@.clock.mono(now.mono@),
{
    crate::clock::law_rate_change_is_seamless(
        old(st)@.clock,
        now.mono@,
        rate.numerator(),
        rate.denominator(),
        now.mono@,
    );
}

// ----- Capturing -----

/// What a capture holds is handed over once: what is taken is all that was
/// written since it was last taken, and taking again at once gives nothing.
pub proof fn law_capture_is_handed_over_once(
    st: &mut TestState,
    u: &mut TestState,
    v: &mut TestState,
    r: Vec<u8>,
    q: Vec<u8>,
)
    requires
        old(st)@.capture is None,
        call_ensures(crate::state::enable_pcapng, (st, true), ()),
        final(st)@ == old(u)@,
        call_ensures(crate::state::take_capture, (u,), r),
        final(u)@ == old(v)@,
        call_ensures(crate::state::take_capture, (v,), q),
    ensures
        final(st)@.capture is Some,
        r@ == crate::pcapng::file_header(),
        q@.len() == 0,
        final(v)@.tcp == old(st)@.tcp && final(v)@.udp == old(st)@.udp,
{
    let h = crate::pcapng::file_header();
    assert(h.skip(0) =~= h);
}

/// A capture that runs goes on, and one whose file could not be opened does not
/// begin.
pub proof fn law_capture_begins_once(st: &mut TestState, opened: bool)
    requires
        call_ensures(crate::state::enable_pcapng, (st, opened), ()),
    ensures
        old(st)@.capture is Some || !opened ==> final(st)@ == old(st)@,
        final(st)@.capture is Some <==> old(st)@.capture is Some || opened,
{
}

// ----- Polling -----

/// A waker that is woken is reported by the poll that follows, under the token
/// that it was made with.
pub proof fn law_woken_waker_ends_the_poll(
    reg: &mut Registry,
    reg2: &mut Registry,
    st: &mut TestState,
    token: Token,
    w: Result<Waker, Error>,
    r: Result<(), Error>,
    s: StateView,
    now: nat,
)
    requires
        call_ensures(Waker::new, (reg, token), w),
        final(reg)@ == old(reg2)@,
        w is Ok ==> call_ensures(Waker::wake, (&w->Ok_0, reg2, st), r),
    ensures
        w is Ok,
        r is Ok,
        final(reg2)@.waker_state == WakerState::Woken,
        final(st)@.wakes == old(st)@.wakes + 1,
        ({
            let all = crate::mio_shim::scanned(final(reg2)@, s, now).1;
            &&& all.len() > 0
            &&& all[0].token == token
            &&& all[0].is_readable && all[0].is_writable
        }),
        final(reg2)@.streams == old(reg)@.streams,
{
    crate::poll_laws::law_woken_waker_comes_first(final(reg2)@, s, now);
}

/// What is asked for by name is what its name says.
pub proof fn law_interests_are_as_named(r: Interest, w: Interest, b: Interest)
    requires
        call_ensures(Interest::readable, (), r),
        call_ensures(Interest::writable, (), w),
        call_ensures(Interest::both, (), b),
    ensures
        r.readable && !r.writable,
        !w.readable && w.writable,
        b.readable && b.writable,
{
}

// ----- Other calls -----

/// A close that is to linger lingers for as long as was set, for the peer that
/// the end has; without either it does not.
pub proof fn law_linger_is_as_set(
    a: ShimStdTcpStream,
    st: &mut TestState,
    u: &TestState,
    now: Now,
    linger: Option<Duration>,
    r: Result<(), Error>,
    q: Option<crate::shim_std_tcp::Lingering>,
)
    requires
        old(st)@.usable(a.id()),
        call_ensures(ShimStdTcpStream::set_linger, (&a, st, linger), r),
        r is Ok,
        final(st)@ == u@,
        call_ensures(ShimStdTcpStream::linger_begin, (&a, u, now), q),
        linger is Some ==> now.mono@ + linger->0@ <= crate::time::MAX_NANOS,
    ensures
        q is Some <==> linger is Some && old(st)@.conn(a.id()).peer is Some,
        q matches Some(w) ==> Some(w.peer_id) == old(st)@.conn(a.id()).peer && w.deadline@
            == now.mono@ + linger->0@,
{
    if linger is Some {
        crate::time::Instant::lemma_of(now.mono@ + linger->0@);
    }
}

/// Taking what comes in one after the other is accepting.
pub proof fn law_incoming_accepts(
    l: ShimStdTcpListener,
    st: &mut TestState,
    u: &mut TestState,
    it: crate::shim_std_tcp::Incoming<'_>,
    i: &mut crate::shim_std_tcp::Incoming<'_>,
    r: Result<Option<(ShimStdTcpStream, SocketAddr)>, Error>,
    q: Result<Option<ShimStdTcpStream>, Error>,
)
    requires
        old(st)@ == old(u)@,
        call_ensures(ShimStdTcpListener::incoming, (&l,), it),
        old(i).addr() == it.addr(),
        call_ensures(ShimStdTcpListener::accept, (&l, st), r),
        call_ensures(crate::shim_std_tcp::Incoming::next, (i, u), q),
    ensures
        final(st)@ == final(u)@,
        r is Ok <==> q is Ok,
        r is Ok ==> (r->Ok_0 is Some <==> q->Ok_0 is Some),
        r is Ok && r->Ok_0 is Some ==> ({
            let (stream, _) = r->Ok_0->Some_0;
            q->Ok_0->Some_0.id() == stream.id()
        }),
        r is Err ==> q->Err_0@ == r->Err_0@,
        final(i).addr() == old(i).addr(),
{
}

/// What a tester used of a stream is gone from its front; more than there is
/// leaves nothing. No other end notices.
pub proof fn law_consumed_bytes_are_gone(
    st: &TestState,
    u: &mut TestState,
    v: &TestState,
    id: usize,
    amount: usize,
    before: Vec<u8>,
    after: Vec<u8>,
)
    requires
        st@.live(id),
        st@ == old(u)@,
        call_ensures(crate::state::peek_tcp_stream_data, (st, id), before),
        call_ensures(crate::state::consume_tcp_stream_data, (u, id, amount), ()),
        final(u)@ == v@,
        call_ensures(crate::state::peek_tcp_stream_data, (v, id), after),
    ensures
        amount <= before@.len() ==> after@ == before@.skip(amount as int),
        amount > before@.len() ==> after@.len() == 0,
        forall|k: int| 0 <= k < st@.tcp.len() && k != id ==> #[trigger] v@.tcp[k] == st@.tcp[k],
        v@.conn(id).pending == st@.conn(id).pending && v@.conn(id).peer == st@.conn(id).peer,
{
    if amount == before@.len() {
        assert(before@.skip(amount as int) =~= Seq::<u8>::empty());
    }
}

/// Whether something waits to be picked up is whether there is something.
pub proof fn law_pending_is_what_can_be_picked_up(
    st: &TestState,
    u: &mut TestState,
    addr: SocketAddr,
    pending: bool,
    q: Option<crate::conn::Packet>,
)
    requires
        st@ == old(u)@,
        call_ensures(crate::state::has_pending_udp_packet, (st, addr), pending),
        call_ensures(crate::state::pop_latest_packet, (u, addr), q),
    ensures
        pending <==> q is Some,
        q matches Some(p) ==> p@.dest == addr,
        q is None ==> final(u)@ == old(u)@,
        pending <==> exists|v: int, p: int| #[trigger]
            crate::run_laws::packet_waits(st@, v, p, addr),
{
    crate::run_laws::lemma_first_sender(st@, addr, 0);
}

/// An address that is reserved is at the IP address that was asked for, behind a
/// port that was free, and the port is taken from then on.
pub proof fn law_reserved_address_is_taken(
    st: &mut TestState,
    u: &TestState,
    ip: IpAddr,
    r: SocketAddr,
    free: bool,
)
    requires
        old(st)@.wf(),
        crate::state::has_free_port(old(st)@.ports),
        call_ensures(crate::state::reserve_ephemeral_addr, (st, ip), r),
        final(st)@ == u@,
        call_ensures(crate::state::is_port_available, (u, r.port_part()), free),
    ensures
        r.ip_part() == ip,
        40_000 <= r.port_part(),
        !old(st)@.ports.contains(r.port_part()),
        !free,
        forall|p: u16|
            p != r.port_part() ==> (#[trigger] final(st)@.ports.contains(p)
                == old(st)@.ports.contains(p)),
{
    crate::state::law_ephemeral_port_was_free(old(st)@);
}

/// A capture is named after the test, or else after the thread that asks for it;
/// where one runs, or neither has a name, no file is to be opened.
pub proof fn law_capture_is_named_after_its_test(
    st: &TestState,
    thread_name: Option<&str>,
    r: Option<String>,
)
    requires
        call_ensures(crate::state::pcap_file_to_open, (st, thread_name), r),
    ensures
        r is Some <==> st@.capture is None && (st@.test_name is Some || thread_name is Some),
        r is Some && st@.test_name is Some ==> r->0@.len() == st@.test_name->0.len() + 7,
        r is Some && st@.test_name is None ==> r->0@.len() == thread_name->0@.len() + 7,
        r is Some && st@.test_name is Some ==> r->0@ == crate::pcapng::capture_name(
            st@.test_name->0,
        ),
        r is Some && st@.test_name is None ==> r->0@ == crate::pcapng::capture_name(
            thread_name->0@,
        ),
{
    reveal_strlit(".pcapng");
}

/// A sleep ends as much later as was asked for, on the network's clock; one of no
/// length is over, and any other is not where the clock has not moved yet.
pub proof fn law_sleep_ends_when_asked(
    st: &TestState,
    now: Now,
    dur: Duration,
    reading: Duration,
    r: (Duration, crate::clock::SleepStep),
)
    requires
        call_ensures(crate::state::time_value, (st, now), reading),
        call_ensures(crate::thread::sleep, (st, now, dur), r),
        reading@ + dur@ <= crate::time::MAX_NANOS,
        st@.wf(),
    ensures
        r.0@ == reading@ + dur@,
        r.1@ is Over <==> dur@ == 0,
        dur@ > 0 && st@.clock.num == 0 ==> r.1@ is UntilNotified,
        dur@ > 0 && st@.clock.num == st@.clock.den ==> r.1@ == crate::clock::SleepView::For(dur@),
{
    let c = st@.clock;
    if dur@ > 0 && c.num == c.den {
        let (d, n) = (dur@, c.num);
        assert((d * n + n - 1) / (n as int) == d) by (nonlinear_arith)
            requires
                n > 0,
        ;
    }
}

/// The wall clock of a new network reads what it was when the network was made.
pub proof fn law_new_wall_clock_reads_the_time(
    now: Now,
    st: TestState,
    wall: crate::time::SystemTime,
)
    requires
        call_ensures(TestState::new, (now,), st),
        call_ensures(crate::state::clock_wall_now, (&st, now), wall),
        now.wall@ <= crate::time::MAX_NANOS,
    ensures
        wall@ == now.wall@,
{
}

/// Windows that have closed are forgotten, and those that are open stay.
pub proof fn law_open_windows_are_kept(
    st: &mut TestState,
    now: Now,
    addr: SocketAddr,
    other: SocketAddr,
    r: Option<crate::policy::QuiesceEntry>,
)
    requires
        call_ensures(crate::state::quiesce_entry, (st, now, addr), r),
    ensures
        r is Some <==> old(st)@.quiesce.dom().contains(addr) && now.mono@
            < old(st)@.quiesce[addr].until@,
        r matches Some(e) ==> e == old(st)@.quiesce[addr],
        final(st)@.quiesce.dom().contains(other) <==> old(st)@.quiesce.dom().contains(other)
            && now.mono@ < old(st)@.quiesce[other].until@,
        final(st)@.quiesce.dom().contains(other) ==> final(st)@.quiesce[other]
            == old(st)@.quiesce[other],
        final(st)@.tcp == old(st)@.tcp && final(st)@.udp == old(st)@.udp,
{
}

/// A wait that nobody cut short fails when its time is up, and not before; one
/// that somebody cut short does not fail, nor does one without a time.
pub proof fn law_wait_fails_when_its_time_is_up(
    st: &TestState,
    now: Now,
    later: Now,
    timeout: Duration,
    deadline: &mut Option<crate::time::Instant>,
    woken: bool,
    r: Result<crate::shim_std_tcp::WaitStep, Error>,
    q: Result<(), Error>,
)
    requires
        *old(deadline) is None,
        call_ensures(crate::shim_std_tcp::before_wait, (st, now, Some(timeout), deadline), r),
        call_ensures(crate::shim_std_tcp::after_wait, (later, woken, *final(deadline)), q),
        now.mono@ + timeout@ <= crate::time::MAX_NANOS,
    ensures
        r is Ok <==> timeout@ > 0,
        *final(deadline) is Some,
        (*final(deadline))->0@ == now.mono@ + timeout@,
        q is Err <==> !woken && later.mono@ >= now.mono@ + timeout@,
        q is Err ==> q->Err_0@.kind == ErrorKind::WouldBlock,
{
    crate::exchange_laws::law_wait_is_bounded(st@.earliest(), now, Some(timeout), None);
}

/// An operation that has no timeout waits without an end, and keeps no deadline.
pub proof fn law_wait_without_a_timeout_never_fails(
    st: &TestState,
    now: Now,
    later: Now,
    deadline: &mut Option<crate::time::Instant>,
    woken: bool,
    r: Result<crate::shim_std_tcp::WaitStep, Error>,
    q: Result<(), Error>,
)
    requires
        call_ensures(crate::shim_std_tcp::before_wait, (st, now, None, deadline), r),
        call_ensures(crate::shim_std_tcp::after_wait, (later, woken, *final(deadline)), q),
    ensures
        r is Ok,
        *final(deadline) is None,
        q is Ok,
        st@.earliest() is None ==> r->Ok_0 is Forever,
{
    crate::exchange_laws::law_wait_is_bounded(st@.earliest(), now, None, *old(deadline));
}

/// A receiver waits for what is under way to its own socket.
pub proof fn law_receiver_waits_for_its_own_packets(
    st: &TestState,
    now: Now,
    addr: SocketAddr,
    deadline: &mut Option<crate::time::Instant>,
    r: Result<crate::shim_std_tcp::WaitStep, Error>,
    i: int,
)
    requires
        st@.find_udp(addr) == Some(i),
        call_ensures(crate::shim_std_udp::before_recv_wait, (st, now, addr, None, deadline), r),
        forall|k: int|
            0 <= k < st@.udp[i].pending.len() ==> now.mono@ < (#[trigger] st@.udp[i].pending[k]).at@
                <= crate::time::MAX_NANOS,
    ensures
        r is Ok,
        st@.udp[i].pending.len() == 0 <==> r->Ok_0 is Forever,
        st@.udp[i].pending.len() > 0 ==> r->Ok_0 is For,
        r->Ok_0 is For ==> {
            let at = now.mono@ + r->Ok_0->For_0@;
            &&& forall|k: int|
                0 <= k < st@.udp[i].pending.len() ==> at <= (#[trigger] st@.udp[i].pending[k]).at@
            &&& exists|k: int|
                0 <= k < st@.udp[i].pending.len() && at == (#[trigger] st@.udp[i].pending[k]).at@
        },
{
    let u = st@.udp[i];
    crate::exchange_laws::law_wait_is_bounded(u.next_time(), now, None, *old(deadline));
    if u.pending.len() > 0 {
        let n = u.pending.len() as int;
        crate::conn::lemma_soonest(u.pending, n);
        let k = crate::conn::soonest(u.pending, n);
        assert(u.pending[k].at@ > now.mono@);
    }
}

} // verus!
