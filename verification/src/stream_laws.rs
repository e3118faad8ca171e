//! What holds of every TCP connection.

use crate::addr::SocketAddr;
use crate::conn::{chunk_bytes, ChunkView, ListenerView, TcpView};
use crate::error::{err, Error, ErrorKind, ErrorView};
use crate::policy::{ListenerBehavior, QuiesceMode};
use crate::shim_std_tcp::{
    accept_effect, accept_outcome, attempts, connection_reset, connects, lemma_accept, no_peer,
    read_effect, read_verdict, shut_down, write_begin, write_effect, write_outcome, ReadView,
    ShimStdTcpStream, Shutdown, WriteStep, Writing,
};
use crate::state::{
    first_listener, has_free_port, lemma_found_listener, lemma_no_listener, lemma_peer,
    lemma_released_keeps, Now, StateView, Which,
};
use crate::time::{Duration, Instant, MAX_NANOS};
use crate::SocketType;
use vstd::prelude::*;

verus! {

/// The bytes of a run of chunks, in order.
pub open spec fn flat(chunks: Seq<ChunkView>) -> Seq<u8>
    decreases chunks.len(),
{
    if chunks.len() == 0 {
        Seq::empty()
    } else {
        chunks[0].data + flat(chunks.drop_first())
    }
}

/// Every byte that an end has been sent and has not read, in the order in which
/// they will be read.
pub open spec fn content(c: TcpView) -> Seq<u8> {
    c.incoming + flat(c.pending)
}

proof fn lemma_flat_push(chunks: Seq<ChunkView>, c: ChunkView)
    ensures
        flat(chunks.push(c)) == flat(chunks) + c.data,
    decreases chunks.len(),
{
    if chunks.len() == 0 {
        assert(chunks.push(c).drop_first() =~= Seq::empty());
        assert(flat(chunks.push(c).drop_first()) =~= Seq::empty());
        assert(flat(chunks.push(c)) =~= c.data);
        assert(flat(chunks) + c.data =~= c.data);
    } else {
        lemma_flat_push(chunks.drop_first(), c);
        assert(chunks.push(c).drop_first() =~= chunks.drop_first().push(c));
        assert(flat(chunks.push(c)) =~= flat(chunks) + c.data);
    }
}

/// The bytes that are sent are queued behind all that were sent before, none
/// lost, none changed. The one exception: over a link without latency bytes
/// overtake those that are still on their way from when it had one.
pub proof fn law_sent_bytes_queue_up(c: TcpView, now: Instant, latency: Duration, data: Seq<u8>)
    requires
        latency@ > 0 || c.pending.len() == 0,
    ensures
        content(c.with_sent(now, latency, data)) == content(c) + data,
{
    if latency@ == 0 {
        assert(flat(c.pending) =~= Seq::<u8>::empty());
        assert(content(c.with_sent(now, latency, data)) =~= content(c) + data);
    } else {
        lemma_flat_push(c.pending, ChunkView { at: now.later(latency), data });
        assert(content(c.with_sent(now, latency, data)) =~= content(c) + data);
    }
}

/// The passing of time moves bytes from the link to the reader, and neither
/// loses nor reorders any.
pub proof fn law_arrival_keeps_content(c: TcpView, now: nat)
    ensures
        content(c.released(now)) == content(c),
    decreases c.pending.len(),
{
    if c.due(now) {
        let d = TcpView {
            incoming: c.incoming + c.pending[0].data,
            pending: c.pending.drop_first(),
            ..c
        };
        law_arrival_keeps_content(d, now);
        assert(content(d) =~= content(c));
    }
}

/// A read hands out the bytes that come first and leaves the others; a peek
/// hands out the same and leaves all.
pub proof fn law_read_takes_from_the_front(c: TcpView, len: nat)
    requires
        read_verdict(c, len) matches Ok(ReadView::Data(_)),
    ensures
        ({
            let d = read_verdict(c, len)->Ok_0->Data_0;
            &&& d + content(read_effect(c, len, true)) == content(c)
            &&& read_effect(c, len, false) == c
            &&& len > 0 ==> d.len() > 0
            &&& d.len() <= len
        }),
{
    let d = read_verdict(c, len)->Ok_0->Data_0;
    assert(d + content(read_effect(c, len, true)) =~= content(c));
}

/// What one end writes the other end reads. Over a link without latency the
/// bytes can be read at once.
pub proof fn law_write_reaches_the_peer(
    s: StateView,
    now: Now,
    id: usize,
    data: Seq<u8>,
    later: Now,
    len: nat,
)
    requires
        s.wf(),
        s.live(id),
        data.len() > 0,
        write_begin(s, id) is Ok,
        write_outcome(s, write_begin(s, id)->Ok_0, data) matches Ok(WriteStep::Done(_)),
        write_begin(s, id)->Ok_0.policy.inbound_latency@ == 0,
        s.conn(s.conn(id).peer->0).incoming.len() == 0,
        s.conn(s.conn(id).peer->0).pending.len() == 0,
        !s.conn(s.conn(id).peer->0).reset_pending,
        len >= data.len(),
    ensures
        ({
            let t = write_effect(s, now, write_begin(s, id)->Ok_0, data);
            let p = s.conn(id).peer->0;
            &&& t.live(p)
            &&& read_verdict(t.conn(p).released(later.mono@), len) == Ok::<ReadView, ErrorView>(
                ReadView::Data(data),
            )
        }),
{
    lemma_peer(s, id);
    let p = s.conn(id).peer->0;
    let c = s.conn(p);
    assert(c.incoming + data =~= data);
    assert(data.take(data.len() as int) =~= data);
}

/// Delayed bytes cannot be read before their time and can be read from then on.
pub proof fn law_latency_delays(
    c: TcpView,
    now: Instant,
    latency: Duration,
    data: Seq<u8>,
    later: nat,
    len: nat,
)
    requires
        latency@ > 0,
        now@ + latency@ <= MAX_NANOS,
        c.incoming.len() == 0,
        c.pending.len() == 0,
        !c.reset_pending,
        data.len() > 0,
        len >= data.len(),
    ensures
        ({
            let verdict = read_verdict(c.with_sent(now, latency, data).released(later), len);
            if later < now@ + latency@ {
                !(verdict matches Ok(ReadView::Data(_)))
            } else {
                verdict == Ok::<ReadView, ErrorView>(ReadView::Data(data))
            }
        }),
{
    let sent = c.with_sent(now, latency, data);
    Instant::lemma_of(now@ + latency@);
    if later >= now@ + latency@ {
        let rest = TcpView {
            incoming: sent.incoming + sent.pending[0].data,
            pending: sent.pending.drop_first(),
            ..sent
        };
        assert(sent.released(later) == rest.released(later));
        assert(rest.released(later) == rest);
        assert(rest.incoming =~= data);
        assert(data.take(data.len() as int) =~= data);
    }
}

/// A write that is taken leaves no more bytes waiting than the window allows,
/// whatever the link's latency.
pub proof fn law_window_is_kept(s: StateView, now: Now, w: Writing, data: Seq<u8>)
    requires
        w.policy.recv_window is Some,
        write_outcome(s, w, data) matches Ok(WriteStep::Done(_)),
    ensures
        write_effect(s, now, w, data).conn(w.peer_id).queued() <= w.policy.recv_window->0,
{
    let c = s.conn(w.peer_id);
    lemma_sent_bytes_count(c, now.mono, w.policy.inbound_latency, data);
}

/// What the test sends never takes the bytes that wait over the window either:
/// what does not fit is not taken at all.
pub proof fn law_test_keeps_to_the_window(
    s: StateView,
    now: Now,
    from: SocketAddr,
    to: SocketAddr,
    data: Seq<u8>,
)
    requires
        s.tcp_policy(to).recv_window is Some,
        s.find_tcp(Which::Between(to, from)) is Some,
        s.live(s.find_tcp(Which::Between(to, from))->0 as usize),
        s.find_tcp(Which::Between(to, from))->0 <= usize::MAX,
    ensures
        ({
            let id = s.find_tcp(Which::Between(to, from))->0 as usize;
            let window = s.tcp_policy(to).recv_window->0;
            let t = s.with_tcp_sent(now, from, to, data);
            if s.conn(id).queued() + data.len() <= window {
                t.conn(id).queued() == s.conn(id).queued() + data.len()
            } else {
                t == s
            }
        }),
{
    let id = s.find_tcp(Which::Between(to, from))->0 as usize;
    lemma_sent_bytes_count(s.conn(id), now.mono, s.tcp_policy(to).inbound_latency, data);
}

/// Bytes that are sent count among those that wait, whatever the latency.
pub proof fn lemma_sent_bytes_count(c: TcpView, now: Instant, latency: Duration, data: Seq<u8>)
    ensures
        c.with_sent(now, latency, data).queued() == c.queued() + data.len(),
{
    if latency@ > 0 {
        let chunks = c.pending.push(ChunkView { at: now.later(latency), data });
        assert(chunks.drop_last() =~= c.pending);
        assert(chunk_bytes(chunks) == chunk_bytes(c.pending) + data.len());
    }
}

/// A reset surfaces at the next read, before any bytes that wait, and once: the
/// read after that finds the stream's bytes and then its end.
pub proof fn law_reset_surfaces_once(s: StateView, now: Now, addr: SocketAddr, later: Now, len: nat)
    requires
        s.find_tcp(Which::At(addr)) is Some,
        s.find_tcp(Which::At(addr))->0 <= usize::MAX,
        s.live(s.find_tcp(Which::At(addr))->0 as usize),
    ensures
        ({
            let id = s.find_tcp(Which::At(addr))->0 as usize;
            let c = s.with_reset(now, addr).conn(id).released(later.mono@);
            let after = read_effect(c, len, true);
            &&& read_verdict(c, len) == Err::<ReadView, ErrorView>(connection_reset())
            &&& content(after) == content(s.conn(id))
            &&& read_verdict(after, len) matches Ok(found) && !(found is Pending)
        }),
{
    let id = s.find_tcp(Which::At(addr))->0 as usize;
    let r = s.with_reset(now, addr).conn(id);
    lemma_released_keeps(r, later.mono@);
    law_arrival_keeps_content(r, later.mono@);
}

/// A connection that the test closes ends gracefully: what it was sent is read,
/// and then comes the end of the stream.
pub proof fn law_close_is_graceful(s: StateView, now: Now, addr: SocketAddr, later: Now, len: nat)
    requires
        s.find_tcp(Which::At(addr)) is Some,
        s.find_tcp(Which::At(addr))->0 <= usize::MAX,
        s.live(s.find_tcp(Which::At(addr))->0 as usize),
        !s.conn(s.find_tcp(Which::At(addr))->0 as usize).reset_pending,
    ensures
        ({
            let id = s.find_tcp(Which::At(addr))->0 as usize;
            let t = s.with_closed(now, addr, SocketType::Tcp);
            let c = t.conn(id).released(later.mono@);
            &&& content(t.conn(id)) == content(s.conn(id))
            &&& c.incoming.len() > 0 ==> (read_verdict(c, len) matches Ok(ReadView::Data(_)))
            &&& c.incoming.len() == 0 ==> read_verdict(c, len) == Ok::<ReadView, ErrorView>(
                ReadView::Eof,
            )
        }),
{
    let id = s.find_tcp(Which::At(addr))->0 as usize;
    lemma_released_keeps(s.with_closed(now, addr, SocketType::Tcp).conn(id), later.mono@);
}

/// A reset surfaces at the next write too.
pub proof fn law_reset_surfaces_at_write(s: StateView, now: Now, addr: SocketAddr)
    requires
        s.find_tcp(Which::At(addr)) is Some,
        s.find_tcp(Which::At(addr))->0 <= usize::MAX,
        s.live(s.find_tcp(Which::At(addr))->0 as usize),
    ensures
        write_begin(s.with_reset(now, addr), s.find_tcp(Which::At(addr))->0 as usize) == Err::<
            Writing,
            ErrorView,
        >(connection_reset()),
{
}

/// When the last handle of one end is dropped, the other end loses no byte: it
/// reads what it was sent and then the end of the stream, and it can write no
/// more.
pub proof fn law_drop_ends_the_stream(s: StateView, now: Now, id: usize, later: Now, len: nat)
    requires
        s.wf(),
        s.live(id),
        s.conn(id).refs == 1,
        s.conn(id).peer is Some,
    ensures
        ({
            let p = s.conn(id).peer->0;
            let t = s.with_stream_dropped(now, id);
            let c = t.conn(p).released(later.mono@);
            &&& !t.live(id)
            &&& t.live(p)
            &&& content(t.conn(p)) == content(s.conn(p))
            &&& t.conn(p).error == Some(err(ErrorKind::ConnectionReset, "peer disconnected"@))
            &&& read_verdict(c, len) matches Ok(found) ==> !(found is Pending)
            &&& !s.conn(p).reset_pending && !s.conn(p).write_shutdown ==> write_begin(t, p)
                == Err::<Writing, ErrorView>(no_peer())
        }),
{
    lemma_peer(s, id);
    let p = s.conn(id).peer->0;
    lemma_released_keeps(s.with_stream_dropped(now, id).conn(p), later.mono@);
}

/// After an end has shut down its writing, its writes fail, and the other end
/// reads what it was sent and then the end of the stream.
pub proof fn law_shutdown_ends_the_stream(s: StateView, id: usize, later: Now, len: nat)
    requires
        s.wf(),
        s.live(id),
        s.conn(id).peer is Some,
        !s.conn(id).reset_pending,
    ensures
        ({
            let p = s.conn(id).peer->0;
            let t = shut_down(s, id, Shutdown::Write);
            let c = t.conn(p).released(later.mono@);
            &&& write_begin(t, id) == Err::<Writing, ErrorView>(
                err(ErrorKind::BrokenPipe, "write half closed"@),
            )
            &&& content(t.conn(p)) == content(s.conn(p))
            &&& read_verdict(c, len) matches Ok(found) ==> !(found is Pending)
        }),
{
    lemma_peer(s, id);
    let p = s.conn(id).peer->0;
    lemma_released_keeps(shut_down(s, id, Shutdown::Write).conn(p), later.mono@);
}

/// The connection that a listener hands out next, when nothing was queued
/// before it, is the other end of the one that was just made: each is the
/// other's peer, and their addresses mirror each other.
pub proof fn law_accept_pairs_with_connect(s: StateView, now: Now, target: SocketAddr, addr: SocketAddr)
    requires
        s.wf(),
        has_free_port(s.ports),
        s.tcp.len() + 1 <= usize::MAX,
        s.listener_for(target) is Some,
        s.find_listener(addr) == s.listener_for(target),
        0 <= s.find_listener(addr)->0 < s.listeners.len(),
        s.listeners[s.find_listener(addr)->0].addr == addr,
        s.listeners[s.find_listener(addr)->0].pending.len() == 0,
        !s.listeners[s.find_listener(addr)->0].closed,
    ensures
        ({
            let cid = s.tcp.len() as usize;
            let sid = (s.tcp.len() + 1) as usize;
            let t = s.with_connection(now, target, s.listener_for(target)->0);
            &&& accept_outcome(t, addr) == Ok::<Option<(usize, SocketAddr)>, ErrorView>(
                Some((sid, t.conn(cid).local_addr)),
            )
            &&& accept_effect(t, addr).live(sid)
            &&& t.conn(cid).peer == Some(sid)
            &&& t.conn(sid).peer == Some(cid)
            &&& t.conn(sid).local_addr == t.conn(cid).peer_addr
            &&& t.conn(sid).peer_addr == t.conn(cid).local_addr
        }),
{
    let i = s.find_listener(addr)->0;
    let t = s.with_connection(now, target, i);
    lemma_find_listener_kept(s.listeners, t.listeners, addr, 0);
}

/// Listeners are found by address alone.
proof fn lemma_find_listener_kept(a: Seq<ListenerView>, b: Seq<ListenerView>, addr: SocketAddr, from: int)
    requires
        a.len() == b.len(),
        0 <= from <= a.len(),
        forall|i: int| 0 <= i < a.len() ==> (#[trigger] a[i]).addr == b[i].addr,
    ensures
        first_listener(a, addr, from) == first_listener(b, addr, from),
    decreases a.len() - from,
{
    if from < a.len() {
        lemma_find_listener_kept(a, b, addr, from + 1);
    }
}

/// No end is ever left without the other while it believes in it: whoever has a
/// peer can reach it.
pub proof fn law_peer_is_always_there(s: StateView, id: usize)
    requires
        s.wf(),
        s.live(id),
        s.conn(id).peer is Some,
    ensures
        s.live(s.conn(id).peer->0),
        s.conn(s.conn(id).peer->0).peer == Some(id),
{
    lemma_peer(s, id);
}

/// What can happen to one end of a connection, as far as its bytes go.
pub enum Happening {
    /// It is sent bytes, over a link with this latency.
    Sent(Instant, Duration, Seq<u8>),
    /// Time passes.
    Passed(nat),
    /// Up to so many bytes are read.
    Read(nat),
}

/// The end after one thing has happened.
pub open spec fn after_one(c: TcpView, h: Happening) -> TcpView {
    match h {
        Happening::Sent(now, latency, data) => c.with_sent(now, latency, data),
        Happening::Passed(now) => c.released(now),
        Happening::Read(len) => read_effect(c, len, true),
    }
}

/// What one thing that happens hands to the reader.
pub open spec fn handed_out(c: TcpView, h: Happening) -> Seq<u8> {
    match h {
        Happening::Read(len) => match read_verdict(c, len) {
            Ok(ReadView::Data(d)) => d,
            _ => Seq::empty(),
        },
        _ => Seq::empty(),
    }
}

/// What one thing that happens sends.
pub open spec fn sent_by(h: Happening) -> Seq<u8> {
    match h {
        Happening::Sent(_, _, data) => data,
        _ => Seq::empty(),
    }
}

/// The end after the first `n` things have happened.
pub open spec fn after(c: TcpView, trace: Seq<Happening>, n: int) -> TcpView
    decreases n,
{
    if n <= 0 {
        c
    } else {
        after_one(after(c, trace, n - 1), trace[n - 1])
    }
}

/// All that has been read by then.
pub open spec fn all_read(c: TcpView, trace: Seq<Happening>, n: int) -> Seq<u8>
    decreases n,
{
    if n <= 0 {
        Seq::empty()
    } else {
        all_read(c, trace, n - 1) + handed_out(after(c, trace, n - 1), trace[n - 1])
    }
}

/// All that has been sent by then.
pub open spec fn all_sent(trace: Seq<Happening>, n: int) -> Seq<u8>
    decreases n,
{
    if n <= 0 {
        Seq::empty()
    } else {
        all_sent(trace, n - 1) + sent_by(trace[n - 1])
    }
}

/// Nothing is sent without latency while bytes are still under way from when
/// there was one.
pub open spec fn none_overtakes(c: TcpView, trace: Seq<Happening>) -> bool {
    forall|i: int|
        #![trigger trace[i]]
        0 <= i < trace.len() ==> (trace[i] matches Happening::Sent(_, latency, _) ==> latency@ > 0
            || after(c, trace, i).pending.len() == 0)
}

/// A stream delivers what was sent: however sends, reads and the passing of time
/// follow each other, and however the latency changes, what has been read is
/// what was sent, in order, up to what still waits to be read. The one exception
/// are bytes that are sent without latency and overtake others.
pub proof fn law_stream_delivers_what_was_sent(c: TcpView, trace: Seq<Happening>, n: int)
    requires
        none_overtakes(c, trace),
        0 <= n <= trace.len(),
    ensures
        all_read(c, trace, n) + content(after(c, trace, n)) == content(c) + all_sent(trace, n),
    decreases n,
{
    if n == 0 {
        assert(all_read(c, trace, n) + content(c) =~= content(c) + all_sent(trace, n));
    } else {
        law_stream_delivers_what_was_sent(c, trace, n - 1);
        let b = after(c, trace, n - 1);
        let read = all_read(c, trace, n - 1);
        let sent = all_sent(trace, n - 1);
        let h = trace[n - 1];
        match h {
            Happening::Sent(now, latency, data) => {
                law_sent_bytes_queue_up(b, now, latency, data);
                assert(read + Seq::<u8>::empty() + (content(b) + data) =~= (read + content(b))
                    + data);
                assert(content(c) + (sent + data) =~= (content(c) + sent) + data);
            },
            Happening::Passed(now) => {
                law_arrival_keeps_content(b, now);
                assert(read + Seq::<u8>::empty() =~= read);
                assert(sent + Seq::<u8>::empty() =~= sent);
            },
            Happening::Read(len) => {
                let d = handed_out(b, h);
                if read_verdict(b, len) matches Ok(ReadView::Data(_)) {
                    law_read_takes_from_the_front(b, len);
                } else {
                    assert(d + content(read_effect(b, len, true)) =~= content(b));
                }
                assert((read + d) + content(read_effect(b, len, true)) =~= read + (d + content(
                    read_effect(b, len, true),
                )));
                assert(sent + Seq::<u8>::empty() =~= sent);
            },
        }
    }
}

/// What one end writes goes behind all that the other end has been sent.
pub proof fn law_write_goes_behind(s: StateView, now: Now, id: usize, data: Seq<u8>)
    requires
        s.wf(),
        s.live(id),
        write_begin(s, id) is Ok,
        write_outcome(s, write_begin(s, id)->Ok_0, data) matches Ok(WriteStep::Done(_)),
        write_begin(s, id)->Ok_0.policy.inbound_latency@ > 0 || s.conn(
            s.conn(id).peer->0,
        ).pending.len() == 0,
    ensures
        ({
            let t = write_effect(s, now, write_begin(s, id)->Ok_0, data);
            let p = s.conn(id).peer->0;
            &&& t.live(p)
            &&& content(t.conn(p)) == content(s.conn(p)) + data
        }),
{
    lemma_peer(s, id);
    law_sent_bytes_queue_up(
        s.conn(s.conn(id).peer->0),
        now.mono,
        write_begin(s, id)->Ok_0.policy.inbound_latency,
        data,
    );
}

/// So does what the test sends, where the window has room for it.
pub proof fn law_test_bytes_go_behind(
    s: StateView,
    now: Now,
    from: SocketAddr,
    to: SocketAddr,
    data: Seq<u8>,
)
    requires
        s.find_tcp(Which::Between(to, from)) is Some,
        s.find_tcp(Which::Between(to, from))->0 <= usize::MAX,
        s.live(s.find_tcp(Which::Between(to, from))->0 as usize),
        s.has_room(
            to,
            s.conn(s.find_tcp(Which::Between(to, from))->0 as usize),
            data.len(),
        ),
        s.tcp_policy(to).inbound_latency@ > 0 || s.conn(
            s.find_tcp(Which::Between(to, from))->0 as usize,
        ).pending.len() == 0,
    ensures
        ({
            let id = s.find_tcp(Which::Between(to, from))->0 as usize;
            content(s.with_tcp_sent(now, from, to, data).conn(id)) == content(s.conn(id)) + data
        }),
{
    let id = s.find_tcp(Which::Between(to, from))->0 as usize;
    law_sent_bytes_queue_up(s.conn(id), now.mono, s.tcp_policy(to).inbound_latency, data);
}

/// Connections are accepted in the order in which they came in: a new one goes
/// behind those that wait, and accepting takes the first.
pub proof fn law_connections_queue_up(s: StateView, now: Now, target: SocketAddr, addr: SocketAddr)
    requires
        s.listener_for(target) is Some,
        s.find_listener(addr) == s.listener_for(target),
        0 <= s.find_listener(addr)->0 < s.listeners.len(),
        s.tcp.len() + 1 <= usize::MAX,
    ensures
        ({
            let i = s.find_listener(addr)->0;
            let l = s.listeners[i];
            let t = s.with_connection(now, target, i);
            &&& t.find_listener(addr) == Some(i)
            &&& t.listeners[i].pending == l.pending.push((s.tcp.len() + 1) as usize)
            &&& l.pending.len() > 0 && !l.closed ==> accept_outcome(t, addr) == Ok::<
                Option<(usize, SocketAddr)>,
                ErrorView,
            >(Some((l.pending[0], t.conn(l.pending[0]).peer_addr)))
            &&& accept_effect(t, addr).listeners[i].pending
                == t.listeners[i].pending.drop_first()
        }),
{
    let i = s.find_listener(addr)->0;
    let t = s.with_connection(now, target, i);
    lemma_find_listener_kept(s.listeners, t.listeners, addr, 0);
}

/// A stream that was just accepted has a ttl of 64, waits without a limit, and
/// has no other option set: nothing can change an end that waits to be accepted.
pub proof fn law_accepted_stream_is_as_made(s: StateView, addr: SocketAddr)
    requires
        s.wf(),
        s.has_listener(addr),
        accept_outcome(s, addr) matches Ok(Some(_)),
    ensures
        ({
            let (id, _) = accept_outcome(s, addr)->Ok_0->Some_0;
            let t = accept_effect(s, addr);
            t.usable(id) && t.conn(id).is_as_made()
        }),
{
    let i = s.find_listener(addr)->0;
    if s.find_listener(addr) is None {
        lemma_no_listener(s.listeners, addr, 0);
    }
    lemma_found_listener(s.listeners, addr, 0);
    lemma_accept(s, i);
}

/// A ttl that is set through one handle of an end is read through every handle
/// of it; the other end keeps its own. A new stream, connected or accepted, has
/// a ttl of 64.
pub proof fn law_ttl_belongs_to_the_end(
    s: StateView,
    stream: ShimStdTcpStream,
    clone: ShimStdTcpStream,
    ttl: u32,
)
    requires
        s.wf(),
        s.usable(stream.id()),
        clone.id() == stream.id(),
    ensures
        ({
            let id = stream.id();
            let t = s.with_conn(id, TcpView { ttl, ..s.conn(id) }).woken();
            &&& t.conn(stream.id()).ttl == ttl
            &&& t.conn(clone.id()).ttl == ttl
            &&& s.conn(id).peer is Some ==> t.conn(s.conn(id).peer->0) == s.conn(
                s.conn(id).peer->0,
            )
        }),
        s.conn(stream.id()).is_as_made() ==> s.conn(clone.id()).ttl == 64,
{
    lemma_peer(s, stream.id());
}

/// Who refuses connections is not connected to, and nothing changes.
pub proof fn law_refusing_listener_refuses(
    s: StateView,
    now: Now,
    target: SocketAddr,
    r: Result<ShimStdTcpStream, Error>,
    t: StateView,
)
    requires
        connects(s, now, seq![target], r, t),
        s.ips.contains(target.ip_part()),
        s.listener_for(target) matches Some(i) ==> s.behavior(s.listeners[i].addr)
            == ListenerBehavior::Refusing,
    ensures
        r is Err,
        r->Err_0@.kind == ErrorKind::ConnectionRefused,
        t == s,
{
    reveal_with_fuel(attempts, 2);
}

/// A listener that delays rejects every attempt before its time, and nothing
/// changes. From its time on it takes them as one that accepts.
pub proof fn law_delaying_listener_rejects_until_its_time(
    s: StateView,
    now: Now,
    target: SocketAddr,
    until: Instant,
    r: Result<ShimStdTcpStream, Error>,
    t: StateView,
)
    requires
        connects(s, now, seq![target], r, t),
        s.ips.contains(target.ip_part()),
        s.listener_for(target) is Some,
        s.behavior(s.listeners[s.listener_for(target)->0].addr) == ListenerBehavior::DelayingUntil(
            until,
        ),
    ensures
        now.mono@ < until@ ==> r is Err && t == s,
        now.mono@ >= until@ ==> r is Ok && t == s.with_connection(
            now,
            target,
            s.listener_for(target)->0,
        ) && t.conn(r->Ok_0.id()).peer is Some,
{
    reveal_with_fuel(attempts, 2);
}

/// Bytes are delivered during a quiesce window as they are outside of one: only
/// readiness is held back.
pub proof fn law_bytes_buffer_during_quiesce(
    s: StateView,
    now: Now,
    addr: SocketAddr,
    until: Instant,
    mode: QuiesceMode,
    from: SocketAddr,
    to: SocketAddr,
    data: Seq<u8>,
)
    ensures
        s.quiesced(now, addr, until, mode).with_tcp_sent(now, from, to, data).tcp
            == s.with_tcp_sent(now, from, to, data).tcp,
{
}

/// A shutdown closes the halves that it names and no other, for good.
///
/// An end whose reading is shut down reads what it still has and then the end of
/// the stream, and waits for nothing; whatever its peer writes to it fails. One
/// whose writing is shut down fails at every write, and its peer reads what it
/// still has and then the end of the stream. What is not shut down goes on as
/// before, and nobody else notices.
pub proof fn law_shutdown_closes_its_halves(
    s: StateView,
    id: usize,
    how: Shutdown,
    later: Now,
    len: nat,
    data: Seq<u8>,
)
    requires
        s.wf(),
        s.live(id),
        !s.conn(id).reset_pending,
    ensures
        ({
            let reading = how == Shutdown::Read || how == Shutdown::Both;
            let writing = how == Shutdown::Write || how == Shutdown::Both;
            let t = shut_down(s, id, how);
            let c = t.conn(id).released(later.mono@);
            &&& t.live(id)
            &&& reading ==> read_verdict(c, len) is Ok && !(read_verdict(c, len)->Ok_0 is Pending)
            &&& reading && c.incoming.len() == 0 ==> read_verdict(c, len) == Ok::<
                ReadView,
                ErrorView,
            >(ReadView::Eof)
            &&& how == Shutdown::Read ==> t.conn(id).incoming.len() == 0
            &&& how != Shutdown::Read ==> t.conn(id).incoming == s.conn(id).incoming
            &&& t.conn(id).pending == s.conn(id).pending
            &&& !reading ==> t.conn(id).read_shutdown == s.conn(id).read_shutdown
            &&& writing ==> write_begin(t, id) is Err && write_begin(t, id)->Err_0.kind
                == ErrorKind::BrokenPipe
            &&& !writing ==> write_begin(t, id) == write_begin(s, id)
            &&& forall|k: int|
                0 <= k < s.tcp.len() && k != id && s.conn(id).peer != Some(k as usize)
                    ==> #[trigger] t.tcp[k] == s.tcp[k]
            &&& t.listeners == s.listeners && t.udp == s.udp && t.log == s.log
        }),
        s.conn(id).peer matches Some(p) ==> ({
            let t = shut_down(s, id, how);
            let d = t.conn(p).released(later.mono@);
            &&& t.live(p)
            &&& how != Shutdown::Write && write_begin(s, p) is Ok ==> {
                &&& write_begin(t, p) == write_begin(s, p)
                &&& write_begin(t, p)->Ok_0.peer_id == id
                &&& write_outcome(t, write_begin(t, p)->Ok_0, data) is Err
                &&& write_outcome(t, write_begin(t, p)->Ok_0, data)->Err_0.kind
                    == ErrorKind::BrokenPipe
            }
            &&& content(t.conn(p)) == content(s.conn(p))
            &&& t.conn(p).write_shutdown == s.conn(p).write_shutdown
            &&& how == Shutdown::Read ==> t.conn(p) == s.conn(p)
            &&& how != Shutdown::Read ==> (read_verdict(d, len) matches Ok(found) ==> !(
            found is Pending))
            &&& how != Shutdown::Read && d.incoming.len() == 0 && !d.reset_pending
                ==> read_verdict(d, len) == Ok::<ReadView, ErrorView>(ReadView::Eof)
        }),
{
    let t = shut_down(s, id, how);
    lemma_released_keeps(t.conn(id), later.mono@);
    if s.conn(id).peer is Some {
        lemma_peer(s, id);
        lemma_released_keeps(t.conn(s.conn(id).peer->0), later.mono@);
    }
}

} // verus!
