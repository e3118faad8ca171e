//! What holds of every UDP socket.

use crate::addr::SocketAddr;
use crate::clock::capped;
use crate::conn::{first_of, first_to, lemma_soonest, soonest, DelayedView, PacketView, UdpView};
use crate::error::{Error, ErrorKind, ErrorView};
use crate::record::RecordedEvent;
use crate::rng::{law_share_is_within, share};
use crate::shim_std_tcp::filled;
use crate::shim_std_udp::{
    bindable, receives, receives_connected, recv_effect, recv_into, recv_outcome, send_effect,
    send_outcome, Receiving, RecvStep,
};
use crate::state::{first_sender, first_udp, lemma_udp_released_keeps, Now, StateView};
use crate::time::{Duration, Instant, MAX_NANOS};
use vstd::multiset::Multiset;
use vstd::prelude::*;

verus! {

/// The packets of a run of delayed ones, in order.
pub open spec fn packets(delayed: Seq<DelayedView>) -> Seq<PacketView> {
    delayed.map_values(|d: DelayedView| d.packet)
}

/// Every packet that a socket has been sent and has not received.
pub open spec fn unread(u: UdpView) -> Multiset<PacketView> {
    (u.to_local + packets(u.pending)).to_multiset()
}

/// The packets that arrive at a socket by `now`, in the order in which they do.
pub open spec fn arrivals(u: UdpView, now: nat) -> Seq<DelayedView>
    decreases u.pending.len(),
{
    if u.due(now) {
        proof {
            lemma_soonest(u.pending, u.pending.len() as int);
        }
        seq![u.pending[soonest(u.pending, u.pending.len() as int)]] + arrivals(
            u.with_next_arrived(),
            now,
        )
    } else {
        Seq::empty()
    }
}

/// Changing what a socket holds does not change which socket is at an address.
proof fn lemma_found_udp_kept(udp: Seq<UdpView>, i: int, u: UdpView, addr: SocketAddr, from: int)
    requires
        0 <= i < udp.len(),
        u.addr == udp[i].addr,
        0 <= from,
    ensures
        first_udp(udp.update(i, u), addr, from) == first_udp(udp, addr, from),
    decreases udp.len() - from,
{
    if from < udp.len() {
        lemma_found_udp_kept(udp, i, u, addr, from + 1);
    }
}

proof fn lemma_found_udp(udp: Seq<UdpView>, addr: SocketAddr, from: int)
    requires
        first_udp(udp, addr, from) is Some,
    ensures
        from <= first_udp(udp, addr, from)->0 < udp.len(),
        0 <= first_udp(udp, addr, from)->0,
        udp[first_udp(udp, addr, from)->0].addr == addr,
    decreases udp.len() - from,
{
    if 0 <= from < udp.len() && udp[from].addr != addr {
        lemma_found_udp(udp, addr, from + 1);
    }
}

proof fn lemma_first_to(q: Seq<PacketView>, p: PacketView, dest: SocketAddr, from: int)
    requires
        0 <= from <= q.len(),
    ensures
        first_to(q.push(p), dest, from) == match first_to(q, dest, from) {
            Some(k) => Some(k),
            None => if p.dest == dest {
                Some(q.len() as int)
            } else {
                None
            },
        },
    decreases q.len() - from,
{
    if from < q.len() {
        assert(q.push(p)[from] == q[from]);
        lemma_first_to(q, p, dest, from + 1);
    } else {
        reveal_with_fuel(first_to, 2);
    }
}

/// Packets that one socket sends to one address are picked up in the order in
/// which they were sent, and unchanged: one that is sent goes behind all that
/// wait.
pub proof fn law_packets_are_picked_up_in_order(
    q: Seq<PacketView>,
    p: PacketView,
    dest: SocketAddr,
)
    ensures
        first_to(q.push(p), dest, 0) == match first_to(q, dest, 0) {
            Some(k) => Some(k),
            None => if p.dest == dest {
                Some(q.len() as int)
            } else {
                None
            },
        },
        q.push(p)[q.len() as int] == p,
{
    lemma_first_to(q, p, dest, 0);
}

proof fn lemma_only_sender(udp: Seq<UdpView>, i: int, u: UdpView, dest: SocketAddr, from: int)
    requires
        0 <= from <= i < udp.len(),
        first_sender(udp, dest, from) is None,
        first_to(u.from_local, dest, 0) is Some,
    ensures
        first_sender(udp.update(i, u), dest, from) == Some(i),
    decreases i - from,
{
    if from < i {
        lemma_only_sender(udp, i, u, dest, from + 1);
    }
}

/// What a socket sends can be picked up at the address that it was sent to, with
/// the socket's address as its source.
pub proof fn law_sent_packet_can_be_picked_up(
    s: StateView,
    now: Now,
    addr: SocketAddr,
    dest: SocketAddr,
    data: Seq<u8>,
)
    requires
        s.find_udp(addr) is Some,
        send_outcome(s, addr, seq![dest], data.len()) is Ok,
        first_sender(s.udp, dest, 0) is None,
    ensures
        ({
            let t = send_effect(s, now, addr, seq![dest], data);
            let i = s.find_udp(addr)->0;
            &&& first_sender(t.udp, dest, 0) == Some(i)
            &&& first_to(t.udp[i].from_local, dest, 0) is Some
            &&& t.udp[i].from_local[first_to(t.udp[i].from_local, dest, 0)->0] == (PacketView {
                data,
                dest,
                source: addr,
            })
        }),
{
    let i = s.find_udp(addr)->0;
    let p = PacketView { data, dest, source: addr };
    lemma_found_udp(s.udp, addr, 0);
    let u = UdpView { from_local: s.udp[i].from_local.push(p), ..s.udp[i] };
    lemma_no_sender(s.udp, dest, i, 0);
    lemma_first_to(s.udp[i].from_local, p, dest, 0);
    lemma_only_sender(s.udp, i, u, dest, 0);
}

proof fn lemma_no_sender(udp: Seq<UdpView>, dest: SocketAddr, i: int, from: int)
    requires
        0 <= from <= i < udp.len(),
        first_sender(udp, dest, from) is None,
    ensures
        first_to(udp[i].from_local, dest, 0) is None,
    decreases i - from,
{
    if from < i {
        lemma_no_sender(udp, dest, i, from + 1);
    }
}

/// A link without loss, duplication, delay or a limit that `len` exceeds.
pub open spec fn is_clear(s: StateView, to: SocketAddr, len: nat) -> bool {
    let policy = s.udp_policy(to);
    &&& policy.loss_rate.parts() == 0
    &&& policy.duplicate_rate.parts() == 0
    &&& policy.inbound_latency@ == 0
    &&& policy.reorder_jitter@ == 0
    &&& policy.mtu is Some ==> len <= policy.mtu->0
}

/// Over a clear link, a packet goes behind those that can be received.
pub proof fn law_clear_link_delivers(
    s: StateView,
    now: Now,
    from: SocketAddr,
    to: SocketAddr,
    data: Seq<u8>,
)
    requires
        is_clear(s, to, data.len()),
        s.find_udp(to) is Some,
    ensures
        ({
            let t = s.with_udp_sent(now, from, to, data);
            let i = s.find_udp(to)->0;
            &&& t.find_udp(to) == Some(i)
            &&& t.udp[i] == (UdpView {
                to_local: s.udp[i].to_local.push(PacketView { data, dest: to, source: from }),
                ..s.udp[i]
            })
        }),
{
    let i = s.find_udp(to)->0;
    lemma_found_udp(s.udp, to, 0);
    Duration::lemma_of(0);
    let u = UdpView {
        to_local: s.udp[i].to_local.push(PacketView { data, dest: to, source: from }),
        ..s.udp[i]
    };
    lemma_found_udp_kept(s.udp, i, u, to, 0);
}

/// What the test sends to a socket is what the socket receives: over a clear
/// link, where no other packet has arrived, one call receives the packet whole
/// and unchanged, and says whom it came from.
pub proof fn law_packet_is_received(
    s: StateView,
    now: Now,
    from: SocketAddr,
    to: SocketAddr,
    data: Seq<u8>,
    later: Now,
    buf: Seq<u8>,
)
    requires
        is_clear(s, to, data.len()),
        s.find_udp(to) is Some,
        !s.udp[s.find_udp(to)->0].destroyed,
        s.udp[s.find_udp(to)->0].to_local.len() == 0,
        !s.udp[s.find_udp(to)->0].due(later.mono@),
        data.len() <= buf.len() <= usize::MAX,
    ensures
        ({
            let t = s.with_udp_sent(now, from, to, data);
            let receiving = Receiving { bound_addr: to, from: None, consume: true };
            &&& recv_outcome(t, later, receiving, buf.len(), None) == Ok::<RecvStep, ErrorView>(
                RecvStep::Done(data.len() as usize, from),
            )
            &&& recv_into(t, later, receiving, buf) == filled(buf, data)
            &&& recv_into(t, later, receiving, buf).take(data.len() as int) == data
            &&& recv_effect(t, later, receiving).udp[s.find_udp(to)->0].to_local.len() == 0
        }),
{
    law_clear_link_delivers(s, now, from, to, data);
    lemma_found_udp(s.udp, to, 0);
    let t = s.with_udp_sent(now, from, to, data);
    let receiving = Receiving { bound_addr: to, from: None, consume: true };
    assert(recv_into(t, later, receiving, buf).take(data.len() as int) =~= data);
}

/// A link that loses everything delivers nothing, and the log says so.
pub proof fn law_certain_loss_delivers_nothing(
    s: StateView,
    now: Now,
    from: SocketAddr,
    to: SocketAddr,
    data: Seq<u8>,
)
    requires
        s.udp_policy(to).loss_rate.parts() == 0x1_0000_0000,
    ensures
        s.with_udp_sent(now, from, to, data).udp == s.udp,
        s.with_udp_sent(now, from, to, data).log.len() == s.log.len() + 1,
        s.with_udp_sent(now, from, to, data).log.last().event == (RecordedEvent::UdpSendFromTest {
            from,
            to,
            len: data.len() as usize,
            dropped: true,
            duplicated: false,
        }),
{
}

/// A seeded test runs the same way every time: which packets are lost, which are
/// duplicated, how long they take and what comes next depend on the generator
/// and the policy, and not on the clock.
pub proof fn law_seed_decides(
    s: StateView,
    t: StateView,
    now: Now,
    later: Now,
    from: SocketAddr,
    to: SocketAddr,
    data: Seq<u8>,
)
    requires
        s.rng is Some,
        s.rng == t.rng,
        s.udp_policy(to) == t.udp_policy(to),
        s.find_udp(to) is Some,
        t.find_udp(to) is Some,
    ensures
        ({
            let a = s.with_udp_sent(now, from, to, data);
            let b = t.with_udp_sent(later, from, to, data);
            &&& a.rng == b.rng
            &&& a.log.last().event == b.log.last().event
            &&& s.decided(now, s.udp_policy(to).loss_rate).udp_delay(now, to) == t.decided(
                later,
                t.udp_policy(to).loss_rate,
            ).udp_delay(later, to)
        }),
{
}

/// A packet is under way for the link's latency and at most its jitter longer.
pub proof fn law_delay_is_within_the_jitter(s: StateView, now: Now, addr: SocketAddr)
    requires
        s.udp_policy(addr).inbound_latency@ <= MAX_NANOS,
    ensures
        s.udp_policy(addr).inbound_latency@ <= s.udp_delay(now, addr)@ <= capped(
            s.udp_policy(addr).inbound_latency@ + s.udp_policy(addr).reorder_jitter@,
        ),
{
    let policy = s.udp_policy(addr);
    law_share_is_within(policy.reorder_jitter@, s.draw(now));
    let jitter = if policy.reorder_jitter@ == 0 {
        0
    } else {
        share(policy.reorder_jitter@, s.draw(now))
    };
    Duration::lemma_of(capped(policy.inbound_latency@ + jitter));
}

/// A packet that is under way cannot be received before it has arrived, and is
/// received by whoever asks from then on, polled for or not.
pub proof fn law_delayed_packet_arrives_in_time(
    s: StateView,
    now: Instant,
    delay: Duration,
    p: PacketView,
    addr: SocketAddr,
    later: Now,
    buf: Seq<u8>,
    would_block: ErrorView,
)
    requires
        s.find_udp(addr) is Some,
        !s.udp[s.find_udp(addr)->0].destroyed,
        s.udp[s.find_udp(addr)->0].to_local.len() == 0,
        s.udp[s.find_udp(addr)->0].pending.len() == 0,
        delay@ > 0,
        p.data.len() <= buf.len() <= usize::MAX,
    ensures
        ({
            let i = s.find_udp(addr)->0;
            let t = s.with_udp(i, s.udp[i].with_sent(now, delay, p));
            let receiving = Receiving { bound_addr: addr, from: None, consume: true };
            let outcome = recv_outcome(t, later, receiving, buf.len(), Some(would_block));
            if later.mono@ < now.later(delay)@ {
                outcome == Err::<RecvStep, ErrorView>(would_block)
            } else {
                &&& outcome == Ok::<RecvStep, ErrorView>(
                    RecvStep::Done(p.data.len() as usize, p.source),
                )
                &&& recv_into(t, later, receiving, buf) == filled(buf, p.data)
            }
        }),
{
    let i = s.find_udp(addr)->0;
    lemma_found_udp(s.udp, addr, 0);
    let u = s.udp[i].with_sent(now, delay, p);
    lemma_found_udp_kept(s.udp, i, u, addr, 0);
    reveal_with_fuel(UdpView::released, 2);
    assert(u.pending.len() == 1);
    assert(u.with_next_arrived().to_local =~= seq![p]);
}

/// A packet that arrives no sooner than those that are under way is received
/// behind all of them: without jitter, packets keep their order.
pub proof fn law_packet_goes_behind(
    u: UdpView,
    now: Instant,
    delay: Duration,
    p: PacketView,
    later: nat,
)
    requires
        delay@ > 0,
        forall|i: int| 0 <= i < u.pending.len() ==> (#[trigger] u.pending[i]).at@ <= now.later(delay)@,
        later >= now.later(delay)@,
    ensures
        u.with_sent(now, delay, p).released(later).to_local == u.released(later).to_local.push(p),
    decreases u.pending.len(),
{
    let d = DelayedView { at: now.later(delay), packet: p };
    let v = u.with_sent(now, delay, p);
    let n = u.pending.len() as int;
    if n > 0 {
        lemma_soonest(u.pending, n);
        lemma_soonest_push(u.pending, d, n);
        assert(v.pending[n] == d);
        let k = soonest(u.pending, n);
        assert(soonest(v.pending, n + 1) == k);
        assert(v.pending.remove(k) =~= u.pending.remove(k).push(d));
        assert(v.with_next_arrived() == u.with_next_arrived().with_sent(now, delay, p));
        law_packet_goes_behind(u.with_next_arrived(), now, delay, p, later);
    } else {
        reveal_with_fuel(UdpView::released, 2);
        assert(v.pending.len() == 1);
        assert(v.with_next_arrived().pending.len() == 0);
    }
}

proof fn lemma_soonest_push(q: Seq<DelayedView>, d: DelayedView, n: int)
    requires
        0 <= n <= q.len(),
    ensures
        soonest(q.push(d), n) == soonest(q, n),
    decreases n,
{
    if n > 1 {
        lemma_soonest_push(q, d, n - 1);
        lemma_soonest(q, n - 1);
    }
}

/// Jitter reorders: of two packets under way, the one that arrives first is
/// received first, though it was sent later.
pub proof fn law_sooner_packet_overtakes(
    u: UdpView,
    now: Instant,
    delay: Duration,
    p: PacketView,
    then: Instant,
    shorter: Duration,
    q: PacketView,
    later: nat,
)
    requires
        u.pending.len() == 0,
        delay@ > 0,
        shorter@ > 0,
        then.later(shorter)@ < now.later(delay)@ <= later,
    ensures
        u.with_sent(now, delay, p).with_sent(then, shorter, q).released(later).to_local
            == u.to_local.push(q).push(p),
{
    let v = u.with_sent(now, delay, p).with_sent(then, shorter, q);
    reveal_with_fuel(UdpView::released, 3);
    reveal_with_fuel(soonest, 3);
    assert(v.pending.len() == 2);
    assert(soonest(v.pending, 2) == 1);
    let w = v.with_next_arrived();
    assert(w.pending.len() == 1);
    assert(w.pending[0].packet == p);
    assert(w.with_next_arrived().pending.len() == 0);
}

/// All packets that have arrived can be received, and no others: they come in
/// the order of their times, behind those that could be received before.
pub proof fn law_packets_arrive_in_order_of_their_times(u: UdpView, now: nat)
    ensures
        u.released(now).to_local == u.to_local + packets(arrivals(u, now)),
        forall|i: int| 0 <= i < arrivals(u, now).len() ==> (#[trigger] arrivals(u, now)[i]).at@ <= now,
        forall|i: int, j: int|
            0 <= i <= j < arrivals(u, now).len() ==> (#[trigger] arrivals(u, now)[i]).at@ <= (
            #[trigger] arrivals(u, now)[j]).at@,
        forall|i: int|
            0 <= i < u.released(now).pending.len() ==> (#[trigger] u.released(now).pending[i]).at@
                > now,
        arrivals(u, now).len() + u.released(now).pending.len() == u.pending.len(),
    decreases u.pending.len(),
{
    let n = u.pending.len() as int;
    if n > 0 {
        lemma_soonest(u.pending, n);
    }
    if u.due(now) {
        let v = u.with_next_arrived();
        let k = soonest(u.pending, n);
        let rest = arrivals(v, now);
        let all = arrivals(u, now);
        law_packets_arrive_in_order_of_their_times(v, now);
        lemma_arrivals_are_pending(v, now);
        assert(all =~= seq![u.pending[k]] + rest);
        assert(packets(all) =~= seq![u.pending[k].packet] + packets(rest));
        assert(u.to_local + packets(all) =~= v.to_local + packets(rest));
        assert forall|i: int, j: int| 0 <= i <= j < all.len() implies (#[trigger] all[i]).at@ <= (
        #[trigger] all[j]).at@ by {
            if i > 0 {
                assert(all[i] == rest[i - 1]);
                assert(all[j] == rest[j - 1]);
            } else if j > 0 {
                assert(all[j] == rest[j - 1]);
                assert(v.pending.contains(rest[j - 1]));
                let m = choose|m: int| 0 <= m < v.pending.len() && v.pending[m] == rest[j - 1];
                assert(v.pending[m] == u.pending[if m < k {
                    m
                } else {
                    m + 1
                }]);
            }
        }
        assert forall|i: int| 0 <= i < all.len() implies (#[trigger] all[i]).at@ <= now by {
            if i > 0 {
                assert(all[i] == rest[i - 1]);
            }
        }
    } else {
        assert(packets(arrivals(u, now)) =~= Seq::empty());
        assert(u.to_local + packets(arrivals(u, now)) =~= u.to_local);
    }
}

proof fn lemma_arrivals_are_pending(u: UdpView, now: nat)
    ensures
        forall|i: int|
            0 <= i < arrivals(u, now).len() ==> u.pending.contains(#[trigger] arrivals(u, now)[i]),
    decreases u.pending.len(),
{
    if u.due(now) {
        let n = u.pending.len() as int;
        lemma_soonest(u.pending, n);
        let k = soonest(u.pending, n);
        let v = u.with_next_arrived();
        lemma_arrivals_are_pending(v, now);
        let rest = arrivals(v, now);
        assert forall|i: int| 0 <= i < arrivals(u, now).len() implies u.pending.contains(
            #[trigger] arrivals(u, now)[i],
        ) by {
            if i > 0 {
                assert(arrivals(u, now)[i] == rest[i - 1]);
                let m = choose|m: int| 0 <= m < v.pending.len() && v.pending[m] == rest[i - 1];
                assert(v.pending[m] == u.pending[if m < k {
                    m
                } else {
                    m + 1
                }]);
            } else {
                assert(arrivals(u, now)[0] == u.pending[k]);
            }
        }
    }
}

/// The passing of time loses no packet, changes none and adds none.
pub proof fn law_arrival_keeps_packets(u: UdpView, now: nat)
    ensures
        unread(u.released(now)) == unread(u),
    decreases u.pending.len(),
{
    if u.due(now) {
        let n = u.pending.len() as int;
        lemma_soonest(u.pending, n);
        let k = soonest(u.pending, n);
        let v = u.with_next_arrived();
        law_arrival_keeps_packets(v, now);
        let p = u.pending[k].packet;
        let rest = packets(u.pending.remove(k));
        assert(rest =~= packets(u.pending).remove(k));
        packets(u.pending).to_multiset_ensures();
        assert(packets(u.pending)[k] == p);
        assert(packets(u.pending).to_multiset() =~= rest.to_multiset().insert(p));
        u.to_local.to_multiset_ensures();
        vstd::seq_lib::lemma_multiset_commutative(u.to_local, packets(u.pending));
        vstd::seq_lib::lemma_multiset_commutative(v.to_local, packets(v.pending));
        assert(v.to_local.to_multiset() =~= u.to_local.to_multiset().insert(p));
        assert(unread(v) =~= unread(u));
    }
}

/// A socket never has more packets in its send queue than the queue holds, and
/// one more is refused.
pub proof fn law_send_queue_is_bounded(
    s: StateView,
    now: Now,
    addr: SocketAddr,
    dest: SocketAddr,
    data: Seq<u8>,
    depth: usize,
)
    requires
        s.find_udp(addr) is Some,
        s.udp_policy(addr).send_queue_depth == Some(depth),
        s.udp[s.find_udp(addr)->0].from_local.len() <= depth,
    ensures
        send_effect(s, now, addr, seq![dest], data).udp[s.find_udp(addr)->0].from_local.len()
            <= depth,
        s.udp[s.find_udp(addr)->0].from_local.len() == depth ==> send_outcome(
            s,
            addr,
            seq![dest],
            data.len(),
        ) is Err,
{
    lemma_found_udp(s.udp, addr, 0);
}

// ----- What a receiver gets -----

/// Where a receiver finds the packet that it gets: at the head of the queue, or,
/// where one sender alone counts, where the first packet of that sender is.
pub open spec fn is_next(u: UdpView, from: Option<SocketAddr>, k: int) -> bool {
    &&& 0 <= k < u.to_local.len()
    &&& from is None ==> k == 0
    &&& from is Some ==> u.to_local[k].source == from->0 && forall|j: int|
        0 <= j < k ==> (#[trigger] u.to_local[j]).source != from->0
}

proof fn lemma_first_of(q: Seq<PacketView>, source: SocketAddr, from: int)
    requires
        0 <= from,
    ensures
        match first_of(q, source, from) {
            Some(k) => from <= k < q.len() && q[k].source == source && forall|j: int|
                from <= j < k ==> (#[trigger] q[j]).source != source,
            None => forall|j: int| from <= j < q.len() ==> (#[trigger] q[j]).source != source,
        },
    decreases q.len() - from,
{
    if from < q.len() {
        lemma_first_of(q, source, from + 1);
    }
}

/// A receiver gets the next packet that counts for it: it is told who sent it and
/// how many bytes it got, which stand at the front of its buffer and are the
/// packet's, as far as the buffer goes; behind them the buffer is as it was. A
/// receiver that takes the packet leaves the others, in their order; one that
/// only looks leaves all. Nothing else about the socket changes but what has
/// arrived, and nothing about any other.
pub proof fn law_receiver_gets_the_next_packet(
    s: StateView,
    now: Now,
    r: Receiving,
    buf: Seq<u8>,
    would_block: Option<ErrorView>,
    i: int,
    k: int,
)
    requires
        s.find_udp(r.bound_addr) == Some(i),
        !s.udp[i].destroyed,
        is_next(s.udp[i].released(now.mono@), r.from, k),
        buf.len() <= usize::MAX,
    ensures
        ({
            let u = s.udp[i].released(now.mono@);
            let p = u.to_local[k];
            let n = if p.data.len() <= buf.len() {
                p.data.len() as int
            } else {
                buf.len() as int
            };
            let got = recv_into(s, now, r, buf);
            let t = recv_effect(s, now, r);
            &&& recv_outcome(s, now, r, buf.len(), would_block) == Ok::<RecvStep, ErrorView>(
                RecvStep::Done(n as usize, p.source),
            )
            &&& got.len() == buf.len()
            &&& got.take(n) == p.data.take(n)
            &&& got.skip(n) == buf.skip(n)
            &&& r.consume ==> t.udp[i].to_local == u.to_local.take(k) + u.to_local.skip(k + 1)
            &&& !r.consume ==> t.udp[i].to_local == u.to_local
            &&& t.udp[i].pending == u.pending
            &&& t.udp[i].from_local == s.udp[i].from_local
            &&& t.udp[i].error == s.udp[i].error
            &&& t.udp[i].remote == s.udp[i].remote
            &&& t.udp[i].configs == s.udp[i].configs
            &&& !t.udp[i].destroyed
            &&& t.udp.len() == s.udp.len()
            &&& forall|j: int| 0 <= j < s.udp.len() && j != i ==> #[trigger] t.udp[j] == s.udp[j]
            &&& t.tcp == s.tcp && t.listeners == s.listeners && t.log == s.log
        }),
{
    let u = s.udp[i].released(now.mono@);
    lemma_found_udp(s.udp, r.bound_addr, 0);
    lemma_udp_released_keeps(s.udp[i], now.mono@);
    if r.from is Some {
        lemma_first_of(u.to_local, r.from->0, 0);
        let f = first_of(u.to_local, r.from->0, 0);
        assert(f is Some);
        if f->0 < k {
            assert(u.to_local[f->0].source != r.from->0);
        }
    }
    let p = u.to_local[k];
    let n = if p.data.len() <= buf.len() {
        p.data.len() as int
    } else {
        buf.len() as int
    };
    let got = recv_into(s, now, r, buf);
    assert(got.take(n) =~= p.data.take(n));
    assert(got.skip(n) =~= buf.skip(n));
    assert(u.to_local.remove(k) =~= u.to_local.take(k) + u.to_local.skip(k + 1));
}

/// Where no packet counts for it, a receiver gets nothing: it is told so where it
/// may not wait, and waits for as long as the socket's timeout says otherwise.
/// Its buffer stays as it was, and so do the packets that wait.
pub proof fn law_receiver_waits_where_nothing_counts(
    s: StateView,
    now: Now,
    r: Receiving,
    buf: Seq<u8>,
    would_block: Option<ErrorView>,
    i: int,
)
    requires
        s.find_udp(r.bound_addr) == Some(i),
        !s.udp[i].destroyed,
        forall|k: int| !#[trigger] is_next(s.udp[i].released(now.mono@), r.from, k),
    ensures
        would_block matches Some(e) ==> recv_outcome(s, now, r, buf.len(), would_block) == Err::<
            RecvStep,
            ErrorView,
        >(e),
        would_block is None ==> recv_outcome(s, now, r, buf.len(), would_block) == Ok::<
            RecvStep,
            ErrorView,
        >(RecvStep::Wait(r, s.udp[i].read_timeout())),
        recv_into(s, now, r, buf) == buf,
        recv_effect(s, now, r).udp[i] == s.udp[i].released(now.mono@),
{
    let u = s.udp[i].released(now.mono@);
    lemma_found_udp(s.udp, r.bound_addr, 0);
    lemma_udp_released_keeps(s.udp[i], now.mono@);
    if r.from is Some {
        lemma_first_of(u.to_local, r.from->0, 0);
        let f = first_of(u.to_local, r.from->0, 0);
        if f is Some {
            assert(is_next(u, r.from, f->0));
        }
    } else {
        assert(!is_next(u, r.from, 0));
    }
}

/// A closed socket fails, whatever waits there, and gives nothing away.
pub proof fn law_closed_socket_fails(
    s: StateView,
    now: Now,
    r: Receiving,
    buf: Seq<u8>,
    would_block: Option<ErrorView>,
    addrs: Seq<SocketAddr>,
    i: int,
)
    requires
        s.find_udp(r.bound_addr) == Some(i),
        s.udp[i].destroyed,
    ensures
        recv_outcome(s, now, r, buf.len(), would_block) is Err,
        recv_outcome(s, now, r, buf.len(), would_block)->Err_0.kind == ErrorKind::BrokenPipe,
        recv_into(s, now, r, buf) == buf,
        recv_effect(s, now, r).udp[i] == s.udp[i].released(now.mono@),
        addrs.len() > 0 ==> send_outcome(s, r.bound_addr, addrs, buf.len()) is Err && send_outcome(
            s,
            r.bound_addr,
            addrs,
            buf.len(),
        )->Err_0.kind == ErrorKind::BrokenPipe,
        send_effect(s, now, r.bound_addr, addrs, buf).udp == s.udp,
{
    lemma_found_udp(s.udp, r.bound_addr, 0);
    lemma_udp_released_keeps(s.udp[i], now.mono@);
}

/// A packet that was looked at is what is then received, by whoever comes at the
/// same time.
pub proof fn law_look_then_take(s: StateView, now: Now, addr: SocketAddr, from: Option<SocketAddr>, buf: Seq<u8>)
    requires
        s.find_udp(addr) is Some,
    ensures
        ({
            let look = Receiving { bound_addr: addr, from, consume: false };
            let take = Receiving { bound_addr: addr, from, consume: true };
            let t = recv_effect(s, now, look);
            &&& recv_into(t, now, take, buf) == recv_into(s, now, look, buf)
            &&& recv_outcome(s, now, look, buf.len(), None) matches Ok(RecvStep::Done(n, src))
                ==> recv_outcome(t, now, take, buf.len(), None) == Ok::<RecvStep, ErrorView>(
                RecvStep::Done(n, src),
            )
        }),
{
    let i = s.find_udp(addr)->0;
    lemma_found_udp(s.udp, addr, 0);
    lemma_udp_released_keeps(s.udp[i], now.mono@);
    crate::poll_laws::lemma_udp_released_is_settled(s.udp[i], now.mono@);
    lemma_found_udp_kept(s.udp, i, s.udp[i].released(now.mono@), addr, 0);
}

/// A socket that is connected hears the address that it is connected to and no
/// other; one that is not connected cannot be asked for what it hears from
/// there. Where nothing counts it waits, unless it was told not to.
pub proof fn law_connected_socket_hears_one_address(
    s: StateView,
    now: Now,
    addr: SocketAddr,
    consume: bool,
    buf: Seq<u8>,
    r: Result<RecvStep, Error>,
    got: Seq<u8>,
    t: StateView,
    i: int,
)
    requires
        s.find_udp(addr) == Some(i),
        receives_connected(s, now, addr, consume, buf, r, got, t),
        buf.len() <= usize::MAX,
    ensures
        s.udp[i].remote is None ==> r is Err && r->Err_0@.kind == ErrorKind::NotConnected && t == s
            && got == buf,
        s.udp[i].remote is Some && !s.udp[i].destroyed ==> {
            let u = s.udp[i].released(now.mono@);
            &&& r matches Ok(RecvStep::Done(n, src)) ==> src == s.udp[i].remote->0
            &&& (exists|k: int| #[trigger] is_next(u, s.udp[i].remote, k)) <==> (r is Ok
                && r->Ok_0 is Done)
            &&& r is Err ==> s.udp[i].nonblocking() && r->Err_0@.kind == ErrorKind::WouldBlock
            &&& r matches Ok(RecvStep::Wait(_, timeout)) ==> !s.udp[i].nonblocking() && timeout
                == s.udp[i].read_timeout()
        },
{
    if s.udp[i].remote is Some && !s.udp[i].destroyed {
        let remote = s.udp[i].remote->0;
        let x = Receiving { bound_addr: addr, from: Some(remote), consume };
        let u = s.udp[i].released(now.mono@);
        let blocked = if s.udp[i].nonblocking() {
            Some(
                crate::error::err(
                    ErrorKind::WouldBlock,
                    "no data available from connected address"@,
                ),
            )
        } else {
            None
        };
        lemma_udp_released_keeps(s.udp[i], now.mono@);
        if exists|k: int| #[trigger] is_next(u, s.udp[i].remote, k) {
            let k = choose|k: int| #[trigger] is_next(u, s.udp[i].remote, k);
            law_receiver_gets_the_next_packet(s, now, x, buf, blocked, i, k);
        } else {
            law_receiver_waits_where_nothing_counts(s, now, x, buf, blocked, i);
        }
    }
}

/// A socket that is asked for whatever comes waits where nothing has, unless it
/// was told not to.
pub proof fn law_unconnected_receive_takes_any_sender(
    s: StateView,
    now: Now,
    addr: SocketAddr,
    consume: bool,
    message: Seq<char>,
    buf: Seq<u8>,
    r: Result<RecvStep, Error>,
    got: Seq<u8>,
    t: StateView,
    i: int,
)
    requires
        s.find_udp(addr) == Some(i),
        receives(
            s,
            now,
            Receiving { bound_addr: addr, from: None, consume },
            message,
            buf,
            r,
            got,
            t,
        ),
        buf.len() <= usize::MAX,
        !s.udp[i].destroyed,
    ensures
        s.udp[i].released(now.mono@).to_local.len() > 0 <==> r is Ok && r->Ok_0 is Done,
        r matches Ok(RecvStep::Done(n, src)) ==> src == s.udp[i].released(
            now.mono@,
        ).to_local[0].source,
        r is Err ==> s.udp[i].nonblocking() && r->Err_0@.kind == ErrorKind::WouldBlock && t.udp[i]
            == s.udp[i].released(now.mono@),
        r matches Ok(RecvStep::Wait(_, timeout)) ==> !s.udp[i].nonblocking() && timeout
            == s.udp[i].read_timeout(),
{
    let x = Receiving { bound_addr: addr, from: None, consume };
    let u = s.udp[i].released(now.mono@);
    lemma_udp_released_keeps(s.udp[i], now.mono@);
    lemma_found_udp(s.udp, addr, 0);
}

// ----- What a sender leaves -----

/// A socket sends to the first of the addresses that it is given. It can send
/// where there is one, the socket is open, the packet is not too long and the
/// queue has room; then the packet goes behind all that it has sent, whole, with
/// its own address for the sender. Otherwise it is told what stands in the way,
/// and nothing is sent.
pub proof fn law_socket_sends_behind_what_it_sent(
    s: StateView,
    now: Now,
    addr: SocketAddr,
    addrs: Seq<SocketAddr>,
    data: Seq<u8>,
    i: int,
)
    requires
        s.find_udp(addr) == Some(i),
        data.len() <= usize::MAX,
    ensures
        ({
            let policy = if s.udp_policies.dom().contains(addr) {
                s.udp_policies[addr]
            } else {
                crate::policy::default_udp_policy()
            };
            let fits = policy.mtu is None || data.len() <= policy.mtu->0;
            let room = policy.send_queue_depth is None || s.udp[i].from_local.len()
                < policy.send_queue_depth->0;
            let r = send_outcome(s, addr, addrs, data.len());
            let t = send_effect(s, now, addr, addrs, data);
            &&& r is Ok <==> addrs.len() > 0 && !s.udp[i].destroyed && fits && room
            &&& r is Ok ==> {
                &&& r->Ok_0 == data.len()
                &&& t.udp[i].from_local == s.udp[i].from_local + seq![
                    PacketView { data, dest: addrs[0], source: addr },
                ]
                &&& t.udp[i].to_local == s.udp[i].to_local
                &&& forall|j: int|
                    0 <= j < s.udp.len() && j != i ==> #[trigger] t.udp[j] == s.udp[j]
            }
            &&& r is Err ==> t.udp == s.udp
            &&& r is Err ==> r->Err_0.kind == if addrs.len() == 0 {
                ErrorKind::InvalidInput
            } else if s.udp[i].destroyed {
                ErrorKind::BrokenPipe
            } else if !fits {
                ErrorKind::InvalidInput
            } else {
                ErrorKind::WouldBlock
            }
            &&& t.tcp == s.tcp && t.listeners == s.listeners && t.log == s.log && t.rng == s.rng
        }),
{
    lemma_found_udp(s.udp, addr, 0);
    assert(s.udp[i].from_local.push(PacketView { data, dest: addrs[0], source: addr })
        =~= s.udp[i].from_local + seq![PacketView { data, dest: addrs[0], source: addr }]);
}

/// A socket that was bound is there, with nothing sent or received, not
/// connected and with no option set; its port is taken.
pub proof fn law_bound_socket_is_there(s: StateView, addr: SocketAddr)
    requires
        s.find_udp(addr) is None,
    ensures
        ({
            let t = s.with_udp_bound(addr);
            let n = s.udp.len() as int;
            &&& t.find_udp(addr) == Some(n)
            &&& t.udp.len() == n + 1
            &&& t.udp.take(n) == s.udp
            &&& t.udp[n].addr == addr
            &&& t.udp[n].from_local.len() == 0 && t.udp[n].to_local.len() == 0
            &&& t.udp[n].pending.len() == 0 && t.udp[n].error is None && !t.udp[n].destroyed
            &&& t.udp[n].remote is None && !t.udp[n].nonblocking() && t.udp[n].read_timeout() is None
            &&& t.udp[n].write_timeout() is None && t.udp[n].ttl() == 64
            &&& t.udp[n].multicast_ttl() == 1
            &&& t.ports == s.ports.insert(addr.port_part())
            &&& t.tcp == s.tcp && t.listeners == s.listeners
        }),
{
    let t = s.with_udp_bound(addr);
    lemma_found_behind(s.udp, UdpView::fresh(addr), addr, 0);
    assert(t.udp.take(s.udp.len() as int) =~= s.udp);
}

proof fn lemma_found_behind(udp: Seq<UdpView>, u: UdpView, addr: SocketAddr, from: int)
    requires
        0 <= from <= udp.len(),
        first_udp(udp, addr, from) is None,
        u.addr == addr,
    ensures
        first_udp(udp.push(u), addr, from) == Some(udp.len() as int),
    decreases udp.len() - from,
{
    if from < udp.len() {
        assert(udp.push(u)[from] == udp[from]);
        lemma_found_behind(udp, u, addr, from + 1);
    }
}

/// Of several addresses a socket is bound to the first whose IP address is valid
/// and whose port nobody has.
pub proof fn law_first_free_address_is_bound(s: StateView, addrs: Seq<SocketAddr>, from: int)
    requires
        0 <= from <= addrs.len(),
    ensures
        match bindable(s, addrs, from) {
            Some(i) => {
                &&& from <= i < addrs.len()
                &&& s.ips.contains(addrs[i].ip_part()) && !s.ports.contains(addrs[i].port_part())
                &&& forall|j: int|
                    from <= j < i ==> !(s.ips.contains((#[trigger] addrs[j]).ip_part())
                        && !s.ports.contains(addrs[j].port_part()))
            },
            None => forall|j: int|
                from <= j < addrs.len() ==> !(s.ips.contains((#[trigger] addrs[j]).ip_part())
                    && !s.ports.contains(addrs[j].port_part())),
        },
    decreases addrs.len() - from,
{
    if from < addrs.len() {
        law_first_free_address_is_bound(s, addrs, from + 1);
    }
}

// ----- What becomes of a packet that the test sends -----

/// `u` has been sent `copies` of `p` more than `v`, which arrive at `at`, or are
/// there already where the link takes no time.
pub open spec fn gained(
    v: UdpView,
    u: UdpView,
    p: PacketView,
    copies: nat,
    delay: Duration,
    now: Instant,
) -> bool {
    &&& delay@ == 0 ==> u == (UdpView {
        to_local: v.to_local + Seq::new(copies, |k: int| p),
        ..v
    })
    &&& delay@ > 0 ==> u == (UdpView {
        pending: v.pending + Seq::new(
            copies,
            |k: int| DelayedView { at: now.later(delay), packet: p },
        ),
        ..v
    })
}

/// A packet that the test sends either reaches the socket at its address, once
/// or twice, whole and with its sender's address; or it reaches nobody. The log
/// says which. It reaches nobody if it is too long or lost, and it comes once on
/// a link that duplicates nothing and twice on one that duplicates everything.
/// No other socket hears of it.
pub proof fn law_packet_comes_whole_or_not_at_all(
    s: StateView,
    now: Now,
    from: SocketAddr,
    to: SocketAddr,
    data: Seq<u8>,
    i: int,
) -> (copies: nat)
    requires
        s.find_udp(to) == Some(i),
    ensures
        ({
            let t = s.with_udp_sent(now, from, to, data);
            let policy = s.udp_policy(to);
            let delay = s.decided(now, policy.loss_rate).udp_delay(now, to);
            let p = PacketView { data, dest: to, source: from };
            let long = policy.mtu is Some && data.len() > policy.mtu->0;
            &&& copies <= 2
            &&& t.udp.len() == s.udp.len()
            &&& gained(s.udp[i], t.udp[i], p, copies, delay, now.mono)
            &&& forall|j: int| 0 <= j < s.udp.len() && j != i ==> #[trigger] t.udp[j] == s.udp[j]
            &&& t.log.len() == s.log.len() + 1
            &&& t.log.take(s.log.len() as int) == s.log
            &&& t.log.last().at == now.mono
            &&& t.log.last().event == (RecordedEvent::UdpSendFromTest {
                from,
                to,
                len: data.len() as usize,
                dropped: copies == 0,
                duplicated: copies == 2,
            })
            &&& long ==> copies == 0
            &&& policy.loss_rate.parts() == 0x1_0000_0000 ==> copies == 0
            &&& !long && policy.loss_rate.parts() == 0 ==> copies > 0
            &&& policy.duplicate_rate.parts() == 0 ==> copies < 2
            &&& copies > 0 && policy.duplicate_rate.parts() == 0x1_0000_0000 ==> copies == 2
            &&& t.tcp == s.tcp && t.listeners == s.listeners
        }),
{
    let policy = s.udp_policy(to);
    let p = PacketView { data, dest: to, source: from };
    lemma_found_udp(s.udp, to, 0);
    let t = s.with_udp_sent(now, from, to, data);
    let v = s.udp[i];
    let n: nat = if (policy.mtu is Some && data.len() > policy.mtu->0) || s.decision(
        now,
        policy.loss_rate,
    ) {
        0
    } else if s.decided(now, policy.loss_rate).with_udp_delay_drawn(now, to).decision(
        now,
        policy.duplicate_rate,
    ) {
        2
    } else {
        1
    };
    let delay = s.decided(now, policy.loss_rate).udp_delay(now, to);
    let d = DelayedView { at: now.mono.later(delay), packet: p };
    assert(v.to_local + Seq::new(0, |k: int| p) =~= v.to_local);
    assert(v.pending + Seq::new(0, |k: int| d) =~= v.pending);
    assert(v.to_local + Seq::new(1, |k: int| p) =~= v.to_local.push(p));
    assert(v.pending + Seq::new(1, |k: int| d) =~= v.pending.push(d));
    assert(v.to_local + Seq::new(2, |k: int| p) =~= v.to_local.push(p).push(p));
    assert(v.pending + Seq::new(2, |k: int| d) =~= v.pending.push(d).push(d));
    assert(t.log.take(s.log.len() as int) =~= s.log);
    n
}

/// A packet to an address where there is no socket reaches nobody, and is not
/// logged unless it was dropped on the way.
pub proof fn law_packet_to_nowhere_vanishes(
    s: StateView,
    now: Now,
    from: SocketAddr,
    to: SocketAddr,
    data: Seq<u8>,
)
    requires
        s.find_udp(to) is None,
    ensures
        s.with_udp_sent(now, from, to, data).udp == s.udp,
        s.with_udp_sent(now, from, to, data).tcp == s.tcp,
        is_clear(s, to, data.len()) ==> s.with_udp_sent(now, from, to, data) == s,
{
}

/// A number is drawn for each thing that is left to chance and for nothing else:
/// a link on which nothing is leaves the generator as it is.
pub proof fn law_certain_link_draws_nothing(
    s: StateView,
    now: Now,
    from: SocketAddr,
    to: SocketAddr,
    data: Seq<u8>,
)
    requires
        s.udp_policy(to).loss_rate.parts() == 0,
        s.udp_policy(to).duplicate_rate.parts() == 0,
        s.udp_policy(to).reorder_jitter@ == 0,
    ensures
        s.with_udp_sent(now, from, to, data).rng == s.rng,
{
}

/// A thing that is left to chance happens where the number that is drawn falls
/// short of its rate, so that what is sure happens always, and what is
/// impossible never. Each draw moves the generator on.
pub proof fn law_chance_goes_by_the_rate(s: StateView, now: Now, p: crate::rng::Probability)
    requires
        p.parts() <= 0x1_0000_0000,
    ensures
        p.parts() == 0 ==> !s.decision(now, p) && s.decided(now, p) == s,
        p.parts() == 0x1_0000_0000 ==> s.decision(now, p),
        p.parts() > 0 ==> (s.decision(now, p) <==> s.draw(now) < p.parts()),
        p.parts() > 0 ==> s.decided(now, p).rng is Some,
        p.parts() > 0 && s.rng is Some && s.rng->0 != 0 ==> s.decided(now, p).rng->0
            == crate::rng::step(s.rng->0),
{
}

/// How long a packet is under way is its link's latency and a share of its
/// jitter, which the number that is drawn decides: none of it for the least
/// number, all of it for the greatest, and for no jitter no number is drawn.
pub proof fn law_jitter_is_drawn(s: StateView, now: Now, addr: SocketAddr)
    requires
        s.udp_policy(addr).inbound_latency@ + s.udp_policy(addr).reorder_jitter@ <= MAX_NANOS,
    ensures
        ({
            let policy = s.udp_policy(addr);
            let d = s.udp_delay(now, addr);
            &&& policy.reorder_jitter@ == 0 ==> d@ == policy.inbound_latency@
                && s.with_udp_delay_drawn(now, addr) == s
            &&& policy.reorder_jitter@ > 0 ==> {
                &&& policy.inbound_latency@ <= d@ <= policy.inbound_latency@
                    + policy.reorder_jitter@
                &&& s.draw(now) == 0 ==> d@ == policy.inbound_latency@
                &&& s.draw(now) == 0xffff_ffff ==> d@ == policy.inbound_latency@
                    + policy.reorder_jitter@
                &&& s.with_udp_delay_drawn(now, addr).rng is Some
            }
        }),
{
    let policy = s.udp_policy(addr);
    law_share_is_within(policy.reorder_jitter@, s.draw(now));
    Duration::lemma_of(policy.inbound_latency@);
    Duration::lemma_of(policy.inbound_latency@ + share(policy.reorder_jitter@, s.draw(now)));
}

/// A generator that was never seeded starts from the clock, and one that was
/// seeded goes on from its seed.
pub proof fn law_unseeded_generator_starts_from_the_clock(s: StateView, now: Now)
    ensures
        s.rng matches Some(x) ==> s.rng_state(now) == x,
        s.rng is None && 0 < now.mono@ < 0x1_0000_0000_0000_0000 ==> s.rng_state(now) == now.mono@,
        s.rng is None && now.mono@ == 0 ==> s.rng_state(now) != 0,
        s.drawn(now).tcp == s.tcp && s.drawn(now).udp == s.udp && s.drawn(now).log == s.log,
{
}

/// Where loss, jitter and duplication are all left to chance, a packet that comes
/// takes three draws, one after the other, and one that is lost takes one.
pub proof fn law_each_chance_takes_one_draw(
    s: StateView,
    now: Now,
    from: SocketAddr,
    to: SocketAddr,
    data: Seq<u8>,
)
    requires
        s.rng is Some,
        s.udp_policy(to).loss_rate.parts() > 0,
        s.udp_policy(to).duplicate_rate.parts() > 0,
        s.udp_policy(to).reorder_jitter@ > 0,
        s.udp_policy(to).mtu is None,
    ensures
        ({
            let next = |x: u64| crate::rng::step(crate::rng::seeded(x));
            let x = s.rng->0;
            let t = s.with_udp_sent(now, from, to, data);
            let lost = crate::rng::output(next(x)) < s.udp_policy(to).loss_rate.parts();
            &&& lost ==> t.rng == Some(next(x))
            &&& !lost ==> t.rng == Some(next(next(next(x))))
            &&& !lost && s.find_udp(to) is Some ==> match t.log.last().event {
                RecordedEvent::UdpSendFromTest { duplicated, .. } => duplicated
                    <==> crate::rng::output(next(next(next(x)))) < s.udp_policy(
                    to,
                ).duplicate_rate.parts(),
                _ => false,
            }
        }),
{
}

} // verus!
