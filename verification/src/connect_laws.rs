//! What holds of connecting and listening.

use crate::addr::{IpAddr, SocketAddr};
use crate::conn::TcpView;
use crate::error::{Error, ErrorKind, ErrorView};
use crate::policy::ListenerBehavior;
use crate::shim_std_tcp::{
    accept_effect, accept_outcome, attempts, bindable, bound_state, bound_to, connects, unresolved,
    verdict, ShimStdTcpStream, Verdict,
};
use crate::state::{
    first_listener, first_wildcard, has_free_port, law_ephemeral_port_was_free,
    lemma_found_listener, lemma_no_listener, linked, listeners_ok, Now, StateView,
};
use vstd::prelude::*;

verus! {

/// A listener at `at` hears those who connect to `target`: it is bound to that
/// very address, or to its port on every address.
pub open spec fn hears(at: SocketAddr, target: SocketAddr) -> bool {
    at == target || (at.port_part() == target.port_part() && match at.ip_part() {
        IpAddr::V4(ip) => ip.bits == 0,
        IpAddr::V6(ip) => ip.bits == 0,
    })
}

proof fn lemma_first_wildcard(s: StateView, target: SocketAddr, from: int)
    requires
        0 <= from,
    ensures
        match first_wildcard(s.listeners, target.port_part(), from) {
            Some(i) => from <= i < s.listeners.len() && s.listeners[i].addr.port_part()
                == target.port_part() && s.listeners[i].addr.ip_part().unspecified(),
            None => forall|j: int|
                from <= j < s.listeners.len() ==> !((#[trigger] s.listeners[j]).addr.port_part()
                    == target.port_part() && s.listeners[j].addr.ip_part().unspecified()),
        },
    decreases s.listeners.len() - from,
{
    if from < s.listeners.len() {
        lemma_first_wildcard(s, target, from + 1);
    }
}

/// Who connects to `target` gets to a listener if there is one that hears it, on
/// whichever of its two grounds; and one that is bound to that very address has
/// precedence.
pub proof fn law_listener_that_hears_is_found(s: StateView, target: SocketAddr)
    ensures
        match s.listener_for(target) {
            Some(i) => {
                &&& 0 <= i < s.listeners.len()
                &&& hears(s.listeners[i].addr, target)
                &&& s.listeners[i].addr != target ==> forall|j: int|
                    0 <= j < s.listeners.len() ==> (#[trigger] s.listeners[j]).addr != target
            },
            None => forall|j: int|
                0 <= j < s.listeners.len() ==> !hears((#[trigger] s.listeners[j]).addr, target),
        },
{
    lemma_found_listener(s.listeners, target, 0);
    lemma_first_wildcard(s, target, 0);
    if s.find_listener(target) is None {
        lemma_no_listener(s.listeners, target, 0);
    }
}

/// The listener of number `i` takes connections at `now`.
pub open spec fn takes(s: StateView, now: Now, i: int) -> bool {
    let at = s.listeners[i].addr;
    s.behaviors.dom().contains(at) ==> match s.behaviors[at] {
        ListenerBehavior::Accepting => true,
        ListenerBehavior::Refusing => false,
        ListenerBehavior::DelayingUntil(until) => until@ <= now.mono@,
    }
}

/// Connecting to a valid address succeeds where some listener hears it and all
/// that do take connections, whether they are bound to it or to every address.
pub proof fn law_heard_connection_is_made(
    s: StateView,
    now: Now,
    target: SocketAddr,
    i: int,
    r: Result<ShimStdTcpStream, Error>,
    t: StateView,
)
    requires
        connects(s, now, seq![target], r, t),
        s.ips.contains(target.ip_part()),
        0 <= i < s.listeners.len(),
        hears(s.listeners[i].addr, target),
        forall|j: int|
            0 <= j < s.listeners.len() && hears((#[trigger] s.listeners[j]).addr, target) ==> takes(
                s,
                now,
                j,
            ),
    ensures
        r is Ok,
        r->Ok_0.id() == s.tcp.len(),
        t.tcp.len() == s.tcp.len() + 2,
{
    law_listener_that_hears_is_found(s, target);
    reveal_with_fuel(attempts, 2);
    let k = s.listener_for(target)->0;
    assert(takes(s, now, k));
}

/// A connection that nobody hears is refused, and so is one to an address that
/// is not valid. Nothing changes.
pub proof fn law_unheard_connection_fails(
    s: StateView,
    now: Now,
    target: SocketAddr,
    r: Result<ShimStdTcpStream, Error>,
    t: StateView,
)
    requires
        connects(s, now, seq![target], r, t),
        !s.ips.contains(target.ip_part()) || forall|j: int|
            0 <= j < s.listeners.len() ==> !hears((#[trigger] s.listeners[j]).addr, target),
    ensures
        t == s,
        r is Err,
        r->Err_0@.kind == if s.ips.contains(target.ip_part()) {
            ErrorKind::ConnectionRefused
        } else {
            ErrorKind::AddrNotAvailable
        },
{
    law_listener_that_hears_is_found(s, target);
    reveal_with_fuel(attempts, 2);
}

/// A listener that is to refuse refuses, and one that is to wait lets time out
/// whoever comes before its time; where no behaviour was set, it accepts.
pub proof fn law_listener_behaves_as_set(s: StateView, now: Now, target: SocketAddr)
    requires
        s.ips.contains(target.ip_part()),
        s.listener_for(target) is Some,
    ensures
        ({
            let i = s.listener_for(target)->0;
            let at = s.listeners[i].addr;
            if !s.behaviors.dom().contains(at) {
                verdict(s, now, target) == Verdict::Accepted(i)
            } else {
                match s.behaviors[at] {
                    ListenerBehavior::Accepting => verdict(s, now, target) == Verdict::Accepted(i),
                    ListenerBehavior::Refusing => verdict(s, now, target) is Refused && verdict(
                        s,
                        now,
                        target,
                    )->Refused_0.kind == ErrorKind::ConnectionRefused,
                    ListenerBehavior::DelayingUntil(until) => if now.mono@ < until@ {
                        verdict(s, now, target) is Refused && verdict(s, now, target)->Refused_0.kind
                            == ErrorKind::TimedOut
                    } else {
                        verdict(s, now, target) == Verdict::Accepted(i)
                    },
                }
            }
        }),
{
}

proof fn lemma_attempts(
    s: StateView,
    now: Now,
    targets: Seq<SocketAddr>,
    from: int,
    last: ErrorView,
)
    requires
        0 <= from <= targets.len(),
    ensures
        match attempts(s, now, targets, from, last) {
            Ok((target, i)) => exists|k: int|
                {
                    &&& from <= k < targets.len()
                    &&& #[trigger] targets[k] == target
                    &&& verdict(s, now, target) == Verdict::Accepted(i)
                    &&& forall|j: int|
                        from <= j < k ==> verdict(s, now, #[trigger] targets[j]) is Refused
                },
            Err(e) => {
                &&& forall|j: int|
                    from <= j < targets.len() ==> verdict(s, now, #[trigger] targets[j]) is Refused
                &&& e == if from == targets.len() {
                    last
                } else {
                    verdict(s, now, targets.last())->Refused_0
                }
            },
        },
    decreases targets.len() - from,
{
    if from < targets.len() {
        match verdict(s, now, targets[from]) {
            Verdict::Refused(e) => {
                lemma_attempts(s, now, targets, from + 1, e);
                match attempts(s, now, targets, from + 1, e) {
                    Ok((target, i)) => {
                        let k = choose|k: int|
                            {
                                &&& from + 1 <= k < targets.len()
                                &&& #[trigger] targets[k] == target
                                &&& verdict(s, now, target) == Verdict::Accepted(i)
                                &&& forall|j: int|
                                    from + 1 <= j < k ==> verdict(s, now, #[trigger] targets[j]) is Refused
                            };
                        assert(targets[k] == target);
                    },
                    Err(_) => {},
                }
            },
            Verdict::Accepted(i) => {
                assert(targets[from] == targets[from]);
            },
        }
    }
}

/// Of several addresses the first that takes the connection gets it. Where none
/// does, the failure is that of the last, and where there are none, that there
/// is nothing to connect to.
pub proof fn law_first_taker_is_connected_to(
    s: StateView,
    now: Now,
    targets: Seq<SocketAddr>,
    r: Result<ShimStdTcpStream, Error>,
    t: StateView,
)
    requires
        connects(s, now, targets, r, t),
    ensures
        r is Ok <==> exists|k: int|
            0 <= k < targets.len() && verdict(s, now, #[trigger] targets[k]) is Accepted,
        r is Ok ==> exists|k: int|
            {
                &&& 0 <= k < targets.len()
                &&& verdict(s, now, #[trigger] targets[k]) is Accepted
                &&& t == s.with_connection(
                    now,
                    targets[k],
                    verdict(s, now, targets[k])->Accepted_0,
                )
                &&& forall|j: int| 0 <= j < k ==> verdict(s, now, #[trigger] targets[j]) is Refused
            },
        r is Err ==> t == s,
        r is Err && targets.len() > 0 ==> r->Err_0@ == verdict(
            s,
            now,
            targets.last(),
        )->Refused_0,
        r is Err && targets.len() == 0 ==> r->Err_0@.kind == ErrorKind::InvalidInput,
{
    lemma_attempts(s, now, targets, 0, unresolved());
    match attempts(s, now, targets, 0, unresolved()) {
        Ok((target, i)) => {
            let k = choose|k: int|
                {
                    &&& 0 <= k < targets.len()
                    &&& #[trigger] targets[k] == target
                    &&& verdict(s, now, target) == Verdict::Accepted(i)
                    &&& forall|j: int|
                        0 <= j < k ==> verdict(s, now, #[trigger] targets[j]) is Refused
                };
            assert(verdict(s, now, targets[k]) is Accepted);
        },
        Err(_) => {},
    }
}

/// A connection that has been made is a pair of new ends, behind all others,
/// that mirror each other. The client sits at the address that it asked for,
/// behind an ephemeral port that was free and is its own; the server sits where
/// its listener does, or, where that is every address, at the one that was asked
/// for. Nothing has been sent, closed, reset or set on either. The server's end
/// waits last at its listener. No other end, listener or socket changes.
pub proof fn law_new_connection_is_a_fresh_pair(
    s: StateView,
    now: Now,
    target: SocketAddr,
    i: int,
)
    requires
        s.wf(),
        has_free_port(s.ports),
        s.tcp.len() + 1 <= usize::MAX,
        0 <= i < s.listeners.len(),
        s.ips.contains(target.ip_part()),
    ensures
        ({
            let t = s.with_connection(now, target, i);
            let n = s.tcp.len() as int;
            let at = s.listeners[i].addr;
            let any = match at.ip_part() {
                IpAddr::V4(ip) => ip.bits == 0,
                IpAddr::V6(ip) => ip.bits == 0,
            };
            &&& t.tcp.len() == n + 2
            &&& t.tcp[n] is Some && t.tcp[n + 1] is Some
            &&& forall|k: int| 0 <= k < n ==> #[trigger] t.tcp[k] == s.tcp[k]
            &&& {
                let (c, d) = (t.tcp[n]->0, t.tcp[n + 1]->0);
                &&& c.peer == Some((n + 1) as usize) && d.peer == Some(n as usize)
                &&& c.local_addr == d.peer_addr && d.local_addr == c.peer_addr
                &&& c.local_addr.ip_part() == target.ip_part()
                &&& 40_000 <= c.local_addr.port_part()
                &&& !s.ports.contains(c.local_addr.port_part())
                &&& t.ports == s.ports.insert(c.local_addr.port_part())
                &&& c.owns_port && !d.owns_port
                &&& d.local_addr.port_part() == at.port_part()
                &&& d.local_addr.ip_part() == if any {
                    target.ip_part()
                } else {
                    at.ip_part()
                }
                &&& untouched(c) && untouched(d)
            }
            &&& t.listeners.len() == s.listeners.len()
            &&& t.listeners[i].pending == s.listeners[i].pending.push((n + 1) as usize)
            &&& t.listeners[i].addr == at
            &&& t.listeners[i].closed == s.listeners[i].closed
            &&& t.listeners[i].nonblocking == s.listeners[i].nonblocking
            &&& t.listeners[i].refs == s.listeners[i].refs
            &&& forall|k: int|
                0 <= k < s.listeners.len() && k != i ==> #[trigger] t.listeners[k]
                    == s.listeners[k]
            &&& t.udp == s.udp
            &&& t.log == s.log
            &&& t.ips == s.ips
        }),
{
    law_ephemeral_port_was_free(s);
}

/// Nothing has happened to the end, and nothing was set on it.
pub open spec fn untouched(c: TcpView) -> bool {
    &&& c.incoming.len() == 0
    &&& c.pending.len() == 0
    &&& !c.read_shutdown
    &&& !c.write_shutdown
    &&& c.error is None
    &&& !c.nonblocking
    &&& !c.nodelay
    &&& c.ttl == 64
    &&& c.linger is None
    &&& c.read_timeout is None
    &&& c.write_timeout is None
    &&& c.refs == 1
    &&& !c.destroyed
    &&& !c.reset_pending
}

/// Who accepts gets the connection that has waited longest, and the address of
/// who connected; the others move up. Where none waits, a blocking listener goes
/// on waiting and any other says so; a closed one fails.
pub proof fn law_longest_waiting_is_accepted(s: StateView, addr: SocketAddr)
    requires
        s.wf(),
        s.has_listener(addr),
    ensures
        ({
            let i = s.find_listener(addr)->0;
            let l = s.listeners[i];
            let t = accept_effect(s, addr);
            &&& l.addr == addr
            &&& l.closed ==> accept_outcome(s, addr) is Err && accept_outcome(s, addr)->Err_0.kind
                == ErrorKind::NotConnected
            &&& !l.closed && l.pending.len() > 0 ==> {
                &&& accept_outcome(s, addr) is Ok
                &&& accept_outcome(s, addr)->Ok_0 == Some(
                    (l.pending[0], s.conn(l.pending[0]).peer_addr),
                )
                &&& t.listeners[i].pending == l.pending.subrange(1, l.pending.len() as int)
                &&& forall|k: int|
                    0 <= k < s.listeners.len() && k != i ==> #[trigger] t.listeners[k]
                        == s.listeners[k]
                &&& t.tcp.len() == s.tcp.len()
            }
            &&& !l.closed && l.pending.len() == 0 && l.nonblocking ==> accept_outcome(s, addr) is Err
                && accept_outcome(s, addr)->Err_0.kind == ErrorKind::WouldBlock && t == s
            &&& !l.closed && l.pending.len() == 0 && !l.nonblocking ==> accept_outcome(s, addr)
                is Ok && accept_outcome(s, addr)->Ok_0 is None && t == s
        }),
{
    lemma_found_listener(s.listeners, addr, 0);
    if s.find_listener(addr) is None {
        lemma_no_listener(s.listeners, addr, 0);
    }
    let i = s.find_listener(addr)->0;
    let l = s.listeners[i];
    if l.pending.len() > 0 {
        assert(l.pending.drop_first() =~= l.pending.subrange(1, l.pending.len() as int));
    }
}

proof fn lemma_bindable(s: StateView, addrs: Seq<SocketAddr>, from: int)
    requires
        0 <= from <= addrs.len(),
    ensures
        match bindable(s, addrs, from) {
            Some(i) => {
                &&& from <= i < addrs.len()
                &&& can_bind(s, addrs[i])
                &&& forall|j: int| from <= j < i ==> !can_bind(s, #[trigger] addrs[j])
            },
            None => forall|j: int| from <= j < addrs.len() ==> !can_bind(s, #[trigger] addrs[j]),
        },
    decreases addrs.len() - from,
{
    if from < addrs.len() {
        lemma_bindable(s, addrs, from + 1);
    }
}

/// A listener can be bound to `addr`: its address is valid, and its port is left
/// open or nobody has it.
pub open spec fn can_bind(s: StateView, addr: SocketAddr) -> bool {
    s.ips.contains(addr.ip_part()) && (addr.port_part() == 0 || !s.ports.contains(addr.port_part()))
}

/// Of several addresses a listener is bound to the first that it can be bound
/// to.
pub proof fn law_first_bindable_address_is_bound(s: StateView, addrs: Seq<SocketAddr>)
    ensures
        match bindable(s, addrs, 0) {
            Some(i) => {
                &&& 0 <= i < addrs.len()
                &&& can_bind(s, addrs[i])
                &&& forall|j: int| 0 <= j < i ==> !can_bind(s, #[trigger] addrs[j])
            },
            None => forall|j: int| 0 <= j < addrs.len() ==> !can_bind(s, #[trigger] addrs[j]),
        },
{
    lemma_bindable(s, addrs, 0);
}

/// A listener that was bound is there, with nobody waiting, and whoever connects
/// to its address gets to it; its port is taken. It has the address that was
/// asked for; for a port that was left open it has an ephemeral one that nobody
/// had. Other listeners are as they were.
pub proof fn law_bound_listener_is_there(s: StateView, addr: SocketAddr)
    requires
        s.wf(),
        addr.port_part() == 0 ==> has_free_port(s.ports),
        forall|j: int|
            0 <= j < s.listeners.len() ==> s.ports.contains(
                (#[trigger] s.listeners[j]).addr.port_part(),
            ),
        can_bind(s, addr),
    ensures
        ({
            let at = bound_to(s, addr);
            let t = bound_state(s, addr);
            let n = s.listeners.len() as int;
            &&& addr.port_part() != 0 ==> at == addr
            &&& addr.port_part() == 0 ==> at.ip_part() == addr.ip_part() && 40_000 <= at.port_part()
                && !s.ports.contains(at.port_part())
            &&& t.listener_for(at) == Some(n)
            &&& t.listeners.len() == n + 1
            &&& t.listeners[n].addr == at
            &&& t.listeners[n].pending.len() == 0
            &&& !t.listeners[n].closed
            &&& !t.listeners[n].nonblocking
            &&& t.listeners[n].refs == 1
            &&& t.listeners[n].error is None
            &&& forall|k: int| 0 <= k < n ==> #[trigger] t.listeners[k] == s.listeners[k]
            &&& t.ports == s.ports.insert(at.port_part())
            &&& t.tcp == s.tcp
            &&& t.udp == s.udp
        }),
{
    let at = bound_to(s, addr);
    let t = bound_state(s, addr);
    let n = s.listeners.len() as int;
    if addr.port_part() == 0 {
        law_ephemeral_port_was_free(s);
    }
    assert(!s.ports.contains(at.port_part()));
    lemma_found_listener(s.listeners, at, 0);
    assert(s.find_listener(at) is None);
    assert(t.ports =~= s.ports.insert(at.port_part()));
    lemma_found_listener(t.listeners, at, 0);
    if t.find_listener(at) is None {
        lemma_no_listener(t.listeners, at, 0);
        assert(t.listeners[n].addr != at);
    }
    let k = t.find_listener(at)->0;
    if k < n {
        assert(s.listeners[k].addr == at);
    }
}

/// One of several handles of a listener can go without any trace. With the last
/// one the listener goes too: nobody who connects gets to it, and its port can
/// be had again.
pub proof fn law_dropped_listener_is_gone(s: StateView, addr: SocketAddr)
    requires
        s.wf(),
        s.has_listener(addr),
        s.listeners[s.find_listener(addr)->0].pending.len() == 0,
    ensures
        ({
            let i = s.find_listener(addr)->0;
            let t = s.with_listener_dropped(addr);
            if s.listeners[i].refs > 1 {
                &&& t.find_listener(addr) == Some(i)
                &&& t.listeners[i].refs == s.listeners[i].refs - 1
                &&& t.listeners[i].pending == s.listeners[i].pending
                &&& t.ports == s.ports
                &&& t.tcp == s.tcp
            } else {
                &&& t.find_listener(addr) is None
                &&& t.listeners.len() == s.listeners.len() - 1
                &&& forall|l: crate::conn::ListenerView|
                    l.addr != addr ==> (s.listeners.contains(l) <==> #[trigger] t.listeners.contains(l))
                &&& t.ports == s.ports.remove(addr.port_part())
                &&& t.tcp == s.tcp
            }
        }),
{
    reveal(listeners_ok);
    lemma_found_listener(s.listeners, addr, 0);
    if s.find_listener(addr) is None {
        lemma_no_listener(s.listeners, addr, 0);
    }
    let i = s.find_listener(addr)->0;
    let t = s.with_listener_dropped(addr);
    assert(s.listeners[i].addr == addr);
    if s.listeners[i].refs > 1 {
        lemma_same_place(s.listeners, t.listeners, addr, 0);
    } else {
        lemma_found_listener(t.listeners, addr, 0);
        let k = t.find_listener(addr)->0;
        if t.find_listener(addr) is Some {
            assert(t.listeners[k] == if k < i {
                s.listeners[k]
            } else {
                s.listeners[k + 1]
            });
        }
        assert forall|l: crate::conn::ListenerView| l.addr != addr implies (s.listeners.contains(l)
            <==> #[trigger] t.listeners.contains(l)) by {
            if s.listeners.contains(l) {
                let j = choose|j: int| 0 <= j < s.listeners.len() && s.listeners[j] == l;
                assert(t.listeners[if j < i {
                    j
                } else {
                    j - 1
                }] == l);
            }
            if t.listeners.contains(l) {
                let j = choose|j: int| 0 <= j < t.listeners.len() && t.listeners[j] == l;
                assert(s.listeners[if j < i {
                    j
                } else {
                    j + 1
                }] == l);
            }
        }
    }
}

/// Listeners at the same addresses are found in the same places.
pub proof fn lemma_same_place(
    a: Seq<crate::conn::ListenerView>,
    b: Seq<crate::conn::ListenerView>,
    addr: SocketAddr,
    from: int,
)
    requires
        a.len() == b.len(),
        0 <= from,
        forall|j: int| 0 <= j < a.len() ==> (#[trigger] a[j]).addr == b[j].addr,
    ensures
        first_listener(a, addr, from) == first_listener(b, addr, from),
    decreases a.len() - from,
{
    if from < a.len() {
        assert(a[from].addr == b[from].addr);
        lemma_same_place(a, b, addr, from + 1);
    }
}

/// The client of a connection that nobody accepted learns that the server is
/// gone: it can read no more than what it was sent, has nobody to write to, and
/// has an error to report.
pub proof fn law_unaccepted_client_is_told(s: StateView, id: usize)
    requires
        s.wf(),
        s.live(id),
        s.conn(id).peer is Some,
    ensures
        ({
            let p = s.conn(id).peer->0;
            let t = s.with_unaccepted_dropped(id);
            &&& !t.live(id)
            &&& t.live(p)
            &&& t.conn(p).peer is None
            &&& t.conn(p).read_shutdown
            &&& t.conn(p).error is Some
            &&& t.conn(p).error->0.kind == ErrorKind::ConnectionReset
            &&& t.conn(p).incoming == s.conn(p).incoming
            &&& t.conn(p).local_addr == s.conn(p).local_addr
            &&& forall|k: int|
                0 <= k < s.tcp.len() && k != id && k != p ==> #[trigger] t.tcp[k] == s.tcp[k]
        }),
{
    reveal(linked);
}

/// Ephemeral ports are given out in turn: the next one is taken if it is free,
/// and the one behind it comes next; behind the last comes the first.
pub proof fn law_ports_are_given_in_turn(s: StateView)
    requires
        s.wf(),
        !s.ports.contains(
            if s.next_port == 0 {
                40_000
            } else {
                s.next_port
            },
        ),
    ensures
        s.fresh_port() == if s.next_port == 0 {
            40_000
        } else {
            s.next_port
        },
        s.with_port_reserved().ports == s.ports.insert(s.fresh_port()),
        s.with_port_reserved().next_port == (s.fresh_port() + 1) % 0x1_0000,
{
    assert(crate::state::nth_port(s.next_port, 0) == if s.next_port == 0 {
        40_000
    } else {
        s.next_port
    });
}

/// The ends in `ids` are gone and nobody else is; who had one of them for a peer
/// knows, and everyone else is as before.
pub open spec fn are_gone(s: StateView, t: StateView, ids: Seq<usize>) -> bool {
    &&& t.tcp.len() == s.tcp.len()
    &&& forall|k: int| 0 <= k < ids.len() ==> !t.live(#[trigger] ids[k])
    &&& forall|j: int|
        0 <= j < s.tcp.len() && !ids.contains(j as usize) ==> if (#[trigger] t.tcp[j]) is Some
            && s.tcp[j] is Some && s.tcp[j]->0.peer is Some && ids.contains(s.tcp[j]->0.peer->0) {
            &&& t.tcp[j]->0.peer is None
            &&& t.tcp[j]->0.read_shutdown
            &&& t.tcp[j]->0.error is Some
            &&& t.tcp[j]->0.error->0.kind == ErrorKind::ConnectionReset
            &&& t.tcp[j]->0.incoming == s.tcp[j]->0.incoming
        } else {
            t.tcp[j] == s.tcp[j]
        }
}

proof fn lemma_all_are_gone(s: StateView, ids: Seq<usize>)
    requires
        linked(s.tcp),
        s.tcp.len() <= usize::MAX,
        ids.no_duplicates(),
        forall|k: int| 0 <= k < ids.len() ==> s.live(#[trigger] ids[k]),
    ensures
        are_gone(s, s.with_all_unaccepted_dropped(ids), ids),
    decreases ids.len(),
{
    reveal(linked);
    let t = s.with_all_unaccepted_dropped(ids);
    if ids.len() > 0 {
        let id = ids[0];
        let rest = ids.drop_first();
        let s1 = s.with_unaccepted_dropped(id);
        assert(s.live(ids[0]));
        assert(linked(s1.tcp)) by {
            assert forall|i: int|
                0 <= i < s1.tcp.len() && (#[trigger] s1.tcp[i]) is Some && s1.tcp[i]->0.peer
                    is Some implies {
                let p = s1.tcp[i]->0.peer->0 as int;
                &&& p < s1.tcp.len()
                &&& p != i
                &&& s1.tcp[p] is Some
                &&& s1.tcp[p]->0.peer is Some
                &&& s1.tcp[p]->0.peer->0 == i
                &&& s1.tcp[p]->0.local_addr == s1.tcp[i]->0.peer_addr
                &&& s1.tcp[p]->0.peer_addr == s1.tcp[i]->0.local_addr
            } by {
                assert(s.tcp[i] is Some);
                assert(s.tcp[id as int] is Some);
            }
        }
        assert forall|k: int| 0 <= k < rest.len() implies s1.live(#[trigger] rest[k]) by {
            assert(rest[k] == ids[k + 1]);
            assert(s.live(ids[k + 1]));
            assert(ids[k + 1] != ids[0]);
        }
        lemma_all_are_gone(s1, rest);
        assert forall|k: int| 0 <= k < ids.len() implies !t.live(#[trigger] ids[k]) by {
            if k > 0 {
                assert(!t.live(rest[k - 1]));
            } else {
                assert(!rest.contains(id));
                assert(s1.tcp[id as int] is None);
                assert(t.tcp[id as int] == s1.tcp[id as int]);
            }
        }
        assert forall|j: int|
            0 <= j < s.tcp.len() && !ids.contains(j as usize) implies if (#[trigger] t.tcp[j])
            is Some && s.tcp[j] is Some && s.tcp[j]->0.peer is Some && ids.contains(
            s.tcp[j]->0.peer->0,
        ) {
            &&& t.tcp[j]->0.peer is None
            &&& t.tcp[j]->0.read_shutdown
            &&& t.tcp[j]->0.error is Some
            &&& t.tcp[j]->0.error->0.kind == ErrorKind::ConnectionReset
            &&& t.tcp[j]->0.incoming == s.tcp[j]->0.incoming
        } else {
            t.tcp[j] == s.tcp[j]
        } by {
            assert(!rest.contains(j as usize)) by {
                if rest.contains(j as usize) {
                    let k = choose|k: int| 0 <= k < rest.len() && rest[k] == j as usize;
                    assert(ids[k + 1] == j as usize);
                }
            }
            assert(j != id) by {
                assert(ids[0] == id);
            }
            assert(s.tcp[id as int] is Some);
            if s.tcp[j] is Some && s.tcp[j]->0.peer is Some {
                let q = s.tcp[j]->0.peer->0;
                if q == id {
                    assert(s.tcp[id as int]->0.peer == Some(j as usize));
                    assert(s1.tcp[j]->0.peer is None);
                    assert(t.tcp[j] == s1.tcp[j]);
                    assert(ids.contains(ids[0]));
                } else {
                    assert(s1.tcp[j] == s.tcp[j]);
                    if ids.contains(q) {
                        let k = choose|k: int| 0 <= k < ids.len() && ids[k] == q;
                        assert(rest[k - 1] == q);
                    } else {
                        assert(!rest.contains(q)) by {
                            if rest.contains(q) {
                                let k = choose|k: int| 0 <= k < rest.len() && rest[k] == q;
                                assert(ids[k + 1] == q);
                            }
                        }
                    }
                }
            } else {
                assert(s1.tcp[j] == s.tcp[j]);
            }
        }
    }
}

/// With a listener's last handle go all connections that wait to be accepted, and
/// their clients are told. No other end notices.
pub proof fn law_dropped_listener_takes_its_queue_along(s: StateView, addr: SocketAddr)
    requires
        s.wf(),
        s.has_listener(addr),
        s.tcp.len() <= usize::MAX,
        s.listeners[s.find_listener(addr)->0].refs == 1,
    ensures
        are_gone(
            s,
            s.with_listener_dropped(addr),
            s.listeners[s.find_listener(addr)->0].pending,
        ),
        s.with_listener_dropped(addr).listeners.len() == s.listeners.len() - 1,
{
    reveal(crate::state::queues_ok);
    lemma_found_listener(s.listeners, addr, 0);
    if s.find_listener(addr) is None {
        lemma_no_listener(s.listeners, addr, 0);
    }
    let i = s.find_listener(addr)->0;
    let ids = s.listeners[i].pending;
    let u = StateView {
        listeners: s.listeners.remove(i),
        ports: s.ports.remove(addr.port_part()),
        ..s
    };
    assert forall|k: int| 0 <= k < ids.len() implies u.live(#[trigger] ids[k]) by {
        assert(s.listeners[i].pending[k] == ids[k]);
    }
    assert(ids.no_duplicates()) by {
        assert forall|a: int, b: int| 0 <= a < ids.len() && 0 <= b < ids.len() && a != b implies ids[a]
            != ids[b] by {
            if ids[a] == ids[b] {
                assert(s.listeners[i].pending[a] == s.listeners[i].pending[b]);
            }
        }
    }
    lemma_all_are_gone(u, ids);
    lemma_listeners_stay(u, ids);
}

proof fn lemma_listeners_stay(s: StateView, ids: Seq<usize>)
    ensures
        s.with_all_unaccepted_dropped(ids).listeners == s.listeners,
    decreases ids.len(),
{
    if ids.len() > 0 {
        lemma_listeners_stay(s.with_unaccepted_dropped(ids[0]), ids.drop_first());
    }
}

/// A listener that is bound where one is takes its place: nobody waits at it, and
/// nothing is set on it. Others are as they were.
pub proof fn law_listener_takes_anothers_place(s: StateView, addr: SocketAddr)
    requires
        s.has_listener(addr),
    ensures
        ({
            let t = s.with_listening(addr);
            let i = s.find_listener(addr)->0;
            &&& 0 <= i < s.listeners.len()
            &&& t.listeners.len() == s.listeners.len()
            &&& t.find_listener(addr) == Some(i)
            &&& t.listeners[i].addr == addr
            &&& t.listeners[i].pending.len() == 0
            &&& !t.listeners[i].nonblocking && !t.listeners[i].closed
            &&& t.listeners[i].error is None
            &&& t.listeners[i].refs == 1
            &&& forall|k: int|
                0 <= k < s.listeners.len() && k != i ==> #[trigger] t.listeners[k]
                    == s.listeners[k]
            &&& t.ports == s.ports.insert(addr.port_part())
            &&& t.tcp == s.tcp
        }),
{
    lemma_found_listener(s.listeners, addr, 0);
    if s.find_listener(addr) is None {
        lemma_no_listener(s.listeners, addr, 0);
    }
    let t = s.with_listening(addr);
    lemma_same_place(t.listeners, s.listeners, addr, 0);
}

} // verus!
