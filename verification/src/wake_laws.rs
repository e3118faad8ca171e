//! What those who wait can rely on.

use crate::addr::SocketAddr;
use crate::error::ErrorView;
use crate::shim_std_tcp::{shut_down, write_effect, Shutdown, Writing};
use crate::shim_std_udp::send_effect;
use crate::state::{Now, StateView};
use crate::SocketType;
use event_listener::EventListener;
use vstd::prelude::*;

verus! {

/// Something that may be what others wait for.
pub enum Change {
    /// A connection to a target, through the listener in this place.
    Connected(SocketAddr, int),
    Written(Writing, Seq<u8>),
    ShutDown(usize, Shutdown),
    Dropped(usize),
    /// A packet from the first address to the second ones.
    Sent(SocketAddr, Seq<SocketAddr>, Seq<u8>),
    TcpFromTest { from: SocketAddr, to: SocketAddr, data: Seq<u8> },
    UdpFromTest { from: SocketAddr, to: SocketAddr, data: Seq<u8> },
    Reset(SocketAddr),
    Closed(SocketAddr, SocketType),
    TcpError(SocketAddr, ErrorView),
    UdpError(SocketAddr, ErrorView),
    /// What has arrived at an end or a socket comes to light.
    TcpArrived(usize),
    UdpArrived(SocketAddr),
}

impl Change {
    /// The network after the change.
    pub open spec fn made(self, s: StateView, now: Now) -> StateView {
        match self {
            Change::Connected(target, i) => s.with_connection(now, target, i),
            Change::Written(w, data) => write_effect(s, now, w, data),
            Change::ShutDown(id, how) => shut_down(s, id, how),
            Change::Dropped(id) => s.with_stream_dropped(now, id),
            Change::Sent(addr, addrs, data) => send_effect(s, now, addr, addrs, data),
            Change::TcpFromTest { from, to, data } => s.with_tcp_sent(now, from, to, data),
            Change::UdpFromTest { from, to, data } => s.with_udp_sent(now, from, to, data),
            Change::Reset(addr) => s.with_reset(now, addr),
            Change::Closed(addr, kind) => s.with_closed(now, addr, kind),
            Change::TcpError(addr, e) => s.with_tcp_error(now, addr, e),
            Change::UdpError(addr, e) => s.with_udp_error(now, addr, e),
            Change::TcpArrived(id) => s.with_tcp_released(now.mono@, id),
            Change::UdpArrived(addr) => s.with_udp_released(now.mono@, addr),
        }
    }
}

/// Whoever listens before a change is woken by it: where anything changes that a
/// reader, a writer, an accept or a poller can wait for, those who wait are woken
/// once more, and a listener that was taken before the change is one of theirs.
pub proof fn law_listener_is_woken_by_every_change(
    change: Change,
    s: StateView,
    now: Now,
    listener: EventListener<()>,
)
    requires
        s.is_heard_by(listener),
    ensures
        ({
            let t = change.made(s, now);
            &&& t.is_heard_by(listener)
            &&& t.wakes >= s.wakes
            &&& t.tcp != s.tcp || t.udp != s.udp || t.listeners != s.listeners ==> t.wakes > s.wakes
        }),
{
    lemma_bell_is_kept(change, s, now);
}

proof fn lemma_bell_is_kept(change: Change, s: StateView, now: Now)
    ensures
        ({
            let t = change.made(s, now);
            &&& t.bell == s.bell
            &&& t.wakes >= s.wakes
            &&& t.tcp != s.tcp || t.udp != s.udp || t.listeners != s.listeners ==> t.wakes > s.wakes
        }),
{
    let t = change.made(s, now);
    match change {
        Change::Connected(_, _) => {
            assert(t.bell == s.bell && t.wakes > s.wakes);
        },
        Change::Written(_, _) => {
            assert(t.bell == s.bell && t.wakes > s.wakes);
        },
        Change::ShutDown(_, _) => {
            assert(t.bell == s.bell && t.wakes > s.wakes);
        },
        Change::Dropped(_) => {
            assert(t.bell == s.bell && t.wakes > s.wakes);
        },
        Change::Sent(_, _, _) => {
            assert(t.bell == s.bell);
        },
        Change::UdpFromTest { .. } => {
            assert(t.bell == s.bell);
        },
        _ => {},
    }
}

/// However many changes there are, a listener that was taken before them stays
/// one that the network wakes.
pub proof fn law_listener_outlasts_changes(
    changes: Seq<(Now, Change)>,
    s: StateView,
    listener: EventListener<()>,
)
    requires
        s.is_heard_by(listener),
    ensures
        after_changes(s, changes).is_heard_by(listener),
        after_changes(s, changes).wakes >= s.wakes,
    decreases changes.len(),
{
    if changes.len() > 0 {
        let before = changes.drop_last();
        law_listener_outlasts_changes(before, s, listener);
        law_listener_is_woken_by_every_change(
            changes.last().1,
            after_changes(s, before),
            changes.last().0,
            listener,
        );
    }
}

/// The network after a run of changes.
pub open spec fn after_changes(s: StateView, changes: Seq<(Now, Change)>) -> StateView
    decreases changes.len(),
{
    if changes.len() == 0 {
        s
    } else {
        changes.last().1.made(after_changes(s, changes.drop_last()), changes.last().0)
    }
}

} // verus!
