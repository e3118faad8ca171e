//! What a test can impose on the links of its network.

use crate::addr::{IpAddr, SocketAddr};
use crate::rng::Probability;
use crate::table::Key;
use crate::time::{Duration, Instant};
use vstd::prelude::*;

verus! {

/// Which direction(s) a quiesce window suppresses readiness in.
#[derive(Clone, Copy, Debug, PartialEq, Eq, Structural)]
pub enum QuiesceMode {
    /// Both inbound and outbound.
    Both,
    /// Inbound only: the peer is deaf, but writes still drain.
    InboundOnly,
    /// Outbound only: reads still work, but writes do not drain.
    OutboundOnly,
}

/// A quiesce window.
#[derive(Clone, Copy, Debug, PartialEq, Eq, Structural)]
pub struct QuiesceEntry {
    pub until: Instant,
    pub mode: QuiesceMode,
}

/// The policy of a TCP link, by the address at its receiving end.
#[derive(Clone, Copy, Debug, PartialEq, Eq, Structural)]
pub struct TcpPolicy {
    /// Delay of the bytes that come in.
    pub inbound_latency: Duration,
    /// Cap on the bytes that wait to be read. Writes back-pressure when it is
    /// reached.
    pub recv_window: Option<usize>,
}

/// The policy of a link where none was set.
pub open spec fn default_tcp_policy() -> TcpPolicy {
    TcpPolicy { inbound_latency: Duration::of(0), recv_window: None }
}

impl Default for TcpPolicy {
    fn default() -> (r: TcpPolicy)
        ensures
            r == default_tcp_policy(),
    {
        TcpPolicy { inbound_latency: Duration::zero(), recv_window: None }
    }
}

/// The policy of a UDP socket, by its address.
#[derive(Clone, Copy, Debug, PartialEq, Eq, Structural)]
pub struct UdpPolicy {
    /// Delay of the packets that come in.
    pub inbound_latency: Duration,
    /// Probability that a packet is dropped.
    pub loss_rate: Probability,
    /// Probability that a packet comes in twice.
    pub duplicate_rate: Probability,
    /// Extra random delay of each packet, uniform in `[0, jitter]`.
    pub reorder_jitter: Duration,
    /// Cap on the packets that wait to be sent. Sends return `WouldBlock` when
    /// it is reached.
    pub send_queue_depth: Option<usize>,
    /// Longest datagram; longer sends return `InvalidInput`.
    pub mtu: Option<usize>,
}

/// The policy of a socket where none was set.
pub open spec fn default_udp_policy() -> UdpPolicy {
    UdpPolicy {
        inbound_latency: Duration::of(0),
        loss_rate: Probability::of(0),
        duplicate_rate: Probability::of(0),
        reorder_jitter: Duration::of(0),
        send_queue_depth: None,
        mtu: None,
    }
}

impl Default for UdpPolicy {
    fn default() -> (r: UdpPolicy)
        ensures
            r == default_udp_policy(),
    {
        UdpPolicy {
            inbound_latency: Duration::zero(),
            loss_rate: Probability::never(),
            duplicate_rate: Probability::never(),
            reorder_jitter: Duration::zero(),
            send_queue_depth: None,
            mtu: None,
        }
    }
}

/// How a TCP listener responds to `connect` calls.
#[derive(Clone, Copy, Debug, PartialEq, Eq, Structural)]
pub enum ListenerBehavior {
    /// Accept immediately.
    Accepting,
    /// Refuse the connection.
    Refusing,
    /// Reject connection attempts until the given time, then accept again.
    DelayingUntil(Instant),
}

impl Key for SocketAddr {
    fn same(&self, other: &SocketAddr) -> bool {
        *self == *other
    }
}

impl Key for IpAddr {
    fn same(&self, other: &IpAddr) -> bool {
        *self == *other
    }
}

} // verus!
