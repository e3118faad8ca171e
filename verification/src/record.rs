//! The log of what a test did to its network.

use crate::addr::SocketAddr;
use crate::error::ErrorKind;
use crate::policy::QuiesceMode;
use crate::time::{Duration, Instant};
use vstd::prelude::*;

verus! {

/// Something that crossed the boundary between the test and the network.
#[derive(Clone, Copy, Debug, PartialEq, Eq, Structural)]
pub enum RecordedEvent {
    TcpSendFromTest { from: SocketAddr, to: SocketAddr, len: usize },
    TcpResetFromTest { addr: SocketAddr },
    TcpCloseFromTest { addr: SocketAddr },
    UdpSendFromTest {
        from: SocketAddr,
        to: SocketAddr,
        len: usize,
        dropped: bool,
        duplicated: bool,
    },
    UdpCloseFromTest { addr: SocketAddr },
    Quiesce { addr: SocketAddr, dur: Duration, mode: QuiesceMode },
    SocketErrorFromTest { addr: SocketAddr, kind: ErrorKind },
}

/// An event and when it happened.
#[derive(Clone, Copy, Debug, PartialEq, Eq, Structural)]
pub struct RecordedEntry {
    pub at: Instant,
    pub event: RecordedEvent,
}

/// No entry is older than the one before it.
pub open spec fn in_order(log: Seq<RecordedEntry>) -> bool {
    forall|i: int, j: int|
        0 <= i <= j < log.len() ==> (#[trigger] log[i]).at@ <= (#[trigger] log[j]).at@
}

/// No entry is younger than `now`.
pub open spec fn all_by(log: Seq<RecordedEntry>, now: nat) -> bool {
    forall|i: int| 0 <= i < log.len() ==> (#[trigger] log[i]).at@ <= now
}

} // verus!
