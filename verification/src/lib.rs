//! A network inside one process, for testing code that talks over TCP and UDP.
//!
//! A [`TestState`] is the network of one test: its connections, listeners and
//! sockets, the policies of its links, its clock and its log. Everything else
//! works on one: the sockets in [`net`], the poller in [`mio`], and the testers
//! in [`framework`] that play the other side of the wire. Nothing here waits. A
//! call that would is a step that says for how long, and is followed by another.

pub mod addr;
pub mod bell;
pub mod bytes;
pub mod call_laws;
pub mod capture_laws;
pub mod clock;
pub mod conn;
pub mod connect_laws;
pub mod datagram_laws;
pub mod error;
pub mod exchange_laws;
pub mod framework;
pub mod harness_laws;
pub mod log_laws;
pub mod mio;
pub mod mio_shim;
pub mod net;
pub mod pcapng;
pub mod policy;
pub mod poll_laws;
pub mod record;
pub mod rng;
pub mod run;
pub mod run_laws;
pub mod shim_std_tcp;
pub mod shim_std_udp;
pub mod signal;
pub mod state;
pub mod stream_laws;
pub mod table;
pub mod tester_laws;
pub mod thread;
pub mod time;
pub mod value_laws;
pub mod wake_laws;

pub use framework::{
    connect_tester, Cycle, Feed, FeedEvent, FeedStep, FinishStep, NetTester, Packetable, StateKey,
    TesterAction, TimerState,
};
pub use net::{TcpListener, TcpStream, UdpSocket};
pub use policy::{ListenerBehavior, QuiesceMode, TcpPolicy, UdpPolicy};
pub use record::{RecordedEntry, RecordedEvent};
pub use run::{RunEvent, RunLoop, RunStep};
pub use state::{
    add_ip_addr, advance_time, clear_recorded_events, enable_pcapng, inject_tcp_from_test,
    pause_time, peek_local_addr_for_peer, quiesce, quiesce_with_mode, recorded_events, reset_tcp,
    resume_time, seed_rng, set_listener_behavior, set_tcp_inbound_latency, set_tcp_recv_window,
    set_time_rate, set_time_value, set_udp_policy, time_rate, time_value, Now, TestState,
};
pub use thread::{Harness, ThreadExt, ThreadId};

use vstd::prelude::*;

verus! {

/// A transport.
#[derive(Clone, Copy, Debug, PartialEq, Eq, Structural, Hash)]
pub enum SocketType {
    Udp,
    Tcp,
}

} // verus!
