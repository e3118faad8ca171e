//! What holds of every log.

use crate::addr::SocketAddr;
use crate::error::ErrorView;
use crate::policy::QuiesceMode;
use crate::record::{all_by, in_order, RecordedEntry, RecordedEvent};
use crate::state::{Now, StateView};
use crate::time::Instant;
use crate::SocketType;
use vstd::prelude::*;

verus! {

/// A call that writes to the log.
pub enum Logged {
    /// An entry of the caller's own.
    Entry(RecordedEvent),
    TcpSend { from: SocketAddr, to: SocketAddr, data: Seq<u8> },
    UdpSend { from: SocketAddr, to: SocketAddr, data: Seq<u8> },
    Reset(SocketAddr),
    Close(SocketAddr, SocketType),
    TcpError(SocketAddr, ErrorView),
    UdpError(SocketAddr, ErrorView),
    Quiesce { addr: SocketAddr, until: Instant, mode: QuiesceMode },
}

impl Logged {
    /// The network after the call.
    pub open spec fn made(self, s: StateView, now: Now) -> StateView {
        match self {
            Logged::Entry(event) => s.recorded(now, event),
            Logged::TcpSend { from, to, data } => s.with_tcp_sent(now, from, to, data),
            Logged::UdpSend { from, to, data } => s.with_udp_sent(now, from, to, data),
            Logged::Reset(addr) => s.with_reset(now, addr),
            Logged::Close(addr, kind) => s.with_closed(now, addr, kind),
            Logged::TcpError(addr, e) => s.with_tcp_error(now, addr, e),
            Logged::UdpError(addr, e) => s.with_udp_error(now, addr, e),
            Logged::Quiesce { addr, until, mode } => s.quiesced(now, addr, until, mode),
        }
    }
}

/// `t` is `s` with one entry of now behind it, or with none.
pub open spec fn logs_at_most_one(
    s: Seq<RecordedEntry>,
    t: Seq<RecordedEntry>,
    now: Instant,
) -> bool {
    t == s || (t.len() == s.len() + 1 && t.drop_last() == s && t.last().at == now)
}

pub proof fn lemma_one_entry_in_order(s: Seq<RecordedEntry>, t: Seq<RecordedEntry>, now: Instant)
    requires
        in_order(s),
        all_by(s, now@),
        logs_at_most_one(s, t, now),
    ensures
        in_order(t),
        all_by(t, now@),
        s.is_prefix_of(t),
{
    if t != s {
        assert forall|i: int| 0 <= i < s.len() implies t[i] == s[i] by {
            assert(t.drop_last()[i] == s[i]);
        }
        assert(s =~= t.subrange(0, s.len() as int));
    } else {
        assert(s =~= t.subrange(0, s.len() as int));
    }
}

proof fn lemma_logs_at_most_one(call: Logged, s: StateView, now: Now)
    ensures
        logs_at_most_one(s.log, call.made(s, now).log, now.mono),
{
    assert forall|e: RecordedEntry| #[trigger] s.log.push(e).drop_last() == s.log by {
        assert(s.log.push(e).drop_last() =~= s.log);
    }
    let t = call.made(s, now);
    match call {
        Logged::UdpSend { .. } => {
            assert(logs_at_most_one(s.log, t.log, now.mono));
        },
        Logged::Reset(_) => {
            assert(logs_at_most_one(s.log, t.log, now.mono));
        },
        _ => {},
    }
}

/// The log is oldest first: whatever is done to a network, as long as the time
/// is not before that of the last entry, leaves the log in order, and leaves
/// every entry where it was.
pub proof fn law_log_is_oldest_first(call: Logged, s: StateView, now: Now)
    requires
        in_order(s.log),
        all_by(s.log, now.mono@),
    ensures
        in_order(call.made(s, now).log),
        all_by(call.made(s, now).log, now.mono@),
        s.log.is_prefix_of(call.made(s, now).log),
        call.made(s, now).log.len() <= s.log.len() + 1,
{
    lemma_logs_at_most_one(call, s, now);
    lemma_one_entry_in_order(s.log, call.made(s, now).log, now.mono);
}

/// What can happen to a log.
pub enum LogStep {
    /// A call that writes to it.
    Call(Now, Logged),
    /// Anything else that is done to the network.
    Meanwhile,
    /// It is emptied.
    Cleared,
}

/// The step leads from `s` to `t`.
pub open spec fn steps(s: StateView, step: LogStep, t: StateView) -> bool {
    match step {
        LogStep::Call(now, call) => t == call.made(s, now),
        LogStep::Meanwhile => t.log == s.log,
        LogStep::Cleared => t == (StateView { log: Seq::empty(), ..s }),
    }
}

/// The steps lead through the networks one after the other.
pub open spec fn runs(states: Seq<StateView>, trace: Seq<LogStep>) -> bool {
    &&& states.len() == trace.len() + 1
    &&& forall|i: int|
        #![trigger trace[i]]
        0 <= i < trace.len() ==> steps(states[i], trace[i], states[i + 1])
}

/// When the latest call among the first `n` steps was made; `since` if there was
/// none.
pub open spec fn latest(trace: Seq<LogStep>, n: int, since: nat) -> nat
    decreases n,
{
    if n <= 0 {
        since
    } else {
        match trace[n - 1] {
            LogStep::Call(now, _) => now.mono@,
            _ => latest(trace, n - 1, since),
        }
    }
}

/// No call is made before the one before it, and none before `since`.
pub open spec fn in_time(trace: Seq<LogStep>, since: nat) -> bool {
    forall|i: int|
        #![trigger trace[i]]
        0 <= i < trace.len() ==> (trace[i] matches LogStep::Call(now, _) ==> latest(
            trace,
            i,
            since,
        ) <= now.mono@)
}

/// The log of a test is oldest first at all times, whatever is done to its
/// network in between: it is from the start, when it is empty, or from any time
/// at which it was, such as after it was emptied.
pub proof fn law_log_of_a_test_is_oldest_first(
    states: Seq<StateView>,
    trace: Seq<LogStep>,
    since: nat,
    n: int,
)
    requires
        runs(states, trace),
        in_time(trace, since),
        in_order(states[0].log),
        all_by(states[0].log, since),
        0 <= n <= trace.len(),
    ensures
        in_order(states[n].log),
        all_by(states[n].log, latest(trace, n, since)),
    decreases n,
{
    if n > 0 {
        law_log_of_a_test_is_oldest_first(states, trace, since, n - 1);
        assert(steps(states[n - 1], trace[n - 1], states[n]));
        match trace[n - 1] {
            LogStep::Call(now, call) => {
                law_log_is_oldest_first(call, states[n - 1], now);
            },
            _ => {},
        }
    }
}

/// A test begins with an empty log, which is in order; so is one that was
/// emptied.
pub proof fn law_empty_log_is_in_order(
    now: Now,
    bell: event_listener::Event<()>,
    s: StateView,
    since: nat,
)
    ensures
        in_order(StateView::fresh(now, bell).log),
        all_by(StateView::fresh(now, bell).log, since),
        in_order((StateView { log: Seq::empty(), ..s }).log),
        all_by((StateView { log: Seq::empty(), ..s }).log, since),
{
}

/// What was read from the log stays the beginning of it until it is emptied.
pub proof fn law_log_only_grows(
    states: Seq<StateView>,
    trace: Seq<LogStep>,
    since: nat,
    m: int,
    n: int,
)
    requires
        runs(states, trace),
        in_time(trace, since),
        in_order(states[0].log),
        all_by(states[0].log, since),
        0 <= m <= n <= trace.len(),
        forall|i: int| m <= i < n ==> !(#[trigger] trace[i] is Cleared),
    ensures
        states[m].log.is_prefix_of(states[n].log),
    decreases n - m,
{
    if m < n {
        law_log_only_grows(states, trace, since, m, n - 1);
        law_log_of_a_test_is_oldest_first(states, trace, since, n - 1);
        assert(steps(states[n - 1], trace[n - 1], states[n]));
        match trace[n - 1] {
            LogStep::Call(now, call) => {
                law_log_is_oldest_first(call, states[n - 1], now);
            },
            _ => {},
        }
        let a = states[m].log;
        let b = states[n - 1].log;
        let c = states[n].log;
        assert(b.is_prefix_of(c)) by {
            if c == b {
                assert(b =~= c.subrange(0, b.len() as int));
            }
        }
        assert(a =~= c.subrange(0, a.len() as int)) by {
            assert(a =~= b.subrange(0, a.len() as int));
            assert(b =~= c.subrange(0, b.len() as int));
            assert forall|i: int| 0 <= i < a.len() implies a[i] == c[i] by {
                assert(a[i] == b.subrange(0, a.len() as int)[i]);
                assert(b[i] == c.subrange(0, b.len() as int)[i]);
            }
        }
    } else {
        assert(states[m].log =~= states[n].log.subrange(0, states[m].log.len() as int));
    }
}

} // verus!
