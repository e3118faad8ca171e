//! TCP streams and listeners with the surface of the standard library's.
//!
//! Each operation is one step on the test's network and never waits. Where the
//! standard library would wait, the step says so; its caller waits for the
//! network's signal, as [`before_wait`] tells, and takes the step again.

use crate::addr::SocketAddr;
use crate::conn::{ListenerView, TcpView};
use crate::error::{err, opt_error, Error, ErrorKind, ErrorView};
use crate::policy::{ListenerBehavior, TcpPolicy};
use crate::state::{
    add_tcp_listener_state, awaits, clone_tcp_listener_state, earliest_pending_release, establish,
    has_free_port, is_ip_addr_valid, is_port_available, keeps_handles, lemma_found_listener,
    lemma_no_listener, listener_behavior, mark_peer_read_shutdown, next_stream_change, opt_time,
    pcap_tcp_data, release_stream, remove_tcp_listener_state, reserve_ephemeral_addr, tcp_policy,
    tcp_stream_status, trigger_event, Now, StateView, TcpStreamStatus, TestState,
};
use crate::time::{elapsed_between, Duration, Instant};
use vstd::prelude::*;

verus! {

/// A handle of one end of a TCP connection.
#[derive(Debug)]
pub struct ShimStdTcpStream {
    stream_id: usize,
}

/// A handle of a TCP listener.
#[derive(Debug)]
pub struct ShimStdTcpListener {
    bound_addr: SocketAddr,
}

/// Which half of a connection to shut down.
#[derive(Clone, Copy, Debug, PartialEq, Eq, Structural)]
pub enum Shutdown {
    Read,
    Write,
    Both,
}

// ----- Copying out -----

/// What a buffer holds after `data` was copied into it, as far as it goes.
pub open spec fn filled(buf: Seq<u8>, data: Seq<u8>) -> Seq<u8> {
    if data.len() <= buf.len() {
        data + buf.skip(data.len() as int)
    } else {
        data.take(buf.len() as int)
    }
}

/// Copies `data` into `buf`, as far as it goes.
pub fn copy_into(buf: &mut [u8], data: &[u8]) -> (n: usize)
    ensures
        final(buf)@ == filled(old(buf)@, data@),
        n == if data@.len() <= old(buf)@.len() {
            data@.len()
        } else {
            old(buf)@.len()
        },
{
    let n: usize = if data.len() <= buf.len() {
        data.len()
    } else {
        buf.len()
    };
    let mut i: usize = 0;
    while i < n
        invariant
            i <= n,
            n <= data@.len(),
            n <= old(buf)@.len(),
            buf@ == data@.take(i as int) + old(buf)@.skip(i as int),
        decreases n - i,
    {
        buf[i] = data[i];
        i += 1;
        assert(buf@ =~= data@.take(i as int) + old(buf)@.skip(i as int));
    }
    assert(buf@ =~= filled(old(buf)@, data@));
    n
}

// ----- Waiting -----

/// How to wait.
#[derive(Clone, Copy, Debug, PartialEq, Eq, Structural)]
pub enum WaitStep {
    /// Not at all: something has arrived.
    Skip,
    /// For the signal, but no longer than this.
    For(Duration),
    /// For the signal, as long as it takes.
    Forever,
}

pub open spec fn timed_out() -> ErrorView {
    err(ErrorKind::WouldBlock, "operation timed out"@)
}

/// When a wait that began at `now` has to end, if it has to.
pub open spec fn wait_target(
    now: Now,
    timeout: Option<Duration>,
    deadline: Option<Instant>,
) -> Option<Instant> {
    match timeout {
        Some(d) => match deadline {
            Some(t) => Some(t),
            None => Some(now.mono.later(d)),
        },
        None => None,
    }
}

/// How to wait for at most `timeout`, counted from the first wait, so as not to
/// miss what comes in at `arrival`.
pub open spec fn wait_step(
    arrival: Option<nat>,
    now: Now,
    timeout: Option<Duration>,
    deadline: Option<Instant>,
) -> Result<WaitStep, ErrorView> {
    match (wait_target(now, timeout, deadline), arrival) {
        (Some(target), arrival) => {
            let left = elapsed_between(now.mono@, target@);
            if now.mono@ >= target@ {
                Err(timed_out())
            } else {
                match arrival {
                    Some(at) => if elapsed_between(now.mono@, at) < left {
                        Ok(WaitStep::For(Duration::of(elapsed_between(now.mono@, at))))
                    } else {
                        Ok(WaitStep::For(Duration::of(left)))
                    },
                    None => Ok(WaitStep::For(Duration::of(left))),
                }
            }
        },
        (None, Some(at)) => if at <= now.mono@ {
            Ok(WaitStep::Skip)
        } else {
            Ok(WaitStep::For(Duration::of((at - now.mono@) as nat)))
        },
        (None, None) => Ok(WaitStep::Forever),
    }
}

/// How to wait for at most `timeout`. `deadline` is empty before the first wait
/// of an operation and is handed back for the next. The wait is cut short at
/// the next arrival: nothing else would wake a reader for it.
pub fn before_wait(st: &TestState, now: Now, timeout: Option<Duration>, deadline: &mut Option<Instant>)
    -> (r: Result<WaitStep, Error>)
    ensures
        *final(deadline) == wait_target(now, timeout, *old(deadline)),
        match r {
            Ok(w) => wait_step(st@.earliest(), now, timeout, *old(deadline)) == Ok::<
                WaitStep,
                ErrorView,
            >(w),
            Err(e) => wait_step(st@.earliest(), now, timeout, *old(deadline)) == Err::<
                WaitStep,
                ErrorView,
            >(e@),
        },
{
    wait_until(earliest_pending_release(st), now, timeout, deadline)
}

/// How to wait for what comes in at `arrival`.
pub(crate) fn wait_until(
    arrival: Option<Instant>,
    now: Now,
    timeout: Option<Duration>,
    deadline: &mut Option<Instant>,
) -> (r: Result<WaitStep, Error>)
    ensures
        *final(deadline) == wait_target(now, timeout, *old(deadline)),
        match r {
            Ok(w) => wait_step(opt_time(arrival), now, timeout, *old(deadline)) == Ok::<
                WaitStep,
                ErrorView,
            >(w),
            Err(e) => wait_step(opt_time(arrival), now, timeout, *old(deadline)) == Err::<
                WaitStep,
                ErrorView,
            >(e@),
        },
{
    match timeout {
        Some(duration) => {
            let target = match *deadline {
                Some(t) => t,
                None => now.mono.saturating_add(duration),
            };
            *deadline = Some(target);
            if now.mono >= target {
                return Err(Error::new(ErrorKind::WouldBlock, "operation timed out"));
            }
            let left = target.saturating_duration_since(now.mono);
            let wait = match arrival {
                Some(at) => at.saturating_duration_since(now.mono).shorter(left),
                None => left,
            };
            proof {
                use_type_invariant(&left);
                use_type_invariant(&wait);
                Duration::lemma_of(left@);
                Duration::lemma_of(wait@);
                Duration::lemma_ext(wait, Duration::of(wait@));
            }
            Ok(WaitStep::For(wait))
        },
        None => {
            *deadline = None;
            match arrival {
                Some(at) => {
                    let wait = at.saturating_duration_since(now.mono);
                    proof {
                        use_type_invariant(&wait);
                        Duration::lemma_of(wait@);
                        Duration::lemma_ext(wait, Duration::of(wait@));
                    }
                    if wait.is_zero() {
                        Ok(WaitStep::Skip)
                    } else {
                        Ok(WaitStep::For(wait))
                    }
                },
                None => Ok(WaitStep::Forever),
            }
        },
    }
}

/// What came of a wait: it failed if its deadline has passed and nothing woke
/// it.
pub fn after_wait(now: Now, woken: bool, deadline: Option<Instant>) -> (r: Result<(), Error>)
    ensures
        match r {
            Ok(_) => woken || deadline is None || now.mono@ < deadline->0@,
            Err(e) => !woken && deadline is Some && now.mono@ >= deadline->0@ && e@ == timed_out(),
        },
{
    match deadline {
        Some(target) => {
            if !woken && now.mono >= target {
                Err(Error::new(ErrorKind::WouldBlock, "operation timed out"))
            } else {
                Ok(())
            }
        },
        None => Ok(()),
    }
}

// ----- Connecting -----

/// What a listener makes of a connection attempt.
pub enum Verdict {
    Refused(ErrorView),
    /// By the listener in this place.
    Accepted(int),
}

/// What becomes of an attempt to connect to `target`.
pub open spec fn verdict(s: StateView, now: Now, target: SocketAddr) -> Verdict {
    if !s.ips.contains(target.ip_part()) {
        Verdict::Refused(err(ErrorKind::AddrNotAvailable, "invalid target address"@))
    } else {
        match s.listener_for(target) {
            None => Verdict::Refused(err(ErrorKind::ConnectionRefused, "no listener available"@)),
            Some(i) => match s.behavior(s.listeners[i].addr) {
                ListenerBehavior::Accepting => Verdict::Accepted(i),
                ListenerBehavior::Refusing => Verdict::Refused(
                    err(ErrorKind::ConnectionRefused, "listener configured to refuse"@),
                ),
                ListenerBehavior::DelayingUntil(until) => if now.mono@ < until@ {
                    Verdict::Refused(err(ErrorKind::TimedOut, "listener delaying accept"@))
                } else {
                    Verdict::Accepted(i)
                },
            },
        }
    }
}

/// The failure of a connection to no address at all.
pub open spec fn unresolved() -> ErrorView {
    err(ErrorKind::InvalidInput, "could not resolve to any addresses"@)
}

/// The first of the targets from place `from` on that takes a connection, and
/// the place of its listener; or the last failure, `last` being the one before.
pub open spec fn attempts(
    s: StateView,
    now: Now,
    targets: Seq<SocketAddr>,
    from: int,
    last: ErrorView,
) -> Result<(SocketAddr, int), ErrorView>
    decreases targets.len() - from,
{
    if from < 0 || from >= targets.len() {
        Err(last)
    } else {
        match verdict(s, now, targets[from]) {
            Verdict::Refused(e) => attempts(s, now, targets, from + 1, e),
            Verdict::Accepted(i) => Ok((targets[from], i)),
        }
    }
}

/// Whether connecting to `targets` comes to a connection, which takes a port.
pub open spec fn takes_port(s: StateView, now: Now, targets: Seq<SocketAddr>) -> bool {
    attempts(s, now, targets, 0, unresolved()) is Ok
}

/// What `r` and the state `t` after it are, when connecting to `targets` in `s`
/// at `now`.
pub open spec fn connects(
    s: StateView,
    now: Now,
    targets: Seq<SocketAddr>,
    r: Result<ShimStdTcpStream, Error>,
    t: StateView,
) -> bool {
    match attempts(s, now, targets, 0, unresolved()) {
        Err(e) => {
            &&& r is Err
            &&& r->Err_0@ == e
            &&& t == s
        },
        Ok((target, i)) => {
            &&& r is Ok
            &&& t == s.with_connection(now, target, i)
            &&& r->Ok_0.id() == s.tcp.len()
            &&& t.usable(r->Ok_0.id())
            &&& t.conn(r->Ok_0.id()).is_as_made()
            &&& keeps_handles(s, t, None)
        },
    }
}

/// Finds the first of `targets` that takes a connection, and the place of its
/// listener.
fn find_target(st: &TestState, now: Now, targets: &Vec<SocketAddr>) -> (r: Result<
    (SocketAddr, usize),
    Error,
>)
    ensures
        match r {
            Ok((target, i)) => {
                &&& attempts(st@, now, targets@, 0, unresolved()) == Ok::<
                    (SocketAddr, int),
                    ErrorView,
                >((target, i as int))
                &&& i < st@.listeners.len()
            },
            Err(e) => attempts(st@, now, targets@, 0, unresolved()) == Err::<
                (SocketAddr, int),
                ErrorView,
            >(e@),
        },
{
    let mut at: usize = 0;
    let mut last = Error::new(ErrorKind::InvalidInput, "could not resolve to any addresses");
    while at < targets.len()
        invariant
            at <= targets@.len(),
            attempts(st@, now, targets@, at as int, last@) == attempts(
                st@,
                now,
                targets@,
                0,
                unresolved(),
            ),
        decreases targets@.len() - at,
    {
        let target = targets[at];
        if !is_ip_addr_valid(st, target.ip()) {
            last = Error::new(ErrorKind::AddrNotAvailable, "invalid target address");
        } else {
            match st.find_tcp_listener(target) {
                None => {
                    last = Error::new(ErrorKind::ConnectionRefused, "no listener available");
                },
                Some(i) => match listener_behavior(st, st.tcp_listener(i).bound_addr) {
                    ListenerBehavior::Accepting => {
                        return Ok((target, i));
                    },
                    ListenerBehavior::Refusing => {
                        last = Error::new(
                            ErrorKind::ConnectionRefused,
                            "listener configured to refuse",
                        );
                    },
                    ListenerBehavior::DelayingUntil(until) => {
                        if now.mono >= until {
                            return Ok((target, i));
                        }
                        last = Error::new(ErrorKind::TimedOut, "listener delaying accept");
                    },
                },
            }
        }
        at += 1;
    }
    Err(last)
}

/// Whether connecting to `targets` takes a port.
pub fn needs_port(st: &TestState, now: Now, targets: &Vec<SocketAddr>) -> (r: bool)
    ensures
        r == takes_port(st@, now, targets@),
{
    find_target(st, now, targets).is_ok()
}

// ----- Reading -----

/// What a connection's end has for a reader.
pub enum ReadView {
    Data(Seq<u8>),
    Eof,
    Pending { nonblocking: bool, timeout: Option<Duration> },
}

/// What a connection's end has for a reader.
#[derive(Debug)]
pub enum TcpReadStatus {
    Data(Vec<u8>),
    Eof,
    Pending { nonblocking: bool, timeout: Option<Duration> },
}

impl TcpReadStatus {
    pub open spec fn view(&self) -> ReadView {
        match *self {
            TcpReadStatus::Data(d) => ReadView::Data(d@),
            TcpReadStatus::Eof => ReadView::Eof,
            TcpReadStatus::Pending { nonblocking, timeout } => ReadView::Pending {
                nonblocking,
                timeout,
            },
        }
    }
}

pub open spec fn connection_reset() -> ErrorView {
    err(ErrorKind::ConnectionReset, "connection reset by peer"@)
}

/// What a reader of up to `len` bytes gets from an end. A reset comes first and
/// once; then the bytes that wait; and the end of the stream, which a close by
/// the test brings too, only after all of them.
pub open spec fn read_verdict(c: TcpView, len: nat) -> Result<ReadView, ErrorView> {
    if c.reset_pending {
        Err(connection_reset())
    } else if c.incoming.len() > 0 {
        Ok(
            ReadView::Data(
                c.incoming.take(
                    if len < c.incoming.len() {
                        len as int
                    } else {
                        c.incoming.len() as int
                    },
                ),
            ),
        )
    } else if c.read_shutdown || c.peer is None || c.destroyed {
        Ok(ReadView::Eof)
    } else {
        Ok(ReadView::Pending { nonblocking: c.nonblocking, timeout: c.read_timeout })
    }
}

/// The end after the reader got it.
pub open spec fn read_effect(c: TcpView, len: nat, consume: bool) -> TcpView {
    match read_verdict(c, len) {
        Ok(ReadView::Data(d)) => if consume {
            TcpView { incoming: c.incoming.skip(d.len() as int), ..c }
        } else {
            c
        },
        _ => TcpView { reset_pending: false, ..c },
    }
}

/// What a step of reading came to.
#[derive(Clone, Copy, Debug, PartialEq, Eq, Structural)]
pub enum ReadStep {
    /// So many bytes were read; none at the end of the stream.
    Done(usize),
    /// Wait, for at most this long in all, and read again.
    Wait(Option<Duration>),
}

pub open spec fn no_data() -> ErrorView {
    err(ErrorKind::WouldBlock, "no data available"@)
}

/// What a step of reading into `len` bytes comes to.
pub open spec fn read_outcome(c: TcpView, len: nat) -> Result<ReadStep, ErrorView> {
    if len == 0 {
        Ok(ReadStep::Done(0))
    } else {
        match read_verdict(c, len) {
            Err(e) => Err(e),
            Ok(ReadView::Data(d)) => Ok(ReadStep::Done(d.len() as usize)),
            Ok(ReadView::Eof) => Ok(ReadStep::Done(0)),
            Ok(ReadView::Pending { nonblocking, timeout }) => if nonblocking {
                Err(no_data())
            } else {
                Ok(ReadStep::Wait(timeout))
            },
        }
    }
}

/// What the buffer holds afterwards.
pub open spec fn read_into(c: TcpView, buf: Seq<u8>) -> Seq<u8> {
    if buf.len() == 0 {
        buf
    } else {
        match read_verdict(c, buf.len()) {
            Ok(ReadView::Data(d)) => filled(buf, d),
            _ => buf,
        }
    }
}

/// The state after a step of reading through the end `id`.
pub open spec fn read_state(s: StateView, now: Now, id: usize, len: nat, consume: bool) -> StateView {
    if len == 0 {
        s
    } else {
        s.with_conn(id, read_effect(s.conn(id).released(now.mono@), len, consume)).woken()
    }
}

// ----- Writing -----

/// A write that goes to the other end.
#[derive(Clone, Copy, Debug, PartialEq, Eq, Structural)]
pub struct Writing {
    pub peer_id: usize,
    pub nonblocking: bool,
    pub write_timeout: Option<Duration>,
    pub local_addr: SocketAddr,
    pub peer_local_addr: SocketAddr,
    pub policy: TcpPolicy,
}

/// What a step of writing came to.
#[derive(Clone, Copy, Debug, PartialEq, Eq, Structural)]
pub enum WriteStep {
    /// So many bytes were written.
    Done(usize),
    /// Wait, for at most the write's timeout in all, and try again.
    Wait(Writing),
}

pub open spec fn no_peer() -> ErrorView {
    err(ErrorKind::NotConnected, "no peer connected"@)
}

/// Where a write through the end `id` goes.
pub open spec fn write_begin(s: StateView, id: usize) -> Result<Writing, ErrorView> {
    let c = s.conn(id);
    if c.reset_pending {
        Err(connection_reset())
    } else if c.write_shutdown {
        Err(err(ErrorKind::BrokenPipe, "write half closed"@))
    } else {
        match c.peer {
            None => Err(no_peer()),
            Some(p) => Ok(
                Writing {
                    peer_id: p,
                    nonblocking: c.nonblocking,
                    write_timeout: c.write_timeout,
                    local_addr: c.local_addr,
                    peer_local_addr: s.conn(p).local_addr,
                    policy: s.tcp_policy(s.conn(p).local_addr),
                },
            ),
        }
    }
}

/// What an attempt to write `data` comes to.
pub open spec fn write_outcome(s: StateView, w: Writing, data: Seq<u8>) -> Result<
    WriteStep,
    ErrorView,
> {
    if !s.live(w.peer_id) {
        Err(no_peer())
    } else if s.conn(w.peer_id).read_shutdown {
        Err(err(ErrorKind::BrokenPipe, "peer closed the read half"@))
    } else if w.policy.recv_window is Some && s.conn(w.peer_id).queued() + data.len()
        > w.policy.recv_window->0 {
        if w.nonblocking {
            Err(err(ErrorKind::WouldBlock, "peer recv window full"@))
        } else {
            Ok(WriteStep::Wait(w))
        }
    } else {
        Ok(WriteStep::Done(data.len() as usize))
    }
}

/// The state after that attempt.
pub open spec fn write_effect(s: StateView, now: Now, w: Writing, data: Seq<u8>) -> StateView {
    match write_outcome(s, w, data) {
        Ok(WriteStep::Done(_)) => s.with_conn(
            w.peer_id,
            s.conn(w.peer_id).with_sent(now.mono, w.policy.inbound_latency, data),
        ).woken().captured_data(now, w.local_addr, w.peer_local_addr, data),
        _ => s.woken(),
    }
}

impl Writing {
    /// Tries to write once more.
    pub fn retry(&self, st: &mut TestState, now: Now, buf: &[u8]) -> (r: Result<WriteStep, Error>)
        requires
            old(st)@.wf(),
        ensures
            final(st)@ == write_effect(old(st)@, now, *self, buf@),
            final(st)@.wf(),
            match r {
                Ok(w) => write_outcome(old(st)@, *self, buf@) == Ok::<WriteStep, ErrorView>(w),
                Err(e) => write_outcome(old(st)@, *self, buf@) == Err::<WriteStep, ErrorView>(e@),
            },
    {
        if !st.is_live(self.peer_id) {
            trigger_event(st);
            return Err(Error::new(ErrorKind::NotConnected, "no peer connected"));
        }
        if st.tcp_connection(self.peer_id).read_shutdown {
            trigger_event(st);
            return Err(Error::new(ErrorKind::BrokenPipe, "peer closed the read half"));
        }
        match self.policy.recv_window {
            Some(window) => {
                let queued: u128 = st.tcp_connection(self.peer_id).queued();
                if queued + buf.len() as u128 > window as u128 {
                    trigger_event(st);
                    if self.nonblocking {
                        return Err(Error::new(ErrorKind::WouldBlock, "peer recv window full"));
                    }
                    return Ok(WriteStep::Wait(*self));
                }
            },
            None => {},
        }
        let peer = st.with_tcp_connection(self.peer_id);
        peer.deliver(now.mono, self.policy.inbound_latency, buf);
        pcap_tcp_data(st, now, self.local_addr, self.peer_local_addr, buf);
        Ok(WriteStep::Done(buf.len()))
    }
}

// ----- Closing -----

/// A close that waits for the other end to read what it was sent.
#[derive(Clone, Copy, Debug, PartialEq, Eq, Structural)]
pub struct Lingering {
    pub peer_id: usize,
    pub deadline: Instant,
}

impl Lingering {
    /// How long to go on waiting at `now`.
    pub open spec fn left(self, s: StateView, now: Now) -> Option<nat> {
        if !s.live(self.peer_id) || s.conn(self.peer_id).queued() == 0 || now.mono@
            >= self.deadline@ {
            None
        } else {
            Some((self.deadline@ - now.mono@) as nat)
        }
    }

    /// Whether to wait for the signal once more, and for how long at most.
    pub fn step(&self, st: &TestState, now: Now) -> (r: Option<Duration>)
        ensures
            match r {
                Some(d) => self.left(st@, now) == Some(d@),
                None => self.left(st@, now) is None,
            },
    {
        if !st.is_live(self.peer_id) || st.tcp_connection(self.peer_id).queued() == 0 {
            return None;
        }
        if now.mono >= self.deadline {
            return None;
        }
        Some(self.deadline.saturating_duration_since(now.mono))
    }
}

impl ShimStdTcpStream {
    /// The end that this is a handle of.
    pub closed spec fn id(&self) -> usize {
        self.stream_id
    }

    /// Connects to the first of `targets` that takes the connection.
    pub fn connect(st: &mut TestState, now: Now, targets: Vec<SocketAddr>) -> (r: Result<
        ShimStdTcpStream,
        Error,
    >)
        requires
            old(st)@.wf(),
            takes_port(old(st)@, now, targets@) ==> has_free_port(old(st)@.ports),
        ensures
            connects(old(st)@, now, targets@, r, final(st)@),
            final(st)@.wf(),
    {
        match find_target(st, now, &targets) {
            Ok((target, i)) => {
                let stream_id: usize = establish(st, now, target, i);
                Ok(ShimStdTcpStream { stream_id })
            },
            Err(e) => Err(e),
        }
    }

    /// [`connect`](Self::connect) to one address, with a timeout that may not
    /// be zero.
    pub fn connect_timeout(st: &mut TestState, now: Now, addr: &SocketAddr, timeout: Duration) -> (r:
        Result<ShimStdTcpStream, Error>)
        requires
            old(st)@.wf(),
            timeout@ > 0 && takes_port(old(st)@, now, seq![*addr]) ==> has_free_port(
                old(st)@.ports,
            ),
        ensures
            final(st)@.wf(),
            if timeout@ == 0 {
                &&& r is Err
                &&& r->Err_0@ == err(
                    ErrorKind::InvalidInput,
                    "timeout duration must be non-zero"@,
                )
                &&& final(st)@ == old(st)@
            } else {
                connects(old(st)@, now, seq![*addr], r, final(st)@)
            },
    {
        if timeout.is_zero() {
            return Err(Error::new(ErrorKind::InvalidInput, "timeout duration must be non-zero"));
        }
        let mut targets: Vec<SocketAddr> = Vec::new();
        targets.push(*addr);
        assert(targets@ =~= seq![*addr]);
        ShimStdTcpStream::connect(st, now, targets)
    }

    pub fn peer_addr(&self, st: &mut TestState) -> (r: Result<SocketAddr, Error>)
        requires
            old(st)@.wf(),
            old(st)@.usable(self.id()),
        ensures
            r == Ok::<SocketAddr, Error>(old(st)@.conn(self.id()).peer_addr),
            final(st)@ == old(st)@.woken(),
            final(st)@.wf(),
    {
        trigger_event(st);
        Ok(st.tcp_connection(self.stream_id).peer_addr)
    }

    pub fn local_addr(&self, st: &mut TestState) -> (r: Result<SocketAddr, Error>)
        requires
            old(st)@.wf(),
            old(st)@.usable(self.id()),
        ensures
            r == Ok::<SocketAddr, Error>(old(st)@.conn(self.id()).local_addr),
            final(st)@ == old(st)@.woken(),
            final(st)@.wf(),
    {
        trigger_event(st);
        Ok(st.tcp_connection(self.stream_id).local_addr)
    }

    /// Whether the end is there.
    pub fn is_live(&self, st: &TestState) -> (r: bool)
        ensures
            r == st@.live(self.id()),
    {
        st.is_live(self.stream_id)
    }

    /// Whether both are handles of one end.
    pub fn is_same(&self, other: &ShimStdTcpStream) -> (r: bool)
        ensures
            r == (self.id() == other.id()),
    {
        self.stream_id == other.stream_id
    }

    /// When a poller sees something else of the end by the passing of time alone.
    pub fn next_change(&self, st: &TestState, now: Now) -> (r: Option<Instant>)
        ensures
            opt_time(r) == st@.stream_change(now.mono@, self.id()),
    {
        next_stream_change(st, now, self.stream_id)
    }

    /// What a poller sees of the end.
    pub fn status(&self, st: &mut TestState, now: Now) -> (r: Option<TcpStreamStatus>)
        requires
            old(st)@.wf(),
        ensures
            final(st)@ == old(st)@.with_stream_looked_at(now.mono@, self.id()),
            final(st)@.wf(),
            r == final(st)@.stream_status(now.mono@, self.id()),
    {
        tcp_stream_status(st, now, self.stream_id)
    }

    pub fn set_nonblocking(&self, st: &mut TestState, nonblocking: bool) -> (r: Result<(), Error>)
        requires
            old(st)@.wf(),
            old(st)@.usable(self.id()),
        ensures
            r is Ok,
            final(st)@ == old(st)@.with_conn(
                self.id(),
                TcpView { nonblocking, ..old(st)@.conn(self.id()) },
            ).woken(),
            final(st)@.wf(),
    {
        let conn = st.with_tcp_connection(self.stream_id);
        conn.nonblocking = nonblocking;
        Ok(())
    }

    pub fn set_nodelay(&self, st: &mut TestState, nodelay: bool) -> (r: Result<(), Error>)
        requires
            old(st)@.wf(),
            old(st)@.usable(self.id()),
        ensures
            r is Ok,
            final(st)@ == old(st)@.with_conn(
                self.id(),
                TcpView { nodelay, ..old(st)@.conn(self.id()) },
            ).woken(),
            final(st)@.wf(),
    {
        let conn = st.with_tcp_connection(self.stream_id);
        conn.nodelay = nodelay;
        Ok(())
    }

    pub fn nodelay(&self, st: &mut TestState) -> (r: Result<bool, Error>)
        requires
            old(st)@.wf(),
            old(st)@.usable(self.id()),
        ensures
            r == Ok::<bool, Error>(old(st)@.conn(self.id()).nodelay),
            final(st)@ == old(st)@.woken(),
            final(st)@.wf(),
    {
        trigger_event(st);
        Ok(st.tcp_connection(self.stream_id).nodelay)
    }

    pub fn set_ttl(&self, st: &mut TestState, ttl: u32) -> (r: Result<(), Error>)
        requires
            old(st)@.wf(),
            old(st)@.usable(self.id()),
        ensures
            r is Ok,
            final(st)@ == old(st)@.with_conn(
                self.id(),
                TcpView { ttl, ..old(st)@.conn(self.id()) },
            ).woken(),
            final(st)@.wf(),
    {
        let conn = st.with_tcp_connection(self.stream_id);
        conn.ttl = ttl;
        Ok(())
    }

    pub fn ttl(&self, st: &mut TestState) -> (r: Result<u32, Error>)
        requires
            old(st)@.wf(),
            old(st)@.usable(self.id()),
        ensures
            r == Ok::<u32, Error>(old(st)@.conn(self.id()).ttl),
            final(st)@ == old(st)@.woken(),
            final(st)@.wf(),
    {
        trigger_event(st);
        Ok(st.tcp_connection(self.stream_id).ttl)
    }

    /// Sets how long closing waits for the other end to read. Zero is refused.
    pub fn set_linger(&self, st: &mut TestState, linger: Option<Duration>) -> (r: Result<(), Error>)
        requires
            old(st)@.wf(),
            old(st)@.usable(self.id()),
        ensures
            final(st)@.wf(),
            match r {
                Ok(_) => !(linger is Some && linger->0@ == 0) && final(st)@ == old(st)@.with_conn(
                    self.id(),
                    TcpView { linger, ..old(st)@.conn(self.id()) },
                ).woken(),
                Err(e) => linger is Some && linger->0@ == 0 && final(st)@ == old(st)@ && e@ == err(
                    ErrorKind::InvalidInput,
                    "linger duration must be non-zero"@,
                ),
            },
    {
        match linger {
            Some(d) => {
                if d.is_zero() {
                    return Err(
                        Error::new(ErrorKind::InvalidInput, "linger duration must be non-zero"),
                    );
                }
            },
            None => {},
        }
        let conn = st.with_tcp_connection(self.stream_id);
        conn.linger = linger;
        Ok(())
    }

    pub fn linger(&self, st: &mut TestState) -> (r: Result<Option<Duration>, Error>)
        requires
            old(st)@.wf(),
            old(st)@.usable(self.id()),
        ensures
            r == Ok::<Option<Duration>, Error>(old(st)@.conn(self.id()).linger),
            final(st)@ == old(st)@.woken(),
            final(st)@.wf(),
    {
        trigger_event(st);
        Ok(st.tcp_connection(self.stream_id).linger)
    }

    /// Sets how long a read waits. Zero is refused.
    pub fn set_read_timeout(&self, st: &mut TestState, timeout: Option<Duration>) -> (r: Result<
        (),
        Error,
    >)
        requires
            old(st)@.wf(),
            old(st)@.usable(self.id()),
        ensures
            final(st)@.wf(),
            match r {
                Ok(_) => !(timeout is Some && timeout->0@ == 0) && final(st)@ == old(st)@.with_conn(
                    self.id(),
                    TcpView { read_timeout: timeout, ..old(st)@.conn(self.id()) },
                ).woken(),
                Err(e) => timeout is Some && timeout->0@ == 0 && final(st)@ == old(st)@ && e@
                    == err(ErrorKind::InvalidInput, "timeout duration must be non-zero"@),
            },
    {
        match timeout {
            Some(d) => {
                if d.is_zero() {
                    return Err(
                        Error::new(ErrorKind::InvalidInput, "timeout duration must be non-zero"),
                    );
                }
            },
            None => {},
        }
        let conn = st.with_tcp_connection(self.stream_id);
        conn.read_timeout = timeout;
        Ok(())
    }

    pub fn read_timeout(&self, st: &mut TestState) -> (r: Result<Option<Duration>, Error>)
        requires
            old(st)@.wf(),
            old(st)@.usable(self.id()),
        ensures
            r == Ok::<Option<Duration>, Error>(old(st)@.conn(self.id()).read_timeout),
            final(st)@ == old(st)@.woken(),
            final(st)@.wf(),
    {
        trigger_event(st);
        Ok(st.tcp_connection(self.stream_id).read_timeout)
    }

    /// Sets how long a write waits. Zero is refused.
    pub fn set_write_timeout(&self, st: &mut TestState, timeout: Option<Duration>) -> (r: Result<
        (),
        Error,
    >)
        requires
            old(st)@.wf(),
            old(st)@.usable(self.id()),
        ensures
            final(st)@.wf(),
            match r {
                Ok(_) => !(timeout is Some && timeout->0@ == 0) && final(st)@ == old(st)@.with_conn(
                    self.id(),
                    TcpView { write_timeout: timeout, ..old(st)@.conn(self.id()) },
                ).woken(),
                Err(e) => timeout is Some && timeout->0@ == 0 && final(st)@ == old(st)@ && e@
                    == err(ErrorKind::InvalidInput, "timeout duration must be non-zero"@),
            },
    {
        match timeout {
            Some(d) => {
                if d.is_zero() {
                    return Err(
                        Error::new(ErrorKind::InvalidInput, "timeout duration must be non-zero"),
                    );
                }
            },
            None => {},
        }
        let conn = st.with_tcp_connection(self.stream_id);
        conn.write_timeout = timeout;
        Ok(())
    }

    pub fn write_timeout(&self, st: &mut TestState) -> (r: Result<Option<Duration>, Error>)
        requires
            old(st)@.wf(),
            old(st)@.usable(self.id()),
        ensures
            r == Ok::<Option<Duration>, Error>(old(st)@.conn(self.id()).write_timeout),
            final(st)@ == old(st)@.woken(),
            final(st)@.wf(),
    {
        trigger_event(st);
        Ok(st.tcp_connection(self.stream_id).write_timeout)
    }

    /// Takes the error that the connection has to report, if any.
    pub fn take_error(&self, st: &mut TestState) -> (r: Result<Option<Error>, Error>)
        requires
            old(st)@.wf(),
            old(st)@.usable(self.id()),
        ensures
            r is Ok,
            opt_error(r->Ok_0) == old(st)@.conn(self.id()).error,
            final(st)@ == old(st)@.with_conn(
                self.id(),
                TcpView { error: None, ..old(st)@.conn(self.id()) },
            ).woken(),
            final(st)@.wf(),
    {
        let conn = st.with_tcp_connection(self.stream_id);
        let e = conn.external_error.take();
        Ok(e)
    }

    /// Another handle of the same end.
    pub fn try_clone(&self, st: &mut TestState) -> (r: Result<ShimStdTcpStream, Error>)
        requires
            old(st)@.wf(),
            old(st)@.usable(self.id()),
            old(st)@.conn(self.id()).refs < usize::MAX,
        ensures
            r is Ok,
            r->Ok_0.id() == self.id(),
            final(st)@ == old(st)@.with_conn(
                self.id(),
                TcpView {
                    refs: (old(st)@.conn(self.id()).refs + 1) as usize,
                    ..old(st)@.conn(self.id())
                },
            ).woken(),
            final(st)@.wf(),
    {
        let conn = st.with_tcp_connection(self.stream_id);
        conn.ref_count = conn.ref_count + 1;
        Ok(ShimStdTcpStream { stream_id: self.stream_id })
    }

    /// Shuts down one half of the connection, or both. What the other end still
    /// has to read stays; what this end has, goes with [`Shutdown::Read`].
    pub fn shutdown(&self, st: &mut TestState, how: Shutdown) -> (r: Result<(), Error>)
        requires
            old(st)@.wf(),
            old(st)@.usable(self.id()),
        ensures
            r is Ok,
            final(st)@ == shut_down(old(st)@, self.id(), how),
            final(st)@.wf(),
    {
        let peer = st.tcp_connection(self.stream_id).peer_stream_id;
        let ghost before = st@;
        proof {
            crate::state::lemma_peer(before, self.id());
        }
        let conn = st.with_tcp_connection(self.stream_id);
        match how {
            Shutdown::Both => {
                conn.read_shutdown = true;
                conn.write_shutdown = true;
            },
            Shutdown::Read => {
                conn.read_shutdown = true;
                conn.incoming.clear();
            },
            Shutdown::Write => {
                conn.write_shutdown = true;
            },
        }
        assert(st@ =~= half_shut(before, self.id(), how));
        if how == Shutdown::Write || how == Shutdown::Both {
            match peer {
                Some(peer_id) => {
                    mark_peer_read_shutdown(st, peer_id);
                },
                None => {},
            }
        }
        Ok(())
    }

    /// What the end has for a reader of up to `len` bytes.
    fn try_read(&self, st: &mut TestState, now: Now, len: usize, consume: bool) -> (r: Result<
        TcpReadStatus,
        Error,
    >)
        requires
            old(st)@.wf(),
            old(st)@.usable(self.id()),
        ensures
            ({
                let c = old(st)@.conn(self.id()).released(now.mono@);
                &&& final(st)@ == old(st)@.with_conn(
                    self.id(),
                    read_effect(c, len as nat, consume),
                ).woken()
                &&& match r {
                    Ok(status) => read_verdict(c, len as nat) == Ok::<ReadView, ErrorView>(
                        status@,
                    ),
                    Err(e) => read_verdict(c, len as nat) == Err::<ReadView, ErrorView>(e@),
                }
            }),
            final(st)@.wf(),
    {
        proof {
            crate::state::lemma_released_keeps(old(st)@.conn(self.id()), now.mono@);
        }
        let conn = st.with_tcp_connection(self.stream_id);
        conn.release(now.mono);
        let ghost c = conn@;
        if conn.reset_pending {
            conn.reset_pending = false;
            return Err(Error::new(ErrorKind::ConnectionReset, "connection reset by peer"));
        }
        if conn.incoming.len() == 0 {
            if conn.read_shutdown || conn.peer_stream_id.is_none() || conn.is_destroyed {
                return Ok(TcpReadStatus::Eof);
            }
            let nonblocking = conn.nonblocking;
            let timeout = conn.read_timeout;
            return Ok(TcpReadStatus::Pending { nonblocking, timeout });
        }
        let data: Vec<u8> = if consume {
            conn.take(len)
        } else {
            conn.look(len)
        };
        Ok(TcpReadStatus::Data(data))
    }

    fn read_internal(&self, st: &mut TestState, now: Now, buf: &mut [u8], consume: bool) -> (r: Result<
        ReadStep,
        Error,
    >)
        requires
            old(st)@.wf(),
            old(st)@.usable(self.id()),
        ensures
            ({
                let c = old(st)@.conn(self.id()).released(now.mono@);
                &&& final(buf)@ == read_into(c, old(buf)@)
                &&& match r {
                    Ok(step) => read_outcome(c, old(buf)@.len()) == Ok::<ReadStep, ErrorView>(step),
                    Err(e) => read_outcome(c, old(buf)@.len()) == Err::<ReadStep, ErrorView>(e@),
                }
            }),
            final(st)@ == read_state(old(st)@, now, self.id(), old(buf)@.len(), consume),
            final(st)@.wf(),
    {
        let len: usize = buf.len();
        if len == 0 {
            return Ok(ReadStep::Done(0));
        }
        match self.try_read(st, now, len, consume) {
            Err(e) => Err(e),
            Ok(TcpReadStatus::Data(data)) => {
                let n: usize = copy_into(buf, data.as_slice());
                Ok(ReadStep::Done(n))
            },
            Ok(TcpReadStatus::Eof) => Ok(ReadStep::Done(0)),
            Ok(TcpReadStatus::Pending { nonblocking, timeout }) => {
                if nonblocking {
                    Err(Error::new(ErrorKind::WouldBlock, "no data available"))
                } else {
                    Ok(ReadStep::Wait(timeout))
                }
            },
        }
    }

    /// Reads bytes, and leaves them to be read again.
    pub fn peek(&self, st: &mut TestState, now: Now, buf: &mut [u8]) -> (r: Result<ReadStep, Error>)
        requires
            old(st)@.wf(),
            old(st)@.usable(self.id()),
        ensures
            ({
                let c = old(st)@.conn(self.id()).released(now.mono@);
                &&& final(buf)@ == read_into(c, old(buf)@)
                &&& match r {
                    Ok(step) => read_outcome(c, old(buf)@.len()) == Ok::<ReadStep, ErrorView>(step),
                    Err(e) => read_outcome(c, old(buf)@.len()) == Err::<ReadStep, ErrorView>(e@),
                }
            }),
            final(st)@ == read_state(old(st)@, now, self.id(), old(buf)@.len(), false),
            final(st)@.wf(),
    {
        self.read_internal(st, now, buf, false)
    }

    /// Reads bytes.
    pub fn read(&self, st: &mut TestState, now: Now, buf: &mut [u8]) -> (r: Result<ReadStep, Error>)
        requires
            old(st)@.wf(),
            old(st)@.usable(self.id()),
        ensures
            ({
                let c = old(st)@.conn(self.id()).released(now.mono@);
                &&& final(buf)@ == read_into(c, old(buf)@)
                &&& match r {
                    Ok(step) => read_outcome(c, old(buf)@.len()) == Ok::<ReadStep, ErrorView>(step),
                    Err(e) => read_outcome(c, old(buf)@.len()) == Err::<ReadStep, ErrorView>(e@),
                }
            }),
            final(st)@ == read_state(old(st)@, now, self.id(), old(buf)@.len(), true),
            final(st)@.wf(),
    {
        self.read_internal(st, now, buf, true)
    }

    /// Writes bytes.
    pub fn write(&self, st: &mut TestState, now: Now, buf: &[u8]) -> (r: Result<WriteStep, Error>)
        requires
            old(st)@.wf(),
            old(st)@.usable(self.id()),
        ensures
            writes(old(st)@, now, self.id(), buf@, r, final(st)@),
            final(st)@.wf(),
    {
        self.write_internal(st, now, buf)
    }

    fn write_internal(&self, st: &mut TestState, now: Now, buf: &[u8]) -> (r: Result<
        WriteStep,
        Error,
    >)
        requires
            old(st)@.wf(),
            old(st)@.usable(self.id()),
        ensures
            writes(old(st)@, now, self.id(), buf@, r, final(st)@),
            final(st)@.wf(),
    {
        if buf.len() == 0 {
            return Ok(WriteStep::Done(0));
        }
        proof {
            crate::state::lemma_peer(st@, self.id());
        }
        let conn = st.tcp_connection(self.stream_id);
        if conn.reset_pending {
            let conn = st.with_tcp_connection(self.stream_id);
            conn.reset_pending = false;
            return Err(Error::new(ErrorKind::ConnectionReset, "connection reset by peer"));
        }
        if conn.write_shutdown {
            trigger_event(st);
            return Err(Error::new(ErrorKind::BrokenPipe, "write half closed"));
        }
        let peer_id: usize = match conn.peer_stream_id {
            Some(p) => p,
            None => {
                trigger_event(st);
                return Err(Error::new(ErrorKind::NotConnected, "no peer connected"));
            },
        };
        let peer_local_addr = st.tcp_connection(peer_id).local_addr;
        let w = Writing {
            peer_id,
            nonblocking: conn.nonblocking,
            write_timeout: conn.write_timeout,
            local_addr: conn.local_addr,
            peer_local_addr,
            policy: tcp_policy(st, peer_local_addr),
        };
        w.retry(st, now, buf)
    }

    /// The wait that closing this handle begins with, if it has to.
    pub fn linger_begin(&self, st: &TestState, now: Now) -> (r: Option<Lingering>)
        requires
            st@.wf(),
            st@.usable(self.id()),
        ensures
            ({
                let c = st@.conn(self.id());
                r == match (c.peer, c.linger) {
                    (Some(peer_id), Some(d)) => Some(
                        Lingering { peer_id, deadline: now.mono.later(d) },
                    ),
                    _ => None,
                }
            }),
    {
        let conn = st.tcp_connection(self.stream_id);
        match (conn.peer_stream_id, conn.linger) {
            (Some(peer_id), Some(d)) => Some(
                Lingering { peer_id, deadline: now.mono.saturating_add(d) },
            ),
            _ => None,
        }
    }

    /// Gives this handle up.
    pub fn close(self, st: &mut TestState, now: Now)
        requires
            old(st)@.wf(),
            old(st)@.usable(self.id()),
        ensures
            final(st)@ == old(st)@.with_stream_dropped(now, self.id()),
            final(st)@.wf(),
            keeps_handles(old(st)@, final(st)@, Some(self.id())),
            old(st)@.conn(self.id()).refs > 1 ==> final(st)@.usable(self.id()),
    {
        release_stream(st, now, self.stream_id);
    }
}

/// What `r` and the state `t` after it are, when `data` is written in `s` at
/// `now` through the end `id`.
pub open spec fn writes(
    s: StateView,
    now: Now,
    id: usize,
    data: Seq<u8>,
    r: Result<WriteStep, Error>,
    t: StateView,
) -> bool {
    if data.len() == 0 {
        r == Ok::<WriteStep, Error>(WriteStep::Done(0)) && t == s
    } else {
        match write_begin(s, id) {
            Err(e) => {
                &&& r is Err
                &&& r->Err_0@ == e
                &&& t == if s.conn(id).reset_pending {
                    s.with_conn(id, TcpView { reset_pending: false, ..s.conn(id) }).woken()
                } else {
                    s.woken()
                }
            },
            Ok(w) => {
                &&& t == write_effect(s, now, w, data)
                &&& match r {
                    Ok(step) => write_outcome(s, w, data) == Ok::<WriteStep, ErrorView>(step),
                    Err(e) => write_outcome(s, w, data) == Err::<WriteStep, ErrorView>(e@),
                }
            },
        }
    }
}

/// The state after this end alone was shut down.
pub open spec fn half_shut(s: StateView, id: usize, how: Shutdown) -> StateView {
    let c = s.conn(id);
    s.with_conn(
        id,
        match how {
            Shutdown::Both => TcpView { read_shutdown: true, write_shutdown: true, ..c },
            Shutdown::Read => TcpView { read_shutdown: true, incoming: Seq::empty(), ..c },
            Shutdown::Write => TcpView { write_shutdown: true, ..c },
        },
    ).woken()
}

/// The state after a shutdown of the end `id`. The other end learns that
/// nothing more will come.
pub open spec fn shut_down(s: StateView, id: usize, how: Shutdown) -> StateView {
    let t = half_shut(s, id, how);
    match s.conn(id).peer {
        Some(p) => if how == Shutdown::Read {
            t
        } else {
            t.with_conn(p, TcpView { read_shutdown: true, ..t.conn(p) }).woken()
        },
        None => t,
    }
}

// ----- Listening -----

/// The first of `addrs`, at or behind `from`, that a listener can be bound to:
/// its IP address is valid, and its port is free or to be chosen.
pub open spec fn bindable(s: StateView, addrs: Seq<SocketAddr>, from: int) -> Option<int>
    decreases addrs.len() - from,
{
    if from < 0 || from >= addrs.len() {
        None
    } else if s.ips.contains(addrs[from].ip_part()) && (addrs[from].port_part() == 0
        || !s.ports.contains(addrs[from].port_part())) {
        Some(from)
    } else {
        bindable(s, addrs, from + 1)
    }
}

/// Whether binding a listener to one of `addrs` takes a port of the network's
/// choice.
pub open spec fn picks_port(s: StateView, addrs: Seq<SocketAddr>) -> bool {
    match bindable(s, addrs, 0) {
        Some(i) => addrs[i].port_part() == 0,
        None => false,
    }
}

fn find_bindable(st: &TestState, addrs: &[SocketAddr]) -> (r: Option<usize>)
    ensures
        match r {
            Some(i) => bindable(st@, addrs@, 0) == Some(i as int) && i < addrs@.len(),
            None => bindable(st@, addrs@, 0) is None,
        },
{
    let mut i: usize = 0;
    while i < addrs.len()
        invariant
            i <= addrs@.len(),
            bindable(st@, addrs@, 0) == bindable(st@, addrs@, i as int),
        decreases addrs@.len() - i,
    {
        let a = addrs[i];
        if is_ip_addr_valid(st, a.ip()) && (a.port() == 0 || is_port_available(st, a.port())) {
            return Some(i);
        }
        i += 1;
    }
    None
}

/// Whether binding a listener to one of `addrs` takes a port of the network's
/// choice.
pub fn bind_needs_port(st: &TestState, addrs: &[SocketAddr]) -> (r: bool)
    ensures
        r == picks_port(st@, addrs@),
{
    match find_bindable(st, addrs) {
        Some(i) => addrs[i].port() == 0,
        None => false,
    }
}

/// The address that a listener gets that is bound to `addr`.
pub open spec fn bound_to(s: StateView, addr: SocketAddr) -> SocketAddr {
    if addr.port_part() == 0 {
        SocketAddr::of(addr.ip_part(), s.fresh_port())
    } else {
        addr
    }
}

/// The state after it was bound.
pub open spec fn bound_state(s: StateView, addr: SocketAddr) -> StateView {
    if addr.port_part() == 0 {
        s.with_port_reserved().with_listening(bound_to(s, addr))
    } else {
        s.with_listening(addr)
    }
}

/// What accepting a connection comes to: an end and its peer's address, nothing
/// yet, or a failure.
pub open spec fn accept_outcome(s: StateView, addr: SocketAddr) -> Result<
    Option<(usize, SocketAddr)>,
    ErrorView,
> {
    let l = s.listeners[s.find_listener(addr)->0];
    if l.closed {
        Err(err(ErrorKind::NotConnected, "listener closed"@))
    } else if l.pending.len() > 0 {
        Ok(Some((l.pending[0], s.conn(l.pending[0]).peer_addr)))
    } else if l.nonblocking {
        Err(err(ErrorKind::WouldBlock, "no pending connections"@))
    } else {
        Ok(None)
    }
}

/// The state after it.
pub open spec fn accept_effect(s: StateView, addr: SocketAddr) -> StateView {
    let i = s.find_listener(addr)->0;
    let l = s.listeners[i];
    if l.pending.len() == 0 {
        s
    } else {
        let t = s.with_listener(i, ListenerView { pending: l.pending.drop_first(), ..l });
        if l.closed {
            t
        } else {
            t.woken()
        }
    }
}

/// Taking a connection off a listener's queue leaves the network in order, and
/// a handle can stand for the connection.
pub proof fn lemma_accept(s: StateView, i: int)
    requires
        s.wf(),
        0 <= i < s.listeners.len(),
        s.listeners[i].pending.len() > 0,
    ensures
        ({
            let l = s.listeners[i];
            let t = s.with_listener(i, ListenerView { pending: l.pending.drop_first(), ..l });
            &&& t.wf()
            &&& t.usable(l.pending[0])
            &&& s.live(l.pending[0])
            &&& s.conn(l.pending[0]).is_as_made()
            &&& keeps_handles(s, t, None)
        }),
{
    reveal(crate::state::queues_ok);
    reveal(crate::state::listeners_ok);
    let l = s.listeners[i];
    let t = s.with_listener(i, ListenerView { pending: l.pending.drop_first(), ..l });
    let id = l.pending[0];
    assert(s.listeners[i].pending[0] == id);
    let shift = |m: int|
        if m == i {
            1int
        } else {
            0int
        };
    assert forall|m: int, k: int|
        0 <= m < t.listeners.len() && 0 <= k < t.listeners[m].pending.len() implies {
        &&& #[trigger] t.listeners[m].pending[k] == s.listeners[m].pending[k + shift(m)]
        &&& k + shift(m) < s.listeners[m].pending.len()
    } by {}
    assert forall|m: int, k: int|
        0 <= m < t.listeners.len() && 0 <= k < t.listeners[m].pending.len() implies ({
        let w = #[trigger] t.listeners[m].pending[k];
        w < t.tcp.len() && t.tcp[w as int] is Some && w != id
    }) by {
        let w = s.listeners[m].pending[k + shift(m)];
        assert(t.listeners[m].pending[k] == w);
    }
    assert forall|m: int, k: int, n: int, j: int|
        0 <= m < t.listeners.len() && 0 <= k < t.listeners[m].pending.len() && 0 <= n
            < t.listeners.len() && 0 <= j < t.listeners[n].pending.len()
            && #[trigger] t.listeners[m].pending[k]
            == #[trigger] t.listeners[n].pending[j] implies m == n && k == j by {
        assert(s.listeners[m].pending[k + shift(m)] == s.listeners[n].pending[j + shift(n)]);
    }
    assert forall|h: usize| s.usable(h) implies #[trigger] t.usable(h) by {
        if awaits(t.listeners, h) {
            let (m, k) = choose|m: int, k: int|
                0 <= m < t.listeners.len() && 0 <= k < t.listeners[m].pending.len()
                    && #[trigger] t.listeners[m].pending[k] == h;
            assert(s.listeners[m].pending[k + shift(m)] == h);
        }
    }
    assert(t.wf());
}

impl ShimStdTcpListener {
    /// The address that this listens at.
    pub closed spec fn addr(&self) -> SocketAddr {
        self.bound_addr
    }

    /// Whether the listener is there.
    pub fn is_live(&self, st: &TestState) -> (r: bool)
        requires
            st@.wf(),
        ensures
            r == st@.has_listener(self.addr()),
    {
        let found = st.find_listener(self.bound_addr).is_some();
        proof {
            lemma_found_listener(st@.listeners, self.bound_addr, 0);
            if !found {
                lemma_no_listener(st@.listeners, self.bound_addr, 0);
            }
        }
        found
    }

    /// Whether both handles are of listeners at one address.
    pub fn is_at(&self, other: &ShimStdTcpListener) -> (r: bool)
        ensures
            r == (self.addr() == other.addr()),
    {
        self.bound_addr == other.bound_addr
    }

    /// Binds a listener to the first of `addrs` that can be had. Port zero
    /// stands for a port of the network's choice.
    pub fn bind(st: &mut TestState, addrs: &[SocketAddr]) -> (r: Result<ShimStdTcpListener, Error>)
        requires
            old(st)@.wf(),
            picks_port(old(st)@, addrs@) ==> has_free_port(old(st)@.ports),
        ensures
            final(st)@.wf(),
            keeps_handles(old(st)@, final(st)@, None),
            match (r, bindable(old(st)@, addrs@, 0)) {
                (Ok(l), Some(i)) => l.addr() == bound_to(old(st)@, addrs@[i]) && final(st)@
                    == bound_state(old(st)@, addrs@[i]) && final(st)@.has_listener(l.addr()),
                (Err(e), None) => final(st)@ == old(st)@ && e@ == err(
                    ErrorKind::AddrNotAvailable,
                    "could not bind to any addresses"@,
                ),
                _ => false,
            },
    {
        match find_bindable(st, addrs) {
            Some(i) => {
                let address = addrs[i];
                let bound_addr = if address.port() == 0 {
                    reserve_ephemeral_addr(st, address.ip())
                } else {
                    address
                };
                add_tcp_listener_state(st, bound_addr);
                Ok(ShimStdTcpListener { bound_addr })
            },
            None => Err(
                Error::new(ErrorKind::AddrNotAvailable, "could not bind to any addresses"),
            ),
        }
    }

    pub fn local_addr(&self) -> (r: Result<SocketAddr, Error>)
        ensures
            r == Ok::<SocketAddr, Error>(self.addr()),
    {
        Ok(self.bound_addr)
    }

    pub fn set_nonblocking(&self, st: &mut TestState, nonblocking: bool) -> (r: Result<(), Error>)
        requires
            old(st)@.wf(),
            old(st)@.has_listener(self.addr()),
        ensures
            r is Ok,
            ({
                let i = old(st)@.find_listener(self.addr())->0;
                final(st)@ == old(st)@.with_listener(
                    i,
                    ListenerView { nonblocking, ..old(st)@.listeners[i] },
                )
            }),
            final(st)@.wf(),
    {
        match st.find_listener(self.bound_addr) {
            Some(i) => {
                proof {
                    crate::state::lemma_listener_held(st@, i as int);
                }
                let l = st.with_tcp_listener_state(i);
                l.nonblocking = nonblocking;
            },
            None => {
                proof {
                    lemma_no_listener(st@.listeners, self.addr(), 0);
                }
            },
        }
        Ok(())
    }

    /// Takes the next connection off the queue. `None` means to wait for the
    /// signal and to try again.
    pub fn accept(&self, st: &mut TestState) -> (r: Result<
        Option<(ShimStdTcpStream, SocketAddr)>,
        Error,
    >)
        requires
            old(st)@.wf(),
            old(st)@.has_listener(self.addr()),
        ensures
            final(st)@ == accept_effect(old(st)@, self.addr()),
            final(st)@.wf(),
            keeps_handles(old(st)@, final(st)@, None),
            match (r, accept_outcome(old(st)@, self.addr())) {
                (Ok(Some((stream, peer))), Ok(Some((id, peer_addr)))) => stream.id() == id && peer
                    == peer_addr && final(st)@.usable(id) && final(st)@.conn(id).is_as_made(),
                (Ok(None), Ok(None)) => true,
                (Err(e), Err(expected)) => e@ == expected,
                _ => false,
            },
    {
        match st.find_listener(self.bound_addr) {
            Some(i) => {
                let ghost s = st@;
                let l = st.tcp_listener(i);
                let closed = l.is_closed;
                let nonblocking = l.nonblocking;
                if l.pending_streams.len() == 0 {
                    if closed {
                        return Err(Error::new(ErrorKind::NotConnected, "listener closed"));
                    }
                    if nonblocking {
                        return Err(Error::new(ErrorKind::WouldBlock, "no pending connections"));
                    }
                    return Ok(None);
                }
                proof {
                    lemma_accept(s, i as int);
                }
                let stream_id: usize = l.pending_streams[0];
                let l = st.with_tcp_listener_state(i);
                l.pending_streams.pop_front();
                assert(st@.listeners =~= s.with_listener(
                    i as int,
                    ListenerView {
                        pending: s.listeners[i as int].pending.drop_first(),
                        ..s.listeners[i as int]
                    },
                ).listeners);
                if closed {
                    return Err(Error::new(ErrorKind::NotConnected, "listener closed"));
                }
                let peer_addr = st.tcp_connection(stream_id).peer_addr;
                trigger_event(st);
                Ok(Some((ShimStdTcpStream { stream_id }, peer_addr)))
            },
            None => {
                proof {
                    lemma_no_listener(st@.listeners, self.addr(), 0);
                }
                Ok(None)
            },
        }
    }

    /// Takes the error that the listener has to report, if any.
    pub fn take_error(&self, st: &mut TestState) -> (r: Result<Option<Error>, Error>)
        requires
            old(st)@.wf(),
            old(st)@.has_listener(self.addr()),
        ensures
            r is Ok,
            ({
                let i = old(st)@.find_listener(self.addr())->0;
                let l = old(st)@.listeners[i];
                &&& opt_error(r->Ok_0) == l.error
                &&& final(st)@ == old(st)@.with_listener(i, ListenerView { error: None, ..l })
            }),
            final(st)@.wf(),
    {
        match st.find_listener(self.bound_addr) {
            Some(i) => {
                proof {
                    crate::state::lemma_listener_held(st@, i as int);
                }
                let l = st.with_tcp_listener_state(i);
                let e = l.error.take();
                Ok(e)
            },
            None => {
                proof {
                    lemma_no_listener(st@.listeners, self.addr(), 0);
                }
                Ok(None)
            },
        }
    }

    /// Another handle of the same listener.
    pub fn try_clone(&self, st: &mut TestState) -> (r: Result<ShimStdTcpListener, Error>)
        requires
            old(st)@.wf(),
            old(st)@.has_listener(self.addr()),
            old(st)@.listeners[old(st)@.find_listener(self.addr())->0].refs < usize::MAX,
        ensures
            r is Ok,
            r->Ok_0.addr() == self.addr(),
            ({
                let i = old(st)@.find_listener(self.addr())->0;
                let l = old(st)@.listeners[i];
                final(st)@ == old(st)@.with_listener(
                    i,
                    ListenerView { refs: (l.refs + 1) as usize, ..l },
                )
            }),
            final(st)@.wf(),
    {
        clone_tcp_listener_state(st, self.bound_addr);
        Ok(ShimStdTcpListener { bound_addr: self.bound_addr })
    }

    /// The connections that come in, one after the other.
    pub fn incoming(&self) -> (r: Incoming<'_>)
        ensures
            r.addr() == self.addr(),
    {
        Incoming { listener: self }
    }

    /// Gives this handle up. With the last one go the listener and every
    /// connection that nobody accepted.
    pub fn close(self, st: &mut TestState)
        requires
            old(st)@.wf(),
        ensures
            final(st)@ == old(st)@.with_listener_dropped(self.addr()),
            final(st)@.wf(),
            keeps_handles(old(st)@, final(st)@, None),
    {
        remove_tcp_listener_state(st, self.bound_addr);
    }
}

/// The connections that come in at a listener.
#[derive(Debug)]
pub struct Incoming<'a> {
    listener: &'a ShimStdTcpListener,
}

impl<'a> Incoming<'a> {
    /// The address at which they come in.
    pub closed spec fn addr(&self) -> SocketAddr {
        self.listener.addr()
    }

    /// The next connection. `None` means to wait for the signal and to try
    /// again: the connections never end.
    pub fn next(&mut self, st: &mut TestState) -> (r: Result<Option<ShimStdTcpStream>, Error>)
        requires
            old(st)@.wf(),
            old(st)@.has_listener(old(self).addr()),
        ensures
            final(self).addr() == old(self).addr(),
            final(st)@ == accept_effect(old(st)@, old(self).addr()),
            final(st)@.wf(),
            keeps_handles(old(st)@, final(st)@, None),
            match (r, accept_outcome(old(st)@, old(self).addr())) {
                (Ok(Some(stream)), Ok(Some((id, _)))) => stream.id() == id && final(st)@.usable(id),
                (Ok(None), Ok(None)) => true,
                (Err(e), Err(expected)) => e@ == expected,
                _ => false,
            },
    {
        match self.listener.accept(st) {
            Ok(Some((stream, _))) => Ok(Some(stream)),
            Ok(None) => Ok(None),
            Err(e) => Err(e),
        }
    }
}

} // verus!
