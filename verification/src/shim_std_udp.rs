//! UDP sockets with the surface of the standard library's.
//!
//! As with TCP, each operation is one step that never waits.

use crate::addr::SocketAddr;
use crate::conn::{first_of, Packet, PacketView, UdpConfigs, UdpView};
use crate::error::{err, opt_error, Error, ErrorKind, ErrorView};
use crate::shim_std_tcp::{
    copy_into, filled, unresolved, wait_step, wait_target, wait_until, WaitStep,
};
use crate::state::{
    add_udp_connection, enqueue_udp_outbound, is_ip_addr_valid, is_port_available,
    lemma_udp_released_keeps, next_socket_change, opt_time, trigger_event, Now, StateView, TestState,
};
use crate::time::{Duration, Instant};
use vstd::prelude::*;

verus! {

/// A handle of a UDP socket.
#[derive(Debug)]
pub struct ShimStdUdpSocket {
    bound_addr: SocketAddr,
}

// ----- Options -----

impl UdpConfigs {
    /// Both say the same thing, if perhaps with different values.
    pub open spec fn alike(self, other: UdpConfigs) -> bool {
        match (self, other) {
            (UdpConfigs::ReadTimeout(_), UdpConfigs::ReadTimeout(_)) => true,
            (UdpConfigs::WriteTimeout(_), UdpConfigs::WriteTimeout(_)) => true,
            (UdpConfigs::Broadcast, UdpConfigs::Broadcast) => true,
            (UdpConfigs::Ipv4MulticastLoop, UdpConfigs::Ipv4MulticastLoop) => true,
            (UdpConfigs::Ipv6MulticastLoop, UdpConfigs::Ipv6MulticastLoop) => true,
            (UdpConfigs::IpMulticastTtl(_), UdpConfigs::IpMulticastTtl(_)) => true,
            (UdpConfigs::IpTtl(_), UdpConfigs::IpTtl(_)) => true,
            (UdpConfigs::NonBlocking, UdpConfigs::NonBlocking) => true,
            _ => false,
        }
    }

    fn is_alike(&self, other: &UdpConfigs) -> (r: bool)
        ensures
            r == self.alike(*other),
    {
        match (*self, *other) {
            (UdpConfigs::ReadTimeout(_), UdpConfigs::ReadTimeout(_)) => true,
            (UdpConfigs::WriteTimeout(_), UdpConfigs::WriteTimeout(_)) => true,
            (UdpConfigs::Broadcast, UdpConfigs::Broadcast) => true,
            (UdpConfigs::Ipv4MulticastLoop, UdpConfigs::Ipv4MulticastLoop) => true,
            (UdpConfigs::Ipv6MulticastLoop, UdpConfigs::Ipv6MulticastLoop) => true,
            (UdpConfigs::IpMulticastTtl(_), UdpConfigs::IpMulticastTtl(_)) => true,
            (UdpConfigs::IpTtl(_), UdpConfigs::IpTtl(_)) => true,
            (UdpConfigs::NonBlocking, UdpConfigs::NonBlocking) => true,
            _ => false,
        }
    }
}

/// `configs` without what is like `c`.
pub open spec fn without(configs: Seq<UdpConfigs>, c: UdpConfigs) -> Seq<UdpConfigs>
    decreases configs.len(),
{
    if configs.len() == 0 {
        Seq::empty()
    } else if configs.last().alike(c) {
        without(configs.drop_last(), c)
    } else {
        without(configs.drop_last(), c).push(configs.last())
    }
}

/// The first of `configs`, at or behind `from`, that is like `c`.
pub open spec fn option_from(configs: Seq<UdpConfigs>, c: UdpConfigs, from: int) -> Option<
    UdpConfigs,
>
    decreases configs.len() - from,
{
    if from < 0 || from >= configs.len() {
        None
    } else if configs[from].alike(c) {
        Some(configs[from])
    } else {
        option_from(configs, c, from + 1)
    }
}

/// `configs` with `c` set, in place of what was like it.
pub open spec fn with_option(configs: Seq<UdpConfigs>, c: UdpConfigs) -> Seq<UdpConfigs> {
    without(configs, c).push(c)
}

/// What `configs` say in the matter of `c`.
pub open spec fn option_like(configs: Seq<UdpConfigs>, c: UdpConfigs) -> Option<UdpConfigs> {
    option_from(configs, c, 0)
}

impl UdpView {
    /// Whether receiving never waits.
    pub open spec fn nonblocking(self) -> bool {
        option_like(self.configs, UdpConfigs::NonBlocking) is Some
    }

    /// How long receiving waits.
    pub open spec fn read_timeout(self) -> Option<Duration> {
        match option_like(self.configs, UdpConfigs::ReadTimeout(Duration::of(0))) {
            Some(UdpConfigs::ReadTimeout(d)) => Some(d),
            _ => None,
        }
    }

    /// How long sending waits.
    pub open spec fn write_timeout(self) -> Option<Duration> {
        match option_like(self.configs, UdpConfigs::WriteTimeout(Duration::of(0))) {
            Some(UdpConfigs::WriteTimeout(d)) => Some(d),
            _ => None,
        }
    }

    pub open spec fn multicast_ttl(self) -> u32 {
        match option_like(self.configs, UdpConfigs::IpMulticastTtl(0)) {
            Some(UdpConfigs::IpMulticastTtl(n)) => n,
            _ => 1,
        }
    }

    pub open spec fn ttl(self) -> u32 {
        match option_like(self.configs, UdpConfigs::IpTtl(0)) {
            Some(UdpConfigs::IpTtl(n)) => n,
            _ => 64,
        }
    }
}

proof fn lemma_without(configs: Seq<UdpConfigs>, c: UdpConfigs)
    ensures
        forall|i: int|
            0 <= i < without(configs, c).len() ==> !(#[trigger] without(configs, c)[i]).alike(c),
    decreases configs.len(),
{
    if configs.len() > 0 {
        let rest = without(configs.drop_last(), c);
        lemma_without(configs.drop_last(), c);
        assert forall|i: int| 0 <= i < without(configs, c).len() implies !(#[trigger] without(
            configs,
            c,
        )[i]).alike(c) by {
            if i < rest.len() {
                assert(!rest[i].alike(c));
            }
        }
    }
}

proof fn lemma_option_at_end(configs: Seq<UdpConfigs>, c: UdpConfigs, d: UdpConfigs, from: int)
    requires
        0 <= from <= configs.len(),
    ensures
        option_from(configs.push(c), d, from) == match option_from(configs, d, from) {
            Some(x) => Some(x),
            None => if c.alike(d) {
                Some(c)
            } else {
                None
            },
        },
    decreases configs.len() - from,
{
    if from < configs.len() {
        lemma_option_at_end(configs, c, d, from + 1);
    } else {
        assert(option_from(configs.push(c), d, from + 1) is None);
    }
}

proof fn lemma_none_alike(configs: Seq<UdpConfigs>, d: UdpConfigs, from: int)
    requires
        0 <= from <= configs.len(),
        forall|i: int| 0 <= i < configs.len() ==> !(#[trigger] configs[i]).alike(d),
    ensures
        option_from(configs, d, from) is None,
    decreases configs.len() - from,
{
    if from < configs.len() {
        lemma_none_alike(configs, d, from + 1);
    }
}

proof fn lemma_without_keeps(configs: Seq<UdpConfigs>, c: UdpConfigs, d: UdpConfigs)
    requires
        !c.alike(d),
    ensures
        option_like(without(configs, c), d) == option_like(configs, d),
    decreases configs.len(),
{
    if configs.len() > 0 {
        let rest = configs.drop_last();
        let last = configs.last();
        lemma_without_keeps(rest, c, d);
        assert(rest.push(last) =~= configs);
        lemma_option_at_end(rest, last, d, 0);
        lemma_option_at_end(without(rest, c), last, d, 0);
    }
}

/// An option that was set is read back, and setting or removing it leaves every
/// other option alone; one that was removed is gone.
pub proof fn law_options_are_independent(configs: Seq<UdpConfigs>, c: UdpConfigs, d: UdpConfigs)
    ensures
        option_like(with_option(configs, c), c) == Some(c),
        option_like(without(configs, c), c) is None,
        !c.alike(d) ==> option_like(with_option(configs, c), d) == option_like(configs, d),
        !c.alike(d) ==> option_like(without(configs, c), d) == option_like(configs, d),
{
    lemma_without(configs, c);
    lemma_none_alike(without(configs, c), c, 0);
    lemma_option_at_end(without(configs, c), c, c, 0);
    if !c.alike(d) {
        lemma_without_keeps(configs, c, d);
        lemma_option_at_end(without(configs, c), c, d, 0);
    }
}

fn remaining_options(configs: &Vec<UdpConfigs>, c: &UdpConfigs) -> (r: Vec<UdpConfigs>)
    ensures
        r@ == without(configs@, *c),
{
    let mut out: Vec<UdpConfigs> = Vec::new();
    let mut i: usize = 0;
    while i < configs.len()
        invariant
            i <= configs@.len(),
            out@ == without(configs@.take(i as int), *c),
        decreases configs@.len() - i,
    {
        assert(configs@.take(i + 1).drop_last() =~= configs@.take(i as int));
        if !configs[i].is_alike(c) {
            out.push(configs[i]);
        }
        i += 1;
    }
    assert(configs@.take(i as int) =~= configs@);
    out
}

// ----- Receiving -----

pub open spec fn destroyed_socket() -> ErrorView {
    err(ErrorKind::BrokenPipe, "connection destroyed"@)
}

pub open spec fn no_remote() -> ErrorView {
    err(ErrorKind::NotConnected, "no remote address set"@)
}

/// Which packet a receiver gets: the first one, or the first one from `from`.
pub open spec fn next_for(u: UdpView, from: Option<SocketAddr>) -> Option<int> {
    match from {
        Some(addr) => first_of(u.to_local, addr, 0),
        None => if u.to_local.len() > 0 {
            Some(0)
        } else {
            None
        },
    }
}

/// A receive that has begun.
#[derive(Clone, Copy, Debug, PartialEq, Eq, Structural)]
pub struct Receiving {
    /// The socket that receives.
    pub bound_addr: SocketAddr,
    /// The sender whose packets alone count.
    pub from: Option<SocketAddr>,
    /// Whether the packet is taken off the queue.
    pub consume: bool,
}

/// What a step of receiving came to.
#[derive(Clone, Copy, Debug, PartialEq, Eq, Structural)]
pub enum RecvStep {
    /// So many bytes were copied out of a packet from this sender.
    Done(usize, SocketAddr),
    /// Wait, for at most this long in all, and resume.
    Wait(Receiving, Option<Duration>),
}

/// The socket that `r` receives from, with all that has arrived by `now`.
pub open spec fn receiver(s: StateView, now: Now, r: Receiving) -> UdpView {
    s.udp[s.find_udp(r.bound_addr)->0].released(now.mono@)
}

/// What a step of receiving into `len` bytes comes to. `would_block` is the
/// failure of a receive that may not wait.
pub open spec fn recv_outcome(
    s: StateView,
    now: Now,
    r: Receiving,
    len: nat,
    would_block: Option<ErrorView>,
) -> Result<RecvStep, ErrorView> {
    let u = receiver(s, now, r);
    if u.destroyed {
        Err(destroyed_socket())
    } else {
        match next_for(u, r.from) {
            Some(k) => {
                let p = u.to_local[k];
                Ok(
                    RecvStep::Done(
                        (if p.data.len() <= len {
                            p.data.len()
                        } else {
                            len
                        }) as usize,
                        p.source,
                    ),
                )
            },
            None => match would_block {
                Some(e) => Err(e),
                None => Ok(RecvStep::Wait(r, u.read_timeout())),
            },
        }
    }
}

/// What the buffer holds afterwards. What does not fit is lost.
pub open spec fn recv_into(s: StateView, now: Now, r: Receiving, buf: Seq<u8>) -> Seq<u8> {
    let u = receiver(s, now, r);
    match next_for(u, r.from) {
        Some(k) => if u.destroyed {
            buf
        } else {
            filled(buf, u.to_local[k].data)
        },
        None => buf,
    }
}

/// The state afterwards.
pub open spec fn recv_effect(s: StateView, now: Now, r: Receiving) -> StateView {
    let u = receiver(s, now, r);
    s.with_udp(
        s.find_udp(r.bound_addr)->0,
        match next_for(u, r.from) {
            Some(k) => if r.consume && !u.destroyed {
                UdpView { to_local: u.to_local.remove(k), ..u }
            } else {
                u
            },
            None => u,
        },
    ).woken()
}

impl Receiving {
    /// Receives, or waits, unless `would_block` says that waiting will not do.
    fn attempt(
        &self,
        st: &mut TestState,
        now: Now,
        buf: &mut [u8],
        would_block: Option<Error>,
    ) -> (r: Result<RecvStep, Error>)
        requires
            old(st)@.wf(),
            old(st)@.has_udp(self.bound_addr),
        ensures
            final(st)@ == recv_effect(old(st)@, now, *self),
            final(st)@.wf(),
            final(buf)@ == recv_into(old(st)@, now, *self, old(buf)@),
            match r {
                Ok(step) => recv_outcome(
                    old(st)@,
                    now,
                    *self,
                    old(buf)@.len(),
                    opt_error(would_block),
                ) == Ok::<RecvStep, ErrorView>(step),
                Err(e) => recv_outcome(old(st)@, now, *self, old(buf)@.len(), opt_error(would_block))
                    == Err::<RecvStep, ErrorView>(e@),
            },
    {
        proof {
            let i = old(st)@.find_udp(self.bound_addr)->0;
            lemma_udp_released_keeps(old(st)@.udp[i], now.mono@);
        }
        let i: usize = st.udp_place(self.bound_addr);
        let u = st.with_udp_connection(i);
        u.release(now.mono);
        let u = st.udp_connection(i);
        if u.is_destroyed {
            return Err(Error::new(ErrorKind::BrokenPipe, "connection destroyed"));
        }
        let found: Option<usize> = match self.from {
            Some(addr) => u.position_of(addr),
            None => if u.to_local.len() > 0 {
                Some(0)
            } else {
                None
            },
        };
        match found {
            Some(k) => {
                assert(u@.to_local[k as int] == u.to_local@[k as int]@);
                let source = u.to_local[k].source;
                let n: usize = copy_into(buf, u.to_local[k].data.as_slice());
                if self.consume {
                    let u = st.udp_connection_mut(i);
                    let ghost before = u@;
                    u.to_local.remove(k);
                    assert(u@.to_local =~= before.to_local.remove(k as int));
                }
                assert(st@.udp =~= recv_effect(old(st)@, now, *self).udp);
                Ok(RecvStep::Done(n, source))
            },
            None => match would_block {
                Some(e) => Err(e),
                None => Ok(RecvStep::Wait(*self, timeout_of(u))),
            },
        }
    }

    /// Goes on after a wait.
    pub fn resume(&self, st: &mut TestState, now: Now, buf: &mut [u8]) -> (r: Result<RecvStep, Error>)
        requires
            old(st)@.wf(),
            old(st)@.has_udp(self.bound_addr),
        ensures
            final(st)@ == recv_effect(old(st)@, now, *self),
            final(st)@.wf(),
            final(buf)@ == recv_into(old(st)@, now, *self, old(buf)@),
            match r {
                Ok(step) => recv_outcome(old(st)@, now, *self, old(buf)@.len(), None) == Ok::<
                    RecvStep,
                    ErrorView,
                >(step),
                Err(e) => recv_outcome(old(st)@, now, *self, old(buf)@.len(), None) == Err::<
                    RecvStep,
                    ErrorView,
                >(e@),
            },
    {
        self.attempt(st, now, buf, None)
    }
}

/// How long receiving from `u` waits.
fn timeout_of(u: &crate::conn::UdpConnection) -> (r: Option<Duration>)
    ensures
        r == u@.read_timeout(),
{
    match find_option(&u.configs, UdpConfigs::ReadTimeout(Duration::zero())) {
        Some(UdpConfigs::ReadTimeout(d)) => Some(d),
        _ => None,
    }
}

fn find_option(configs: &Vec<UdpConfigs>, c: UdpConfigs) -> (r: Option<UdpConfigs>)
    ensures
        r == option_like(configs@, c),
{
    let mut i: usize = 0;
    while i < configs.len()
        invariant
            i <= configs@.len(),
            option_like(configs@, c) == option_from(configs@, c, i as int),
        decreases configs@.len() - i,
    {
        if configs[i].is_alike(&c) {
            return Some(configs[i]);
        }
        i += 1;
    }
    None
}

/// How to wait for a packet for at most `timeout`. `deadline` is empty before
/// the first wait of a receive and is handed back for the next. The wait is cut
/// short when the next packet that is on its way to the socket arrives: nothing
/// else would wake a receiver for it.
pub fn before_recv_wait(
    st: &TestState,
    now: Now,
    addr: SocketAddr,
    timeout: Option<Duration>,
    deadline: &mut Option<Instant>,
) -> (r: Result<WaitStep, Error>)
    requires
        st@.has_udp(addr),
    ensures
        *final(deadline) == wait_target(now, timeout, *old(deadline)),
        ({
            let arrival = st@.udp[st@.find_udp(addr)->0].next_time();
            match r {
                Ok(w) => wait_step(arrival, now, timeout, *old(deadline)) == Ok::<
                    WaitStep,
                    ErrorView,
                >(w),
                Err(e) => wait_step(arrival, now, timeout, *old(deadline)) == Err::<
                    WaitStep,
                    ErrorView,
                >(e@),
            }
        }),
{
    let i: usize = st.udp_place(addr);
    wait_until(st.udp_connection(i).next_time(), now, timeout, deadline)
}

// ----- Sending -----

/// What sending `data` to the first of `addrs` comes to.
pub open spec fn send_outcome(
    s: StateView,
    addr: SocketAddr,
    addrs: Seq<SocketAddr>,
    len: nat,
) -> Result<usize, ErrorView> {
    if addrs.len() == 0 {
        Err(unresolved())
    } else if s.udp[s.find_udp(addr)->0].destroyed {
        Err(destroyed_socket())
    } else {
        match s.udp_send_error(addr, len) {
            Some(e) => Err(e),
            None => Ok(len as usize),
        }
    }
}

/// The state afterwards.
pub open spec fn send_effect(
    s: StateView,
    now: Now,
    addr: SocketAddr,
    addrs: Seq<SocketAddr>,
    data: Seq<u8>,
) -> StateView {
    match send_outcome(s, addr, addrs, data.len()) {
        Ok(_) => s.woken().with_udp_queued(
            now,
            addr,
            PacketView { data, dest: addrs[0], source: addr },
        ),
        Err(_) => if addrs.len() == 0 {
            s
        } else {
            s.woken()
        },
    }
}

/// The first of `addrs`, at or behind `from`, that a socket can be bound to: its
/// IP address is valid and its port is free.
pub open spec fn bindable(s: StateView, addrs: Seq<SocketAddr>, from: int) -> Option<int>
    decreases addrs.len() - from,
{
    if from < 0 || from >= addrs.len() {
        None
    } else if s.ips.contains(addrs[from].ip_part()) && !s.ports.contains(addrs[from].port_part()) {
        Some(from)
    } else {
        bindable(s, addrs, from + 1)
    }
}

impl ShimStdUdpSocket {
    /// The address that this is bound to.
    pub closed spec fn addr(&self) -> SocketAddr {
        self.bound_addr
    }

    /// The socket that this is a handle of.
    pub open spec fn socket(&self, s: StateView) -> UdpView {
        s.udp[s.find_udp(self.addr())->0]
    }

    /// The state with the socket's options replaced.
    pub open spec fn with_configs(&self, s: StateView, configs: Seq<UdpConfigs>) -> StateView {
        s.with_udp(s.find_udp(self.addr())->0, UdpView { configs, ..self.socket(s) })
    }

    /// Whether the socket is there.
    pub fn is_live(&self, st: &TestState) -> (r: bool)
        requires
            st@.wf(),
        ensures
            r == st@.has_udp(self.addr()),
    {
        match st.find_udp(self.bound_addr) {
            Some(i) => {
                assert(st@.udp[i as int].addr == self.bound_addr);
                true
            },
            None => {
                proof {
                    crate::state::lemma_no_udp(st@.udp, self.bound_addr, 0);
                }
                false
            },
        }
    }

    /// When a poller sees something else of the socket by the passing of time
    /// alone.
    pub fn next_change(&self, st: &TestState, now: Now) -> (r: Option<Instant>)
        ensures
            opt_time(r) == st@.socket_change(now.mono@, self.addr()),
    {
        next_socket_change(st, now, self.bound_addr)
    }

    /// Whether both are handles of one socket.
    pub fn is_at(&self, other: &ShimStdUdpSocket) -> (r: bool)
        ensures
            r == (self.addr() == other.addr()),
    {
        self.bound_addr == other.bound_addr
    }

    fn set_option(&self, st: &mut TestState, config: UdpConfigs)
        requires
            old(st)@.wf(),
            old(st)@.has_udp(self.addr()),
        ensures
            final(st)@ == self.with_configs(
                old(st)@,
                with_option(self.socket(old(st)@).configs, config),
            ),
            final(st)@.wf(),
    {
        let i: usize = st.udp_place(self.bound_addr);
        let u = st.udp_connection_mut(i);
        let mut configs = remaining_options(&u.configs, &config);
        configs.push(config);
        u.configs = configs;
    }

    fn del_option(&self, st: &mut TestState, config: UdpConfigs)
        requires
            old(st)@.wf(),
            old(st)@.has_udp(self.addr()),
        ensures
            final(st)@ == self.with_configs(
                old(st)@,
                without(self.socket(old(st)@).configs, config),
            ),
            final(st)@.wf(),
    {
        let i: usize = st.udp_place(self.bound_addr);
        let u = st.udp_connection_mut(i);
        let configs = remaining_options(&u.configs, &config);
        u.configs = configs;
    }

    fn get_option(&self, st: &TestState, config: UdpConfigs) -> (r: Option<UdpConfigs>)
        requires
            st@.has_udp(self.addr()),
        ensures
            r == option_like(self.socket(st@).configs, config),
    {
        let i: usize = st.udp_place(self.bound_addr);
        find_option(&st.udp_connection(i).configs, config)
    }

    fn set_flag(&self, st: &mut TestState, config: UdpConfigs, on: bool)
        requires
            old(st)@.wf(),
            old(st)@.has_udp(self.addr()),
        ensures
            final(st)@ == self.with_configs(
                old(st)@,
                if on {
                    with_option(self.socket(old(st)@).configs, config)
                } else {
                    without(self.socket(old(st)@).configs, config)
                },
            ),
            final(st)@.wf(),
    {
        if on {
            self.set_option(st, config);
        } else {
            self.del_option(st, config);
        }
    }

    /// Binds a socket to the first of `addrs` that can be had.
    pub fn bind(st: &mut TestState, addrs: &[SocketAddr]) -> (r: Result<ShimStdUdpSocket, Error>)
        requires
            old(st)@.wf(),
        ensures
            final(st)@.wf(),
            match (r, bindable(old(st)@, addrs@, 0)) {
                (Ok(u), Some(i)) => u.addr() == addrs@[i] && final(st)@
                    == old(st)@.with_udp_bound(addrs@[i]) && final(st)@.has_udp(u.addr()),
                (Err(e), None) => final(st)@ == old(st)@ && e@ == unresolved(),
                _ => false,
            },
    {
        let mut i: usize = 0;
        while i < addrs.len()
            invariant
                i <= addrs@.len(),
                st@ == old(st)@,
                st@.wf(),
                bindable(old(st)@, addrs@, 0) == bindable(old(st)@, addrs@, i as int),
            decreases addrs@.len() - i,
        {
            let a = addrs[i];
            if is_ip_addr_valid(st, a.ip()) && is_port_available(st, a.port()) {
                add_udp_connection(st, a);
                return Ok(ShimStdUdpSocket { bound_addr: a });
            }
            i += 1;
        }
        Err(Error::new(ErrorKind::InvalidInput, "could not resolve to any addresses"))
    }

    fn receive(
        &self,
        st: &mut TestState,
        now: Now,
        buf: &mut [u8],
        from: Option<SocketAddr>,
        consume: bool,
        message: &str,
    ) -> (r: Result<RecvStep, Error>)
        requires
            old(st)@.wf(),
            old(st)@.has_udp(self.addr()),
        ensures
            receives(
                old(st)@,
                now,
                Receiving { bound_addr: self.addr(), from, consume },
                message@,
                old(buf)@,
                r,
                final(buf)@,
                final(st)@,
            ),
            final(st)@.wf(),
    {
        let nonblocking = self.is_nonblocking(st);
        let would_block = if nonblocking {
            Some(Error::new(ErrorKind::WouldBlock, message))
        } else {
            None
        };
        let receiving = Receiving { bound_addr: self.bound_addr, from, consume };
        receiving.attempt(st, now, buf, would_block)
    }

    /// Receives a packet from anyone.
    pub fn recv_from(&self, st: &mut TestState, now: Now, buf: &mut [u8]) -> (r: Result<
        RecvStep,
        Error,
    >)
        requires
            old(st)@.wf(),
            old(st)@.has_udp(self.addr()),
        ensures
            receives(
                old(st)@,
                now,
                Receiving { bound_addr: self.addr(), from: None, consume: true },
                "no data available"@,
                old(buf)@,
                r,
                final(buf)@,
                final(st)@,
            ),
            final(st)@.wf(),
    {
        self.receive(st, now, buf, None, true, "no data available")
    }

    /// Receives a packet from anyone, and leaves it to be received again.
    pub fn peek_from(&self, st: &mut TestState, now: Now, buf: &mut [u8]) -> (r: Result<
        RecvStep,
        Error,
    >)
        requires
            old(st)@.wf(),
            old(st)@.has_udp(self.addr()),
        ensures
            receives(
                old(st)@,
                now,
                Receiving { bound_addr: self.addr(), from: None, consume: false },
                "no data available"@,
                old(buf)@,
                r,
                final(buf)@,
                final(st)@,
            ),
            final(st)@.wf(),
    {
        self.receive(st, now, buf, None, false, "no data available")
    }

    /// Receives a packet from the address that the socket is connected to.
    pub fn recv(&self, st: &mut TestState, now: Now, buf: &mut [u8]) -> (r: Result<
        RecvStep,
        Error,
    >)
        requires
            old(st)@.wf(),
            old(st)@.has_udp(self.addr()),
        ensures
            receives_connected(
                old(st)@,
                now,
                self.addr(),
                true,
                old(buf)@,
                r,
                final(buf)@,
                final(st)@,
            ),
            final(st)@.wf(),
    {
        match self.peer_addr(st) {
            Ok(addr) => self.receive(
                st,
                now,
                buf,
                Some(addr),
                true,
                "no data available from connected address",
            ),
            Err(e) => Err(e),
        }
    }

    /// Receives a packet from the address that the socket is connected to, and
    /// leaves it to be received again.
    pub fn peek(&self, st: &mut TestState, now: Now, buf: &mut [u8]) -> (r: Result<
        RecvStep,
        Error,
    >)
        requires
            old(st)@.wf(),
            old(st)@.has_udp(self.addr()),
        ensures
            receives_connected(
                old(st)@,
                now,
                self.addr(),
                false,
                old(buf)@,
                r,
                final(buf)@,
                final(st)@,
            ),
            final(st)@.wf(),
    {
        match self.peer_addr(st) {
            Ok(addr) => self.receive(
                st,
                now,
                buf,
                Some(addr),
                false,
                "no data available from connected address",
            ),
            Err(e) => Err(e),
        }
    }

    /// Sends a packet to the first of `addrs`.
    pub fn send_to(&self, st: &mut TestState, now: Now, buf: &[u8], addrs: &[SocketAddr]) -> (r: Result<
        usize,
        Error,
    >)
        requires
            old(st)@.wf(),
            old(st)@.has_udp(self.addr()),
            buf@.len() <= i32::MAX,
        ensures
            final(st)@ == send_effect(old(st)@, now, self.addr(), addrs@, buf@),
            final(st)@.wf(),
            match r {
                Ok(n) => send_outcome(old(st)@, self.addr(), addrs@, buf@.len()) == Ok::<
                    usize,
                    ErrorView,
                >(n),
                Err(e) => send_outcome(old(st)@, self.addr(), addrs@, buf@.len()) == Err::<
                    usize,
                    ErrorView,
                >(e@),
            },
    {
        if addrs.len() == 0 {
            return Err(Error::new(ErrorKind::InvalidInput, "could not resolve to any addresses"));
        }
        let i: usize = st.udp_place(self.bound_addr);
        trigger_event(st);
        if st.udp_connection(i).is_destroyed {
            return Err(Error::new(ErrorKind::BrokenPipe, "connection destroyed"));
        }
        let pkt = Packet {
            data: crate::bytes::copy_of(buf),
            dest: addrs[0],
            source: self.bound_addr,
        };
        match enqueue_udp_outbound(st, now, self.bound_addr, pkt) {
            Ok(_) => Ok(buf.len()),
            Err(e) => Err(e),
        }
    }

    /// Sends a packet to the address that the socket is connected to.
    pub fn send(&self, st: &mut TestState, now: Now, buf: &[u8]) -> (r: Result<usize, Error>)
        requires
            old(st)@.wf(),
            old(st)@.has_udp(self.addr()),
            buf@.len() <= i32::MAX,
        ensures
            final(st)@.wf(),
            match self.socket(old(st)@).remote {
                None => r is Err && r->Err_0@ == no_remote() && final(st)@ == old(st)@,
                Some(remote) => {
                    &&& final(st)@ == send_effect(old(st)@, now, self.addr(), seq![remote], buf@)
                    &&& match r {
                        Ok(n) => send_outcome(old(st)@, self.addr(), seq![remote], buf@.len())
                            == Ok::<usize, ErrorView>(n),
                        Err(e) => send_outcome(old(st)@, self.addr(), seq![remote], buf@.len())
                            == Err::<usize, ErrorView>(e@),
                    }
                },
            },
    {
        match self.peer_addr(st) {
            Ok(remote) => {
                let mut addrs: Vec<SocketAddr> = Vec::new();
                addrs.push(remote);
                assert(addrs@ =~= seq![remote]);
                self.send_to(st, now, buf, addrs.as_slice())
            },
            Err(e) => Err(e),
        }
    }

    /// Connects the socket to the first of `addrs`.
    pub fn connect(&self, st: &mut TestState, addrs: &[SocketAddr]) -> (r: Result<(), Error>)
        requires
            old(st)@.wf(),
            old(st)@.has_udp(self.addr()),
        ensures
            final(st)@.wf(),
            match r {
                Ok(_) => addrs@.len() > 0 && final(st)@ == old(st)@.with_udp(
                    old(st)@.find_udp(self.addr())->0,
                    UdpView { remote: Some(addrs@[0]), ..self.socket(old(st)@) },
                ),
                Err(e) => addrs@.len() == 0 && final(st)@ == old(st)@ && e@ == unresolved(),
            },
    {
        if addrs.len() == 0 {
            return Err(Error::new(ErrorKind::InvalidInput, "could not resolve to any addresses"));
        }
        let i: usize = st.udp_place(self.bound_addr);
        let u = st.udp_connection_mut(i);
        u.remote_addr = Some(addrs[0]);
        Ok(())
    }

    /// The address that the socket is connected to.
    pub fn peer_addr(&self, st: &TestState) -> (r: Result<SocketAddr, Error>)
        requires
            st@.has_udp(self.addr()),
        ensures
            match r {
                Ok(addr) => self.socket(st@).remote == Some(addr),
                Err(e) => self.socket(st@).remote is None && e@ == no_remote(),
            },
    {
        let i: usize = st.udp_place(self.bound_addr);
        match st.udp_connection(i).remote_addr {
            Some(addr) => Ok(addr),
            None => Err(Error::new(ErrorKind::NotConnected, "no remote address set")),
        }
    }

    pub fn local_addr(&self) -> (r: Result<SocketAddr, Error>)
        ensures
            r == Ok::<SocketAddr, Error>(self.addr()),
    {
        Ok(self.bound_addr)
    }

    /// Another handle of the same socket.
    pub fn try_clone(&self) -> (r: Result<ShimStdUdpSocket, Error>)
        ensures
            r is Ok,
            r->Ok_0.addr() == self.addr(),
    {
        Ok(ShimStdUdpSocket { bound_addr: self.bound_addr })
    }

    /// Sets how long receiving waits. Zero is refused.
    pub fn set_read_timeout(&self, st: &mut TestState, dur: Option<Duration>) -> (r: Result<(), Error>)
        requires
            old(st)@.wf(),
            old(st)@.has_udp(self.addr()),
        ensures
            final(st)@.wf(),
            match (r, dur) {
                (Ok(_), Some(d)) => d@ > 0 && final(st)@ == self.with_configs(
                    old(st)@,
                    with_option(self.socket(old(st)@).configs, UdpConfigs::ReadTimeout(d)),
                ),
                (Ok(_), None) => final(st)@ == self.with_configs(
                    old(st)@,
                    without(
                        self.socket(old(st)@).configs,
                        UdpConfigs::ReadTimeout(Duration::of(0)),
                    ),
                ),
                (Err(e), Some(d)) => d@ == 0 && final(st)@ == old(st)@ && e@ == err(
                    ErrorKind::InvalidInput,
                    "duration must be non-zero"@,
                ),
                (Err(_), None) => false,
            },
    {
        match dur {
            Some(d) => {
                if d.is_zero() {
                    return Err(Error::new(ErrorKind::InvalidInput, "duration must be non-zero"));
                }
                self.set_option(st, UdpConfigs::ReadTimeout(d));
            },
            None => self.del_option(st, UdpConfigs::ReadTimeout(Duration::zero())),
        }
        Ok(())
    }

    /// Sets how long sending waits. Zero is refused.
    pub fn set_write_timeout(&self, st: &mut TestState, dur: Option<Duration>) -> (r: Result<
        (),
        Error,
    >)
        requires
            old(st)@.wf(),
            old(st)@.has_udp(self.addr()),
        ensures
            final(st)@.wf(),
            match (r, dur) {
                (Ok(_), Some(d)) => d@ > 0 && final(st)@ == self.with_configs(
                    old(st)@,
                    with_option(self.socket(old(st)@).configs, UdpConfigs::WriteTimeout(d)),
                ),
                (Ok(_), None) => final(st)@ == self.with_configs(
                    old(st)@,
                    without(
                        self.socket(old(st)@).configs,
                        UdpConfigs::WriteTimeout(Duration::of(0)),
                    ),
                ),
                (Err(e), Some(d)) => d@ == 0 && final(st)@ == old(st)@ && e@ == err(
                    ErrorKind::InvalidInput,
                    "duration must be non-zero"@,
                ),
                (Err(_), None) => false,
            },
    {
        match dur {
            Some(d) => {
                if d.is_zero() {
                    return Err(Error::new(ErrorKind::InvalidInput, "duration must be non-zero"));
                }
                self.set_option(st, UdpConfigs::WriteTimeout(d));
            },
            None => self.del_option(st, UdpConfigs::WriteTimeout(Duration::zero())),
        }
        Ok(())
    }

    pub fn read_timeout(&self, st: &TestState) -> (r: Result<Option<Duration>, Error>)
        requires
            st@.has_udp(self.addr()),
        ensures
            r == Ok::<Option<Duration>, Error>(self.socket(st@).read_timeout()),
    {
        let i: usize = st.udp_place(self.bound_addr);
        Ok(timeout_of(st.udp_connection(i)))
    }

    pub fn write_timeout(&self, st: &TestState) -> (r: Result<Option<Duration>, Error>)
        requires
            st@.has_udp(self.addr()),
        ensures
            r == Ok::<Option<Duration>, Error>(self.socket(st@).write_timeout()),
    {
        match self.get_option(st, UdpConfigs::WriteTimeout(Duration::zero())) {
            Some(UdpConfigs::WriteTimeout(d)) => Ok(Some(d)),
            _ => Ok(None),
        }
    }

    pub fn set_broadcast(&self, st: &mut TestState, broadcast: bool) -> (r: Result<(), Error>)
        requires
            old(st)@.wf(),
            old(st)@.has_udp(self.addr()),
        ensures
            r is Ok,
            final(st)@ == self.with_configs(
                old(st)@,
                if broadcast {
                    with_option(self.socket(old(st)@).configs, UdpConfigs::Broadcast)
                } else {
                    without(self.socket(old(st)@).configs, UdpConfigs::Broadcast)
                },
            ),
            final(st)@.wf(),
    {
        self.set_flag(st, UdpConfigs::Broadcast, broadcast);
        Ok(())
    }

    pub fn broadcast(&self, st: &TestState) -> (r: Result<bool, Error>)
        requires
            st@.has_udp(self.addr()),
        ensures
            r == Ok::<bool, Error>(
                option_like(self.socket(st@).configs, UdpConfigs::Broadcast) is Some,
            ),
    {
        Ok(self.get_option(st, UdpConfigs::Broadcast).is_some())
    }

    pub fn set_multicast_loop_v4(&self, st: &mut TestState, multicast_loop_v4: bool) -> (r: Result<
        (),
        Error,
    >)
        requires
            old(st)@.wf(),
            old(st)@.has_udp(self.addr()),
        ensures
            r is Ok,
            final(st)@ == self.with_configs(
                old(st)@,
                if multicast_loop_v4 {
                    with_option(self.socket(old(st)@).configs, UdpConfigs::Ipv4MulticastLoop)
                } else {
                    without(self.socket(old(st)@).configs, UdpConfigs::Ipv4MulticastLoop)
                },
            ),
            final(st)@.wf(),
    {
        self.set_flag(st, UdpConfigs::Ipv4MulticastLoop, multicast_loop_v4);
        Ok(())
    }

    pub fn multicast_loop_v4(&self, st: &TestState) -> (r: Result<bool, Error>)
        requires
            st@.has_udp(self.addr()),
        ensures
            r == Ok::<bool, Error>(
                option_like(self.socket(st@).configs, UdpConfigs::Ipv4MulticastLoop) is Some,
            ),
    {
        Ok(self.get_option(st, UdpConfigs::Ipv4MulticastLoop).is_some())
    }

    pub fn set_multicast_ttl_v4(&self, st: &mut TestState, multicast_ttl_v4: u32) -> (r: Result<
        (),
        Error,
    >)
        requires
            old(st)@.wf(),
            old(st)@.has_udp(self.addr()),
        ensures
            r is Ok,
            final(st)@ == self.with_configs(
                old(st)@,
                with_option(
                    self.socket(old(st)@).configs,
                    UdpConfigs::IpMulticastTtl(multicast_ttl_v4),
                ),
            ),
            final(st)@.wf(),
    {
        self.set_option(st, UdpConfigs::IpMulticastTtl(multicast_ttl_v4));
        Ok(())
    }

    pub fn multicast_ttl_v4(&self, st: &TestState) -> (r: Result<u32, Error>)
        requires
            st@.has_udp(self.addr()),
        ensures
            r == Ok::<u32, Error>(self.socket(st@).multicast_ttl()),
    {
        match self.get_option(st, UdpConfigs::IpMulticastTtl(0)) {
            Some(UdpConfigs::IpMulticastTtl(n)) => Ok(n),
            _ => Ok(1),
        }
    }

    pub fn set_multicast_loop_v6(&self, st: &mut TestState, multicast_loop_v6: bool) -> (r: Result<
        (),
        Error,
    >)
        requires
            old(st)@.wf(),
            old(st)@.has_udp(self.addr()),
        ensures
            r is Ok,
            final(st)@ == self.with_configs(
                old(st)@,
                if multicast_loop_v6 {
                    with_option(self.socket(old(st)@).configs, UdpConfigs::Ipv6MulticastLoop)
                } else {
                    without(self.socket(old(st)@).configs, UdpConfigs::Ipv6MulticastLoop)
                },
            ),
            final(st)@.wf(),
    {
        self.set_flag(st, UdpConfigs::Ipv6MulticastLoop, multicast_loop_v6);
        Ok(())
    }

    pub fn multicast_loop_v6(&self, st: &TestState) -> (r: Result<bool, Error>)
        requires
            st@.has_udp(self.addr()),
        ensures
            r == Ok::<bool, Error>(
                option_like(self.socket(st@).configs, UdpConfigs::Ipv6MulticastLoop) is Some,
            ),
    {
        Ok(self.get_option(st, UdpConfigs::Ipv6MulticastLoop).is_some())
    }

    pub fn set_ttl(&self, st: &mut TestState, ttl: u32) -> (r: Result<(), Error>)
        requires
            old(st)@.wf(),
            old(st)@.has_udp(self.addr()),
        ensures
            r is Ok,
            final(st)@ == self.with_configs(
                old(st)@,
                with_option(self.socket(old(st)@).configs, UdpConfigs::IpTtl(ttl)),
            ),
            final(st)@.wf(),
    {
        self.set_option(st, UdpConfigs::IpTtl(ttl));
        Ok(())
    }

    pub fn ttl(&self, st: &TestState) -> (r: Result<u32, Error>)
        requires
            st@.has_udp(self.addr()),
        ensures
            r == Ok::<u32, Error>(self.socket(st@).ttl()),
    {
        match self.get_option(st, UdpConfigs::IpTtl(0)) {
            Some(UdpConfigs::IpTtl(n)) => Ok(n),
            _ => Ok(64),
        }
    }

    /// Takes the error that the socket has to report, if any.
    pub fn take_error(&self, st: &mut TestState) -> (r: Result<Option<Error>, Error>)
        requires
            old(st)@.wf(),
            old(st)@.has_udp(self.addr()),
        ensures
            r is Ok,
            opt_error(r->Ok_0) == self.socket(old(st)@).error,
            final(st)@ == old(st)@.with_udp(
                old(st)@.find_udp(self.addr())->0,
                UdpView { error: None, ..self.socket(old(st)@) },
            ).woken(),
            final(st)@.wf(),
    {
        let i: usize = st.udp_place(self.bound_addr);
        let u = st.with_udp_connection(i);
        let e = u.external_error.take();
        Ok(e)
    }

    pub fn set_nonblocking(&self, st: &mut TestState, nonblocking: bool) -> (r: Result<(), Error>)
        requires
            old(st)@.wf(),
            old(st)@.has_udp(self.addr()),
        ensures
            r is Ok,
            final(st)@ == self.with_configs(
                old(st)@,
                if nonblocking {
                    with_option(self.socket(old(st)@).configs, UdpConfigs::NonBlocking)
                } else {
                    without(self.socket(old(st)@).configs, UdpConfigs::NonBlocking)
                },
            ),
            final(st)@.wf(),
    {
        self.set_flag(st, UdpConfigs::NonBlocking, nonblocking);
        Ok(())
    }

    fn is_nonblocking(&self, st: &TestState) -> (r: bool)
        requires
            st@.has_udp(self.addr()),
        ensures
            r == self.socket(st@).nonblocking(),
    {
        self.get_option(st, UdpConfigs::NonBlocking).is_some()
    }
}

/// What `r`, the buffer `filled_buf` and the state `t` are after a receive began
/// in `s` into `buf`, which fails with `message` if it may not wait.
pub open spec fn receives(
    s: StateView,
    now: Now,
    receiving: Receiving,
    message: Seq<char>,
    buf: Seq<u8>,
    r: Result<RecvStep, Error>,
    filled_buf: Seq<u8>,
    t: StateView,
) -> bool {
    let would_block = if s.udp[s.find_udp(receiving.bound_addr)->0].nonblocking() {
        Some(err(ErrorKind::WouldBlock, message))
    } else {
        None
    };
    &&& t == recv_effect(s, now, receiving)
    &&& filled_buf == recv_into(s, now, receiving, buf)
    &&& match r {
        Ok(step) => recv_outcome(s, now, receiving, buf.len(), would_block) == Ok::<RecvStep, ErrorView>(
            step,
        ),
        Err(e) => recv_outcome(s, now, receiving, buf.len(), would_block) == Err::<RecvStep, ErrorView>(
            e@,
        ),
    }
}

/// The same for a receive from the address that the socket is connected to.
pub open spec fn receives_connected(
    s: StateView,
    now: Now,
    addr: SocketAddr,
    consume: bool,
    buf: Seq<u8>,
    r: Result<RecvStep, Error>,
    filled_buf: Seq<u8>,
    t: StateView,
) -> bool {
    match s.udp[s.find_udp(addr)->0].remote {
        None => r is Err && r->Err_0@ == no_remote() && filled_buf == buf && t == s,
        Some(remote) => receives(
            s,
            now,
            Receiving { bound_addr: addr, from: Some(remote), consume },
            "no data available from connected address"@,
            buf,
            r,
            filled_buf,
            t,
        ),
    }
}

} // verus!
