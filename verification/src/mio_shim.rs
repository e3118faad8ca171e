//! A poller with the surface of mio's.
//!
//! As elsewhere, polling is a step that never waits: [`Poll::poll`] looks at
//! every registered source once and says how long to wait for the network's
//! signal before [`Poll::poll_again`].

use crate::addr::SocketAddr;
use crate::conn::{ListenerView, TcpView, UdpConfigs, UdpView};
use crate::error::Error;
use crate::policy::QuiesceMode;
use crate::net::{TcpListener, TcpStream, UdpSocket};
use crate::shim_std_udp::with_option;
use crate::state::{
    awaits, lemma_dropped_listener_queues, lemma_found_listener, lemma_listener_changed,
    lemma_listener_held, lemma_no_listener, lemma_released_keeps, opt_time, sooner, soonest_of,
    tcp_listener_status, trigger_event, udp_socket_status, Now, StateView, TcpListenerStatus,
    TcpStreamStatus, TestState, UdpSocketStatus,
};
use crate::time::{elapsed_between, Duration, Instant};
use vstd::prelude::*;

verus! {

/// What a source is known by in the events that it causes.
#[derive(Clone, Copy, Debug, PartialEq, Eq, Structural, Hash)]
pub struct Token(pub usize);

/// What a source is to be watched for.
#[derive(Clone, Copy, Debug, PartialEq, Eq, Structural, Hash)]
pub struct Interest {
    pub readable: bool,
    pub writable: bool,
}

impl Interest {
    /// To be readable.
    pub fn readable() -> (r: Interest)
        ensures
            r == (Interest { readable: true, writable: false }),
    {
        Interest { readable: true, writable: false }
    }

    /// To be writable.
    pub fn writable() -> (r: Interest)
        ensures
            r == (Interest { readable: false, writable: true }),
    {
        Interest { readable: false, writable: true }
    }

    /// To be either.
    pub fn both() -> (r: Interest)
        ensures
            r == (Interest { readable: true, writable: true }),
    {
        Interest { readable: true, writable: true }
    }
}

// ----- Events -----

/// What a source is ready for.
#[derive(Clone, Copy, Debug, PartialEq, Eq, Structural)]
pub struct Event {
    pub token: Token,
    pub is_readable: bool,
    pub is_writable: bool,
    pub is_error: bool,
    pub is_read_closed: bool,
    pub is_write_closed: bool,
    pub is_priority: bool,
    pub is_aio: bool,
    pub is_lio: bool,
}

impl Event {
    pub fn token(&self) -> (r: Token)
        ensures
            r == self.token,
    {
        self.token
    }

    pub fn is_readable(&self) -> (r: bool)
        ensures
            r == self.is_readable,
    {
        self.is_readable
    }

    pub fn is_writable(&self) -> (r: bool)
        ensures
            r == self.is_writable,
    {
        self.is_writable
    }

    pub fn is_error(&self) -> (r: bool)
        ensures
            r == self.is_error,
    {
        self.is_error
    }

    pub fn is_read_closed(&self) -> (r: bool)
        ensures
            r == self.is_read_closed,
    {
        self.is_read_closed
    }

    pub fn is_write_closed(&self) -> (r: bool)
        ensures
            r == self.is_write_closed,
    {
        self.is_write_closed
    }

    pub fn is_priority(&self) -> (r: bool)
        ensures
            r == self.is_priority,
    {
        self.is_priority
    }

    pub fn is_aio(&self) -> (r: bool)
        ensures
            r == self.is_aio,
    {
        self.is_aio
    }

    pub fn is_lio(&self) -> (r: bool)
        ensures
            r == self.is_lio,
    {
        self.is_lio
    }
}

/// Calls `Vec::capacity`, which is documented to be the number of elements that
/// the vector can hold without growing, so at least as many as it holds. What
/// more it is, is up to the allocator.
#[verifier::external_body]
fn room(v: &Vec<Event>) -> (r: usize)
    ensures
        r >= v@.len(),
{
    v.capacity()
}

/// What a poll found.
#[derive(Debug)]
pub struct Events {
    inner: Vec<Event>,
    asked: usize,
}

impl Events {
    pub closed spec fn view(&self) -> Seq<Event> {
        self.inner@
    }

    /// How many events room was made for at the start.
    pub closed spec fn asked(&self) -> nat {
        self.asked as nat
    }

    /// No events, and room for `capacity` of them.
    pub fn with_capacity(capacity: usize) -> (r: Events)
        ensures
            r@ == Seq::<Event>::empty(),
            r.asked() == capacity,
    {
        Events { inner: Vec::with_capacity(capacity), asked: capacity }
    }

    /// How many events there is room for: at least those that are held, and at
    /// least as many as room was made for at the start. Beyond that it is up to
    /// the allocator.
    pub fn capacity(&self) -> (r: usize)
        ensures
            r >= self@.len(),
            r >= self.asked(),
    {
        let r: usize = room(&self.inner);
        if r < self.asked {
            self.asked
        } else {
            r
        }
    }

    pub fn is_empty(&self) -> (r: bool)
        ensures
            r == (self@.len() == 0),
    {
        self.inner.len() == 0
    }

    pub fn clear(&mut self)
        ensures
            final(self)@ == Seq::<Event>::empty(),
            final(self).asked() == old(self).asked(),
    {
        self.inner.clear();
    }

    pub fn iter(&self) -> (r: Iter<'_>)
        ensures
            r.left() == self@,
    {
        let r = Iter { inner: self, pos: 0 };
        assert(r.left() =~= self@);
        r
    }
}

/// The events of a poll, one after the other.
#[derive(Debug)]
pub struct Iter<'a> {
    inner: &'a Events,
    pos: usize,
}

impl<'a> Clone for Iter<'a> {
    fn clone(&self) -> (r: Iter<'a>)
        ensures
            r.left() == self.left(),
    {
        proof {
            use_type_invariant(self);
        }
        Iter { inner: self.inner, pos: self.pos }
    }
}

impl<'a> Iter<'a> {
    #[verifier::type_invariant]
    spec fn in_range(self) -> bool {
        self.pos <= self.inner@.len()
    }

    /// The events that are still to come.
    pub closed spec fn left(&self) -> Seq<Event> {
        self.inner@.skip(self.pos as int)
    }

    /// The next event.
    pub fn next(&mut self) -> (r: Option<&'a Event>)
        ensures
            match r {
                Some(e) => {
                    &&& old(self).left().len() > 0
                    &&& *e == old(self).left()[0]
                    &&& final(self).left() == old(self).left().drop_first()
                },
                None => old(self).left().len() == 0 && final(self).left() == old(self).left(),
            },
    {
        proof {
            use_type_invariant(&*self);
        }
        if self.pos < self.inner.inner.len() {
            let e = &self.inner.inner[self.pos];
            self.pos = self.pos + 1;
            assert(self.left() =~= old(self).left().drop_first());
            Some(e)
        } else {
            None
        }
    }

    /// How many events are still to come, as a lower and an upper bound.
    pub fn size_hint(&self) -> (r: (usize, Option<usize>))
        ensures
            r.0 == self.left().len(),
            r.1 == Some(r.0),
    {
        proof {
            use_type_invariant(self);
        }
        let size: usize = self.inner.inner.len() - self.pos;
        (size, Some(size))
    }

    /// How many events are still to come.
    pub fn count(self) -> (r: usize)
        ensures
            r == self.left().len(),
    {
        proof {
            use_type_invariant(&self);
        }
        self.inner.inner.len() - self.pos
    }
}

// ----- The registry -----

/// A source that is watched.
#[derive(Debug)]
struct RegistryEntry<S> {
    src: S,
    token: Token,
    interest: Interest,
}

/// A source that is watched: what it is known by, and how.
pub struct EntryView<S> {
    pub src: S,
    pub token: Token,
    pub interest: Interest,
}

/// Whether a registry has a waker, and whether it has been woken.
#[derive(Clone, Copy, Debug, PartialEq, Eq, Structural)]
pub enum WakerState {
    /// There was neither a waker nor a poll yet.
    Unused,
    Idle,
    Woken,
}

/// The sources that a poller watches.
#[derive(Debug)]
pub struct Registry {
    waker_state: WakerState,
    waker_token: Token,
    listeners: Vec<RegistryEntry<TcpListener>>,
    streams: Vec<RegistryEntry<TcpStream>>,
    sockets: Vec<RegistryEntry<UdpSocket>>,
}

/// Listeners and UDP sockets are known by their addresses, streams by their
/// ends.
pub struct RegistryView {
    pub waker_state: WakerState,
    pub waker_token: Token,
    pub listeners: Seq<EntryView<SocketAddr>>,
    pub streams: Seq<EntryView<usize>>,
    pub sockets: Seq<EntryView<SocketAddr>>,
}

impl RegistryView {
    /// No stream that is watched still waits to be accepted.
    pub open spec fn fits(self, s: StateView) -> bool {
        forall|k: int|
            0 <= k < self.streams.len() ==> !awaits(s.listeners, (#[trigger] self.streams[k]).src)
    }
}

impl Registry {
    pub closed spec fn view(&self) -> RegistryView {
        RegistryView {
            waker_state: self.waker_state,
            waker_token: self.waker_token,
            listeners: self.listeners@.map_values(
                |e: RegistryEntry<TcpListener>|
                    EntryView { src: e.src.addr(), token: e.token, interest: e.interest },
            ),
            streams: self.streams@.map_values(
                |e: RegistryEntry<TcpStream>|
                    EntryView { src: e.src.id(), token: e.token, interest: e.interest },
            ),
            sockets: self.sockets@.map_values(
                |e: RegistryEntry<UdpSocket>|
                    EntryView { src: e.src.addr(), token: e.token, interest: e.interest },
            ),
        }
    }

    fn new() -> (r: Registry)
        ensures
            r@ == (RegistryView {
                waker_state: WakerState::Unused,
                waker_token: Token(0),
                listeners: Seq::empty(),
                streams: Seq::empty(),
                sockets: Seq::empty(),
            }),
    {
        let r = Registry {
            waker_state: WakerState::Unused,
            waker_token: Token(0),
            listeners: Vec::new(),
            streams: Vec::new(),
            sockets: Vec::new(),
        };
        assert(r@.listeners =~= Seq::empty());
        assert(r@.streams =~= Seq::empty());
        assert(r@.sockets =~= Seq::empty());
        r
    }

    /// Watches a source.
    pub fn register<S: Source>(
        &mut self,
        st: &mut TestState,
        source: &mut S,
        token: Token,
        interests: Interest,
    ) -> (r: Result<(), Error>)
        requires
            old(st)@.wf(),
            old(self)@.fits(old(st)@),
            old(source).can_register(old(st)@),
        ensures
            S::registers(
                *old(source),
                *final(source),
                old(self)@,
                final(self)@,
                old(st)@,
                final(st)@,
                token,
                interests,
                r,
            ),
            final(st)@.wf(),
            final(self)@.fits(final(st)@),
    {
        source.register(self, st, token, interests)
    }

    /// Watches a source in another way.
    pub fn reregister<S: Source>(
        &mut self,
        st: &mut TestState,
        now: Now,
        source: &mut S,
        token: Token,
        interests: Interest,
    ) -> (r: Result<(), Error>)
        requires
            old(st)@.wf(),
            old(self)@.fits(old(st)@),
            old(source).can_reregister(old(self)@, old(st)@, now),
        ensures
            S::reregisters(
                *old(source),
                *final(source),
                old(self)@,
                final(self)@,
                old(st)@,
                final(st)@,
                now,
                token,
                interests,
                r,
            ),
            final(st)@.wf(),
            final(self)@.fits(final(st)@),
    {
        source.reregister(self, st, now, token, interests)
    }

    /// Watches a source no longer.
    pub fn deregister<S: Source>(&mut self, st: &mut TestState, now: Now, source: &mut S) -> (r: Result<
        (),
        Error,
    >)
        requires
            old(st)@.wf(),
            old(self)@.fits(old(st)@),
            old(source).can_deregister(old(st)@),
        ensures
            S::deregisters(
                *old(source),
                *final(source),
                old(self)@,
                final(self)@,
                old(st)@,
                final(st)@,
                now,
                r,
            ),
            final(st)@.wf(),
            final(self)@.fits(final(st)@),
    {
        source.deregister(self, st, now)
    }
}

/// Something that a poller can watch. What each operation does, an
/// implementation says of itself.
pub trait Source: Sized {
    /// The source can be watched.
    spec fn can_register(&self, s: StateView) -> bool;

    /// The source can be watched in another way.
    spec fn can_reregister(&self, r: RegistryView, s: StateView, now: Now) -> bool;

    /// The source can be let go.
    spec fn can_deregister(&self, s: StateView) -> bool;

    /// What registering comes to.
    spec fn registers(
        old_self: Self,
        new_self: Self,
        r: RegistryView,
        r2: RegistryView,
        s: StateView,
        s2: StateView,
        token: Token,
        interests: Interest,
        result: Result<(), Error>,
    ) -> bool;

    /// What registering in another way comes to.
    spec fn reregisters(
        old_self: Self,
        new_self: Self,
        r: RegistryView,
        r2: RegistryView,
        s: StateView,
        s2: StateView,
        now: Now,
        token: Token,
        interests: Interest,
        result: Result<(), Error>,
    ) -> bool;

    /// What deregistering comes to.
    spec fn deregisters(
        old_self: Self,
        new_self: Self,
        r: RegistryView,
        r2: RegistryView,
        s: StateView,
        s2: StateView,
        now: Now,
        result: Result<(), Error>,
    ) -> bool;

    fn register(
        &mut self,
        registry: &mut Registry,
        st: &mut TestState,
        token: Token,
        interests: Interest,
    ) -> (r: Result<(), Error>)
        requires
            old(st)@.wf(),
            old(registry)@.fits(old(st)@),
            old(self).can_register(old(st)@),
        ensures
            Self::registers(
                *old(self),
                *final(self),
                old(registry)@,
                final(registry)@,
                old(st)@,
                final(st)@,
                token,
                interests,
                r,
            ),
            final(st)@.wf(),
            final(registry)@.fits(final(st)@),
    ;

    fn reregister(
        &mut self,
        registry: &mut Registry,
        st: &mut TestState,
        now: Now,
        token: Token,
        interests: Interest,
    ) -> (r: Result<(), Error>)
        requires
            old(st)@.wf(),
            old(registry)@.fits(old(st)@),
            old(self).can_reregister(old(registry)@, old(st)@, now),
        ensures
            Self::reregisters(
                *old(self),
                *final(self),
                old(registry)@,
                final(registry)@,
                old(st)@,
                final(st)@,
                now,
                token,
                interests,
                r,
            ),
            final(st)@.wf(),
            final(registry)@.fits(final(st)@),
    ;

    fn deregister(&mut self, registry: &mut Registry, st: &mut TestState, now: Now) -> (r: Result<
        (),
        Error,
    >)
        requires
            old(st)@.wf(),
            old(registry)@.fits(old(st)@),
            old(self).can_deregister(old(st)@),
        ensures
            Self::deregisters(
                *old(self),
                *final(self),
                old(registry)@,
                final(registry)@,
                old(st)@,
                final(st)@,
                now,
                r,
            ),
            final(st)@.wf(),
            final(registry)@.fits(final(st)@),
    ;
}

// ----- Sources of this crate -----

/// The first entry, at or behind `from`, for `addr`.
pub open spec fn first_entry(entries: Seq<EntryView<SocketAddr>>, addr: SocketAddr, from: int) -> Option<
    int,
>
    decreases entries.len() - from,
{
    if from < 0 || from >= entries.len() {
        None
    } else if entries[from].src == addr {
        Some(from)
    } else {
        first_entry(entries, addr, from + 1)
    }
}

/// The first entry, at or behind `from`, for the end `id`.
pub open spec fn first_stream_entry(entries: Seq<EntryView<usize>>, id: usize, from: int) -> Option<
    int,
>
    decreases entries.len() - from,
{
    if from < 0 || from >= entries.len() {
        None
    } else if entries[from].src == id {
        Some(from)
    } else {
        first_stream_entry(entries, id, from + 1)
    }
}

impl RegistryView {
    pub open spec fn with_listener(self, addr: SocketAddr, token: Token, interest: Interest) -> RegistryView {
        RegistryView {
            listeners: self.listeners.push(EntryView { src: addr, token, interest }),
            ..self
        }
    }

    pub open spec fn with_stream(self, id: usize, token: Token, interest: Interest) -> RegistryView {
        RegistryView {
            streams: self.streams.push(EntryView { src: id, token, interest }),
            ..self
        }
    }

    pub open spec fn with_socket(self, addr: SocketAddr, token: Token, interest: Interest) -> RegistryView {
        RegistryView {
            sockets: self.sockets.push(EntryView { src: addr, token, interest }),
            ..self
        }
    }

    pub open spec fn without_listener(self, addr: SocketAddr) -> RegistryView {
        match first_entry(self.listeners, addr, 0) {
            Some(k) => RegistryView { listeners: self.listeners.remove(k), ..self },
            None => self,
        }
    }

    pub open spec fn without_stream(self, id: usize) -> RegistryView {
        match first_stream_entry(self.streams, id, 0) {
            Some(k) => RegistryView { streams: self.streams.remove(k), ..self },
            None => self,
        }
    }

    pub open spec fn without_socket(self, addr: SocketAddr) -> RegistryView {
        match first_entry(self.sockets, addr, 0) {
            Some(k) => RegistryView { sockets: self.sockets.remove(k), ..self },
            None => self,
        }
    }
}

/// The state after a listener was registered: the registry holds a handle of
/// its own.
pub open spec fn listener_registered(s: StateView, addr: SocketAddr) -> StateView {
    let i = s.find_listener(addr)->0;
    let l = s.listeners[i];
    s.with_listener(i, ListenerView { refs: (l.refs + 1) as usize, ..l })
}

/// The state after it was deregistered.
pub open spec fn listener_deregistered(r: RegistryView, s: StateView, addr: SocketAddr) -> StateView {
    match first_entry(r.listeners, addr, 0) {
        Some(_) => s.with_listener_dropped(addr),
        None => s,
    }
}

/// The state after a stream was registered: the registry holds a handle of its
/// own, and the stream no longer blocks, as a poller's sources never do.
pub open spec fn stream_registered(s: StateView, id: usize) -> StateView {
    let c = s.conn(id);
    s.with_conn(
        id,
        TcpView { nonblocking: true, refs: (c.refs + 1) as usize, ..c },
    ).woken().woken()
}

/// The state after the stream was deregistered.
pub open spec fn stream_deregistered(
    r: RegistryView,
    s: StateView,
    now: Now,
    id: usize,
) -> StateView {
    match first_stream_entry(r.streams, id, 0) {
        Some(_) => s.with_stream_dropped(now, id),
        None => s,
    }
}

impl Source for TcpListener {
    open spec fn can_register(&self, s: StateView) -> bool {
        s.has_listener(self.addr()) && s.listeners[s.find_listener(self.addr())->0].refs
            < usize::MAX
    }

    open spec fn can_reregister(&self, r: RegistryView, s: StateView, now: Now) -> bool {
        self.can_register(listener_deregistered(r, s, self.addr()))
    }

    open spec fn can_deregister(&self, s: StateView) -> bool {
        true
    }

    open spec fn registers(
        old_self: TcpListener,
        new_self: TcpListener,
        r: RegistryView,
        r2: RegistryView,
        s: StateView,
        s2: StateView,
        token: Token,
        interests: Interest,
        result: Result<(), Error>,
    ) -> bool {
        &&& result is Ok
        &&& new_self.addr() == old_self.addr()
        &&& r2 == r.with_listener(old_self.addr(), token, interests)
        &&& s2 == listener_registered(s, old_self.addr())
    }

    open spec fn reregisters(
        old_self: TcpListener,
        new_self: TcpListener,
        r: RegistryView,
        r2: RegistryView,
        s: StateView,
        s2: StateView,
        now: Now,
        token: Token,
        interests: Interest,
        result: Result<(), Error>,
    ) -> bool {
        let addr = old_self.addr();
        &&& result is Ok
        &&& new_self.addr() == addr
        &&& r2 == r.without_listener(addr).with_listener(addr, token, interests)
        &&& s2 == listener_registered(listener_deregistered(r, s, addr), addr)
    }

    open spec fn deregisters(
        old_self: TcpListener,
        new_self: TcpListener,
        r: RegistryView,
        r2: RegistryView,
        s: StateView,
        s2: StateView,
        now: Now,
        result: Result<(), Error>,
    ) -> bool {
        &&& result is Ok
        &&& new_self.addr() == old_self.addr()
        &&& r2 == r.without_listener(old_self.addr())
        &&& s2 == listener_deregistered(r, s, old_self.addr())
    }

    fn register(
        &mut self,
        registry: &mut Registry,
        st: &mut TestState,
        token: Token,
        interests: Interest,
    ) -> (r: Result<(), Error>) {
        match self.try_clone(st) {
            Ok(src) => {
                registry.listeners.push(RegistryEntry { src, token, interest: interests });
                assert(registry@.listeners =~= old(registry)@.with_listener(
                    self.addr(),
                    token,
                    interests,
                ).listeners);
                proof {
                    let s = old(st)@;
                    if s.find_listener(self.addr()) is None {
                        lemma_no_listener(s.listeners, self.addr(), 0);
                    }
                    lemma_found_listener(s.listeners, self.addr(), 0);
                    lemma_listener_held(s, s.find_listener(self.addr())->0);
                    lemma_listener_changed(
                        s,
                        s.find_listener(self.addr())->0,
                        st@.listeners[s.find_listener(self.addr())->0],
                    );
                    assert(registry@.streams == old(registry)@.streams);
                }
                Ok(())
            },
            Err(e) => Err(e),
        }
    }

    fn reregister(
        &mut self,
        registry: &mut Registry,
        st: &mut TestState,
        now: Now,
        token: Token,
        interests: Interest,
    ) -> (r: Result<(), Error>) {
        match self.deregister(registry, st, now) {
            Ok(_) => self.register(registry, st, token, interests),
            Err(e) => Err(e),
        }
    }

    fn deregister(&mut self, registry: &mut Registry, st: &mut TestState, now: Now) -> (r: Result<
        (),
        Error,
    >) {
        let ghost entries = registry@.listeners;
        let mut k: usize = 0;
        while k < registry.listeners.len()
            invariant
                k <= registry.listeners@.len(),
                *registry == *old(registry),
                entries == registry@.listeners,
                entries.len() == registry.listeners@.len(),
                first_entry(entries, self.addr(), 0) == first_entry(
                    entries,
                    self.addr(),
                    k as int,
                ),
                st@ == old(st)@,
                st@.wf(),
                registry@.fits(st@),
                self.addr() == old(self).addr(),
            decreases registry.listeners@.len() - k,
        {
            assert(entries[k as int].src == registry.listeners@[k as int].src.addr());
            if registry.listeners[k].src.is_at(self) {
                let gone = registry.listeners.remove(k);
                assert(registry@.listeners =~= entries.remove(k as int));
                gone.src.close(st);
                proof {
                    lemma_found_listener(old(st)@.listeners, self.addr(), 0);
                    assert(registry@.streams == old(registry)@.streams);
                    assert forall|j: int| 0 <= j < registry@.streams.len() implies !awaits(
                        st@.listeners,
                        (#[trigger] registry@.streams[j]).src,
                    ) by {
                        if awaits(st@.listeners, registry@.streams[j].src) {
                            lemma_dropped_listener_queues(
                                old(st)@,
                                self.addr(),
                                registry@.streams[j].src,
                            );
                        }
                    }
                }
                return Ok(());
            }
            k += 1;
        }
        Ok(())
    }
}

impl Source for TcpStream {
    open spec fn can_register(&self, s: StateView) -> bool {
        s.usable(self.id()) && s.conn(self.id()).refs < usize::MAX
    }

    open spec fn can_reregister(&self, r: RegistryView, s: StateView, now: Now) -> bool {
        s.usable(self.id()) && self.can_register(
            stream_deregistered(r, s, now, self.id()),
        )
    }

    open spec fn can_deregister(&self, s: StateView) -> bool {
        s.usable(self.id())
    }

    open spec fn registers(
        old_self: TcpStream,
        new_self: TcpStream,
        r: RegistryView,
        r2: RegistryView,
        s: StateView,
        s2: StateView,
        token: Token,
        interests: Interest,
        result: Result<(), Error>,
    ) -> bool {
        &&& result is Ok
        &&& new_self.id() == old_self.id()
        &&& r2 == r.with_stream(old_self.id(), token, interests)
        &&& s2 == stream_registered(s, old_self.id())
    }

    open spec fn reregisters(
        old_self: TcpStream,
        new_self: TcpStream,
        r: RegistryView,
        r2: RegistryView,
        s: StateView,
        s2: StateView,
        now: Now,
        token: Token,
        interests: Interest,
        result: Result<(), Error>,
    ) -> bool {
        let id = old_self.id();
        &&& result is Ok
        &&& new_self.id() == id
        &&& r2 == r.without_stream(id).with_stream(id, token, interests)
        &&& s2 == stream_registered(stream_deregistered(r, s, now, id), id)
    }

    open spec fn deregisters(
        old_self: TcpStream,
        new_self: TcpStream,
        r: RegistryView,
        r2: RegistryView,
        s: StateView,
        s2: StateView,
        now: Now,
        result: Result<(), Error>,
    ) -> bool {
        let id = old_self.id();
        &&& result is Ok
        &&& new_self.id() == id
        &&& r2 == r.without_stream(id)
        &&& s2 == stream_deregistered(r, s, now, id)
    }

    fn register(
        &mut self,
        registry: &mut Registry,
        st: &mut TestState,
        token: Token,
        interests: Interest,
    ) -> (r: Result<(), Error>) {
        let ghost s = st@;
        match self.set_nonblocking(st, true) {
            Ok(_) => {},
            Err(e) => return Err(e),
        }
        match self.try_clone(st) {
            Ok(src) => {
                registry.streams.push(RegistryEntry { src, token, interest: interests });
                assert(registry@.streams =~= old(registry)@.with_stream(
                    self.id(),
                    token,
                    interests,
                ).streams);
                assert(st@.tcp =~= stream_registered(s, self.id()).tcp);
                Ok(())
            },
            Err(e) => Err(e),
        }
    }

    fn reregister(
        &mut self,
        registry: &mut Registry,
        st: &mut TestState,
        now: Now,
        token: Token,
        interests: Interest,
    ) -> (r: Result<(), Error>) {
        match self.deregister(registry, st, now) {
            Ok(_) => self.register(registry, st, token, interests),
            Err(e) => Err(e),
        }
    }

    fn deregister(&mut self, registry: &mut Registry, st: &mut TestState, now: Now) -> (r: Result<
        (),
        Error,
    >) {
        let ghost entries = registry@.streams;
        let mut k: usize = 0;
        while k < registry.streams.len()
            invariant
                k <= registry.streams@.len(),
                *registry == *old(registry),
                entries == registry@.streams,
                entries.len() == registry.streams@.len(),
                first_stream_entry(entries, self.id(), 0) == first_stream_entry(
                    entries,
                    self.id(),
                    k as int,
                ),
                st@ == old(st)@,
                st@.wf(),
                st@.usable(self.id()),
                registry@.fits(st@),
                self.id() == old(self).id(),
            decreases registry.streams@.len() - k,
        {
            assert(entries[k as int].src == registry.streams@[k as int].src.id());
            if registry.streams[k].src.is_same(self) {
                let gone = registry.streams.remove(k);
                assert(registry@.streams =~= entries.remove(k as int));
                gone.src.close(st, now);
                return Ok(());
            }
            k += 1;
        }
        Ok(())
    }
}

/// The state after a UDP socket was registered: it no longer blocks.
pub open spec fn socket_registered(s: StateView, addr: SocketAddr) -> StateView {
    let i = s.find_udp(addr)->0;
    let u = s.udp[i];
    s.with_udp(
        i,
        UdpView { configs: with_option(u.configs, UdpConfigs::NonBlocking), ..u },
    )
}

impl Source for UdpSocket {
    open spec fn can_register(&self, s: StateView) -> bool {
        s.has_udp(self.addr())
    }

    open spec fn can_reregister(&self, r: RegistryView, s: StateView, now: Now) -> bool {
        s.has_udp(self.addr())
    }

    open spec fn can_deregister(&self, s: StateView) -> bool {
        true
    }

    open spec fn registers(
        old_self: UdpSocket,
        new_self: UdpSocket,
        r: RegistryView,
        r2: RegistryView,
        s: StateView,
        s2: StateView,
        token: Token,
        interests: Interest,
        result: Result<(), Error>,
    ) -> bool {
        &&& result is Ok
        &&& new_self.addr() == old_self.addr()
        &&& r2 == r.with_socket(old_self.addr(), token, interests)
        &&& s2 == socket_registered(s, old_self.addr())
    }

    open spec fn reregisters(
        old_self: UdpSocket,
        new_self: UdpSocket,
        r: RegistryView,
        r2: RegistryView,
        s: StateView,
        s2: StateView,
        now: Now,
        token: Token,
        interests: Interest,
        result: Result<(), Error>,
    ) -> bool {
        let addr = old_self.addr();
        &&& result is Ok
        &&& new_self.addr() == addr
        &&& r2 == r.without_socket(addr).with_socket(addr, token, interests)
        &&& s2 == socket_registered(s, addr)
    }

    open spec fn deregisters(
        old_self: UdpSocket,
        new_self: UdpSocket,
        r: RegistryView,
        r2: RegistryView,
        s: StateView,
        s2: StateView,
        now: Now,
        result: Result<(), Error>,
    ) -> bool {
        &&& result is Ok
        &&& new_self.addr() == old_self.addr()
        &&& r2 == r.without_socket(old_self.addr())
        &&& s2 == s
    }

    fn register(
        &mut self,
        registry: &mut Registry,
        st: &mut TestState,
        token: Token,
        interests: Interest,
    ) -> (r: Result<(), Error>) {
        match self.set_nonblocking(st, true) {
            Ok(_) => {},
            Err(e) => return Err(e),
        }
        match self.try_clone() {
            Ok(src) => {
                registry.sockets.push(RegistryEntry { src, token, interest: interests });
                assert(registry@.sockets =~= old(registry)@.with_socket(
                    self.addr(),
                    token,
                    interests,
                ).sockets);
                assert(registry@.streams == old(registry)@.streams);
                Ok(())
            },
            Err(e) => Err(e),
        }
    }

    fn reregister(
        &mut self,
        registry: &mut Registry,
        st: &mut TestState,
        now: Now,
        token: Token,
        interests: Interest,
    ) -> (r: Result<(), Error>) {
        match self.deregister(registry, st, now) {
            Ok(_) => self.register(registry, st, token, interests),
            Err(e) => Err(e),
        }
    }

    fn deregister(&mut self, registry: &mut Registry, st: &mut TestState, now: Now) -> (r: Result<
        (),
        Error,
    >) {
        let ghost entries = registry@.sockets;
        let mut k: usize = 0;
        while k < registry.sockets.len()
            invariant
                k <= registry.sockets@.len(),
                *registry == *old(registry),
                entries == registry@.sockets,
                entries.len() == registry.sockets@.len(),
                first_entry(entries, self.addr(), 0) == first_entry(
                    entries,
                    self.addr(),
                    k as int,
                ),
                st@ == old(st)@,
                st@.wf(),
                registry@.fits(st@),
                self.addr() == old(self).addr(),
            decreases registry.sockets@.len() - k,
        {
            assert(entries[k as int].src == registry.sockets@[k as int].src.addr());
            if registry.sockets[k].src.is_at(self) {
                registry.sockets.remove(k);
                assert(registry@.sockets =~= entries.remove(k as int));
                assert(registry@.streams == old(registry)@.streams);
                return Ok(());
            }
            k += 1;
        }
        Ok(())
    }
}

impl TcpListener {
    /// A listener that a poller can drive: it never blocks.
    pub fn from_std(listener: TcpListener, st: &mut TestState) -> (r: TcpListener)
        requires
            old(st)@.wf(),
            old(st)@.has_listener(listener.addr()),
        ensures
            r == listener,
            ({
                let i = old(st)@.find_listener(listener.addr())->0;
                final(st)@ == old(st)@.with_listener(
                    i,
                    ListenerView { nonblocking: true, ..old(st)@.listeners[i] },
                )
            }),
            final(st)@.wf(),
    {
        let _ = listener.set_nonblocking(st, true);
        listener
    }
}

impl TcpStream {
    /// A stream that a poller can drive: it never blocks.
    pub fn from_std(stream: TcpStream, st: &mut TestState) -> (r: TcpStream)
        requires
            old(st)@.wf(),
            old(st)@.usable(stream.id()),
        ensures
            r == stream,
            final(st)@ == old(st)@.with_conn(
                stream.id(),
                TcpView { nonblocking: true, ..old(st)@.conn(stream.id()) },
            ).woken(),
            final(st)@.wf(),
    {
        let _ = stream.set_nonblocking(st, true);
        stream
    }
}

impl UdpSocket {
    /// A socket that a poller can drive: it never blocks.
    pub fn from_std(socket: UdpSocket, st: &mut TestState) -> (r: UdpSocket)
        requires
            old(st)@.wf(),
            old(st)@.has_udp(socket.addr()),
        ensures
            r == socket,
            final(st)@ == socket_registered(old(st)@, socket.addr()),
            final(st)@.wf(),
    {
        let _ = socket.set_nonblocking(st, true);
        socket
    }
}

// ----- Wakers -----

/// A way to end a poll from elsewhere.
#[derive(Debug)]
pub struct Waker {
    token: Token,
}

impl Waker {
    /// Gives the registry its one waker.
    pub fn new(registry: &mut Registry, token: Token) -> (r: Result<Waker, Error>)
        requires
            old(registry)@.waker_state == WakerState::Unused,
        ensures
            r is Ok,
            final(registry)@ == (RegistryView {
                waker_state: WakerState::Idle,
                waker_token: token,
                ..old(registry)@
            }),
    {
        registry.waker_state = WakerState::Idle;
        registry.waker_token = token;
        Ok(Waker { token })
    }

    /// Makes the next poll report the waker's token, and wakes those who wait.
    pub fn wake(&self, registry: &mut Registry, st: &mut TestState) -> (r: Result<(), Error>)
        ensures
            r is Ok,
            final(registry)@ == (RegistryView {
                waker_state: WakerState::Woken,
                ..old(registry)@
            }),
            final(st)@ == old(st)@.woken(),
    {
        registry.waker_state = WakerState::Woken;
        trigger_event(st);
        Ok(())
    }
}

// ----- Polling -----

/// An event of a source, where only its readiness is known.
pub open spec fn event_of(
    token: Token,
    readable: bool,
    writable: bool,
    error: bool,
    read_closed: bool,
    write_closed: bool,
) -> Event {
    Event {
        token,
        is_readable: readable,
        is_writable: writable,
        is_error: error,
        is_read_closed: read_closed,
        is_write_closed: write_closed,
        is_priority: false,
        is_aio: false,
        is_lio: false,
    }
}

/// An event says something.
pub open spec fn tells(e: Event) -> bool {
    e.is_readable || e.is_writable || e.is_error || e.is_read_closed || e.is_write_closed
}

pub open spec fn listener_event(token: Token, i: Interest, s: TcpListenerStatus) -> Event {
    event_of(token, i.readable && s.pending, false, s.error, s.closed && i.readable, false)
}

pub open spec fn stream_event(token: Token, i: Interest, s: TcpStreamStatus) -> Event {
    event_of(
        token,
        i.readable && s.readable,
        i.writable && s.writable,
        s.error,
        s.read_closed && i.readable,
        s.write_closed && i.writable,
    )
}

pub open spec fn socket_event(token: Token, i: Interest, s: UdpSocketStatus) -> Event {
    event_of(
        token,
        i.readable && s.readable,
        i.writable && s.writable,
        s.error,
        s.closed && i.readable,
        s.closed && i.writable,
    )
}

/// `events` and `e`, if it says something.
pub open spec fn with_event(events: Seq<Event>, e: Event) -> Seq<Event> {
    if tells(e) {
        events.push(e)
    } else {
        events
    }
}

/// The events of a woken waker.
pub open spec fn waker_events(r: RegistryView) -> Seq<Event> {
    if r.waker_state == WakerState::Woken {
        seq![event_of(r.waker_token, true, true, false, false, false)]
    } else {
        Seq::empty()
    }
}

/// `events` and those of the first `n` listeners.
pub open spec fn listener_events(
    s: StateView,
    entries: Seq<EntryView<SocketAddr>>,
    n: int,
    events: Seq<Event>,
) -> Seq<Event>
    decreases n,
{
    if n <= 0 {
        events
    } else {
        let before = listener_events(s, entries, n - 1, events);
        let e = entries[n - 1];
        match s.listener_status(e.src) {
            Some(status) => with_event(before, listener_event(e.token, e.interest, status)),
            None => before,
        }
    }
}

/// The state after the first `n` streams have been looked at, `events` and
/// theirs.
pub open spec fn stream_events(
    s: StateView,
    now: nat,
    entries: Seq<EntryView<usize>>,
    n: int,
    events: Seq<Event>,
) -> (StateView, Seq<Event>)
    decreases n,
{
    if n <= 0 {
        (s, events)
    } else {
        let (t, before) = stream_events(s, now, entries, n - 1, events);
        let e = entries[n - 1];
        let u = t.with_stream_looked_at(now, e.src);
        match u.stream_status(now, e.src) {
            Some(status) => (u, with_event(before, stream_event(e.token, e.interest, status))),
            None => (u, before),
        }
    }
}

/// The same for the first `n` UDP sockets.
pub open spec fn socket_events(
    s: StateView,
    now: nat,
    entries: Seq<EntryView<SocketAddr>>,
    n: int,
    events: Seq<Event>,
) -> (StateView, Seq<Event>)
    decreases n,
{
    if n <= 0 {
        (s, events)
    } else {
        let (t, before) = socket_events(s, now, entries, n - 1, events);
        let e = entries[n - 1];
        let u = t.with_socket_looked_at(now, e.src);
        match u.socket_status(now, e.src) {
            Some(status) => (u, with_event(before, socket_event(e.token, e.interest, status))),
            None => (u, before),
        }
    }
}

/// The state after every source was looked at, and all events.
pub open spec fn scanned(r: RegistryView, s: StateView, now: nat) -> (StateView, Seq<Event>) {
    let e1 = listener_events(s, r.listeners, r.listeners.len() as int, waker_events(r));
    let (s2, e2) = stream_events(s, now, r.streams, r.streams.len() as int, e1);
    socket_events(s2, now, r.sockets, r.sockets.len() as int, e2)
}

/// When a poller sees something else of one of the first `n` streams by the
/// passing of time alone.
pub open spec fn streams_change(
    s: StateView,
    now: nat,
    entries: Seq<EntryView<usize>>,
    n: int,
) -> Option<nat>
    decreases n,
{
    if n <= 0 {
        None
    } else {
        sooner(streams_change(s, now, entries, n - 1), s.stream_change(now, entries[n - 1].src))
    }
}

/// The same of one of the first `n` UDP sockets.
pub open spec fn sockets_change(
    s: StateView,
    now: nat,
    entries: Seq<EntryView<SocketAddr>>,
    n: int,
) -> Option<nat>
    decreases n,
{
    if n <= 0 {
        None
    } else {
        sooner(sockets_change(s, now, entries, n - 1), s.socket_change(now, entries[n - 1].src))
    }
}

impl RegistryView {
    /// When a poller sees something else of what it watches by the passing of
    /// time alone. Listeners change by what is done to them only.
    pub open spec fn next_change(self, s: StateView, now: nat) -> Option<nat> {
        sooner(
            streams_change(s, now, self.streams, self.streams.len() as int),
            sockets_change(s, now, self.sockets, self.sockets.len() as int),
        )
    }
}

/// What a step of polling came to.
#[derive(Clone, Copy, Debug, PartialEq, Eq, Structural)]
pub enum PollStep {
    /// The poll is over.
    Done,
    /// Wait for the signal, but no longer than this, and poll again until the
    /// given time. The wait is cut short where bytes or packets arrive or a
    /// window closes: nothing else would wake a poller for it.
    Wait(Instant, Duration),
}

/// How long a poll without a timeout lasts.
pub const FOREVER_SECS: u64 = 60_000;

/// When a poll that begins at `now` is over at the latest.
pub open spec fn poll_deadline(now: Now, timeout: Option<Duration>) -> Instant {
    match timeout {
        Some(d) => now.mono.later(d),
        None => now.mono.later(Duration::of(60_000_000_000_000)),
    }
}

/// What `step`, the registry `r2`, the state `s2` and the events `found` are
/// after a step of a poll that ends at `deadline` and has found `events`.
pub open spec fn polls(
    r: RegistryView,
    r2: RegistryView,
    s: StateView,
    s2: StateView,
    now: Now,
    deadline: Instant,
    events: Seq<Event>,
    found: Seq<Event>,
    step: PollStep,
) -> bool {
    if now.mono@ >= deadline@ || events.len() > 0 {
        step == PollStep::Done && r2 == r && s2 == s && found == events
    } else {
        let (t, all) = scanned(r, s, now.mono@);
        &&& step matches PollStep::Wait(until, d)
        &&& until == deadline
        &&& d@ == match r.next_change(t, now.mono@) {
            Some(at) => if at < deadline@ {
                elapsed_between(now.mono@, at)
            } else {
                (deadline@ - now.mono@) as nat
            },
            None => (deadline@ - now.mono@) as nat,
        }
        &&& r2 == (RegistryView { waker_state: WakerState::Idle, ..r })
        &&& s2 == t
        &&& found == all
    }
}

/// A poller.
#[derive(Debug)]
pub struct Poll {
    registry: Registry,
}

impl Poll {
    /// What the poller watches.
    pub closed spec fn view(&self) -> RegistryView {
        self.registry@
    }

    pub fn new() -> (r: Result<Poll, Error>)
        ensures
            r is Ok,
            r->Ok_0@ == (RegistryView {
                waker_state: WakerState::Unused,
                waker_token: Token(0),
                listeners: Seq::empty(),
                streams: Seq::empty(),
                sockets: Seq::empty(),
            }),
    {
        Ok(Poll { registry: Registry::new() })
    }

    /// What the poller watches.
    pub fn registry(&mut self) -> (r: &mut Registry)
        ensures
            r@ == old(self)@,
            final(r)@ == final(self)@,
    {
        &mut self.registry
    }

    /// Begins to poll: looks at every source once, unless there is no time.
    pub fn poll(
        &mut self,
        st: &mut TestState,
        now: Now,
        events: &mut Events,
        timeout: Option<Duration>,
    ) -> (r: PollStep)
        requires
            old(st)@.wf(),
            old(self)@.fits(old(st)@),
        ensures
            polls(
                old(self)@,
                final(self)@,
                old(st)@,
                final(st)@,
                now,
                poll_deadline(now, timeout),
                Seq::empty(),
                final(events)@,
                r,
            ),
            final(st)@.wf(),
            final(self)@.fits(final(st)@),
            final(events).asked() == old(events).asked(),
    {
        events.clear();
        let deadline: Instant = match timeout {
            Some(d) => now.mono.saturating_add(d),
            None => {
                let d = Duration::from_secs(FOREVER_SECS);
                proof {
                    Duration::lemma_of(60_000_000_000_000);
                    Duration::lemma_ext(d, Duration::of(60_000_000_000_000));
                }
                now.mono.saturating_add(d)
            },
        };
        self.poll_again(st, now, events, deadline)
    }

    /// Goes on polling: ends if there are events or no time is left, and looks
    /// at every source once more if not.
    pub fn poll_again(
        &mut self,
        st: &mut TestState,
        now: Now,
        events: &mut Events,
        deadline: Instant,
    ) -> (r: PollStep)
        requires
            old(st)@.wf(),
            old(self)@.fits(old(st)@),
        ensures
            polls(
                old(self)@,
                final(self)@,
                old(st)@,
                final(st)@,
                now,
                deadline,
                old(events)@,
                final(events)@,
                r,
            ),
            final(st)@.wf(),
            final(self)@.fits(final(st)@),
            final(events).asked() == old(events).asked(),
    {
        if now.mono >= deadline || !events.is_empty() {
            return PollStep::Done;
        }
        let ghost r0 = self.registry@;
        if self.registry.waker_state == WakerState::Woken {
            events.inner.push(
                Event {
                    token: self.registry.waker_token,
                    is_readable: true,
                    is_writable: true,
                    is_error: false,
                    is_read_closed: false,
                    is_write_closed: false,
                    is_priority: false,
                    is_aio: false,
                    is_lio: false,
                },
            );
        }
        assert(events@ =~= waker_events(r0));
        self.registry.waker_state = WakerState::Idle;
        assert(self@.streams == r0.streams);
        self.look_at_listeners(st, events);
        self.look_at_streams(st, now, events);
        self.look_at_sockets(st, now, events);
        let until: Instant = match self.next_change(st, now) {
            Some(at) => if at < deadline {
                at
            } else {
                deadline
            },
            None => deadline,
        };
        PollStep::Wait(deadline, until.saturating_duration_since(now.mono))
    }

    fn next_change(&self, st: &TestState, now: Now) -> (r: Option<Instant>)
        ensures
            opt_time(r) == self@.next_change(st@, now.mono@),
    {
        let mut t: Option<Instant> = None;
        let mut k: usize = 0;
        while k < self.registry.streams.len()
            invariant
                k <= self.registry.streams@.len(),
                opt_time(t) == streams_change(st@, now.mono@, self@.streams, k as int),
            decreases self.registry.streams@.len() - k,
        {
            assert(self@.streams[k as int].src == self.registry.streams@[k as int].src.id());
            t = soonest_of(t, self.registry.streams[k].src.next_change(st, now));
            k += 1;
        }
        let mut u: Option<Instant> = None;
        let mut j: usize = 0;
        while j < self.registry.sockets.len()
            invariant
                j <= self.registry.sockets@.len(),
                opt_time(u) == sockets_change(st@, now.mono@, self@.sockets, j as int),
            decreases self.registry.sockets@.len() - j,
        {
            assert(self@.sockets[j as int].src == self.registry.sockets@[j as int].src.addr());
            u = soonest_of(u, self.registry.sockets[j].src.next_change(st, now));
            j += 1;
        }
        soonest_of(t, u)
    }

    fn look_at_listeners(&self, st: &TestState, events: &mut Events)
        ensures
            final(events)@ == listener_events(
                st@,
                self@.listeners,
                self@.listeners.len() as int,
                old(events)@,
            ),
            final(events).asked() == old(events).asked(),
    {
        let ghost entries = self@.listeners;
        let mut k: usize = 0;
        while k < self.registry.listeners.len()
            invariant
                k <= self.registry.listeners@.len(),
                entries == self@.listeners,
                entries.len() == self.registry.listeners@.len(),
                events@ == listener_events(st@, entries, k as int, old(events)@),
                events.asked() == old(events).asked(),
            decreases self.registry.listeners@.len() - k,
        {
            let entry = &self.registry.listeners[k];
            assert(entries[k as int] == (EntryView {
                src: entry.src.addr(),
                token: entry.token,
                interest: entry.interest,
            }));
            match entry.src.local_addr() {
                Ok(addr) => match tcp_listener_status(st, addr) {
                    Some(status) => {
                        let is_readable = entry.interest.readable && status.pending;
                        let is_error = status.error;
                        let is_read_closed = status.closed && entry.interest.readable;
                        if is_readable || is_error || is_read_closed {
                            events.inner.push(
                                Event {
                                    token: entry.token,
                                    is_readable,
                                    is_writable: false,
                                    is_error,
                                    is_read_closed,
                                    is_write_closed: false,
                                    is_priority: false,
                                    is_aio: false,
                                    is_lio: false,
                                },
                            );
                        }
                    },
                    None => {},
                },
                Err(_) => {},
            }
            k += 1;
        }
    }

    fn look_at_streams(&self, st: &mut TestState, now: Now, events: &mut Events)
        requires
            old(st)@.wf(),
            self@.fits(old(st)@),
        ensures
            (final(st)@, final(events)@) == stream_events(
                old(st)@,
                now.mono@,
                self@.streams,
                self@.streams.len() as int,
                old(events)@,
            ),
            final(st)@.wf(),
            final(st)@.listeners == old(st)@.listeners,
            final(events).asked() == old(events).asked(),
    {
        let ghost entries = self@.streams;
        let mut k: usize = 0;
        while k < self.registry.streams.len()
            invariant
                k <= self.registry.streams@.len(),
                entries == self@.streams,
                entries.len() == self.registry.streams@.len(),
                (st@, events@) == stream_events(
                    old(st)@,
                    now.mono@,
                    entries,
                    k as int,
                    old(events)@,
                ),
                st@.wf(),
                st@.listeners == old(st)@.listeners,
                self@.fits(old(st)@),
                events.asked() == old(events).asked(),
            decreases self.registry.streams@.len() - k,
        {
            let entry = &self.registry.streams[k];
            assert(entries[k as int] == (EntryView {
                src: entry.src.id(),
                token: entry.token,
                interest: entry.interest,
            }));
            match entry.src.status(st, now) {
                Some(status) => {
                    let is_readable = entry.interest.readable && status.readable;
                    let is_writable = entry.interest.writable && status.writable;
                    let is_error = status.error;
                    let is_read_closed = status.read_closed && entry.interest.readable;
                    let is_write_closed = status.write_closed && entry.interest.writable;
                    if is_readable || is_writable || is_error || is_read_closed || is_write_closed {
                        events.inner.push(
                            Event {
                                token: entry.token,
                                is_readable,
                                is_writable,
                                is_error,
                                is_read_closed,
                                is_write_closed,
                                is_priority: false,
                                is_aio: false,
                                is_lio: false,
                            },
                        );
                    }
                },
                None => {},
            }
            k += 1;
        }
    }

    fn look_at_sockets(&self, st: &mut TestState, now: Now, events: &mut Events)
        requires
            old(st)@.wf(),
        ensures
            (final(st)@, final(events)@) == socket_events(
                old(st)@,
                now.mono@,
                self@.sockets,
                self@.sockets.len() as int,
                old(events)@,
            ),
            final(st)@.wf(),
            final(st)@.listeners == old(st)@.listeners,
            final(events).asked() == old(events).asked(),
    {
        let ghost entries = self@.sockets;
        let mut k: usize = 0;
        while k < self.registry.sockets.len()
            invariant
                k <= self.registry.sockets@.len(),
                entries == self@.sockets,
                entries.len() == self.registry.sockets@.len(),
                (st@, events@) == socket_events(
                    old(st)@,
                    now.mono@,
                    entries,
                    k as int,
                    old(events)@,
                ),
                st@.wf(),
                st@.listeners == old(st)@.listeners,
                events.asked() == old(events).asked(),
            decreases self.registry.sockets@.len() - k,
        {
            let entry = &self.registry.sockets[k];
            assert(entries[k as int] == (EntryView {
                src: entry.src.addr(),
                token: entry.token,
                interest: entry.interest,
            }));
            match entry.src.local_addr() {
                Ok(addr) => match udp_socket_status(st, now, addr) {
                    Some(status) => {
                        let is_readable = entry.interest.readable && status.readable;
                        let is_writable = entry.interest.writable && status.writable;
                        let is_error = status.error;
                        let is_read_closed = status.closed && entry.interest.readable;
                        let is_write_closed = status.closed && entry.interest.writable;
                        if is_readable || is_writable || is_error || is_read_closed
                            || is_write_closed {
                            events.inner.push(
                                Event {
                                    token: entry.token,
                                    is_readable,
                                    is_writable,
                                    is_error,
                                    is_read_closed,
                                    is_write_closed,
                                    is_priority: false,
                                    is_aio: false,
                                    is_lio: false,
                                },
                            );
                        }
                    },
                    None => {},
                },
                Err(_) => {},
            }
            k += 1;
        }
    }
}

impl<T: Source> Source for Box<T> {
    open spec fn can_register(&self, s: StateView) -> bool {
        (**self).can_register(s)
    }

    open spec fn can_reregister(&self, r: RegistryView, s: StateView, now: Now) -> bool {
        (**self).can_reregister(r, s, now)
    }

    open spec fn can_deregister(&self, s: StateView) -> bool {
        (**self).can_deregister(s)
    }

    open spec fn registers(
        old_self: Box<T>,
        new_self: Box<T>,
        r: RegistryView,
        r2: RegistryView,
        s: StateView,
        s2: StateView,
        token: Token,
        interests: Interest,
        result: Result<(), Error>,
    ) -> bool {
        T::registers(*old_self, *new_self, r, r2, s, s2, token, interests, result)
    }

    open spec fn reregisters(
        old_self: Box<T>,
        new_self: Box<T>,
        r: RegistryView,
        r2: RegistryView,
        s: StateView,
        s2: StateView,
        now: Now,
        token: Token,
        interests: Interest,
        result: Result<(), Error>,
    ) -> bool {
        T::reregisters(*old_self, *new_self, r, r2, s, s2, now, token, interests, result)
    }

    open spec fn deregisters(
        old_self: Box<T>,
        new_self: Box<T>,
        r: RegistryView,
        r2: RegistryView,
        s: StateView,
        s2: StateView,
        now: Now,
        result: Result<(), Error>,
    ) -> bool {
        T::deregisters(*old_self, *new_self, r, r2, s, s2, now, result)
    }

    fn register(
        &mut self,
        registry: &mut Registry,
        st: &mut TestState,
        token: Token,
        interests: Interest,
    ) -> (r: Result<(), Error>) {
        (**self).register(registry, st, token, interests)
    }

    fn reregister(
        &mut self,
        registry: &mut Registry,
        st: &mut TestState,
        now: Now,
        token: Token,
        interests: Interest,
    ) -> (r: Result<(), Error>) {
        (**self).reregister(registry, st, now, token, interests)
    }

    fn deregister(&mut self, registry: &mut Registry, st: &mut TestState, now: Now) -> (r: Result<
        (),
        Error,
    >) {
        (**self).deregister(registry, st, now)
    }
}

// ----- What polling promises -----

/// Events that were found stay found.
pub proof fn lemma_listener_events_extend(
    s: StateView,
    entries: Seq<EntryView<SocketAddr>>,
    n: int,
    events: Seq<Event>,
)
    ensures
        events.is_prefix_of(listener_events(s, entries, n, events)),
    decreases n,
{
    if n > 0 {
        lemma_listener_events_extend(s, entries, n - 1, events);
    }
}

/// Events that were found stay found.
pub proof fn lemma_stream_events_extend(
    s: StateView,
    now: nat,
    entries: Seq<EntryView<usize>>,
    n: int,
    events: Seq<Event>,
)
    ensures
        events.is_prefix_of(stream_events(s, now, entries, n, events).1),
    decreases n,
{
    if n > 0 {
        lemma_stream_events_extend(s, now, entries, n - 1, events);
    }
}

/// Events that were found stay found.
pub proof fn lemma_socket_events_extend(
    s: StateView,
    now: nat,
    entries: Seq<EntryView<SocketAddr>>,
    n: int,
    events: Seq<Event>,
)
    ensures
        events.is_prefix_of(socket_events(s, now, entries, n, events).1),
    decreases n,
{
    if n > 0 {
        lemma_socket_events_extend(s, now, entries, n - 1, events);
    }
}

/// A waker that was woken is reported by the next look at the sources, as
/// readable and writable, whatever the network is like: no quiesce window keeps
/// it from that.
pub proof fn law_waker_is_reported(r: RegistryView, s: StateView, now: nat)
    requires
        r.waker_state == WakerState::Woken,
    ensures
        scanned(r, s, now).1.len() > 0,
        scanned(r, s, now).1[0] == event_of(r.waker_token, true, true, false, false, false),
{
    let e0 = waker_events(r);
    lemma_listener_events_extend(s, r.listeners, r.listeners.len() as int, e0);
    let e1 = listener_events(s, r.listeners, r.listeners.len() as int, e0);
    lemma_stream_events_extend(s, now, r.streams, r.streams.len() as int, e1);
    let (s2, e2) = stream_events(s, now, r.streams, r.streams.len() as int, e1);
    lemma_socket_events_extend(s2, now, r.sockets, r.sockets.len() as int, e2);
    let e3 = scanned(r, s, now).1;
    assert(e1.subrange(0, e0.len() as int)[0] == e1[0]);
    assert(e2.subrange(0, e1.len() as int)[0] == e2[0]);
    assert(e3.subrange(0, e2.len() as int)[0] == e3[0]);
}

proof fn lemma_streams_change(s: StateView, now: nat, entries: Seq<EntryView<usize>>, n: int)
    requires
        0 <= n <= entries.len(),
    ensures
        forall|k: int|
            0 <= k < n && s.stream_change(now, (#[trigger] entries[k]).src) is Some
                ==> streams_change(s, now, entries, n) is Some && streams_change(
                s,
                now,
                entries,
                n,
            )->0 <= s.stream_change(now, entries[k].src)->0,
    decreases n,
{
    if n > 0 {
        lemma_streams_change(s, now, entries, n - 1);
    }
}

proof fn lemma_sockets_change(s: StateView, now: nat, entries: Seq<EntryView<SocketAddr>>, n: int)
    requires
        0 <= n <= entries.len(),
    ensures
        forall|k: int|
            0 <= k < n && s.socket_change(now, (#[trigger] entries[k]).src) is Some
                ==> sockets_change(s, now, entries, n) is Some && sockets_change(
                s,
                now,
                entries,
                n,
            )->0 <= s.socket_change(now, entries[k].src)->0,
    decreases n,
{
    if n > 0 {
        lemma_sockets_change(s, now, entries, n - 1);
    }
}

/// A poller does not sleep past the time at which bytes or packets arrive at
/// what it watches, or at which a window closes there.
pub proof fn law_poll_misses_no_arrival(
    r: RegistryView,
    r2: RegistryView,
    s: StateView,
    s2: StateView,
    now: Now,
    deadline: Instant,
    found: Seq<Event>,
    step: PollStep,
)
    requires
        polls(r, r2, s, s2, now, deadline, Seq::empty(), found, step),
        now.mono@ < deadline@,
    ensures
        step is Wait,
        now.mono@ + step->Wait_1@ <= deadline@,
        forall|k: int|
            0 <= k < r.streams.len() && s2.stream_change(now.mono@, (#[trigger] r.streams[k]).src)
                is Some ==> step->Wait_1@ <= elapsed_between(
                now.mono@,
                s2.stream_change(now.mono@, r.streams[k].src)->0,
            ),
        forall|k: int|
            0 <= k < r.sockets.len() && s2.socket_change(now.mono@, (#[trigger] r.sockets[k]).src)
                is Some ==> step->Wait_1@ <= elapsed_between(
                now.mono@,
                s2.socket_change(now.mono@, r.sockets[k].src)->0,
            ),
{
    lemma_streams_change(s2, now.mono@, r.streams, r.streams.len() as int);
    lemma_sockets_change(s2, now.mono@, r.sockets, r.sockets.len() as int);
}

/// A stream that has bytes to be read and is watched for reading is reported, by
/// its own token, whatever other streams share its address.
pub proof fn law_stream_is_reported_by_its_own_end(
    s: StateView,
    now: nat,
    entries: Seq<EntryView<usize>>,
    n: int,
    events: Seq<Event>,
)
    requires
        0 < n <= entries.len(),
        entries[n - 1].interest.readable,
        ({
            let t = stream_events(s, now, entries, n - 1, events).0;
            let id = entries[n - 1].src;
            t.live(id) && t.conn(id).released(now).incoming.len() > 0 && !t.deaf(
                now,
                t.conn(id).local_addr,
            )
        }),
    ensures
        ({
            let all = stream_events(s, now, entries, n, events).1;
            &&& all.len() > 0
            &&& all.last().token == entries[n - 1].token
            &&& all.last().is_readable
        }),
{
    let t = stream_events(s, now, entries, n - 1, events).0;
    let id = entries[n - 1].src;
    lemma_released_keeps(t.conn(id), now);
}

/// While a window is open, readiness is hidden in its directions and in no
/// other, until it closes. Bytes arrive all the same: a window changes no
/// connection and no socket.
pub proof fn law_quiesce_hides_readiness(
    s: StateView,
    now: Now,
    addr: SocketAddr,
    until: Instant,
    mode: QuiesceMode,
    later: nat,
    id: usize,
)
    ensures
        ({
            let q = s.quiesced(now, addr, until, mode);
            let open = later < until@;
            &&& q.tcp == s.tcp
            &&& q.udp == s.udp
            &&& q.live(id) && q.conn(id).local_addr == addr ==> {
                let c = q.conn(id);
                let status = q.stream_status(later, id)->0;
                let can_write = !c.write_shutdown && !c.destroyed && c.peer is Some;
                &&& status.readable == (c.incoming.len() > 0 && !(open && mode
                    != QuiesceMode::OutboundOnly))
                &&& status.writable == (can_write && !(open && mode != QuiesceMode::InboundOnly))
            }
            &&& q.find_udp(addr) is Some ==> {
                let u = q.udp[q.find_udp(addr)->0];
                let status = q.socket_status(later, addr)->0;
                &&& status.readable == (u.to_local.len() > 0 && !(open && mode
                    != QuiesceMode::OutboundOnly))
                &&& status.writable == (!u.destroyed && !(open && mode != QuiesceMode::InboundOnly))
            }
        }),
{
}

/// A stream that is watched for reading alone, whose readiness is hidden, and
/// which has neither failed nor ended causes no event.
pub proof fn law_quiesced_stream_is_silent(token: Token, status: TcpStreamStatus)
    requires
        !status.readable,
        !status.error,
        !status.read_closed,
    ensures
        !tells(stream_event(token, Interest { readable: true, writable: false }, status)),
{
}

/// Every event that a look at the sources finds says something.
pub proof fn law_no_empty_events(r: RegistryView, s: StateView, now: nat)
    ensures
        forall|i: int|
            0 <= i < scanned(r, s, now).1.len() ==> tells(#[trigger] scanned(r, s, now).1[i]),
{
    let e1 = listener_events(s, r.listeners, r.listeners.len() as int, waker_events(r));
    lemma_listener_events_tell(s, r.listeners, r.listeners.len() as int, waker_events(r));
    let (s2, e2) = stream_events(s, now, r.streams, r.streams.len() as int, e1);
    lemma_stream_events_tell(s, now, r.streams, r.streams.len() as int, e1);
    lemma_socket_events_tell(s2, now, r.sockets, r.sockets.len() as int, e2);
}

spec fn all_tell(events: Seq<Event>) -> bool {
    forall|i: int| 0 <= i < events.len() ==> tells(#[trigger] events[i])
}

proof fn lemma_listener_events_tell(
    s: StateView,
    entries: Seq<EntryView<SocketAddr>>,
    n: int,
    events: Seq<Event>,
)
    requires
        all_tell(events),
    ensures
        all_tell(listener_events(s, entries, n, events)),
    decreases n,
{
    if n > 0 {
        lemma_listener_events_tell(s, entries, n - 1, events);
    }
}

proof fn lemma_stream_events_tell(
    s: StateView,
    now: nat,
    entries: Seq<EntryView<usize>>,
    n: int,
    events: Seq<Event>,
)
    requires
        all_tell(events),
    ensures
        all_tell(stream_events(s, now, entries, n, events).1),
    decreases n,
{
    if n > 0 {
        lemma_stream_events_tell(s, now, entries, n - 1, events);
    }
}

proof fn lemma_socket_events_tell(
    s: StateView,
    now: nat,
    entries: Seq<EntryView<SocketAddr>>,
    n: int,
    events: Seq<Event>,
)
    requires
        all_tell(events),
    ensures
        all_tell(socket_events(s, now, entries, n, events).1),
    decreases n,
{
    if n > 0 {
        lemma_socket_events_tell(s, now, entries, n - 1, events);
    }
}

/// The state after the first `n` listeners have been given up.
pub open spec fn listeners_closed(
    s: StateView,
    entries: Seq<EntryView<SocketAddr>>,
    n: int,
) -> StateView
    decreases n,
{
    if n <= 0 {
        s
    } else {
        listeners_closed(s, entries, n - 1).with_listener_dropped(entries[n - 1].src)
    }
}

/// The state after the first `n` streams have been given up.
pub open spec fn streams_closed(
    s: StateView,
    now: Now,
    entries: Seq<EntryView<usize>>,
    n: int,
) -> StateView
    decreases n,
{
    if n <= 0 {
        s
    } else {
        let t = streams_closed(s, now, entries, n - 1);
        if t.live(entries[n - 1].src) {
            t.with_stream_dropped(now, entries[n - 1].src)
        } else {
            t
        }
    }
}

impl Poll {
    /// Gives the poller up, and with it its handles of the sources that it
    /// watches.
    pub fn close(self, st: &mut TestState, now: Now)
        requires
            old(st)@.wf(),
            self@.fits(old(st)@),
        ensures
            final(st)@ == streams_closed(
                listeners_closed(old(st)@, self@.listeners, self@.listeners.len() as int),
                now,
                self@.streams,
                self@.streams.len() as int,
            ),
            final(st)@.wf(),
    {
        let ghost view = self@;
        let ghost s = st@;
        let Registry { waker_state: _, waker_token: _, listeners, streams, sockets: _ } =
            self.registry;
        let mut listeners = listeners;
        let mut streams = streams;
        let ghost all_listeners = listeners@;
        let ghost all_streams = streams@;
        let ghost mut n: int = 0;
        while listeners.len() > 0
            invariant
                0 <= n <= all_listeners.len(),
                listeners@ =~= all_listeners.skip(n),
                view.listeners.len() == all_listeners.len(),
                forall|k: int|
                    0 <= k < all_listeners.len() ==> (#[trigger] view.listeners[k]).src
                        == all_listeners[k].src.addr(),
                st@ == listeners_closed(s, view.listeners, n),
                st@.wf(),
                view.fits(st@),
            decreases listeners@.len(),
        {
            let entry = listeners.remove(0);
            let ghost before = st@;
            assert(view.listeners[n].src == all_listeners[n].src.addr());
            entry.src.close(st);
            proof {
                n = n + 1;
                let addr = view.listeners[n - 1].src;
                lemma_found_listener(before.listeners, addr, 0);
                assert forall|k: int| 0 <= k < view.streams.len() implies !awaits(
                    st@.listeners,
                    (#[trigger] view.streams[k]).src,
                ) by {
                    if awaits(st@.listeners, view.streams[k].src) {
                        lemma_dropped_listener_queues(before, addr, view.streams[k].src);
                    }
                }
            }
        }
        let ghost s2 = st@;
        proof {
            n = 0;
        }
        while streams.len() > 0
            invariant
                0 <= n <= all_streams.len(),
                streams@ =~= all_streams.skip(n),
                view.streams.len() == all_streams.len(),
                forall|k: int|
                    0 <= k < all_streams.len() ==> (#[trigger] view.streams[k]).src
                        == all_streams[k].src.id(),
                st@ == streams_closed(s2, now, view.streams, n),
                st@.wf(),
                view.fits(st@),
            decreases streams@.len(),
        {
            let entry = streams.remove(0);
            assert(view.streams[n].src == all_streams[n].src.id());
            if entry.src.is_live(st) {
                entry.src.close(st, now);
            }
            proof {
                n = n + 1;
            }
        }
    }
}

} // verus!
