//! The signal that wakes every thread that waits for something to happen.

use crate::bell::{listens_to, Bell};
use event_listener::EventListener;
use vstd::prelude::*;

verus! {

/// A signal, and how often it has been raised.
pub struct Signal {
    bell: Bell,
}

impl Signal {
    /// How often the signal has been raised.
    pub closed spec fn view(&self) -> nat {
        self.bell@
    }

    /// The event that those who wait listen to.
    pub closed spec fn event(&self) -> event_listener::Event<()> {
        self.bell.event()
    }

    pub fn new() -> (r: Signal)
        ensures
            r@ == 0,
    {
        Signal { bell: Bell::new() }
    }

    /// Wakes every thread that listens.
    pub fn raise(&mut self)
        ensures
            final(self)@ == old(self)@ + 1,
            final(self).event() == old(self).event(),
    {
        self.bell.ring();
    }

    /// A listener that the next [`raise`](Self::raise) wakes.
    pub fn listen(&self) -> (r: EventListener<()>)
        ensures
            listens_to(r, self.event()),
    {
        self.bell.listen()
    }
}

} // verus!
