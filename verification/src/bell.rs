//! The bell that those who wait listen to: the one place that calls another
//! crate.
//!
//! A [`Bell`] counts how often it has been rung. The count is out of reach of all
//! other modules, so that it moves when the event is notified, and not otherwise.

use event_listener::{Event as Notifier, EventListener};
use vstd::prelude::*;

verus! {

/// Declares `event_listener::Event`. Nothing is claimed of what is inside.
#[verifier::external_type_specification]
#[verifier::external_body]
#[verifier::reject_recursive_types(T)]
pub struct ExNotifier<T>(Notifier<T>);

/// Declares `event_listener::EventListener`. Nothing is claimed of what is
/// inside.
#[verifier::external_type_specification]
#[verifier::external_body]
#[verifier::reject_recursive_types(T)]
pub struct ExEventListener<T>(EventListener<T>);

/// What `event_listener::Listener::listens_to` tells: whether `listener` listens
/// to `event`. A listener stays with one event as long as both exist.
pub uninterp spec fn listens_to(listener: EventListener<()>, event: Notifier<()>) -> bool;

/// Calls `event_listener::Event::new`. Nothing is claimed of the event: which
/// threads listen to it is no part of its value.
#[verifier::external_body]
fn new_event() -> (r: Notifier<()>) {
    Notifier::new()
}

/// Calls `event_listener::Event::listen`, which gives a new listener that
/// listens to `event`, and claims just that. When the listener is woken depends
/// on the other threads, and nothing is claimed of it.
#[verifier::external_body]
fn start_listening(event: &Notifier<()>) -> (r: EventListener<()>)
    ensures
        listens_to(r, *event),
{
    event.listen()
}

/// A bell, and how often it has been rung.
pub struct Bell {
    event: Notifier<()>,
    rung: Ghost<nat>,
}

impl Bell {
    /// How often it has been rung.
    pub closed spec fn view(&self) -> nat {
        self.rung@
    }

    /// The event that those who wait listen to.
    pub closed spec fn event(&self) -> Notifier<()> {
        self.event
    }

    pub fn new() -> (r: Bell)
        ensures
            r@ == 0,
    {
        Bell { event: new_event(), rung: Ghost(0) }
    }

    /// Calls `event_listener::Event::notify` with more listeners than there can
    /// be, which notifies all that listen to the event, and claims that this is
    /// one more time that the bell was rung, and that the event is still the
    /// same one. How many threads it wakes depends on the other threads, and
    /// nothing is claimed of it.
    #[verifier::external_body]
    pub(crate) fn ring(&mut self)
        ensures
            final(self)@ == old(self)@ + 1,
            final(self).event() == old(self).event(),
    {
        self.event.notify(u32::MAX);
    }

    /// A listener that the next [`ring`](Self::ring) wakes.
    pub fn listen(&self) -> (r: EventListener<()>)
        ensures
            listens_to(r, self.event()),
    {
        start_listening(&self.event)
    }
}

} // verus!
