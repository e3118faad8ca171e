//! The poller, under the names that mio has for it.

pub use crate::mio_shim::{
    Event, Events, Interest, Iter, Poll, PollStep, Registry, Source, Token, Waker,
};
