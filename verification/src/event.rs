//! The layout of an epoll notification as the kernel hands it over: a bitmask
//! of events and the word the watcher registered with the descriptor.

use vstd::prelude::*;

verus! {

/// An epoll notification: what happened, and the identifier registered for it.
#[derive(Copy, Clone, Debug)]
pub struct Event {
    /// A bitmask of the events that took place, or of those asked for.
    pub(crate) events: u32,
    /// The identifier associated with the watched descriptor.
    pub(crate) epoll_data: usize,
}

impl Event {
    /// The event bitmask.
    pub closed spec fn spec_events(&self) -> u32 {
        self.events
    }

    /// The identifier word.
    pub closed spec fn spec_epoll_data(&self) -> usize {
        self.epoll_data
    }

    /// The event bitmask.
    #[verifier::when_used_as_spec(spec_events)]
    pub fn events(&self) -> (events: u32)
        ensures
            events == self.spec_events(),
    {
        self.events
    }

    /// The identifier word.
    #[verifier::when_used_as_spec(spec_epoll_data)]
    pub fn epoll_data(&self) -> (data: usize)
        ensures
            data == self.spec_epoll_data(),
    {
        self.epoll_data
    }
}

impl Default for Event {
    /// No events, identifier zero.
    fn default() -> (e: Self)
        ensures
            e.events() == 0,
            e.epoll_data() == 0,
    {
        Self { events: 0, epoll_data: 0 }
    }
}

} // verus!
