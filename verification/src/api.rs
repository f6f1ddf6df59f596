//! The history of an aggregate, as the service around it holds it.

use vstd::prelude::*;

verus! {

/// An ordered, append-only history of events.
pub struct EventStore<T> {
    events: Vec<T>,
}

impl<T> View for EventStore<T> {
    type V = Seq<T>;

    closed spec fn view(&self) -> Seq<T> {
        self.events@
    }
}

impl<T> EventStore<T> {
    /// A store with no history.
    pub fn new() -> (store: Self)
        ensures
            store@ == Seq::<T>::empty(),
    {
        EventStore { events: Vec::new() }
    }

    /// Appends the events of an accepted decision, in their order, behind
    /// the history that is already there.
    pub fn append(&mut self, events: Vec<T>)
        ensures
            final(self)@ == old(self)@ + events@,
    {
        let mut events = events;
        self.events.append(&mut events);
    }

    /// The history, oldest event first.
    pub fn events(&self) -> (events: &Vec<T>)
        ensures
            events@ == self@,
    {
        &self.events
    }
}

} // verus!
