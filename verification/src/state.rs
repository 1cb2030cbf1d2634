//! States: business concepts built from the events of a stream query.
use vstd::prelude::*;

use crate::event::{Event, PersistedEvent};
use crate::stream_query::{FilterView, StreamQuery};

verus! {

/// A state object, built from events.
pub trait State: Clone {
    /// The events that mutate the state.
    type Event: Event + Clone;

    /// The filters of the query that selects the events of the state.
    closed spec fn spec_query(&self) -> Seq<FilterView> {
        arbitrary()
    }

    /// Returns the stream query used to retrieve relevant events for building the state.
    fn query(&self) -> (r: StreamQuery<Self::Event>)
        ensures
            r@ == self.spec_query(),
    ;

    /// The state after the event.
    closed spec fn spec_mutate(self, event: Self::Event) -> Self {
        arbitrary()
    }

    /// Mutates the state object based on the provided event.
    fn mutate(&mut self, event: Self::Event)
        ensures
            *final(self) == old(self).spec_mutate(event),
    ;
}

/// A state together with the version (the ID of the last event applied to it).
pub struct Hydrated<S: State> {
    state: S,
    version: i64,
}

impl<S: State> Hydrated<S> {
    /// The state held.
    pub closed spec fn spec_state(&self) -> S {
        self.state
    }

    /// The version held.
    pub closed spec fn spec_version(&self) -> i64 {
        self.version
    }

    /// Creates a hydrated state with the provided state and version.
    pub fn new(state: S, version: i64) -> (r: Self)
        ensures
            r.spec_state() == state,
            r.spec_version() == version,
    {
        Hydrated { state, version }
    }

    /// The version of the state.
    pub fn version(&self) -> (r: i64)
        ensures
            r == self.spec_version(),
    {
        self.version
    }

    /// Applies the next event of the state's stream: the state mutates, and its version
    /// becomes the event's ID.
    pub fn apply_event(&mut self, event: PersistedEvent<S::Event>)
        ensures
            final(self).spec_version() == event.id,
            final(self).spec_state() == old(self).spec_state().spec_mutate(event.event),
    {
        self.version = event.id;
        self.state.mutate(event.event);
    }

    /// The state.
    pub fn state(&self) -> (r: &S)
        ensures
            *r == self.spec_state(),
    {
        &self.state
    }
}

impl<S: State> std::ops::Deref for Hydrated<S> {
    type Target = S;

    /// The state held.
    fn deref(&self) -> (r: &S)
        ensures
            *r == self.spec_state(),
    {
        &self.state
    }
}

} // verus!
