//! Decisions: the building blocks of the business logic, taken on a state built from events.
pub mod state;
pub mod state_store;

use vstd::prelude::*;

use crate::event::Event;
use crate::stream_query::StreamQuery;

verus! {

/// A business decision taken from a state built upon the events that occurred.
pub trait Decision {
    /// The events the decision produces.
    type Event: Event + Clone;
    /// The state query the decision is taken on.
    type StateQuery: Clone;
    /// The error the decision can fail with.
    type Error;

    /// The state query the decision starts from.
    closed spec fn spec_state_query(&self) -> Self::StateQuery {
        arbitrary()
    }

    /// What the decision answers on a state.
    closed spec fn spec_process(&self, state: Self::StateQuery) -> Result<Vec<Self::Event>, Self::Error> {
        arbitrary()
    }

    /// The state query to compute the decision state from the events in the event store.
    fn state_query(&self) -> (r: Self::StateQuery)
        ensures
            r == self.spec_state_query(),
    ;

    /// The stream query used to validate the decision; `None` validates with the state query.
    fn validation_query(&self) -> (r: Option<StreamQuery<Self::Event>>)
        default_ensures
            r is None,
    {
        None
    }

    /// Evaluates the decision on the state, producing the events of the changes it makes.
    fn process(&self, state: &Self::StateQuery) -> (r: Result<Vec<Self::Event>, Self::Error>)
        ensures
            r == self.spec_process(*state),
    ;
}

/// Executes business decisions and persists their changes through a state store.
pub struct DecisionMaker<SS> {
    state_store: SS,
}

impl<SS: Clone> Clone for DecisionMaker<SS> {
    fn clone(&self) -> (r: Self)
        ensures
            cloned(self.spec_state_store(), r.spec_state_store()),
    {
        DecisionMaker { state_store: self.state_store.clone() }
    }
}

impl<SS> DecisionMaker<SS> {
    /// The state store held.
    pub closed spec fn spec_state_store(&self) -> SS {
        self.state_store
    }

    /// Creates a decision maker over the given state store.
    pub fn new(state_store: SS) -> (r: Self)
        ensures
            r.spec_state_store() == state_store,
    {
        DecisionMaker { state_store }
    }

    /// The state store.
    pub fn state_store(&self) -> (r: &SS)
        ensures
            *r == self.spec_state_store(),
    {
        &self.state_store
    }
}

} // verus!
