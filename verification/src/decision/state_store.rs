//! The state loaded for a decision, and the snapshot configuration of the state store.
use vstd::prelude::*;

use crate::decision::state::MultiState;
use crate::event::Event;
use crate::stream_query::StreamQuery;

verus! {

/// A state loaded from the event store, together with its version.
pub struct LoadedState<S> {
    state: S,
    version: i64,
}

impl<S> LoadedState<S> {
    /// The state held.
    pub closed spec fn spec_state(&self) -> S {
        self.state
    }

    /// The version held.
    pub closed spec fn spec_version(&self) -> i64 {
        self.version
    }

    /// A loaded state with the given state and version.
    pub fn new(state: S, version: i64) -> (r: Self)
        ensures
            r.spec_state() == state,
            r.spec_version() == version,
    {
        LoadedState { state, version }
    }

    /// The loaded state.
    pub fn state(&self) -> (r: &S)
        ensures
            *r == self.spec_state(),
    {
        &self.state
    }

    /// The version of the loaded state.
    pub fn version(&self) -> (r: i64)
        ensures
            r == self.spec_version(),
    {
        self.version
    }

    /// The state, consuming the loaded state.
    pub fn into_state(self) -> (r: S)
        ensures
            r == self.spec_state(),
    {
        self.state
    }
}

/// The query under which the changes of a decision are appended: the decision's validation
/// query when it gives one, else the union of the queries of the parts of the loaded state.
pub fn persist_query<E: Event, M: MultiState<E>>(
    validation_query: Option<StreamQuery<E>>,
    parts: &M,
) -> (r: StreamQuery<E>)
    ensures
        r@ == match validation_query {
            Some(q) => q@,
            None => parts.spec_query_all(),
        },
{
    match validation_query {
        Some(query) => query,
        None => parts.query_all(),
    }
}

/// How snapshots of state parts are taken.
pub trait SnapshotConfig {}

/// Snapshots are disabled.
#[derive(Clone, Copy)]
pub struct NoSnapshot;

impl SnapshotConfig for NoSnapshot {}

/// Snapshots are enabled and handled by the given backend.
#[derive(Copy)]
pub struct WithSnapshot<T: Clone> {
    backend: T,
}

impl<T: Clone> Clone for WithSnapshot<T> {
    fn clone(&self) -> (r: Self)
        ensures
            cloned(self.spec_backend(), r.spec_backend()),
    {
        WithSnapshot { backend: self.backend.clone() }
    }
}

impl<T: Clone> WithSnapshot<T> {
    /// The backend held.
    pub closed spec fn spec_backend(&self) -> T {
        self.backend
    }

    /// Enables snapshots with the given backend.
    pub fn new(backend: T) -> (r: Self)
        ensures
            r.spec_backend() == backend,
    {
        WithSnapshot { backend }
    }

    /// The backend.
    pub fn backend(&self) -> (r: &T)
        ensures
            *r == self.spec_backend(),
    {
        &self.backend
    }
}

impl<T: Clone> SnapshotConfig for WithSnapshot<T> {}

impl<T: Clone> std::ops::Deref for WithSnapshot<T> {
    type Target = T;

    /// The backend.
    fn deref(&self) -> (r: &T)
        ensures
            *r == self.spec_backend(),
    {
        &self.backend
    }
}

} // verus!
