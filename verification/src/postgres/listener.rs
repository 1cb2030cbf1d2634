//! The decisions of the PostgreSQL event listeners: their configuration (polling interval,
//! fetch size, database notifier, retry policy), the progress of a run through the events,
//! the event ID recorded when a run ends, and what happens after a failed run.
use vstd::prelude::*;
use std::time::Duration;

use crate::event::{has_str, Event};
use crate::postgres::criteria::{active_event_names, active_events};
use crate::stream_query::StreamQuery;
use crate::utils::eq;

verus! {

/// The decision of a retry policy on an error of an event listener.
pub enum RetryDecision {
    /// Stop the event listener.
    Abort,
    /// Wait for the given duration before retrying.
    Wait { duration: Duration },
}

/// The kind of an error of an event listener; `DE` is the error of the database.
#[derive(Debug)]
pub enum PgEventListenerErrorKind<HE, DE> {
    /// The transaction of a run could not begin.
    InitTransaction { source: DE },
    /// The lock on the listener's row could not be taken.
    AquireLock { source: DE },
    /// The next event could not be fetched.
    FetchNextEvent { source: DE, last_processed_event_id: i64 },
    /// The handler failed on an event.
    Handler { source: HE, last_processed_event_id: i64 },
    /// The last processed event ID could not be recorded, or the transaction committed.
    ReleaseLock { source: DE, last_processed_event_id: i64 },
}

/// An error of an event listener, with the ID of the listener.
#[derive(Debug)]
pub struct PgEventListenerError<HE, DE> {
    pub kind: PgEventListenerErrorKind<HE, DE>,
    pub listener_id: String,
}

/// A retry policy for the errors of an event listener.
pub trait Retry<HE, DE>: Clone {
    /// What to do after the given error, `attempts` retries having been made.
    fn retry(&self, error: &PgEventListenerError<HE, DE>, attempts: usize) -> RetryDecision;
}

/// A retry policy that always aborts on error.
#[derive(Clone, Copy, Default)]
pub struct AbortRetry;

impl<HE, DE> Retry<HE, DE> for AbortRetry {
    fn retry(&self, error: &PgEventListenerError<HE, DE>, attempts: usize) -> (r: RetryDecision)
        ensures
            r is Abort,
    {
        RetryDecision::Abort
    }
}

/// The event ID recorded when a run ends: the one reached by a run that succeeded, or by a
/// run that stopped on a failure to fetch or to handle an event; any other failure is
/// passed on and nothing is recorded.
pub open spec fn checkpoint_of<HE, DE>(result: Result<i64, PgEventListenerError<HE, DE>>) -> Result<
    i64,
    PgEventListenerError<HE, DE>,
> {
    match result {
        Ok(id) => Ok(id),
        Err(e) => match e.kind {
            PgEventListenerErrorKind::FetchNextEvent { last_processed_event_id, .. } => Ok(last_processed_event_id),
            PgEventListenerErrorKind::Handler { last_processed_event_id, .. } => Ok(last_processed_event_id),
            _ => Err(e),
        },
    }
}

/// The event ID to record when a run ends (see `checkpoint_of`).
pub fn release_checkpoint<HE, DE>(result: Result<i64, PgEventListenerError<HE, DE>>) -> (r: Result<
    i64,
    PgEventListenerError<HE, DE>,
>)
    ensures
        r == checkpoint_of(result),
{
    match result {
        Ok(id) => Ok(id),
        Err(e) => match e.kind {
            PgEventListenerErrorKind::FetchNextEvent { last_processed_event_id, .. } => Ok(last_processed_event_id),
            PgEventListenerErrorKind::Handler { last_processed_event_id, .. } => Ok(last_processed_event_id),
            kind => Err(PgEventListenerError { kind, listener_id: e.listener_id }),
        },
    }
}

/// The progress of one run of a listener through the events its query selects.
pub struct HandleProgress {
    last_processed_event_id: i64,
    taken: usize,
    fetch_size: usize,
    stopped: bool,
}

impl HandleProgress {
    /// The ID of the last event processed (or the epoch, once the end was reached).
    pub closed spec fn spec_last(&self) -> i64 {
        self.last_processed_event_id
    }

    /// The number of stream items handled.
    pub closed spec fn spec_taken(&self) -> usize {
        self.taken
    }

    /// The most items a run handles.
    pub closed spec fn spec_fetch_size(&self) -> usize {
        self.fetch_size
    }

    /// Whether the run reached the end of the stream or was asked to shut down.
    pub closed spec fn spec_stopped(&self) -> bool {
        self.stopped
    }

    /// A run from the last processed event ID, handling at most `fetch_size` items.
    pub fn new(last_processed_event_id: i64, fetch_size: usize) -> (r: Self)
        ensures
            r.spec_last() == last_processed_event_id,
            r.spec_taken() == 0,
            r.spec_fetch_size() == fetch_size,
            !r.spec_stopped(),
    {
        HandleProgress { last_processed_event_id, taken: 0, fetch_size, stopped: false }
    }

    /// Whether the run takes another item from the stream.
    pub fn wants_next(&self) -> (r: bool)
        ensures
            r == (!self.spec_stopped() && self.spec_taken() < self.spec_fetch_size()),
    {
        !self.stopped && self.taken < self.fetch_size
    }

    /// Records an item handled: an event whose handler succeeded (its ID), or the end of
    /// the stream (the epoch), after which the run stops; it stops too when a shutdown was
    /// requested.
    pub fn handled(&mut self, item_id: i64, is_end: bool, cancelled: bool)
        requires
            old(self).spec_taken() < old(self).spec_fetch_size(),
        ensures
            final(self).spec_last() == item_id,
            final(self).spec_taken() == old(self).spec_taken() + 1,
            final(self).spec_fetch_size() == old(self).spec_fetch_size(),
            final(self).spec_stopped() == (is_end || cancelled),
    {
        self.last_processed_event_id = item_id;
        self.taken = self.taken + 1;
        self.stopped = is_end || cancelled;
    }

    /// The ID of the last event processed.
    pub fn last_processed_event_id(&self) -> (r: i64)
        ensures
            r == self.spec_last(),
    {
        self.last_processed_event_id
    }
}

/// What follows a failed run: `None` to stop, or the next count of attempts and the time to
/// wait before the retry.
pub fn after_failure(attempts: usize, decision: RetryDecision) -> (r: Option<(usize, Duration)>)
    requires
        attempts < usize::MAX,
    ensures
        match decision {
            RetryDecision::Abort => r is None,
            RetryDecision::Wait { duration } => r == Some(((attempts + 1) as usize, duration)),
        },
{
    match decision {
        RetryDecision::Abort => None,
        RetryDecision::Wait { duration } => Some((attempts + 1, duration)),
    }
}

/// Whether a listener whose query is `query` is woken by the notification of a new event
/// named `event_name`: some filter of the query selects that event.
pub fn should_wake<E: Event>(query: &StreamQuery<E>, event_name: &str) -> (r: bool)
    ensures
        r == exists|i: int| 0 <= i < query@.len() && #[trigger] has_str(active_events(query@[i]), event_name@),
{
    let filters = query.filters();
    let mut i: usize = 0;
    while i < filters.len()
        invariant
            i <= filters@.len(),
            crate::stream_query::filters_view(filters@) == query@,
            forall|j: int| 0 <= j < i ==> !(#[trigger] has_str(active_events(query@[j]), event_name@)),
        decreases filters@.len() - i,
    {
        let names = active_event_names(&filters[i]);
        let mut k: usize = 0;
        proof {
            assert(query@[i as int] == filters@[i as int]@);
        }
        while k < names.len()
            invariant
                k <= names@.len(),
                i < filters@.len(),
                crate::stream_query::filters_view(filters@) == query@,
                crate::event::strs_view(names@) == active_events(query@[i as int]),
                forall|j: int| 0 <= j < k ==> (#[trigger] names@[j])@ != event_name@,
            decreases names@.len() - k,
        {
            if eq(names[k], event_name) {
                proof {
                    assert(crate::event::strs_view(names@)[k as int] == names@[k as int]@);
                    assert(active_events(query@[i as int])[k as int] == event_name@);
                    assert(has_str(active_events(query@[i as int]), event_name@));
                }
                return true;
            }
            k = k + 1;
        }
        proof {
            if has_str(active_events(query@[i as int]), event_name@) {
                let m = choose|m: int| 0 <= m < active_events(query@[i as int]).len() && active_events(query@[i as int])[m] == event_name@;
                assert(names@[m]@ == event_name@);
            }
        }
        i = i + 1;
    }
    false
}

/// The configuration of an event listener.
pub struct PgEventListenerConfig<R> {
    poll: Duration,
    fetch_size: usize,
    notifier_enabled: bool,
    retry: R,
}

impl<R> PgEventListenerConfig<R> {
    /// The polling interval.
    pub closed spec fn spec_poll(&self) -> Duration {
        self.poll
    }

    /// The number of events fetched at a time.
    pub closed spec fn spec_fetch_size(&self) -> usize {
        self.fetch_size
    }

    /// Whether the listener handles events as they are notified.
    pub closed spec fn spec_notifier_enabled(&self) -> bool {
        self.notifier_enabled
    }

    /// The retry policy.
    pub closed spec fn spec_retry(&self) -> R {
        self.retry
    }

    /// The same configuration fetching `fetch_size` events at a time.
    pub fn fetch_size(self, fetch_size: usize) -> (r: Self)
        ensures
            r.spec_poll() == self.spec_poll(),
            r.spec_fetch_size() == fetch_size,
            r.spec_notifier_enabled() == self.spec_notifier_enabled(),
            r.spec_retry() == self.spec_retry(),
    {
        PgEventListenerConfig { fetch_size, ..self }
    }

    /// The same configuration with the database notifier enabled.
    pub fn with_notifier(self) -> (r: Self)
        ensures
            r.spec_poll() == self.spec_poll(),
            r.spec_fetch_size() == self.spec_fetch_size(),
            r.spec_notifier_enabled(),
            r.spec_retry() == self.spec_retry(),
    {
        PgEventListenerConfig { notifier_enabled: true, ..self }
    }

    /// The same configuration with another retry policy.
    pub fn with_retry(self, retry: R) -> (r: Self)
        ensures
            r.spec_poll() == self.spec_poll(),
            r.spec_fetch_size() == self.spec_fetch_size(),
            r.spec_notifier_enabled() == self.spec_notifier_enabled(),
            r.spec_retry() == retry,
    {
        PgEventListenerConfig { retry, ..self }
    }

    /// The polling interval.
    pub fn poll(&self) -> (r: Duration)
        ensures
            r == self.spec_poll(),
    {
        self.poll
    }

    /// The number of events fetched at a time.
    pub fn get_fetch_size(&self) -> (r: usize)
        ensures
            r == self.spec_fetch_size(),
    {
        self.fetch_size
    }

    /// Whether the database notifier is enabled.
    pub fn notifier_enabled(&self) -> (r: bool)
        ensures
            r == self.spec_notifier_enabled(),
    {
        self.notifier_enabled
    }

    /// The retry policy.
    pub fn retry(&self) -> (r: &R)
        ensures
            *r == self.spec_retry(),
    {
        &self.retry
    }
}

impl<R: Clone> Clone for PgEventListenerConfig<R> {
    fn clone(&self) -> (r: Self)
        ensures
            r.spec_poll() == self.spec_poll(),
            r.spec_fetch_size() == self.spec_fetch_size(),
            r.spec_notifier_enabled() == self.spec_notifier_enabled(),
            cloned(self.spec_retry(), r.spec_retry()),
    {
        PgEventListenerConfig {
            poll: self.poll,
            fetch_size: self.fetch_size,
            notifier_enabled: self.notifier_enabled,
            retry: self.retry.clone(),
        }
    }
}

impl PgEventListenerConfig<AbortRetry> {
    /// A configuration polling at the given interval, fetching all pending events at a time,
    /// without the notifier, and aborting on errors.
    pub fn poller(poll: Duration) -> (r: PgEventListenerConfig<AbortRetry>)
        ensures
            r.spec_poll() == poll,
            r.spec_fetch_size() == usize::MAX,
            !r.spec_notifier_enabled(),
    {
        PgEventListenerConfig { poll, fetch_size: usize::MAX, notifier_enabled: false, retry: AbortRetry }
    }
}

} // verus!
