//! The states a decision is taken on: state queries, their versioned parts, and groups of
//! parts that are loaded and mutated together.
use vstd::prelude::*;

use crate::event::{Event, PersistedEvent};
use crate::stream_query::{query_matches, with_origin, FilterView, StreamQuery};

verus! {

/// A state query: the query of the events from which a state is built.
pub trait StateQuery: Clone {
    /// The unique name of the state query.
    fn name() -> &'static str;

    /// The type of events queried by this state query.
    type Event: Event + Clone;

    /// The filters of the query.
    closed spec fn spec_query(&self) -> Seq<FilterView> {
        arbitrary()
    }

    /// Returns the stream query used to retrieve relevant events for building the state.
    fn query(&self) -> (r: StreamQuery<Self::Event>)
        ensures
            r@ == self.spec_query(),
    ;
}

/// A state that events from the event store can change.
pub trait StateMutate: StateQuery {
    /// The state after the event.
    closed spec fn spec_mutate(self, event: Self::Event) -> Self {
        arbitrary()
    }

    /// Mutates the state object based on the provided event.
    fn mutate(&mut self, event: Self::Event)
        ensures
            *final(self) == old(self).spec_mutate(event),
    ;
}

/// The state after each of the events, in order.
pub open spec fn fold_events<S: StateMutate>(state: S, events: Seq<S::Event>) -> S
    decreases events.len(),
{
    if events.len() == 0 {
        state
    } else {
        fold_events(state, events.drop_last()).spec_mutate(events.last())
    }
}

/// Whether every conversion of `e` into `T` succeeds.
pub open spec fn converts<T: TryFrom<E>, E>(e: E) -> bool {
    forall|r: Result<T, <T as TryFrom<E>>::Error>| #[trigger] call_ensures(T::try_from, (e,), r) ==> r is Ok
}

/// Whether `v` is a conversion of `e` into `T`.
pub open spec fn converts_to<T: TryFrom<E>, E>(e: E, v: T) -> bool {
    call_ensures(T::try_from, (e,), Ok::<T, <T as TryFrom<E>>::Error>(v))
}

/// One step of `mutate_part`: the payload mutated by a conversion of the event, the version
/// moved to the event's ID, one more event counted.
pub open spec fn mutated_by<S: StateMutate, E: Event>(
    before: StatePart<S>,
    after: StatePart<S>,
    event: PersistedEvent<E>,
) -> bool
    where
        S::Event: TryFrom<E>,
{
    &&& after.spec_version() == event.id
    &&& after.spec_applied_events() == before.spec_applied_events() + 1
    &&& exists|v: S::Event|
        #[trigger] converts_to::<S::Event, E>(event.event, v) && after.spec_inner()
            == before.spec_inner().spec_mutate(v)
}

/// A run of `mutate_part` calls: `parts[i + 1]` is `parts[i]` after `events[i]`.
pub open spec fn mutation_run<S: StateMutate, E: Event>(
    parts: Seq<StatePart<S>>,
    events: Seq<PersistedEvent<E>>,
) -> bool
    where
        S::Event: TryFrom<E>,
{
    &&& parts.len() == events.len() + 1
    &&& forall|i: int| 0 <= i < events.len() ==> #[trigger] mutated_by(parts[i], parts[i + 1], events[i])
}

/// After a run of `mutate_part` calls, the part counts one applied event per call, its
/// version is the ID of the last event, and its payload is the first payload mutated by a
/// conversion of each event, in order.
pub proof fn lemma_mutation_run<S: StateMutate, E: Event>(
    parts: Seq<StatePart<S>>,
    events: Seq<PersistedEvent<E>>,
)
    where
        S::Event: TryFrom<E>,
    requires
        mutation_run(parts, events),
    ensures
        parts.last().spec_applied_events() == parts[0].spec_applied_events() + events.len(),
        events.len() > 0 ==> parts.last().spec_version() == events.last().id,
        exists|vs: Seq<S::Event>|
            #![trigger fold_events(parts[0].spec_inner(), vs)]
            vs.len() == events.len() && (forall|i: int|
                0 <= i < events.len() ==> #[trigger] converts_to::<S::Event, E>(events[i].event, vs[i]))
                && parts.last().spec_inner() == fold_events(parts[0].spec_inner(), vs),
    decreases events.len(),
{
    if events.len() == 0 {
        let vs = Seq::<S::Event>::empty();
        assert(fold_events(parts[0].spec_inner(), vs) == parts[0].spec_inner());
    } else {
        let n = events.len() - 1;
        let ps = parts.drop_last();
        let es = events.drop_last();
        assert(mutation_run(ps, es)) by {
            assert forall|i: int| 0 <= i < es.len() implies #[trigger] mutated_by(ps[i], ps[i + 1], es[i]) by {
                assert(mutated_by(parts[i], parts[i + 1], events[i]));
            }
        }
        lemma_mutation_run(ps, es);
        let ws = choose|ws: Seq<S::Event>|
            #![trigger fold_events(ps[0].spec_inner(), ws)]
            ws.len() == es.len() && (forall|i: int|
                0 <= i < es.len() ==> #[trigger] converts_to::<S::Event, E>(es[i].event, ws[i]))
                && ps.last().spec_inner() == fold_events(ps[0].spec_inner(), ws);
        assert(mutated_by(parts[n], parts[n + 1], events[n]));
        let v = choose|v: S::Event|
            #[trigger] converts_to::<S::Event, E>(events[n].event, v) && parts[n + 1].spec_inner()
                == parts[n].spec_inner().spec_mutate(v);
        let vs = ws.push(v);
        assert(vs.drop_last() =~= ws);
        assert(ps[0] == parts[0]);
        assert(ps.last() == parts[n]);
        assert forall|i: int| 0 <= i < events.len() implies #[trigger] converts_to::<S::Event, E>(
            events[i].event,
            vs[i],
        ) by {
            if i < n {
                assert(es[i] == events[i]);
                assert(converts_to::<S::Event, E>(es[i].event, ws[i]));
            }
        }
        assert(parts.last().spec_inner() == fold_events(parts[0].spec_inner(), vs));
    }
}

/// A sub-state of a multi-state: its payload, its version and the count of events applied.
pub struct StatePart<S: StateQuery> {
    version: i64,
    applied_events: u64,
    inner: S,
}

impl<S: StateQuery> StatePart<S> {
    /// The version (the ID of the last applied event).
    pub closed spec fn spec_version(&self) -> i64 {
        self.version
    }

    /// The count of applied events.
    pub closed spec fn spec_applied_events(&self) -> u64 {
        self.applied_events
    }

    /// The payload.
    pub closed spec fn spec_inner(&self) -> S {
        self.inner
    }

    /// Creates a part with the given version and payload, and no applied events.
    pub fn new(version: i64, payload: S) -> (r: Self)
        ensures
            r.spec_version() == version,
            r.spec_applied_events() == 0,
            r.spec_inner() == payload,
    {
        StatePart { version, applied_events: 0, inner: payload }
    }

    /// The version of the part.
    pub fn version(&self) -> (r: i64)
        ensures
            r == self.spec_version(),
    {
        self.version
    }

    /// The count of events applied to the part.
    pub fn applied_events(&self) -> (r: u64)
        ensures
            r == self.spec_applied_events(),
    {
        self.applied_events
    }

    /// The payload of the part.
    pub fn inner(&self) -> (r: &S)
        ensures
            *r == self.spec_inner(),
    {
        &self.inner
    }

    /// The payload, consuming the part.
    pub fn into_state(self) -> (r: S)
        ensures
            r == self.spec_inner(),
    {
        self.inner
    }

    /// The query of the payload, read from the part's version on.
    pub fn query_part(&self) -> (r: StreamQuery<S::Event>)
        ensures
            r@ == with_origin(self.spec_inner().spec_query(), self.spec_version()),
    {
        self.inner.query().change_origin(self.version)
    }

    /// Whether the part's query selects the event.
    pub fn matches_event<U: Event>(&self, event: &PersistedEvent<U>) -> (r: bool)
        where
            S::Event: Into<U>,
        ensures
            r == query_matches(
                with_origin(self.spec_inner().spec_query(), self.spec_version()),
                event.event.spec_name(),
                event.identifiers_map(),
                event.id,
            ),
    {
        let q = self.query_part();
        let q2 = q.cast::<U>();
        q2.matches(event)
    }

    /// Applies an event to the payload, converted into the payload's event type: the
    /// payload mutates by the converted event, the version becomes the event's ID and one
    /// more event counts as applied.
    pub fn mutate_part<E: Event>(&mut self, event: PersistedEvent<E>)
        where
            S: StateMutate,
            S::Event: TryFrom<E>,
        requires
            old(self).spec_applied_events() < u64::MAX,
            converts::<S::Event, E>(event.event),
        ensures
            mutated_by(*old(self), *final(self), event),
    {
        let id = event.id;
        let converted: Result<S::Event, <S::Event as TryFrom<E>>::Error> = event.event.try_into();
        match converted {
            Ok(v) => {
                self.version = id;
                self.applied_events = self.applied_events + 1;
                self.inner.mutate(v);
                proof {
                    assert(converts_to::<S::Event, E>(event.event, v));
                }
            },
            Err(_) => {
                proof {
                    assert(false);
                }
            },
        }
    }
}

impl<S: StateQuery> Clone for StatePart<S> {
    fn clone(&self) -> (r: Self)
        ensures
            r.spec_version() == self.spec_version(),
            r.spec_applied_events() == self.spec_applied_events(),
            cloned(self.spec_inner(), r.spec_inner()),
    {
        StatePart { version: self.version, applied_events: self.applied_events, inner: self.inner.clone() }
    }
}

impl<S: StateQuery> std::ops::Deref for StatePart<S> {
    type Target = S;

    /// The payload of the part.
    fn deref(&self) -> (r: &S)
        ensures
            *r == self.spec_inner(),
    {
        &self.inner
    }
}

/// Whether the part's query, read from the part's version, selects the event.
pub open spec fn part_selects<S: StateQuery, E: Event>(part: StatePart<S>, event: PersistedEvent<E>) -> bool {
    query_matches(
        with_origin(part.spec_inner().spec_query(), part.spec_version()),
        event.event.spec_name(),
        event.identifiers_map(),
        event.id,
    )
}

/// The part after an event went through it, `applied` being the event value the part
/// received: when the part's query selects the event, its payload is mutated by a conversion
/// of `applied`, its version moved to the event's ID and one more event counted; otherwise
/// the part is unchanged.
pub open spec fn part_after<S: StateMutate, E: Event>(
    before: StatePart<S>,
    after: StatePart<S>,
    event: PersistedEvent<E>,
    applied: E,
) -> bool
    where
        S::Event: TryFrom<E>,
{
    if part_selects(before, event) {
        &&& after.spec_version() == event.id
        &&& after.spec_applied_events() == before.spec_applied_events() + 1
        &&& exists|v: S::Event|
            #[trigger] converts_to::<S::Event, E>(applied, v) && after.spec_inner()
                == before.spec_inner().spec_mutate(v)
    } else {
        after == before
    }
}

/// The part after the event went through it, the part receiving a clone of the event.
pub open spec fn part_after_clone<S: StateMutate, E: Event + Clone>(
    before: StatePart<S>,
    after: StatePart<S>,
    event: PersistedEvent<E>,
) -> bool
    where
        S::Event: TryFrom<E>,
{
    if part_selects(before, event) {
        exists|c: E| #[trigger] cloned(event.event, c) && part_after(before, after, event, c)
    } else {
        after == before
    }
}

/// Whether the part can take the event: when its query selects the event, the value it
/// receives converts into the part's event type.
pub open spec fn part_accepts<S: StateMutate, E: Event>(part: StatePart<S>, event: PersistedEvent<E>, applied: E) -> bool
    where
        S::Event: TryFrom<E>,
{
    part_selects(part, event) ==> converts::<S::Event, E>(applied)
}

/// Whether the part can take a clone of the event: when its query selects the event,
/// every clone of it converts into the part's event type.
pub open spec fn part_accepts_clone<S: StateMutate, E: Event + Clone>(part: StatePart<S>, event: PersistedEvent<E>) -> bool
    where
        S::Event: TryFrom<E>,
{
    part_selects(part, event) ==> forall|c: E| #[trigger] cloned(event.event, c) ==> converts::<S::Event, E>(c)
}

/// The greater of two versions.
pub open spec fn max_version(a: i64, b: i64) -> i64 {
    if a >= b {
        a
    } else {
        b
    }
}

/// A group of state parts that are queried and mutated together.
pub trait MultiState<E: Event> {
    /// Whether every part can count one more applied event.
    closed spec fn can_apply(&self) -> bool {
        true
    }

    /// Whether every part whose query selects the event can convert the event it receives.
    closed spec fn accepts(&self, event: PersistedEvent<E>) -> bool {
        true
    }

    /// Whether every part can count one more applied event.
    fn can_mutate(&self) -> (r: bool)
        ensures
            r == self.can_apply(),
    ;

    /// Mutates every part whose query selects the event; all parts but the last receive a
    /// clone of the event.
    fn mutate_all(&mut self, event: PersistedEvent<E>)
        requires
            old(self).can_apply(),
            old(self).accepts(event),
    ;

    /// The filters of the union of the queries of all parts.
    spec fn spec_query_all(&self) -> Seq<FilterView>;

    /// The greatest version of the parts.
    spec fn spec_multi_version(&self) -> i64;

    /// The union of the queries of all parts.
    fn query_all(&self) -> (r: StreamQuery<E>)
        ensures
            r@ == self.spec_query_all(),
    ;

    /// The version of the group: the greatest version of its parts.
    fn version(&self) -> (r: i64)
        ensures
            r == self.spec_multi_version(),
    ;
}
impl<E: Event + Clone, A: StateMutate> MultiState<E> for StatePart<A>
    where
        A::Event: TryFrom<E> + Into<E>,
{
    open spec fn can_apply(&self) -> bool {
        &&& self.spec_applied_events() < u64::MAX
    }

    open spec fn accepts(&self, event: PersistedEvent<E>) -> bool {
        &&& part_accepts(*self, event, event.event)
    }

    open spec fn spec_query_all(&self) -> Seq<FilterView> {
        with_origin(self.spec_inner().spec_query(), self.spec_version())
    }

    open spec fn spec_multi_version(&self) -> i64 {
        self.spec_version()
    }

    fn can_mutate(&self) -> (r: bool) {
        self.applied_events() < u64::MAX
    }

    fn mutate_all(&mut self, event: PersistedEvent<E>)
        ensures
            part_after(*old(self), *final(self), event, event.event),
    {
        if self.matches_event(&event) {
            self.mutate_part(event);
        }
    }

    fn query_all(&self) -> (r: StreamQuery<E>) {
        self.query_part().cast::<E>()
    }

    fn version(&self) -> (r: i64)
        ensures
            r >= self.spec_version(),
            r == self.spec_version(),
    {
        let v = self.version();
        v
    }
}

impl<E: Event + Clone, A: StateMutate, B: StateMutate> MultiState<E> for (StatePart<A>, StatePart<B>)
    where
        A::Event: TryFrom<E> + Into<E>,
        B::Event: TryFrom<E> + Into<E>,
{
    open spec fn can_apply(&self) -> bool {
        &&& self.0.spec_applied_events() < u64::MAX
        &&& self.1.spec_applied_events() < u64::MAX
    }

    open spec fn accepts(&self, event: PersistedEvent<E>) -> bool {
        &&& part_accepts_clone(self.0, event)
        &&& part_accepts(self.1, event, event.event)
    }

    open spec fn spec_query_all(&self) -> Seq<FilterView> {
        with_origin(self.0.spec_inner().spec_query(), self.0.spec_version()) + (with_origin(self.1.spec_inner().spec_query(), self.1.spec_version()))
    }

    open spec fn spec_multi_version(&self) -> i64 {
        max_version(self.0.spec_version(), self.1.spec_version())
    }

    fn can_mutate(&self) -> (r: bool) {
        self.0.applied_events() < u64::MAX && self.1.applied_events() < u64::MAX
    }

    fn mutate_all(&mut self, event: PersistedEvent<E>)
        ensures
            part_after_clone(old(self).0, final(self).0, event),
            part_after(old(self).1, final(self).1, event, event.event),
    {
        if self.0.matches_event(&event) {
            let copy = event.clone();
            let ghost before = self.0;
            let ghost applied = copy.event;
            self.0.mutate_part(copy);
            proof {
                assert(part_after(before, self.0, event, applied));
            }
        }
        if self.1.matches_event(&event) {
            self.1.mutate_part(event);
        }
    }

    fn query_all(&self) -> (r: StreamQuery<E>) {
        let q = self.0.query_part().union::<E, B::Event>(&self.1.query_part());
        q
    }

    fn version(&self) -> (r: i64)
        ensures
            r >= self.0.spec_version(),
            r >= self.1.spec_version(),
            r == self.0.spec_version() || r == self.1.spec_version(),
    {
        let v = self.1.version();
        let vi = self.0.version();
        let v = if vi >= v {
            vi
        } else {
            v
        };
        v
    }
}

impl<E: Event + Clone, A: StateMutate, B: StateMutate, C: StateMutate> MultiState<E> for (StatePart<A>, StatePart<B>, StatePart<C>)
    where
        A::Event: TryFrom<E> + Into<E>,
        B::Event: TryFrom<E> + Into<E>,
        C::Event: TryFrom<E> + Into<E>,
{
    open spec fn can_apply(&self) -> bool {
        &&& self.0.spec_applied_events() < u64::MAX
        &&& self.1.spec_applied_events() < u64::MAX
        &&& self.2.spec_applied_events() < u64::MAX
    }

    open spec fn accepts(&self, event: PersistedEvent<E>) -> bool {
        &&& part_accepts_clone(self.0, event)
        &&& part_accepts_clone(self.1, event)
        &&& part_accepts(self.2, event, event.event)
    }

    open spec fn spec_query_all(&self) -> Seq<FilterView> {
        with_origin(self.0.spec_inner().spec_query(), self.0.spec_version()) + (with_origin(self.1.spec_inner().spec_query(), self.1.spec_version()) + (with_origin(self.2.spec_inner().spec_query(), self.2.spec_version())))
    }

    open spec fn spec_multi_version(&self) -> i64 {
        max_version(self.0.spec_version(), max_version(self.1.spec_version(), self.2.spec_version()))
    }

    fn can_mutate(&self) -> (r: bool) {
        self.0.applied_events() < u64::MAX && self.1.applied_events() < u64::MAX && self.2.applied_events() < u64::MAX
    }

    fn mutate_all(&mut self, event: PersistedEvent<E>)
        ensures
            part_after_clone(old(self).0, final(self).0, event),
            part_after_clone(old(self).1, final(self).1, event),
            part_after(old(self).2, final(self).2, event, event.event),
    {
        if self.0.matches_event(&event) {
            let copy = event.clone();
            let ghost before = self.0;
            let ghost applied = copy.event;
            self.0.mutate_part(copy);
            proof {
                assert(part_after(before, self.0, event, applied));
            }
        }
        if self.1.matches_event(&event) {
            let copy = event.clone();
            let ghost before = self.1;
            let ghost applied = copy.event;
            self.1.mutate_part(copy);
            proof {
                assert(part_after(before, self.1, event, applied));
            }
        }
        if self.2.matches_event(&event) {
            self.2.mutate_part(event);
        }
    }

    fn query_all(&self) -> (r: StreamQuery<E>) {
        let q = self.1.query_part().union::<E, C::Event>(&self.2.query_part());
        let q = self.0.query_part().union::<E, E>(&q);
        q
    }

    fn version(&self) -> (r: i64)
        ensures
            r >= self.0.spec_version(),
            r >= self.1.spec_version(),
            r >= self.2.spec_version(),
            r == self.0.spec_version() || r == self.1.spec_version() || r == self.2.spec_version(),
    {
        let v = self.2.version();
        let vi = self.1.version();
        let v = if vi >= v {
            vi
        } else {
            v
        };
        let vi = self.0.version();
        let v = if vi >= v {
            vi
        } else {
            v
        };
        v
    }
}

impl<E: Event + Clone, A: StateMutate, B: StateMutate, C: StateMutate, D: StateMutate> MultiState<E> for (StatePart<A>, StatePart<B>, StatePart<C>, StatePart<D>)
    where
        A::Event: TryFrom<E> + Into<E>,
        B::Event: TryFrom<E> + Into<E>,
        C::Event: TryFrom<E> + Into<E>,
        D::Event: TryFrom<E> + Into<E>,
{
    open spec fn can_apply(&self) -> bool {
        &&& self.0.spec_applied_events() < u64::MAX
        &&& self.1.spec_applied_events() < u64::MAX
        &&& self.2.spec_applied_events() < u64::MAX
        &&& self.3.spec_applied_events() < u64::MAX
    }

    open spec fn accepts(&self, event: PersistedEvent<E>) -> bool {
        &&& part_accepts_clone(self.0, event)
        &&& part_accepts_clone(self.1, event)
        &&& part_accepts_clone(self.2, event)
        &&& part_accepts(self.3, event, event.event)
    }

    open spec fn spec_query_all(&self) -> Seq<FilterView> {
        with_origin(self.0.spec_inner().spec_query(), self.0.spec_version()) + (with_origin(self.1.spec_inner().spec_query(), self.1.spec_version()) + (with_origin(self.2.spec_inner().spec_query(), self.2.spec_version()) + (with_origin(self.3.spec_inner().spec_query(), self.3.spec_version()))))
    }

    open spec fn spec_multi_version(&self) -> i64 {
        max_version(self.0.spec_version(), max_version(self.1.spec_version(), max_version(self.2.spec_version(), self.3.spec_version())))
    }

    fn can_mutate(&self) -> (r: bool) {
        self.0.applied_events() < u64::MAX && self.1.applied_events() < u64::MAX && self.2.applied_events() < u64::MAX && self.3.applied_events() < u64::MAX
    }

    fn mutate_all(&mut self, event: PersistedEvent<E>)
        ensures
            part_after_clone(old(self).0, final(self).0, event),
            part_after_clone(old(self).1, final(self).1, event),
            part_after_clone(old(self).2, final(self).2, event),
            part_after(old(self).3, final(self).3, event, event.event),
    {
        if self.0.matches_event(&event) {
            let copy = event.clone();
            let ghost before = self.0;
            let ghost applied = copy.event;
            self.0.mutate_part(copy);
            proof {
                assert(part_after(before, self.0, event, applied));
            }
        }
        if self.1.matches_event(&event) {
            let copy = event.clone();
            let ghost before = self.1;
            let ghost applied = copy.event;
            self.1.mutate_part(copy);
            proof {
                assert(part_after(before, self.1, event, applied));
            }
        }
        if self.2.matches_event(&event) {
            let copy = event.clone();
            let ghost before = self.2;
            let ghost applied = copy.event;
            self.2.mutate_part(copy);
            proof {
                assert(part_after(before, self.2, event, applied));
            }
        }
        if self.3.matches_event(&event) {
            self.3.mutate_part(event);
        }
    }

    fn query_all(&self) -> (r: StreamQuery<E>) {
        let q = self.2.query_part().union::<E, D::Event>(&self.3.query_part());
        let q = self.1.query_part().union::<E, E>(&q);
        let q = self.0.query_part().union::<E, E>(&q);
        q
    }

    fn version(&self) -> (r: i64)
        ensures
            r >= self.0.spec_version(),
            r >= self.1.spec_version(),
            r >= self.2.spec_version(),
            r >= self.3.spec_version(),
            r == self.0.spec_version() || r == self.1.spec_version() || r == self.2.spec_version() || r == self.3.spec_version(),
    {
        let v = self.3.version();
        let vi = self.2.version();
        let v = if vi >= v {
            vi
        } else {
            v
        };
        let vi = self.1.version();
        let v = if vi >= v {
            vi
        } else {
            v
        };
        let vi = self.0.version();
        let v = if vi >= v {
            vi
        } else {
            v
        };
        v
    }
}

impl<E: Event + Clone, A: StateMutate, B: StateMutate, C: StateMutate, D: StateMutate, G: StateMutate> MultiState<E> for (StatePart<A>, StatePart<B>, StatePart<C>, StatePart<D>, StatePart<G>)
    where
        A::Event: TryFrom<E> + Into<E>,
        B::Event: TryFrom<E> + Into<E>,
        C::Event: TryFrom<E> + Into<E>,
        D::Event: TryFrom<E> + Into<E>,
        G::Event: TryFrom<E> + Into<E>,
{
    open spec fn can_apply(&self) -> bool {
        &&& self.0.spec_applied_events() < u64::MAX
        &&& self.1.spec_applied_events() < u64::MAX
        &&& self.2.spec_applied_events() < u64::MAX
        &&& self.3.spec_applied_events() < u64::MAX
        &&& self.4.spec_applied_events() < u64::MAX
    }

    open spec fn accepts(&self, event: PersistedEvent<E>) -> bool {
        &&& part_accepts_clone(self.0, event)
        &&& part_accepts_clone(self.1, event)
        &&& part_accepts_clone(self.2, event)
        &&& part_accepts_clone(self.3, event)
        &&& part_accepts(self.4, event, event.event)
    }

    open spec fn spec_query_all(&self) -> Seq<FilterView> {
        with_origin(self.0.spec_inner().spec_query(), self.0.spec_version()) + (with_origin(self.1.spec_inner().spec_query(), self.1.spec_version()) + (with_origin(self.2.spec_inner().spec_query(), self.2.spec_version()) + (with_origin(self.3.spec_inner().spec_query(), self.3.spec_version()) + (with_origin(self.4.spec_inner().spec_query(), self.4.spec_version())))))
    }

    open spec fn spec_multi_version(&self) -> i64 {
        max_version(self.0.spec_version(), max_version(self.1.spec_version(), max_version(self.2.spec_version(), max_version(self.3.spec_version(), self.4.spec_version()))))
    }

    fn can_mutate(&self) -> (r: bool) {
        self.0.applied_events() < u64::MAX && self.1.applied_events() < u64::MAX && self.2.applied_events() < u64::MAX && self.3.applied_events() < u64::MAX && self.4.applied_events() < u64::MAX
    }

    fn mutate_all(&mut self, event: PersistedEvent<E>)
        ensures
            part_after_clone(old(self).0, final(self).0, event),
            part_after_clone(old(self).1, final(self).1, event),
            part_after_clone(old(self).2, final(self).2, event),
            part_after_clone(old(self).3, final(self).3, event),
            part_after(old(self).4, final(self).4, event, event.event),
    {
        if self.0.matches_event(&event) {
            let copy = event.clone();
            let ghost before = self.0;
            let ghost applied = copy.event;
            self.0.mutate_part(copy);
            proof {
                assert(part_after(before, self.0, event, applied));
            }
        }
        if self.1.matches_event(&event) {
            let copy = event.clone();
            let ghost before = self.1;
            let ghost applied = copy.event;
            self.1.mutate_part(copy);
            proof {
                assert(part_after(before, self.1, event, applied));
            }
        }
        if self.2.matches_event(&event) {
            let copy = event.clone();
            let ghost before = self.2;
            let ghost applied = copy.event;
            self.2.mutate_part(copy);
            proof {
                assert(part_after(before, self.2, event, applied));
            }
        }
        if self.3.matches_event(&event) {
            let copy = event.clone();
            let ghost before = self.3;
            let ghost applied = copy.event;
            self.3.mutate_part(copy);
            proof {
                assert(part_after(before, self.3, event, applied));
            }
        }
        if self.4.matches_event(&event) {
            self.4.mutate_part(event);
        }
    }

    fn query_all(&self) -> (r: StreamQuery<E>) {
        let q = self.3.query_part().union::<E, G::Event>(&self.4.query_part());
        let q = self.2.query_part().union::<E, E>(&q);
        let q = self.1.query_part().union::<E, E>(&q);
        let q = self.0.query_part().union::<E, E>(&q);
        q
    }

    fn version(&self) -> (r: i64)
        ensures
            r >= self.0.spec_version(),
            r >= self.1.spec_version(),
            r >= self.2.spec_version(),
            r >= self.3.spec_version(),
            r >= self.4.spec_version(),
            r == self.0.spec_version() || r == self.1.spec_version() || r == self.2.spec_version() || r == self.3.spec_version() || r == self.4.spec_version(),
    {
        let v = self.4.version();
        let vi = self.3.version();
        let v = if vi >= v {
            vi
        } else {
            v
        };
        let vi = self.2.version();
        let v = if vi >= v {
            vi
        } else {
            v
        };
        let vi = self.1.version();
        let v = if vi >= v {
            vi
        } else {
            v
        };
        let vi = self.0.version();
        let v = if vi >= v {
            vi
        } else {
            v
        };
        v
    }
}

/// Converts states into state parts with version zero.
pub trait IntoStatePart<T>: Sized {
    /// The tuple of state parts.
    type Target;

    /// Converts the states into state parts.
    fn into_state_part(self) -> Self::Target;
}

/// Extracts the states from state parts.
pub trait IntoState<T>: Sized {
    /// Converts the state parts into states.
    fn into_state(self) -> T;
}

impl<A: StateQuery> IntoStatePart<A> for A {
    type Target = StatePart<A>;

    fn into_state_part(self) -> (r: StatePart<A>)
        ensures
            r.spec_version() == 0 && r.spec_applied_events() == 0 && r.spec_inner() == self,
    {
        StatePart::new(0, self)
    }
}

impl<A: StateQuery> IntoState<A> for StatePart<A> {
    fn into_state(self) -> (r: A)
        ensures
            r == self.spec_inner(),
    {
        self.inner
    }
}

impl<A: StateQuery, B: StateQuery> IntoStatePart<(A, B)> for (A, B) {
    type Target = (StatePart<A>, StatePart<B>);

    fn into_state_part(self) -> (r: (StatePart<A>, StatePart<B>))
        ensures
            r.0.spec_version() == 0 && r.0.spec_applied_events() == 0 && r.0.spec_inner() == self.0,
            r.1.spec_version() == 0 && r.1.spec_applied_events() == 0 && r.1.spec_inner() == self.1,
    {
        (StatePart::new(0, self.0), StatePart::new(0, self.1))
    }
}

impl<A: StateQuery, B: StateQuery> IntoState<(A, B)> for (StatePart<A>, StatePart<B>) {
    fn into_state(self) -> (r: (A, B))
        ensures
            r.0 == self.0.spec_inner(),
            r.1 == self.1.spec_inner(),
    {
        (self.0.into_state(), self.1.into_state())
    }
}

impl<A: StateQuery, B: StateQuery, C: StateQuery> IntoStatePart<(A, B, C)> for (A, B, C) {
    type Target = (StatePart<A>, StatePart<B>, StatePart<C>);

    fn into_state_part(self) -> (r: (StatePart<A>, StatePart<B>, StatePart<C>))
        ensures
            r.0.spec_version() == 0 && r.0.spec_applied_events() == 0 && r.0.spec_inner() == self.0,
            r.1.spec_version() == 0 && r.1.spec_applied_events() == 0 && r.1.spec_inner() == self.1,
            r.2.spec_version() == 0 && r.2.spec_applied_events() == 0 && r.2.spec_inner() == self.2,
    {
        (StatePart::new(0, self.0), StatePart::new(0, self.1), StatePart::new(0, self.2))
    }
}

impl<A: StateQuery, B: StateQuery, C: StateQuery> IntoState<(A, B, C)> for (StatePart<A>, StatePart<B>, StatePart<C>) {
    fn into_state(self) -> (r: (A, B, C))
        ensures
            r.0 == self.0.spec_inner(),
            r.1 == self.1.spec_inner(),
            r.2 == self.2.spec_inner(),
    {
        (self.0.into_state(), self.1.into_state(), self.2.into_state())
    }
}

impl<A: StateQuery, B: StateQuery, C: StateQuery, D: StateQuery> IntoStatePart<(A, B, C, D)> for (A, B, C, D) {
    type Target = (StatePart<A>, StatePart<B>, StatePart<C>, StatePart<D>);

    fn into_state_part(self) -> (r: (StatePart<A>, StatePart<B>, StatePart<C>, StatePart<D>))
        ensures
            r.0.spec_version() == 0 && r.0.spec_applied_events() == 0 && r.0.spec_inner() == self.0,
            r.1.spec_version() == 0 && r.1.spec_applied_events() == 0 && r.1.spec_inner() == self.1,
            r.2.spec_version() == 0 && r.2.spec_applied_events() == 0 && r.2.spec_inner() == self.2,
            r.3.spec_version() == 0 && r.3.spec_applied_events() == 0 && r.3.spec_inner() == self.3,
    {
        (StatePart::new(0, self.0), StatePart::new(0, self.1), StatePart::new(0, self.2), StatePart::new(0, self.3))
    }
}

impl<A: StateQuery, B: StateQuery, C: StateQuery, D: StateQuery> IntoState<(A, B, C, D)> for (StatePart<A>, StatePart<B>, StatePart<C>, StatePart<D>) {
    fn into_state(self) -> (r: (A, B, C, D))
        ensures
            r.0 == self.0.spec_inner(),
            r.1 == self.1.spec_inner(),
            r.2 == self.2.spec_inner(),
            r.3 == self.3.spec_inner(),
    {
        (self.0.into_state(), self.1.into_state(), self.2.into_state(), self.3.into_state())
    }
}

impl<A: StateQuery, B: StateQuery, C: StateQuery, D: StateQuery, G: StateQuery> IntoStatePart<(A, B, C, D, G)> for (A, B, C, D, G) {
    type Target = (StatePart<A>, StatePart<B>, StatePart<C>, StatePart<D>, StatePart<G>);

    fn into_state_part(self) -> (r: (StatePart<A>, StatePart<B>, StatePart<C>, StatePart<D>, StatePart<G>))
        ensures
            r.0.spec_version() == 0 && r.0.spec_applied_events() == 0 && r.0.spec_inner() == self.0,
            r.1.spec_version() == 0 && r.1.spec_applied_events() == 0 && r.1.spec_inner() == self.1,
            r.2.spec_version() == 0 && r.2.spec_applied_events() == 0 && r.2.spec_inner() == self.2,
            r.3.spec_version() == 0 && r.3.spec_applied_events() == 0 && r.3.spec_inner() == self.3,
            r.4.spec_version() == 0 && r.4.spec_applied_events() == 0 && r.4.spec_inner() == self.4,
    {
        (StatePart::new(0, self.0), StatePart::new(0, self.1), StatePart::new(0, self.2), StatePart::new(0, self.3), StatePart::new(0, self.4))
    }
}

impl<A: StateQuery, B: StateQuery, C: StateQuery, D: StateQuery, G: StateQuery> IntoState<(A, B, C, D, G)> for (StatePart<A>, StatePart<B>, StatePart<C>, StatePart<D>, StatePart<G>) {
    fn into_state(self) -> (r: (A, B, C, D, G))
        ensures
            r.0 == self.0.spec_inner(),
            r.1 == self.1.spec_inner(),
            r.2 == self.2.spec_inner(),
            r.3 == self.3.spec_inner(),
            r.4 == self.4.spec_inner(),
    {
        (self.0.into_state(), self.1.into_state(), self.2.into_state(), self.3.into_state(), self.4.into_state())
    }
}

} // verus!
