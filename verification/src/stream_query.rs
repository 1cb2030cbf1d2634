//! Stream queries: the filters that select, from an event stream, the events of interest
//! for building a state, and the origin from which the stream is read.
use vstd::prelude::*;
use std::marker::PhantomData;

use crate::domain_identifier::{entries_map, DomainIdentifierSet};
use crate::event::{has_str, strs_view, Event, PersistedEvent};
use crate::identifier::IdValue;
use crate::utils::eq;

verus! {

/// The abstract value of a stream filter.
pub struct FilterView {
    /// The names of the events the filter selects.
    pub events: Seq<Seq<char>>,
    /// The domain identifiers a selected event must carry, in key order.
    pub identifiers: Seq<(Seq<char>, IdValue)>,
    /// Only events with an ID above the origin are selected.
    pub origin: i64,
    /// Event names excluded from the selection, if any.
    pub excluded: Option<Seq<Seq<char>>>,
}

/// Whether an event with the given name, domain identifiers and ID passes the filter.
pub open spec fn filter_matches(
    f: FilterView,
    name: Seq<char>,
    ids: Map<Seq<char>, IdValue>,
    id: i64,
) -> bool {
    &&& !(f.excluded matches Some(ex) && has_str(ex, name))
    &&& has_str(f.events, name)
    &&& forall|i: int|
        0 <= i < f.identifiers.len() ==> ids.contains_key((#[trigger] f.identifiers[i]).0)
            && ids[f.identifiers[i].0] == f.identifiers[i].1
    &&& id > f.origin
}

/// Whether an event passes at least one of the filters.
pub open spec fn query_matches(
    q: Seq<FilterView>,
    name: Seq<char>,
    ids: Map<Seq<char>, IdValue>,
    id: i64,
) -> bool {
    exists|i: int| 0 <= i < q.len() && filter_matches(#[trigger] q[i], name, ids, id)
}

/// Whether the filter selects an event with the given name and domain identifiers, its ID
/// aside: the name is among the filter's events and not excluded, and the event carries
/// every domain identifier of the filter with the same value.
pub open spec fn filter_selects(f: FilterView, name: Seq<char>, ids: Map<Seq<char>, IdValue>) -> bool {
    &&& !(f.excluded matches Some(ex) && has_str(ex, name))
    &&& has_str(f.events, name)
    &&& forall|i: int|
        0 <= i < f.identifiers.len() ==> ids.contains_key((#[trigger] f.identifiers[i]).0)
            && ids[f.identifiers[i].0] == f.identifiers[i].1
}

/// A filter matches an event exactly when it selects it and the event comes after the
/// filter's origin.
pub proof fn lemma_filter_matches_split(f: FilterView, name: Seq<char>, ids: Map<Seq<char>, IdValue>, id: i64)
    ensures
        filter_matches(f, name, ids, id) == (filter_selects(f, name, ids) && id > f.origin),
{
}

/// The union of two queries matches an event exactly when one of them does.
pub proof fn lemma_union_matches(
    a: Seq<FilterView>,
    b: Seq<FilterView>,
    name: Seq<char>,
    ids: Map<Seq<char>, IdValue>,
    id: i64,
)
    ensures
        query_matches(a + b, name, ids, id) == (query_matches(a, name, ids, id) || query_matches(b, name, ids, id)),
{
    let ab = a + b;
    if query_matches(ab, name, ids, id) {
        let i = choose|i: int| 0 <= i < ab.len() && filter_matches(#[trigger] ab[i], name, ids, id);
        if i < a.len() {
            assert(ab[i] == a[i]);
            assert(query_matches(a, name, ids, id));
        } else {
            assert(ab[i] == b[i - a.len()]);
            assert(query_matches(b, name, ids, id));
        }
    }
    if query_matches(a, name, ids, id) {
        let i = choose|i: int| 0 <= i < a.len() && filter_matches(#[trigger] a[i], name, ids, id);
        assert(ab[i] == a[i]);
    }
    if query_matches(b, name, ids, id) {
        let i = choose|i: int| 0 <= i < b.len() && filter_matches(#[trigger] b[i], name, ids, id);
        assert(ab[i + a.len()] == b[i]);
    }
}

/// Read from an origin, a query matches exactly the events after that origin that one of
/// its filters selects, whatever the origins the filters had.
pub proof fn lemma_change_origin_matches(
    q: Seq<FilterView>,
    origin: i64,
    name: Seq<char>,
    ids: Map<Seq<char>, IdValue>,
    id: i64,
)
    ensures
        query_matches(with_origin(q, origin), name, ids, id) == (id > origin && exists|i: int|
            0 <= i < q.len() && #[trigger] filter_selects(q[i], name, ids)),
{
    let w = with_origin(q, origin);
    if query_matches(w, name, ids, id) {
        let i = choose|i: int| 0 <= i < w.len() && filter_matches(#[trigger] w[i], name, ids, id);
        assert(w[i] == FilterView { origin, ..q[i] });
        assert(w[i].identifiers == q[i].identifiers);
        assert(w[i].events == q[i].events);
        assert(w[i].excluded == q[i].excluded);
        assert forall|j: int| 0 <= j < q[i].identifiers.len() implies ids.contains_key(
            (#[trigger] q[i].identifiers[j]).0,
        ) && ids[q[i].identifiers[j].0] == q[i].identifiers[j].1 by {
            assert(w[i].identifiers[j] == q[i].identifiers[j]);
        }
        assert(filter_selects(q[i], name, ids));
    }
    if id > origin && exists|i: int| 0 <= i < q.len() && #[trigger] filter_selects(q[i], name, ids) {
        let i = choose|i: int| 0 <= i < q.len() && #[trigger] filter_selects(q[i], name, ids);
        assert(w[i] == FilterView { origin, ..q[i] });
        assert(filter_matches(w[i], name, ids, id));
    }
}

/// An event whose name was excluded from a query is matched by none of its filters.
pub proof fn lemma_excluded_never_match(
    q: Seq<FilterView>,
    excluded: Seq<Seq<char>>,
    name: Seq<char>,
    ids: Map<Seq<char>, IdValue>,
    id: i64,
)
    requires
        has_str(excluded, name),
    ensures
        !query_matches(with_excluded(q, excluded), name, ids, id),
{
    let w = with_excluded(q, excluded);
    if query_matches(w, name, ids, id) {
        let i = choose|i: int| 0 <= i < w.len() && filter_matches(#[trigger] w[i], name, ids, id);
        let f = q[i];
        assert(w[i] == FilterView { excluded: Some(selected_of(excluded, f.events)), ..f });
        let k = choose|k: int| 0 <= k < excluded.len() && excluded[k] == name;
        let pred = |e: Seq<char>| has_str(f.events, e);
        assert(pred(name));
        excluded.lemma_filter_contains(pred, k);
        let sel = selected_of(excluded, f.events);
        assert(sel.contains(name));
        let m = choose|m: int| 0 <= m < sel.len() && sel[m] == name;
        assert(has_str(sel, name));
    }
}

/// The query without a filter, over the given event names, matches exactly the events with
/// one of those names and an ID above zero, whatever their domain identifiers.
pub proof fn lemma_unfiltered_query_matches(
    events: Seq<Seq<char>>,
    name: Seq<char>,
    ids: Map<Seq<char>, IdValue>,
    id: i64,
)
    ensures
        query_matches(
            seq![FilterView { events, identifiers: Seq::empty(), origin: 0, excluded: None }],
            name,
            ids,
            id,
        ) == (has_str(events, name) && id > 0),
{
    let f = FilterView { events, identifiers: Seq::empty(), origin: 0, excluded: None };
    let q = seq![f];
    if has_str(events, name) && id > 0 {
        assert(filter_matches(q[0], name, ids, id));
    }
}

/// Excluding events from a query whose filters exclude nothing leaves every other event
/// matched as before.
pub proof fn lemma_exclusion_keeps_others(
    q: Seq<FilterView>,
    excluded: Seq<Seq<char>>,
    name: Seq<char>,
    ids: Map<Seq<char>, IdValue>,
    id: i64,
)
    requires
        !has_str(excluded, name),
        forall|i: int| 0 <= i < q.len() ==> (#[trigger] q[i]).excluded is None,
    ensures
        query_matches(with_excluded(q, excluded), name, ids, id) == query_matches(q, name, ids, id),
{
    let w = with_excluded(q, excluded);
    assert forall|i: int| 0 <= i < q.len() implies #[trigger] filter_matches(w[i], name, ids, id) == filter_matches(
        q[i],
        name,
        ids,
        id,
    ) by {
        let f = q[i];
        let sel = selected_of(excluded, f.events);
        assert(w[i] == FilterView { excluded: Some(sel), ..f });
        assert(w[i].identifiers == f.identifiers);
        assert(w[i].events == f.events);
        assert(w[i].origin == f.origin);
        assert(f.excluded is None);
        if has_str(sel, name) {
            let m = choose|m: int| 0 <= m < sel.len() && sel[m] == name;
            let pred = |e: Seq<char>| has_str(f.events, e);
            assert(sel.contains(name));
            excluded.lemma_filter_contains_rev(pred, name);
            let k = choose|k: int| 0 <= k < excluded.len() && excluded[k] == name;
            assert(has_str(excluded, name));
        }
        assert(!has_str(sel, name));
        if filter_matches(w[i], name, ids, id) {
            assert forall|j: int| 0 <= j < f.identifiers.len() implies ids.contains_key(
                (#[trigger] f.identifiers[j]).0,
            ) && ids[f.identifiers[j].0] == f.identifiers[j].1 by {
                assert(w[i].identifiers[j] == f.identifiers[j]);
            }
        }
        if filter_matches(f, name, ids, id) {
            assert forall|j: int| 0 <= j < w[i].identifiers.len() implies ids.contains_key(
                (#[trigger] w[i].identifiers[j]).0,
            ) && ids[w[i].identifiers[j].0] == w[i].identifiers[j].1 by {
                assert(w[i].identifiers[j] == f.identifiers[j]);
            }
        }
    }
    if query_matches(w, name, ids, id) {
        let i = choose|i: int| 0 <= i < w.len() && filter_matches(#[trigger] w[i], name, ids, id);
        assert(filter_matches(q[i], name, ids, id));
    }
    if query_matches(q, name, ids, id) {
        let i = choose|i: int| 0 <= i < q.len() && filter_matches(#[trigger] q[i], name, ids, id);
        assert(filter_matches(w[i], name, ids, id));
    }
}

/// A filter of an event stream: the events it selects, the domain identifiers they must
/// carry, the origin after which events count, and the events it excludes.
#[derive(Debug)]
pub struct StreamFilter<E: Event> {
    events: &'static [&'static str],
    identifiers: DomainIdentifierSet,
    origin: i64,
    excluded_events: Option<Vec<&'static str>>,
    event_type: PhantomData<E>,
}

impl<E: Event> View for StreamFilter<E> {
    type V = FilterView;

    closed spec fn view(&self) -> FilterView {
        FilterView {
            events: strs_view(self.events@),
            identifiers: self.identifiers@,
            origin: self.origin,
            excluded: match self.excluded_events {
                Some(v) => Some(strs_view(v@)),
                None => None,
            },
        }
    }
}

fn clone_excluded(excluded: &Option<Vec<&'static str>>) -> (r: Option<Vec<&'static str>>)
    ensures
        r matches Some(v) ==> excluded matches Some(w) && v@ == w@,
        r is None <==> excluded is None,
{
    match excluded {
        Some(v) => Some(v.clone()),
        None => None,
    }
}

impl<E: Event> Clone for StreamFilter<E> {
    fn clone(&self) -> (r: Self)
        ensures
            r@ == self@,
    {
        let r = StreamFilter {
            events: self.events,
            identifiers: self.identifiers.clone(),
            origin: self.origin,
            excluded_events: clone_excluded(&self.excluded_events),
            event_type: PhantomData,
        };
        proof {
            assert(r@.excluded == self@.excluded);
        }
        r
    }
}

impl<E: Event> StreamFilter<E> {
    /// A filter selecting all the events of `E` that carry the given domain identifiers.
    pub fn new(identifiers: DomainIdentifierSet) -> (r: Self)
        ensures
            r@ == (FilterView {
                events: E::spec_schema().event_names(),
                identifiers: identifiers@,
                origin: 0,
                excluded: None,
            }),
    {
        let schema = E::schema();
        StreamFilter {
            events: schema.events,
            identifiers,
            origin: 0,
            excluded_events: None,
            event_type: PhantomData,
        }
    }

    /// The same filter, selecting only events after `origin`.
    pub fn change_origin(self, origin: i64) -> (r: Self)
        ensures
            r@ == (FilterView { origin, ..self@ }),
    {
        StreamFilter { origin, ..self }
    }

    /// The same filter, excluding the given events.
    pub fn exclude_events(self, excluded_events: &'static [&'static str]) -> (r: Self)
        ensures
            r@ == (FilterView { excluded: Some(strs_view(excluded_events@)), ..self@ }),
    {
        let excluded = vstd::slice::slice_to_vec(excluded_events);
        StreamFilter { excluded_events: Some(excluded), ..self }
    }

    /// The same filter, for a query over another event type.
    pub fn cast<O: Event>(&self) -> (r: StreamFilter<O>)
        where
            E: Into<O>,
        ensures
            r@ == self@,
    {
        let r = StreamFilter {
            events: self.events,
            identifiers: self.identifiers.clone(),
            origin: self.origin,
            excluded_events: clone_excluded(&self.excluded_events),
            event_type: PhantomData,
        };
        proof {
            assert(r@.excluded == self@.excluded);
        }
        r
    }

    /// The names of the events the filter selects.
    pub fn events(&self) -> (r: &'static [&'static str])
        ensures
            strs_view(r@) == self@.events,
    {
        self.events
    }

    /// The domain identifiers a selected event must carry.
    pub fn identifiers(&self) -> (r: &DomainIdentifierSet)
        ensures
            r@ == self@.identifiers,
    {
        &self.identifiers
    }

    /// The origin: only events with a greater ID are selected.
    pub fn origin(&self) -> (r: i64)
        ensures
            r == self@.origin,
    {
        self.origin
    }

    /// The excluded events, if any.
    pub fn excluded_events(&self) -> (r: Option<&Vec<&'static str>>)
        ensures
            r is Some <==> self@.excluded is Some,
            r matches Some(v) ==> strs_view(v@) == self@.excluded->0,
    {
        match &self.excluded_events {
            Some(v) => Some(v),
            None => None,
        }
    }
}

/// Whether `name` occurs in the slice.
pub fn contains_name(names: &[&'static str], name: &str) -> (r: bool)
    ensures
        r == has_str(strs_view(names@), name@),
{
    let mut i: usize = 0;
    while i < names.len()
        invariant
            i <= names@.len(),
            forall|j: int| 0 <= j < i ==> (#[trigger] names@[j])@ != name@,
        decreases names@.len() - i,
    {
        if eq(names[i], name) {
            proof {
                assert(strs_view(names@)[i as int] == name@);
            }
            return true;
        }
        i = i + 1;
    }
    proof {
        if has_str(strs_view(names@), name@) {
            let k = choose|k: int| 0 <= k < strs_view(names@).len() && strs_view(names@)[k] == name@;
            assert(names@[k]@ == name@);
        }
    }
    false
}

/// A query over an event stream: an event is selected when any of the filters selects it.
#[derive(Debug)]
pub struct StreamQuery<E: Event> {
    filters: Vec<StreamFilter<E>>,
    event_type: PhantomData<E>,
}

/// The views of a sequence of filters.
pub open spec fn filters_view<E: Event>(fs: Seq<StreamFilter<E>>) -> Seq<FilterView> {
    fs.map_values(|f: StreamFilter<E>| f@)
}

/// Viewing a sequence with one more filter appends that filter's view.
pub proof fn lemma_filters_view_push<E: Event>(fs: Seq<StreamFilter<E>>, f: StreamFilter<E>)
    ensures
        filters_view(fs.push(f)) == filters_view(fs).push(f@),
{
    assert(filters_view(fs.push(f)) =~= filters_view(fs).push(f@));
}

/// Taking one more element of a sequence appends that element.
pub proof fn lemma_take_push<T>(s: Seq<T>, i: int)
    requires
        0 <= i < s.len(),
    ensures
        s.take(i + 1) == s.take(i).push(s[i]),
{
    assert(s.take(i + 1) =~= s.take(i).push(s[i]));
}

impl<E: Event> View for StreamQuery<E> {
    type V = Seq<FilterView>;

    closed spec fn view(&self) -> Seq<FilterView> {
        filters_view(self.filters@)
    }
}

impl<E: Event> Clone for StreamQuery<E> {
    fn clone(&self) -> (r: Self)
        ensures
            r@ == self@,
    {
        let r = self.cast::<E>();
        r
    }
}

/// Whether two slices hold the same strings in the same order.
pub fn strs_eq(a: &[&str], b: &[&str]) -> (r: bool)
    ensures
        r == (strs_view(a@) == strs_view(b@)),
{
    if a.len() != b.len() {
        proof {
            assert(strs_view(a@).len() != strs_view(b@).len());
        }
        return false;
    }
    let mut i: usize = 0;
    while i < a.len()
        invariant
            a@.len() == b@.len(),
            i <= a@.len(),
            forall|j: int| 0 <= j < i ==> (#[trigger] a@[j])@ == b@[j]@,
        decreases a@.len() - i,
    {
        if !eq(a[i], b[i]) {
            proof {
                assert(strs_view(a@)[i as int] != strs_view(b@)[i as int]);
            }
            return false;
        }
        i = i + 1;
    }
    proof {
        assert(strs_view(a@) =~= strs_view(b@));
    }
    true
}

impl<E: Event> PartialEq for StreamFilter<E> {
    fn eq(&self, other: &Self) -> (r: bool) {
        let same_excluded = match (&self.excluded_events, &other.excluded_events) {
            (Some(a), Some(b)) => strs_eq(a.as_slice(), b.as_slice()),
            (None, None) => true,
            _ => false,
        };
        strs_eq(self.events, other.events) && self.identifiers == other.identifiers && self.origin == other.origin
            && same_excluded
    }
}

impl<E: Event> vstd::std_specs::cmp::PartialEqSpecImpl for StreamFilter<E> {
    open spec fn obeys_eq_spec() -> bool {
        true
    }

    open spec fn eq_spec(&self, other: &StreamFilter<E>) -> bool {
        self@ == other@
    }
}

impl<E: Event> Eq for StreamFilter<E> {}

impl<E: Event> PartialEq for StreamQuery<E> {
    fn eq(&self, other: &Self) -> (r: bool) {
        if self.filters.len() != other.filters.len() {
            proof {
                assert(self@.len() != other@.len());
            }
            return false;
        }
        let mut i: usize = 0;
        while i < self.filters.len()
            invariant
                self.filters@.len() == other.filters@.len(),
                i <= self.filters@.len(),
                forall|j: int| 0 <= j < i ==> (#[trigger] self@[j]) == other@[j],
            decreases self.filters@.len() - i,
        {
            if self.filters[i] != other.filters[i] {
                proof {
                    assert(self@[i as int] == self.filters@[i as int]@);
                    assert(other@[i as int] == other.filters@[i as int]@);
                }
                return false;
            }
            proof {
                assert(self@[i as int] == self.filters@[i as int]@);
                assert(other@[i as int] == other.filters@[i as int]@);
            }
            i = i + 1;
        }
        proof {
            assert(self@ =~= other@);
        }
        true
    }
}

impl<E: Event> vstd::std_specs::cmp::PartialEqSpecImpl for StreamQuery<E> {
    open spec fn obeys_eq_spec() -> bool {
        true
    }

    open spec fn eq_spec(&self, other: &StreamQuery<E>) -> bool {
        self@ == other@
    }
}

impl<E: Event> Eq for StreamQuery<E> {}

/// `q` with the origin of every filter replaced.
pub open spec fn with_origin(q: Seq<FilterView>, origin: i64) -> Seq<FilterView> {
    q.map_values(|f: FilterView| FilterView { origin, ..f })
}

/// The names of `excluded` that the filter selects, in order.
pub open spec fn selected_of(excluded: Seq<Seq<char>>, events: Seq<Seq<char>>) -> Seq<Seq<char>> {
    excluded.filter(|e: Seq<char>| has_str(events, e))
}

/// Every filter excludes those of the given names that it selects.
pub open spec fn with_excluded(q: Seq<FilterView>, excluded: Seq<Seq<char>>) -> Seq<FilterView> {
    q.map_values(|f: FilterView| FilterView { excluded: Some(selected_of(excluded, f.events)), ..f })
}

impl<E: Event> StreamQuery<E> {
    /// The filters of the query.
    pub fn filters(&self) -> (r: &[StreamFilter<E>])
        ensures
            filters_view(r@) == self@,
    {
        self.filters.as_slice()
    }

    /// The same query over another event type.
    pub fn cast<U: Event>(&self) -> (r: StreamQuery<U>)
        where
            E: Into<U>,
        ensures
            r@ == self@,
    {
        let mut filters: Vec<StreamFilter<U>> = Vec::new();
        let mut i: usize = 0;
        while i < self.filters.len()
            invariant
                i <= self.filters@.len(),
                filters_view(filters@) == filters_view(self.filters@).take(i as int),
            decreases self.filters@.len() - i,
        {
            let ghost old_filters = filters@;
            let f = self.filters[i].cast::<U>();
            filters.push(f);
            proof {
                lemma_filters_view_push(old_filters, f);
                lemma_take_push(filters_view(self.filters@), i as int);
            }
            i = i + 1;
        }
        proof {
            assert(filters_view(self.filters@).take(i as int) =~= filters_view(self.filters@));
        }
        StreamQuery { filters, event_type: PhantomData }
    }

    /// The union of two queries: an event is selected when either selects it.
    pub fn union<U: Event, O: Event>(&self, other: &StreamQuery<O>) -> (r: StreamQuery<U>)
        where
            E: Into<U>,
            O: Into<U>,
        ensures
            r@ == self@ + other@,
    {
        let mut filters: Vec<StreamFilter<U>> = Vec::new();
        let mut i: usize = 0;
        while i < self.filters.len()
            invariant
                i <= self.filters@.len(),
                filters_view(filters@) == filters_view(self.filters@).take(i as int),
            decreases self.filters@.len() - i,
        {
            let ghost old_filters = filters@;
            let f = self.filters[i].cast::<U>();
            filters.push(f);
            proof {
                lemma_filters_view_push(old_filters, f);
                lemma_take_push(filters_view(self.filters@), i as int);
            }
            i = i + 1;
        }
        proof {
            assert(filters_view(self.filters@).take(i as int) =~= filters_view(self.filters@));
        }
        let mut j: usize = 0;
        while j < other.filters.len()
            invariant
                j <= other.filters@.len(),
                filters_view(filters@) == filters_view(self.filters@) + filters_view(other.filters@).take(j as int),
            decreases other.filters@.len() - j,
        {
            let ghost old_filters = filters@;
            let f = other.filters[j].cast::<U>();
            filters.push(f);
            proof {
                lemma_filters_view_push(old_filters, f);
                lemma_take_push(filters_view(other.filters@), j as int);
                assert(filters_view(self.filters@) + filters_view(other.filters@).take(j + 1) =~= (filters_view(self.filters@) + filters_view(other.filters@).take(j as int)).push(f@));
            }
            j = j + 1;
        }
        proof {
            assert(filters_view(other.filters@).take(j as int) =~= filters_view(other.filters@));
        }
        StreamQuery { filters, event_type: PhantomData }
    }

    /// The same query with the origin of every filter set to `origin`.
    pub fn change_origin(self, origin: i64) -> (r: Self)
        ensures
            r@ == with_origin(self@, origin),
    {
        let mut filters: Vec<StreamFilter<E>> = Vec::new();
        let mut i: usize = 0;
        while i < self.filters.len()
            invariant
                i <= self.filters@.len(),
                filters_view(filters@) == with_origin(filters_view(self.filters@), origin).take(i as int),
            decreases self.filters@.len() - i,
        {
            let ghost old_filters = filters@;
            let f = self.filters[i].clone().change_origin(origin);
            filters.push(f);
            proof {
                lemma_filters_view_push(old_filters, f);
                lemma_take_push(with_origin(filters_view(self.filters@), origin), i as int);
            }
            i = i + 1;
        }
        proof {
            assert(with_origin(filters_view(self.filters@), origin).take(i as int) =~= with_origin(filters_view(self.filters@), origin));
        }
        StreamQuery { filters, event_type: PhantomData }
    }

    /// The same query with every filter excluding those of `excluded_events` that it selects.
    pub fn exclude_events(self, excluded_events: &'static [&'static str]) -> (r: Self)
        ensures
            r@ == with_excluded(self@, strs_view(excluded_events@)),
    {
        let ghost ex = strs_view(excluded_events@);
        let mut filters: Vec<StreamFilter<E>> = Vec::new();
        let mut i: usize = 0;
        while i < self.filters.len()
            invariant
                i <= self.filters@.len(),
                ex == strs_view(excluded_events@),
                filters_view(filters@) == with_excluded(filters_view(self.filters@), ex).take(i as int),
            decreases self.filters@.len() - i,
        {
            let f = &self.filters[i];
            let mut selected: Vec<&'static str> = Vec::new();
            let mut j: usize = 0;
            while j < excluded_events.len()
                invariant
                    j <= excluded_events@.len(),
                    ex == strs_view(excluded_events@),
                    strs_view(selected@) == selected_of(ex.take(j as int), f@.events),
                decreases excluded_events@.len() - j,
            {
                let name = excluded_events[j];
                let keep = contains_name(f.events, name);
                proof {
                    assert(ex.take(j + 1) =~= ex.take(j as int).push(name@));
                    assert(ex.take(j + 1).drop_last() =~= ex.take(j as int));
                    reveal(Seq::filter);
                }
                if keep {
                    selected.push(name);
                }
                proof {
                    assert(strs_view(selected@) =~= selected_of(ex.take(j + 1), f@.events));
                }
                j = j + 1;
            }
            proof {
                assert(ex.take(j as int) =~= ex);
            }
            let nf = StreamFilter {
                events: f.events,
                identifiers: f.identifiers.clone(),
                origin: f.origin,
                excluded_events: Some(selected),
                event_type: PhantomData,
            };
            let ghost old_filters = filters@;
            filters.push(nf);
            proof {
                lemma_filters_view_push(old_filters, nf);
                lemma_take_push(with_excluded(filters_view(self.filters@), ex), i as int);
                assert(nf@.excluded == Some(selected_of(ex, f@.events)));
                assert(nf@ == with_excluded(filters_view(self.filters@), ex)[i as int]);
            }
            i = i + 1;
        }
        proof {
            assert(with_excluded(filters_view(self.filters@), ex).take(i as int) =~= with_excluded(filters_view(self.filters@), ex));
        }
        StreamQuery { filters, event_type: PhantomData }
    }

    /// Whether the persisted event is selected by the query.
    pub fn matches(&self, event: &PersistedEvent<E>) -> (r: bool)
        ensures
            r == query_matches(self@, event.event.spec_name(), event.identifiers_map(), event.id),
    {
        let name = event.event.name();
        let ids = event.event.domain_identifiers();
        let ghost m = event.identifiers_map();
        let mut i: usize = 0;
        while i < self.filters.len()
            invariant
                i <= self.filters@.len(),
                name@ == event.event.spec_name(),
                ids@ == event.event.spec_domain_identifiers(),
                m == entries_map(ids@),
                m == event.identifiers_map(),
                forall|k: int| 0 <= k < i ==> !filter_matches(#[trigger] self@[k], name@, m, event.id),
            decreases self.filters@.len() - i,
        {
            let f = &self.filters[i];
            proof {
                assert(self@[i as int] == f@);
            }
            if filter_accepts(f, name, &ids, event.id) {
                return true;
            }
            i = i + 1;
        }
        false
    }
}

/// Whether one filter selects an event with the given name, identifiers and ID.
fn filter_accepts<E: Event>(f: &StreamFilter<E>, name: &str, ids: &DomainIdentifierSet, id: i64) -> (r: bool)
    ensures
        r == filter_matches(f@, name@, entries_map(ids@), id),
{
    if let Some(excluded) = &f.excluded_events {
        if contains_name(excluded.as_slice(), name) {
            return false;
        }
    }
    if !contains_name(f.events, name) {
        return false;
    }
    let ghost m = entries_map(ids@);
    let n = f.identifiers.len();
    let mut k: usize = 0;
    while k < n
        invariant
            n == f@.identifiers.len(),
            k <= n,
            m == entries_map(ids@),
            forall|j: int|
                0 <= j < k ==> m.contains_key((#[trigger] f@.identifiers[j]).0) && m[f@.identifiers[j].0]
                    == f@.identifiers[j].1,
        decreases n - k,
    {
        let entry = f.identifiers.entry(k);
        match ids.get(&entry.key) {
            Some(value) => {
                if !value.same_as(&entry.value) {
                    return false;
                }
            },
            None => {
                return false;
            },
        }
        k = k + 1;
    }
    if id <= f.origin {
        return false;
    }
    true
}

/// A query of the events of `E`: the given filter, or all the events of `E` when none is given.
pub fn query<E: Event, O: Event>(filter: Option<StreamFilter<O>>) -> (r: StreamQuery<E>)
    where
        O: Into<E>,
    ensures
        r@ == match filter {
            Some(f) => seq![f@],
            None => seq![FilterView {
                events: E::spec_schema().event_names(),
                identifiers: Seq::empty(),
                origin: 0,
                excluded: None,
            }],
        },
{
    let mut filters: Vec<StreamFilter<E>> = Vec::new();
    match filter {
        Some(f) => {
            filters.push(f.cast::<E>());
        },
        None => {
            filters.push(StreamFilter::<E>::new(DomainIdentifierSet::empty()));
        },
    }
    proof {
        assert(filters_view(filters@) =~= seq![filters@[0]@]);
    }
    StreamQuery { filters, event_type: PhantomData }
}

} // verus!
