//! The SQL criteria of a stream query, as a sequence of text pieces and bound values.
//!
//! The same pieces are rendered two ways: with the values written inline (the criteria
//! builder) or as numbered placeholders whose values are bound separately (the sqlx query
//! builder extension).
use vstd::prelude::*;

use crate::domain_identifier::{DomainIdentifier, DomainIdentifierSet};
use crate::event::{first_info, has_str, strs_view, Event, EventInfo, EventSchema};
use crate::identifier::{IdValue, IdentifierValue, uuid_text};
use crate::stream_query::{contains_name, FilterView, StreamFilter, StreamQuery, filters_view, lemma_take_push};
use crate::text::{int_decimal, join, lemma_join_push};

verus! {

/// A piece of SQL: literal text, or a value to be bound (an identifier value or bytes).
pub enum PieceView {
    Text(Seq<char>),
    Bind(IdValue),
    Bytes(Seq<u8>),
}

/// A piece of SQL: literal text, or a value to be bound (an identifier value or bytes).
#[derive(Debug)]
pub enum SqlPiece {
    Text(String),
    Bind(IdentifierValue),
    Bytes(Vec<u8>),
}

impl View for SqlPiece {
    type V = PieceView;

    open spec fn view(&self) -> PieceView {
        match self {
            SqlPiece::Text(t) => PieceView::Text(t@),
            SqlPiece::Bind(v) => PieceView::Bind(v@),
            SqlPiece::Bytes(b) => PieceView::Bytes(b@),
        }
    }
}

/// The views of a sequence of pieces.
pub open spec fn pieces_view(s: Seq<SqlPiece>) -> Seq<PieceView> {
    s.map_values(|p: SqlPiece| p@)
}

/// The events a filter selects once its exclusions are taken out.
pub open spec fn active_events(f: FilterView) -> Seq<Seq<char>> {
    match f.excluded {
        Some(ex) => f.events.filter(|e: Seq<char>| !has_str(ex, e)),
        None => f.events,
    }
}

/// The info the schema gives for an event name (the first one with that name).
pub open spec fn info_of(schema: EventSchema, name: Seq<char>) -> &'static EventInfo {
    schema.events_info@[first_info(schema.events_info@, name)->0]
}

/// The identifiers of `ids` whose key is among `keys`, in order.
pub open spec fn identifiers_among(ids: Seq<(Seq<char>, IdValue)>, keys: Seq<Seq<char>>) -> Seq<(Seq<char>, IdValue)> {
    ids.filter(|p: (Seq<char>, IdValue)| has_str(keys, p.0))
}

/// What a filter keeps comes from the filtered sequence.
pub proof fn lemma_filter_in<T>(s: Seq<T>, pred: spec_fn(T) -> bool, k: int)
    requires
        0 <= k < s.filter(pred).len(),
    ensures
        s.contains(s.filter(pred)[k]),
    decreases s.len(),
{
    reveal(Seq::filter);
    if s.len() > 0 {
        let sub = s.drop_last().filter(pred);
        if pred(s.last()) && k == sub.len() {
            assert(s[s.len() - 1] == s.last());
        } else {
            lemma_filter_in(s.drop_last(), pred, k);
            let j = choose|j: int| 0 <= j < s.drop_last().len() && s.drop_last()[j] == sub[k];
            assert(s[j] == s.drop_last()[j]);
        }
    }
}

/// The identifiers kept for an event are exactly those of the filter whose key is among
/// the event's keys.
pub proof fn lemma_identifiers_among(ids: Seq<(Seq<char>, IdValue)>, keys: Seq<Seq<char>>)
    ensures
        forall|x: (Seq<char>, IdValue)|
            #[trigger] identifiers_among(ids, keys).contains(x) <==> ids.contains(x) && has_str(keys, x.0),
{
    let pred = |p: (Seq<char>, IdValue)| has_str(keys, p.0);
    let sel = ids.filter(pred);
    ids.filter_lemma(pred);
    assert forall|x: (Seq<char>, IdValue)| #[trigger] sel.contains(x) <==> ids.contains(x) && has_str(keys, x.0) by {
        if sel.contains(x) {
            let k = choose|k: int| 0 <= k < sel.len() && sel[k] == x;
            lemma_filter_in(ids, pred, k);
            assert(pred(sel[k]));
        }
        if ids.contains(x) && has_str(keys, x.0) {
            let j = choose|j: int| 0 <= j < ids.len() && ids[j] == x;
            assert(pred(ids[j]));
        }
    }
}

/// Every event a filter of `q` selects has an info in the schema.
pub open spec fn events_known(q: Seq<FilterView>, schema: EventSchema) -> bool {
    forall|i: int, e: Seq<char>|
        0 <= i < q.len() && #[trigger] has_str(active_events(q[i]), e) ==> first_info(schema.events_info@, e) is Some
}

/// `column = value` for one domain identifier.
pub open spec fn id_pieces(p: (Seq<char>, IdValue), prefix: Seq<char>) -> Seq<PieceView> {
    seq![PieceView::Text(prefix + p.0 + " = "@), PieceView::Bind(p.1)]
}

/// The condition of one event: its type and the domain identifiers it carries.
pub open spec fn event_pieces(
    e: Seq<char>,
    ids: Seq<(Seq<char>, IdValue)>,
    schema: EventSchema,
    prefix: Seq<char>,
) -> Seq<PieceView> {
    let sel = identifiers_among(ids, info_of(schema, e).identifier_keys());
    seq![PieceView::Text("("@ + prefix + "event_type = "@), PieceView::Bind(IdValue::Text(e))]
        + (if sel.len() > 0 {
        seq![PieceView::Text(" AND "@)] + join(
            sel.map_values(|p: (Seq<char>, IdValue)| id_pieces(p, prefix)),
            seq![PieceView::Text(" AND "@)],
        )
    } else {
        Seq::empty()
    }) + seq![PieceView::Text(")"@)]
}

/// The origin condition of a filter, when it has a positive origin.
pub open spec fn origin_pieces(f: FilterView, prefix: Seq<char>) -> Seq<PieceView> {
    if f.origin > 0 {
        seq![PieceView::Text(prefix + "event_id > "@), PieceView::Bind(IdValue::Int(f.origin))]
            + if active_events(f).len() > 0 {
            seq![PieceView::Text(" AND ("@)]
        } else {
            Seq::empty()
        }
    } else {
        Seq::empty()
    }
}

/// The conditions of the events of a filter, joined by `OR`.
pub open spec fn events_pieces(f: FilterView, schema: EventSchema, prefix: Seq<char>) -> Seq<PieceView> {
    join(
        active_events(f).map_values(|e: Seq<char>| event_pieces(e, f.identifiers, schema, prefix)),
        seq![PieceView::Text(" OR "@)],
    )
}

/// The condition of one filter.
pub open spec fn filter_pieces(f: FilterView, schema: EventSchema, prefix: Seq<char>) -> Seq<PieceView> {
    seq![PieceView::Text("("@)] + origin_pieces(f, prefix) + events_pieces(f, schema, prefix) + (if f.origin > 0
        && active_events(f).len() > 0 {
        seq![PieceView::Text(")"@)]
    } else {
        Seq::empty()
    }) + seq![PieceView::Text(")"@)]
}

/// The criteria of a query: the conditions of its filters, joined by `OR`.
pub open spec fn criteria_pieces(q: Seq<FilterView>, schema: EventSchema, prefix: Seq<char>) -> Seq<PieceView> {
    join(
        q.map_values(|f: FilterView| filter_pieces(f, schema, prefix)),
        seq![PieceView::Text(" OR "@)],
    )
}

/// The inline text of a piece: values written as SQL literals (criteria bind no bytes, and
/// bytes have no inline text).
pub open spec fn piece_inline(p: PieceView) -> Seq<char> {
    match p {
        PieceView::Text(t) => t,
        PieceView::Bind(IdValue::Text(s)) => "'"@ + s + "'"@,
        PieceView::Bind(IdValue::Int(i)) => int_decimal(i as int),
        PieceView::Bind(IdValue::Uuid(u)) => "'"@ + uuid_text(u) + "'"@,
        PieceView::Bytes(_) => Seq::empty(),
    }
}

/// The inline text of a sequence of pieces.
pub open spec fn render_inline(s: Seq<PieceView>) -> Seq<char>
    decreases s.len(),
{
    if s.len() == 0 {
        Seq::empty()
    } else {
        render_inline(s.drop_last()) + piece_inline(s.last())
    }
}

/// Rendering distributes over concatenation.
pub proof fn lemma_render_inline_concat(a: Seq<PieceView>, b: Seq<PieceView>)
    ensures
        render_inline(a + b) == render_inline(a) + render_inline(b),
    decreases b.len(),
{
    if b.len() == 0 {
        assert(a + b =~= a);
    } else {
        lemma_render_inline_concat(a, b.drop_last());
        assert((a + b).drop_last() =~= a + b.drop_last());
    }
}

proof fn lemma_filter_take<T>(s: Seq<T>, p: spec_fn(T) -> bool, j: int)
    requires
        0 <= j < s.len(),
    ensures
        s.take(j + 1).filter(p) == if p(s[j]) {
            s.take(j).filter(p).push(s[j])
        } else {
            s.take(j).filter(p)
        },
{
    reveal(Seq::filter);
    assert(s.take(j + 1).drop_last() =~= s.take(j));
}

proof fn lemma_pieces_view_push(s: Seq<SqlPiece>, p: SqlPiece)
    ensures
        pieces_view(s.push(p)) == pieces_view(s).push(p@),
{
    assert(pieces_view(s.push(p)) =~= pieces_view(s).push(p@));
}

pub(crate) fn push_piece(out: &mut Vec<SqlPiece>, p: SqlPiece)
    ensures
        pieces_view(final(out)@) == pieces_view(old(out)@).push(p@),
{
    let ghost before = out@;
    out.push(p);
    proof {
        lemma_pieces_view_push(before, p);
    }
}

pub(crate) fn push_text(out: &mut Vec<SqlPiece>, t: &str)
    ensures
        pieces_view(final(out)@) == pieces_view(old(out)@).push(PieceView::Text(t@)),
{
    push_piece(out, SqlPiece::Text(String::from_str(t)));
}

/// The events a filter selects, without its exclusions.
pub fn active_event_names<E: Event>(f: &StreamFilter<E>) -> (r: Vec<&'static str>)
    ensures
        strs_view(r@) == active_events(f@),
{
    let events = f.events();
    let mut out: Vec<&'static str> = Vec::new();
    match f.excluded_events() {
        Some(excluded) => {
            let ghost ex = f@.excluded->0;
            let ghost evs = f@.events;
            let ghost pred = |e: Seq<char>| !has_str(ex, e);
            let mut j: usize = 0;
            while j < events.len()
                invariant
                    j <= events@.len(),
                    evs == strs_view(events@),
                    ex == strs_view(excluded@),
                    pred == (|e: Seq<char>| !has_str(ex, e)),
                    strs_view(out@) == evs.take(j as int).filter(pred),
                decreases events@.len() - j,
            {
                let name = events[j];
                let skip = contains_name(excluded.as_slice(), name);
                proof {
                    lemma_filter_take(evs, pred, j as int);
                    assert(evs[j as int] == name@);
                }
                if !skip {
                    out.push(name);
                }
                proof {
                    assert(strs_view(out@) =~= evs.take(j + 1).filter(pred));
                }
                j = j + 1;
            }
            proof {
                assert(evs.take(j as int) =~= evs);
            }
        },
        None => {
            out = vstd::slice::slice_to_vec(events);
        },
    }
    out
}

fn push_event_pieces(
    out: &mut Vec<SqlPiece>,
    name: &'static str,
    ids: &DomainIdentifierSet,
    schema: &EventSchema,
    prefix: &str,
)
    requires
        first_info(schema.events_info@, name@) is Some,
    ensures
        pieces_view(final(out)@) == pieces_view(old(out)@) + event_pieces(name@, ids@, *schema, prefix@),
{
    let ghost base = pieces_view(out@);
    let ghost sep = seq![PieceView::Text(" AND "@)];
    let info = match schema.event_info(name) {
        Some(info) => info,
        None => {
            return;
        },
    };
    let ghost keys = info.identifier_keys();
    let ghost pred = |p: (Seq<char>, IdValue)| has_str(keys, p.0);
    let ghost idf = |p: (Seq<char>, IdValue)| id_pieces(p, prefix@);
    let ghost all = ids@;
    let ghost sel = identifiers_among(all, keys);
    let mut head = String::from_str("(");
    head.append(prefix);
    head.append("event_type = ");
    push_text(out, head.as_str());
    push_piece(out, SqlPiece::Bind(IdentifierValue::String(String::from_str(name))));
    let ghost mid = pieces_view(out@);
    let n = ids.len();
    let mut k: usize = 0;
    let mut count: usize = 0;
    while k < n
        invariant
            n == all.len(),
            k <= n,
            all == ids@,
            keys == info.identifier_keys(),
            pred == (|p: (Seq<char>, IdValue)| has_str(keys, p.0)),
            idf == (|p: (Seq<char>, IdValue)| id_pieces(p, prefix@)),
            count == all.take(k as int).filter(pred).len(),
            count <= k,
            pieces_view(out@) == mid + if count > 0 {
                seq![PieceView::Text(" AND "@)] + join(all.take(k as int).filter(pred).map_values(idf), sep)
            } else {
                Seq::empty()
            },
            sep == seq![PieceView::Text(" AND "@)],
        decreases n - k,
    {
        let entry: &DomainIdentifier = ids.entry(k);
        let keep = info.has_domain_identifier(&entry.key);
        proof {
            lemma_filter_take(all, pred, k as int);
            assert(all[k as int] == entry@);
        }
        if keep {
            let ghost prev = all.take(k as int).filter(pred);
            push_text(out, " AND ");
            let mut t = String::from_str(prefix);
            t.append(entry.key.into_inner());
            t.append(" = ");
            push_text(out, t.as_str());
            push_piece(out, SqlPiece::Bind(entry.value.clone()));
            proof {
                let next = prev.push(entry@);
                assert(next.map_values(idf) =~= prev.map_values(idf).push(idf(entry@)));
                lemma_join_push(prev.map_values(idf), sep, idf(entry@));
                if count == 0 {
                    assert(prev.len() == 0);
                }
            }
            count = count + 1;
        }
        proof {
            if count > 0 {
                assert(pieces_view(out@) =~= mid + (seq![PieceView::Text(" AND "@)] + join(
                    all.take(k + 1).filter(pred).map_values(idf),
                    sep,
                )));
            } else {
                assert(pieces_view(out@) =~= mid);
            }
        }
        k = k + 1;
    }
    push_text(out, ")");
    proof {
        assert(all.take(n as int) =~= all);
        assert(info == info_of(*schema, name@));
        assert(sel == all.filter(pred));
        assert(idf == (|p: (Seq<char>, IdValue)| id_pieces(p, prefix@)));
        assert(pieces_view(out@) =~= base + event_pieces(name@, ids@, *schema, prefix@));
    }
}

fn push_events_pieces<E: Event>(
    out: &mut Vec<SqlPiece>,
    f: &StreamFilter<E>,
    events: &Vec<&'static str>,
    schema: &EventSchema,
    prefix: &str,
)
    requires
        strs_view(events@) == active_events(f@),
        forall|e: Seq<char>| #[trigger] has_str(active_events(f@), e) ==> first_info(schema.events_info@, e) is Some,
    ensures
        pieces_view(final(out)@) == pieces_view(old(out)@) + events_pieces(f@, *schema, prefix@),
{
    let ghost sep = seq![PieceView::Text(" OR "@)];
    let ghost evs = active_events(f@);
    let ghost evf = |e: Seq<char>| event_pieces(e, f@.identifiers, *schema, prefix@);
    let ghost mid = pieces_view(out@);
    proof {
        assert(mid =~= mid + join(evs.take(0).map_values(evf), sep));
    }
    let mut j: usize = 0;
    while j < events.len()
        invariant
            j <= events@.len(),
            strs_view(events@) == evs,
            evs == active_events(f@),
            evf == (|e: Seq<char>| event_pieces(e, f@.identifiers, *schema, prefix@)),
            sep == seq![PieceView::Text(" OR "@)],
            forall|e: Seq<char>| #[trigger] has_str(evs, e) ==> first_info(schema.events_info@, e) is Some,
            pieces_view(out@) == mid + join(evs.take(j as int).map_values(evf), sep),
        decreases events@.len() - j,
    {
        let ghost prev = evs.take(j as int);
        if j > 0 {
            push_text(out, " OR ");
        }
        let name = events[j];
        proof {
            assert(evs[j as int] == name@);
            assert(has_str(evs, name@));
        }
        push_event_pieces(out, name, f.identifiers(), schema, prefix);
        proof {
            lemma_take_push(evs, j as int);
            assert(evs.take(j + 1).map_values(evf) =~= prev.map_values(evf).push(evf(name@)));
            lemma_join_push(prev.map_values(evf), sep, evf(name@));
            if j == 0 {
                assert(prev.map_values(evf).len() == 0);
                assert(join(prev.map_values(evf), sep) =~= Seq::<PieceView>::empty());
            }
            assert(pieces_view(out@) =~= mid + join(evs.take(j + 1).map_values(evf), sep));
        }
        j = j + 1;
    }
    proof {
        assert(evs.take(j as int) =~= evs);
    }
}

fn push_filter_pieces<E: Event>(
    out: &mut Vec<SqlPiece>,
    f: &StreamFilter<E>,
    schema: &EventSchema,
    prefix: &str,
)
    requires
        forall|e: Seq<char>| #[trigger] has_str(active_events(f@), e) ==> first_info(schema.events_info@, e) is Some,
    ensures
        pieces_view(final(out)@) == pieces_view(old(out)@) + filter_pieces(f@, *schema, prefix@),
{
    let ghost base = pieces_view(out@);
    let events = active_event_names(f);
    let has_events = events.len() > 0;
    push_text(out, "(");
    let origin = f.origin();
    if origin > 0 {
        let mut t = String::from_str(prefix);
        t.append("event_id > ");
        push_text(out, t.as_str());
        push_piece(out, SqlPiece::Bind(IdentifierValue::i64(origin)));
        if has_events {
            push_text(out, " AND (");
        }
    }
    proof {
        assert(pieces_view(out@) =~= base + seq![PieceView::Text("("@)] + origin_pieces(f@, prefix@));
    }
    let ghost mid = pieces_view(out@);
    push_events_pieces(out, f, &events, schema, prefix);
    let ghost mid2 = pieces_view(out@);
    if origin > 0 && has_events {
        push_text(out, ")");
    }
    push_text(out, ")");
    proof {
        assert(pieces_view(out@) =~= base + filter_pieces(f@, *schema, prefix@));
    }
}

/// The criteria pieces of a query over events of `QE`.
pub fn criteria_pieces_of<QE: Event>(query: &StreamQuery<QE>, prefix: &str) -> (r: Vec<SqlPiece>)
    requires
        events_known(query@, QE::spec_schema()),
    ensures
        pieces_view(r@) == criteria_pieces(query@, QE::spec_schema(), prefix@),
{
    let schema = QE::schema();
    let filters = query.filters();
    let ghost fv = query@;
    let ghost sep = seq![PieceView::Text(" OR "@)];
    let ghost ff = |f: FilterView| filter_pieces(f, schema, prefix@);
    let mut out: Vec<SqlPiece> = Vec::new();
    proof {
        assert(pieces_view(out@) =~= Seq::<PieceView>::empty());
    }
    let mut i: usize = 0;
    while i < filters.len()
        invariant
            i <= filters@.len(),
            filters_view(filters@) == fv,
            fv == query@,
            schema == QE::spec_schema(),
            events_known(fv, schema),
            sep == seq![PieceView::Text(" OR "@)],
            ff == (|f: FilterView| filter_pieces(f, schema, prefix@)),
            pieces_view(out@) == join(fv.take(i as int).map_values(ff), sep),
        decreases filters@.len() - i,
    {
        let ghost prev = fv.take(i as int);
        if i > 0 {
            push_text(&mut out, " OR ");
        }
        let f = &filters[i];
        proof {
            assert(fv[i as int] == f@);
            assert forall|e: Seq<char>| #[trigger] has_str(active_events(f@), e) implies first_info(schema.events_info@, e) is Some by {
                assert(has_str(active_events(fv[i as int]), e));
            }
        }
        push_filter_pieces(&mut out, f, &schema, prefix);
        proof {
            lemma_take_push(fv, i as int);
            assert(fv.take(i + 1).map_values(ff) =~= prev.map_values(ff).push(ff(f@)));
            lemma_join_push(prev.map_values(ff), sep, ff(f@));
            if i == 0 {
                assert(join(prev.map_values(ff), sep) =~= Seq::<PieceView>::empty());
            }
            assert(pieces_view(out@) =~= join(fv.take(i + 1).map_values(ff), sep));
        }
        i = i + 1;
    }
    proof {
        assert(fv.take(i as int) =~= fv);
    }
    out
}

/// Whether every event that a filter of the query selects has an info in the schema (what
/// rendering the criteria of the query needs).
pub fn query_events_known<QE: Event>(query: &StreamQuery<QE>) -> (r: bool)
    ensures
        r == events_known(query@, QE::spec_schema()),
{
    let schema = QE::schema();
    let filters = query.filters();
    let ghost q = query@;
    let mut i: usize = 0;
    while i < filters.len()
        invariant
            i <= filters@.len(),
            filters_view(filters@) == q,
            q == query@,
            schema == QE::spec_schema(),
            forall|j: int, e: Seq<char>|
                0 <= j < i && #[trigger] has_str(active_events(q[j]), e) ==> first_info(schema.events_info@, e) is Some,
        decreases filters@.len() - i,
    {
        let names = active_event_names(&filters[i]);
        proof {
            assert(q[i as int] == filters@[i as int]@);
        }
        let mut k: usize = 0;
        while k < names.len()
            invariant
                k <= names@.len(),
                i < filters@.len(),
                filters_view(filters@) == q,
                q == query@,
                schema == QE::spec_schema(),
                strs_view(names@) == active_events(q[i as int]),
                forall|m: int| 0 <= m < k ==> first_info(schema.events_info@, (#[trigger] names@[m])@) is Some,
            decreases names@.len() - k,
        {
            let known = schema.event_info(names[k]).is_some();
            if !known {
                proof {
                    assert(strs_view(names@)[k as int] == names@[k as int]@);
                    assert(has_str(active_events(q[i as int]), names@[k as int]@));
                    assert(first_info(schema.events_info@, names@[k as int]@) is None);
                    assert(q.len() == filters@.len());
                    assert(!events_known(q, schema));
                }
                return false;
            }
            k = k + 1;
        }
        proof {
            assert forall|j: int, e: Seq<char>|
                0 <= j < i + 1 && #[trigger] has_str(active_events(q[j]), e) implies first_info(
                schema.events_info@,
                e,
            ) is Some by {
                if j == i {
                    let m = choose|m: int| 0 <= m < active_events(q[j]).len() && active_events(q[j])[m] == e;
                    assert(strs_view(names@)[m] == names@[m]@);
                    assert(first_info(schema.events_info@, names@[m]@) is Some);
                }
            }
        }
        i = i + 1;
    }
    true
}

/// Appends the inline text of the pieces to `out`.
pub fn render_pieces_inline(out: &mut String, pieces: &Vec<SqlPiece>)
    ensures
        final(out)@ == old(out)@ + render_inline(pieces_view(pieces@)),
{
    let ghost pv = pieces_view(pieces@);
    let ghost start = out@;
    let mut i: usize = 0;
    while i < pieces.len()
        invariant
            i <= pieces@.len(),
            pv == pieces_view(pieces@),
            out@ == start + render_inline(pv.take(i as int)),
        decreases pieces@.len() - i,
    {
        match &pieces[i] {
            SqlPiece::Text(t) => {
                out.append(t.as_str());
            },
            SqlPiece::Bind(IdentifierValue::String(s)) => {
                out.append("'");
                out.append(s.as_str());
                out.append("'");
            },
            SqlPiece::Bind(IdentifierValue::i64(v)) => {
                crate::text::push_i64_decimal(out, *v);
            },
            SqlPiece::Bind(IdentifierValue::Uuid(u)) => {
                out.append("'");
                let t = IdentifierValue::Uuid(*u).to_string();
                out.append(t.as_str());
                out.append("'");
            },
            SqlPiece::Bytes(_) => {},
        }
        proof {
            assert(pv.take(i + 1).drop_last() =~= pv.take(i as int));
            assert(pv[i as int] == pieces@[i as int]@);
        }
        i = i + 1;
    }
    proof {
        assert(pv.take(i as int) =~= pv);
    }
}

} // verus!
