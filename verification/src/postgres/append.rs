//! The batch insert of events into the `event` table: one column per domain identifier that
//! any of the events carries, one row per event, `NULL` where an event lacks an identifier.
use vstd::prelude::*;

use crate::domain_identifier::{
    entries_map, entry_keys, has_key, lemma_sorted_keys_unique, sorted_entries, strictly_sorted, DomainIdentifier,
    DomainIdentifierSet,
};
use crate::event::Event;
use crate::identifier::{IdValue, IdentifierValue};
use crate::postgres::criteria::{pieces_view, push_piece, push_text, PieceView, SqlPiece};
use crate::postgres::pg_query::{builder_arguments, builder_sql, new_builder, BindView, PgQueryBuilder};
use crate::postgres::query::{
    all_encodable, bind_view, binds_of, concat_all, lemma_binds_concat, lemma_binds_join, lemma_binds_single,
    pieces_encodable, push_pieces_bound, render_bound,
};
use crate::serde::Serializer;
use crate::text::{join, lemma_join_push};
use crate::utils::str_order;

verus! {

/// The keys of the domain identifiers that any of the events carries.
pub open spec fn all_event_keys<E: Event>(events: Seq<E>) -> Set<Seq<char>> {
    Set::new(
        |k: Seq<char>|
            exists|i: int| 0 <= i < events.len() && #[trigger] has_key(events[i].spec_domain_identifiers(), k),
    )
}

/// The keys of a set in increasing string order.
pub open spec fn sorted_keys(keys: Set<Seq<char>>) -> Seq<Seq<char>> {
    choose|ks: Seq<Seq<char>>| strictly_sorted(ks) && ks.to_set() == keys
}

/// A sorted sequence of the keys is the one `sorted_keys` picks.
pub proof fn lemma_sorted_keys_is(ks: Seq<Seq<char>>, keys: Set<Seq<char>>)
    requires
        strictly_sorted(ks),
        ks.to_set() == keys,
    ensures
        sorted_keys(keys) == ks,
{
    let c = sorted_keys(keys);
    assert(strictly_sorted(c) && c.to_set() == keys);
    lemma_sorted_keys_unique(c, ks);
}

/// `, value` for a key that the event carries, `, NULL` for one it lacks.
pub open spec fn cell_pieces(ids: Seq<(Seq<char>, IdValue)>, k: Seq<char>) -> Seq<PieceView> {
    if entries_map(ids).contains_key(k) {
        seq![PieceView::Text(", "@), PieceView::Bind(entries_map(ids)[k])]
    } else {
        seq![PieceView::Text(", "@), PieceView::Text("NULL"@)]
    }
}

/// The row of one event: its type, its payload, then one cell per column key.
pub open spec fn row_pieces(
    name: Seq<char>,
    ids: Seq<(Seq<char>, IdValue)>,
    payload: Seq<u8>,
    keys: Seq<Seq<char>>,
) -> Seq<PieceView> {
    seq![PieceView::Text("("@), PieceView::Bind(IdValue::Text(name)), PieceView::Text(", "@), PieceView::Bytes(payload)]
        + join(keys.map_values(|k: Seq<char>| cell_pieces(ids, k)), Seq::empty())
        + seq![PieceView::Text(")"@)]
}

/// The row of the `i`-th event.
pub open spec fn event_row<E: Event>(events: Seq<E>, payloads: Seq<Seq<u8>>, keys: Seq<Seq<char>>, i: int) -> Seq<PieceView> {
    row_pieces(events[i].spec_name(), events[i].spec_domain_identifiers(), payloads[i], keys)
}

/// The pieces after `INSERT INTO event (`: the columns, the rows joined by `, `, and the
/// returned event IDs.
pub open spec fn insert_events_pieces<E: Event>(events: Seq<E>, payloads: Seq<Seq<u8>>) -> Seq<PieceView> {
    let keys = sorted_keys(all_event_keys(events));
    seq![PieceView::Text("event_type,payload"@)]
        + keys.map_values(|k: Seq<char>| PieceView::Text(","@ + k))
        + seq![PieceView::Text(") "@), PieceView::Text("VALUES "@)]
        + join(
            Seq::new(events.len(), |i: int| event_row(events, payloads, keys, i)),
            seq![PieceView::Text(", "@)],
        )
        + seq![PieceView::Text(" RETURNING (event_id)"@)]
}

/// The values bound for the cells of a row, column by column: the event's own value for the
/// column's key when it carries that key, nothing (a `NULL` cell) when it does not.
pub open spec fn cell_values(m: Map<Seq<char>, IdValue>, keys: Seq<Seq<char>>) -> Seq<BindView>
    decreases keys.len(),
{
    if keys.len() == 0 {
        Seq::empty()
    } else {
        cell_values(m, keys.drop_last()) + if m.contains_key(keys.last()) {
            seq![bind_view(m[keys.last()])]
        } else {
            Seq::<BindView>::empty()
        }
    }
}

/// The values bound by a row: the event's type, its payload, then for each column the
/// event's own value for that column's key when it carries it.
pub open spec fn row_values(name: Seq<char>, m: Map<Seq<char>, IdValue>, payload: Seq<u8>, keys: Seq<Seq<char>>) -> Seq<BindView> {
    seq![BindView::Text(name), BindView::Bytes(payload)] + cell_values(m, keys)
}

proof fn lemma_cells_binds(ids: Seq<(Seq<char>, IdValue)>, keys: Seq<Seq<char>>)
    ensures
        concat_all(
            keys.map_values(|k: Seq<char>| cell_pieces(ids, k)).map_values(|x: Seq<PieceView>| binds_of(x)),
        ) == cell_values(entries_map(ids), keys),
    decreases keys.len(),
{
    let xs = keys.map_values(|k: Seq<char>| cell_pieces(ids, k)).map_values(|x: Seq<PieceView>| binds_of(x));
    if keys.len() > 0 {
        let ks = keys.drop_last();
        lemma_cells_binds(ids, ks);
        assert(xs.drop_last() =~= ks.map_values(|k: Seq<char>| cell_pieces(ids, k)).map_values(
            |x: Seq<PieceView>| binds_of(x),
        ));
        let k = keys.last();
        let c = cell_pieces(ids, k);
        assert(xs.last() == binds_of(c));
        lemma_binds_single(PieceView::Text(", "@));
        if entries_map(ids).contains_key(k) {
            assert(c == seq![PieceView::Text(", "@)] + seq![PieceView::Bind(entries_map(ids)[k])]);
            lemma_binds_concat(seq![PieceView::Text(", "@)], seq![PieceView::Bind(entries_map(ids)[k])]);
            lemma_binds_single(PieceView::Bind(entries_map(ids)[k]));
            assert(binds_of(c) =~= seq![bind_view(entries_map(ids)[k])]);
        } else {
            assert(c == seq![PieceView::Text(", "@)] + seq![PieceView::Text("NULL"@)]);
            lemma_binds_concat(seq![PieceView::Text(", "@)], seq![PieceView::Text("NULL"@)]);
            lemma_binds_single(PieceView::Text("NULL"@));
            assert(binds_of(c) =~= Seq::<BindView>::empty());
        }
    } else {
        assert(xs =~= Seq::<Seq<BindView>>::empty());
    }
}

/// A row binds the event's type, its payload, and for every column the value that this event
/// has for the column's own key (a `NULL` cell, binding nothing, where it lacks the key).
pub proof fn lemma_row_values(name: Seq<char>, ids: Seq<(Seq<char>, IdValue)>, payload: Seq<u8>, keys: Seq<Seq<char>>)
    ensures
        binds_of(row_pieces(name, ids, payload, keys)) == row_values(name, entries_map(ids), payload, keys),
{
    let head = seq![PieceView::Text("("@), PieceView::Bind(IdValue::Text(name)), PieceView::Text(", "@), PieceView::Bytes(payload)];
    let parts = keys.map_values(|k: Seq<char>| cell_pieces(ids, k));
    let cells = join(parts, Seq::<PieceView>::empty());
    let tail = seq![PieceView::Text(")"@)];
    assert(binds_of(Seq::<PieceView>::empty()) == Seq::<BindView>::empty());
    lemma_binds_join(parts, Seq::empty());
    lemma_cells_binds(ids, keys);
    assert(head == seq![head[0]] + seq![head[1]] + seq![head[2]] + seq![head[3]]);
    lemma_binds_single(head[0]);
    lemma_binds_single(head[1]);
    lemma_binds_single(head[2]);
    lemma_binds_single(head[3]);
    lemma_binds_concat(seq![head[0]], seq![head[1]]);
    lemma_binds_concat(seq![head[0]] + seq![head[1]], seq![head[2]]);
    lemma_binds_concat(seq![head[0]] + seq![head[1]] + seq![head[2]], seq![head[3]]);
    assert(binds_of(head) =~= seq![BindView::Text(name), BindView::Bytes(payload)]);
    lemma_binds_single(tail[0]);
    lemma_binds_concat(head, cells);
    lemma_binds_concat(head + cells, tail);
    assert(binds_of(head + cells + tail) =~= binds_of(head) + binds_of(cells));
}

proof fn lemma_texts_bind_nothing(s: Seq<PieceView>)
    requires
        forall|i: int| 0 <= i < s.len() ==> (#[trigger] s[i]) is Text,
    ensures
        binds_of(s) == Seq::<BindView>::empty(),
    decreases s.len(),
{
    if s.len() > 0 {
        let t = s.drop_last();
        assert forall|i: int| 0 <= i < t.len() implies (#[trigger] t[i]) is Text by {
            assert(t[i] == s[i]);
        }
        lemma_texts_bind_nothing(t);
        assert(s.last() is Text);
        assert(binds_of(s) =~= binds_of(t));
    }
}

/// The batch insert binds, row after row, each event's type, its payload, and for every
/// column the value that this event has for the column's own key (nothing where it lacks
/// the key and the cell is `NULL`); the columns are the keys of all the events, in order.
pub proof fn lemma_insert_values<E: Event>(events: Seq<E>, payloads: Seq<Seq<u8>>)
    requires
        payloads.len() == events.len(),
    ensures
        binds_of(insert_events_pieces(events, payloads)) == concat_all(
            Seq::new(
                events.len(),
                |i: int|
                    row_values(
                        events[i].spec_name(),
                        entries_map(events[i].spec_domain_identifiers()),
                        payloads[i],
                        sorted_keys(all_event_keys(events)),
                    ),
            ),
        ),
{
    let keys = sorted_keys(all_event_keys(events));
    let t1 = seq![PieceView::Text("event_type,payload"@)];
    let t2 = keys.map_values(|k: Seq<char>| PieceView::Text(","@ + k));
    let t3 = seq![PieceView::Text(") "@), PieceView::Text("VALUES "@)];
    let rows = Seq::new(events.len(), |i: int| event_row(events, payloads, keys, i));
    let sep = seq![PieceView::Text(", "@)];
    let t4 = seq![PieceView::Text(" RETURNING (event_id)"@)];
    let head = t1 + t2 + t3;
    assert forall|i: int| 0 <= i < head.len() implies (#[trigger] head[i]) is Text by {
        if i < 1 {
            assert(head[i] == t1[i]);
        } else if i < 1 + t2.len() {
            assert(head[i] == t2[i - 1]);
        } else {
            assert(head[i] == t3[i - 1 - t2.len()]);
        }
    }
    lemma_texts_bind_nothing(head);
    lemma_texts_bind_nothing(sep);
    lemma_texts_bind_nothing(t4);
    lemma_binds_join(rows, sep);
    let target = Seq::new(
        events.len(),
        |i: int|
            row_values(
                events[i].spec_name(),
                entries_map(events[i].spec_domain_identifiers()),
                payloads[i],
                keys,
            ),
    );
    assert forall|i: int| 0 <= i < events.len() implies rows.map_values(|x: Seq<PieceView>| binds_of(x))[i]
        == #[trigger] target[i] by {
        lemma_row_values(events[i].spec_name(), events[i].spec_domain_identifiers(), payloads[i], keys);
    }
    assert(rows.map_values(|x: Seq<PieceView>| binds_of(x)) =~= target);
    assert(insert_events_pieces(events, payloads) == head + join(rows, sep) + t4);
    lemma_binds_concat(head, join(rows, sep));
    lemma_binds_concat(head + join(rows, sep), t4);
    assert(binds_of(head + join(rows, sep) + t4) =~= binds_of(join(rows, sep)));
}

/// The union of the domain identifiers of the events, in key order (the value kept for a
/// key is that of the last event carrying it; only the keys are used).
fn key_union<E: Event>(events: &[E]) -> (r: DomainIdentifierSet)
    ensures
        r.wf(),
        forall|k: Seq<char>| #[trigger] has_key(r@, k) <==> all_event_keys(events@).contains(k),
{
    let mut union = DomainIdentifierSet::empty();
    let mut i: usize = 0;
    while i < events.len()
        invariant
            i <= events@.len(),
            union.wf(),
            forall|k: Seq<char>|
                #[trigger] has_key(union@, k) <==> exists|e: int|
                    0 <= e < i && #[trigger] has_key(events@[e].spec_domain_identifiers(), k),
        decreases events@.len() - i,
    {
        let ids = events[i].domain_identifiers();
        proof {
            use_type_invariant(&ids);
        }
        let ghost before = union@;
        let mut j: usize = 0;
        while j < ids.len()
            invariant
                j <= ids@.len(),
                ids@ == events@[i as int].spec_domain_identifiers(),
                union.wf(),
                forall|k: Seq<char>|
                    #[trigger] has_key(union@, k) <==> (has_key(before, k) || has_key(ids@.take(j as int), k)),
            decreases ids@.len() - j,
        {
            let entry = ids.entry(j).clone();
            let ghost old_u = union@;
            union.insert(entry);
            proof {
                assert forall|k: Seq<char>| #[trigger] has_key(union@, k) <==> (has_key(before, k) || has_key(ids@.take(j + 1), k)) by {
                    assert(union.as_map().contains_key(k) <==> has_key(union@, k));
                    if has_key(ids@.take(j + 1), k) && !has_key(ids@.take(j as int), k) {
                        let q = choose|q: int| 0 <= q < ids@.take(j + 1).len() && (#[trigger] ids@.take(j + 1)[q]).0 == k;
                        if q < j {
                            assert(ids@.take(j as int)[q].0 == k);
                        }
                    }
                    if has_key(ids@.take(j as int), k) {
                        let q = choose|q: int| 0 <= q < ids@.take(j as int).len() && (#[trigger] ids@.take(j as int)[q]).0 == k;
                        assert(ids@.take(j + 1)[q].0 == k);
                    }
                    assert(ids@.take(j + 1)[j as int] == ids@[j as int]);
                }
            }
            j = j + 1;
        }
        proof {
            assert(ids@.take(j as int) =~= ids@);
            assert forall|k: Seq<char>| #[trigger] has_key(union@, k) <==> exists|e: int|
                0 <= e < i + 1 && #[trigger] has_key(events@[e].spec_domain_identifiers(), k) by {
                if has_key(ids@, k) {
                    assert(has_key(events@[i as int].spec_domain_identifiers(), k));
                }
                if exists|e: int| 0 <= e < i + 1 && #[trigger] has_key(events@[e].spec_domain_identifiers(), k) {
                    let e = choose|e: int| 0 <= e < i + 1 && #[trigger] has_key(events@[e].spec_domain_identifiers(), k);
                    if e < i {
                        assert(has_key(before, k));
                    }
                }
            }
        }
        i = i + 1;
    }
    proof {
        assert forall|k: Seq<char>| #[trigger] has_key(union@, k) <==> all_event_keys(events@).contains(k) by {
            if has_key(union@, k) {
                let e = choose|e: int| 0 <= e < events@.len() && #[trigger] has_key(events@[e].spec_domain_identifiers(), k);
                assert(all_event_keys(events@).contains(k));
            }
        }
    }
    union
}

/// The contents of byte vectors.
pub open spec fn bytes_view(s: Seq<Vec<u8>>) -> Seq<Seq<u8>> {
    s.map_values(|v: Vec<u8>| v@)
}

fn push_row<E: Event>(out: &mut Vec<SqlPiece>, event: &E, payload: &Vec<u8>, union: &DomainIdentifierSet)
    ensures
        pieces_view(final(out)@) == pieces_view(old(out)@) + row_pieces(
            event.spec_name(),
            event.spec_domain_identifiers(),
            payload@,
            entry_keys(union@),
        ),
{
    let ghost base = pieces_view(out@);
    let ids = event.domain_identifiers();
    let name = event.name();
    let ghost keys = entry_keys(union@);
    let ghost idv = ids@;
    let ghost cellf = |k: Seq<char>| cell_pieces(idv, k);
    let ghost empty = Seq::<PieceView>::empty();
    push_text(out, "(");
    push_piece(out, SqlPiece::Bind(IdentifierValue::String(String::from_str(name))));
    push_text(out, ", ");
    push_piece(out, SqlPiece::Bytes(payload.clone()));
    let ghost head = pieces_view(out@);
    let n = union.len();
    let mut j: usize = 0;
    proof {
        assert(join(keys.take(0).map_values(cellf), empty) =~= empty);
        assert(pieces_view(out@) =~= head + join(keys.take(0).map_values(cellf), empty));
    }
    while j < n
        invariant
            n == union@.len(),
            j <= n,
            keys == entry_keys(union@),
            idv == ids@,
            cellf == (|k: Seq<char>| cell_pieces(idv, k)),
            empty == Seq::<PieceView>::empty(),
            pieces_view(out@) == head + join(keys.take(j as int).map_values(cellf), empty),
        decreases n - j,
    {
        let ghost prev = keys.take(j as int);
        let key = &union.entry(j).key;
        push_text(out, ", ");
        match ids.get(key) {
            Some(v) => {
                push_piece(out, SqlPiece::Bind(v.clone()));
            },
            None => {
                push_text(out, "NULL");
            },
        }
        proof {
            assert(keys[j as int] == key@);
            assert(keys.take(j + 1) =~= prev.push(key@));
            assert(prev.push(key@).map_values(cellf) =~= prev.map_values(cellf).push(cellf(key@)));
            lemma_join_push(prev.map_values(cellf), empty, cellf(key@));
            if j == 0 {
                assert(join(prev.map_values(cellf), empty) =~= empty);
            }
            assert(pieces_view(out@) =~= head + join(keys.take(j + 1).map_values(cellf), empty));
        }
        j = j + 1;
    }
    push_text(out, ")");
    proof {
        assert(keys.take(n as int) =~= keys);
        assert(pieces_view(out@) =~= base + row_pieces(name@, idv, payload@, keys));
    }
}

/// Whether payload `i` is what the serializer writes for a clone of event `i`.
pub open spec fn serialized_at<E: Clone, S: Serializer<E>>(serde: S, events: Seq<E>, payloads: Seq<Seq<u8>>, i: int) -> bool {
    exists|c: E| #[trigger] cloned(events[i], c) && payloads[i] == serde.spec_serialize(c)
}

/// The payloads are, event by event and in order, what the serializer writes for a clone of
/// each event.
pub open spec fn serialized_payloads<E: Clone, S: Serializer<E>>(serde: S, events: Seq<E>, payloads: Seq<Seq<u8>>) -> bool {
    &&& payloads.len() == events.len()
    &&& forall|i: int| 0 <= i < events.len() ==> #[trigger] serialized_at(serde, events, payloads, i)
}

/// A builder of the batch insert of events, their payloads written by a serializer.
pub struct InsertEventsBuilder<'a, E: Event + Clone, S: Serializer<E>> {
    builder: PgQueryBuilder,
    events: &'a [E],
    serde: &'a S,
}

impl<'a, E: Event + Clone, S: Serializer<E>> InsertEventsBuilder<'a, E, S> {
    #[verifier::type_invariant]
    spec fn builder_fresh(self) -> bool {
        &&& builder_sql(self.builder) == "INSERT INTO event ("@
        &&& builder_arguments(self.builder) == Some(Seq::<BindView>::empty())
    }

    /// The events to insert.
    pub closed spec fn spec_events(&self) -> Seq<E> {
        self.events@
    }

    /// The serializer of the payloads.
    pub closed spec fn spec_serde(&self) -> S {
        *self.serde
    }

    /// A builder of the insert of `events`, their payloads written by `serde`.
    pub fn new(events: &'a [E], serde: &'a S) -> (r: Self)
        ensures
            r.spec_events() == events@,
            r.spec_serde() == *serde,
    {
        InsertEventsBuilder { builder: new_builder(String::from_str("INSERT INTO event (")), events, serde }
    }

    /// The payloads of the events: for each event in order, what the serializer writes for
    /// a clone of it.
    pub fn payloads(&self) -> (r: Vec<Vec<u8>>)
        ensures
            serialized_payloads(self.spec_serde(), self.spec_events(), bytes_view(r@)),
    {
        let mut out: Vec<Vec<u8>> = Vec::new();
        let mut i: usize = 0;
        while i < self.events.len()
            invariant
                i <= self.events@.len(),
                out@.len() == i,
                forall|j: int|
                    0 <= j < i ==> #[trigger] serialized_at(self.spec_serde(), self.spec_events(), bytes_view(out@), j),
            decreases self.events@.len() - i,
        {
            let event = self.events[i].clone();
            let payload = self.serde.serialize(event);
            let ghost before = out@;
            out.push(payload);
            proof {
                assert forall|j: int| 0 <= j < i + 1 implies #[trigger] serialized_at(
                    self.spec_serde(),
                    self.spec_events(),
                    bytes_view(out@),
                    j,
                ) by {
                    if j < i {
                        assert(serialized_at(self.spec_serde(), self.spec_events(), bytes_view(before), j));
                        assert(bytes_view(out@)[j] == bytes_view(before)[j]);
                    } else {
                        assert(cloned(self.spec_events()[j], event));
                        assert(bytes_view(out@)[j] == self.spec_serde().spec_serialize(event));
                    }
                }
            }
            i = i + 1;
        }
        out
    }

    /// Builds the insert with the given payloads: `INSERT INTO event (event_type,payload,k1,..)
    /// VALUES ($1, $2, $3, ..), (..) RETURNING (event_id)`, one column per domain identifier
    /// that any event carries, in key order, `NULL` where an event lacks it.
    pub fn build_with(self, payloads: &Vec<Vec<u8>>) -> (r: PgQueryBuilder)
        requires
            self.spec_events().len() > 0,
            payloads@.len() == self.spec_events().len(),
            all_encodable(insert_events_pieces(self.spec_events(), bytes_view(payloads@))),
        ensures
            builder_sql(r) == "INSERT INTO event ("@ + render_bound(
                insert_events_pieces(self.spec_events(), bytes_view(payloads@)),
                0,
            ),
            builder_arguments(r) == Some(binds_of(insert_events_pieces(self.spec_events(), bytes_view(payloads@)))),
            builder_arguments(r) == Some(
                concat_all(
                    Seq::new(
                        self.spec_events().len(),
                        |i: int|
                            row_values(
                                self.spec_events()[i].spec_name(),
                                entries_map(self.spec_events()[i].spec_domain_identifiers()),
                                bytes_view(payloads@)[i],
                                sorted_keys(all_event_keys(self.spec_events())),
                            ),
                    ),
                ),
            ),
    {
        proof {
            use_type_invariant(&self);
            assert(bytes_view(payloads@).len() == self.spec_events().len());
            lemma_insert_values(self.spec_events(), bytes_view(payloads@));
        }
        let pieces = self.pieces_with(payloads);
        let mut builder = self.builder;
        push_pieces_bound(&mut builder, &pieces);
        proof {
            let pv = insert_events_pieces(self.spec_events(), bytes_view(payloads@));
            assert(Seq::<BindView>::empty() + binds_of(pv) =~= binds_of(pv));
        }
        builder
    }

    /// Builds the insert with the payloads that the serializer writes, or `None` when a
    /// bound value is longer than the PostgreSQL encoding takes (`i32::MAX` bytes).
    pub fn build(self) -> (r: Option<PgQueryBuilder>)
        requires
            self.spec_events().len() > 0,
        ensures
            exists|p: Seq<Seq<u8>>| {
                &&& #[trigger] serialized_payloads(self.spec_serde(), self.spec_events(), p)
                &&& (r is Some <==> all_encodable(insert_events_pieces(self.spec_events(), p)))
                &&& (r matches Some(qb) ==> {
                    &&& builder_sql(qb) == "INSERT INTO event ("@ + render_bound(insert_events_pieces(self.spec_events(), p), 0)
                    &&& builder_arguments(qb) == Some(binds_of(insert_events_pieces(self.spec_events(), p)))
                })
            },
    {
        proof {
            use_type_invariant(&self);
        }
        let payloads = self.payloads();
        let ghost p = bytes_view(payloads@);
        let pieces = self.pieces_with(&payloads);
        let ghost pv = insert_events_pieces(self.spec_events(), p);
        if !pieces_encodable(&pieces) {
            proof {
                assert(serialized_payloads(self.spec_serde(), self.spec_events(), p) && !all_encodable(pv));
            }
            return None;
        }
        let mut builder = self.builder;
        push_pieces_bound(&mut builder, &pieces);
        proof {
            assert(Seq::<BindView>::empty() + binds_of(pv) =~= binds_of(pv));
            assert(serialized_payloads(self.spec_serde(), self.spec_events(), p) && all_encodable(pv) && builder_sql(builder)
                == "INSERT INTO event ("@ + render_bound(pv, 0) && builder_arguments(builder) == Some(binds_of(pv)));
        }
        Some(builder)
    }

    /// The pieces of the insert with the given payloads.
    fn pieces_with(&self, payloads: &Vec<Vec<u8>>) -> (r: Vec<SqlPiece>)
        requires
            payloads@.len() == self.spec_events().len(),
        ensures
            pieces_view(r@) == insert_events_pieces(self.spec_events(), bytes_view(payloads@)),
    {
        let ghost evs = self.events@;
        let ghost pls = bytes_view(payloads@);
        let union = key_union(self.events);
        let ghost keys = entry_keys(union@);
        proof {
            assert(strictly_sorted(keys)) by {
                assert forall|i: int, j: int| 0 <= i < j < keys.len() implies str_order(#[trigger] keys[i], #[trigger] keys[j]) < 0 by {
                    assert(str_order(union@[i].0, union@[j].0) < 0);
                }
            }
            assert forall|k: Seq<char>| #[trigger] keys.to_set().contains(k) == all_event_keys(evs).contains(k) by {
                if keys.to_set().contains(k) {
                    let q = choose|q: int| 0 <= q < keys.len() && keys[q] == k;
                    assert(union@[q].0 == k);
                    assert(has_key(union@, k));
                }
                if all_event_keys(evs).contains(k) {
                    assert(has_key(union@, k));
                    let q = choose|q: int| 0 <= q < union@.len() && (#[trigger] union@[q]).0 == k;
                    assert(keys[q] == k);
                    assert(keys.contains(k));
                }
            }
            assert(keys.to_set() =~= all_event_keys(evs));
            lemma_sorted_keys_is(keys, all_event_keys(evs));
        }
        let ghost colf = |k: Seq<char>| PieceView::Text(","@ + k);
        let mut out: Vec<SqlPiece> = Vec::new();
        push_text(&mut out, "event_type,payload");
        let ghost base = pieces_view(out@);
        let n = union.len();
        let mut k: usize = 0;
        proof {
            assert(pieces_view(out@) =~= base + keys.take(0).map_values(colf));
        }
        while k < n
            invariant
                n == union@.len(),
                k <= n,
                keys == entry_keys(union@),
                colf == (|k: Seq<char>| PieceView::Text(","@ + k)),
                pieces_view(out@) == base + keys.take(k as int).map_values(colf),
            decreases n - k,
        {
            let mut t = String::from_str(",");
            t.append(union.entry(k).key.into_inner());
            push_text(&mut out, t.as_str());
            proof {
                assert(keys[k as int] == union@[k as int].0);
                assert(keys.take(k + 1).map_values(colf) =~= keys.take(k as int).map_values(colf).push(colf(keys[k as int])));
                assert(pieces_view(out@) =~= base + keys.take(k + 1).map_values(colf));
            }
            k = k + 1;
        }
        push_text(&mut out, ") ");
        push_text(&mut out, "VALUES ");
        let ghost head = pieces_view(out@);
        proof {
            assert(keys.take(n as int) =~= keys);
            assert(head =~= seq![PieceView::Text("event_type,payload"@)] + keys.map_values(colf) + seq![
                PieceView::Text(") "@),
                PieceView::Text("VALUES "@),
            ]);
        }
        let ghost rows = Seq::new(evs.len(), |i: int| event_row(evs, pls, keys, i));
        let ghost sep = seq![PieceView::Text(", "@)];
        let mut i: usize = 0;
        proof {
            assert(join(rows.take(0), sep) =~= Seq::<PieceView>::empty());
            assert(pieces_view(out@) =~= head + join(rows.take(0), sep));
        }
        while i < self.events.len()
            invariant
                i <= evs.len(),
                evs == self.events@,
                payloads@.len() == evs.len(),
                pls == bytes_view(payloads@),
                keys == entry_keys(union@),
                rows == Seq::new(evs.len(), |i: int| event_row(evs, pls, keys, i)),
                sep == seq![PieceView::Text(", "@)],
                pieces_view(out@) == head + join(rows.take(i as int), sep),
            decreases evs.len() - i,
        {
            let ghost prev = rows.take(i as int);
            if i > 0 {
                push_text(&mut out, ", ");
            }
            let ghost mid = pieces_view(out@);
            push_row(&mut out, &self.events[i], &payloads[i], &union);
            proof {
                assert(pls[i as int] == payloads@[i as int]@);
                assert(rows[i as int] == event_row(evs, pls, keys, i as int));
                assert(rows.take(i + 1) =~= prev.push(rows[i as int]));
                lemma_join_push(prev, sep, rows[i as int]);
                if i == 0 {
                    assert(join(prev, sep) =~= Seq::<PieceView>::empty());
                }
                assert(pieces_view(out@) =~= head + join(rows.take(i + 1), sep));
            }
            i = i + 1;
        }
        push_text(&mut out, " RETURNING (event_id)");
        proof {
            assert(rows.take(i as int) =~= rows);
            assert(pieces_view(out@) =~= insert_events_pieces(evs, pls));
        }
        out
    }
}

} // verus!
