//! The insert of one event into an event table: its type, its domain identifiers and,
//! on request, its ID, payload and consumed flag.
use vstd::prelude::*;

use crate::domain_identifier::{DomainIdentifier, DomainIdentifierSet};
use crate::event::Event;
use crate::identifier::{IdValue, IdentifierValue};
use crate::postgres::criteria::{pieces_view, push_piece, push_text, PieceView, SqlPiece};
use crate::postgres::pg_query::{builder_arguments, builder_sql, new_builder, BindView, PgQueryBuilder};
use crate::postgres::query::{
    all_encodable, bind_view, binds_of, concat_all, lemma_binds_concat, lemma_binds_join, lemma_binds_single,
    lemma_concat_singletons, push_pieces_bound, render_bound,
};
use crate::text::{join, lemma_join_push};

verus! {

/// `,column` for one domain identifier.
pub open spec fn column_piece(p: (Seq<char>, IdValue)) -> PieceView {
    PieceView::Text(","@ + p.0)
}

/// `,value` for one domain identifier, the value bound.
pub open spec fn value_pieces(p: (Seq<char>, IdValue)) -> Seq<PieceView> {
    seq![PieceView::Text(","@), PieceView::Bind(p.1)]
}

/// A piece when the option is set, nothing otherwise.
pub open spec fn when_some<T>(o: Option<T>, p: spec_fn(T) -> Seq<PieceView>) -> Seq<PieceView> {
    match o {
        Some(v) => p(v),
        None => Seq::empty(),
    }
}

/// The pieces of the insert after `INSERT INTO table (`: the columns, then the values in
/// the same order, then the optional `RETURNING` clause.
pub open spec fn insert_pieces(
    name: Seq<char>,
    ids: Seq<(Seq<char>, IdValue)>,
    id: Option<i64>,
    payload: Option<Seq<u8>>,
    consumed: Option<bool>,
    returning: Option<Seq<char>>,
) -> Seq<PieceView> {
    seq![PieceView::Text("event_type"@)]
        + ids.map_values(|p: (Seq<char>, IdValue)| column_piece(p))
        + when_some(id, |i: i64| seq![PieceView::Text(",event_id"@)])
        + when_some(payload, |b: Seq<u8>| seq![PieceView::Text(",payload"@)])
        + when_some(consumed, |c: bool| seq![PieceView::Text(",consumed"@)])
        + seq![PieceView::Text(") VALUES ("@), PieceView::Bind(IdValue::Text(name))]
        + join(ids.map_values(|p: (Seq<char>, IdValue)| value_pieces(p)), Seq::empty())
        + when_some(id, |i: i64| seq![PieceView::Text(","@), PieceView::Bind(IdValue::Int(i))])
        + when_some(payload, |b: Seq<u8>| seq![PieceView::Text(","@), PieceView::Bytes(b)])
        + when_some(consumed, |c: bool| seq![PieceView::Text(if c { ",1"@ } else { ",0"@ })])
        + seq![PieceView::Text(")"@)]
        + when_some(returning, |r: Seq<char>| seq![PieceView::Text(" RETURNING ("@ + r + ")"@)])
}

proof fn lemma_texts_only(s: Seq<PieceView>)
    requires
        forall|i: int| 0 <= i < s.len() ==> (#[trigger] s[i]) is Text,
    ensures
        binds_of(s) == Seq::<BindView>::empty(),
    decreases s.len(),
{
    if s.len() > 0 {
        let t = s.drop_last();
        assert forall|i: int| 0 <= i < t.len() implies (#[trigger] t[i]) is Text by {
            assert(t[i] == s[i]);
        }
        lemma_texts_only(t);
        assert(s.last() is Text);
        assert(binds_of(s) =~= binds_of(t));
    }
}

/// The values an insert binds: the event's type, then each domain identifier's own value in
/// the order of the columns (the identifiers' key order), then the ID and the payload when
/// they are set.
pub open spec fn insert_values(
    name: Seq<char>,
    ids: Seq<(Seq<char>, IdValue)>,
    id: Option<i64>,
    payload: Option<Seq<u8>>,
) -> Seq<BindView> {
    seq![BindView::Text(name)] + ids.map_values(|p: (Seq<char>, IdValue)| bind_view(p.1)) + match id {
        Some(i) => seq![BindView::Int(i)],
        None => Seq::empty(),
    } + match payload {
        Some(b) => seq![BindView::Bytes(b)],
        None => Seq::empty(),
    }
}

/// An insert binds the event's type, then for each domain identifier column, in order, that
/// identifier's own value, then the ID and the payload when they are set; the consumed flag
/// and the columns are written as text.
pub proof fn lemma_insert_values(
    name: Seq<char>,
    ids: Seq<(Seq<char>, IdValue)>,
    id: Option<i64>,
    payload: Option<Seq<u8>>,
    consumed: Option<bool>,
    returning: Option<Seq<char>>,
)
    ensures
        binds_of(insert_pieces(name, ids, id, payload, consumed, returning)) == insert_values(name, ids, id, payload),
{
    let cols = seq![PieceView::Text("event_type"@)] + ids.map_values(|p: (Seq<char>, IdValue)| column_piece(p))
        + when_some(id, |i: i64| seq![PieceView::Text(",event_id"@)]) + when_some(
        payload,
        |b: Seq<u8>| seq![PieceView::Text(",payload"@)],
    ) + when_some(consumed, |c: bool| seq![PieceView::Text(",consumed"@)]);
    assert forall|i: int| 0 <= i < cols.len() implies (#[trigger] cols[i]) is Text by {
        let a = seq![PieceView::Text("event_type"@)];
        let b = ids.map_values(|p: (Seq<char>, IdValue)| column_piece(p));
        let c = when_some(id, |i: i64| seq![PieceView::Text(",event_id"@)]);
        let d = when_some(payload, |b: Seq<u8>| seq![PieceView::Text(",payload"@)]);
        let e = when_some(consumed, |c: bool| seq![PieceView::Text(",consumed"@)]);
        assert(cols == a + b + c + d + e);
        if i < a.len() {
        } else if i < a.len() + b.len() {
            assert(cols[i] == b[i - a.len()]);
        } else if i < a.len() + b.len() + c.len() {
            assert(cols[i] == c[i - a.len() - b.len()]);
        } else if i < a.len() + b.len() + c.len() + d.len() {
            assert(cols[i] == d[i - a.len() - b.len() - c.len()]);
        } else {
            assert(cols[i] == e[i - a.len() - b.len() - c.len() - d.len()]);
        }
    }
    lemma_texts_only(cols);
    let open = seq![PieceView::Text(") VALUES ("@), PieceView::Bind(IdValue::Text(name))];
    assert(open == seq![open[0]] + seq![open[1]]);
    lemma_binds_single(open[0]);
    lemma_binds_single(open[1]);
    lemma_binds_concat(seq![open[0]], seq![open[1]]);
    let parts = ids.map_values(|p: (Seq<char>, IdValue)| value_pieces(p));
    assert(binds_of(Seq::<PieceView>::empty()) == Seq::<BindView>::empty());
    lemma_binds_join(parts, Seq::empty());
    let bs = parts.map_values(|x: Seq<PieceView>| binds_of(x));
    assert forall|i: int| 0 <= i < bs.len() implies (#[trigger] bs[i]).len() == 1 && bs[i][0] == bind_view(
        ids[i].1,
    ) by {
        assert(value_pieces(ids[i]) == seq![PieceView::Text(","@)] + seq![PieceView::Bind(ids[i].1)]);
        lemma_binds_concat(seq![PieceView::Text(","@)], seq![PieceView::Bind(ids[i].1)]);
        lemma_binds_single(PieceView::Text(","@));
        lemma_binds_single(PieceView::Bind(ids[i].1));
        assert(binds_of(value_pieces(ids[i])) =~= seq![bind_view(ids[i].1)]);
    }
    lemma_concat_singletons(bs);
    assert(bs.map_values(|x: Seq<BindView>| x[0]) =~= ids.map_values(|p: (Seq<char>, IdValue)| bind_view(p.1)));
    let vals = join(parts, Seq::empty());
    let idv = when_some(id, |i: i64| seq![PieceView::Text(","@), PieceView::Bind(IdValue::Int(i))]);
    let pay = when_some(payload, |b: Seq<u8>| seq![PieceView::Text(","@), PieceView::Bytes(b)]);
    let con = when_some(consumed, |c: bool| seq![PieceView::Text(if c { ",1"@ } else { ",0"@ })]);
    let close = seq![PieceView::Text(")"@)];
    let ret = when_some(returning, |r: Seq<char>| seq![PieceView::Text(" RETURNING ("@ + r + ")"@)]);
    lemma_binds_single(PieceView::Text(","@));
    assert(binds_of(idv) == match id {
        Some(i) => seq![BindView::Int(i)],
        None => Seq::<BindView>::empty(),
    }) by {
        if let Some(i) = id {
            assert(idv == seq![PieceView::Text(","@)] + seq![PieceView::Bind(IdValue::Int(i))]);
            lemma_binds_concat(seq![PieceView::Text(","@)], seq![PieceView::Bind(IdValue::Int(i))]);
            lemma_binds_single(PieceView::Bind(IdValue::Int(i)));
            assert(binds_of(idv) =~= seq![BindView::Int(i)]);
        }
    }
    assert(binds_of(pay) == match payload {
        Some(b) => seq![BindView::Bytes(b)],
        None => Seq::<BindView>::empty(),
    }) by {
        if let Some(b) = payload {
            assert(pay == seq![PieceView::Text(","@)] + seq![PieceView::Bytes(b)]);
            lemma_binds_concat(seq![PieceView::Text(","@)], seq![PieceView::Bytes(b)]);
            lemma_binds_single(PieceView::Bytes(b));
            assert(binds_of(pay) =~= seq![BindView::Bytes(b)]);
        }
    }
    assert(binds_of(con) == Seq::<BindView>::empty()) by {
        if let Some(c) = consumed {
            lemma_binds_single(PieceView::Text(if c { ",1"@ } else { ",0"@ }));
        }
    }
    lemma_binds_single(close[0]);
    assert(binds_of(ret) == Seq::<BindView>::empty()) by {
        if let Some(r) = returning {
            lemma_binds_single(PieceView::Text(" RETURNING ("@ + r + ")"@));
        }
    }
    assert(insert_pieces(name, ids, id, payload, consumed, returning) == cols + open + vals + idv + pay + con
        + close + ret);
    lemma_binds_concat(cols, open);
    lemma_binds_concat(cols + open, vals);
    lemma_binds_concat(cols + open + vals, idv);
    lemma_binds_concat(cols + open + vals + idv, pay);
    lemma_binds_concat(cols + open + vals + idv + pay, con);
    lemma_binds_concat(cols + open + vals + idv + pay + con, close);
    lemma_binds_concat(cols + open + vals + idv + pay + con + close, ret);
    assert(binds_of(cols + open + vals + idv + pay + con + close + ret) =~= insert_values(name, ids, id, payload));
}

/// Appends `,column` for each domain identifier, in key order.
fn push_columns(out: &mut Vec<SqlPiece>, ids: &DomainIdentifierSet)
    ensures
        pieces_view(final(out)@) == pieces_view(old(out)@) + ids@.map_values(|p: (Seq<char>, IdValue)| column_piece(p)),
{
    let ghost all = ids@;
    let ghost colf = |p: (Seq<char>, IdValue)| column_piece(p);
    let ghost base = pieces_view(out@);
    let n = ids.len();
    let mut k: usize = 0;
    proof {
        assert(pieces_view(out@) =~= base + all.take(0).map_values(colf));
    }
    while k < n
        invariant
            n == all.len(),
            k <= n,
            all == ids@,
            colf == (|p: (Seq<char>, IdValue)| column_piece(p)),
            pieces_view(out@) == base + all.take(k as int).map_values(colf),
        decreases n - k,
    {
        let entry: &DomainIdentifier = ids.entry(k);
        let mut t = String::from_str(",");
        t.append(entry.key.into_inner());
        push_text(out, t.as_str());
        proof {
            assert(all[k as int] == entry@);
            assert(all.take(k + 1).map_values(colf) =~= all.take(k as int).map_values(colf).push(colf(entry@)));
            assert(pieces_view(out@) =~= base + all.take(k + 1).map_values(colf));
        }
        k = k + 1;
    }
    proof {
        assert(all.take(n as int) =~= all);
    }
}

/// Appends `,value` for each domain identifier, in key order, the values bound.
fn push_values(out: &mut Vec<SqlPiece>, ids: &DomainIdentifierSet)
    ensures
        pieces_view(final(out)@) == pieces_view(old(out)@) + join(
            ids@.map_values(|p: (Seq<char>, IdValue)| value_pieces(p)),
            Seq::empty(),
        ),
{
    let ghost all = ids@;
    let ghost valf = |p: (Seq<char>, IdValue)| value_pieces(p);
    let ghost empty = Seq::<PieceView>::empty();
    let ghost mid = pieces_view(out@);
    let n = ids.len();
    let mut k: usize = 0;
    proof {
        assert(join(all.take(0).map_values(valf), empty) =~= empty);
        assert(pieces_view(out@) =~= mid + join(all.take(0).map_values(valf), empty));
    }
    while k < n
        invariant
            n == all.len(),
            k <= n,
            all == ids@,
            valf == (|p: (Seq<char>, IdValue)| value_pieces(p)),
            empty == Seq::<PieceView>::empty(),
            pieces_view(out@) == mid + join(all.take(k as int).map_values(valf), empty),
        decreases n - k,
    {
        let ghost prev = all.take(k as int);
        let entry: &DomainIdentifier = ids.entry(k);
        push_text(out, ",");
        push_piece(out, SqlPiece::Bind(entry.value.clone()));
        proof {
            assert(all[k as int] == entry@);
            assert(all.take(k + 1) =~= prev.push(entry@));
            assert(prev.push(entry@).map_values(valf) =~= prev.map_values(valf).push(valf(entry@)));
            lemma_join_push(prev.map_values(valf), empty, valf(entry@));
            if k == 0 {
                assert(join(prev.map_values(valf), empty) =~= empty);
            }
            assert(pieces_view(out@) =~= mid + join(all.take(k + 1).map_values(valf), empty));
        }
        k = k + 1;
    }
    proof {
        assert(all.take(n as int) =~= all);
    }
}

/// A builder of the insert of one event.
pub struct InsertBuilder<'a, E: Event> {
    builder: PgQueryBuilder,
    table: Ghost<Seq<char>>,
    event: &'a E,
    id: Option<i64>,
    payload: Option<&'a [u8]>,
    consumed: Option<bool>,
    returning: Option<&'a str>,
}

impl<'a, E: Event> InsertBuilder<'a, E> {
    #[verifier::type_invariant]
    spec fn builder_fresh(self) -> bool {
        &&& builder_sql(self.builder) == "INSERT INTO "@ + self.table@ + " ("@
        &&& builder_arguments(self.builder) == Some(Seq::<BindView>::empty())
    }

    /// The table the event goes into.
    pub closed spec fn spec_table(&self) -> Seq<char> {
        self.table@
    }

    /// The event to insert.
    pub closed spec fn spec_event(&self) -> E {
        *self.event
    }

    /// The ID to insert, if any.
    pub closed spec fn spec_id(&self) -> Option<i64> {
        self.id
    }

    /// The payload to insert, if any.
    pub closed spec fn spec_payload(&self) -> Option<Seq<u8>> {
        match self.payload {
            Some(p) => Some(p@),
            None => None,
        }
    }

    /// The consumed flag to insert, if any.
    pub closed spec fn spec_consumed(&self) -> Option<bool> {
        self.consumed
    }

    /// The columns to return, if any.
    pub closed spec fn spec_returning(&self) -> Option<Seq<char>> {
        match self.returning {
            Some(r) => Some(r@),
            None => None,
        }
    }

    /// The pieces of the insert this builder makes.
    pub open spec fn spec_pieces(&self) -> Seq<PieceView> {
        insert_pieces(
            self.spec_event().spec_name(),
            self.spec_event().spec_domain_identifiers(),
            self.spec_id(),
            self.spec_payload(),
            self.spec_consumed(),
            self.spec_returning(),
        )
    }

    /// A builder of the insert of `event` into `table`, with no ID, payload, consumed flag
    /// or returned columns.
    pub fn new(event: &'a E, table: &str) -> (r: Self)
        ensures
            r.spec_table() == table@,
            r.spec_event() == *event,
            r.spec_id() is None,
            r.spec_payload() is None,
            r.spec_consumed() is None,
            r.spec_returning() is None,
    {
        let mut init = String::from_str("INSERT INTO ");
        init.append(table);
        init.append(" (");
        InsertBuilder {
            builder: new_builder(init),
            table: Ghost(table@),
            event,
            id: None,
            payload: None,
            consumed: None,
            returning: None,
        }
    }

    /// The same builder, inserting the given ID.
    pub fn with_id(self, id: i64) -> (r: Self)
        ensures
            r.spec_table() == self.spec_table(),
            r.spec_event() == self.spec_event(),
            r.spec_id() == Some(id),
            r.spec_payload() == self.spec_payload(),
            r.spec_consumed() == self.spec_consumed(),
            r.spec_returning() == self.spec_returning(),
    {
        proof {
            use_type_invariant(&self);
        }
        InsertBuilder { id: Some(id), ..self }
    }

    /// The same builder, inserting the given payload.
    pub fn with_payload(self, payload: &'a [u8]) -> (r: Self)
        ensures
            r.spec_table() == self.spec_table(),
            r.spec_event() == self.spec_event(),
            r.spec_id() == self.spec_id(),
            r.spec_payload() == Some(payload@),
            r.spec_consumed() == self.spec_consumed(),
            r.spec_returning() == self.spec_returning(),
    {
        proof {
            use_type_invariant(&self);
        }
        InsertBuilder { payload: Some(payload), ..self }
    }

    /// The same builder, inserting the given consumed flag.
    pub fn with_consumed(self, consumed: bool) -> (r: Self)
        ensures
            r.spec_table() == self.spec_table(),
            r.spec_event() == self.spec_event(),
            r.spec_id() == self.spec_id(),
            r.spec_payload() == self.spec_payload(),
            r.spec_consumed() == Some(consumed),
            r.spec_returning() == self.spec_returning(),
    {
        proof {
            use_type_invariant(&self);
        }
        InsertBuilder { consumed: Some(consumed), ..self }
    }

    /// The same builder, returning the given columns.
    pub fn returning(self, returning: &'a str) -> (r: Self)
        ensures
            r.spec_table() == self.spec_table(),
            r.spec_event() == self.spec_event(),
            r.spec_id() == self.spec_id(),
            r.spec_payload() == self.spec_payload(),
            r.spec_consumed() == self.spec_consumed(),
            r.spec_returning() == Some(returning@),
    {
        proof {
            use_type_invariant(&self);
        }
        InsertBuilder { returning: Some(returning), ..self }
    }

    /// Builds the insert: `INSERT INTO table (event_type,k1,..) VALUES ($1,$2,..)`, the
    /// identifiers in key order, every value bound but the consumed flag, written as `1` or
    /// `0`. The query builder is handed out for execution.
    #[verifier::rlimit(30)]
    pub fn build(self) -> (r: PgQueryBuilder)
        requires
            all_encodable(self.spec_pieces()),
        ensures
            builder_sql(r) == "INSERT INTO "@ + self.spec_table() + " ("@ + render_bound(self.spec_pieces(), 0),
            builder_arguments(r) == Some(binds_of(self.spec_pieces())),
            builder_arguments(r) == Some(
                insert_values(
                    self.spec_event().spec_name(),
                    self.spec_event().spec_domain_identifiers(),
                    self.spec_id(),
                    self.spec_payload(),
                ),
            ),
    {
        proof {
            use_type_invariant(&self);
            lemma_insert_values(
                self.spec_event().spec_name(),
                self.spec_event().spec_domain_identifiers(),
                self.spec_id(),
                self.spec_payload(),
                self.spec_consumed(),
                self.spec_returning(),
            );
        }
        let ids = self.event.domain_identifiers();
        let name = self.event.name();
        let ghost all = ids@;
        let ghost sid = self.spec_id();
        let ghost spay = self.spec_payload();
        let ghost scon = self.spec_consumed();
        let ghost sret = self.spec_returning();
        let mut out: Vec<SqlPiece> = Vec::new();
        push_text(&mut out, "event_type");
        push_columns(&mut out, &ids);
        let ghost mut acc = seq![PieceView::Text("event_type"@)] + all.map_values(
            |p: (Seq<char>, IdValue)| column_piece(p),
        );
        proof {
            assert(pieces_view(out@) =~= acc);
        }
        if self.id.is_some() {
            push_text(&mut out, ",event_id");
        }
        proof {
            acc = acc + when_some(sid, |i: i64| seq![PieceView::Text(",event_id"@)]);
            assert(pieces_view(out@) =~= acc);
        }
        if self.payload.is_some() {
            push_text(&mut out, ",payload");
        }
        proof {
            acc = acc + when_some(spay, |b: Seq<u8>| seq![PieceView::Text(",payload"@)]);
            assert(pieces_view(out@) =~= acc);
        }
        if self.consumed.is_some() {
            push_text(&mut out, ",consumed");
        }
        proof {
            acc = acc + when_some(scon, |c: bool| seq![PieceView::Text(",consumed"@)]);
            assert(pieces_view(out@) =~= acc);
        }
        push_text(&mut out, ") VALUES (");
        push_piece(&mut out, SqlPiece::Bind(IdentifierValue::String(String::from_str(name))));
        proof {
            acc = acc + seq![PieceView::Text(") VALUES ("@), PieceView::Bind(IdValue::Text(name@))];
            assert(pieces_view(out@) =~= acc);
        }
        push_values(&mut out, &ids);
        proof {
            acc = acc + join(all.map_values(|p: (Seq<char>, IdValue)| value_pieces(p)), Seq::empty());
        }
        match self.id {
            Some(id) => {
                push_text(&mut out, ",");
                push_piece(&mut out, SqlPiece::Bind(IdentifierValue::i64(id)));
            },
            None => {},
        }
        proof {
            acc = acc + when_some(sid, |i: i64| seq![PieceView::Text(","@), PieceView::Bind(IdValue::Int(i))]);
            assert(pieces_view(out@) =~= acc);
        }
        match self.payload {
            Some(p) => {
                push_text(&mut out, ",");
                push_piece(&mut out, SqlPiece::Bytes(vstd::slice::slice_to_vec(p)));
            },
            None => {},
        }
        proof {
            acc = acc + when_some(spay, |b: Seq<u8>| seq![PieceView::Text(","@), PieceView::Bytes(b)]);
            assert(pieces_view(out@) =~= acc);
        }
        match self.consumed {
            Some(c) => {
                if c {
                    push_text(&mut out, ",1");
                } else {
                    push_text(&mut out, ",0");
                }
            },
            None => {},
        }
        proof {
            acc = acc + when_some(scon, |c: bool| seq![PieceView::Text(if c { ",1"@ } else { ",0"@ })]);
            assert(pieces_view(out@) =~= acc);
        }
        push_text(&mut out, ")");
        proof {
            acc = acc + seq![PieceView::Text(")"@)];
            assert(pieces_view(out@) =~= acc);
        }
        match self.returning {
            Some(r) => {
                let mut t = String::from_str(" RETURNING (");
                t.append(r);
                t.append(")");
                push_text(&mut out, t.as_str());
            },
            None => {},
        }
        proof {
            acc = acc + when_some(sret, |r: Seq<char>| seq![PieceView::Text(" RETURNING ("@ + r + ")"@)]);
            assert(pieces_view(out@) =~= acc);
            assert(acc == self.spec_pieces());
        }
        let mut builder = self.builder;
        push_pieces_bound(&mut builder, &out);
        proof {
            assert(Seq::<BindView>::empty() + binds_of(self.spec_pieces()) =~= binds_of(self.spec_pieces()));
        }
        builder
    }
}

} // verus!
