//! The criteria of a stream query pushed onto an sqlx query builder, with every value
//! (origin, event type, identifier values) bound as a parameter.
use vstd::prelude::*;

use crate::event::Event;
use crate::identifier::{IdValue, IdentifierValue};
use crate::identifier::uuid_text;
use crate::event::EventSchema;
use crate::postgres::criteria::{
    active_events, criteria_pieces, criteria_pieces_of, event_pieces, events_known, events_pieces, filter_pieces,
    id_pieces, identifiers_among, info_of, lemma_render_inline_concat, origin_pieces, piece_inline, pieces_view,
    render_inline, PieceView, SqlPiece,
};
use crate::stream_query::FilterView;
use crate::text::{int_decimal, join};
use crate::postgres::pg_query::{
    builder_arguments, builder_open, builder_sql, bound_count, encodable, placeholder, push_bind_int,
    push_bind_bytes, push_bind_text, push_bind_uuid, push_sql, BindView, PgQueryBuilder,
};
use crate::stream_query::StreamQuery;
use vstd::utf8::encode_utf8;

verus! {

/// The bound form of an identifier value.
pub open spec fn bind_view(v: IdValue) -> BindView {
    match v {
        IdValue::Text(s) => BindView::Text(s),
        IdValue::Int(i) => BindView::Int(i),
        IdValue::Uuid(u) => BindView::Uuid(u),
    }
}

/// The values that the pieces bind, in order.
pub open spec fn binds_of(s: Seq<PieceView>) -> Seq<BindView>
    decreases s.len(),
{
    if s.len() == 0 {
        Seq::empty()
    } else {
        binds_of(s.drop_last()) + match s.last() {
            PieceView::Text(_) => Seq::<BindView>::empty(),
            PieceView::Bind(v) => seq![bind_view(v)],
            PieceView::Bytes(b) => seq![BindView::Bytes(b)],
        }
    }
}

/// The text of one piece when `k` values are bound before it: the text itself, or the
/// placeholder of the next position.
pub open spec fn piece_bound(p: PieceView, k: nat) -> Seq<char> {
    match p {
        PieceView::Text(t) => t,
        PieceView::Bind(_) => placeholder(k + 1),
        PieceView::Bytes(_) => placeholder(k + 1),
    }
}

/// The SQL text of the pieces when `n` values are bound before them.
pub open spec fn render_bound(s: Seq<PieceView>, n: nat) -> Seq<char>
    decreases s.len(),
{
    if s.len() == 0 {
        Seq::empty()
    } else {
        render_bound(s.drop_last(), n) + piece_bound(s.last(), n + binds_of(s.drop_last()).len())
    }
}

/// The SQL literal of a bound value (bytes have none).
pub open spec fn bind_literal(b: BindView) -> Seq<char> {
    match b {
        BindView::Text(s) => "'"@ + s + "'"@,
        BindView::Int(i) => int_decimal(i as int),
        BindView::Uuid(u) => "'"@ + uuid_text(u) + "'"@,
        BindView::Bytes(_) => Seq::empty(),
    }
}

/// The texts of the pieces between their values: one more segment than values.
pub open spec fn text_segments(s: Seq<PieceView>) -> Seq<Seq<char>>
    decreases s.len(),
{
    if s.len() == 0 {
        seq![Seq::empty()]
    } else {
        let segs = text_segments(s.drop_last());
        match s.last() {
            PieceView::Text(t) => segs.update(segs.len() - 1, segs.last() + t),
            _ => segs.push(Seq::empty()),
        }
    }
}

/// The segments with the values between them: `segs[0] + vals[0] + segs[1] + ..`.
pub open spec fn interleave(segs: Seq<Seq<char>>, vals: Seq<Seq<char>>) -> Seq<char>
    decreases vals.len(),
{
    if vals.len() == 0 {
        segs[0]
    } else {
        interleave(segs.drop_last(), vals.drop_last()) + vals.last() + segs.last()
    }
}

/// The placeholders of `count` values bound after `n` others: `$n+1`, `$n+2`, ...
pub open spec fn placeholders(n: nat, count: nat) -> Seq<Seq<char>> {
    Seq::new(count, |i: int| placeholder((n + i + 1) as nat))
}

/// The two renderings of the same pieces differ only at their values: the inline text has
/// each value's literal where the bound text has the placeholder of its position, left to
/// right, and the values are bound in that order.
pub proof fn lemma_bound_and_inline_renderings(s: Seq<PieceView>, n: nat)
    ensures
        text_segments(s).len() == binds_of(s).len() + 1,
        render_inline(s) == interleave(text_segments(s), binds_of(s).map_values(|b: BindView| bind_literal(b))),
        render_bound(s, n) == interleave(text_segments(s), placeholders(n, binds_of(s).len())),
    decreases s.len(),
{
    let lits = binds_of(s).map_values(|b: BindView| bind_literal(b));
    if s.len() == 0 {
        assert(render_inline(s) == Seq::<char>::empty());
        assert(lits.len() == 0);
        assert(placeholders(n, 0).len() == 0);
    } else {
        let s1 = s.drop_last();
        lemma_bound_and_inline_renderings(s1, n);
        let segs1 = text_segments(s1);
        let b1 = binds_of(s1);
        let lits1 = b1.map_values(|b: BindView| bind_literal(b));
        let ph1 = placeholders(n, b1.len());
        let segs = text_segments(s);
        match s.last() {
            PieceView::Text(t) => {
                assert(binds_of(s) =~= b1);
                assert(lits =~= lits1);
                assert(segs.drop_last() =~= segs1.drop_last());
                if b1.len() > 0 {
                    assert(lits.drop_last() =~= lits1.drop_last());
                    assert(ph1.drop_last() =~= placeholders(n, (b1.len() - 1) as nat));
                    assert(interleave(segs, lits) == interleave(segs1.drop_last(), lits1.drop_last()) + lits1.last()
                        + (segs1.last() + t));
                    assert(interleave(segs, ph1) == interleave(segs1.drop_last(), ph1.drop_last()) + ph1.last()
                        + (segs1.last() + t));
                }
            },
            _ => {
                let b = match s.last() {
                    PieceView::Bind(v) => bind_view(v),
                    PieceView::Bytes(x) => BindView::Bytes(x),
                    PieceView::Text(_) => BindView::Int(0),
                };
                assert(binds_of(s) =~= b1.push(b));
                assert(lits =~= lits1.push(bind_literal(b)));
                assert(segs =~= segs1.push(Seq::empty()));
                assert(lits.drop_last() =~= lits1);
                assert(segs.drop_last() =~= segs1);
                assert(piece_inline(s.last()) == bind_literal(b));
                let ph = placeholders(n, binds_of(s).len());
                assert(ph.drop_last() =~= ph1);
                assert(ph.last() == placeholder((n + b1.len()) + 1));
                assert(interleave(segs, lits) =~= interleave(segs1, lits1) + bind_literal(b));
                assert(interleave(segs, ph) =~= interleave(segs1, ph1) + ph.last());
            },
        }
    }
}

/// The sequences one after another.
pub open spec fn concat_all<T>(xs: Seq<Seq<T>>) -> Seq<T>
    decreases xs.len(),
{
    if xs.len() == 0 {
        Seq::empty()
    } else {
        concat_all(xs.drop_last()) + xs.last()
    }
}

/// The values bound by pieces one after another are the values of each, in order.
pub proof fn lemma_binds_concat(a: Seq<PieceView>, b: Seq<PieceView>)
    ensures
        binds_of(a + b) == binds_of(a) + binds_of(b),
    decreases b.len(),
{
    if b.len() == 0 {
        assert(a + b =~= a);
        assert(binds_of(a) + binds_of(b) =~= binds_of(a));
    } else {
        lemma_binds_concat(a, b.drop_last());
        assert((a + b).drop_last() =~= a + b.drop_last());
        assert((a + b).last() == b.last());
        assert(binds_of(a) + binds_of(b) =~= binds_of(a) + binds_of(b.drop_last()) + match b.last() {
            PieceView::Text(_) => Seq::<BindView>::empty(),
            PieceView::Bind(v) => seq![bind_view(v)],
            PieceView::Bytes(x) => seq![BindView::Bytes(x)],
        });
    }
}

/// Pieces joined by a separator that binds nothing bind the values of each part, in order.
pub proof fn lemma_binds_join(parts: Seq<Seq<PieceView>>, sep: Seq<PieceView>)
    requires
        binds_of(sep) == Seq::<BindView>::empty(),
    ensures
        binds_of(join(parts, sep)) == concat_all(parts.map_values(|x: Seq<PieceView>| binds_of(x))),
    decreases parts.len(),
{
    let bs = parts.map_values(|x: Seq<PieceView>| binds_of(x));
    if parts.len() == 0 {
        assert(binds_of(Seq::<PieceView>::empty()) =~= Seq::<BindView>::empty());
    } else if parts.len() == 1 {
        assert(bs.drop_last() =~= Seq::<Seq<BindView>>::empty());
        assert(concat_all(bs.drop_last()) == Seq::<BindView>::empty());
        assert(Seq::<BindView>::empty() + bs.last() =~= bs[0]);
    } else {
        lemma_binds_join(parts.drop_last(), sep);
        assert(bs.drop_last() =~= parts.drop_last().map_values(|x: Seq<PieceView>| binds_of(x)));
        lemma_binds_concat(join(parts.drop_last(), sep), sep);
        lemma_binds_concat(join(parts.drop_last(), sep) + sep, parts.last());
        assert(binds_of(join(parts.drop_last(), sep)) + Seq::<BindView>::empty() =~= binds_of(join(
            parts.drop_last(),
            sep,
        )));
    }
}

/// The value one piece binds, if any.
pub proof fn lemma_binds_single(p: PieceView)
    ensures
        binds_of(seq![p]) == match p {
            PieceView::Text(_) => Seq::<BindView>::empty(),
            PieceView::Bind(v) => seq![bind_view(v)],
            PieceView::Bytes(x) => seq![BindView::Bytes(x)],
        },
{
    assert(seq![p].drop_last() =~= Seq::<PieceView>::empty());
    assert(binds_of(Seq::<PieceView>::empty()) == Seq::<BindView>::empty());
    assert(Seq::<BindView>::empty() + match p {
        PieceView::Text(_) => Seq::<BindView>::empty(),
        PieceView::Bind(v) => seq![bind_view(v)],
        PieceView::Bytes(x) => seq![BindView::Bytes(x)],
    } =~= match p {
        PieceView::Text(_) => Seq::<BindView>::empty(),
        PieceView::Bind(v) => seq![bind_view(v)],
        PieceView::Bytes(x) => seq![BindView::Bytes(x)],
    });
}

/// One value each, one after another: the values in order.
pub proof fn lemma_concat_singletons<T>(xs: Seq<Seq<T>>)
    requires
        forall|i: int| 0 <= i < xs.len() ==> (#[trigger] xs[i]).len() == 1,
    ensures
        concat_all(xs) == xs.map_values(|x: Seq<T>| x[0]),
    decreases xs.len(),
{
    if xs.len() > 0 {
        let ys = xs.drop_last();
        assert forall|i: int| 0 <= i < ys.len() implies (#[trigger] ys[i]).len() == 1 by {
            assert(ys[i] == xs[i]);
        }
        lemma_concat_singletons(ys);
        assert(xs.last().len() == 1);
        assert(xs.last() =~= seq![xs.last()[0]]);
        assert(xs.map_values(|x: Seq<T>| x[0]) =~= ys.map_values(|x: Seq<T>| x[0]) + seq![xs.last()[0]]);
    } else {
        assert(xs.map_values(|x: Seq<T>| x[0]) =~= Seq::<T>::empty());
    }
}

/// The identifier tests of an event's condition: for each identifier, in order,
/// ` AND column = literal`.
pub open spec fn and_tests(sel: Seq<(Seq<char>, IdValue)>, prefix: Seq<char>) -> Seq<char>
    decreases sel.len(),
{
    if sel.len() == 0 {
        Seq::empty()
    } else {
        and_tests(sel.drop_last(), prefix) + " AND "@ + prefix + sel.last().0 + " = "@ + bind_literal(
            bind_view(sel.last().1),
        )
    }
}

proof fn lemma_render_single(a: PieceView)
    ensures
        render_inline(seq![a]) == piece_inline(a),
{
    assert(seq![a].drop_last() =~= Seq::<PieceView>::empty());
    assert(render_inline(Seq::<PieceView>::empty()) == Seq::<char>::empty());
    assert(Seq::<char>::empty() + piece_inline(a) =~= piece_inline(a));
}

proof fn lemma_render_pair(a: PieceView, b: PieceView)
    ensures
        render_inline(seq![a, b]) == piece_inline(a) + piece_inline(b),
{
    assert(seq![a, b] == seq![a] + seq![b]);
    lemma_render_inline_concat(seq![a], seq![b]);
    lemma_render_single(a);
    lemma_render_single(b);
}

proof fn lemma_literal_of_bind(v: IdValue)
    ensures
        piece_inline(PieceView::Bind(v)) == bind_literal(bind_view(v)),
{
}

proof fn lemma_id_tests(sel: Seq<(Seq<char>, IdValue)>, prefix: Seq<char>)
    requires
        sel.len() > 0,
    ensures
        " AND "@ + render_inline(
            join(sel.map_values(|x: (Seq<char>, IdValue)| id_pieces(x, prefix)), seq![PieceView::Text(" AND "@)]),
        ) == and_tests(sel, prefix),
        binds_of(join(sel.map_values(|x: (Seq<char>, IdValue)| id_pieces(x, prefix)), seq![PieceView::Text(" AND "@)]))
            == sel.map_values(|x: (Seq<char>, IdValue)| bind_view(x.1)),
    decreases sel.len(),
{
    let parts = sel.map_values(|x: (Seq<char>, IdValue)| id_pieces(x, prefix));
    let sep = seq![PieceView::Text(" AND "@)];
    let x = sel.last();
    lemma_render_pair(PieceView::Text(prefix + x.0 + " = "@), PieceView::Bind(x.1));
    lemma_literal_of_bind(x.1);
    assert(parts.last() == id_pieces(x, prefix));
    assert(id_pieces(x, prefix) == seq![PieceView::Text(prefix + x.0 + " = "@)] + seq![PieceView::Bind(x.1)]);
    lemma_binds_concat(seq![PieceView::Text(prefix + x.0 + " = "@)], seq![PieceView::Bind(x.1)]);
    lemma_binds_single(PieceView::Text(prefix + x.0 + " = "@));
    lemma_binds_single(PieceView::Bind(x.1));
    lemma_binds_single(PieceView::Text(" AND "@));
    lemma_render_single(PieceView::Text(" AND "@));
    assert(binds_of(parts.last()) =~= seq![bind_view(x.1)]);
    if sel.len() == 1 {
        assert(and_tests(sel.drop_last(), prefix) == Seq::<char>::empty());
        assert(" AND "@ + (prefix + x.0 + " = "@ + bind_literal(bind_view(x.1))) =~= Seq::<char>::empty() + " AND "@
            + prefix + x.0 + " = "@ + bind_literal(bind_view(x.1)));
        assert(sel.map_values(|y: (Seq<char>, IdValue)| bind_view(y.1)) =~= seq![bind_view(x.1)]);
    } else {
        let s1 = sel.drop_last();
        lemma_id_tests(s1, prefix);
        let p1 = s1.map_values(|y: (Seq<char>, IdValue)| id_pieces(y, prefix));
        assert(parts.drop_last() =~= p1);
        assert(join(parts, sep) == join(p1, sep) + sep + parts.last());
        lemma_render_inline_concat(join(p1, sep), sep);
        lemma_render_inline_concat(join(p1, sep) + sep, parts.last());
        lemma_binds_concat(join(p1, sep), sep);
        lemma_binds_concat(join(p1, sep) + sep, parts.last());
        assert(" AND "@ + (render_inline(join(p1, sep)) + " AND "@ + (prefix + x.0 + " = "@ + bind_literal(
            bind_view(x.1),
        ))) =~= (" AND "@ + render_inline(join(p1, sep))) + " AND "@ + prefix + x.0 + " = "@ + bind_literal(
            bind_view(x.1),
        ));
        assert(sel.map_values(|y: (Seq<char>, IdValue)| bind_view(y.1)) =~= s1.map_values(
            |y: (Seq<char>, IdValue)| bind_view(y.1),
        ).push(bind_view(x.1)));
        assert(binds_of(join(p1, sep)) + Seq::<BindView>::empty() + seq![bind_view(x.1)] =~= s1.map_values(
            |y: (Seq<char>, IdValue)| bind_view(y.1),
        ).push(bind_view(x.1)));
    }
}

/// The condition of one event is a conjunction: the test of its type, then, joined by
/// ` AND ` only, one equality test per identifier of the filter that the event's schema
/// carries, in order, each between the column and that identifier's own value; it binds the
/// event's name, then those values in the same order.
pub proof fn lemma_event_condition(e: Seq<char>, ids: Seq<(Seq<char>, IdValue)>, schema: EventSchema, prefix: Seq<char>)
    ensures
        render_inline(event_pieces(e, ids, schema, prefix)) == "("@ + prefix + "event_type = "@ + bind_literal(
            BindView::Text(e),
        ) + and_tests(identifiers_among(ids, info_of(schema, e).identifier_keys()), prefix) + ")"@,
        binds_of(event_pieces(e, ids, schema, prefix)) == seq![BindView::Text(e)] + identifiers_among(
            ids,
            info_of(schema, e).identifier_keys(),
        ).map_values(|x: (Seq<char>, IdValue)| bind_view(x.1)),
{
    let sel = identifiers_among(ids, info_of(schema, e).identifier_keys());
    let head = seq![PieceView::Text("("@ + prefix + "event_type = "@), PieceView::Bind(IdValue::Text(e))];
    let sep = seq![PieceView::Text(" AND "@)];
    let parts = sel.map_values(|x: (Seq<char>, IdValue)| id_pieces(x, prefix));
    let mid = if sel.len() > 0 {
        sep + join(parts, sep)
    } else {
        Seq::empty()
    };
    let tail = seq![PieceView::Text(")"@)];
    assert(event_pieces(e, ids, schema, prefix) == head + mid + tail);
    lemma_render_pair(head[0], head[1]);
    lemma_render_single(tail[0]);
    assert(head == seq![head[0]] + seq![head[1]]);
    lemma_binds_concat(seq![head[0]], seq![head[1]]);
    lemma_binds_single(head[0]);
    lemma_binds_single(head[1]);
    lemma_binds_single(tail[0]);
    lemma_binds_single(sep[0]);
    lemma_render_single(sep[0]);
    if sel.len() > 0 {
        lemma_id_tests(sel, prefix);
        lemma_render_inline_concat(sep, join(parts, sep));
        lemma_binds_concat(sep, join(parts, sep));
    } else {
        assert(render_inline(Seq::<PieceView>::empty()) == Seq::<char>::empty());
        assert(binds_of(Seq::<PieceView>::empty()) == Seq::<BindView>::empty());
        assert(sel.map_values(|x: (Seq<char>, IdValue)| bind_view(x.1)) =~= Seq::<BindView>::empty());
    }
    lemma_render_inline_concat(head, mid);
    lemma_render_inline_concat(head + mid, tail);
    lemma_binds_concat(head, mid);
    lemma_binds_concat(head + mid, tail);
    assert(render_inline(head + mid + tail) =~= "("@ + prefix + "event_type = "@ + bind_literal(BindView::Text(e))
        + and_tests(sel, prefix) + ")"@);
    assert(binds_of(head + mid + tail) =~= seq![BindView::Text(e)] + sel.map_values(
        |x: (Seq<char>, IdValue)| bind_view(x.1),
    ));
}

/// Rendering pieces joined by a separator joins their renderings by the separator's.
pub proof fn lemma_render_join_text(parts: Seq<Seq<PieceView>>, sep: Seq<PieceView>)
    ensures
        render_inline(join(parts, sep)) == join(
            parts.map_values(|x: Seq<PieceView>| render_inline(x)),
            render_inline(sep),
        ),
    decreases parts.len(),
{
    let rs = parts.map_values(|x: Seq<PieceView>| render_inline(x));
    if parts.len() == 0 {
        assert(render_inline(Seq::<PieceView>::empty()) == Seq::<char>::empty());
    } else if parts.len() > 1 {
        lemma_render_join_text(parts.drop_last(), sep);
        assert(rs.drop_last() =~= parts.drop_last().map_values(|x: Seq<PieceView>| render_inline(x)));
        lemma_render_inline_concat(join(parts.drop_last(), sep), sep);
        lemma_render_inline_concat(join(parts.drop_last(), sep) + sep, parts.last());
    }
}

/// The text of the origin test of a filter: `event_id > origin`, opening the conjunction
/// with its events when it has any; nothing for a filter from the start.
pub open spec fn origin_text(f: FilterView, prefix: Seq<char>) -> Seq<char> {
    if f.origin > 0 {
        prefix + "event_id > "@ + int_decimal(f.origin as int) + if active_events(f).len() > 0 {
            " AND ("@
        } else {
            Seq::empty()
        }
    } else {
        Seq::empty()
    }
}

/// The text of a filter's condition: its origin test, then the conditions of the events it
/// selects joined by ` OR `, the whole in parentheses.
pub open spec fn filter_text(f: FilterView, schema: EventSchema, prefix: Seq<char>) -> Seq<char> {
    "("@ + origin_text(f, prefix) + join(
        active_events(f).map_values(|e: Seq<char>| render_inline(event_pieces(e, f.identifiers, schema, prefix))),
        " OR "@,
    ) + if f.origin > 0 && active_events(f).len() > 0 {
        ")"@
    } else {
        Seq::empty()
    } + ")"@
}

/// The criteria of a query are the conditions of its filters joined by ` OR `; the condition
/// of a filter is its origin test (`event_id > origin AND (..)` when it has an origin) around
/// the conditions of the events it selects, joined by ` OR `.
pub proof fn lemma_criteria_text(q: Seq<FilterView>, schema: EventSchema, prefix: Seq<char>)
    ensures
        render_inline(criteria_pieces(q, schema, prefix)) == join(
            q.map_values(|f: FilterView| filter_text(f, schema, prefix)),
            " OR "@,
        ),
{
    let parts = q.map_values(|f: FilterView| filter_pieces(f, schema, prefix));
    let sep = seq![PieceView::Text(" OR "@)];
    lemma_render_single(sep[0]);
    lemma_render_join_text(parts, sep);
    assert forall|i: int| #![trigger q[i]] 0 <= i < q.len() implies parts.map_values(
        |x: Seq<PieceView>| render_inline(x),
    )[i] == q.map_values(|f: FilterView| filter_text(f, schema, prefix))[i] by {
        lemma_filter_text(q[i], schema, prefix);
    }
    assert(parts.map_values(|x: Seq<PieceView>| render_inline(x)) =~= q.map_values(
        |f: FilterView| filter_text(f, schema, prefix),
    ));
}

proof fn lemma_filter_text(f: FilterView, schema: EventSchema, prefix: Seq<char>)
    ensures
        render_inline(filter_pieces(f, schema, prefix)) == filter_text(f, schema, prefix),
{
    let open = seq![PieceView::Text("("@)];
    let o = origin_pieces(f, prefix);
    let ev = events_pieces(f, schema, prefix);
    let close = if f.origin > 0 && active_events(f).len() > 0 {
        seq![PieceView::Text(")"@)]
    } else {
        Seq::empty()
    };
    let end = seq![PieceView::Text(")"@)];
    assert(filter_pieces(f, schema, prefix) == open + o + ev + close + end);
    lemma_render_single(open[0]);
    lemma_render_single(end[0]);
    assert(render_inline(Seq::<PieceView>::empty()) == Seq::<char>::empty());
    assert(render_inline(close) == if f.origin > 0 && active_events(f).len() > 0 {
        ")"@
    } else {
        Seq::<char>::empty()
    });
    assert(render_inline(o) == origin_text(f, prefix)) by {
        if f.origin > 0 {
            let head = seq![PieceView::Text(prefix + "event_id > "@), PieceView::Bind(IdValue::Int(f.origin))];
            let more = if active_events(f).len() > 0 {
                seq![PieceView::Text(" AND ("@)]
            } else {
                Seq::empty()
            };
            assert(o == head + more);
            lemma_render_pair(head[0], head[1]);
            lemma_render_single(PieceView::Text(" AND ("@));
            lemma_render_inline_concat(head, more);
        }
    }
    let evs = active_events(f).map_values(|e: Seq<char>| event_pieces(e, f.identifiers, schema, prefix));
    let sep = seq![PieceView::Text(" OR "@)];
    lemma_render_single(sep[0]);
    lemma_render_join_text(evs, sep);
    assert(evs.map_values(|x: Seq<PieceView>| render_inline(x)) =~= active_events(f).map_values(
        |e: Seq<char>| render_inline(event_pieces(e, f.identifiers, schema, prefix)),
    ));
    lemma_render_inline_concat(open, o);
    lemma_render_inline_concat(open + o, ev);
    lemma_render_inline_concat(open + o + ev, close);
    lemma_render_inline_concat(open + o + ev + close, end);
}

/// Every value that the pieces bind can be encoded.
pub open spec fn all_encodable(s: Seq<PieceView>) -> bool {
    forall|i: int| 0 <= i < binds_of(s).len() ==> encodable(#[trigger] binds_of(s)[i])
}

proof fn lemma_binds_prefix(s: Seq<PieceView>, i: int)
    requires
        0 <= i <= s.len(),
    ensures
        binds_of(s.take(i)).len() <= binds_of(s).len(),
        forall|j: int| 0 <= j < binds_of(s.take(i)).len() ==> binds_of(s.take(i))[j] == binds_of(s)[j],
    decreases s.len() - i,
{
    if i < s.len() {
        lemma_binds_prefix(s, i + 1);
        assert(s.take(i + 1).drop_last() =~= s.take(i));
    } else {
        assert(s.take(i) =~= s);
    }
}

/// Pushes the pieces onto the builder: text as it is, values bound.
pub(crate) fn push_pieces_bound(qb: &mut PgQueryBuilder, pieces: &Vec<SqlPiece>)
    requires
        builder_open(*old(qb)),
        all_encodable(pieces_view(pieces@)),
    ensures
        builder_sql(*final(qb)) == builder_sql(*old(qb)) + render_bound(pieces_view(pieces@), bound_count(*old(qb))),
        builder_arguments(*final(qb)) == Some(builder_arguments(*old(qb))->0 + binds_of(pieces_view(pieces@))),
{
    let ghost pv = pieces_view(pieces@);
    let ghost sql0 = builder_sql(*qb);
    let ghost args0 = builder_arguments(*qb)->0;
    let mut i: usize = 0;
    while i < pieces.len()
        invariant
            i <= pieces@.len(),
            pv == pieces_view(pieces@),
            all_encodable(pv),
            builder_open(*qb),
            builder_sql(*qb) == sql0 + render_bound(pv.take(i as int), args0.len()),
            builder_arguments(*qb) == Some(args0 + binds_of(pv.take(i as int))),
        decreases pieces@.len() - i,
    {
        let ghost before = pv.take(i as int);
        proof {
            assert(pv.take(i + 1).drop_last() =~= before);
            assert(pv[i as int] == pieces@[i as int]@);
            lemma_binds_prefix(pv, i + 1);
        }
        match &pieces[i] {
            SqlPiece::Text(t) => {
                push_sql(qb, t.as_str());
            },
            SqlPiece::Bind(IdentifierValue::String(s)) => {
                proof {
                    let k = binds_of(before).len() as int;
                    assert(binds_of(pv.take(i + 1))[k] == BindView::Text(s@));
                    assert(encodable(binds_of(pv)[k]));
                }
                push_bind_text(qb, s.clone());
            },
            SqlPiece::Bind(IdentifierValue::i64(v)) => {
                push_bind_int(qb, *v);
            },
            SqlPiece::Bind(IdentifierValue::Uuid(u)) => {
                push_bind_uuid(qb, *u);
            },
            SqlPiece::Bytes(b) => {
                proof {
                    let k = binds_of(before).len() as int;
                    assert(binds_of(pv.take(i + 1))[k] == BindView::Bytes(b@));
                    assert(encodable(binds_of(pv)[k]));
                }
                push_bind_bytes(qb, b.clone());
            },
        }
        proof {
            assert(args0 + binds_of(pv.take(i + 1)) =~= builder_arguments(*qb)->0);
        }
        i = i + 1;
    }
    proof {
        assert(pv.take(i as int) =~= pv);
    }
}

/// Whether every value that the pieces bind can be encoded.
pub fn pieces_encodable(pieces: &Vec<SqlPiece>) -> (r: bool)
    ensures
        r == all_encodable(pieces_view(pieces@)),
{
    let ghost pv = pieces_view(pieces@);
    let mut i: usize = 0;
    while i < pieces.len()
        invariant
            i <= pieces@.len(),
            pv == pieces_view(pieces@),
            all_encodable(pv.take(i as int)),
        decreases pieces@.len() - i,
    {
        let ghost before = pv.take(i as int);
        proof {
            assert(pv.take(i + 1).drop_last() =~= before);
            assert(pv[i as int] == pieces@[i as int]@);
            lemma_binds_prefix(pv, i + 1);
        }
        let ok = match &pieces[i] {
            SqlPiece::Bind(IdentifierValue::String(s)) => {
                let bytes = s.as_str().as_bytes();
                let fits = bytes.len() <= 2147483647usize;
                proof {
                    assert(bytes@ == encode_utf8(s@));
                    assert(fits == (encode_utf8(s@).len() <= i32::MAX));
                    assert(binds_of(pv.take(i + 1)) == binds_of(before) + seq![BindView::Text(s@)]);
                }
                fits
            },
            SqlPiece::Bytes(b) => {
                proof {
                    assert(binds_of(pv.take(i + 1)) == binds_of(before) + seq![BindView::Bytes(b@)]);
                }
                b.len() <= 2147483647usize
            },
            SqlPiece::Bind(v) => {
                proof {
                    assert(binds_of(pv.take(i + 1)) == binds_of(before) + seq![bind_view(v@)]);
                    assert(!(v@ is Text));
                }
                true
            },
            SqlPiece::Text(_) => {
                proof {
                    assert(binds_of(pv.take(i + 1)) == binds_of(before));
                }
                true
            },
        };
        let ghost k = binds_of(before).len() as int;
        if !ok {
            proof {
                assert(binds_of(pv.take(i + 1))[k] == binds_of(pv)[k]);
                assert(!encodable(binds_of(pv)[k]));
            }
            return false;
        }
        proof {
            assert forall|j: int| 0 <= j < binds_of(pv.take(i + 1)).len() implies encodable(
                #[trigger] binds_of(pv.take(i + 1))[j],
            ) by {
                if j < k {
                    assert(binds_of(pv.take(i + 1))[j] == binds_of(before)[j]);
                }
            }
        }
        i = i + 1;
    }
    proof {
        assert(pv.take(i as int) =~= pv);
    }
    true
}

/// Pushing the criteria of a stream query onto an sqlx query builder.
pub trait QueryBuilderExt: Sized {
    /// The SQL text held.
    spec fn sql_text(&self) -> Seq<char>;

    /// The values bound, in order; `None` once they were taken.
    spec fn bound_values(&self) -> Option<Seq<BindView>>;

    /// Appends the criteria of the query: for each filter, its origin condition and the
    /// condition of each event it selects, with the domain identifiers that event carries;
    /// filters and events joined by `OR`. Every value is bound, not written.
    fn push_stream_query<QE: Event>(&mut self, query: &StreamQuery<QE>)
        requires
            old(self).bound_values() is Some,
            events_known(query@, QE::spec_schema()),
            all_encodable(criteria_pieces(query@, QE::spec_schema(), Seq::empty())),
        ensures
            final(self).sql_text() == old(self).sql_text() + render_bound(
                criteria_pieces(query@, QE::spec_schema(), Seq::empty()),
                old(self).bound_values()->0.len(),
            ),
            final(self).bound_values() == Some(
                old(self).bound_values()->0 + binds_of(criteria_pieces(query@, QE::spec_schema(), Seq::empty())),
            ),
    ;
}

impl QueryBuilderExt for PgQueryBuilder {
    open spec fn sql_text(&self) -> Seq<char> {
        builder_sql(*self)
    }

    open spec fn bound_values(&self) -> Option<Seq<BindView>> {
        builder_arguments(*self)
    }

    fn push_stream_query<QE: Event>(&mut self, query: &StreamQuery<QE>) {
        let prefix = "";
        proof {
            reveal_strlit("");
            assert(prefix@ =~= Seq::<char>::empty());
        }
        let pieces = criteria_pieces_of(query, prefix);
        push_pieces_bound(self, &pieces);
    }
}

} // verus!
