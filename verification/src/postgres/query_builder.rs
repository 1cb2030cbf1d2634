//! SQL criteria with the values written inline.
use vstd::prelude::*;

use crate::event::Event;
use crate::event::{has_str, EventSchema};
use crate::identifier::IdValue;
use crate::postgres::criteria::{
    active_events, criteria_pieces, criteria_pieces_of, event_pieces, events_known, events_pieces, filter_pieces,
    id_pieces, identifiers_among, info_of, lemma_filter_in, lemma_render_inline_concat, origin_pieces, piece_inline, render_inline,
    render_pieces_inline, PieceView,
};
use crate::text::{int_decimal, join, lemma_join_push};
use crate::stream_query::{FilterView, StreamQuery};

verus! {

/// The column prefix for an optional table alias: `alias.` or nothing.
pub open spec fn alias_prefix(alias: Option<Seq<char>>) -> Seq<char> {
    match alias {
        Some(a) => a + "."@,
        None => Seq::empty(),
    }
}

/// A text template: the segments of a text between which a column prefix stands.
pub open spec fn lit(s: Seq<char>) -> Seq<Seq<char>> {
    seq![s]
}

/// The template of one text followed by another: the last segment of `a` runs into the
/// first of `b`.
pub open spec fn tcat(a: Seq<Seq<char>>, b: Seq<Seq<char>>) -> Seq<Seq<char>> {
    a.drop_last().push(a.last() + b[0]) + b.drop_first()
}

/// The template of texts joined by a literal separator.
pub open spec fn tjoin(ts: Seq<Seq<Seq<char>>>, sep: Seq<char>) -> Seq<Seq<char>>
    decreases ts.len(),
{
    if ts.len() == 0 {
        lit(Seq::empty())
    } else if ts.len() == 1 {
        ts[0]
    } else {
        tcat(tcat(tjoin(ts.drop_last(), sep), lit(sep)), ts.last())
    }
}

/// Filling the template of two texts in sequence fills each in turn.
proof fn lemma_tcat(a: Seq<Seq<char>>, b: Seq<Seq<char>>, p: Seq<char>)
    requires
        a.len() > 0,
        b.len() > 0,
    ensures
        tcat(a, b).len() == a.len() + b.len() - 1,
        join(tcat(a, b), p) == join(a, p) + join(b, p),
    decreases b.len(),
{
    if b.len() == 1 {
        assert(tcat(a, b) =~= a.drop_last().push(a.last() + b[0]));
        lemma_join_push(a.drop_last(), p, a.last() + b[0]);
        assert(a =~= a.drop_last().push(a.last()));
        lemma_join_push(a.drop_last(), p, a.last());
        if a.len() > 1 {
            assert(join(a.drop_last(), p) + p + (a.last() + b[0]) =~= join(a.drop_last(), p) + p + a.last()
                + b[0]);
        }
    } else {
        let b1 = b.drop_last();
        lemma_tcat(a, b1, p);
        assert(tcat(a, b) =~= tcat(a, b1).push(b.last()));
        lemma_join_push(tcat(a, b1), p, b.last());
        assert(b =~= b1.push(b.last()));
        lemma_join_push(b1, p, b.last());
        assert(join(a, p) + join(b1, p) + p + b.last() =~= join(a, p) + (join(b1, p) + p + b.last()));
    }
}

/// Rendering pieces joined by a literal separator fills the joined template, when each part
/// renders as its template filled.
proof fn lemma_render_join(
    parts: Seq<Seq<PieceView>>,
    sep: Seq<PieceView>,
    ts: Seq<Seq<Seq<char>>>,
    sept: Seq<char>,
    p: Seq<char>,
)
    requires
        parts.len() == ts.len(),
        forall|i: int| 0 <= i < ts.len() ==> (#[trigger] ts[i]).len() > 0,
        forall|i: int| 0 <= i < ts.len() ==> render_inline(#[trigger] parts[i]) == join(ts[i], p),
        render_inline(sep) == sept,
    ensures
        tjoin(ts, sept).len() > 0,
        render_inline(join(parts, sep)) == join(tjoin(ts, sept), p),
    decreases parts.len(),
{
    if parts.len() == 0 {
        assert(render_inline(Seq::<PieceView>::empty()) == Seq::<char>::empty());
    } else if parts.len() == 1 {
        assert(render_inline(parts[0]) == join(ts[0], p));
    } else {
        let ps = parts.drop_last();
        let tss = ts.drop_last();
        assert forall|i: int| 0 <= i < tss.len() implies (#[trigger] tss[i]).len() > 0 by {
            assert(tss[i] == ts[i]);
        }
        assert forall|i: int| 0 <= i < tss.len() implies render_inline(#[trigger] ps[i]) == join(tss[i], p) by {
            assert(tss[i] == ts[i]);
            assert(ps[i] == parts[i]);
        }
        lemma_render_join(ps, sep, tss, sept, p);
        let last = parts.len() - 1;
        assert(render_inline(parts[last]) == join(ts[last], p));
        assert(ts[last].len() > 0);
        lemma_render_inline_concat(join(ps, sep), sep);
        lemma_render_inline_concat(join(ps, sep) + sep, parts.last());
        assert(join(lit(sept), p) == sept);
        lemma_tcat(tjoin(tss, sept), lit(sept), p);
        lemma_tcat(tcat(tjoin(tss, sept), lit(sept)), ts.last(), p);
    }
}

/// The template of `column = value` for one domain identifier.
pub open spec fn id_template(x: (Seq<char>, IdValue)) -> Seq<Seq<char>> {
    seq![Seq::empty(), x.0 + " = "@ + piece_inline(PieceView::Bind(x.1))]
}

/// The template of the condition of one event.
pub open spec fn event_template(e: Seq<char>, ids: Seq<(Seq<char>, IdValue)>, schema: EventSchema) -> Seq<Seq<char>> {
    let sel = identifiers_among(ids, info_of(schema, e).identifier_keys());
    tcat(
        tcat(
            seq!["("@, "event_type = "@ + piece_inline(PieceView::Bind(IdValue::Text(e)))],
            if sel.len() > 0 {
                tcat(lit(" AND "@), tjoin(sel.map_values(|x: (Seq<char>, IdValue)| id_template(x)), " AND "@))
            } else {
                lit(Seq::empty())
            },
        ),
        lit(")"@),
    )
}

/// The template of the origin condition of a filter.
pub open spec fn origin_template(f: FilterView) -> Seq<Seq<char>> {
    if f.origin > 0 {
        tcat(
            seq![Seq::empty(), "event_id > "@ + int_decimal(f.origin as int)],
            if active_events(f).len() > 0 {
                lit(" AND ("@)
            } else {
                lit(Seq::empty())
            },
        )
    } else {
        lit(Seq::empty())
    }
}

/// The template of the conditions of the events of a filter.
pub open spec fn events_template(f: FilterView, schema: EventSchema) -> Seq<Seq<char>> {
    tjoin(active_events(f).map_values(|e: Seq<char>| event_template(e, f.identifiers, schema)), " OR "@)
}

/// The template of the condition of one filter.
pub open spec fn filter_template(f: FilterView, schema: EventSchema) -> Seq<Seq<char>> {
    tcat(
        tcat(
            tcat(tcat(lit("("@), origin_template(f)), events_template(f, schema)),
            if f.origin > 0 && active_events(f).len() > 0 {
                lit(")"@)
            } else {
                lit(Seq::empty())
            },
        ),
        lit(")"@),
    )
}

/// The template of the criteria of a query: the criteria text cut at every place where a
/// column prefix stands.
pub open spec fn criteria_template(q: Seq<FilterView>, schema: EventSchema) -> Seq<Seq<char>> {
    tjoin(q.map_values(|f: FilterView| filter_template(f, schema)), " OR "@)
}

proof fn lemma_render_two(a: PieceView, b: PieceView)
    ensures
        render_inline(seq![a, b]) == piece_inline(a) + piece_inline(b),
        render_inline(seq![a]) == piece_inline(a),
{
    reveal_with_fuel(render_inline, 3);
    assert(seq![a, b].drop_last() =~= seq![a]);
    assert(seq![a].drop_last() =~= Seq::<PieceView>::empty());
    assert(render_inline(Seq::<PieceView>::empty()) == Seq::<char>::empty());
    assert(Seq::<char>::empty() + piece_inline(a) =~= piece_inline(a));
}

proof fn lemma_join_two(x: Seq<char>, y: Seq<char>, p: Seq<char>)
    ensures
        join(seq![x, y], p) == x + p + y,
        join(seq![x], p) == x,
{
    reveal_with_fuel(join, 3);
    assert(seq![x, y].drop_last() =~= seq![x]);
}

proof fn lemma_id_template(x: (Seq<char>, IdValue), p: Seq<char>)
    ensures
        id_template(x).len() > 0,
        render_inline(id_pieces(x, p)) == join(id_template(x), p),
{
    lemma_render_two(PieceView::Text(p + x.0 + " = "@), PieceView::Bind(x.1));
    lemma_join_two(Seq::empty(), x.0 + " = "@ + piece_inline(PieceView::Bind(x.1)), p);
    assert(p + x.0 + " = "@ + piece_inline(PieceView::Bind(x.1)) =~= Seq::<char>::empty() + p + (x.0 + " = "@
        + piece_inline(PieceView::Bind(x.1))));
}

proof fn lemma_event_template(e: Seq<char>, ids: Seq<(Seq<char>, IdValue)>, schema: EventSchema, p: Seq<char>)
    ensures
        event_template(e, ids, schema).len() > 0,
        render_inline(event_pieces(e, ids, schema, p)) == join(event_template(e, ids, schema), p),
{
    let sel = identifiers_among(ids, info_of(schema, e).identifier_keys());
    let head = seq![PieceView::Text("("@ + p + "event_type = "@), PieceView::Bind(IdValue::Text(e))];
    let head_t = seq!["("@, "event_type = "@ + piece_inline(PieceView::Bind(IdValue::Text(e)))];
    lemma_render_two(head[0], head[1]);
    lemma_join_two(head_t[0], head_t[1], p);
    assert(render_inline(head) == join(head_t, p)) by {
        assert(("("@ + p + "event_type = "@) + piece_inline(PieceView::Bind(IdValue::Text(e))) =~= "("@ + p + (
        "event_type = "@ + piece_inline(PieceView::Bind(IdValue::Text(e)))));
    }
    let mid = if sel.len() > 0 {
        seq![PieceView::Text(" AND "@)] + join(
            sel.map_values(|x: (Seq<char>, IdValue)| id_pieces(x, p)),
            seq![PieceView::Text(" AND "@)],
        )
    } else {
        Seq::empty()
    };
    let mid_t = if sel.len() > 0 {
        tcat(lit(" AND "@), tjoin(sel.map_values(|x: (Seq<char>, IdValue)| id_template(x)), " AND "@))
    } else {
        lit(Seq::empty())
    };
    let tail = seq![PieceView::Text(")"@)];
    lemma_render_two(tail[0], tail[0]);
    lemma_render_two(PieceView::Text(" AND "@), PieceView::Text(" AND "@));
    assert(render_inline(mid) == join(mid_t, p) && mid_t.len() > 0) by {
        if sel.len() > 0 {
            let parts = sel.map_values(|x: (Seq<char>, IdValue)| id_pieces(x, p));
            let ts = sel.map_values(|x: (Seq<char>, IdValue)| id_template(x));
            assert forall|i: int| 0 <= i < ts.len() implies (#[trigger] ts[i]).len() > 0 by {
                lemma_id_template(sel[i], p);
            }
            assert forall|i: int| 0 <= i < ts.len() implies render_inline(#[trigger] parts[i]) == join(ts[i], p) by {
                lemma_id_template(sel[i], p);
            }
            lemma_render_join(parts, seq![PieceView::Text(" AND "@)], ts, " AND "@, p);
            lemma_render_inline_concat(seq![PieceView::Text(" AND "@)], join(parts, seq![PieceView::Text(" AND "@)]));
            lemma_tcat(lit(" AND "@), tjoin(ts, " AND "@), p);
        } else {
            assert(render_inline(Seq::<PieceView>::empty()) == Seq::<char>::empty());
        }
    }
    assert(event_pieces(e, ids, schema, p) == head + mid + tail);
    lemma_render_inline_concat(head, mid);
    lemma_render_inline_concat(head + mid, tail);
    lemma_tcat(head_t, mid_t, p);
    lemma_tcat(tcat(head_t, mid_t), lit(")"@), p);
}

proof fn lemma_origin_template(f: FilterView, p: Seq<char>)
    ensures
        origin_template(f).len() > 0,
        render_inline(origin_pieces(f, p)) == join(origin_template(f), p),
{
    assert(render_inline(Seq::<PieceView>::empty()) == Seq::<char>::empty());
    if f.origin > 0 {
        let head = seq![PieceView::Text(p + "event_id > "@), PieceView::Bind(IdValue::Int(f.origin))];
        let head_t = seq![Seq::<char>::empty(), "event_id > "@ + int_decimal(f.origin as int)];
        lemma_render_two(head[0], head[1]);
        lemma_join_two(head_t[0], head_t[1], p);
        assert(render_inline(head) == join(head_t, p)) by {
            assert((p + "event_id > "@) + int_decimal(f.origin as int) =~= Seq::<char>::empty() + p + (
            "event_id > "@ + int_decimal(f.origin as int)));
        }
        let more = if active_events(f).len() > 0 {
            seq![PieceView::Text(" AND ("@)]
        } else {
            Seq::empty()
        };
        lemma_render_two(PieceView::Text(" AND ("@), PieceView::Text(" AND ("@));
        assert(origin_pieces(f, p) == head + more);
        lemma_render_inline_concat(head, more);
        lemma_tcat(
            head_t,
            if active_events(f).len() > 0 {
                lit(" AND ("@)
            } else {
                lit(Seq::empty())
            },
            p,
        );
    }
}

proof fn lemma_events_template(f: FilterView, schema: EventSchema, p: Seq<char>)
    ensures
        events_template(f, schema).len() > 0,
        render_inline(events_pieces(f, schema, p)) == join(events_template(f, schema), p),
{
    let es = active_events(f);
    let parts = es.map_values(|e: Seq<char>| event_pieces(e, f.identifiers, schema, p));
    let ts = es.map_values(|e: Seq<char>| event_template(e, f.identifiers, schema));
    assert forall|i: int| 0 <= i < ts.len() implies (#[trigger] ts[i]).len() > 0 by {
        lemma_event_template(es[i], f.identifiers, schema, p);
    }
    assert forall|i: int| 0 <= i < ts.len() implies render_inline(#[trigger] parts[i]) == join(ts[i], p) by {
        lemma_event_template(es[i], f.identifiers, schema, p);
    }
    lemma_render_two(PieceView::Text(" OR "@), PieceView::Text(" OR "@));
    lemma_render_join(parts, seq![PieceView::Text(" OR "@)], ts, " OR "@, p);
}

proof fn lemma_filter_template(f: FilterView, schema: EventSchema, p: Seq<char>)
    ensures
        filter_template(f, schema).len() > 0,
        render_inline(filter_pieces(f, schema, p)) == join(filter_template(f, schema), p),
{
    let open = seq![PieceView::Text("("@)];
    let close = if f.origin > 0 && active_events(f).len() > 0 {
        seq![PieceView::Text(")"@)]
    } else {
        Seq::empty()
    };
    let close_t = if f.origin > 0 && active_events(f).len() > 0 {
        lit(")"@)
    } else {
        lit(Seq::empty())
    };
    let end = seq![PieceView::Text(")"@)];
    lemma_render_two(PieceView::Text("("@), PieceView::Text("("@));
    lemma_render_two(PieceView::Text(")"@), PieceView::Text(")"@));
    assert(render_inline(Seq::<PieceView>::empty()) == Seq::<char>::empty());
    lemma_origin_template(f, p);
    lemma_events_template(f, schema, p);
    let o = origin_pieces(f, p);
    let ev = events_pieces(f, schema, p);
    assert(filter_pieces(f, schema, p) == open + o + ev + close + end);
    lemma_render_inline_concat(open, o);
    lemma_render_inline_concat(open + o, ev);
    lemma_render_inline_concat(open + o + ev, close);
    lemma_render_inline_concat(open + o + ev + close, end);
    lemma_tcat(lit("("@), origin_template(f), p);
    lemma_tcat(tcat(lit("("@), origin_template(f)), events_template(f, schema), p);
    lemma_tcat(tcat(tcat(lit("("@), origin_template(f)), events_template(f, schema)), close_t, p);
    lemma_tcat(tcat(tcat(tcat(lit("("@), origin_template(f)), events_template(f, schema)), close_t), lit(")"@), p);
}

/// The criteria rendered with any column prefix fill the criteria template with that prefix.
proof fn lemma_criteria_template(q: Seq<FilterView>, schema: EventSchema, p: Seq<char>)
    ensures
        render_inline(criteria_pieces(q, schema, p)) == join(criteria_template(q, schema), p),
{
    let parts = q.map_values(|f: FilterView| filter_pieces(f, schema, p));
    let ts = q.map_values(|f: FilterView| filter_template(f, schema));
    assert forall|i: int| 0 <= i < ts.len() implies (#[trigger] ts[i]).len() > 0 by {
        lemma_filter_template(q[i], schema, p);
    }
    assert forall|i: int| 0 <= i < ts.len() implies render_inline(#[trigger] parts[i]) == join(ts[i], p) by {
        lemma_filter_template(q[i], schema, p);
    }
    lemma_render_two(PieceView::Text(" OR "@), PieceView::Text(" OR "@));
    lemma_render_join(parts, seq![PieceView::Text(" OR "@)], ts, " OR "@, p);
}

/// Whether a segment begins with a column of the criteria of `q`: `event_id`, `event_type`,
/// or the key of a domain identifier of one of its filters.
pub open spec fn begins_with_column(seg: Seq<char>, q: Seq<FilterView>) -> bool {
    ||| "event_id > "@.is_prefix_of(seg)
    ||| "event_type = "@.is_prefix_of(seg)
    ||| exists|i: int, j: int|
        0 <= i < q.len() && 0 <= j < q[i].identifiers.len() && ((#[trigger] q[i].identifiers[j]).0
            + " = "@).is_prefix_of(seg)
}

/// Every segment of the template but the first begins with a column of `q`: the prefix
/// stands only before columns.
pub open spec fn prefixes_columns(t: Seq<Seq<char>>, q: Seq<FilterView>) -> bool {
    forall|i: int| 1 <= i < t.len() ==> begins_with_column(#[trigger] t[i], q)
}

proof fn lemma_begins_append(seg: Seq<char>, more: Seq<char>, q: Seq<FilterView>)
    requires
        begins_with_column(seg, q),
    ensures
        begins_with_column(seg + more, q),
{
    let s2 = seg + more;
    if "event_id > "@.is_prefix_of(seg) {
        assert(s2.subrange(0, "event_id > "@.len() as int) =~= seg.subrange(0, "event_id > "@.len() as int));
    } else if "event_type = "@.is_prefix_of(seg) {
        assert(s2.subrange(0, "event_type = "@.len() as int) =~= seg.subrange(0, "event_type = "@.len() as int));
    } else {
        let (i, j) = choose|i: int, j: int|
            0 <= i < q.len() && 0 <= j < q[i].identifiers.len() && ((#[trigger] q[i].identifiers[j]).0
                + " = "@).is_prefix_of(seg);
        let n: int = (q[i].identifiers[j].0 + " = "@).len() as int;
        assert(s2.subrange(0, n) =~= seg.subrange(0, n));
    }
}

proof fn lemma_tcat_columns(a: Seq<Seq<char>>, b: Seq<Seq<char>>, q: Seq<FilterView>)
    requires
        a.len() > 0,
        b.len() > 0,
        prefixes_columns(a, q),
        prefixes_columns(b, q),
    ensures
        prefixes_columns(tcat(a, b), q),
{
    let t = tcat(a, b);
    let k = a.len() - 1;
    assert forall|i: int| 1 <= i < t.len() implies begins_with_column(#[trigger] t[i], q) by {
        if i < k {
            assert(t[i] == a[i]);
        } else if i == k {
            assert(t[i] == a[k] + b[0]);
            lemma_begins_append(a[k], b[0], q);
        } else {
            assert(t[i] == b[i - k]);
        }
    }
}

proof fn lemma_tjoin_columns(ts: Seq<Seq<Seq<char>>>, sep: Seq<char>, q: Seq<FilterView>)
    requires
        forall|i: int| 0 <= i < ts.len() ==> (#[trigger] ts[i]).len() > 0 && prefixes_columns(ts[i], q),
    ensures
        tjoin(ts, sep).len() > 0,
        prefixes_columns(tjoin(ts, sep), q),
    decreases ts.len(),
{
    if ts.len() > 1 {
        let tss = ts.drop_last();
        assert forall|i: int| 0 <= i < tss.len() implies (#[trigger] tss[i]).len() > 0 && prefixes_columns(tss[i], q) by {
            assert(tss[i] == ts[i]);
        }
        lemma_tjoin_columns(tss, sep, q);
        let last = ts.len() - 1;
        assert(ts[last].len() > 0 && prefixes_columns(ts[last], q));
        lemma_tcat(tjoin(tss, sep), lit(sep), Seq::empty());
        lemma_tcat_columns(tjoin(tss, sep), lit(sep), q);
        lemma_tcat(tcat(tjoin(tss, sep), lit(sep)), ts.last(), Seq::empty());
        lemma_tcat_columns(tcat(tjoin(tss, sep), lit(sep)), ts.last(), q);
    } else if ts.len() == 1 {
        assert(ts[0].len() > 0 && prefixes_columns(ts[0], q));
    }
}

proof fn lemma_event_columns(e: Seq<char>, q: Seq<FilterView>, fi: int, schema: EventSchema)
    requires
        0 <= fi < q.len(),
    ensures
        prefixes_columns(event_template(e, q[fi].identifiers, schema), q),
{
    let ids = q[fi].identifiers;
    let sel = identifiers_among(ids, info_of(schema, e).identifier_keys());
    let head_t = seq!["("@, "event_type = "@ + piece_inline(PieceView::Bind(IdValue::Text(e)))];
    assert(prefixes_columns(head_t, q)) by {
        assert("event_type = "@.is_prefix_of(head_t[1])) by {
            assert(head_t[1].subrange(0, "event_type = "@.len() as int) =~= "event_type = "@);
        }
    }
    let ts = sel.map_values(|x: (Seq<char>, IdValue)| id_template(x));
    assert forall|k: int| 0 <= k < ts.len() implies (#[trigger] ts[k]).len() > 0 && prefixes_columns(ts[k], q) by {
        let x = sel[k];
        assert(ts[k] == id_template(x));
        lemma_filter_in(ids, |p: (Seq<char>, IdValue)| has_str(info_of(schema, e).identifier_keys(), p.0), k);
        assert(ids.contains(x));
        let j = choose|j: int| 0 <= j < ids.len() && ids[j] == x;
        let seg = ts[k][1];
        assert(seg == x.0 + " = "@ + piece_inline(PieceView::Bind(x.1)));
        assert((x.0 + " = "@).is_prefix_of(seg)) by {
            assert(seg.subrange(0, (x.0 + " = "@).len() as int) =~= x.0 + " = "@);
        }
        assert(q[fi].identifiers[j] == x);
        assert(begins_with_column(seg, q));
    }
    let mid_t = if sel.len() > 0 {
        tcat(lit(" AND "@), tjoin(ts, " AND "@))
    } else {
        lit(Seq::empty())
    };
    assert(mid_t.len() > 0 && prefixes_columns(mid_t, q)) by {
        if sel.len() > 0 {
            lemma_tjoin_columns(ts, " AND "@, q);
            lemma_tcat(lit(" AND "@), tjoin(ts, " AND "@), Seq::empty());
            lemma_tcat_columns(lit(" AND "@), tjoin(ts, " AND "@), q);
        }
    }
    lemma_tcat(head_t, mid_t, Seq::empty());
    lemma_tcat_columns(head_t, mid_t, q);
    lemma_tcat_columns(tcat(head_t, mid_t), lit(")"@), q);
}

proof fn lemma_filter_columns(q: Seq<FilterView>, fi: int, schema: EventSchema)
    requires
        0 <= fi < q.len(),
    ensures
        prefixes_columns(filter_template(q[fi], schema), q),
{
    let f = q[fi];
    lemma_origin_template(f, Seq::empty());
    lemma_events_template(f, schema, Seq::empty());
    assert(prefixes_columns(origin_template(f), q)) by {
        if f.origin > 0 {
            let head_t = seq![Seq::<char>::empty(), "event_id > "@ + int_decimal(f.origin as int)];
            assert("event_id > "@.is_prefix_of(head_t[1])) by {
                assert(head_t[1].subrange(0, "event_id > "@.len() as int) =~= "event_id > "@);
            }
            assert(prefixes_columns(head_t, q));
            lemma_tcat_columns(
                head_t,
                if active_events(f).len() > 0 {
                    lit(" AND ("@)
                } else {
                    lit(Seq::empty())
                },
                q,
            );
        }
    }
    let es = active_events(f);
    let ts = es.map_values(|e: Seq<char>| event_template(e, f.identifiers, schema));
    assert forall|k: int| 0 <= k < ts.len() implies (#[trigger] ts[k]).len() > 0 && prefixes_columns(ts[k], q) by {
        lemma_event_template(es[k], f.identifiers, schema, Seq::empty());
        lemma_event_columns(es[k], q, fi, schema);
    }
    lemma_tjoin_columns(ts, " OR "@, q);
    let close_t = if f.origin > 0 && active_events(f).len() > 0 {
        lit(")"@)
    } else {
        lit(Seq::empty())
    };
    lemma_tcat(lit("("@), origin_template(f), Seq::empty());
    lemma_tcat_columns(lit("("@), origin_template(f), q);
    lemma_tcat(tcat(lit("("@), origin_template(f)), events_template(f, schema), Seq::empty());
    lemma_tcat_columns(tcat(lit("("@), origin_template(f)), events_template(f, schema), q);
    lemma_tcat(tcat(tcat(lit("("@), origin_template(f)), events_template(f, schema)), close_t, Seq::empty());
    lemma_tcat_columns(tcat(tcat(lit("("@), origin_template(f)), events_template(f, schema)), close_t, q);
    lemma_tcat_columns(
        tcat(tcat(tcat(lit("("@), origin_template(f)), events_template(f, schema)), close_t),
        lit(")"@),
        q,
    );
}

/// The criteria with an alias are the plain criteria with `alias.` put at every place where
/// a column prefix stands: both fill one template, the plain text with nothing between its
/// segments and the aliased text with `alias.`.
pub proof fn lemma_alias_prefixes_columns(q: Seq<FilterView>, schema: EventSchema, alias: Seq<char>)
    ensures
        render_inline(criteria_pieces(q, schema, alias_prefix(Some(alias)))) == join(
            criteria_template(q, schema),
            alias + "."@,
        ),
        render_inline(criteria_pieces(q, schema, alias_prefix(None))) == join(
            criteria_template(q, schema),
            Seq::empty(),
        ),
        prefixes_columns(criteria_template(q, schema), q),
{
    lemma_criteria_template(q, schema, alias + "."@);
    lemma_criteria_template(q, schema, Seq::empty());
    let ts = q.map_values(|f: FilterView| filter_template(f, schema));
    assert forall|i: int| 0 <= i < ts.len() implies (#[trigger] ts[i]).len() > 0 && prefixes_columns(ts[i], q) by {
        lemma_filter_template(q[i], schema, Seq::empty());
        lemma_filter_columns(q, i, schema);
    }
    lemma_tjoin_columns(ts, " OR "@, q);
}

/// A builder of the SQL criteria of a stream query.
pub struct CriteriaBuilder<'a, QE: Event> {
    query: &'a StreamQuery<QE>,
    builder: String,
    alias: Option<&'a str>,
}

impl<'a, QE: Event> View for CriteriaBuilder<'a, QE> {
    /// The query, the text built so far, and the alias.
    type V = (Seq<FilterView>, Seq<char>, Option<Seq<char>>);

    closed spec fn view(&self) -> (Seq<FilterView>, Seq<char>, Option<Seq<char>>) {
        (
            self.query@,
            self.builder@,
            match self.alias {
                Some(a) => Some(a@),
                None => None,
            },
        )
    }
}

impl<'a, QE: Event> CriteriaBuilder<'a, QE> {
    /// A builder for the given query, with no alias.
    pub fn new(query: &'a StreamQuery<QE>) -> (r: Self)
        ensures
            r@ == (query@, Seq::<char>::empty(), Option::<Seq<char>>::None),
    {
        CriteriaBuilder { query, builder: String::new(), alias: None }
    }

    /// The same builder, prefixing every column with `alias.`.
    pub fn alias(self, alias: &'a str) -> (r: Self)
        ensures
            r@ == (self@.0, self@.1, Some(alias@)),
    {
        CriteriaBuilder { alias: Some(alias), ..self }
    }

    /// Builds the SQL criteria: for each filter, its origin condition and the conditions of
    /// its events, each with the domain identifiers that event carries; filters and events
    /// joined by `OR`.
    pub fn build(self) -> (r: String)
        requires
            events_known(self@.0, QE::spec_schema()),
        ensures
            r@ == self@.1 + render_inline(criteria_pieces(self@.0, QE::spec_schema(), alias_prefix(self@.2))),
    {
        let mut prefix = String::new();
        match self.alias {
            Some(a) => {
                prefix.append(a);
                prefix.append(".");
            },
            None => {},
        }
        let pieces = criteria_pieces_of(self.query, prefix.as_str());
        let mut builder = self.builder;
        render_pieces_inline(&mut builder, &pieces);
        builder
    }
}

} // verus!
