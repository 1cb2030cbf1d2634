//! The update that indexes the domain identifiers of an event into the columns of the
//! `event` table.
use vstd::prelude::*;

use crate::domain_identifier::{DomainIdentifier, DomainIdentifierSet};
use crate::identifier::{IdValue, IdentifierValue};
use crate::postgres::criteria::{pieces_view, push_piece, push_text, PieceView, SqlPiece};
use crate::postgres::pg_query::{builder_arguments, builder_sql, new_builder, BindView, PgQueryBuilder};
use crate::postgres::query::{
    all_encodable, bind_view, binds_of, concat_all, lemma_binds_concat, lemma_binds_join, lemma_binds_single,
    lemma_concat_singletons, pieces_encodable, push_pieces_bound, render_bound,
};
use crate::text::{join, lemma_join_push};

verus! {

/// `column = value` for one domain identifier.
pub open spec fn assignment_pieces(p: (Seq<char>, IdValue)) -> Seq<PieceView> {
    seq![PieceView::Text(p.0 + " = "@), PieceView::Bind(p.1)]
}

/// The pieces after `UPDATE event SET `: the assignments joined by `,`, then the condition
/// on the event ID.
pub open spec fn update_pieces(ids: Seq<(Seq<char>, IdValue)>, event_id: i64) -> Seq<PieceView> {
    join(ids.map_values(|p: (Seq<char>, IdValue)| assignment_pieces(p)), seq![PieceView::Text(","@)])
        + seq![PieceView::Text(" WHERE event_id = "@), PieceView::Bind(IdValue::Int(event_id))]
}

/// The update binds each domain identifier's own value, in key order, then the event ID:
/// the column of every identifier is set to the value the event has for it.
pub proof fn lemma_update_binds(ids: Seq<(Seq<char>, IdValue)>, event_id: i64)
    ensures
        binds_of(update_pieces(ids, event_id)) == ids.map_values(|p: (Seq<char>, IdValue)| bind_view(p.1)).push(
            BindView::Int(event_id),
        ),
{
    let parts = ids.map_values(|p: (Seq<char>, IdValue)| assignment_pieces(p));
    let sep = seq![PieceView::Text(","@)];
    lemma_binds_single(PieceView::Text(","@));
    lemma_binds_join(parts, sep);
    let bs = parts.map_values(|x: Seq<PieceView>| binds_of(x));
    assert forall|i: int| 0 <= i < bs.len() implies (#[trigger] bs[i]).len() == 1 && bs[i][0] == bind_view(
        ids[i].1,
    ) by {
        let a = assignment_pieces(ids[i]);
        assert(a == seq![PieceView::Text(ids[i].0 + " = "@)] + seq![PieceView::Bind(ids[i].1)]);
        lemma_binds_concat(seq![PieceView::Text(ids[i].0 + " = "@)], seq![PieceView::Bind(ids[i].1)]);
        lemma_binds_single(PieceView::Text(ids[i].0 + " = "@));
        lemma_binds_single(PieceView::Bind(ids[i].1));
        assert(binds_of(a) =~= seq![bind_view(ids[i].1)]);
    }
    lemma_concat_singletons(bs);
    assert(bs.map_values(|x: Seq<BindView>| x[0]) =~= ids.map_values(|p: (Seq<char>, IdValue)| bind_view(p.1)));
    let tail = seq![PieceView::Text(" WHERE event_id = "@), PieceView::Bind(IdValue::Int(event_id))];
    assert(tail == seq![PieceView::Text(" WHERE event_id = "@)] + seq![PieceView::Bind(IdValue::Int(event_id))]);
    lemma_binds_concat(seq![PieceView::Text(" WHERE event_id = "@)], seq![PieceView::Bind(IdValue::Int(event_id))]);
    lemma_binds_single(PieceView::Text(" WHERE event_id = "@));
    lemma_binds_single(PieceView::Bind(IdValue::Int(event_id)));
    lemma_binds_concat(join(parts, sep), tail);
    assert(binds_of(tail) =~= seq![BindView::Int(event_id)]);
}

fn update_pieces_of(event_id: i64, ids: &DomainIdentifierSet) -> (r: Vec<SqlPiece>)
    ensures
        pieces_view(r@) == update_pieces(ids@, event_id),
{
    let ghost all = ids@;
    let ghost af = |p: (Seq<char>, IdValue)| assignment_pieces(p);
    let ghost sep = seq![PieceView::Text(","@)];
    let mut out: Vec<SqlPiece> = Vec::new();
    let n = ids.len();
    let mut k: usize = 0;
    proof {
        assert(pieces_view(out@) =~= join(all.take(0).map_values(af), sep));
    }
    while k < n
        invariant
            n == all.len(),
            k <= n,
            all == ids@,
            af == (|p: (Seq<char>, IdValue)| assignment_pieces(p)),
            sep == seq![PieceView::Text(","@)],
            pieces_view(out@) == join(all.take(k as int).map_values(af), sep),
        decreases n - k,
    {
        let ghost prev = all.take(k as int);
        let entry: &DomainIdentifier = ids.entry(k);
        if k > 0 {
            push_text(&mut out, ",");
        }
        let mut t = String::from_str(entry.key.into_inner());
        t.append(" = ");
        push_text(&mut out, t.as_str());
        push_piece(&mut out, SqlPiece::Bind(entry.value.clone()));
        proof {
            assert(all[k as int] == entry@);
            assert(all.take(k + 1) =~= prev.push(entry@));
            assert(prev.push(entry@).map_values(af) =~= prev.map_values(af).push(af(entry@)));
            lemma_join_push(prev.map_values(af), sep, af(entry@));
            if k == 0 {
                assert(join(prev.map_values(af), sep) =~= Seq::<PieceView>::empty());
            }
            assert(pieces_view(out@) =~= join(all.take(k + 1).map_values(af), sep));
        }
        k = k + 1;
    }
    push_text(&mut out, " WHERE event_id = ");
    push_piece(&mut out, SqlPiece::Bind(IdentifierValue::i64(event_id)));
    proof {
        assert(all.take(n as int) =~= all);
        assert(pieces_view(out@) =~= update_pieces(ids@, event_id));
    }
    out
}

/// Whether every value that the update binds can be encoded (what `sql_builder` needs).
pub fn update_encodable(event_id: i64, domain_identifiers: &DomainIdentifierSet) -> (r: bool)
    ensures
        r == all_encodable(update_pieces(domain_identifiers@, event_id)),
{
    let pieces = update_pieces_of(event_id, domain_identifiers);
    pieces_encodable(&pieces)
}

/// The query that writes the domain identifiers of an event into their columns:
/// `UPDATE event SET k1 = $1,k2 = $2 WHERE event_id = $3`, with the identifiers in key order
/// and every value bound.
pub fn sql_builder(event_id: i64, domain_identifiers: DomainIdentifierSet) -> (r: PgQueryBuilder)
    requires
        all_encodable(update_pieces(domain_identifiers@, event_id)),
    ensures
        builder_sql(r) == "UPDATE event SET "@ + render_bound(update_pieces(domain_identifiers@, event_id), 0),
        builder_arguments(r) == Some(binds_of(update_pieces(domain_identifiers@, event_id))),
        builder_arguments(r) == Some(
            domain_identifiers@.map_values(|p: (Seq<char>, IdValue)| bind_view(p.1)).push(BindView::Int(event_id)),
        ),
{
    proof {
        lemma_update_binds(domain_identifiers@, event_id);
    }
    let pieces = update_pieces_of(event_id, &domain_identifiers);
    let mut builder = new_builder(String::from_str("UPDATE event SET "));
    push_pieces_bound(&mut builder, &pieces);
    proof {
        assert(Seq::<BindView>::empty() + binds_of(update_pieces(domain_identifiers@, event_id)) =~= binds_of(
            update_pieces(domain_identifiers@, event_id),
        ));
    }
    builder
}

} // verus!
